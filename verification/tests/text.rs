use sess::text::{
    compare_strs, decimal_string, lines, parse_u32, split_n, trim, trim_end, words, Order,
};

#[test]
fn parse_u32_agrees_with_std() {
    let inputs = [
        "", "0", "7", "+7", "-7", "+", "-", "42x", " 4", "4294967295", "4294967296", "99999999999",
        "007", "++1", "١٢", "12 ",
    ];
    for s in inputs {
        assert_eq!(parse_u32(s), s.parse::<u32>().ok(), "input {s:?}");
    }
}

#[test]
fn lines_agree_with_std() {
    let inputs = ["", "a", "a\n", "a\nb", "a\r\nb\r\n", "\n\n", "a\r", "\r\n", "x\ny\r\rz"];
    for s in inputs {
        let expected: Vec<String> = s.lines().map(|l| l.to_string()).collect();
        assert_eq!(lines(s), expected, "input {s:?}");
    }
}

#[test]
fn split_and_trim_agree_with_std() {
    let inputs = ["", "a", "a\tb", "a\tb\tc\td", "\t\t", "a\t"];
    for s in inputs {
        for n in 1..5usize {
            let expected: Vec<String> = s.splitn(n, '\t').map(|p| p.to_string()).collect();
            assert_eq!(split_n(s, n, '\t'), expected, "input {s:?} n {n}");
        }
    }
    for s in ["", "  ", " a b ", "\u{3000}x\u{a0}", "\tq\r\n", "\u{200b}z"] {
        assert_eq!(trim(s), s.trim(), "input {s:?}");
        assert_eq!(trim_end(s), s.trim_end(), "input {s:?}");
    }
}

#[test]
fn names_compare_like_strings() {
    let names = ["", "a", "b", "ab", "B", "é", "z", "a\u{10000}"];
    for x in names {
        for y in names {
            let expected = match x.cmp(y) {
                std::cmp::Ordering::Less => Order::Less,
                std::cmp::Ordering::Equal => Order::Equal,
                std::cmp::Ordering::Greater => Order::Greater,
            };
            assert_eq!(compare_strs(x, y), expected, "{x:?} vs {y:?}");
        }
    }
    assert_eq!(decimal_string(0), "0");
    assert_eq!(decimal_string(u64::MAX), u64::MAX.to_string());
}

#[test]
fn words_agree_with_split_whitespace() {
    let inputs = ["", " ", "a", " a b  c ", "12 34\n56\t7", "x\u{3000}y", "\u{a0}z "];
    for s in inputs {
        let expected: Vec<String> = s.split_whitespace().map(str::to_string).collect();
        assert_eq!(words(s), expected, "input {s:?}");
    }
}
