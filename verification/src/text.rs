//! Text primitives shared by the rest of the library: character access,
//! string building, ordering of names, decimal numbers.
use vstd::prelude::*;

verus! {

/// Result of comparing two names.
#[derive(Clone, Copy, Debug, PartialEq, Eq)]
pub enum Order {
    Less,
    Equal,
    Greater,
}

/// Strict lexicographic order on character sequences, comparing characters
/// by their scalar value. This is the order of `String`'s `Ord` (UTF-8
/// preserves the order of scalar values byte by byte).
pub open spec fn lex_lt(a: Seq<char>, b: Seq<char>) -> bool
    decreases a.len(),
{
    if a.len() == 0 {
        b.len() > 0
    } else if b.len() == 0 {
        false
    } else if a[0] != b[0] {
        (a[0] as int) < (b[0] as int)
    } else {
        lex_lt(a.drop_first(), b.drop_first())
    }
}

pub proof fn lemma_lex_irreflexive(a: Seq<char>)
    ensures
        !lex_lt(a, a),
    decreases a.len(),
{
    if a.len() > 0 {
        lemma_lex_irreflexive(a.drop_first());
    }
}

pub proof fn lemma_lex_asymmetric(a: Seq<char>, b: Seq<char>)
    requires
        lex_lt(a, b),
    ensures
        !lex_lt(b, a),
    decreases a.len(),
{
    if a.len() > 0 && b.len() > 0 && a[0] == b[0] {
        lemma_lex_asymmetric(a.drop_first(), b.drop_first());
    }
}

pub proof fn lemma_lex_transitive(a: Seq<char>, b: Seq<char>, c: Seq<char>)
    requires
        lex_lt(a, b),
        lex_lt(b, c),
    ensures
        lex_lt(a, c),
    decreases a.len(),
{
    if a.len() > 0 && b.len() > 0 && c.len() > 0 && a[0] == b[0] && b[0] == c[0] {
        lemma_lex_transitive(a.drop_first(), b.drop_first(), c.drop_first());
    }
}

pub proof fn lemma_lex_total(a: Seq<char>, b: Seq<char>)
    ensures
        a == b || lex_lt(a, b) || lex_lt(b, a),
    decreases a.len(),
{
    if a.len() > 0 && b.len() > 0 && a[0] == b[0] {
        lemma_lex_total(a.drop_first(), b.drop_first());
        if a.drop_first() == b.drop_first() {
            assert(a =~= seq![a[0]] + a.drop_first());
            assert(b =~= seq![b[0]] + b.drop_first());
        }
    } else if a.len() == 0 && b.len() == 0 {
        assert(a =~= b);
    } else if a.len() > 0 && b.len() > 0 {
        assert((a[0] as int) != (b[0] as int));
    }
}

/// Whether `a` comes strictly before `b` in the order of `lex_lt`, and what
/// the three-way comparison of `a` and `b` is.
pub open spec fn order_of(a: Seq<char>, b: Seq<char>) -> Order {
    if a == b {
        Order::Equal
    } else if lex_lt(a, b) {
        Order::Less
    } else {
        Order::Greater
    }
}

/// The characters of `s`, in order.
pub fn chars_of(s: &str) -> (out: Vec<char>)
    ensures
        out@ == s@,
{
    let mut out: Vec<char> = Vec::new();
    for c in it: s.chars()
        invariant
            out@ == it.seq().take(it.index() as int),
            it.seq() == s@,
    {
        out.push(c);
    }
    out
}

/// Appends one character to a string (`String::push`).
#[verifier::external_body]
pub fn push_char(s: &mut String, c: char)
    ensures
        final(s)@ == old(s)@.push(c),
{
    s.push(c);
}

/// Appends characters to a string, in order.
pub fn push_chars(s: &mut String, cs: &[char])
    ensures
        final(s)@ == old(s)@ + cs@,
{
    let ghost start = s@;
    let mut i: usize = 0;
    while i < cs.len()
        invariant
            i <= cs@.len(),
            s@ == start + cs@.take(i as int),
        decreases cs@.len() - i,
    {
        push_char(s, cs[i]);
        i = i + 1;
        assert(cs@.take(i as int) =~= cs@.take(i - 1).push(cs@[i - 1]));
    }
    assert(cs@.take(cs@.len() as int) =~= cs@);
}

/// A string holding exactly the given characters.
pub fn string_of(cs: &[char]) -> (out: String)
    ensures
        out@ == cs@,
{
    let mut out = String::new();
    push_chars(&mut out, cs);
    assert(Seq::<char>::empty() + cs@ =~= cs@);
    out
}

/// Appends a string slice to a string.
pub fn push_str(s: &mut String, t: &str)
    ensures
        final(s)@ == old(s)@ + t@,
{
    let cs = chars_of(t);
    push_chars(s, cs.as_slice());
}

/// A copy of a string slice as an owned string.
pub fn owned(t: &str) -> (out: String)
    ensures
        out@ == t@,
{
    let mut out = String::new();
    push_str(&mut out, t);
    assert(Seq::<char>::empty() + t@ =~= t@);
    out
}

/// The scalar value of a character.
pub fn char_code(c: char) -> (r: u32)
    ensures
        r as int == c as int,
{
    c as u32
}

/// Three-way comparison of two character sequences in the order `lex_lt`.
pub fn compare_chars(a: &[char], b: &[char]) -> (r: Order)
    ensures
        r == order_of(a@, b@),
{
    let mut i: usize = 0;
    while i < a.len() && i < b.len() && a[i] == b[i]
        invariant
            i <= a@.len(),
            i <= b@.len(),
            a@.take(i as int) == b@.take(i as int),
        decreases a@.len() - i,
    {
        assert(a@.take(i + 1) =~= a@.take(i as int).push(a@[i as int]));
        assert(b@.take(i + 1) =~= b@.take(i as int).push(b@[i as int]));
        i = i + 1;
    }
    proof {
        lemma_lex_skip_common(a@, b@, i as int);
    }
    if i < a.len() && i < b.len() {
        if char_code(a[i]) < char_code(b[i]) {
            Order::Less
        } else {
            Order::Greater
        }
    } else if i == a.len() && i == b.len() {
        proof {
            assert(a@ =~= a@.take(i as int));
            assert(b@ =~= b@.take(i as int));
        }
        Order::Equal
    } else if i == a.len() {
        Order::Less
    } else {
        Order::Greater
    }
}

/// Comparing two sequences that share a prefix of length `i` is comparing
/// what follows the prefix.
pub proof fn lemma_lex_skip_common(a: Seq<char>, b: Seq<char>, i: int)
    requires
        0 <= i <= a.len(),
        i <= b.len(),
        a.take(i) == b.take(i),
    ensures
        lex_lt(a, b) == lex_lt(a.skip(i), b.skip(i)),
        (a == b) == (a.skip(i) == b.skip(i)),
        i < a.len() && i < b.len() ==> a.skip(i)[0] == a[i] && b.skip(i)[0] == b[i],
    decreases i,
{
    if i > 0 {
        assert(a[0] == a.take(i)[0]);
        assert(b[0] == b.take(i)[0]);
        assert(a.drop_first().take(i - 1) =~= a.take(i).drop_first());
        assert(b.drop_first().take(i - 1) =~= b.take(i).drop_first());
        lemma_lex_skip_common(a.drop_first(), b.drop_first(), i - 1);
        assert(a.drop_first().skip(i - 1) =~= a.skip(i));
        assert(b.drop_first().skip(i - 1) =~= b.skip(i));
        if a.drop_first() == b.drop_first() {
            assert(a =~= seq![a[0]] + a.drop_first());
            assert(b =~= seq![b[0]] + b.drop_first());
        }
    } else {
        assert(a.skip(0) =~= a);
        assert(b.skip(0) =~= b);
    }
}

/// Three-way comparison of two strings in the order `lex_lt`.
pub fn compare_strs(a: &str, b: &str) -> (r: Order)
    ensures
        r == order_of(a@, b@),
{
    let ac = chars_of(a);
    let bc = chars_of(b);
    compare_chars(ac.as_slice(), bc.as_slice())
}

/// Whether two strings hold the same characters.
pub fn str_eq(a: &str, b: &str) -> (r: bool)
    ensures
        r == (a@ == b@),
{
    match compare_strs(a, b) {
        Order::Equal => true,
        _ => false,
    }
}

/// The ASCII digit for a value below ten.
pub open spec fn digit_char(d: nat) -> char {
    if d == 0 { '0' }
    else if d == 1 { '1' }
    else if d == 2 { '2' }
    else if d == 3 { '3' }
    else if d == 4 { '4' }
    else if d == 5 { '5' }
    else if d == 6 { '6' }
    else if d == 7 { '7' }
    else if d == 8 { '8' }
    else { '9' }
}

/// The decimal representation of `n`, without leading zeros.
pub open spec fn decimal(n: nat) -> Seq<char>
    decreases n,
{
    if n < 10 {
        seq![digit_char(n)]
    } else {
        decimal(n / 10).push(digit_char(n % 10))
    }
}

fn digit(d: u64) -> (c: char)
    requires
        d < 10,
    ensures
        c == digit_char(d as nat),
{
    if d == 0 { '0' }
    else if d == 1 { '1' }
    else if d == 2 { '2' }
    else if d == 3 { '3' }
    else if d == 4 { '4' }
    else if d == 5 { '5' }
    else if d == 6 { '6' }
    else if d == 7 { '7' }
    else if d == 8 { '8' }
    else { '9' }
}

/// Appends the decimal representation of `n`.
pub fn push_decimal(s: &mut String, n: u64)
    ensures
        final(s)@ == old(s)@ + decimal(n as nat),
    decreases n,
{
    if n >= 10 {
        push_decimal(s, n / 10);
    }
    push_char(s, digit(n % 10));
    proof {
        if n >= 10 {
            assert(old(s)@ + decimal(n as nat) =~= old(s)@ + decimal((n / 10) as nat) + seq![digit_char((n % 10) as nat)]);
        } else {
            assert(old(s)@ + decimal(n as nat) =~= old(s)@.push(digit_char((n % 10) as nat)));
        }
    }
}

/// The decimal representation of `n` as a string.
pub fn decimal_string(n: u64) -> (out: String)
    ensures
        out@ == decimal(n as nat),
{
    let mut out = String::new();
    push_decimal(&mut out, n);
    assert(Seq::<char>::empty() + decimal(n as nat) =~= decimal(n as nat));
    out
}

/// The part of `s` before the first `sep` and the part after it, if `s`
/// holds `sep` at all.
pub open spec fn split_once(s: Seq<char>, sep: char) -> Option<(Seq<char>, Seq<char>)>
    decreases s.len(),
{
    if s.len() == 0 {
        None
    } else if s[0] == sep {
        Some((Seq::<char>::empty(), s.drop_first()))
    } else {
        match split_once(s.drop_first(), sep) {
            Some((a, b)) => Some((seq![s[0]] + a, b)),
            None => None,
        }
    }
}

/// `str::splitn(n, sep)`: at most `n` pieces, the last one holding the rest.
pub open spec fn splitn(s: Seq<char>, n: nat, sep: char) -> Seq<Seq<char>>
    decreases n,
{
    if n <= 1 {
        seq![s]
    } else {
        match split_once(s, sep) {
            None => seq![s],
            Some((a, rest)) => seq![a] + splitn(rest, (n - 1) as nat, sep),
        }
    }
}

/// The `k`-th piece, or the empty text where there are fewer pieces
/// (`parts.next().unwrap_or("")`).
pub open spec fn piece(parts: Seq<Seq<char>>, k: int) -> Seq<char> {
    if 0 <= k < parts.len() {
        parts[k]
    } else {
        Seq::<char>::empty()
    }
}

pub proof fn lemma_split_once_at(s: Seq<char>, sep: char, i: int)
    requires
        0 <= i < s.len(),
        s[i] == sep,
        forall|j: int| 0 <= j < i ==> s[j] != sep,
    ensures
        split_once(s, sep) == Some((s.take(i), s.skip(i + 1))),
    decreases i,
{
    if i > 0 {
        lemma_split_once_at(s.drop_first(), sep, i - 1);
        assert(seq![s[0]] + s.drop_first().take(i - 1) =~= s.take(i));
        assert(s.drop_first().skip(i) =~= s.skip(i + 1));
    } else {
        assert(s.take(0) =~= Seq::<char>::empty());
        assert(s.skip(1) =~= s.drop_first());
    }
}

pub proof fn lemma_split_once_none(s: Seq<char>, sep: char)
    requires
        forall|j: int| 0 <= j < s.len() ==> s[j] != sep,
    ensures
        split_once(s, sep) is None,
    decreases s.len(),
{
    if s.len() > 0 {
        lemma_split_once_none(s.drop_first(), sep);
    }
}

/// Index of the first `c` in `cs` at or after `from`, or `cs.len()` if there is none.
pub fn find_from(cs: &[char], from: usize, c: char) -> (r: usize)
    requires
        from <= cs@.len(),
    ensures
        from <= r <= cs@.len(),
        r < cs@.len() ==> cs@[r as int] == c,
        forall|j: int| from <= j < r ==> cs@[j] != c,
{
    let mut i = from;
    while i < cs.len() && cs[i] != c
        invariant
            from <= i <= cs@.len(),
            forall|j: int| from <= j < i ==> cs@[j] != c,
        decreases cs@.len() - i,
    {
        i = i + 1;
    }
    i
}

/// The pieces of `s` split at `sep`, at most `n` of them (`str::splitn`).
pub fn split_n(s: &str, n: usize, sep: char) -> (out: Vec<String>)
    requires
        n >= 1,
    ensures
        out@.map_values(|p: String| p@) == splitn(s@, n as nat, sep),
{
    let cs = chars_of(s);
    let mut out: Vec<String> = Vec::new();
    let mut start: usize = 0;
    let mut left: usize = n;
    proof {
        assert(s@.skip(0) =~= s@);
        assert(out@.map_values(|p: String| p@) + splitn(s@, n as nat, sep) =~= splitn(s@, n as nat, sep));
    }
    while left > 1
        invariant
            cs@ == s@,
            start <= cs@.len(),
            1 <= left <= n,
            splitn(s@, n as nat, sep) == out@.map_values(|p: String| p@)
                + splitn(s@.skip(start as int), left as nat, sep),
        decreases left,
    {
        let ghost rest = s@.skip(start as int);
        let i = find_from(cs.as_slice(), start, sep);
        if i == cs.len() {
            proof {
                assert forall|j: int| 0 <= j < rest.len() implies rest[j] != sep by {
                    assert(rest[j] == cs@[start + j]);
                }
                lemma_split_once_none(rest, sep);
            }
            left = 1;
        } else {
        proof {
            assert forall|j: int| 0 <= j < i - start implies rest[j] != sep by {
                assert(rest[j] == cs@[start + j]);
            }
            lemma_split_once_at(rest, sep, i - start);
            assert(rest.skip(i - start + 1) =~= s@.skip(i + 1));
        }
        let part = string_of(&cs.as_slice()[start..i]);
        proof {
            assert(cs@.subrange(start as int, i as int) =~= rest.take(i - start));
        }
        let ghost before = out@;
        out.push(part);
        proof {
            assert(out@.map_values(|p: String| p@) =~= before.map_values(|p: String| p@).push(rest.take(i - start)));
        }
        start = i + 1;
        left = left - 1;
        }
    }
    let ghost rest = s@.skip(start as int);
    let last = string_of(&cs.as_slice()[start..cs.len()]);
    proof {
        assert(cs@.subrange(start as int, cs@.len() as int) =~= rest);
    }
    let ghost before = out@;
    out.push(last);
    proof {
        assert(out@.map_values(|p: String| p@) =~= before.map_values(|p: String| p@).push(rest));
    }
    out
}

/// A line without the `\r` of a `\r\n` ending.
pub open spec fn strip_cr(s: Seq<char>) -> Seq<char> {
    if s.len() > 0 && s.last() == '\r' {
        s.drop_last()
    } else {
        s
    }
}

pub proof fn lemma_split_once_shorter(s: Seq<char>, sep: char)
    ensures
        split_once(s, sep) matches Some((a, b)) ==> b.len() < s.len() && a.len() + 1 + b.len() == s.len(),
    decreases s.len(),
{
    if s.len() > 0 && s[0] != sep {
        lemma_split_once_shorter(s.drop_first(), sep);
    }
}

/// `str::lines`: the text split at `\n`, each line without a trailing `\r`
/// that came before its `\n`, and no empty line after a final `\n`.
#[verifier::opaque]
pub open spec fn lines_of(s: Seq<char>) -> Seq<Seq<char>>
    decreases s.len(),
{
    if s.len() == 0 {
        Seq::empty()
    } else {
        match split_once(s, '\n') {
            None => seq![s],
            Some((a, rest)) => {
                proof {
                    lemma_split_once_shorter(s, '\n');
                }
                seq![strip_cr(a)] + lines_of(rest)
            },
        }
    }
}

/// The lines of `s` (`str::lines`).
pub fn lines(s: &str) -> (out: Vec<String>)
    ensures
        out@.map_values(|p: String| p@) == lines_of(s@),
{
    reveal(lines_of);
    let cs = chars_of(s);
    let mut out: Vec<String> = Vec::new();
    let mut start: usize = 0;
    proof {
        assert(s@.skip(0) =~= s@);
        assert(out@.map_values(|p: String| p@) + lines_of(s@) =~= lines_of(s@));
    }
    while start < cs.len()
        invariant
            cs@ == s@,
            start <= cs@.len(),
            lines_of(s@) == out@.map_values(|p: String| p@) + lines_of(s@.skip(start as int)),
        decreases cs@.len() - start,
    {
        reveal(lines_of);
        let ghost rest = s@.skip(start as int);
        let i = find_from(cs.as_slice(), start, '\n');
        let ghost before = out@;
        if i == cs.len() {
            proof {
                assert forall|j: int| 0 <= j < rest.len() implies rest[j] != '\n' by {
                    assert(rest[j] == cs@[start + j]);
                }
                lemma_split_once_none(rest, '\n');
                assert(cs@.subrange(start as int, cs@.len() as int) =~= rest);
            }
            let line = string_of(&cs.as_slice()[start..cs.len()]);
            out.push(line);
            proof {
                assert(out@.map_values(|p: String| p@) =~= before.map_values(|p: String| p@).push(rest));
                assert(s@.skip(cs@.len() as int) =~= Seq::<char>::empty());
                assert(lines_of(s@.skip(cs@.len() as int)) =~= Seq::<Seq<char>>::empty());
            }
            start = cs.len();
        } else {
            proof {
                assert forall|j: int| 0 <= j < i - start implies rest[j] != '\n' by {
                    assert(rest[j] == cs@[start + j]);
                }
                lemma_split_once_at(rest, '\n', i - start);
                assert(rest.skip(i - start + 1) =~= s@.skip(i + 1));
                assert(cs@.subrange(start as int, i as int) =~= rest.take(i - start));
            }
            let end = if i > start && cs[i - 1] == '\r' { i - 1 } else { i };
            proof {
                assert(cs@.subrange(start as int, end as int) =~= strip_cr(rest.take(i - start)));
            }
            let line = string_of(&cs.as_slice()[start..end]);
            out.push(line);
            proof {
                assert(out@.map_values(|p: String| p@) =~= before.map_values(|p: String| p@).push(strip_cr(rest.take(i - start))));
            }
            start = i + 1;
        }
    }
    proof {
        reveal(lines_of);
        assert(s@.skip(start as int) =~= Seq::<char>::empty());
        assert(out@.map_values(|p: String| p@) + lines_of(Seq::<char>::empty()) =~= out@.map_values(|p: String| p@));
    }
    out
}

/// `char::is_whitespace`: the Unicode `White_Space` property.
pub open spec fn is_space(c: char) -> bool {
    ||| ('\u{9}' as int <= c as int <= '\u{d}' as int)
    ||| c == ' '
    ||| c == '\u{85}'
    ||| c == '\u{a0}'
    ||| c == '\u{1680}'
    ||| ('\u{2000}' as int <= c as int <= '\u{200a}' as int)
    ||| c == '\u{2028}'
    ||| c == '\u{2029}'
    ||| c == '\u{202f}'
    ||| c == '\u{205f}'
    ||| c == '\u{3000}'
}

/// Whether a character is white space (`char::is_whitespace`).
pub fn is_space_char(c: char) -> (r: bool)
    ensures
        r == is_space(c),
{
    let v = char_code(c);
    (0x9 <= v && v <= 0xd) || v == 0x20 || v == 0x85 || v == 0xa0 || v == 0x1680
        || (0x2000 <= v && v <= 0x200a) || v == 0x2028 || v == 0x2029 || v == 0x202f
        || v == 0x205f || v == 0x3000
}

/// `str::trim`: `s` without leading or trailing white space.
#[verifier::opaque]
pub open spec fn trimmed(s: Seq<char>) -> Seq<char> {
    if forall|j: int| 0 <= j < s.len() ==> is_space(#[trigger] s[j]) {
        Seq::empty()
    } else {
        let i = choose|i: int| 0 <= i < s.len() && !is_space(s[i])
            && forall|j: int| 0 <= j < i ==> is_space(#[trigger] s[j]);
        let k = choose|k: int| 0 <= k < s.len() && !is_space(s[k])
            && forall|j: int| k < j < s.len() ==> is_space(#[trigger] s[j]);
        s.subrange(i, k + 1)
    }
}

/// `s` without leading or trailing white space (`str::trim`).
pub fn trim(s: &str) -> (out: String)
    ensures
        out@ == trimmed(s@),
{
    reveal(trimmed);
    let cs = chars_of(s);
    let mut i: usize = 0;
    while i < cs.len() && is_space_char(cs[i])
        invariant
            cs@ == s@,
            i <= cs@.len(),
            forall|j: int| 0 <= j < i ==> is_space(#[trigger] cs@[j]),
        decreases cs@.len() - i,
    {
        i = i + 1;
    }
    if i == cs.len() {
        return String::new();
    }
    let mut k: usize = cs.len() - 1;
    while is_space_char(cs[k])
        invariant
            cs@ == s@,
            i <= k < cs@.len(),
            !is_space(cs@[i as int]),
            forall|j: int| k < j < cs@.len() ==> is_space(#[trigger] cs@[j]),
        decreases k,
    {
        k = k - 1;
    }
    proof {
        let i0 = choose|i0: int| 0 <= i0 < s@.len() && !is_space(s@[i0])
            && forall|j: int| 0 <= j < i0 ==> is_space(#[trigger] s@[j]);
        let k0 = choose|k0: int| 0 <= k0 < s@.len() && !is_space(s@[k0])
            && forall|j: int| k0 < j < s@.len() ==> is_space(#[trigger] s@[j]);
        assert(i0 == i as int) by {
            if i0 < i { assert(is_space(cs@[i0])); }
            if i0 > i { assert(is_space(s@[i as int])); }
        }
        assert(k0 == k as int) by {
            if k0 < k { assert(is_space(s@[k as int])); }
            if k0 > k { assert(is_space(cs@[k0])); }
        }
    }
    string_of(&cs.as_slice()[i..k + 1])
}

/// Whether `t` occurs in `s` as a contiguous piece (`str::contains`).
pub open spec fn has_piece(s: Seq<char>, t: Seq<char>) -> bool {
    exists|i: int| 0 <= i && i + t.len() <= s.len() && #[trigger] s.subrange(i, i + t.len()) == t
}

/// Whether `t` occurs at position `i` of `s`.
fn piece_at(s: &[char], t: &[char], i: usize) -> (r: bool)
    requires
        i + t@.len() <= s@.len(),
    ensures
        r == (s@.subrange(i as int, i + t@.len()) == t@),
{
    let n = s.len();
    let mut j: usize = 0;
    while j < t.len()
        invariant
            n == s@.len(),
            i + t@.len() <= s@.len(),
            j <= t@.len(),
            forall|m: int| 0 <= m < j ==> s@[i + m] == t@[m],
        decreases t@.len() - j,
    {
        assert(i + j < s@.len());
        if s[i + j] != t[j] {
            assert(s@.subrange(i as int, i + t@.len())[j as int] != t@[j as int]);
            return false;
        }
        j = j + 1;
    }
    assert(s@.subrange(i as int, i + t@.len()) =~= t@);
    true
}

/// Whether `t` occurs in `s` as a contiguous piece.
pub fn contains_piece(s: &[char], t: &[char]) -> (r: bool)
    ensures
        r == has_piece(s@, t@),
{
    if t.len() > s.len() {
        return false;
    }
    if t.len() == 0 {
        assert(s@.subrange(0int, 0int + t@.len()) =~= t@);
        return true;
    }
    let mut i: usize = 0;
    let last = s.len() - t.len();
    while i <= last
        invariant
            t@.len() <= s@.len(),
            last == s@.len() - t@.len(),
            s@.len() == s.len(),
            t@.len() > 0,
            i <= last + 1,
            forall|m: int| 0 <= m < i ==> #[trigger] s@.subrange(m, m + t@.len()) != t@,
        decreases s@.len() - i,
    {
        if piece_at(s, t, i) {
            return true;
        }
        i = i + 1;
    }
    false
}

/// The value of a run of ASCII decimal digits.
pub open spec fn digits_value(d: Seq<char>) -> nat
    decreases d.len(),
{
    if d.len() == 0 {
        0
    } else {
        digits_value(d.drop_last()) * 10 + (d.last() as int - '0' as int) as nat
    }
}

pub open spec fn is_digit(c: char) -> bool {
    '0' as int <= c as int <= '9' as int
}

/// What follows an optional leading `+`.
pub open spec fn unsigned_digits(s: Seq<char>) -> Seq<char> {
    if s.len() > 0 && s[0] == '+' { s.drop_first() } else { s }
}

/// `u32::from_str`: an optional `+`, then at least one ASCII digit, with a
/// value that fits in a `u32`.
pub open spec fn parse_u32_spec(s: Seq<char>) -> Option<u32> {
    let d = unsigned_digits(s);
    if d.len() > 0 && (forall|j: int| 0 <= j < d.len() ==> is_digit(#[trigger] d[j]))
        && digits_value(d) <= u32::MAX {
        Some(digits_value(d) as u32)
    } else {
        None
    }
}

pub proof fn lemma_digits_value_grows(d: Seq<char>, i: int)
    requires
        0 <= i <= d.len(),
        forall|j: int| 0 <= j < d.len() ==> is_digit(#[trigger] d[j]),
    ensures
        digits_value(d.take(i)) <= digits_value(d),
    decreases d.len() - i,
{
    if i < d.len() {
        assert(d.take(i + 1).drop_last() =~= d.take(i));
        assert(d.take(i + 1).last() == d[i]);
        lemma_digits_value_grows(d, i + 1);
    } else {
        assert(d.take(i) =~= d);
    }
}

/// Parses a `u32` the way `str::parse::<u32>` does.
pub fn parse_u32(s: &str) -> (r: Option<u32>)
    ensures
        r == parse_u32_spec(s@),
{
    let cs = chars_of(s);
    let start: usize = if cs.len() > 0 && cs[0] == '+' { 1 } else { 0 };
    let ghost d = unsigned_digits(s@);
    proof {
        assert(d =~= s@.skip(start as int));
    }
    if start == cs.len() {
        return None;
    }
    let mut i = start;
    while i < cs.len()
        invariant
            cs@ == s@,
            start <= i <= cs@.len(),
            d == s@.skip(start as int),
            d == unsigned_digits(s@),
            forall|j: int| 0 <= j < i - start ==> is_digit(#[trigger] d[j]),
        decreases cs@.len() - i,
    {
        let code = char_code(cs[i]);
        assert(d[i - start] == cs@[i as int]);
        if !(0x30 <= code && code <= 0x39) {
            proof {
                assert(!is_digit(d[i - start]));
                assert(!(forall|j: int| 0 <= j < d.len() ==> is_digit(#[trigger] d[j])));
                assert(parse_u32_spec(s@) is None);
            }
            return None;
        }
        i = i + 1;
    }
    let mut acc: u64 = 0;
    let mut k = start;
    while k < cs.len()
        invariant
            cs@ == s@,
            start <= k <= cs@.len(),
            d == s@.skip(start as int),
            d == unsigned_digits(s@),
            forall|j: int| 0 <= j < d.len() ==> is_digit(#[trigger] d[j]),
            acc as nat == digits_value(d.take(k - start)),
            acc <= u32::MAX,
        decreases cs@.len() - k,
    {
        assert(d[k - start] == cs@[k as int]);
        assert(is_digit(d[k - start]));
        let v = (char_code(cs[k]) - 0x30) as u64;
        proof {
            assert(d.take(k - start + 1).drop_last() =~= d.take(k - start));
            assert(d.take(k - start + 1).last() == d[k - start]);
        }
        acc = acc * 10 + v;
        k = k + 1;
        assert(acc as nat == digits_value(d.take(k - start)));
        if acc > 0xffff_ffff {
            proof {
                lemma_digits_value_grows(d, k - start);
                assert(digits_value(d) > u32::MAX);
                assert(parse_u32_spec(s@) is None);
            }
            return None;
        }
    }
    assert(d.take(d.len() as int) =~= d);
    Some(acc as u32)
}

/// `n` spaces.
pub open spec fn spaces(n: nat) -> Seq<char> {
    Seq::new(n, |i: int| ' ')
}

/// `s` padded with spaces on the right to `width` characters (`{:<width}`).
pub open spec fn pad_right_spec(s: Seq<char>, width: nat) -> Seq<char> {
    if s.len() >= width {
        s
    } else {
        s + spaces((width - s.len()) as nat)
    }
}

/// `s` padded with spaces on the left to `width` characters (`{:>width}`).
pub open spec fn pad_left_spec(s: Seq<char>, width: nat) -> Seq<char> {
    if s.len() >= width {
        s
    } else {
        spaces((width - s.len()) as nat) + s
    }
}

fn push_spaces(out: &mut String, n: usize)
    ensures
        final(out)@ == old(out)@ + spaces(n as nat),
{
    let mut i: usize = 0;
    while i < n
        invariant
            i <= n,
            out@ == old(out)@ + spaces(i as nat),
        decreases n - i,
    {
        push_char(out, ' ');
        i = i + 1;
        assert(out@ =~= old(out)@ + spaces(i as nat));
    }
}

/// Appends `s` padded on the right to `width` characters.
pub fn push_padded_right(out: &mut String, s: &str, width: usize)
    ensures
        final(out)@ == old(out)@ + pad_right_spec(s@, width as nat),
{
    let cs = chars_of(s);
    push_chars(out, cs.as_slice());
    if cs.len() < width {
        push_spaces(out, width - cs.len());
    }
    assert(final(out)@ =~= old(out)@ + pad_right_spec(s@, width as nat)) by {
        if cs@.len() >= width {
            assert(old(out)@ + s@ + Seq::<char>::empty() =~= old(out)@ + s@);
        }
    }
}

/// Appends `s` padded on the left to `width` characters.
pub fn push_padded_left(out: &mut String, s: &str, width: usize)
    ensures
        final(out)@ == old(out)@ + pad_left_spec(s@, width as nat),
{
    let cs = chars_of(s);
    if cs.len() < width {
        push_spaces(out, width - cs.len());
    }
    push_chars(out, cs.as_slice());
    assert(final(out)@ =~= old(out)@ + pad_left_spec(s@, width as nat));
}

/// `s` with trailing white space removed (`str::trim_end`).
pub open spec fn trimmed_end(s: Seq<char>) -> Seq<char>
    decreases s.len(),
{
    if s.len() > 0 && is_space(s.last()) {
        trimmed_end(s.drop_last())
    } else {
        s
    }
}

/// `s` with trailing white space removed.
pub fn trim_end(s: &str) -> (out: String)
    ensures
        out@ == trimmed_end(s@),
{
    let cs = chars_of(s);
    let mut k: usize = cs.len();
    assert(s@.take(cs@.len() as int) =~= s@);
    while k > 0 && is_space_char(cs[k - 1])
        invariant
            cs@ == s@,
            k <= cs@.len(),
            trimmed_end(s@) == trimmed_end(s@.take(k as int)),
        decreases k,
    {
        assert(s@.take(k as int).drop_last() =~= s@.take(k - 1));
        k = k - 1;
    }
    if k == 0 {
        assert(s@.take(0) =~= Seq::<char>::empty());
    }
    assert(cs@.subrange(0, k as int) =~= s@.take(k as int));
    string_of(&cs.as_slice()[0..k])
}

/// `str::split_whitespace`: the maximal runs of characters that are not
/// white space, in order.
pub open spec fn words_of(s: Seq<char>) -> Seq<Seq<char>>
    decreases s.len(),
{
    if s.len() == 0 {
        Seq::empty()
    } else {
        let before = words_of(s.drop_last());
        let c = s.last();
        if is_space(c) {
            before
        } else if s.len() > 1 && !is_space(s[s.len() - 2]) {
            before.drop_last().push(before.last().push(c))
        } else {
            before.push(seq![c])
        }
    }
}

/// The words of `s`, split at white space (`str::split_whitespace`).
pub fn words(s: &str) -> (out: Vec<String>)
    ensures
        out@.map_values(|w: String| w@) == words_of(s@),
{
    let cs = chars_of(s);
    let mut out: Vec<String> = Vec::new();
    let mut cur: Vec<char> = Vec::new();
    let mut i: usize = 0;
    while i < cs.len()
        invariant
            cs@ == s@,
            i <= cs@.len(),
            (i > 0 && !is_space(cs@[i - 1])) ==> out@.map_values(|w: String| w@).push(cur@)
                == words_of(s@.take(i as int)),
            !(i > 0 && !is_space(cs@[i - 1])) ==> out@.map_values(|w: String| w@) == words_of(
                s@.take(i as int),
            ) && cur@.len() == 0,
        decreases cs@.len() - i,
    {
        let c = cs[i];
        let ghost before = out@.map_values(|w: String| w@);
        proof {
            assert(s@.take(i + 1).drop_last() =~= s@.take(i as int));
            assert(s@.take(i + 1).last() == c);
            if i > 0 {
                assert(s@.take(i + 1)[i - 1] == cs@[i - 1]);
            }
        }
        let in_word = i > 0 && !is_space_char(cs[i - 1]);
        if is_space_char(c) {
            if in_word {
                let w = string_of(cur.as_slice());
                out.push(w);
                cur = Vec::new();
                assert(out@.map_values(|w: String| w@) =~= before.push(w@));
            }
        } else if in_word {
            let ghost old_cur = cur@;
            cur.push(c);
            proof {
                let prev = before.push(old_cur);
                assert(prev.drop_last() =~= before);
                assert(before.push(cur@) =~= prev.drop_last().push(prev.last().push(c)));
            }
        } else {
            cur = Vec::new();
            cur.push(c);
            assert(cur@ =~= seq![c]);
        }
        i = i + 1;
    }
    assert(s@.take(cs@.len() as int) =~= s@);
    if i > 0 && !is_space_char(cs[i - 1]) {
        let ghost before = out@.map_values(|w: String| w@);
        let w = string_of(cur.as_slice());
        out.push(w);
        assert(out@.map_values(|w: String| w@) =~= before.push(w@));
    }
    out
}

} // verus!
