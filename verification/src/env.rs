//! Environment variables that a user allow-lists for persistence: which
//! ones look like secrets, how values are quoted for a shell, and which
//! allow-listed ones end up in a snapshot.
use vstd::prelude::*;
use crate::sorted::{env_insert, env_wf, pairs_map, views};
use crate::text::{chars_of, contains_piece, has_piece, owned, push_char};

verus! {

/// What `str::to_uppercase` returns for a text: its characters mapped by
/// Unicode's uppercase mapping (which may turn one character into several).
pub uninterp spec fn uppercase_of(s: Seq<char>) -> Seq<char>;

/// Whether every character of a text is ASCII.
pub open spec fn all_ascii(s: Seq<char>) -> bool {
    forall|j: int| 0 <= j < s.len() ==> (#[trigger] s[j]) as int <= 0x7f
}

/// The ASCII upper case of a character: `a`..`z` become `A`..`Z`, anything
/// else is left as it is.
pub open spec fn ascii_upper(c: char) -> char {
    if 'a' as int <= c as int <= 'z' as int {
        (c as int - 32) as char
    } else {
        c
    }
}

/// `str::to_uppercase`. Its result is a function of its argument alone;
/// for ASCII text, Unicode's uppercase mapping turns exactly the letters
/// `a`..`z` into `A`..`Z` and leaves the rest. Nothing more is claimed of
/// other text.
#[verifier::external_body]
fn to_uppercase(s: &str) -> (out: String)
    ensures
        out@ == uppercase_of(s@),
        all_ascii(s@) ==> out@ == s@.map_values(|c: char| ascii_upper(c)),
{
    s.to_uppercase()
}

/// An upper-cased name contains one of the markers of a secret.
pub open spec fn has_secret_marker(upper: Seq<char>) -> bool {
    ||| has_piece(upper, "KEY"@)
    ||| has_piece(upper, "TOKEN"@)
    ||| has_piece(upper, "SECRET"@)
    ||| has_piece(upper, "PASSWORD"@)
    ||| has_piece(upper, "AUTH"@)
    ||| has_piece(upper, "CREDENTIAL"@)
}

fn contains_marker(upper: &[char], marker: &str) -> (r: bool)
    ensures
        r == has_piece(upper@, marker@),
{
    let m = chars_of(marker);
    contains_piece(upper, m.as_slice())
}

/// Whether an already upper-cased name contains a secret marker.
pub fn marks_secret(upper: &str) -> (r: bool)
    ensures
        r == has_secret_marker(upper@),
{
    let u = chars_of(upper);
    let u = u.as_slice();
    contains_marker(u, "KEY") || contains_marker(u, "TOKEN") || contains_marker(u, "SECRET")
        || contains_marker(u, "PASSWORD") || contains_marker(u, "AUTH") || contains_marker(
        u,
        "CREDENTIAL",
    )
}

/// Whether a variable name looks like it holds a secret: its upper-cased
/// form contains KEY, TOKEN, SECRET, PASSWORD, AUTH or CREDENTIAL.
pub fn looks_like_secret(name: &str) -> (r: bool)
    ensures
        r == has_secret_marker(uppercase_of(name@)),
        all_ascii(name@) ==> r == has_secret_marker(name@.map_values(|c: char| ascii_upper(c))),
{
    let upper = to_uppercase(name);
    marks_secret(upper.as_str())
}

/// `value` with every single quote replaced by `'\''`.
pub open spec fn escape_quotes(value: Seq<char>) -> Seq<char>
    decreases value.len(),
{
    if value.len() == 0 {
        Seq::empty()
    } else if value.last() == '\'' {
        escape_quotes(value.drop_last()) + seq!['\'', '\\', '\'', '\'']
    } else {
        escape_quotes(value.drop_last()).push(value.last())
    }
}

/// `value` quoted for a single-quoted POSIX shell word.
pub open spec fn single_quoted(value: Seq<char>) -> Seq<char> {
    seq!['\''] + escape_quotes(value) + seq!['\'']
}

/// Quotes a value for safe use inside a single-quoted POSIX shell string.
pub fn shell_single_quote(value: &str) -> (out: String)
    ensures
        out@ == single_quoted(value@),
{
    let cs = chars_of(value);
    let mut out = String::new();
    push_char(&mut out, '\'');
    let mut i: usize = 0;
    while i < cs.len()
        invariant
            cs@ == value@,
            i <= cs@.len(),
            out@ == seq!['\''] + escape_quotes(value@.take(i as int)),
        decreases cs@.len() - i,
    {
        proof {
            assert(value@.take(i + 1).drop_last() =~= value@.take(i as int));
        }
        if cs[i] == '\'' {
            push_char(&mut out, '\'');
            push_char(&mut out, '\\');
            push_char(&mut out, '\'');
            push_char(&mut out, '\'');
        } else {
            push_char(&mut out, cs[i]);
        }
        i = i + 1;
        assert(out@ =~= seq!['\''] + escape_quotes(value@.take(i as int)));
    }
    push_char(&mut out, '\'');
    assert(value@.take(cs@.len() as int) =~= value@);
    assert(out@ =~= single_quoted(value@));
    out
}

/// The variables captured from an allow-list, given what the environment
/// held for each allow-listed name (`None` for one that is not set): each
/// name that is set, with its value; a later duplicate overrides an earlier one.
pub open spec fn allowed_map(allow: Seq<Seq<char>>, values: Seq<Option<Seq<char>>>) -> Map<
    Seq<char>,
    Seq<char>,
>
    decreases allow.len(),
{
    if allow.len() == 0 || values.len() != allow.len() {
        Map::empty()
    } else {
        let before = allowed_map(allow.drop_last(), values.drop_last());
        match values.last() {
            Some(v) => before.insert(allow.last(), v),
            None => before,
        }
    }
}

/// Values of the environment, by view.
pub open spec fn value_views(values: Seq<Option<String>>) -> Seq<Option<Seq<char>>> {
    values.map_values(|v: Option<String>| match v {
        Some(s) => Some(s@),
        None => None,
    })
}

/// The allow-listed variables that are present, as an ordered map. `values[i]`
/// is what the environment holds for `allowlist[i]`.
pub fn capture_allowed(allowlist: &Vec<String>, values: Vec<Option<String>>) -> (out: Vec<
    (String, String),
>)
    requires
        values@.len() == allowlist@.len(),
    ensures
        env_wf(out@),
        pairs_map(out@) == allowed_map(
            allowlist@.map_values(|s: String| s@),
            value_views(values@),
        ),
{
    let ghost allow = allowlist@.map_values(|s: String| s@);
    let ghost vals = value_views(values@);
    let mut out: Vec<(String, String)> = Vec::new();
    let mut values = values;
    let ghost all_values = values@;
    proof {
        assert(pairs_map(out@) =~= Map::<Seq<char>, Seq<char>>::empty());
        assert(allow.take(0) =~= Seq::<Seq<char>>::empty());
        assert(vals.take(0) =~= Seq::<Option<Seq<char>>>::empty());
    }
    let mut i: usize = 0;
    while i < allowlist.len()
        invariant
            i <= allowlist@.len(),
            allow == allowlist@.map_values(|s: String| s@),
            vals == value_views(all_values),
            all_values.len() == allowlist@.len(),
            values@.len() == all_values.len(),
            forall|j: int| i <= j < values@.len() ==> values@[j] == all_values[j],
            env_wf(out@),
            pairs_map(out@) == allowed_map(allow.take(i as int), vals.take(i as int)),
        decreases allowlist@.len() - i,
    {
        let mut v: Option<String> = None;
        std::mem::swap(&mut v, &mut values[i]);
        proof {
            assert(allow.take(i + 1).drop_last() =~= allow.take(i as int));
            assert(vals.take(i + 1).drop_last() =~= vals.take(i as int));
            assert(vals.take(i + 1).last() == vals[i as int]);
            assert(allow.take(i + 1).last() == allowlist@[i as int]@);
        }
        match v {
            Some(value) => {
                let name = allowlist[i].clone();
                env_insert(&mut out, name, value);
            },
            None => {},
        }
        i = i + 1;
    }
    proof {
        assert(allow.take(allowlist@.len() as int) =~= allow);
        assert(vals.take(allowlist@.len() as int) =~= vals);
    }
    out
}

/// The names among captured variables that look like secrets, in order.
pub open spec fn secret_looking(captured: Seq<(String, String)>) -> Seq<Seq<char>>
    decreases captured.len(),
{
    if captured.len() == 0 {
        Seq::empty()
    } else {
        let before = secret_looking(captured.drop_last());
        let name = captured.last().0@;
        if has_secret_marker(uppercase_of(name)) {
            before.push(name)
        } else {
            before
        }
    }
}

/// The captured variables that `sess save` warns about: those whose names
/// look like secrets, in the order they were captured.
pub fn secret_looking_names(captured: &Vec<(String, String)>) -> (out: Vec<String>)
    ensures
        views(out@) == secret_looking(captured@),
{
    let mut out: Vec<String> = Vec::new();
    let mut i: usize = 0;
    while i < captured.len()
        invariant
            i <= captured@.len(),
            views(out@) == secret_looking(captured@.take(i as int)),
        decreases captured@.len() - i,
    {
        proof {
            assert(captured@.take(i + 1).drop_last() =~= captured@.take(i as int));
            assert(captured@.take(i + 1).last() == captured@[i as int]);
        }
        if looks_like_secret(captured[i].0.as_str()) {
            let ghost before = out@;
            out.push(captured[i].0.clone());
            assert(views(out@) =~= views(before).push(captured@[i as int].0@));
        }
        i = i + 1;
    }
    assert(captured@.take(captured@.len() as int) =~= captured@);
    out
}

/// Warning printed on save for an allow-listed name that looks like a secret.
pub fn secret_warning(name: &str) -> (out: String)
    ensures
        out@ == "warning: '"@ + name@
            + "' looks like it might hold a secret \u{2014} persisting it anyway because it's explicitly listed in your config."@,
{
    let mut out = owned("warning: '");
    crate::text::push_str(&mut out, name);
    crate::text::push_str(
        &mut out,
        "' looks like it might hold a secret \u{2014} persisting it anyway because it's explicitly listed in your config.",
    );
    out
}

/// How a POSIX shell reads a word made of plain characters, backslash
/// escapes and single-quoted pieces, left to right: whether it is inside
/// single quotes, whether a backslash is pending, and the characters so far.
pub open spec fn shell_read(word: Seq<char>) -> (bool, bool, Seq<char>)
    decreases word.len(),
{
    if word.len() == 0 {
        (false, false, Seq::empty())
    } else {
        let (quoted, escaped, out) = shell_read(word.drop_last());
        let c = word.last();
        if quoted {
            if c == '\'' { (false, false, out) } else { (true, false, out.push(c)) }
        } else if escaped {
            (false, false, out.push(c))
        } else if c == '\'' {
            (true, false, out)
        } else if c == '\\' {
            (false, true, out)
        } else {
            (false, false, out.push(c))
        }
    }
}

/// The value a shell gives a complete word, if the word is complete.
pub open spec fn shell_value(word: Seq<char>) -> Option<Seq<char>> {
    let (quoted, escaped, out) = shell_read(word);
    if quoted || escaped {
        None
    } else {
        Some(out)
    }
}

proof fn lemma_read_quoted_prefix(v: Seq<char>)
    ensures
        shell_read(seq!['\''] + escape_quotes(v)) == (true, false, v),
    decreases v.len(),
{
    if v.len() == 0 {
        assert(seq!['\''] + escape_quotes(v) =~= seq!['\'']);
        assert(seq!['\''].drop_last() =~= Seq::<char>::empty());
        assert(shell_read(Seq::<char>::empty()) == (false, false, Seq::<char>::empty()));
        assert(v =~= Seq::<char>::empty());
    } else {
        let w = v.drop_last();
        lemma_read_quoted_prefix(w);
        let p = seq!['\''] + escape_quotes(w);
        if v.last() == '\'' {
            let q = p + seq!['\'', '\\', '\'', '\''];
            assert(seq!['\''] + escape_quotes(v) =~= q);
            assert(q.drop_last() =~= p + seq!['\'', '\\', '\'']);
            assert((p + seq!['\'', '\\', '\'']).drop_last() =~= p + seq!['\'', '\\']);
            assert((p + seq!['\'', '\\']).drop_last() =~= p + seq!['\'']);
            assert((p + seq!['\'']).drop_last() =~= p);
            assert((p + seq!['\'']).last() == '\'');
            assert(shell_read(p + seq!['\'']) == (false, false, w));
            assert((p + seq!['\'', '\\']).last() == '\\');
            assert(shell_read(p + seq!['\'', '\\']) == (false, true, w));
            assert((p + seq!['\'', '\\', '\'']).last() == '\'');
            assert(shell_read(p + seq!['\'', '\\', '\'']) == (false, false, w.push('\'')));
            assert(q.last() == '\'');
            assert(shell_read(q) == (true, false, w.push('\'')));
            assert(w.push('\'') =~= v);
        } else {
            assert(seq!['\''] + escape_quotes(v) =~= p.push(v.last()));
            assert(p.push(v.last()).drop_last() =~= p);
            assert(shell_read(p.push(v.last())) == (true, false, w.push(v.last())));
            assert(w.push(v.last()) =~= v);
        }
    }
}

/// Quoting is safe: a shell reads a quoted value back as exactly that value,
/// whatever quotes, backslashes or other characters it holds.
pub proof fn lemma_quote_round_trip(value: Seq<char>)
    ensures
        shell_value(single_quoted(value)) == Some(value),
{
    lemma_read_quoted_prefix(value);
    let p = seq!['\''] + escape_quotes(value);
    assert(single_quoted(value) =~= p.push('\''));
    assert(p.push('\'').drop_last() =~= p);
}

/// Only allow-listed names are captured, and an allow-listed name is
/// captured exactly when the environment holds it; nothing is captured
/// from an empty allow-list.
pub proof fn lemma_only_allowlisted_captured(
    allow: Seq<Seq<char>>,
    values: Seq<Option<Seq<char>>>,
    name: Seq<char>,
)
    requires
        allow.len() == values.len(),
    ensures
        allowed_map(allow, values).contains_key(name) <==> exists|i: int|
            0 <= i < allow.len() && allow[i] == name && (#[trigger] values[i]) is Some,
        allow.len() == 0 ==> allowed_map(allow, values) == Map::<Seq<char>, Seq<char>>::empty(),
    decreases allow.len(),
{
    if allow.len() > 0 {
        let a = allow.drop_last();
        let v = values.drop_last();
        lemma_only_allowlisted_captured(a, v, name);
        if allowed_map(allow, values).contains_key(name) {
            if !allowed_map(a, v).contains_key(name) {
                let k = allow.len() - 1;
                assert(allow[k] == name && values[k] is Some);
            } else {
                let i = choose|i: int| 0 <= i < a.len() && a[i] == name && (#[trigger] v[i]) is Some;
                assert(allow[i] == name && values[i] is Some);
            }
        }
        if exists|i: int| 0 <= i < allow.len() && allow[i] == name && (#[trigger] values[i]) is Some {
            let i = choose|i: int| 0 <= i < allow.len() && allow[i] == name && (#[trigger] values[i]) is Some;
            if i < allow.len() - 1 {
                assert(a[i] == name && v[i] is Some);
            }
        }
    }
}

/// A later duplicate in the allow-list overrides an earlier one; the value
/// captured for a name is the one read for its last occurrence that is set.
pub proof fn lemma_last_value_wins(allow: Seq<Seq<char>>, values: Seq<Option<Seq<char>>>, i: int)
    requires
        allow.len() == values.len(),
        0 <= i < allow.len(),
        values[i] is Some,
        forall|j: int| i < j < allow.len() && allow[j] == allow[i] ==> (#[trigger] values[j]) is None,
    ensures
        allowed_map(allow, values)[allow[i]] == values[i]->Some_0,
    decreases allow.len(),
{
    if i < allow.len() - 1 {
        let a = allow.drop_last();
        let v = values.drop_last();
        assert forall|j: int| i < j < a.len() && a[j] == a[i] implies (#[trigger] v[j]) is None by {
            assert(values[j] is None);
        }
        lemma_last_value_wins(a, v, i);
    }
}

} // verus!
