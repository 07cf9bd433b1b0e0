//! Vectors of names kept in strictly increasing order, and maps from names
//! to values stored as such vectors: the library's ordered sets and maps
//! (the order of `BTreeSet<String>` and `BTreeMap<String, String>`).
use vstd::prelude::*;
use crate::text::{compare_strs, lemma_lex_irreflexive, lemma_lex_total, lemma_lex_transitive, lex_lt, Order};

verus! {

/// The characters of each string.
pub open spec fn views(v: Seq<String>) -> Seq<Seq<char>> {
    v.map_values(|s: String| s@)
}

/// Each element comes strictly before the next one.
pub open spec fn strictly_sorted(s: Seq<Seq<char>>) -> bool {
    forall|i: int, j: int| 0 <= i < j < s.len() ==> lex_lt(#[trigger] s[i], #[trigger] s[j])
}

/// The keys of a list of name/value pairs.
pub open spec fn keys_of(e: Seq<(String, String)>) -> Seq<Seq<char>> {
    e.map_values(|p: (String, String)| p.0@)
}

/// The map that a list of pairs with distinct keys stands for.
pub open spec fn pairs_map(e: Seq<(String, String)>) -> Map<Seq<char>, Seq<char>> {
    Map::new(
        |k: Seq<char>| exists|i: int| 0 <= i < e.len() && (#[trigger] e[i]).0@ == k,
        |k: Seq<char>| e[key_pos(e, k)].1@,
    )
}

/// A position at which `k` is a key.
pub open spec fn key_pos(e: Seq<(String, String)>, k: Seq<char>) -> int {
    choose|i: int| 0 <= i < e.len() && (#[trigger] e[i]).0@ == k
}

/// In a well-formed map, the pair at position `i` is the entry for its key.
pub proof fn lemma_pairs_map_at(e: Seq<(String, String)>, i: int)
    requires
        env_wf(e),
        0 <= i < e.len(),
    ensures
        pairs_map(e).contains_key(e[i].0@),
        pairs_map(e)[e[i].0@] == e[i].1@,
{
    let k = e[i].0@;
    assert(pairs_map(e).dom().contains(k));
    let c = key_pos(e, k);
    if c != i {
        assert(keys_of(e)[c] == e[c].0@);
        assert(keys_of(e)[i] == e[i].0@);
        lemma_sorted_distinct(keys_of(e), c, i);
    }
    assert(pairs_map(e)[k] == e[c].1@);
}

/// A well-formed ordered map: keys strictly increasing.
pub open spec fn env_wf(e: Seq<(String, String)>) -> bool {
    strictly_sorted(keys_of(e))
}

pub proof fn lemma_sorted_distinct(s: Seq<Seq<char>>, i: int, j: int)
    requires
        strictly_sorted(s),
        0 <= i < s.len(),
        0 <= j < s.len(),
        i != j,
    ensures
        s[i] != s[j],
{
    if i < j {
        assert(lex_lt(s[i], s[j]));
    } else {
        assert(lex_lt(s[j], s[i]));
    }
    lemma_lex_irreflexive(s[i]);
}

/// Position of `x` in a strictly sorted vector of names, or where it would go.
pub fn locate(v: &Vec<String>, x: &str) -> (r: (usize, bool))
    requires
        strictly_sorted(views(v@)),
    ensures
        r.0 <= v@.len(),
        forall|i: int| 0 <= i < r.0 ==> lex_lt(#[trigger] v@[i]@, x@),
        r.1 ==> r.0 < v@.len() && v@[r.0 as int]@ == x@,
        !r.1 ==> forall|i: int| r.0 <= i < v@.len() ==> lex_lt(x@, #[trigger] v@[i]@),
{
    let mut i: usize = 0;
    while i < v.len()
        invariant
            strictly_sorted(views(v@)),
            i <= v@.len(),
            forall|k: int| 0 <= k < i ==> lex_lt(#[trigger] v@[k]@, x@),
        decreases v@.len() - i,
    {
        match compare_strs(v[i].as_str(), x) {
            Order::Less => {},
            Order::Equal => {
                return (i, true);
            },
            Order::Greater => {
                proof {
                    lemma_lex_total(v@[i as int]@, x@);
                    assert forall|k: int| i <= k < v@.len() implies lex_lt(x@, #[trigger] v@[k]@) by {
                        if k > i {
                            assert(views(v@)[i as int] == v@[i as int]@);
                            assert(views(v@)[k] == v@[k]@);
                            lemma_lex_transitive(x@, v@[i as int]@, v@[k]@);
                        }
                    }
                }
                return (i, false);
            },
        }
        proof {
            lemma_lex_total(v@[i as int]@, x@);
        }
        i = i + 1;
    }
    (i, false)
}

/// Adds a name to a strictly sorted vector of names, keeping it sorted;
/// a name already present is not added twice.
pub fn insert_name(v: &mut Vec<String>, x: String)
    requires
        strictly_sorted(views(old(v)@)),
    ensures
        strictly_sorted(views(final(v)@)),
        views(final(v)@).to_set() == views(old(v)@).to_set().insert(x@),
{
    let ghost old_names = views(v@);
    let (pos, found) = locate(v, x.as_str());
    if found {
        proof {
            assert(old_names[pos as int] == x@);
            assert(old_names.to_set().insert(x@) =~= old_names.to_set());
        }
        return;
    }
    let ghost xv = x@;
    v.insert(pos, x);
    proof {
        let n = views(v@);
        assert(n =~= old_names.insert(pos as int, xv));
        assert forall|i: int, j: int| 0 <= i < j < n.len() implies lex_lt(#[trigger] n[i], #[trigger] n[j]) by {
            if j < pos {
                assert(lex_lt(old_names[i], old_names[j]));
            } else if j == pos {
                assert(n[i] == old_names[i]);
            } else if i == pos {
                assert(n[j] == old_names[j - 1]);
            } else if i < pos {
                assert(lex_lt(old_names[i], old_names[j - 1]));
            } else {
                assert(lex_lt(old_names[i - 1], old_names[j - 1]));
            }
        }
        assert forall|y: Seq<char>| n.to_set().contains(y) <==> old_names.to_set().insert(xv).contains(y) by {
            if n.to_set().contains(y) {
                let k = choose|k: int| 0 <= k < n.len() && n[k] == y;
                if k < pos {
                    assert(old_names[k] == y);
                } else if k > pos {
                    assert(old_names[k - 1] == y);
                }
            }
            if old_names.to_set().contains(y) {
                let k = choose|k: int| 0 <= k < old_names.len() && old_names[k] == y;
                if k < pos {
                    assert(n[k] == y);
                } else {
                    assert(n[k + 1] == y);
                }
            }
            if y == xv {
                assert(n[pos as int] == y);
            }
        }
        assert(n.to_set() =~= old_names.to_set().insert(xv));
    }
}

/// Sets `key` to `value` in a well-formed ordered map.
pub fn env_insert(e: &mut Vec<(String, String)>, key: String, value: String)
    requires
        env_wf(old(e)@),
    ensures
        env_wf(final(e)@),
        pairs_map(final(e)@) == pairs_map(old(e)@).insert(key@, value@),
{
    let ghost old_e = e@;
    let mut ks: Vec<String> = Vec::new();
    let mut i: usize = 0;
    while i < e.len()
        invariant
            i <= e@.len(),
            e@ == old_e,
            views(ks@) == keys_of(old_e).take(i as int),
        decreases e@.len() - i,
    {
        let kc = e[i].0.clone();
        assert(kc@ == keys_of(old_e)[i as int]);
        let ghost before = ks@;
        ks.push(kc);
        assert(views(ks@) =~= views(before).push(kc@));
        assert(keys_of(old_e).take(i + 1) =~= keys_of(old_e).take(i as int).push(keys_of(old_e)[i as int]));
        i = i + 1;
        assert(views(ks@) =~= keys_of(old_e).take(i as int));
    }
    assert(keys_of(old_e).take(old_e.len() as int) =~= keys_of(old_e));
    let (pos, found) = locate(&ks, key.as_str());
    let ghost kv = key@;
    let ghost vv = value@;
    if found {
        proof {
            assert(views(ks@)[pos as int] == old_e[pos as int].0@);
        }
        e[pos] = (key, value);
        proof {
            assert(keys_of(e@) =~= keys_of(old_e));
            let m = pairs_map(e@);
            let m0 = pairs_map(old_e).insert(kv, vv);
            assert forall|k: Seq<char>| m.contains_key(k) <==> m0.contains_key(k) by {
                if m.contains_key(k) {
                    let c = choose|c: int| 0 <= c < e@.len() && (#[trigger] e@[c]).0@ == k;
                    if c != pos {
                        assert(old_e[c].0@ == k);
                    }
                }
                if pairs_map(old_e).contains_key(k) {
                    let c = choose|c: int| 0 <= c < old_e.len() && (#[trigger] old_e[c]).0@ == k;
                    assert(e@[c].0@ == k);
                }
                if k == kv {
                    assert(e@[pos as int].0@ == k);
                }
            }
            assert forall|k: Seq<char>| m.contains_key(k) implies m[k] == m0[k] by {
                let c = choose|c: int| 0 <= c < e@.len() && (#[trigger] e@[c]).0@ == k;
                lemma_pairs_map_at(e@, c);
                if c != pos {
                    assert(old_e[c] == e@[c]);
                    lemma_pairs_map_at(old_e, c);
                    assert(keys_of(old_e)[c] == old_e[c].0@);
                    assert(keys_of(old_e)[pos as int] == old_e[pos as int].0@);
                    lemma_sorted_distinct(keys_of(old_e), c, pos as int);
                }
            }
            assert(m =~= m0);
        }
    } else {
        e.insert(pos, (key, value));
        proof {
            let n = keys_of(e@);
            let o = keys_of(old_e);
            assert(n =~= o.insert(pos as int, kv));
            assert forall|a: int, b: int| 0 <= a < b < n.len() implies lex_lt(#[trigger] n[a], #[trigger] n[b]) by {
                if b < pos {
                    assert(lex_lt(o[a], o[b]));
                } else if b == pos {
                    assert(n[a] == views(ks@)[a]);
                } else if a == pos {
                    assert(n[b] == views(ks@)[b - 1]);
                } else if a < pos {
                    assert(lex_lt(o[a], o[b - 1]));
                } else {
                    assert(lex_lt(o[a - 1], o[b - 1]));
                }
            }
            let m = pairs_map(e@);
            let m0 = pairs_map(old_e).insert(kv, vv);
            assert forall|k: Seq<char>| m.contains_key(k) <==> m0.contains_key(k) by {
                if m.contains_key(k) {
                    let c = choose|c: int| 0 <= c < e@.len() && (#[trigger] e@[c]).0@ == k;
                    if c < pos {
                        assert(old_e[c].0@ == k);
                    } else if c > pos {
                        assert(old_e[c - 1].0@ == k);
                    }
                }
                if pairs_map(old_e).contains_key(k) {
                    let c = choose|c: int| 0 <= c < old_e.len() && (#[trigger] old_e[c]).0@ == k;
                    if c < pos {
                        assert(e@[c].0@ == k);
                    } else {
                        assert(e@[c + 1].0@ == k);
                    }
                }
                if k == kv {
                    assert(e@[pos as int].0@ == k);
                }
            }
            assert forall|k: Seq<char>| m.contains_key(k) implies m[k] == m0[k] by {
                let c = choose|c: int| 0 <= c < e@.len() && (#[trigger] e@[c]).0@ == k;
                lemma_pairs_map_at(e@, c);
                if c < pos {
                    assert(old_e[c] == e@[c]);
                    lemma_pairs_map_at(old_e, c);
                    assert(lex_lt(views(ks@)[c], kv));
                    lemma_lex_irreflexive(kv);
                } else if c > pos {
                    assert(old_e[c - 1] == e@[c]);
                    lemma_pairs_map_at(old_e, c - 1);
                    assert(lex_lt(kv, views(ks@)[c - 1]));
                    lemma_lex_irreflexive(kv);
                }
            }
            assert(m =~= m0);
        }
    }
}

} // verus!
