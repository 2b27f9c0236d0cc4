//! Sequences of key–value pairs kept strictly sorted by key: the canonical form
//! of a finite map from strings.
use vstd::prelude::*;

use crate::order::{chars_lt, lemma_lex_asymmetric, lemma_lex_irreflexive, lemma_lex_total, lemma_lex_transitive, lex_lt};
use crate::text::chars_of;

verus! {

/// Keys are strictly increasing.
pub open spec fn sorted_keys<V>(s: Seq<(Seq<char>, V)>) -> bool {
    forall|a: int, b: int| 0 <= a < b < s.len() ==> lex_lt(#[trigger] s[a].0, #[trigger] s[b].0)
}

/// The map that a sequence of pairs describes; a later pair wins.
pub open spec fn map_of<V>(s: Seq<(Seq<char>, V)>) -> Map<Seq<char>, V>
    decreases s.len(),
{
    if s.len() == 0 {
        Map::empty()
    } else {
        map_of(s.drop_last()).insert(s.last().0, s.last().1)
    }
}

/// Position of key `k` in `s`, if any.
pub open spec fn has_key<V>(s: Seq<(Seq<char>, V)>, k: Seq<char>) -> bool {
    exists|i: int| 0 <= i < s.len() && #[trigger] s[i].0 == k
}

pub proof fn lemma_sorted_distinct<V>(s: Seq<(Seq<char>, V)>, a: int, b: int)
    requires
        sorted_keys(s),
        0 <= a < s.len(),
        0 <= b < s.len(),
        a != b,
    ensures
        s[a].0 != s[b].0,
{
    if a < b {
        lemma_lex_irreflexive(s[a].0);
    } else {
        lemma_lex_irreflexive(s[b].0);
    }
}

/// In a sorted sequence, the map holds exactly its keys, each with its value.
pub proof fn lemma_map_of<V>(s: Seq<(Seq<char>, V)>)
    requires
        sorted_keys(s),
    ensures
        forall|k: Seq<char>| #[trigger] map_of(s).contains_key(k) <==> has_key(s, k),
        forall|i: int| 0 <= i < s.len() ==> #[trigger] map_of(s)[s[i].0] == s[i].1,
    decreases s.len(),
{
    if s.len() > 0 {
        let t = s.drop_last();
        assert(sorted_keys(t));
        lemma_map_of(t);
        assert forall|k: Seq<char>| #[trigger] map_of(s).contains_key(k) <==> has_key(s, k) by {
            if has_key(s, k) {
                let i = choose|i: int| 0 <= i < s.len() && #[trigger] s[i].0 == k;
                if i < s.len() - 1 {
                    assert(t[i].0 == k);
                }
            }
            if map_of(t).contains_key(k) {
                assert(has_key(t, k));
                let i = choose|i: int| 0 <= i < t.len() && #[trigger] t[i].0 == k;
                assert(s[i].0 == k);
            }
        }
        assert forall|i: int| 0 <= i < s.len() implies #[trigger] map_of(s)[s[i].0] == s[i].1 by {
            if i < s.len() - 1 {
                lemma_sorted_distinct(s, i, s.len() - 1);
                assert(t[i] == s[i]);
                assert(map_of(t)[t[i].0] == t[i].1);
                assert(map_of(s)[s[i].0] == map_of(t)[s[i].0]);
            } else {
                assert(s[i] == s.last());
            }
        }
    }
}

/// Two sorted sequences that describe the same map are the same sequence.
pub proof fn lemma_sorted_unique<V>(s1: Seq<(Seq<char>, V)>, s2: Seq<(Seq<char>, V)>)
    requires
        sorted_keys(s1),
        sorted_keys(s2),
        map_of(s1) == map_of(s2),
    ensures
        s1 == s2,
    decreases s1.len() + s2.len(),
{
    lemma_map_of(s1);
    lemma_map_of(s2);
    if s1.len() == 0 || s2.len() == 0 {
        if s1.len() > 0 {
            assert(map_of(s1).contains_key(s1[0].0));
        }
        if s2.len() > 0 {
            assert(map_of(s2).contains_key(s2[0].0));
        }
        assert(s1 =~= s2);
    } else {
        let n1 = s1.len() - 1;
        let n2 = s2.len() - 1;
        let k1 = s1[n1].0;
        let k2 = s2[n2].0;
        assert(map_of(s2).contains_key(k1));
        let j2 = choose|i: int| 0 <= i < s2.len() && #[trigger] s2[i].0 == k1;
        assert(map_of(s1).contains_key(k2));
        let j1 = choose|i: int| 0 <= i < s1.len() && #[trigger] s1[i].0 == k2;
        if j2 < n2 {
            assert(lex_lt(k1, k2));
            if j1 < n1 {
                assert(lex_lt(k2, k1));
                lemma_lex_asymmetric(k1, k2);
            } else {
                lemma_lex_irreflexive(k1);
            }
        }
        assert(k1 == k2);
        let t1 = s1.drop_last();
        let t2 = s2.drop_last();
        assert(sorted_keys(t1));
        assert(sorted_keys(t2));
        lemma_map_of(t1);
        lemma_map_of(t2);
        assert(!map_of(t1).contains_key(k1)) by {
            if map_of(t1).contains_key(k1) {
                let i = choose|i: int| 0 <= i < t1.len() && #[trigger] t1[i].0 == k1;
                lemma_sorted_distinct(s1, i, n1);
            }
        }
        assert(!map_of(t2).contains_key(k2)) by {
            if map_of(t2).contains_key(k2) {
                let i = choose|i: int| 0 <= i < t2.len() && #[trigger] t2[i].0 == k2;
                lemma_sorted_distinct(s2, i, n2);
            }
        }
        assert(map_of(t1) =~= map_of(s1).remove(k1));
        assert(map_of(t2) =~= map_of(s2).remove(k2));
        lemma_sorted_unique(t1, t2);
        assert(s1[n1].1 == map_of(s1)[k1]);
        assert(s2[n2].1 == map_of(s2)[k2]);
        assert(s1 =~= t1.push(s1[n1]));
        assert(s2 =~= t2.push(s2[n2]));
    }
}

/// Key and value pairs with the keys viewed as character sequences.
pub open spec fn pair_views<V>(v: Seq<(String, V)>) -> Seq<(Seq<char>, V)> {
    v.map_values(|p: (String, V)| (p.0@, p.1))
}

/// Sets the value of `key`, keeping the keys sorted.
pub fn upsert<V>(v: &mut Vec<(String, V)>, key: String, val: V)
    requires
        sorted_keys(pair_views(old(v)@)),
    ensures
        sorted_keys(pair_views(final(v)@)),
        map_of(pair_views(final(v)@)) == map_of(pair_views(old(v)@)).insert(key@, val),
{
    let ghost old_pairs = pair_views(v@);
    let kc = chars_of(key.as_str());
    let mut k: usize = 0;
    while k < v.len() && chars_lt(
        chars_of(v[k].0.as_str()).as_slice(),
        kc.as_slice(),
    )
        invariant
            old_pairs == pair_views(v@),
            sorted_keys(old_pairs),
            kc@ == key@,
            k <= old_pairs.len(),
            forall|a: int| 0 <= a < k ==> lex_lt(#[trigger] old_pairs[a].0, key@),
        decreases old_pairs.len() - k,
    {
        k = k + 1;
    }
    let ghost e = (key@, val);
    proof {
        lemma_map_of(old_pairs);
    }
    if k < v.len() && v[k].0 == key {
        v.set(k, (key, val));
        proof {
            let np = pair_views(v@);
            assert(np =~= old_pairs.update(k as int, e));
            assert(sorted_keys(np)) by {
                assert forall|a: int, b: int| 0 <= a < b < np.len() implies lex_lt(#[trigger] np[a].0, #[trigger] np[b].0) by {
                    assert(np[a].0 == old_pairs[a].0);
                    assert(np[b].0 == old_pairs[b].0);
                }
            }
            lemma_map_of(np);
            let m = map_of(old_pairs).insert(e.0, e.1);
            assert(map_of(old_pairs).contains_key(e.0)) by {
                assert(old_pairs[k as int].0 == e.0);
            }
            assert forall|q: Seq<char>| #[trigger] map_of(np).contains_key(q) <==> m.contains_key(q) by {
                if has_key(np, q) {
                    let i = choose|i: int| 0 <= i < np.len() && #[trigger] np[i].0 == q;
                    assert(old_pairs[i].0 == q);
                }
                if has_key(old_pairs, q) {
                    let i = choose|i: int| 0 <= i < old_pairs.len() && #[trigger] old_pairs[i].0 == q;
                    assert(np[i].0 == q);
                }
            }
            assert forall|q: Seq<char>| #[trigger] map_of(np).contains_key(q) implies map_of(np)[q] == m[q] by {
                assert(has_key(np, q));
                let i = choose|i: int| 0 <= i < np.len() && #[trigger] np[i].0 == q;
                assert(map_of(np)[np[i].0] == np[i].1);
                if i != k {
                    lemma_sorted_distinct(old_pairs, i, k as int);
                    assert(map_of(old_pairs)[old_pairs[i].0] == old_pairs[i].1);
                }
            }
            assert(map_of(np) =~= m);
        }
    } else {
        let ghost at_k = if k < old_pairs.len() { old_pairs[k as int].0 } else { key@ };
        proof {
            if k < old_pairs.len() {
                assert(old_pairs[k as int].0 != key@);
                lemma_lex_total(old_pairs[k as int].0, key@);
            }
        }
        v.insert(k, (key, val));
        proof {
            let np = pair_views(v@);
            assert(np =~= old_pairs.insert(k as int, e));
            assert(sorted_keys(np)) by {
                assert forall|a: int, b: int| 0 <= a < b < np.len() implies lex_lt(#[trigger] np[a].0, #[trigger] np[b].0) by {
                    if b < k {
                        assert(np[a] == old_pairs[a] && np[b] == old_pairs[b]);
                    } else if b == k {
                        assert(np[a] == old_pairs[a]);
                    } else if a > k {
                        assert(np[a] == old_pairs[a - 1] && np[b] == old_pairs[b - 1]);
                    } else if a == k {
                        assert(np[b] == old_pairs[b - 1]);
                        if b - 1 > k {
                            assert(lex_lt(old_pairs[k as int].0, old_pairs[b - 1].0));
                            lemma_lex_transitive(key@, old_pairs[k as int].0, old_pairs[b - 1].0);
                        }
                    } else {
                        assert(np[a] == old_pairs[a] && np[b] == old_pairs[b - 1]);
                        assert(lex_lt(old_pairs[a].0, key@));
                        if b - 1 > k {
                            assert(lex_lt(old_pairs[k as int].0, old_pairs[b - 1].0));
                            lemma_lex_transitive(key@, old_pairs[k as int].0, old_pairs[b - 1].0);
                        }
                        lemma_lex_transitive(old_pairs[a].0, key@, old_pairs[b - 1].0);
                    }
                }
            }
            lemma_map_of(np);
            let m = map_of(old_pairs).insert(e.0, e.1);
            assert forall|q: Seq<char>| #[trigger] map_of(np).contains_key(q) <==> m.contains_key(q) by {
                if has_key(np, q) {
                    let i = choose|i: int| 0 <= i < np.len() && #[trigger] np[i].0 == q;
                    if i < k {
                        assert(old_pairs[i].0 == q);
                    } else if i > k {
                        assert(old_pairs[i - 1].0 == q);
                    }
                }
                if has_key(old_pairs, q) {
                    let i = choose|i: int| 0 <= i < old_pairs.len() && #[trigger] old_pairs[i].0 == q;
                    if i < k {
                        assert(np[i].0 == q);
                    } else {
                        assert(np[i + 1].0 == q);
                    }
                }
                if q == e.0 {
                    assert(np[k as int].0 == q);
                }
            }
            assert forall|q: Seq<char>| #[trigger] map_of(np).contains_key(q) implies map_of(np)[q] == m[q] by {
                assert(has_key(np, q));
                let i = choose|i: int| 0 <= i < np.len() && #[trigger] np[i].0 == q;
                assert(map_of(np)[np[i].0] == np[i].1);
                if i < k {
                    assert(np[i] == old_pairs[i]);
                    assert(map_of(old_pairs)[old_pairs[i].0] == old_pairs[i].1);
                    lemma_sorted_distinct(np, i, k as int);
                } else if i > k {
                    assert(np[i] == old_pairs[i - 1]);
                    assert(map_of(old_pairs)[old_pairs[i - 1].0] == old_pairs[i - 1].1);
                    lemma_sorted_distinct(np, i, k as int);
                }
            }
            assert(map_of(np) =~= m);
        }
    }
}

/// Position of `key`, if present.
pub fn find_key<V>(v: &Vec<(String, V)>, key: &String) -> (r: Option<usize>)
    requires
        sorted_keys(pair_views(v@)),
    ensures
        r matches Some(i) ==> i < v@.len() && pair_views(v@)[i as int].0 == key@ && map_of(pair_views(v@))[key@] == v@[i as int].1,
        r is None ==> !map_of(pair_views(v@)).contains_key(key@),
{
    let ghost ps = pair_views(v@);
    proof {
        lemma_map_of(ps);
    }
    let mut i: usize = 0;
    while i < v.len()
        invariant
            ps == pair_views(v@),
            sorted_keys(ps),
            i <= v@.len(),
            forall|q: int| 0 <= q < i ==> #[trigger] ps[q].0 != key@,
            forall|k: Seq<char>| #[trigger] map_of(ps).contains_key(k) <==> has_key(ps, k),
            forall|q: int| 0 <= q < ps.len() ==> #[trigger] map_of(ps)[ps[q].0] == ps[q].1,
        decreases v@.len() - i,
    {
        if v[i].0 == *key {
            assert(ps[i as int].0 == key@);
            return Some(i);
        }
        i = i + 1;
    }
    None
}

/// Removes `key`, keeping the keys sorted.
pub fn remove_key<V>(v: &mut Vec<(String, V)>, key: &String)
    requires
        sorted_keys(pair_views(old(v)@)),
    ensures
        sorted_keys(pair_views(final(v)@)),
        map_of(pair_views(final(v)@)) == map_of(pair_views(old(v)@)).remove(key@),
{
    let ghost op = pair_views(v@);
    proof {
        lemma_map_of(op);
    }
    match find_key(v, key) {
        Some(i) => {
            v.remove(i);
            proof {
                let np = pair_views(v@);
                assert(np =~= op.remove(i as int));
                assert(sorted_keys(np)) by {
                    assert forall|a: int, b: int| 0 <= a < b < np.len() implies lex_lt(#[trigger] np[a].0, #[trigger] np[b].0) by {
                        if b < i {
                            assert(np[a] == op[a] && np[b] == op[b]);
                        } else if a < i {
                            assert(np[a] == op[a] && np[b] == op[b + 1]);
                        } else {
                            assert(np[a] == op[a + 1] && np[b] == op[b + 1]);
                        }
                    }
                }
                lemma_map_of(np);
                let m = map_of(op).remove(key@);
                assert forall|q: Seq<char>| #[trigger] map_of(np).contains_key(q) <==> m.contains_key(q) by {
                    if has_key(np, q) {
                        let j = choose|j: int| 0 <= j < np.len() && #[trigger] np[j].0 == q;
                        if j < i {
                            assert(op[j].0 == q);
                            lemma_sorted_distinct(op, j, i as int);
                        } else {
                            assert(op[j + 1].0 == q);
                            lemma_sorted_distinct(op, j + 1, i as int);
                        }
                    }
                    if m.contains_key(q) {
                        assert(has_key(op, q));
                        let j = choose|j: int| 0 <= j < op.len() && #[trigger] op[j].0 == q;
                        if j < i {
                            assert(np[j].0 == q);
                        } else {
                            assert(j != i);
                            assert(np[j - 1].0 == q);
                        }
                    }
                }
                assert forall|q: Seq<char>| #[trigger] map_of(np).contains_key(q) implies map_of(np)[q] == m[q] by {
                    assert(has_key(np, q));
                    let j = choose|j: int| 0 <= j < np.len() && #[trigger] np[j].0 == q;
                    assert(map_of(np)[np[j].0] == np[j].1);
                    if j < i {
                        assert(map_of(op)[op[j].0] == op[j].1);
                    } else {
                        assert(map_of(op)[op[j + 1].0] == op[j + 1].1);
                    }
                }
                assert(map_of(np) =~= m);
            }
        },
        None => {
            proof {
                assert(map_of(op) =~= map_of(op).remove(key@));
            }
        },
    }
}

} // verus!
