//! Maps keyed by strings, held as vectors of pairs in ascending key order
//! (the iteration order of a `BTreeMap<String, V>`).
use vstd::prelude::*;
use crate::text::{lemma_str_less_irrefl, lemma_str_less_total, lemma_str_less_trans, str_eq, str_less, string_less};

verus! {

/// Keys strictly ascending: sorted, each key once.
pub open spec fn keys_sorted<V>(ps: Seq<(String, V)>) -> bool {
    forall|i: int, j: int| 0 <= i < j < ps.len() ==> str_less(#[trigger] ps[i].0@, #[trigger] ps[j].0@)
}

pub open spec fn has_key<V>(ps: Seq<(String, V)>, k: Seq<char>) -> bool {
    exists|i: int| 0 <= i < ps.len() && #[trigger] ps[i].0@ == k
}

/// The position of the first entry under `k`, or the number of entries.
pub open spec fn sm_index<V>(ps: Seq<(String, V)>, k: Seq<char>) -> int
    decreases ps.len(),
{
    if ps.len() == 0 {
        0
    } else {
        let p = sm_index(ps.drop_last(), k);
        if p < ps.len() - 1 {
            p
        } else if ps.last().0@ == k {
            ps.len() - 1
        } else {
            ps.len() as int
        }
    }
}

/// The value stored under `k`, if any.
pub open spec fn sm_get<V>(ps: Seq<(String, V)>, k: Seq<char>) -> Option<V> {
    if has_key(ps, k) {
        Some(ps[sm_index(ps, k)].1)
    } else {
        None
    }
}

pub proof fn lemma_sm_index<V>(ps: Seq<(String, V)>, k: Seq<char>)
    ensures
        0 <= sm_index(ps, k) <= ps.len(),
        sm_index(ps, k) < ps.len() ==> ps[sm_index(ps, k)].0@ == k,
        forall|j: int| 0 <= j < sm_index(ps, k) ==> #[trigger] ps[j].0@ != k,
        has_key(ps, k) == (sm_index(ps, k) < ps.len()),
    decreases ps.len(),
{
    if ps.len() > 0 {
        let d = ps.drop_last();
        lemma_sm_index(d, k);
        let p = sm_index(d, k);
        assert forall|j: int| 0 <= j < sm_index(ps, k) implies #[trigger] ps[j].0@ != k by {
            if j < d.len() {
                assert(ps[j] == d[j]);
            }
        }
        if p < d.len() {
            assert(ps[p] == d[p]);
        }
        if has_key(ps, k) {
            let w = choose|i: int| 0 <= i < ps.len() && #[trigger] ps[i].0@ == k;
            if sm_index(ps, k) >= ps.len() {
                assert(ps[w].0@ != k);
            }
        }
        if sm_index(ps, k) < ps.len() {
            let f = sm_index(ps, k);
            assert(ps[f].0@ == k);
        }
    }
}

/// The keys, in order.
pub open spec fn sm_keys<V>(ps: Seq<(String, V)>) -> Seq<Seq<char>> {
    ps.map_values(|e: (String, V)| e.0@)
}

pub proof fn lemma_key_unique<V>(ps: Seq<(String, V)>, i: int, j: int)
    requires
        keys_sorted(ps),
        0 <= i < ps.len(),
        0 <= j < ps.len(),
        ps[i].0@ == ps[j].0@,
    ensures
        i == j,
{
    if i < j {
        lemma_str_less_irrefl(ps[i].0@);
    } else if j < i {
        lemma_str_less_irrefl(ps[i].0@);
    }
}

/// With sorted keys, the entry at `i` is the one stored under its key.
pub proof fn lemma_sm_get_at<V>(ps: Seq<(String, V)>, i: int)
    requires
        keys_sorted(ps),
        0 <= i < ps.len(),
    ensures
        sm_get(ps, ps[i].0@) == Some(ps[i].1),
{
    let k = ps[i].0@;
    assert(has_key(ps, k));
    lemma_sm_index(ps, k);
    let f = sm_index(ps, k);
    if f > i {
        assert(ps[i].0@ != k);
    }
    lemma_key_unique(ps, i, f);
}

/// Finds the position of `key`.
pub fn sm_find<V>(entries: &Vec<(String, V)>, key: &str) -> (r: Option<usize>)
    requires
        keys_sorted(entries@),
    ensures
        match r {
            Some(i) => i < entries@.len() && entries@[i as int].0@ == key@ && sm_get(entries@, key@)
                == Some(entries@[i as int].1),
            None => sm_get(entries@, key@) is None,
        },
{
    let mut i: usize = 0;
    while i < entries.len()
        invariant
            i <= entries@.len(),
            keys_sorted(entries@),
            forall|j: int| 0 <= j < i ==> #[trigger] entries@[j].0@ != key@,
        decreases entries@.len() - i,
    {
        if str_eq(entries[i].0.as_str(), key) {
            proof {
                lemma_sm_get_at(entries@, i as int);
            }
            return Some(i);
        }
        i = i + 1;
    }
    None
}

/// The position of the first entry under `key`, or the number of entries.
pub fn sm_position<V>(entries: &Vec<(String, V)>, key: &str) -> (r: usize)
    ensures
        r == sm_index(entries@, key@),
{
    proof {
        lemma_sm_index(entries@, key@);
    }
    let mut i: usize = 0;
    while i < entries.len()
        invariant
            i <= entries@.len(),
            0 <= sm_index(entries@, key@) <= entries@.len(),
            sm_index(entries@, key@) < entries@.len() ==> entries@[sm_index(entries@, key@)].0@ == key@,
            forall|j: int| 0 <= j < sm_index(entries@, key@) ==> #[trigger] entries@[j].0@ != key@,
            forall|j: int| 0 <= j < i ==> #[trigger] entries@[j].0@ != key@,
        decreases entries@.len() - i,
    {
        if str_eq(entries[i].0.as_str(), key) {
            return i;
        }
        i = i + 1;
    }
    i
}

/// Stores `value` under `key`, returning what was stored there before.
pub fn sm_insert<V>(entries: &mut Vec<(String, V)>, key: String, value: V) -> (prev: Option<V>)
    requires
        keys_sorted(old(entries)@),
    ensures
        keys_sorted(final(entries)@),
        final(entries)@.len() == old(entries)@.len() + if prev is Some {
            0int
        } else {
            1int
        },
        prev == sm_get(old(entries)@, key@),
        forall|k: Seq<char>|
            #[trigger] sm_get(final(entries)@, k) == if k == key@ {
                Some(value)
            } else {
                sm_get(old(entries)@, k)
            },
{
    let ghost o = entries@;
    let ghost kv = key@;
    let mut p: usize = 0;
    while p < entries.len() && string_less(entries[p].0.as_str(), key.as_str())
        invariant
            p <= entries@.len(),
            entries@ == o,
            key@ == kv,
            forall|j: int| 0 <= j < p ==> str_less(#[trigger] o[j].0@, kv),
        decreases entries@.len() - p,
    {
        assert(str_less(o[p as int].0@, kv));
        p = p + 1;
    }
    if p < entries.len() && str_eq(entries[p].0.as_str(), key.as_str()) {
        proof {
            lemma_sm_get_at(o, p as int);
        }
        let (_, old_value) = entries.remove(p);
        entries.insert(p, (key, value));
        proof {
            let n = entries@;
            assert(n =~= o.update(p as int, (n[p as int].0, value)));
            assert forall|i: int, j: int| 0 <= i < j < n.len() implies str_less(
                #[trigger] n[i].0@,
                #[trigger] n[j].0@,
            ) by {
                assert(n[i].0@ == o[i].0@);
                assert(n[j].0@ == o[j].0@);
            }
            assert forall|k: Seq<char>| #[trigger] sm_get(n, k) == if k == kv {
                Some(value)
            } else {
                sm_get(o, k)
            } by {
                if k == kv {
                    lemma_sm_get_at(n, p as int);
                } else if has_key(o, k) {
                    let c = choose|c: int| 0 <= c < o.len() && #[trigger] o[c].0@ == k;
                    lemma_sm_get_at(o, c);
                    lemma_sm_get_at(n, c);
                } else if has_key(n, k) {
                    let c = choose|c: int| 0 <= c < n.len() && #[trigger] n[c].0@ == k;
                    assert(o[c].0@ == k);
                }
            }
        }
        Some(old_value)
    } else {
        proof {
            if has_key(o, kv) {
                let c = choose|c: int| 0 <= c < o.len() && #[trigger] o[c].0@ == kv;
                if c < p {
                    lemma_str_less_irrefl(kv);
                } else if c > p {
                    assert(!str_less(o[p as int].0@, kv));
                    lemma_str_less_total(o[p as int].0@, kv);
                    lemma_str_less_trans(kv, o[p as int].0@, o[c].0@);
                    lemma_str_less_irrefl(kv);
                }
            }
        }
        entries.insert(p, (key, value));
        proof {
            let n = entries@;
            assert(n =~= o.insert(p as int, (n[p as int].0, value)));
            if p < o.len() {
                assert(!str_less(o[p as int].0@, kv));
                lemma_str_less_total(o[p as int].0@, kv);
                assert(str_less(kv, o[p as int].0@));
            }
            assert forall|i: int, j: int| 0 <= i < j < n.len() implies str_less(
                #[trigger] n[i].0@,
                #[trigger] n[j].0@,
            ) by {
                if j < p {
                    assert(n[i] == o[i] && n[j] == o[j]);
                } else if j == p {
                    assert(n[i] == o[i]);
                } else if i == p {
                    assert(n[j] == o[j - 1]);
                    if j - 1 > p {
                        lemma_str_less_trans(kv, o[p as int].0@, o[j - 1].0@);
                    }
                } else if i < p {
                    assert(n[i] == o[i] && n[j] == o[j - 1]);
                    if j - 1 > p {
                        lemma_str_less_trans(kv, o[p as int].0@, o[j - 1].0@);
                    }
                    lemma_str_less_trans(o[i].0@, kv, o[j - 1].0@);
                } else {
                    assert(n[i] == o[i - 1] && n[j] == o[j - 1]);
                }
            }
            assert forall|k: Seq<char>| #[trigger] sm_get(n, k) == if k == kv {
                Some(value)
            } else {
                sm_get(o, k)
            } by {
                if k == kv {
                    lemma_sm_get_at(n, p as int);
                } else if has_key(o, k) {
                    let c = choose|c: int| 0 <= c < o.len() && #[trigger] o[c].0@ == k;
                    lemma_sm_get_at(o, c);
                    if c < p {
                        assert(n[c] == o[c]);
                        lemma_sm_get_at(n, c);
                    } else {
                        assert(n[c + 1] == o[c]);
                        lemma_sm_get_at(n, c + 1);
                    }
                } else if has_key(n, k) {
                    let c = choose|c: int| 0 <= c < n.len() && #[trigger] n[c].0@ == k;
                    if c < p {
                        assert(o[c].0@ == k);
                    } else if c > p {
                        assert(o[c - 1].0@ == k);
                    }
                }
            }
        }
        None
    }
}

/// Removes the entry under `key`, returning its value.
pub fn sm_remove<V>(entries: &mut Vec<(String, V)>, key: &str) -> (prev: Option<V>)
    requires
        keys_sorted(old(entries)@),
    ensures
        keys_sorted(final(entries)@),
        final(entries)@.len() == old(entries)@.len() - if prev is Some {
            1int
        } else {
            0int
        },
        prev == sm_get(old(entries)@, key@),
        forall|k: Seq<char>|
            #[trigger] sm_get(final(entries)@, k) == if k == key@ {
                None
            } else {
                sm_get(old(entries)@, k)
            },
{
    let ghost o = entries@;
    match sm_find(entries, key) {
        None => {
            proof {
                assert forall|k: Seq<char>| #[trigger] sm_get(o, k) == if k == key@ {
                    None
                } else {
                    sm_get(o, k)
                } by {}
            }
            None
        },
        Some(p) => {
            let (_, v) = entries.remove(p);
            proof {
                let n = entries@;
                assert(n =~= o.remove(p as int));
                assert forall|i: int, j: int| 0 <= i < j < n.len() implies str_less(
                    #[trigger] n[i].0@,
                    #[trigger] n[j].0@,
                ) by {
                    if j < p {
                        assert(n[i] == o[i] && n[j] == o[j]);
                    } else if i < p {
                        assert(n[i] == o[i] && n[j] == o[j + 1]);
                    } else {
                        assert(n[i] == o[i + 1] && n[j] == o[j + 1]);
                    }
                }
                assert forall|k: Seq<char>| #[trigger] sm_get(n, k) == if k == key@ {
                    None
                } else {
                    sm_get(o, k)
                } by {
                    if has_key(n, k) {
                        let c = choose|c: int| 0 <= c < n.len() && #[trigger] n[c].0@ == k;
                        if c < p {
                            assert(n[c] == o[c]);
                            lemma_sm_get_at(o, c);
                            lemma_sm_get_at(n, c);
                            if k == key@ {
                                lemma_key_unique(o, c, p as int);
                            }
                        } else {
                            assert(n[c] == o[c + 1]);
                            lemma_sm_get_at(o, c + 1);
                            lemma_sm_get_at(n, c);
                            if k == key@ {
                                lemma_key_unique(o, c + 1, p as int);
                            }
                        }
                    } else if has_key(o, k) && k != key@ {
                        let c = choose|c: int| 0 <= c < o.len() && #[trigger] o[c].0@ == k;
                        if c < p {
                            assert(n[c] == o[c]);
                        } else if c > p {
                            assert(n[c - 1] == o[c]);
                        }
                    }
                }
            }
            Some(v)
        },
    }
}

/// The value of the last pair for `k`.
pub open spec fn pairs_last<V>(ps: Seq<(String, V)>, k: Seq<char>) -> Option<V>
    decreases ps.len(),
{
    if ps.len() == 0 {
        None
    } else if ps.last().0@ == k {
        Some(ps.last().1)
    } else {
        pairs_last(ps.drop_last(), k)
    }
}

/// The map of the given pairs, in key order; a key given twice keeps its
/// last value.
pub fn sm_from_pairs<V>(pairs: Vec<(String, V)>) -> (r: Vec<(String, V)>)
    ensures
        keys_sorted(r@),
        forall|k: Seq<char>| #[trigger] sm_get(r@, k) == pairs_last(pairs@, k),
{
    let ghost all = pairs@;
    let mut rest = pairs;
    let mut out: Vec<(String, V)> = Vec::new();
    let ghost mut done: int = 0;
    while rest.len() > 0
        invariant
            0 <= done <= all.len(),
            rest@ == all.subrange(done, all.len() as int),
            keys_sorted(out@),
            forall|k: Seq<char>| #[trigger] sm_get(out@, k) == pairs_last(all.take(done), k),
        decreases rest@.len(),
    {
        let (k, v) = rest.remove(0);
        proof {
            assert(all.take(done + 1).drop_last() =~= all.take(done));
            assert(all.take(done + 1).last() == all[done]);
            assert(all[done] == (k, v));
        }
        sm_insert(&mut out, k, v);
        proof {
            assert(rest@ =~= all.subrange(done + 1, all.len() as int));
            done = done + 1;
        }
    }
    assert(all.take(done) =~= all);
    out
}

} // verus!
