//! Configuration document values (the shapes TOML has) and their
//! mathematical model.
//!
//! A table is a list of entries; the entry under a key is the first one with
//! that key, as a map lookup finds it.
use vstd::prelude::*;
use crate::strmap::{lemma_sm_index, sm_index, sm_position};
use crate::text::str_eq;

verus! {

broadcast use vstd::std_specs::vec::group_vec_axioms;

/// A configuration document value.
#[derive(Debug)]
pub enum ConfigValue {
    String(String),
    Integer(i64),
    /// A floating-point number, held as its decimal text.
    Float(String),
    Boolean(bool),
    Datetime(String),
    Array(Vec<ConfigValue>),
    Table(Vec<(String, ConfigValue)>),
}

/// The model of a `ConfigValue`: texts as character sequences, arrays and
/// tables as sequences.
pub enum ValueView {
    String(Seq<char>),
    Integer(i64),
    Float(Seq<char>),
    Boolean(bool),
    Datetime(Seq<char>),
    Array(Seq<ValueView>),
    Table(Seq<(Seq<char>, ValueView)>),
}

pub open spec fn value_model(v: ConfigValue) -> ValueView
    decreases v, 0int,
{
    match v {
        ConfigValue::String(s) => ValueView::String(s@),
        ConfigValue::Integer(i) => ValueView::Integer(i),
        ConfigValue::Float(f) => ValueView::Float(f@),
        ConfigValue::Boolean(b) => ValueView::Boolean(b),
        ConfigValue::Datetime(d) => ValueView::Datetime(d@),
        ConfigValue::Array(a) => ValueView::Array(items_model(a@)),
        ConfigValue::Table(t) => ValueView::Table(entries_model(t@)),
    }
}

pub open spec fn items_model(s: Seq<ConfigValue>) -> Seq<ValueView>
    decreases s, s.len(),
{
    if s.len() == 0 {
        Seq::empty()
    } else {
        items_model(s.subrange(0, s.len() - 1)).push(value_model(s[s.len() - 1]))
    }
}

pub open spec fn entries_model(s: Seq<(String, ConfigValue)>) -> Seq<(Seq<char>, ValueView)>
    decreases s, s.len(),
{
    if s.len() == 0 {
        Seq::empty()
    } else {
        entries_model(s.subrange(0, s.len() - 1)).push(
            (s[s.len() - 1].0@, value_model(s[s.len() - 1].1)),
        )
    }
}

impl View for ConfigValue {
    type V = ValueView;

    open spec fn view(&self) -> ValueView {
        value_model(*self)
    }
}

pub proof fn lemma_items_model(s: Seq<ConfigValue>)
    ensures
        items_model(s).len() == s.len(),
        forall|i: int| 0 <= i < s.len() ==> #[trigger] items_model(s)[i] == value_model(s[i]),
    decreases s.len(),
{
    if s.len() > 0 {
        let d = s.subrange(0, s.len() - 1);
        lemma_items_model(d);
        assert forall|i: int| 0 <= i < s.len() implies #[trigger] items_model(s)[i] == value_model(
            s[i],
        ) by {
            if i < s.len() - 1 {
                assert(d[i] == s[i]);
            }
        }
    }
}

pub proof fn lemma_entries_model(s: Seq<(String, ConfigValue)>)
    ensures
        entries_model(s).len() == s.len(),
        forall|i: int|
            0 <= i < s.len() ==> #[trigger] entries_model(s)[i] == (s[i].0@, value_model(s[i].1)),
    decreases s.len(),
{
    if s.len() > 0 {
        let d = s.subrange(0, s.len() - 1);
        lemma_entries_model(d);
        assert forall|i: int| 0 <= i < s.len() implies #[trigger] entries_model(s)[i] == (
            s[i].0@,
            value_model(s[i].1),
        ) by {
            if i < s.len() - 1 {
                assert(d[i] == s[i]);
            }
        }
    }
}

/// Two entry lists with the same model entry by entry have the same model.
pub proof fn lemma_entries_model_ext(s: Seq<(String, ConfigValue)>, m: Seq<(Seq<char>, ValueView)>)
    requires
        s.len() == m.len(),
        forall|i: int| 0 <= i < s.len() ==> #[trigger] m[i] == (s[i].0@, value_model(s[i].1)),
    ensures
        entries_model(s) == m,
{
    lemma_entries_model(s);
    assert(entries_model(s) =~= m);
}

pub proof fn lemma_items_model_ext(s: Seq<ConfigValue>, m: Seq<ValueView>)
    requires
        s.len() == m.len(),
        forall|i: int| 0 <= i < s.len() ==> #[trigger] m[i] == value_model(s[i]),
    ensures
        items_model(s) == m,
{
    lemma_items_model(s);
    assert(items_model(s) =~= m);
}

// ---------------------------------------------------------------------------
// Tables of the model.
/// The position of the first entry under `k`, or the number of entries.
pub open spec fn vt_index(t: Seq<(Seq<char>, ValueView)>, k: Seq<char>) -> int
    decreases t.len(),
{
    if t.len() == 0 {
        0
    } else {
        let p = vt_index(t.drop_last(), k);
        if p < t.len() - 1 {
            p
        } else if t.last().0 == k {
            t.len() - 1
        } else {
            t.len() as int
        }
    }
}

/// The value under `k`: that of the first entry with that key.
pub open spec fn vt_get(t: Seq<(Seq<char>, ValueView)>, k: Seq<char>) -> Option<ValueView> {
    if vt_index(t, k) < t.len() {
        Some(t[vt_index(t, k)].1)
    } else {
        None
    }
}

/// `t` with `x` stored under `k`: the first entry under `k` replaced in
/// place, or a new entry at the end.
pub open spec fn vt_put(t: Seq<(Seq<char>, ValueView)>, k: Seq<char>, x: ValueView) -> Seq<
    (Seq<char>, ValueView),
> {
    if vt_index(t, k) < t.len() {
        t.update(vt_index(t, k), (k, x))
    } else {
        t.push((k, x))
    }
}

/// `t` without any entry under `k`, the others in order.
pub open spec fn vt_drop(t: Seq<(Seq<char>, ValueView)>, k: Seq<char>) -> Seq<
    (Seq<char>, ValueView),
>
    decreases t.len(),
{
    if t.len() == 0 {
        t
    } else if t.last().0 == k {
        vt_drop(t.drop_last(), k)
    } else {
        vt_drop(t.drop_last(), k).push(t.last())
    }
}

pub proof fn lemma_vt_index(t: Seq<(Seq<char>, ValueView)>, k: Seq<char>)
    ensures
        0 <= vt_index(t, k) <= t.len(),
        vt_index(t, k) < t.len() ==> t[vt_index(t, k)].0 == k,
        forall|j: int| 0 <= j < vt_index(t, k) ==> #[trigger] t[j].0 != k,
    decreases t.len(),
{
    if t.len() > 0 {
        let d = t.drop_last();
        lemma_vt_index(d, k);
        assert forall|j: int| 0 <= j < vt_index(t, k) implies #[trigger] t[j].0 != k by {
            if j < d.len() {
                assert(t[j] == d[j]);
            }
        }
        let p = vt_index(d, k);
        if p < d.len() {
            assert(t[p] == d[p]);
        }
    }
}

/// The first position holding `k` is the one found.
pub proof fn lemma_vt_index_at(t: Seq<(Seq<char>, ValueView)>, k: Seq<char>, i: int)
    requires
        0 <= i <= t.len(),
        i < t.len() ==> t[i].0 == k,
        forall|j: int| 0 <= j < i ==> #[trigger] t[j].0 != k,
    ensures
        vt_index(t, k) == i,
{
    lemma_vt_index(t, k);
    let f = vt_index(t, k);
    if f < i {
        assert(t[f].0 != k);
    }
    if i < f {
        assert(t[i].0 != k);
    }
}

/// The model's lookup agrees with the lookup on the entries themselves.
pub proof fn lemma_vt_index_model(s: Seq<(String, ConfigValue)>, k: Seq<char>)
    ensures
        vt_index(entries_model(s), k) == sm_index(s, k),
{
    lemma_entries_model(s);
    lemma_sm_index(s, k);
    let m = entries_model(s);
    let i = sm_index(s, k);
    assert forall|j: int| 0 <= j < i implies #[trigger] m[j].0 != k by {
        assert(m[j] == (s[j].0@, value_model(s[j].1)));
        assert(s[j].0@ != k);
    }
    if i < s.len() {
        assert(m[i] == (s[i].0@, value_model(s[i].1)));
    }
    lemma_vt_index_at(m, k, i);
}

pub proof fn lemma_vt_put(t: Seq<(Seq<char>, ValueView)>, k: Seq<char>, x: ValueView)
    ensures
        vt_get(vt_put(t, k, x), k) == Some(x),
        forall|q: Seq<char>| q != k ==> #[trigger] vt_get(vt_put(t, k, x), q) == vt_get(t, q),
{
    lemma_vt_index(t, k);
    let n = vt_put(t, k, x);
    let i = vt_index(t, k);
    assert forall|j: int| 0 <= j < i implies #[trigger] n[j].0 != k by {
        assert(n[j] == t[j]);
    }
    lemma_vt_index_at(n, k, i);
    assert forall|q: Seq<char>| q != k implies #[trigger] vt_get(n, q) == vt_get(t, q) by {
        lemma_vt_index(t, q);
        let f = vt_index(t, q);
        assert forall|j: int| 0 <= j < f implies #[trigger] n[j].0 != q by {
            if j != i {
                assert(n[j] == t[j]);
            }
        }
        if f < t.len() {
            assert(n[f] == t[f]);
            lemma_vt_index_at(n, q, f);
        } else if i < t.len() {
            lemma_vt_index_at(n, q, f);
        } else {
            assert forall|j: int| 0 <= j < n.len() implies #[trigger] n[j].0 != q by {
                if j < t.len() {
                    assert(n[j] == t[j]);
                }
            }
            lemma_vt_index_at(n, q, n.len() as int);
        }
    }
}

pub proof fn lemma_vt_drop(t: Seq<(Seq<char>, ValueView)>, k: Seq<char>)
    ensures
        forall|j: int| 0 <= j < vt_drop(t, k).len() ==> #[trigger] vt_drop(t, k)[j].0 != k,
        vt_get(vt_drop(t, k), k) is None,
    decreases t.len(),
{
    if t.len() > 0 {
        lemma_vt_drop(t.drop_last(), k);
    }
    let d = vt_drop(t, k);
    lemma_vt_index(d, k);
    if vt_index(d, k) < d.len() {
        assert(d[vt_index(d, k)].0 != k);
    }
}


proof fn lemma_vt_get_push(s: Seq<(Seq<char>, ValueView)>, e: (Seq<char>, ValueView), q: Seq<char>)
    ensures
        vt_get(s.push(e), q) == if vt_get(s, q) is Some {
            vt_get(s, q)
        } else if e.0 == q {
            Some(e.1)
        } else {
            None
        },
{
    let n = s.push(e);
    assert(n.drop_last() =~= s);
    lemma_vt_index(s, q);
    let p = vt_index(s, q);
    if p < s.len() {
        assert(n[p] == s[p]);
    }
}

/// Dropping one key leaves what is read under the other keys as it was.
pub proof fn lemma_vt_drop_other(t: Seq<(Seq<char>, ValueView)>, k: Seq<char>, q: Seq<char>)
    requires
        q != k,
    ensures
        vt_get(vt_drop(t, k), q) == vt_get(t, q),
    decreases t.len(),
{
    if t.len() > 0 {
        let d = t.drop_last();
        let last = t.last();
        lemma_vt_drop_other(d, k, q);
        assert(d.push(last) =~= t);
        lemma_vt_get_push(d, last, q);
        if last.0 != k {
            lemma_vt_get_push(vt_drop(d, k), last, q);
        }
    }
}

// ---------------------------------------------------------------------------
// Operations.
proof fn lemma_item_decreases(v: ConfigValue, i: int)
    requires
        v is Array,
        0 <= i < v->Array_0@.len(),
    ensures
        decreases_to!(v => v->Array_0@[i]),
{
    match v {
        ConfigValue::Array(a) => {
            assert(decreases_to!(v => a@[i]));
        },
        _ => {},
    }
}

proof fn lemma_entry_decreases(v: ConfigValue, i: int)
    requires
        v is Table,
        0 <= i < v->Table_0@.len(),
    ensures
        decreases_to!(v => v->Table_0@[i].1),
{
    match v {
        ConfigValue::Table(t) => {
            assert(decreases_to!(v => t@[i].1));
        },
        _ => {},
    }
}

/// A copy of the value.
pub fn copy_value(v: &ConfigValue) -> (r: ConfigValue)
    ensures
        r@ == v@,
    decreases *v,
{
    match v {
        ConfigValue::String(s) => ConfigValue::String(s.clone()),
        ConfigValue::Integer(i) => ConfigValue::Integer(*i),
        ConfigValue::Float(f) => ConfigValue::Float(f.clone()),
        ConfigValue::Boolean(b) => ConfigValue::Boolean(*b),
        ConfigValue::Datetime(d) => ConfigValue::Datetime(d.clone()),
        ConfigValue::Array(items) => {
            let mut out: Vec<ConfigValue> = Vec::new();
            let mut i: usize = 0;
            while i < items.len()
                invariant
                    i <= items@.len(),
                    *v == ConfigValue::Array(*items),
                    out@.len() == i,
                    forall|j: int| 0 <= j < i ==> #[trigger] value_model(out@[j]) == value_model(
                        items@[j],
                    ),
                decreases items@.len() - i,
            {
                proof {
                    assert(decreases_to!(*items => items[i as int]));
                    lemma_item_decreases(*v, i as int);
                }
                let c = copy_value(&items[i]);
                out.push(c);
                i = i + 1;
            }
            proof {
                lemma_items_model(items@);
                lemma_items_model_ext(out@, items_model(items@));
            }
            ConfigValue::Array(out)
        },
        ConfigValue::Table(t) => {
            let mut out: Vec<(String, ConfigValue)> = Vec::new();
            let mut i: usize = 0;
            while i < t.len()
                invariant
                    i <= t@.len(),
                    *v == ConfigValue::Table(*t),
                    out@.len() == i,
                    forall|j: int|
                        0 <= j < i ==> #[trigger] out@[j].0@ == t@[j].0@ && value_model(out@[j].1)
                            == value_model(t@[j].1),
                decreases t@.len() - i,
            {
                proof {
                    assert(decreases_to!(*t => t[i as int]));
                    assert(decreases_to!(t[i as int] => t[i as int].1));
                    lemma_entry_decreases(*v, i as int);
                }
                let c = copy_value(&t[i].1);
                out.push((t[i].0.clone(), c));
                i = i + 1;
            }
            proof {
                lemma_entries_model(t@);
                assert forall|j: int| 0 <= j < out@.len() implies #[trigger] entries_model(t@)[j] == (
                    out@[j].0@,
                    value_model(out@[j].1),
                ) by {
                    assert(out@[j].0@ == t@[j].0@);
                }
                lemma_entries_model_ext(out@, entries_model(t@));
            }
            ConfigValue::Table(out)
        },
    }
}

/// An empty table.
pub fn empty_table() -> (r: ConfigValue)
    ensures
        r@ == ValueView::Table(Seq::empty()),
{
    let t: Vec<(String, ConfigValue)> = Vec::new();
    proof {
        lemma_entries_model_ext(t@, Seq::empty());
    }
    ConfigValue::Table(t)
}

/// Stores `x` under `key`: in place of the first entry under `key`, or as a
/// new last entry.
pub fn table_put(t: &mut Vec<(String, ConfigValue)>, key: String, x: ConfigValue)
    ensures
        entries_model(final(t)@) == vt_put(entries_model(old(t)@), key@, x@),
{
    let j = sm_position(t, key.as_str());
    proof {
        lemma_vt_index_model(old(t)@, key@);
        lemma_entries_model(old(t)@);
    }
    let ghost m = vt_put(entries_model(old(t)@), key@, x@);
    if j < t.len() {
        t.remove(j);
        t.insert(j, (key, x));
    } else {
        t.push((key, x));
    }
    proof {
        assert forall|i: int| 0 <= i < t@.len() implies #[trigger] m[i] == (
            t@[i].0@,
            value_model(t@[i].1),
        ) by {
            if i != j {
                assert(t@[i] == old(t)@[i]);
            }
        }
        lemma_entries_model_ext(t@, m);
    }
}

/// The entries without any entry under `key`, the others in order.
pub fn table_drop(t: Vec<(String, ConfigValue)>, key: &str) -> (r: Vec<(String, ConfigValue)>)
    ensures
        entries_model(r@) == vt_drop(entries_model(t@), key@),
{
    let ghost all = t@;
    let mut rest = t;
    let mut out: Vec<(String, ConfigValue)> = Vec::new();
    let ghost mut done: int = 0;
    proof {
        lemma_entries_model_ext(out@, vt_drop(entries_model(all.take(0)), key@));
    }
    while rest.len() > 0
        invariant
            0 <= done <= all.len(),
            rest@ == all.subrange(done, all.len() as int),
            entries_model(out@) == vt_drop(entries_model(all.take(done)), key@),
        decreases rest@.len(),
    {
        let e = rest.remove(0);
        proof {
            let p = all.take(done + 1);
            assert(p.subrange(0, p.len() - 1) =~= all.take(done));
            assert(p[p.len() - 1] == e);
            assert(entries_model(p) == entries_model(all.take(done)).push((e.0@, value_model(e.1))));
            assert(entries_model(p).drop_last() =~= entries_model(all.take(done)));
        }
        if !str_eq(e.0.as_str(), key) {
            let ghost before = out@;
            out.push(e);
            proof {
                assert(out@.subrange(0, out@.len() - 1) =~= before);
            }
        }
        proof {
            assert(rest@ =~= all.subrange(done + 1, all.len() as int));
            done = done + 1;
        }
    }
    assert(all.take(done) =~= all);
    out
}

} // verus!
