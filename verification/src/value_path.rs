//! Reading and editing a configuration document by dotted key paths such as
//! `mcp.upstreams.git.command`.
use vstd::prelude::*;
use crate::config_error::{ConfigError, ConfigFault};
use crate::config_value::{
    copy_value, empty_table, entries_model, lemma_entries_model, lemma_entries_model_ext,
    lemma_vt_drop, lemma_vt_drop_other, lemma_vt_index, lemma_vt_index_model, lemma_vt_put, table_drop, table_put,
    value_model, vt_drop, vt_get, vt_index, vt_put, ConfigValue, ValueView,
};
use crate::json_value::{json_parsed, parse_json, scalar_from_json, scalar_value, JsonValue, JsonView};
use crate::strmap::sm_position;
use crate::text::{lemma_find_char_from_bounds, push_str, split_char, split_on, string_from, trim, trim_str};

verus! {

// ---------------------------------------------------------------------------
// The model of the operations.
/// The value at `path` below `v`: each step enters a table by a key.
pub open spec fn vget(v: ValueView, path: Seq<Seq<char>>) -> Option<ValueView>
    decreases path.len(),
{
    if path.len() == 0 {
        Some(v)
    } else {
        match v {
            ValueView::Table(t) => match vt_get(t, path[0]) {
                Some(c) => vget(c, path.drop_first()),
                None => None,
            },
            _ => None,
        }
    }
}

/// The segment at which storing under `path` meets a value that is not a
/// table, if it does.
pub open spec fn set_error(v: ValueView, path: Seq<Seq<char>>) -> Option<Seq<char>>
    decreases path.len(),
{
    if path.len() == 0 {
        None
    } else {
        match v {
            ValueView::Table(t) => if path.len() == 1 {
                None
            } else {
                match vt_get(t, path[0]) {
                    None => None,
                    Some(c) => if c is Table {
                        set_error(c, path.drop_first())
                    } else {
                        Some(path[0])
                    },
                }
            },
            _ => Some(path[0]),
        }
    }
}

/// `v` with `x` stored at `path`, missing tables on the way created empty.
pub open spec fn vset(v: ValueView, path: Seq<Seq<char>>, x: ValueView) -> ValueView
    decreases path.len(),
{
    if path.len() == 0 {
        x
    } else {
        match v {
            ValueView::Table(t) => ValueView::Table(
                vt_put(
                    t,
                    path[0],
                    vset(
                        match vt_get(t, path[0]) {
                            Some(c) => c,
                            None => ValueView::Table(Seq::empty()),
                        },
                        path.drop_first(),
                        x,
                    ),
                ),
            ),
            _ => v,
        }
    }
}

/// `v` with the entry at `path` removed, or `None` where there is none.
pub open spec fn vunset(v: ValueView, path: Seq<Seq<char>>) -> Option<ValueView>
    decreases path.len(),
{
    if path.len() == 0 {
        None
    } else {
        match v {
            ValueView::Table(t) => match vt_get(t, path[0]) {
                None => None,
                Some(c) => if path.len() == 1 {
                    Some(ValueView::Table(vt_drop(t, path[0])))
                } else {
                    match vunset(c, path.drop_first()) {
                        Some(c2) => Some(ValueView::Table(vt_put(t, path[0], c2))),
                        None => None,
                    }
                },
            },
            _ => None,
        }
    }
}

pub open spec fn descend_fault(segment: Seq<char>) -> ConfigFault {
    ConfigFault::InvalidConfig(
        "cannot descend into non-table value at segment `"@ + segment + "`"@,
    )
}

// ---------------------------------------------------------------------------
// Paths.
/// The segments of a dotted path, or why it is refused: blank, or with an
/// empty segment.
pub open spec fn path_segments(path: Seq<char>) -> Result<Seq<Seq<char>>, ConfigFault> {
    if trim(path).len() == 0 {
        Err(ConfigFault::InvalidConfig("config path cannot be empty"@))
    } else if split_on(path, '.').contains(Seq::empty()) {
        Err(ConfigFault::InvalidConfig("config path `"@ + path + "` has an empty segment"@))
    } else {
        Ok(split_on(path, '.'))
    }
}

pub open spec fn strs(v: Seq<String>) -> Seq<Seq<char>> {
    v.map_values(|x: String| x@)
}

/// Splits a dotted path into its segments.
pub fn parse_path(path: &str) -> (r: Result<Vec<String>, ConfigError>)
    ensures
        match path_segments(path@) {
            Ok(segs) => r matches Ok(v) && strs(v@) == segs,
            Err(f) => r matches Err(e) && e@ == f,
        },
{
    let t = trim_str(path);
    if t.unicode_len() == 0 {
        return Err(ConfigError::InvalidConfig(string_from("config path cannot be empty")));
    }
    let segments = split_char(path, '.');
    let ghost w = strs(segments@);
    let mut i: usize = 0;
    while i < segments.len()
        invariant
            i <= segments@.len(),
            trim(path@).len() != 0,
            w == strs(segments@),
            w == split_on(path@, '.'),
            forall|j: int| 0 <= j < i ==> (#[trigger] w[j]).len() > 0,
        decreases segments@.len() - i,
    {
        if segments[i].unicode_len() == 0 {
            proof {
                assert(w[i as int] =~= Seq::<char>::empty());
                assert(w.contains(Seq::<char>::empty()));
            }
            let mut m = string_from("config path `");
            push_str(&mut m, path);
            push_str(&mut m, "` has an empty segment");
            return Err(ConfigError::InvalidConfig(m));
        }
        i = i + 1;
    }
    proof {
        if w.contains(Seq::<char>::empty()) {
            let j = choose|j: int| 0 <= j < w.len() && w[j] == Seq::<char>::empty();
            assert(w[j].len() > 0);
        }
    }
    Ok(segments)
}



// ---------------------------------------------------------------------------
// Walking the document.
proof fn lemma_path_step(segs: Seq<String>, i: int)
    requires
        0 <= i < segs.len(),
    ensures
        strs(segs).skip(i).len() > 0,
        strs(segs).skip(i)[0] == segs[i]@,
        strs(segs).skip(i).drop_first() == strs(segs).skip(i + 1),
{
    assert(strs(segs).skip(i).drop_first() =~= strs(segs).skip(i + 1));
}

fn navigate<'a>(node: &'a ConfigValue, segs: &Vec<String>, i: usize) -> (r: Option<&'a ConfigValue>)
    requires
        i <= segs@.len(),
    ensures
        match vget(node@, strs(segs@).skip(i as int)) {
            Some(c) => r matches Some(x) && x@ == c,
            None => r is None,
        },
    decreases segs@.len() - i,
{
    if i == segs.len() {
        assert(strs(segs@).skip(i as int).len() == 0);
        return Some(node);
    }
    proof {
        lemma_path_step(segs@, i as int);
    }
    match node {
        ConfigValue::Table(t) => {
            let j = sm_position(t, segs[i].as_str());
            proof {
                lemma_vt_index_model(t@, segs@[i as int]@);
                lemma_entries_model(t@);
            }
            if j < t.len() {
                navigate(&t[j].1, segs, i + 1)
            } else {
                None
            }
        },
        _ => None,
    }
}

/// The value at `path`, if any.
pub fn get_value(root: &ConfigValue, path: &str) -> (r: Result<Option<ConfigValue>, ConfigError>)
    ensures
        match path_segments(path@) {
            Ok(segs) => r matches Ok(o) && match vget(root@, segs) {
                Some(c) => o matches Some(x) && x@ == c,
                None => o is None,
            },
            Err(f) => r matches Err(e) && e@ == f,
        },
{
    let segs = match parse_path(path) {
        Err(e) => {
            return Err(e);
        },
        Ok(s) => s,
    };
    assert(strs(segs@).skip(0) =~= strs(segs@));
    match navigate(root, &segs, 0) {
        Some(c) => Ok(Some(copy_value(c))),
        None => Ok(None),
    }
}

fn check_set(node: &ConfigValue, segs: &Vec<String>, i: usize) -> (r: Option<String>)
    requires
        i <= segs@.len(),
    ensures
        match set_error(node@, strs(segs@).skip(i as int)) {
            Some(s) => r matches Some(x) && x@ == s,
            None => r is None,
        },
    decreases segs@.len() - i,
{
    if i == segs.len() {
        assert(strs(segs@).skip(i as int).len() == 0);
        return None;
    }
    proof {
        lemma_path_step(segs@, i as int);
    }
    match node {
        ConfigValue::Table(t) => {
            if i + 1 == segs.len() {
                return None;
            }
            let j = sm_position(t, segs[i].as_str());
            proof {
                lemma_vt_index_model(t@, segs@[i as int]@);
                lemma_entries_model(t@);
            }
            if j < t.len() {
                match &t[j].1 {
                    ConfigValue::Table(_) => check_set(&t[j].1, segs, i + 1),
                    _ => Some(segs[i].clone()),
                }
            } else {
                None
            }
        },
        _ => Some(segs[i].clone()),
    }
}

proof fn lemma_set_error_empty(path: Seq<Seq<char>>)
    ensures
        set_error(ValueView::Table(Seq::empty()), path) is None,
{
    if path.len() > 1 {
        assert(vt_index(Seq::<(Seq<char>, ValueView)>::empty(), path[0]) == 0);
    }
}

/// Replacing entry `j` by a new one with the same key updates the model there.
proof fn lemma_replace_entry(
    old_t: Seq<(String, ConfigValue)>,
    new_t: Seq<(String, ConfigValue)>,
    j: int,
    k: Seq<char>,
    x: ValueView,
)
    requires
        0 <= j < old_t.len(),
        new_t.len() == old_t.len(),
        forall|i: int| 0 <= i < old_t.len() && i != j ==> #[trigger] new_t[i] == old_t[i],
        new_t[j].0@ == k,
        value_model(new_t[j].1) == x,
    ensures
        entries_model(new_t) == entries_model(old_t).update(j, (k, x)),
{
    lemma_entries_model(old_t);
    let m = entries_model(old_t).update(j, (k, x));
    assert forall|i: int| 0 <= i < new_t.len() implies #[trigger] m[i] == (
        new_t[i].0@,
        value_model(new_t[i].1),
    ) by {
        if i != j {
            assert(new_t[i] == old_t[i]);
        }
    }
    lemma_entries_model_ext(new_t, m);
}

fn insert_at_path(node: ConfigValue, segs: &Vec<String>, i: usize, x: ConfigValue) -> (r: ConfigValue)
    requires
        i <= segs@.len(),
        set_error(node@, strs(segs@).skip(i as int)) is None,
        i < segs@.len() ==> node is Table,
    ensures
        r@ == vset(node@, strs(segs@).skip(i as int), x@),
    decreases segs@.len() - i,
{
    if i == segs.len() {
        assert(strs(segs@).skip(i as int).len() == 0);
        return x;
    }
    proof {
        lemma_path_step(segs@, i as int);
    }
    let ghost path = strs(segs@).skip(i as int);
    match node {
        ConfigValue::Table(mut t) => {
            let ghost t0 = t@;
            let ghost m0 = entries_model(t0);
            let j = sm_position(&t, segs[i].as_str());
            proof {
                lemma_vt_index_model(t0, path[0]);
                lemma_entries_model(t0);
            }
            if j < t.len() {
                let (k, c) = t.remove(j);
                proof {
                    assert(c == t0[j as int].1);
                    assert(m0[j as int] == (t0[j as int].0@, value_model(c)));
                    assert(vt_get(m0, path[0]) == Some(value_model(c)));
                    if i + 1 < segs@.len() {
                        lemma_path_step(segs@, i + 1);
                    }
                }
                let c2 = insert_at_path(c, segs, i + 1, x);
                t.insert(j, (k, c2));
                proof {
                    lemma_vt_index(m0, path[0]);
                assert(t@[j as int] == (k, c2));
                lemma_replace_entry(t0, t@, j as int, path[0], c2@);
                }
                ConfigValue::Table(t)
            } else {
                let c = empty_table();
                proof {
                    lemma_set_error_empty(path.drop_first());
                    assert(vt_get(m0, path[0]) is None);
                }
                let c2 = insert_at_path(c, segs, i + 1, x);
                table_put(&mut t, segs[i].clone(), c2);
                ConfigValue::Table(t)
            }
        },
        _ => x,
    }
}

fn remove_at_path(node: ConfigValue, segs: &Vec<String>, i: usize) -> (r: ConfigValue)
    requires
        i < segs@.len(),
        vunset(node@, strs(segs@).skip(i as int)) is Some,
    ensures
        Some(r@) == vunset(node@, strs(segs@).skip(i as int)),
    decreases segs@.len() - i,
{
    proof {
        lemma_path_step(segs@, i as int);
    }
    let ghost path = strs(segs@).skip(i as int);
    match node {
        ConfigValue::Table(mut t) => {
            let ghost t0 = t@;
            let ghost m0 = entries_model(t0);
            if segs.len() - i == 1 {
                let r = table_drop(t, segs[i].as_str());
                return ConfigValue::Table(r);
            }
            let j = sm_position(&t, segs[i].as_str());
            proof {
                lemma_vt_index_model(t0, path[0]);
                lemma_entries_model(t0);
            }
            let (k, c) = t.remove(j);
            proof {
                assert(c == t0[j as int].1);
                assert(m0[j as int] == (t0[j as int].0@, value_model(c)));
                assert(vt_get(m0, path[0]) == Some(value_model(c)));
            }
            let c2 = remove_at_path(c, segs, i + 1);
            t.insert(j, (k, c2));
            proof {
                lemma_vt_index(m0, path[0]);
                assert(t@[j as int] == (k, c2));
                lemma_replace_entry(t0, t@, j as int, path[0], c2@);
            }
            ConfigValue::Table(t)
        },
        _ => node,
    }
}

proof fn lemma_unset_iff_present(v: ValueView, path: Seq<Seq<char>>)
    requires
        path.len() > 0,
    ensures
        vunset(v, path) is Some <==> vget(v, path) is Some,
    decreases path.len(),
{
    match v {
        ValueView::Table(t) => match vt_get(t, path[0]) {
            Some(c) => {
                if path.len() > 1 {
                    lemma_unset_iff_present(c, path.drop_first());
                } else {
                    assert(vget(c, path.drop_first()) == Some(c));
                }
            },
            None => {},
        },
        _ => {},
    }
}

// ---------------------------------------------------------------------------
// Editing.
/// The outcome of storing the value `x` (or the fault that came instead)
/// at `path`: the new document, or why it was refused.
pub open spec fn set_outcome(
    v: ValueView,
    path: Seq<char>,
    x: Result<ValueView, ConfigFault>,
) -> Result<ValueView, ConfigFault> {
    match path_segments(path) {
        Err(f) => Err(f),
        Ok(segs) => match x {
            Err(f) => Err(f),
            Ok(x) => match set_error(v, segs) {
                Some(s) => Err(descend_fault(s)),
                None => Ok(vset(v, segs, x)),
            },
        },
    }
}

pub open spec fn json_views(parsed: Option<JsonValue>) -> Option<JsonView> {
    match parsed {
        Some(j) => Some(j@),
        None => None,
    }
}

/// Stores the value that `raw` stands for at `path`, given what the JSON
/// parser made of `raw`; refused documents are left as they were.
pub fn set_value_parsed(
    root: &mut ConfigValue,
    path: &str,
    raw: &str,
    parsed: Option<JsonValue>,
) -> (r: Result<(), ConfigError>)
    ensures
        match set_outcome(old(root)@, path@, scalar_value(raw@, json_views(parsed))) {
            Ok(n) => r is Ok && final(root)@ == n,
            Err(f) => r matches Err(e) && e@ == f && final(root)@ == old(root)@,
        },
{
    let segs = match parse_path(path) {
        Err(e) => {
            return Err(e);
        },
        Ok(s) => s,
    };
    let value = match scalar_from_json(raw, parsed) {
        Err(e) => {
            return Err(e);
        },
        Ok(v) => v,
    };
    assert(strs(segs@).skip(0) =~= strs(segs@));
    match check_set(root, &segs, 0) {
        Some(s) => {
            let mut m = string_from("cannot descend into non-table value at segment `");
            push_str(&mut m, s.as_str());
            push_str(&mut m, "`");
            return Err(ConfigError::InvalidConfig(m));
        },
        None => {},
    }
    let mut cur = ConfigValue::Boolean(false);
    std::mem::swap(&mut cur, root);
    proof {
        if !(cur is Table) {
            assert(set_error(cur@, strs(segs@)) is Some);
        }
    }
    let n = insert_at_path(cur, &segs, 0, value);
    *root = n;
    Ok(())
}

/// Stores the value that `raw` stands for at `path`: JSON where `raw` is
/// JSON (a null refused), else the text itself. Missing tables on the way
/// are created; a value on the way that is not a table is an error.
pub fn set_value(root: &mut ConfigValue, path: &str, raw: &str) -> (r: Result<(), ConfigError>)
    ensures
        match set_outcome(old(root)@, path@, scalar_value(raw@, json_parsed(raw@))) {
            Ok(n) => r is Ok && final(root)@ == n,
            Err(f) => r matches Err(e) && e@ == f && final(root)@ == old(root)@,
        },
{
    let parsed = match parse_json(raw) {
        Ok(v) => Some(v),
        Err(_) => None,
    };
    set_value_parsed(root, path, raw, parsed)
}

/// Removes the entry at `path`; says whether there was one.
pub fn unset_value(root: &mut ConfigValue, path: &str) -> (r: Result<bool, ConfigError>)
    ensures
        match path_segments(path@) {
            Err(f) => r matches Err(e) && e@ == f && final(root)@ == old(root)@,
            Ok(segs) => match vunset(old(root)@, segs) {
                Some(n) => r == Ok::<bool, ConfigError>(true) && final(root)@ == n,
                None => r == Ok::<bool, ConfigError>(false) && final(root)@ == old(root)@,
            },
        },
{
    let segs = match parse_path(path) {
        Err(e) => {
            return Err(e);
        },
        Ok(s) => s,
    };
    assert(strs(segs@).skip(0) =~= strs(segs@));
    proof {
        lemma_unset_iff_present(root@, strs(segs@));
    }
    if navigate(root, &segs, 0).is_none() {
        return Ok(false);
    }
    let mut cur = ConfigValue::Boolean(false);
    std::mem::swap(&mut cur, root);
    let n = remove_at_path(cur, &segs, 0);
    *root = n;
    Ok(true)
}


// ---------------------------------------------------------------------------
// Laws.
/// What is stored at a path is what reading that path gives back.
pub proof fn law_get_after_set(v: ValueView, path: Seq<Seq<char>>, x: ValueView)
    requires
        path.len() > 0,
        set_error(v, path) is None,
    ensures
        vget(vset(v, path, x), path) == Some(x),
    decreases path.len(),
{
    match v {
        ValueView::Table(t) => {
            let rest = path.drop_first();
            let c0 = match vt_get(t, path[0]) {
                Some(c) => c,
                None => ValueView::Table(Seq::empty()),
            };
            let c1 = vset(c0, rest, x);
            lemma_vt_put(t, path[0], c1);
            if path.len() > 1 {
                if vt_get(t, path[0]) is None {
                    lemma_set_error_empty(rest);
                }
                law_get_after_set(c0, rest, x);
            } else {
                assert(vget(c1, rest) == Some(x));
            }
        },
        _ => {},
    }
}

/// Storing under one key of a table leaves what is read under the other
/// keys as it was.
pub proof fn law_set_keeps_other_keys(
    v: ValueView,
    path: Seq<Seq<char>>,
    x: ValueView,
    q: Seq<Seq<char>>,
)
    requires
        v is Table,
        path.len() > 0,
        q.len() > 0,
        q[0] != path[0],
    ensures
        vget(vset(v, path, x), q) == vget(v, q),
{
    match v {
        ValueView::Table(t) => {
            let c0 = match vt_get(t, path[0]) {
                Some(c) => c,
                None => ValueView::Table(Seq::empty()),
            };
            lemma_vt_put(t, path[0], vset(c0, path.drop_first(), x));
            assert(vt_get(vt_put(t, path[0], vset(c0, path.drop_first(), x)), q[0]) == vt_get(t, q[0]));
        },
        _ => {},
    }
}

/// After removing the entry at a path, or finding none, reading that path
/// gives nothing.
pub proof fn law_get_after_unset(v: ValueView, path: Seq<Seq<char>>)
    requires
        path.len() > 0,
    ensures
        match vunset(v, path) {
            Some(n) => vget(n, path) is None,
            None => vget(v, path) is None,
        },
    decreases path.len(),
{
    lemma_unset_iff_present(v, path);
    match v {
        ValueView::Table(t) => match vt_get(t, path[0]) {
            Some(c) => {
                if path.len() == 1 {
                    lemma_vt_drop(t, path[0]);
                } else {
                    law_get_after_unset(c, path.drop_first());
                    match vunset(c, path.drop_first()) {
                        Some(c2) => {
                            lemma_vt_put(t, path[0], c2);
                        },
                        None => {},
                    }
                }
            },
            None => {},
        },
        _ => {},
    }
}


/// Removing the entry under one key of a table leaves what is read under
/// the other keys as it was.
pub proof fn law_unset_keeps_other_keys(v: ValueView, path: Seq<Seq<char>>, q: Seq<Seq<char>>)
    requires
        path.len() > 0,
        q.len() > 0,
        q[0] != path[0],
    ensures
        match vunset(v, path) {
            Some(n) => vget(n, q) == vget(v, q),
            None => true,
        },
{
    match v {
        ValueView::Table(t) => match vt_get(t, path[0]) {
            Some(c) => {
                if path.len() == 1 {
                    lemma_vt_drop_other(t, path[0], q[0]);
                } else {
                    match vunset(c, path.drop_first()) {
                        Some(c2) => {
                            lemma_vt_put(t, path[0], c2);
                        },
                        None => {},
                    }
                }
            },
            None => {},
        },
        _ => {},
    }
}


/// Storing at `path` leaves every path that departs from it (differs from
/// it at some segment `i` both have) reading as before.
pub proof fn law_set_keeps_other_paths(
    v: ValueView,
    path: Seq<Seq<char>>,
    x: ValueView,
    q: Seq<Seq<char>>,
    i: int,
)
    requires
        set_error(v, path) is None,
        0 <= i < path.len(),
        i < q.len(),
        q[i] != path[i],
    ensures
        vget(vset(v, path, x), q) == vget(v, q),
    decreases i,
{
    match v {
        ValueView::Table(t) => {
            if i == 0 || q[0] != path[0] {
                law_set_keeps_other_keys(v, path, x, q);
            } else {
                let rest = path.drop_first();
                let c0 = match vt_get(t, path[0]) {
                    Some(c) => c,
                    None => ValueView::Table(Seq::empty()),
                };
                let c1 = vset(c0, rest, x);
                lemma_vt_put(t, path[0], c1);
                if vt_get(t, path[0]) is None {
                    lemma_set_error_empty(rest);
                }
                law_set_keeps_other_paths(c0, rest, x, q.drop_first(), i - 1);
                assert(vget(vset(v, path, x), q) == vget(c1, q.drop_first()));
                if vt_get(t, path[0]) is None {
                    assert(vget(c0, q.drop_first()) is None) by {
                        assert(vt_index(Seq::<(Seq<char>, ValueView)>::empty(), q[1]) == 0);
                    }
                }
            }
        },
        _ => {},
    }
}

/// Removing the entry at a path succeeds exactly when reading that path
/// finds a value.
pub proof fn law_unset_reports_presence(v: ValueView, path: Seq<Seq<char>>)
    requires
        path.len() > 0,
    ensures
        vunset(v, path) is Some <==> vget(v, path) is Some,
{
    lemma_unset_iff_present(v, path);
}

/// Removing the entry at `path` leaves every path that departs from it
/// (differs from it at some segment `i` both have) reading as before.
pub proof fn law_unset_keeps_other_paths(v: ValueView, path: Seq<Seq<char>>, q: Seq<Seq<char>>, i: int)
    requires
        0 <= i < path.len(),
        i < q.len(),
        q[i] != path[i],
    ensures
        match vunset(v, path) {
            Some(n) => vget(n, q) == vget(v, q),
            None => true,
        },
    decreases i,
{
    if i == 0 || q[0] != path[0] {
        law_unset_keeps_other_keys(v, path, q);
    } else {
        match v {
            ValueView::Table(t) => match vt_get(t, path[0]) {
                Some(c) => {
                    match vunset(c, path.drop_first()) {
                        Some(c2) => {
                            lemma_vt_put(t, path[0], c2);
                            law_unset_keeps_other_paths(c, path.drop_first(), q.drop_first(), i - 1);
                        },
                        None => {},
                    }
                },
                None => {},
            },
            _ => {},
        }
    }
}


/// A successful `set_value` (of the value `x` that the raw text stands for)
/// makes reading its path give `x` back; paths that depart from it read as
/// before (`law_set_keeps_other_paths`).
pub proof fn law_set_value_reads_back(v: ValueView, path: Seq<char>, x: ValueView)
    ensures
        match set_outcome(v, path, Ok(x)) {
            Ok(n) => path_segments(path) matches Ok(segs) && vget(n, segs) == Some(x),
            Err(_) => true,
        },
{
    if let Ok(segs) = path_segments(path) {
        lemma_find_char_from_bounds(path, '.', 0);
        assert(segs.len() > 0);
        if set_error(v, segs) is None {
            law_get_after_set(v, segs, x);
        }
    }
}

} // verus!
