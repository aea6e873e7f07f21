//! JSON values as the configuration editor reads them, and their conversion
//! into configuration values.
use vstd::prelude::*;
use crate::config_error::{ConfigError, ConfigFault};
use crate::config_value::{entries_model, items_model, lemma_entries_model_ext, lemma_items_model_ext, table_put, vt_put, ConfigValue, ValueView};
use crate::text::{str_less, string_from};

verus! {

broadcast use vstd::std_specs::vec::group_vec_axioms;

#[verifier::external_type_specification]
#[verifier::external_body]
pub struct ExJsonDocument(serde_json::Value);

/// A JSON value. A number carries its value as an `i64` where it is one,
/// and its decimal text.
#[derive(Debug)]
pub enum JsonValue {
    Null,
    Bool(bool),
    Number(Option<i64>, String),
    String(String),
    Array(Vec<JsonValue>),
    Object(Vec<(String, JsonValue)>),
}

/// The model of a `JsonValue`.
pub enum JsonView {
    Null,
    Bool(bool),
    Number(Option<i64>, Seq<char>),
    String(Seq<char>),
    Array(Seq<JsonView>),
    Object(Seq<(Seq<char>, JsonView)>),
}

pub open spec fn json_model(v: JsonValue) -> JsonView
    decreases v, 0int,
{
    match v {
        JsonValue::Null => JsonView::Null,
        JsonValue::Bool(b) => JsonView::Bool(b),
        JsonValue::Number(i, t) => JsonView::Number(i, t@),
        JsonValue::String(s) => JsonView::String(s@),
        JsonValue::Array(a) => JsonView::Array(json_items_model(a@)),
        JsonValue::Object(o) => JsonView::Object(json_entries_model(o@)),
    }
}

pub open spec fn json_items_model(s: Seq<JsonValue>) -> Seq<JsonView>
    decreases s, s.len(),
{
    if s.len() == 0 {
        Seq::empty()
    } else {
        json_items_model(s.subrange(0, s.len() - 1)).push(json_model(s[s.len() - 1]))
    }
}

pub open spec fn json_entries_model(s: Seq<(String, JsonValue)>) -> Seq<(Seq<char>, JsonView)>
    decreases s, s.len(),
{
    if s.len() == 0 {
        Seq::empty()
    } else {
        json_entries_model(s.subrange(0, s.len() - 1)).push(
            (s[s.len() - 1].0@, json_model(s[s.len() - 1].1)),
        )
    }
}

impl View for JsonValue {
    type V = JsonView;

    open spec fn view(&self) -> JsonView {
        json_model(*self)
    }
}

/// An object's keys strictly ascending: each key once, in order.
pub open spec fn keys_ascending(o: Seq<(Seq<char>, JsonView)>) -> bool {
    forall|i: int, j: int| 0 <= i < j < o.len() ==> str_less(#[trigger] o[i].0, #[trigger] o[j].0)
}

/// Every object within the value has its keys strictly ascending.
pub open spec fn json_objects_sorted(j: JsonView) -> bool
    decreases j, 0int,
{
    match j {
        JsonView::Object(o) => keys_ascending(o) && entries_objects_sorted(o),
        JsonView::Array(a) => items_objects_sorted(a),
        _ => true,
    }
}

pub open spec fn items_objects_sorted(a: Seq<JsonView>) -> bool
    decreases a, a.len(),
{
    a.len() == 0 || (items_objects_sorted(a.subrange(0, a.len() - 1)) && json_objects_sorted(
        a[a.len() - 1],
    ))
}

pub open spec fn entries_objects_sorted(o: Seq<(Seq<char>, JsonView)>) -> bool
    decreases o, o.len(),
{
    o.len() == 0 || (entries_objects_sorted(o.subrange(0, o.len() - 1)) && json_objects_sorted(
        o[o.len() - 1].1,
    ))
}

/// Each value of a sorted object is sorted within.
pub proof fn lemma_entries_objects_sorted(o: Seq<(Seq<char>, JsonView)>, i: int)
    requires
        entries_objects_sorted(o),
        0 <= i < o.len(),
    ensures
        json_objects_sorted(o[i].1),
    decreases o.len(),
{
    if i < o.len() - 1 {
        let d = o.subrange(0, o.len() - 1);
        assert(d[i] == o[i]);
        lemma_entries_objects_sorted(d, i);
    }
}

/// What `serde_json` makes of a text: the value it parses, or its error
/// message where the text is not JSON.
pub uninterp spec fn json_parse(raw: Seq<char>) -> Result<JsonView, Seq<char>>;

/// The parsed value where the text is JSON.
pub open spec fn json_parsed(raw: Seq<char>) -> Option<JsonView> {
    match json_parse(raw) {
        Ok(v) => Some(v),
        Err(_) => None,
    }
}

/// Parses `raw` with `serde_json::from_str` into a `serde_json::Value` and
/// hands back its model, or the parser's error message. What the parser
/// accepts and builds is not stated here; it is named `json_parse`. Built
/// without `preserve_order`, `serde_json` keeps an object's entries in a
/// `BTreeMap`, so each object comes with its keys once each, in ascending
/// order.
#[verifier::external_body]
pub(crate) fn parse_json(raw: &str) -> (r: Result<JsonValue, String>)
    ensures
        match r {
            Ok(v) => json_parse(raw@) == Ok::<JsonView, Seq<char>>(v@) && json_objects_sorted(v@),
            Err(m) => json_parse(raw@) == Err::<JsonView, Seq<char>>(m@),
        },
{
    serde_json::from_str::<serde_json::Value>(raw).map(json_tree).map_err(|e| e.to_string())
}

/// Moves a `serde_json::Value` into a `JsonValue`, variant for variant
/// (a number by `as_i64` and its text, an object's entries in the map's
/// order).
#[verifier::external_body]
pub(crate) fn json_tree(v: serde_json::Value) -> JsonValue {
    match v {
        serde_json::Value::Null => JsonValue::Null,
        serde_json::Value::Bool(b) => JsonValue::Bool(b),
        serde_json::Value::Number(n) => JsonValue::Number(n.as_i64(), n.to_string()),
        serde_json::Value::String(s) => JsonValue::String(s),
        serde_json::Value::Array(a) => JsonValue::Array(a.into_iter().map(json_tree).collect()),
        serde_json::Value::Object(o) => JsonValue::Object(
            o.into_iter().map(|(k, x)| (k, json_tree(x))).collect(),
        ),
    }
}

// ---------------------------------------------------------------------------
// Conversion.
/// The configuration value of a JSON value, or `None` where it holds a
/// null anywhere. Numbers that are `i64` values become integers, the others
/// floats; an object becomes a table filled in its entries' order.
pub open spec fn json_config(j: JsonView) -> Option<ValueView>
    decreases j, 0int,
{
    match j {
        JsonView::Null => None,
        JsonView::Bool(b) => Some(ValueView::Boolean(b)),
        JsonView::Number(Some(i), _) => Some(ValueView::Integer(i)),
        JsonView::Number(None, t) => Some(ValueView::Float(t)),
        JsonView::String(s) => Some(ValueView::String(s)),
        JsonView::Array(a) => match json_items_config(a) {
            Some(x) => Some(ValueView::Array(x)),
            None => None,
        },
        JsonView::Object(o) => match json_entries_config(o) {
            Some(t) => Some(ValueView::Table(t)),
            None => None,
        },
    }
}

pub open spec fn json_items_config(a: Seq<JsonView>) -> Option<Seq<ValueView>>
    decreases a, a.len(),
{
    if a.len() == 0 {
        Some(Seq::empty())
    } else {
        match (json_items_config(a.subrange(0, a.len() - 1)), json_config(a[a.len() - 1])) {
            (Some(p), Some(x)) => Some(p.push(x)),
            _ => None,
        }
    }
}

pub open spec fn json_entries_config(o: Seq<(Seq<char>, JsonView)>) -> Option<
    Seq<(Seq<char>, ValueView)>,
>
    decreases o, o.len(),
{
    if o.len() == 0 {
        Some(Seq::empty())
    } else {
        match (json_entries_config(o.subrange(0, o.len() - 1)), json_config(o[o.len() - 1].1)) {
            (Some(t), Some(x)) => Some(vt_put(t, o[o.len() - 1].0, x)),
            _ => None,
        }
    }
}

pub open spec fn null_fault() -> ConfigFault {
    ConfigFault::InvalidConfig("null is not representable in config TOML"@)
}

proof fn lemma_items_none(a: Seq<JsonView>, i: int)
    requires
        0 <= i < a.len(),
        json_config(a[i]) is None,
    ensures
        json_items_config(a) is None,
    decreases a.len(),
{
    if i < a.len() - 1 {
        let d = a.subrange(0, a.len() - 1);
        assert(d[i] == a[i]);
        lemma_items_none(d, i);
    }
}

proof fn lemma_entries_none(o: Seq<(Seq<char>, JsonView)>, i: int)
    requires
        0 <= i < o.len(),
        json_config(o[i].1) is None,
    ensures
        json_entries_config(o) is None,
    decreases o.len(),
{
    if i < o.len() - 1 {
        let d = o.subrange(0, o.len() - 1);
        assert(d[i] == o[i]);
        lemma_entries_none(d, i);
    }
}

proof fn lemma_json_item_decreases(v: JsonValue, i: int)
    requires
        v is Array,
        0 <= i < v->Array_0@.len(),
    ensures
        decreases_to!(v => v->Array_0@[i]),
{
    match v {
        JsonValue::Array(a) => {
            assert(decreases_to!(v => a@[i]));
        },
        _ => {},
    }
}

proof fn lemma_json_entry_decreases(v: JsonValue, i: int)
    requires
        v is Object,
        0 <= i < v->Object_0@.len(),
    ensures
        decreases_to!(v => v->Object_0@[i].1),
{
    match v {
        JsonValue::Object(o) => {
            assert(decreases_to!(v => o@[i].1));
        },
        _ => {},
    }
}

/// Converts a JSON value into a configuration value; a null anywhere in it
/// is refused.
pub fn json_to_toml(j: &JsonValue) -> (r: Result<ConfigValue, ConfigError>)
    ensures
        match json_config(j@) {
            Some(v) => r matches Ok(c) && c@ == v,
            None => r matches Err(e) && e@ == null_fault(),
        },
    decreases *j,
{
    match j {
        JsonValue::Null => Err(ConfigError::InvalidConfig(
            string_from("null is not representable in config TOML"),
        )),
        JsonValue::Bool(b) => Ok(ConfigValue::Boolean(*b)),
        JsonValue::Number(Some(i), _) => Ok(ConfigValue::Integer(*i)),
        JsonValue::Number(None, t) => Ok(ConfigValue::Float(t.clone())),
        JsonValue::String(s) => Ok(ConfigValue::String(s.clone())),
        JsonValue::Array(items) => {
            let mut out: Vec<ConfigValue> = Vec::new();
            let mut i: usize = 0;
            proof {
                lemma_items_model_ext(out@, Seq::empty());
                assert(items@.take(0) =~= Seq::<JsonValue>::empty());
            }
            while i < items.len()
                invariant
                    i <= items@.len(),
                    *j == JsonValue::Array(*items),
                    json_items_config(json_items_model(items@.take(i as int))) == Some(
                        items_model(out@),
                    ),
                decreases items@.len() - i,
            {
                proof {
                    lemma_json_item_decreases(*j, i as int);
                }
                let c = json_to_toml(&items[i]);
                proof {
                    let p = items@.take(i + 1);
                    assert(p.subrange(0, p.len() - 1) =~= items@.take(i as int));
                    assert(p[p.len() - 1] == items@[i as int]);
                    let m = json_items_model(p);
                    assert(m == json_items_model(items@.take(i as int)).push(json_model(items@[i as int])));
                    assert(m.subrange(0, m.len() - 1) =~= json_items_model(items@.take(i as int)));
                    assert(m[m.len() - 1] == json_model(items@[i as int]));
                }
                match c {
                    Ok(c) => {
                        let ghost before = out@;
                        out.push(c);
                        proof {
                            assert(out@.subrange(0, out@.len() - 1) =~= before);
                        }
                    },
                    Err(e) => {
                        proof {
                            lemma_json_items_model(items@);
                            assert(json_items_model(items@)[i as int] == json_model(items@[i as int]));
                            lemma_items_none(json_items_model(items@), i as int);
                        }
                        return Err(e);
                    },
                }
                i = i + 1;
            }
            proof {
                assert(items@.take(i as int) =~= items@);
            }
            Ok(ConfigValue::Array(out))
        },
        JsonValue::Object(o) => {
            let mut out: Vec<(String, ConfigValue)> = Vec::new();
            let mut i: usize = 0;
            proof {
                lemma_entries_model_ext(out@, Seq::empty());
                assert(o@.take(0) =~= Seq::<(String, JsonValue)>::empty());
            }
            while i < o.len()
                invariant
                    i <= o@.len(),
                    *j == JsonValue::Object(*o),
                    json_entries_config(json_entries_model(o@.take(i as int))) == Some(
                        entries_model(out@),
                    ),
                decreases o@.len() - i,
            {
                proof {
                    lemma_json_entry_decreases(*j, i as int);
                }
                let c = json_to_toml(&o[i].1);
                proof {
                    let p = o@.take(i + 1);
                    assert(p.subrange(0, p.len() - 1) =~= o@.take(i as int));
                    assert(p[p.len() - 1] == o@[i as int]);
                    let m = json_entries_model(p);
                    assert(m == json_entries_model(o@.take(i as int)).push(
                        (o@[i as int].0@, json_model(o@[i as int].1)),
                    ));
                    assert(m.subrange(0, m.len() - 1) =~= json_entries_model(o@.take(i as int)));
                    assert(m[m.len() - 1] == (o@[i as int].0@, json_model(o@[i as int].1)));
                }
                match c {
                    Ok(c) => {
                        table_put(&mut out, o[i].0.clone(), c);
                    },
                    Err(e) => {
                        proof {
                            lemma_json_entries_model(o@);
                            assert(json_entries_model(o@)[i as int] == (
                                o@[i as int].0@,
                                json_model(o@[i as int].1),
                            ));
                            lemma_entries_none(json_entries_model(o@), i as int);
                        }
                        return Err(e);
                    },
                }
                i = i + 1;
            }
            proof {
                assert(o@.take(i as int) =~= o@);
            }
            Ok(ConfigValue::Table(out))
        },
    }
}

pub proof fn lemma_json_items_model(s: Seq<JsonValue>)
    ensures
        json_items_model(s).len() == s.len(),
        forall|i: int| 0 <= i < s.len() ==> #[trigger] json_items_model(s)[i] == json_model(s[i]),
    decreases s.len(),
{
    if s.len() > 0 {
        let d = s.subrange(0, s.len() - 1);
        lemma_json_items_model(d);
        assert forall|i: int| 0 <= i < s.len() implies #[trigger] json_items_model(s)[i]
            == json_model(s[i]) by {
            if i < s.len() - 1 {
                assert(d[i] == s[i]);
            }
        }
    }
}

pub proof fn lemma_json_entries_model(s: Seq<(String, JsonValue)>)
    ensures
        json_entries_model(s).len() == s.len(),
        forall|i: int|
            0 <= i < s.len() ==> #[trigger] json_entries_model(s)[i] == (
                s[i].0@,
                json_model(s[i].1),
            ),
    decreases s.len(),
{
    if s.len() > 0 {
        let d = s.subrange(0, s.len() - 1);
        lemma_json_entries_model(d);
        assert forall|i: int| 0 <= i < s.len() implies #[trigger] json_entries_model(s)[i] == (
            s[i].0@,
            json_model(s[i].1),
        ) by {
            if i < s.len() - 1 {
                assert(d[i] == s[i]);
            }
        }
    }
}

// ---------------------------------------------------------------------------
// Values typed on the command line.
/// The value that a typed text stands for: JSON where the text parses as
/// JSON (`parsed`), the text itself as a string where it does not. A JSON
/// null is refused.
pub open spec fn scalar_value(raw: Seq<char>, parsed: Option<JsonView>) -> Result<
    ValueView,
    ConfigFault,
> {
    match parsed {
        None => Ok(ValueView::String(raw)),
        Some(JsonView::Null) => Err(
            ConfigFault::InvalidConfig(
                "cannot set value to null; use `config unset` to remove a key"@,
            ),
        ),
        Some(j) => match json_config(j) {
            Some(v) => Ok(v),
            None => Err(null_fault()),
        },
    }
}

/// The value that `raw` stands for, given what the JSON parser made of it.
pub fn scalar_from_json(raw: &str, parsed: Option<JsonValue>) -> (r: Result<ConfigValue, ConfigError>)
    ensures
        match scalar_value(raw@, match parsed {
            Some(j) => Some(j@),
            None => None,
        }) {
            Ok(v) => r matches Ok(c) && c@ == v,
            Err(f) => r matches Err(e) && e@ == f,
        },
{
    match parsed {
        None => Ok(ConfigValue::String(string_from(raw))),
        Some(JsonValue::Null) => Err(ConfigError::InvalidConfig(
            string_from("cannot set value to null; use `config unset` to remove a key"),
        )),
        Some(j) => json_to_toml(&j),
    }
}

/// The value that `raw` stands for: parsed as JSON where it is JSON, else
/// the text itself.
pub fn parse_scalar_value(raw: &str) -> (r: Result<ConfigValue, ConfigError>)
    ensures
        match scalar_value(raw@, json_parsed(raw@)) {
            Ok(v) => r matches Ok(c) && c@ == v,
            Err(f) => r matches Err(e) && e@ == f,
        },
{
    let parsed = match parse_json(raw) {
        Ok(v) => Some(v),
        Err(_) => None,
    };
    scalar_from_json(raw, parsed)
}

} // verus!
