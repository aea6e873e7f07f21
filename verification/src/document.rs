//! The configuration document as TOML text: reading it into a
//! `ConfigValue` and writing a `ConfigValue` back, both by the `toml` crate.
use vstd::prelude::*;
use crate::config_error::{ConfigError, ConfigFault};
use crate::config_value::{ConfigValue, ValueView};
use toml::Value as TomlValue;

verus! {

#[verifier::external_type_specification]
#[verifier::external_body]
pub struct ExTomlDocument(TomlValue);

/// What `toml::from_str` makes of a text as a `toml::Value`: the document,
/// or the parser's message.
pub uninterp spec fn toml_parse(text: Seq<char>) -> Result<ValueView, Seq<char>>;

/// What `toml::to_string_pretty` writes for a document, or the message of
/// its refusal.
pub uninterp spec fn toml_render(v: ValueView) -> Result<Seq<char>, Seq<char>>;

/// Parses `text` with `toml::from_str::<toml::Value>` and hands back the
/// document as a `ConfigValue`, or the parser's message. What the parser
/// accepts and builds is named `toml_parse`, not stated.
#[verifier::external_body]
pub(crate) fn parse_toml(text: &str) -> (r: Result<ConfigValue, String>)
    ensures
        match r {
            Ok(v) => toml_parse(text@) == Ok::<ValueView, Seq<char>>(v@),
            Err(m) => toml_parse(text@) == Err::<ValueView, Seq<char>>(m@),
        },
{
    toml::from_str::<TomlValue>(text).map(config_tree).map_err(|e| e.to_string())
}

/// Moves a `toml::Value` into a `ConfigValue`, variant for variant (a float
/// and a datetime by their text, a table's entries in the table's order).
#[verifier::external_body]
fn config_tree(v: TomlValue) -> ConfigValue {
    match v {
        TomlValue::String(s) => ConfigValue::String(s),
        TomlValue::Integer(i) => ConfigValue::Integer(i),
        TomlValue::Float(f) => ConfigValue::Float(f.to_string()),
        TomlValue::Boolean(b) => ConfigValue::Boolean(b),
        TomlValue::Datetime(d) => ConfigValue::Datetime(d.to_string()),
        TomlValue::Array(a) => ConfigValue::Array(a.into_iter().map(config_tree).collect()),
        TomlValue::Table(t) => ConfigValue::Table(
            t.into_iter().map(|(k, x)| (k, config_tree(x))).collect(),
        ),
    }
}

/// Writes the document with `toml::to_string_pretty` over the
/// `toml::Value` it stands for; where a float's or datetime's text does not
/// parse back, the message is empty, and where the serializer refuses, it is
/// the serializer's. What is written is named `toml_render`, not stated.
#[verifier::external_body]
pub(crate) fn render_toml(v: ConfigValue) -> (r: Result<String, String>)
    ensures
        match r {
            Ok(s) => toml_render(v@) == Ok::<Seq<char>, Seq<char>>(s@),
            Err(m) => toml_render(v@) == Err::<Seq<char>, Seq<char>>(m@),
        },
{
    let t = toml_tree(v).ok_or_else(String::new)?;
    toml::to_string_pretty(&t).map_err(|e| e.to_string())
}

/// Moves a `ConfigValue` into a `toml::Value`, variant for variant; `None`
/// where a float's or datetime's text does not parse.
#[verifier::external_body]
pub(crate) fn toml_tree(v: ConfigValue) -> Option<TomlValue> {
    Some(match v {
        ConfigValue::String(s) => TomlValue::String(s),
        ConfigValue::Integer(i) => TomlValue::Integer(i),
        ConfigValue::Float(f) => TomlValue::Float(f.parse().ok()?),
        ConfigValue::Boolean(b) => TomlValue::Boolean(b),
        ConfigValue::Datetime(d) => TomlValue::Datetime(d.parse().ok()?),
        ConfigValue::Array(a) => TomlValue::Array(a.into_iter().map(toml_tree).collect::<Option<_>>()?),
        ConfigValue::Table(t) => TomlValue::Table(
            t.into_iter().map(|(k, x)| toml_tree(x).map(|y| (k, y))).collect::<Option<_>>()?,
        ),
    })
}

/// The fault of a document that could not be read or written.
pub open spec fn toml_fault(message: Seq<char>) -> ConfigFault {
    ConfigFault::Toml(message)
}

/// Reads a configuration document; a missing file is an empty table.
pub fn load_or_empty_toml(text: Option<&str>) -> (r: Result<ConfigValue, ConfigError>)
    ensures
        match text {
            None => r matches Ok(v) && v@ == ValueView::Table(Seq::empty()),
            Some(t) => match toml_parse(t@) {
                Ok(d) => r matches Ok(v) && v@ == d,
                Err(m) => r matches Err(e) && e@ == toml_fault(m),
            },
        },
{
    match text {
        None => Ok(crate::config_value::empty_table()),
        Some(t) => match parse_toml(t) {
            Ok(v) => Ok(v),
            Err(m) => Err(ConfigError::Toml(m)),
        },
    }
}

/// Writes a configuration document as TOML text.
pub fn write_document(v: &ConfigValue) -> (r: Result<String, ConfigError>)
    ensures
        match toml_render(v@) {
            Ok(s) => r matches Ok(x) && x@ == s,
            Err(m) => r matches Err(e) && e@ == toml_fault(m),
        },
{
    match render_toml(crate::config_value::copy_value(v)) {
        Ok(s) => Ok(s),
        Err(m) => Err(ConfigError::Toml(m)),
    }
}

} // verus!
