//! The `config` and `env` commands as records over a file's text: each
//! command reads the text it is given and returns its record and, where it
//! writes, the new text.
use vstd::prelude::*;
use crate::config_error::{ConfigError, ConfigFault};
use crate::env_file::{env_key_error, env_last_value, env_lookup, env_set_lines, env_text, env_without, get_env_value, list_env_keys, opt_string_view, opt_text, parse_env, render_env, set_env_value, sorted_strs, strings_view, unset_env_value, valid_env_key, env_keys};
use crate::mcp_config::{entry_fault, first_faulty, validated_entries, AgentConfig};
use crate::config_value::{ConfigValue, ValueView};
use crate::document::{load_or_empty_toml, toml_fault, toml_parse, toml_render, write_document};
use crate::json_value::{json_parsed, scalar_value};
use crate::text::string_from;
use crate::value_path::{get_value, path_segments, set_outcome, set_value, unset_value, vget, vunset};

verus! {

#[derive(Clone, Debug, PartialEq, Eq)]
pub struct ConfigPathsRecord {
    pub config: String,
    pub env_file: String,
}

#[derive(Clone, Debug, PartialEq, Eq)]
pub struct ConfigWriteRecord {
    pub path: String,
    pub key: String,
    pub validation_error: Option<String>,
}

#[derive(Clone, Debug, PartialEq, Eq)]
pub struct ConfigUnsetRecord {
    pub path: String,
    pub key: String,
    pub removed: bool,
    pub validation_error: Option<String>,
}

#[derive(Clone, Debug, PartialEq, Eq)]
pub struct EnvValueRecord {
    pub key: String,
    pub value: Option<String>,
}

#[derive(Clone, Debug, PartialEq, Eq)]
pub struct EnvWriteRecord {
    pub path: String,
    pub key: String,
    pub previous: Option<String>,
    pub backup_written: bool,
}

#[derive(Clone, Debug, PartialEq, Eq)]
pub struct EnvUnsetRecord {
    pub path: String,
    pub key: String,
    pub removed: bool,
}

#[derive(Clone, Debug, PartialEq, Eq)]
pub struct EnvListRecord {
    pub path: String,
    pub keys: Vec<String>,
}

/// The two paths the tool uses, as displayed.
pub fn config_paths(config: &str, env_file: &str) -> (r: ConfigPathsRecord)
    ensures
        r.config@ == config@,
        r.env_file@ == env_file@,
{
    ConfigPathsRecord { config: string_from(config), env_file: string_from(env_file) }
}

/// The value of `key` in the `.env` file's text.
pub fn env_get(existing: Option<&str>, key: &str) -> (r: Result<EnvValueRecord, ConfigError>)
    ensures
        !valid_env_key(key@) ==> (r matches Err(e) && e@ == env_key_error(key@)),
        valid_env_key(key@) ==> (r matches Ok(rec) && rec.key@ == key@ && opt_string_view(rec.value)
            == env_lookup(parse_env(env_text(opt_text(existing))), key@)),
{
    match get_env_value(existing, key) {
        Err(e) => Err(e),
        Ok(value) => Ok(EnvValueRecord { key: string_from(key), value }),
    }
}

/// Sets `key` in the `.env` file at `path`; the new text to write, if any,
/// comes with the record.
pub fn env_set(path: &str, existing: Option<&str>, key: &str, value: &str) -> (r: Result<
    (EnvWriteRecord, Option<String>),
    ConfigError,
>)
    ensures
        !valid_env_key(key@) ==> (r matches Err(e) && e@ == env_key_error(key@)),
        valid_env_key(key@) ==> (r matches Ok(out) && ({
            let ls = parse_env(env_text(opt_text(existing)));
            let (rec, content) = out;
            &&& rec.path@ == path@
            &&& rec.key@ == key@
            &&& opt_string_view(rec.previous) == env_lookup(ls, key@)
            &&& if env_lookup(ls, key@) == Some(value@) {
                content is None && !rec.backup_written
            } else {
                opt_string_view(content) == Some(render_env(env_set_lines(ls, key@, value@)))
                    && rec.backup_written == existing is Some
            }
        })),
{
    match set_env_value(existing, key, value) {
        Err(e) => Err(e),
        Ok(plan) => Ok(
            (
                EnvWriteRecord {
                    path: string_from(path),
                    key: string_from(key),
                    previous: plan.result.previous,
                    backup_written: plan.result.backup_written,
                },
                plan.content,
            ),
        ),
    }
}

/// Removes `key` from the `.env` file at `path`; the new text to write, if
/// any, comes with the record.
pub fn env_unset(path: &str, existing: Option<&str>, key: &str) -> (r: Result<
    (EnvUnsetRecord, Option<String>),
    ConfigError,
>)
    ensures
        !valid_env_key(key@) ==> (r matches Err(e) && e@ == env_key_error(key@)),
        valid_env_key(key@) ==> (r matches Ok(out) && ({
            let (rec, content) = out;
            &&& rec.path@ == path@
            &&& rec.key@ == key@
            &&& match existing {
                None => !rec.removed && content is None,
                Some(t) => {
                    let ls = parse_env(t@);
                    &&& rec.removed == env_last_value(ls, key@) is Some
                    &&& if rec.removed {
                        opt_string_view(content) == Some(render_env(env_without(ls, key@)))
                    } else {
                        content is None
                    }
                },
            }
        })),
{
    match unset_env_value(existing, key) {
        Err(e) => Err(e),
        Ok(plan) => Ok(
            (
                EnvUnsetRecord {
                    path: string_from(path),
                    key: string_from(key),
                    removed: plan.removed.is_some(),
                },
                plan.content,
            ),
        ),
    }
}

/// The keys of the `.env` file at `path`, in ascending order.
pub fn env_list(path: &str, existing: Option<&str>) -> (r: EnvListRecord)
    ensures
        r.path@ == path@,
        sorted_strs(strings_view(r.keys@)),
        strings_view(r.keys@).to_multiset() == env_keys(parse_env(env_text(opt_text(existing)))).to_multiset(),
{
    EnvListRecord { path: string_from(path), keys: list_env_keys(existing) }
}

/// Checks a configuration read from the config file; a file that did not
/// parse gives its parse error back.
pub fn config_validate(parsed: Result<AgentConfig, ConfigError>) -> (r: Result<
    AgentConfig,
    ConfigError,
>)
    requires
        parsed matches Ok(c) ==> c.mcp.wf(),
    ensures
        match parsed {
            Err(e) => r == Err::<AgentConfig, ConfigError>(e),
            Ok(c) => {
                let o = c.mcp.entries();
                let f = first_faulty(o);
                &&& f < o.len() ==> (r matches Err(e) && Some(e@) == entry_fault(o[f].0@, o[f].1))
                &&& f == o.len() ==> (r matches Ok(v) && v.mcp.wf() && validated_entries(
                    o,
                    v.mcp.entries(),
                ))
            },
        },
{
    match parsed {
        Err(e) => Err(e),
        Ok(mut c) => match c.validate() {
            Err(e) => Err(e),
            Ok(()) => Ok(c),
        },
    }
}


// ---------------------------------------------------------------------------
// The configuration document.
/// The value read at a key of the configuration document.
#[derive(Debug)]
pub struct ConfigValueRecord {
    pub key: String,
    pub value: Option<ConfigValue>,
}

/// A document after `config set`: the new document and its text.
#[derive(Debug)]
pub struct ConfigSetPlan {
    pub root: ConfigValue,
    pub content: String,
}

/// A document after `config unset`: whether an entry went, the document,
/// and its new text where it changed.
#[derive(Debug)]
pub struct ConfigUnsetPlan {
    pub removed: bool,
    pub root: ConfigValue,
    pub content: Option<String>,
}

/// The document held by the config file's text; no file is an empty table.
pub open spec fn document_of(existing: Option<&str>) -> Result<ValueView, ConfigFault> {
    match existing {
        None => Ok(ValueView::Table(Seq::empty())),
        Some(t) => match toml_parse(t@) {
            Ok(d) => Ok(d),
            Err(m) => Err(toml_fault(m)),
        },
    }
}

pub open spec fn value_views(o: Option<ConfigValue>) -> Option<ValueView> {
    match o {
        Some(v) => Some(v@),
        None => None,
    }
}

/// The value at `key` in the config file's text.
pub fn config_get(existing: Option<&str>, key: &str) -> (r: Result<ConfigValueRecord, ConfigError>)
    ensures
        match document_of(existing) {
            Err(f) => r matches Err(e) && e@ == f,
            Ok(d) => match path_segments(key@) {
                Err(f) => r matches Err(e) && e@ == f,
                Ok(segs) => r matches Ok(rec) && rec.key@ == key@ && value_views(rec.value) == vget(
                    d,
                    segs,
                ),
            },
        },
{
    let root = match load_or_empty_toml(existing) {
        Err(e) => {
            return Err(e);
        },
        Ok(v) => v,
    };
    match get_value(&root, key) {
        Err(e) => Err(e),
        Ok(value) => Ok(ConfigValueRecord { key: string_from(key), value }),
    }
}

/// Stores the value that `value` stands for at `key` in the config file's
/// text; the new document and the text to write.
pub fn config_set(existing: Option<&str>, key: &str, value: &str) -> (r: Result<
    ConfigSetPlan,
    ConfigError,
>)
    ensures
        match document_of(existing) {
            Err(f) => r matches Err(e) && e@ == f,
            Ok(d) => match set_outcome(d, key@, scalar_value(value@, json_parsed(value@))) {
                Err(f) => r matches Err(e) && e@ == f,
                Ok(n) => match toml_render(n) {
                    Err(m) => r matches Err(e) && e@ == toml_fault(m),
                    Ok(s) => r matches Ok(plan) && plan.root@ == n && plan.content@ == s,
                },
            },
        },
{
    let mut root = match load_or_empty_toml(existing) {
        Err(e) => {
            return Err(e);
        },
        Ok(v) => v,
    };
    match set_value(&mut root, key, value) {
        Err(e) => {
            return Err(e);
        },
        Ok(()) => {},
    }
    match write_document(&root) {
        Err(e) => Err(e),
        Ok(content) => Ok(ConfigSetPlan { root, content }),
    }
}

/// Removes the entry at `key` from the config file's text; the new text
/// comes only where an entry was removed.
pub fn config_unset(existing: Option<&str>, key: &str) -> (r: Result<
    ConfigUnsetPlan,
    ConfigError,
>)
    ensures
        match document_of(existing) {
            Err(f) => r matches Err(e) && e@ == f,
            Ok(d) => match path_segments(key@) {
                Err(f) => r matches Err(e) && e@ == f,
                Ok(segs) => match vunset(d, segs) {
                    None => r matches Ok(plan) && !plan.removed && plan.root@ == d
                        && plan.content is None,
                    Some(n) => match toml_render(n) {
                        Err(m) => r matches Err(e) && e@ == toml_fault(m),
                        Ok(s) => r matches Ok(plan) && plan.removed && plan.root@ == n
                            && (plan.content matches Some(c) && c@ == s),
                    },
                },
            },
        },
{
    let mut root = match load_or_empty_toml(existing) {
        Err(e) => {
            return Err(e);
        },
        Ok(v) => v,
    };
    let removed = match unset_value(&mut root, key) {
        Err(e) => {
            return Err(e);
        },
        Ok(b) => b,
    };
    if !removed {
        return Ok(ConfigUnsetPlan { removed, root, content: None });
    }
    match write_document(&root) {
        Err(e) => Err(e),
        Ok(content) => Ok(ConfigUnsetPlan { removed, root, content: Some(content) }),
    }
}

/// The whole document held by the config file's text.
pub fn config_list(existing: Option<&str>) -> (r: Result<ConfigValue, ConfigError>)
    ensures
        match document_of(existing) {
            Err(f) => r matches Err(e) && e@ == f,
            Ok(d) => r matches Ok(v) && v@ == d,
        },
{
    load_or_empty_toml(existing)
}

} // verus!
