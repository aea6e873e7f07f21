//! The error type of configuration loading, editing and validation.
use vstd::prelude::*;
use crate::text::{push_str, string_from};

verus! {

#[derive(Clone, Debug, PartialEq, Eq)]
pub enum ConfigError {
    /// A value or key that breaks a configuration rule; the text says which.
    InvalidConfig(String),
    /// A merged env key whose file already holds another value.
    EnvConflict(String),
    /// An imported MCP server with neither a command nor a URL.
    MissingTarget { name: String },
    /// JSON that could not be parsed; the parser's message.
    Json(String),
    /// TOML that could not be parsed or did not fit the configuration shape.
    Toml(String),
    /// A file operation that failed; the system's message.
    Io(String),
}

/// The mathematical form of a `ConfigError`.
pub enum ConfigFault {
    InvalidConfig(Seq<char>),
    EnvConflict(Seq<char>),
    MissingTarget(Seq<char>),
    Json(Seq<char>),
    Toml(Seq<char>),
    Io(Seq<char>),
}

impl View for ConfigError {
    type V = ConfigFault;

    open spec fn view(&self) -> ConfigFault {
        match self {
            ConfigError::InvalidConfig(m) => ConfigFault::InvalidConfig(m@),
            ConfigError::EnvConflict(k) => ConfigFault::EnvConflict(k@),
            ConfigError::MissingTarget { name } => ConfigFault::MissingTarget(name@),
            ConfigError::Json(m) => ConfigFault::Json(m@),
            ConfigError::Toml(m) => ConfigFault::Toml(m@),
            ConfigError::Io(m) => ConfigFault::Io(m@),
        }
    }
}

pub open spec fn config_error_kind(e: ConfigFault) -> Seq<char> {
    match e {
        ConfigFault::InvalidConfig(_) => "invalid_config"@,
        ConfigFault::EnvConflict(_) => "env_conflict"@,
        ConfigFault::MissingTarget(_) => "missing_target"@,
        ConfigFault::Json(_) => "parse_error"@,
        ConfigFault::Toml(_) => "parse_error"@,
        ConfigFault::Io(_) => "io_error"@,
    }
}

pub open spec fn config_error_message(e: ConfigFault) -> Seq<char> {
    match e {
        ConfigFault::InvalidConfig(m) => m,
        ConfigFault::EnvConflict(k) => "env key `"@ + k + "` already holds a different value"@,
        ConfigFault::MissingTarget(n) => "MCP server `"@ + n + "` must define either command or url"@,
        ConfigFault::Json(m) => "invalid MCP JSON: "@ + m,
        ConfigFault::Toml(m) => "invalid config TOML: "@ + m,
        ConfigFault::Io(m) => "config I/O failed: "@ + m,
    }
}

impl ConfigError {
    /// A stable machine-readable name of the error's kind.
    pub fn kind(&self) -> (r: &'static str)
        ensures
            r@ == config_error_kind(self@),
    {
        match self {
            ConfigError::InvalidConfig(_) => "invalid_config",
            ConfigError::EnvConflict(_) => "env_conflict",
            ConfigError::MissingTarget { .. } => "missing_target",
            ConfigError::Json(_) => "parse_error",
            ConfigError::Toml(_) => "parse_error",
            ConfigError::Io(_) => "io_error",
        }
    }

    /// The error's message.
    pub fn message(&self) -> (r: String)
        ensures
            r@ == config_error_message(self@),
    {
        match self {
            ConfigError::InvalidConfig(m) => m.clone(),
            ConfigError::EnvConflict(k) => {
                let mut r = string_from("env key `");
                push_str(&mut r, k.as_str());
                push_str(&mut r, "` already holds a different value");
                r
            },
            ConfigError::MissingTarget { name } => {
                let mut r = string_from("MCP server `");
                push_str(&mut r, name.as_str());
                push_str(&mut r, "` must define either command or url");
                r
            },
            ConfigError::Json(m) => {
                let mut r = string_from("invalid MCP JSON: ");
                push_str(&mut r, m.as_str());
                r
            },
            ConfigError::Toml(m) => {
                let mut r = string_from("invalid config TOML: ");
                push_str(&mut r, m.as_str());
                r
            },
            ConfigError::Io(m) => {
                let mut r = string_from("config I/O failed: ");
                push_str(&mut r, m.as_str());
                r
            },
        }
    }
}

} // verus!
