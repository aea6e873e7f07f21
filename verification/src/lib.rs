//! Verified core of the AgentCast gateway: scopes, bearer authorization,
//! OAuth state checks, `.env` file editing, MCP upstream configuration, the
//! configuration document edited by key paths, importing MCP servers from
//! client files, and the transport rules of the protected MCP endpoint.
pub mod text;
pub mod scope;
pub mod challenge;
pub mod bearer;
pub mod weburl;
pub mod oauth;
pub mod config_error;
pub mod env_file;
pub mod strmap;
pub mod env_merge;
pub mod jsonc;
pub mod api;
pub mod sessions;
pub mod flows;
pub mod mcp_config;
pub mod operations;
pub mod paths;
pub mod vocabulary;
pub mod acp;
pub mod fleet;
pub mod cli_view;
pub mod config_value;
pub mod json_value;
pub mod value_path;
pub mod document;
pub mod mcp_json;
pub mod discovery;
pub mod protected;
