use agentcast::config_error::ConfigError;
use agentcast::env_file::{
    get_env_value, list_env_keys, parse_env_lines, quote_env_value, render_lines, set_env_value,
    unquote_env_value, unset_env_value, validate_env_key, EnvLine,
};
use agentcast::env_merge::{merge_env_file, validate_env_key_for_merge, EnvMerge};
use agentcast::jsonc::strip_jsonc_comments;
use agentcast::mcp_config::{
    add_or_replace_upstream, remove_upstream, AgentConfig, EnvBinding, McpConfig, McpTransport,
    McpUpstreamConfig, StdioUpstreamConfig, StreamableHttpUpstreamConfig,
};
use agentcast::operations::{config_paths, config_validate, env_get, env_list, env_set, env_unset};
use agentcast::paths::AgentPaths;

/// A `.env` file kept in memory: `None` while it does not exist.
struct EnvFile {
    text: Option<String>,
    backup: Option<String>,
}

impl EnvFile {
    fn missing() -> Self {
        EnvFile { text: None, backup: None }
    }

    fn with(text: &str) -> Self {
        EnvFile { text: Some(text.to_string()), backup: None }
    }

    fn set(&mut self, key: &str, value: &str) -> Result<agentcast::env_file::EnvWriteResult, ConfigError> {
        let plan = set_env_value(self.text.as_deref(), key, value)?;
        if let Some(content) = plan.content {
            if plan.result.backup_written {
                self.backup = self.text.clone();
            }
            self.text = Some(content);
        }
        Ok(plan.result)
    }

    fn unset(&mut self, key: &str) -> Result<Option<String>, ConfigError> {
        let plan = unset_env_value(self.text.as_deref(), key)?;
        if let Some(content) = plan.content {
            self.backup = self.text.clone();
            self.text = Some(content);
        }
        Ok(plan.removed)
    }

    fn get(&self, key: &str) -> Result<Option<String>, ConfigError> {
        get_env_value(self.text.as_deref(), key)
    }
}

#[test]
fn set_env_value_creates_file_when_missing() {
    let mut file = EnvFile::missing();
    let result = file.set("RUST_LOG", "info").expect("set succeeds");
    assert!(result.previous.is_none());
    assert!(!result.backup_written);
    assert_eq!(file.get("RUST_LOG").unwrap(), Some("info".into()));
    assert_eq!(file.text.as_deref(), Some("RUST_LOG=info\n"));
}

#[test]
fn set_env_value_overwrites_existing() {
    let mut file = EnvFile::with("RUST_LOG=warn\n");

    let result = file.set("RUST_LOG", "debug").expect("set succeeds");
    assert_eq!(result.previous.as_deref(), Some("warn"));
    assert!(result.backup_written);
    assert_eq!(file.get("RUST_LOG").unwrap(), Some("debug".into()));
    assert_eq!(file.backup.as_deref(), Some("RUST_LOG=warn\n"));
}

#[test]
fn set_env_value_is_noop_when_value_unchanged() {
    let mut file = EnvFile::with("RUST_LOG=info\n");

    let result = file.set("RUST_LOG", "info").expect("set succeeds");
    assert!(!result.backup_written);
    assert_eq!(file.text.as_deref(), Some("RUST_LOG=info\n"));
}

#[test]
fn unset_env_value_removes_key_and_returns_prior() {
    let mut file = EnvFile::with("RUST_LOG=info\nOTHER=keep\n");

    let prior = file.unset("RUST_LOG").expect("unset succeeds");
    assert_eq!(prior.as_deref(), Some("info"));
    assert!(file.get("RUST_LOG").expect("get after unset").is_none());
    assert_eq!(file.get("OTHER").unwrap(), Some("keep".into()));
}

#[test]
fn unset_env_value_is_noop_for_missing_key() {
    let mut file = EnvFile::with("RUST_LOG=info\n");
    assert!(file.unset("NOT_THERE").expect("unset returns").is_none());
    assert!(file.backup.is_none());
}

#[test]
fn list_env_keys_returns_sorted_keys() {
    let keys = list_env_keys(Some("ZED=1\nALPHA=2\nMID=3\n"));
    assert_eq!(keys, vec!["ALPHA", "MID", "ZED"]);
}

#[test]
fn invalid_keys_are_rejected() {
    let mut file = EnvFile::missing();
    assert!(file.set("lowercase", "x").is_err());
    assert!(file.set("1LEADING", "x").is_err());
    assert!(file.set("WITH-DASH", "x").is_err());
    assert_eq!(
        validate_env_key("1LEADING").unwrap_err().message(),
        "env key `1LEADING` must match ^[A-Z_][A-Z0-9_]*$"
    );
    assert!(validate_env_key("_UNDERSCORE_1").is_ok());
}

#[test]
fn quoting_round_trips_values_with_special_characters() {
    let mut file = EnvFile::missing();
    file.set("MESSAGE", "hello world").expect("set");
    assert_eq!(file.get("MESSAGE").unwrap(), Some("hello world".into()));
    assert_eq!(file.text.as_deref(), Some("MESSAGE=\"hello world\"\n"));
}

#[test]
fn quoting_escapes_and_unescapes() {
    let raw = "a\"b\\c\nd\te\rf";
    let quoted = quote_env_value(raw);
    assert_eq!(quoted, "\"a\\\"b\\\\c\\nd\\te\\rf\"");
    assert_eq!(unquote_env_value(&quoted), raw);
    assert_eq!(quote_env_value("plain-value_1.2/x:y"), "plain-value_1.2/x:y");
    assert_eq!(quote_env_value(""), "");
    assert_eq!(unquote_env_value("\"trailing\\\""), "trailing\\");
    assert_eq!(unquote_env_value("\""), "\"");
    assert_eq!(unquote_env_value("\"\\q\""), "q");
}

#[test]
fn lines_keep_comments_and_read_entries() {
    let lines = parse_env_lines("# note\n\n  KEY = \"v 1\"  \nno equals\nA=b=c\r\n");
    assert_eq!(
        lines,
        vec![
            EnvLine::Verbatim("# note".to_string()),
            EnvLine::Verbatim(String::new()),
            EnvLine::Entry { key: "KEY".to_string(), value: "v 1".to_string() },
            EnvLine::Verbatim("no equals".to_string()),
            EnvLine::Entry { key: "A".to_string(), value: "b=c".to_string() },
        ]
    );
    assert_eq!(render_lines(&lines), "# note\n\nKEY=\"v 1\"\nno equals\nA=\"b=c\"\n");
}

#[test]
fn set_keeps_other_lines_and_appends_new_keys() {
    let mut file = EnvFile::with("# header\nA=1\n");
    file.set("B", "two words").expect("set");
    assert_eq!(file.text.as_deref(), Some("# header\nA=1\nB=\"two words\"\n"));
    assert_eq!(file.get("A").unwrap(), Some("1".into()));
    let again = file.set("B", "two words").expect("set again");
    assert_eq!(again.previous.as_deref(), Some("two words"));
    assert!(!again.backup_written);
}

#[test]
fn unset_removes_every_entry_and_returns_the_last() {
    let mut file = EnvFile::with("K=1\nX=2\nK=3\n");
    assert_eq!(file.get("K").unwrap(), Some("1".into()));
    assert_eq!(file.unset("K").unwrap(), Some("3".into()));
    assert_eq!(file.text.as_deref(), Some("X=2\n"));
    let mut missing = EnvFile::missing();
    assert_eq!(missing.unset("K").unwrap(), None);
    assert!(missing.text.is_none());
}

/// A file for merging kept in memory.
fn merge_into(text: &mut Option<String>, merge: &EnvMerge) -> Result<agentcast::env_merge::EnvMergeResult, ConfigError> {
    let plan = merge_env_file(text.as_deref(), merge)?;
    if let Some(content) = plan.content {
        *text = Some(content);
    }
    Ok(plan.result)
}

fn pairs(items: &[(&str, &str)]) -> Vec<(String, String)> {
    items.iter().map(|(k, v)| (k.to_string(), v.to_string())).collect()
}

#[test]
fn env_merge_is_idempotent_and_writes_backup_on_insert() {
    let mut text = Some("EXISTING_TOKEN=abc\n".to_string());

    let result = merge_into(
        &mut text,
        &EnvMerge::new(pairs(&[
            ("EXISTING_TOKEN", "abc"),
            ("REMOTE_URL", "https://example.test"),
        ])),
    )
    .unwrap();

    assert_eq!(result.unchanged, ["EXISTING_TOKEN"]);
    assert_eq!(result.inserted, ["REMOTE_URL"]);
    assert!(result.backup_written);

    let second = merge_into(
        &mut text,
        &EnvMerge::new(pairs(&[
            ("EXISTING_TOKEN", "abc"),
            ("REMOTE_URL", "https://example.test"),
        ])),
    )
    .unwrap();
    assert!(second.inserted.is_empty());
    assert_eq!(second.unchanged, ["EXISTING_TOKEN", "REMOTE_URL"]);
}

#[test]
fn env_merge_rejects_conflicting_existing_value() {
    let mut text = Some("API_TOKEN=old\n".to_string());

    let err = merge_into(&mut text, &EnvMerge::new(pairs(&[("API_TOKEN", "new")]))).unwrap_err();
    assert_eq!(err.kind(), "env_conflict");
}

#[test]
fn env_merge_restricts_keys_to_secret_or_runtime_shapes() {
    assert!(validate_env_key_for_merge("ALLOW_WRITE").is_err());
    assert!(validate_env_key_for_merge("SERVICE_TOKEN").is_ok());
    assert!(validate_env_key_for_merge("REMOTE_URL").is_ok());
}

#[test]
fn env_merge_writes_quoted_values_in_key_order() {
    let mut text: Option<String> = None;
    let result = merge_into(
        &mut text,
        &EnvMerge::new(pairs(&[("MCP_B", "x y"), ("API_KEY", "k"), ("MCP_B", "two words")])),
    )
    .unwrap();
    assert_eq!(result.inserted, ["API_KEY", "MCP_B"]);
    assert!(!result.backup_written);
    assert_eq!(text.as_deref(), Some("API_KEY=k\nMCP_B=\"two words\"\n"));
    let again = merge_into(&mut text, &EnvMerge::new(pairs(&[("MCP_B", "two words")]))).unwrap();
    assert_eq!(again.unchanged, ["MCP_B"]);
    assert!(validate_env_key_for_merge("lower_TOKEN").is_err());
    assert!(validate_env_key_for_merge("RUNTIME_ENV").is_ok());
    assert!(validate_env_key_for_merge("MCP_HOME").is_ok());
    let bad = merge_into(&mut text, &EnvMerge::new(pairs(&[("NOPE", "1")]))).unwrap_err();
    assert_eq!(bad.kind(), "invalid_config");
}

#[test]
fn env_set_and_unset_roundtrip() {
    let path = "/tmp/agentcast-ops-env.env";
    let mut text: Option<String> = None;
    let (record, content) = env_set(path, text.as_deref(), "RUST_LOG", "info").expect("set");
    if let Some(c) = content {
        text = Some(c);
    }
    assert!(!record.backup_written);
    assert_eq!(
        env_get(text.as_deref(), "RUST_LOG").unwrap().value,
        Some("info".into())
    );

    let (unset, content) = env_unset(path, text.as_deref(), "RUST_LOG").expect("unset");
    if let Some(c) = content {
        text = Some(c);
    }
    assert!(unset.removed);
    assert_eq!(env_get(text.as_deref(), "RUST_LOG").unwrap().value, None);
}

#[test]
fn env_list_returns_keys() {
    let path = "/tmp/agentcast-ops-env-list.env";
    let mut text: Option<String> = None;
    for (k, v) in [("A", "1"), ("B", "2")] {
        let (_, content) = env_set(path, text.as_deref(), k, v).expect("set");
        if let Some(c) = content {
            text = Some(c);
        }
    }
    let listing = env_list(path, text.as_deref());
    assert_eq!(listing.keys, vec!["A", "B"]);
    assert_eq!(listing.path, path);
}

#[test]
fn config_paths_renders_both_paths() {
    let paths = config_paths("/tmp/config.toml", "/tmp/.env");
    assert_eq!(paths.config, "/tmp/config.toml");
    assert_eq!(paths.env_file, "/tmp/.env");
}

#[test]
fn paths_live_under_the_home_directory() {
    let paths = AgentPaths::from_home("/home/me");
    assert_eq!(paths.config_dir, "/home/me/.agentcast");
    assert_eq!(paths.config_file, "/home/me/.agentcast/config.toml");
    assert_eq!(paths.env_file, "/home/me/.agentcast/.env");
    assert_eq!(AgentPaths::from_home("/").config_dir, "/.agentcast");
}

#[test]
fn jsonc_comments_are_removed_outside_strings() {
    let raw = "{\n  // comment outside strings\n  \"url\": \"https://example.test/mcp//stable\"\n}";
    assert_eq!(
        strip_jsonc_comments(raw),
        "{\n  \n  \"url\": \"https://example.test/mcp//stable\"\n}"
    );
    let block = "{ /* block comment with \"quoted\" text */ \"u\": \"/mcp/*literal*/x\" }";
    assert_eq!(strip_jsonc_comments(block), "{  \"u\": \"/mcp/*literal*/x\" }");
    assert_eq!(strip_jsonc_comments("\"a\\\"//b\" // tail"), "\"a\\\"//b\" ");
    assert_eq!(strip_jsonc_comments("x /* open"), "x ");
}

fn stdio(command: &str) -> McpTransport {
    McpTransport::Stdio(StdioUpstreamConfig {
        command: command.into(),
        args: Vec::new(),
        cwd: None,
        env: Vec::new(),
    })
}

fn config_with(ids: &[(&str, &str)]) -> AgentConfig {
    let upstreams = ids
        .iter()
        .map(|(id, command)| {
            (
                id.to_string(),
                McpUpstreamConfig { id: String::new(), enabled: true, transport: stdio(command) },
            )
        })
        .collect();
    let mut config = AgentConfig { mcp: McpConfig::from_upstreams(upstreams) };
    config.validate().expect("valid config");
    config
}

#[test]
fn add_or_replace_upstream_preserves_unrelated_entries() {
    let mut config = config_with(&[("git", "git-mcp")]);
    let upstream = McpUpstreamConfig::new(
        "filesystem".to_string(),
        McpTransport::Stdio(StdioUpstreamConfig {
            command: "npx".into(),
            args: vec!["@modelcontextprotocol/server-filesystem".into()],
            cwd: None,
            env: Default::default(),
        }),
    )
    .unwrap();

    assert!(
        add_or_replace_upstream(&mut config, upstream)
            .unwrap()
            .is_none()
    );
    assert!(config.mcp.contains_key("git"));
    assert!(config.mcp.contains_key("filesystem"));
}

#[test]
fn remove_upstream_only_removes_target() {
    let mut config = config_with(&[("git", "git-mcp"), ("fs", "fs-mcp")]);

    assert!(remove_upstream(&mut config, "git").is_some());
    assert!(!config.mcp.contains_key("git"));
    assert!(config.mcp.contains_key("fs"));
}

#[test]
fn validation_names_ids_and_transport_rules() {
    let mut config = AgentConfig {
        mcp: McpConfig::from_upstreams(vec![(
            String::new(),
            McpUpstreamConfig { id: String::new(), enabled: true, transport: stdio("node") },
        )]),
    };
    let err = config.validate().expect_err("blank upstream id is invalid");
    assert_eq!(err.kind(), "invalid_config");
    assert!(err.message().contains("upstream id"));

    let blank = McpUpstreamConfig::new("x".to_string(), stdio("  ")).unwrap_err();
    assert_eq!(blank.message(), "stdio upstream command cannot be blank");

    let bad_env = McpUpstreamConfig::new(
        "x".to_string(),
        McpTransport::Stdio(StdioUpstreamConfig {
            command: "node".into(),
            args: Vec::new(),
            cwd: None,
            env: vec![("lower".to_string(), EnvBinding::Env { key: "X".into() })],
        }),
    )
    .unwrap_err();
    assert_eq!(bad_env.message(), "environment key `lower` must match ^[A-Z][A-Z0-9_]*$");

    let http = |url: &str| {
        McpTransport::StreamableHttp(StreamableHttpUpstreamConfig {
            url: url.into(),
            bearer_token_env: Some("TOKEN".into()),
        })
    };
    assert!(McpUpstreamConfig::new("h".to_string(), http("https://mcp.example.test/x")).is_ok());
    assert_eq!(
        McpUpstreamConfig::new("h".to_string(), http("ftp://mcp.example.test")).unwrap_err().message(),
        "streamable HTTP upstream URL must use http or https"
    );
    assert!(McpUpstreamConfig::new("h".to_string(), http("::nope"))
        .unwrap_err()
        .message()
        .starts_with("invalid MCP URL: "));
    assert!(McpUpstreamConfig::new("bad id".to_string(), stdio("node")).is_err());
}

#[test]
fn validation_gives_upstreams_their_ids() {
    let config = config_with(&[("filesystem", "npx")]);
    let upstream = config.mcp.get("filesystem").expect("upstream exists");
    assert_eq!(upstream.id, "filesystem");
    assert!(config_validate(Ok(config.clone())).is_ok());
    assert_eq!(
        config_validate(Err(ConfigError::Toml("missing field".into()))).unwrap_err().kind(),
        "parse_error"
    );
}

fn filesystem_upstream() -> McpUpstreamConfig {
    McpUpstreamConfig {
        id: String::new(),
        enabled: true,
        transport: McpTransport::Stdio(StdioUpstreamConfig {
            command: "npx".to_string(),
            args: vec![
                "-y".to_string(),
                "@modelcontextprotocol/server-filesystem".to_string(),
                "/tmp".to_string(),
            ],
            cwd: Some("/tmp".to_string()),
            env: vec![(
                "ALLOW_WRITE".to_string(),
                EnvBinding::Config { value: "false".into() },
            )],
        }),
    }
}

#[test]
fn loads_stdio_mcp_upstream_with_structured_command() {
    let parsed = AgentConfig {
        mcp: McpConfig::from_upstreams(vec![("filesystem".to_string(), filesystem_upstream())]),
    };
    let config = config_validate(Ok(parsed)).expect("config parses");

    let upstream = config.mcp.get("filesystem").expect("upstream exists");
    assert_eq!(upstream.id, "filesystem");

    let McpTransport::Stdio(StdioUpstreamConfig { command, args, cwd, env }) = &upstream.transport
    else {
        panic!("expected stdio upstream");
    };
    assert_eq!(command, "npx");
    assert_eq!(args, &["-y", "@modelcontextprotocol/server-filesystem", "/tmp"]);
    assert_eq!(cwd.as_deref(), Some("/tmp"));
    assert_eq!(
        env.iter().find(|(k, _)| k == "ALLOW_WRITE").map(|(_, v)| v),
        Some(&EnvBinding::Config { value: "false".into() })
    );
}

#[test]
fn rejects_blank_upstream_id() {
    let mut upstream = filesystem_upstream();
    upstream.transport = McpTransport::Stdio(StdioUpstreamConfig {
        command: "node".to_string(),
        args: vec![],
        cwd: None,
        env: vec![],
    });
    let parsed = AgentConfig {
        mcp: McpConfig::from_upstreams(vec![(String::new(), upstream)]),
    };
    let err = config_validate(Ok(parsed)).expect_err("blank upstream id is invalid");

    assert_eq!(err.kind(), "invalid_config");
    assert!(err.message().contains("upstream id"));
}
