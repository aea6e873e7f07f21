use agentcast::discovery::{
    codex_and_gemini_sources, dedupe_first_seen, discover_json_raw, discover_known_mcp_configs,
    known_sources, DiscoverySource, SettingsClient, SourceFormat,
};
use agentcast::mcp_json::McpTransportConfig;

/// The settings-directory client of the fixture: its files under
/// `~/.client/` and its legacy `~/.client.json`.
fn settings_client() -> SettingsClient {
    SettingsClient {
        client: "settings-client".to_string(),
        dir: ".client".to_string(),
        legacy_file: ".client.json".to_string(),
    }
}

/// The known sources under a fixture home, with the texts of the files the
/// home holds: the settings client's `settings.json` and legacy file, Codex's
/// TOML and Gemini's `mcp.json`.
fn sources(settings: Option<&str>, legacy: Option<&str>, codex: Option<&str>, gemini: Option<&str>) -> Vec<DiscoverySource> {
    let mut all = known_sources("/home/fixture", &settings_client());
    all[1].text = settings.map(str::to_string);
    all[3].text = legacy.map(str::to_string);
    all[4].text = codex.map(str::to_string);
    all[5].text = gemini.map(str::to_string);
    all
}

#[test]
fn discover_known_configs_scans_stable_order_and_dedupes_first_seen() {
    let discovered = discover_known_mcp_configs(&sources(
        Some(r#"{"mcpServers":{"shared":{"command":"settings-mcp"}}}"#),
        None,
        Some(
            r#"[mcp_servers.shared]
command = "codex-mcp"
"#,
        ),
        None,
    ));

    assert_eq!(discovered.len(), 1);
    assert_eq!(discovered[0].source_client, "settings-client");
    match &discovered[0].config.transport {
        McpTransportConfig::Stdio { command, .. } => assert_eq!(command, "settings-mcp"),
        McpTransportConfig::StreamableHttp { .. } => panic!("expected stdio"),
    }
}

#[test]
fn strict_settings_do_not_use_root_fallback_but_legacy_file_does() {
    let discovered = discover_known_mcp_configs(&sources(
        Some(r#"{"root":{"command":"ignored"}}"#),
        Some(r#"{"legacy":{"command":"used"}}"#),
        None,
        None,
    ));

    assert_eq!(discovered.len(), 1);
    assert_eq!(discovered[0].config.name, "legacy");
}

#[test]
fn discovery_supports_command_arrays_and_scrubs_raw_env_values() {
    let discovered = discover_known_mcp_configs(&sources(
        None,
        None,
        None,
        Some(
            r#"{
          "mcpServers": {
            "fixture": {
              "command": ["node", "server.js"],
              "env": {"SECRET_TOKEN": "secret"}
            }
          }
        }"#,
        ),
    ));

    assert_eq!(discovered[0].env_key_count, 1);
    assert_eq!(discovered[0].config.env_keys, vec!["SECRET_TOKEN"]);
    match &discovered[0].config.transport {
        McpTransportConfig::Stdio { args, env, .. } => {
            assert_eq!(args, &vec!["server.js".to_string()]);
            assert!(env.is_empty());
        }
        McpTransportConfig::StreamableHttp { .. } => panic!("expected stdio"),
    }
}

#[test]
fn codex_toml_mcp_servers_are_discovered() {
    let discovered = discover_known_mcp_configs(&sources(
        None,
        None,
        Some(
            r#"[mcp_servers.fixture]
command = "node"
args = ["server.js"]
"#,
        ),
        None,
    ));

    assert_eq!(discovered.len(), 1);
    assert_eq!(discovered[0].source_client, "codex");
    assert_eq!(discovered[0].config.name, "fixture");
    assert_eq!(discovered[0].source_path, "/home/fixture/.codex/config.toml");
}

#[test]
fn codex_and_gemini_files_live_under_home() {
    let known = codex_and_gemini_sources("/home/u");
    assert_eq!(known[0].path, "/home/u/.codex/config.toml");
    assert_eq!(known[1].path, "/home/u/.gemini/mcp.json");
    assert_eq!(known[2].path, "/home/u/.gemini/settings.json");
    assert_eq!(known[2].client, "gemini");
}

#[test]
fn unreadable_or_broken_files_contribute_nothing() {
    let mut all = sources(
        Some("{ broken"),
        Some(r#"{"mcpServers":{"x":{"args":[]}}}"#),
        Some("not toml ["),
        None,
    );
    all[6].text = Some(r#"{"servers":{"g":{"url":"https://g.test"}}}"#.to_string());
    let discovered = discover_known_mcp_configs(&all);
    assert_eq!(discovered.len(), 1);
    assert_eq!(discovered[0].config.name, "g");
    assert_eq!(discovered[0].source_client, "gemini");
    assert_eq!(discovered[0].env_key_count, 0);
}

#[test]
fn env_counts_come_from_the_raw_file() {
    let raw = r#"{"mcp": {"a": {"command": "x", "env": {"K1": "1", "K2": 2}}}}"#;
    let found = discover_json_raw(raw, "/p", "client", false).unwrap();
    assert_eq!(found[0].env_key_count, 2);
    assert_eq!(found[0].config.env_keys, vec!["K1", "K2"]);
    assert_eq!(found[0].source_path, "/p");
    assert!(discover_json_raw("{", "/p", "client", false).is_err());
}

#[test]
fn dedupe_keeps_first_of_each_name() {
    let raw_a = r#"{"mcpServers": {"s": {"command": "first"}, "t": {"command": "t"}}}"#;
    let raw_b = r#"{"mcpServers": {"s": {"command": "second"}}}"#;
    let mut all = discover_json_raw(raw_a, "/a", "one", false).unwrap();
    all.extend(discover_json_raw(raw_b, "/b", "two", false).unwrap());
    let kept = dedupe_first_seen(all);
    let names: Vec<(&str, &str)> = kept
        .iter()
        .map(|d| (d.config.name.as_str(), d.source_client.as_str()))
        .collect();
    assert_eq!(names, vec![("s", "one"), ("t", "one")]);
}

#[test]
fn known_sources_read_the_settings_client_first() {
    let all = known_sources("/home/u", &settings_client());
    let paths: Vec<&str> = all.iter().map(|s| s.path.as_str()).collect();
    assert_eq!(
        paths,
        vec![
            "/home/u/.client/settings.local.json",
            "/home/u/.client/settings.json",
            "/home/u/.client/mcp.json",
            "/home/u/.client.json",
            "/home/u/.codex/config.toml",
            "/home/u/.gemini/mcp.json",
            "/home/u/.gemini/settings.json",
        ]
    );
    assert_eq!(all[0].format, SourceFormat::Json { allow_root_fallback: false });
    assert_eq!(all[3].format, SourceFormat::Json { allow_root_fallback: true });
    assert!(all[..4].iter().all(|s| s.client == "settings-client"));
}
