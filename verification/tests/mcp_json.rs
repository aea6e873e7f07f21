use agentcast::json_value::JsonValue;
use agentcast::mcp_json::{
    import_servers, parse_mcp_json, parse_mcp_json_with_options, parse_server, McpTransportConfig,
};

#[test]
fn imports_stdio_servers_disabled_by_default() {
    let raw = r#"
    {
      "mcpServers": {
        "local": {
          "command": "agent",
          "args": ["serve"],
          "env": {"TOKEN": "secret"}
        }
      }
    }
    "#;

    let servers = parse_mcp_json(raw).expect("parse config");

    assert_eq!(servers.len(), 1);
    assert_eq!(servers[0].name, "local");
    assert!(!servers[0].enabled);
    assert_eq!(servers[0].env_keys, vec!["TOKEN"]);
}

#[test]
fn jsonc_comments_do_not_strip_url_slashes_inside_strings() {
    let raw = r#"
    {
      // comment outside strings
      "mcpServers": {
        "remote": {
          "url": "https://example.test/mcp//stable"
        }
      }
    }
    "#;

    let servers = parse_mcp_json(raw).expect("parse config");

    match &servers[0].transport {
        McpTransportConfig::StreamableHttp { url, .. } => {
            assert_eq!(url, "https://example.test/mcp//stable");
        }
        McpTransportConfig::Stdio { .. } => panic!("expected streamable http"),
    }
}

#[test]
fn jsonc_block_comments_are_removed_without_touching_strings() {
    let raw = r#"
    {
      /* block comment with "quoted" text */
      "mcpServers": {
        "remote": {
          "url": "https://example.test/mcp/*literal*/stable"
        }
      }
    }
    "#;

    let servers = parse_mcp_json(raw).expect("parse config");

    match &servers[0].transport {
        McpTransportConfig::StreamableHttp { url, .. } => {
            assert_eq!(url, "https://example.test/mcp/*literal*/stable");
        }
        McpTransportConfig::Stdio { .. } => panic!("expected streamable http"),
    }
}

#[test]
fn mcp_servers_object_wins_over_servers_object() {
    let raw = r#"
    {
      "mcpServers": {"preferred": {"command": "preferred"}},
      "servers": {"ignored": {"command": "ignored"}}
    }
    "#;

    let servers = parse_mcp_json(raw).expect("parse config");

    assert_eq!(servers.len(), 1);
    assert_eq!(servers[0].name, "preferred");
}

#[test]
fn command_arrays_split_into_command_and_arguments() {
    let raw = r#"{"servers": {"b": {"command": ["npx", "server", 3, "--flag"], "args": ["ignored"]},
                  "a": {"command": ["solo"], "args": ["x", 1, "y"], "env": {"Z": 1, "A": "v"}}}}"#;
    let servers = parse_mcp_json(raw).expect("parse config");
    assert_eq!(servers.len(), 2);
    assert_eq!(servers[0].name, "a");
    assert_eq!(servers[0].id.id, "a");
    match &servers[0].transport {
        McpTransportConfig::Stdio { command, args, env } => {
            assert_eq!(command, "solo");
            assert_eq!(args, &vec!["x".to_string(), "y".to_string()]);
            assert_eq!(
                env,
                &vec![("A".to_string(), "v".to_string()), ("Z".to_string(), String::new())]
            );
        }
        other => panic!("unexpected {other:?}"),
    }
    assert_eq!(servers[0].env_keys, vec!["A", "Z"]);
    match &servers[1].transport {
        McpTransportConfig::Stdio { command, args, .. } => {
            assert_eq!(command, "npx");
            assert_eq!(args, &vec!["server".to_string(), "--flag".to_string()]);
        }
        other => panic!("unexpected {other:?}"),
    }
}

#[test]
fn url_keys_and_bearer_env_are_read() {
    let raw = r#"{"mcp": {"r": {"serverUrl": "https://x.test", "bearer_token_env": "TOKEN"}}}"#;
    let servers = parse_mcp_json(raw).expect("parse config");
    match &servers[0].transport {
        McpTransportConfig::StreamableHttp { url, bearer_token_env } => {
            assert_eq!(url, "https://x.test");
            assert_eq!(bearer_token_env.as_deref(), Some("TOKEN"));
        }
        other => panic!("unexpected {other:?}"),
    }
}

#[test]
fn a_server_without_command_or_url_is_refused() {
    let raw = r#"{"mcpServers": {"ok": {"command": "x"}, "broken": {"args": []}}}"#;
    let err = parse_mcp_json(raw).unwrap_err();
    assert_eq!(err.kind(), "missing_target");
    assert_eq!(err.message(), "MCP server `broken` must define either command or url");
    let err = parse_server("empty", &JsonValue::Null).unwrap_err();
    assert_eq!(err.kind(), "missing_target");
}

#[test]
fn invalid_json_is_a_parse_error() {
    let err = parse_mcp_json("{ not json").unwrap_err();
    assert_eq!(err.kind(), "parse_error");
    assert!(err.message().starts_with("invalid MCP JSON: "));
}

#[test]
fn root_fallback_reads_a_bare_server_map() {
    let raw = r#"{"direct": {"command": "run"}}"#;
    assert!(parse_mcp_json(raw).unwrap().is_empty());
    let servers = parse_mcp_json_with_options(raw, true).expect("fallback");
    let names: Vec<&str> = servers.iter().map(|s| s.name.as_str()).collect();
    assert_eq!(names, vec!["direct"]);
    let err = parse_mcp_json_with_options(r#"{"direct": {"command": "run"}, "other": 5}"#, true)
        .unwrap_err();
    assert_eq!(err.message(), "MCP server `other` must define either command or url");
    assert!(parse_mcp_json_with_options(r#"{"x": {"y": 1}}"#, true).unwrap().is_empty());
    assert!(import_servers(&JsonValue::Bool(true), true).unwrap().is_empty());
}

#[test]
fn a_name_given_twice_imports_once_with_its_last_definition() {
    let raw = r#"{"mcpServers": {"b": {"command": "x"}, "a": {"command": "y"}, "b": {"url": "https://b.test"}}}"#;
    let servers = parse_mcp_json(raw).expect("parse config");
    let names: Vec<&str> = servers.iter().map(|s| s.name.as_str()).collect();
    assert_eq!(names, vec!["a", "b"]);
    assert!(matches!(servers[1].transport, McpTransportConfig::StreamableHttp { .. }));
}
