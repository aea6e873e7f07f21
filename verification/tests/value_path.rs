use agentcast::config_value::{empty_table, ConfigValue};
use agentcast::document::{load_or_empty_toml, write_document};
use agentcast::json_value::{json_to_toml, parse_scalar_value, scalar_from_json, JsonValue};
use agentcast::operations::{config_get, config_list, config_set, config_unset};
use agentcast::value_path::{get_value, parse_path, set_value, set_value_parsed, unset_value};

fn fixture() -> ConfigValue {
    let raw = r#"
        [mcp.upstreams.git]
        transport = "stdio"
        command = "git-mcp"
        enabled = true

        [mcp.upstreams.fs]
        transport = "stdio"
        command = "fs-mcp"
        args = ["--root", "/tmp"]
    "#;
    load_or_empty_toml(Some(raw)).expect("fixture parses as a document")
}

fn as_str(v: &ConfigValue) -> Option<&str> {
    match v {
        ConfigValue::String(s) => Some(s.as_str()),
        _ => None,
    }
}

fn as_bool(v: &ConfigValue) -> Option<bool> {
    match v {
        ConfigValue::Boolean(b) => Some(*b),
        _ => None,
    }
}

fn as_array(v: &ConfigValue) -> Option<&Vec<ConfigValue>> {
    match v {
        ConfigValue::Array(a) => Some(a),
        _ => None,
    }
}

#[test]
fn get_value_reads_nested_scalar() {
    let root = fixture();
    let value = get_value(&root, "mcp.upstreams.git.command")
        .expect("get succeeds")
        .expect("value present");
    assert_eq!(as_str(&value), Some("git-mcp"));
}

#[test]
fn get_value_returns_none_for_unknown_path() {
    let root = fixture();
    assert!(get_value(&root, "mcp.upstreams.missing.command")
        .expect("get succeeds")
        .is_none());
}

#[test]
fn set_value_updates_scalar_string() {
    let mut root = fixture();
    set_value(&mut root, "mcp.upstreams.git.command", "git-mcp-2").expect("set");
    assert_eq!(
        as_str(&get_value(&root, "mcp.upstreams.git.command").unwrap().unwrap()),
        Some("git-mcp-2")
    );
}

#[test]
fn set_value_parses_json_typed_inputs() {
    let mut root = fixture();
    set_value(&mut root, "mcp.upstreams.git.enabled", "false").expect("bool parses");
    set_value(&mut root, "mcp.upstreams.git.args", r#"["--repo","/srv/git"]"#).expect("array parses");

    assert_eq!(
        as_bool(&get_value(&root, "mcp.upstreams.git.enabled").unwrap().unwrap()),
        Some(false)
    );
    let args = get_value(&root, "mcp.upstreams.git.args").unwrap().unwrap();
    let items = as_array(&args).expect("array");
    assert_eq!(items.len(), 2);
    assert_eq!(as_str(&items[0]), Some("--repo"));
}

#[test]
fn set_value_rejects_null() {
    let mut root = fixture();
    let err = set_value(&mut root, "mcp.upstreams.git.command", "null").unwrap_err();
    assert_eq!(err.kind(), "invalid_config");
}

#[test]
fn set_value_creates_intermediate_tables() {
    let mut root = empty_table();
    set_value(&mut root, "mcp.upstreams.new.transport", "stdio").expect("set");
    let nested = get_value(&root, "mcp.upstreams.new.transport").unwrap().unwrap();
    assert_eq!(as_str(&nested), Some("stdio"));
}

#[test]
fn unset_value_removes_existing_field() {
    let mut root = fixture();
    assert!(unset_value(&mut root, "mcp.upstreams.fs.args").expect("unset succeeds"));
    assert!(get_value(&root, "mcp.upstreams.fs.args").unwrap().is_none());
}

#[test]
fn unset_value_returns_false_for_missing_key() {
    let mut root = fixture();
    assert!(!unset_value(&mut root, "mcp.upstreams.fs.cwd").expect("unset succeeds"));
}

#[test]
fn empty_path_is_rejected() {
    let root = fixture();
    assert!(get_value(&root, "").is_err());
    assert!(get_value(&root, "mcp..upstreams").is_err());
}

#[test]
fn path_errors_name_the_path() {
    let err = parse_path("   ").unwrap_err();
    assert_eq!(err.message(), "config path cannot be empty");
    let err = parse_path("a..b").unwrap_err();
    assert_eq!(err.message(), "config path `a..b` has an empty segment");
    assert_eq!(parse_path("a.b.c").unwrap(), vec!["a", "b", "c"]);
}

#[test]
fn set_value_refuses_to_descend_into_a_scalar() {
    let mut root = fixture();
    let err = set_value(&mut root, "mcp.upstreams.git.command.inner", "x").unwrap_err();
    assert_eq!(err.kind(), "invalid_config");
    assert_eq!(
        err.message(),
        "cannot descend into non-table value at segment `command`"
    );
    assert_eq!(
        as_str(&get_value(&root, "mcp.upstreams.git.command").unwrap().unwrap()),
        Some("git-mcp")
    );
    let mut scalar = ConfigValue::Integer(3);
    let err = set_value(&mut scalar, "a", "1").unwrap_err();
    assert_eq!(err.message(), "cannot descend into non-table value at segment `a`");
}

#[test]
fn set_keeps_sibling_keys() {
    let mut root = fixture();
    set_value(&mut root, "mcp.upstreams.git.command", "other").unwrap();
    assert_eq!(
        as_str(&get_value(&root, "mcp.upstreams.fs.command").unwrap().unwrap()),
        Some("fs-mcp")
    );
    assert_eq!(
        as_str(&get_value(&root, "mcp.upstreams.git.transport").unwrap().unwrap()),
        Some("stdio")
    );
}

#[test]
fn typed_values_follow_json() {
    assert!(matches!(parse_scalar_value("42").unwrap(), ConfigValue::Integer(42)));
    assert!(matches!(parse_scalar_value("-7").unwrap(), ConfigValue::Integer(-7)));
    match parse_scalar_value("1.5").unwrap() {
        ConfigValue::Float(t) => assert_eq!(t, "1.5"),
        other => panic!("unexpected {other:?}"),
    }
    match parse_scalar_value("plain words").unwrap() {
        ConfigValue::String(t) => assert_eq!(t, "plain words"),
        other => panic!("unexpected {other:?}"),
    }
    match parse_scalar_value("\"quoted\"").unwrap() {
        ConfigValue::String(t) => assert_eq!(t, "quoted"),
        other => panic!("unexpected {other:?}"),
    }
    let err = parse_scalar_value("[1, null]").unwrap_err();
    assert_eq!(err.message(), "null is not representable in config TOML");
    let err = parse_scalar_value("null").unwrap_err();
    assert_eq!(
        err.message(),
        "cannot set value to null; use `config unset` to remove a key"
    );
}

#[test]
fn json_objects_become_tables() {
    let object = JsonValue::Object(vec![
        ("b".to_string(), JsonValue::Bool(true)),
        ("a".to_string(), JsonValue::Number(Some(1), "1".to_string())),
        ("b".to_string(), JsonValue::String("last".to_string())),
    ]);
    match json_to_toml(&object).unwrap() {
        ConfigValue::Table(t) => {
            assert_eq!(t.len(), 2);
            assert_eq!(t[0].0, "b");
            assert_eq!(as_str(&t[0].1), Some("last"));
            assert!(matches!(t[1].1, ConfigValue::Integer(1)));
        }
        other => panic!("unexpected {other:?}"),
    }
    let big = JsonValue::Number(None, "18446744073709551615".to_string());
    match json_to_toml(&big).unwrap() {
        ConfigValue::Float(t) => assert_eq!(t, "18446744073709551615"),
        other => panic!("unexpected {other:?}"),
    }
    assert!(json_to_toml(&JsonValue::Array(vec![JsonValue::Null])).is_err());
}

#[test]
fn parsed_json_decides_the_stored_value() {
    let mut root = empty_table();
    set_value_parsed(&mut root, "a.b", "true", Some(JsonValue::Bool(true))).unwrap();
    assert_eq!(as_bool(&get_value(&root, "a.b").unwrap().unwrap()), Some(true));
    set_value_parsed(&mut root, "a.c", "true", None).unwrap();
    assert_eq!(as_str(&get_value(&root, "a.c").unwrap().unwrap()), Some("true"));
    assert!(scalar_from_json("null", Some(JsonValue::Null)).is_err());
}

#[test]
fn config_set_creates_file_and_get_reads_it_back() {
    let existing = r#"
        [mcp.upstreams.git]
        transport = "stdio"
        command = "git-mcp"
        "#;
    let plan = config_set(Some(existing), "mcp.upstreams.git.command", "git-mcp-v2").expect("set");
    let got = config_get(Some(plan.content.as_str()), "mcp.upstreams.git.command").expect("get");
    assert_eq!(got.key, "mcp.upstreams.git.command");
    assert_eq!(as_str(got.value.as_ref().unwrap()), Some("git-mcp-v2"));
}

#[test]
fn config_set_allows_partial_upstream_with_validation_warning() {
    let plan = config_set(None, "mcp.upstreams.new.transport", "stdio")
        .expect("set succeeds even partial");
    assert!(plan.content.contains("transport = \"stdio\""));
}

#[test]
fn config_unset_removes_optional_field() {
    let existing = r#"
        [mcp.upstreams.fs]
        transport = "stdio"
        command = "fs-mcp"
        args = ["--root", "/tmp"]
        "#;
    let plan = config_unset(Some(existing), "mcp.upstreams.fs.args").expect("unset");
    assert!(plan.removed);
    let content = plan.content.expect("new text");
    let after = config_get(Some(content.as_str()), "mcp.upstreams.fs.args").expect("get");
    assert!(after.value.is_none());
}

#[test]
fn config_unset_leaves_the_text_when_nothing_is_removed() {
    let existing = "[mcp.upstreams.fs]\ncommand = \"fs-mcp\"\n";
    let plan = config_unset(Some(existing), "mcp.upstreams.fs.cwd").expect("unset");
    assert!(!plan.removed);
    assert!(plan.content.is_none());
}

#[test]
fn unreadable_documents_are_parse_errors() {
    let err = config_list(Some("not = [valid")).unwrap_err();
    assert_eq!(err.kind(), "parse_error");
    match config_list(None).unwrap() {
        ConfigValue::Table(t) => assert!(t.is_empty()),
        other => panic!("unexpected {other:?}"),
    }
}

#[test]
fn documents_round_trip_through_text() {
    let root = fixture();
    let text = write_document(&root).unwrap();
    let again = load_or_empty_toml(Some(text.as_str())).unwrap();
    assert_eq!(
        as_str(&get_value(&again, "mcp.upstreams.fs.command").unwrap().unwrap()),
        Some("fs-mcp")
    );
    let mut float_doc = empty_table();
    set_value(&mut float_doc, "x", "2.5").unwrap();
    let text = write_document(&float_doc).unwrap();
    assert!(text.contains("x = 2.5"));
}

#[test]
fn unset_keeps_sibling_keys() {
    let mut root = fixture();
    assert!(unset_value(&mut root, "mcp.upstreams.fs.args").unwrap());
    assert_eq!(
        as_str(&get_value(&root, "mcp.upstreams.fs.command").unwrap().unwrap()),
        Some("fs-mcp")
    );
    assert!(unset_value(&mut root, "mcp.upstreams.git").unwrap());
    assert!(get_value(&root, "mcp.upstreams.git.command").unwrap().is_none());
    assert_eq!(
        as_str(&get_value(&root, "mcp.upstreams.fs.transport").unwrap().unwrap()),
        Some("stdio")
    );
}
