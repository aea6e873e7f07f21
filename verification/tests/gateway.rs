use agentcast::acp::{AcpError, AcpEventKind};
use agentcast::api::{
    accepts_mcp_response, bounded_limit, is_json_rpc_initialize_request, is_json_rpc_notification,
    last_event_id, mcp_transport_rejection, next_sse_event_id, parse_optional_scope, parse_u64,
    public_origin, session_id, status_code, valid_origin, valid_protocol_version,
    valid_session_id, validate_mcp_transport_headers, ApiErrorResponse, McpTransportRejection,
    OAuthApiStatus, OAuthCallbackRequest, OAuthClientRegistrationResponse,
    OAuthRefreshHttpRequest, OAuthStatusResponse, ResponseStatus,
};
use agentcast::cli_view::{GatewayActionRow, GatewayCliView, GatewaySearchRow, ProtectedRouteRow};
use agentcast::fleet::{
    crate_boundary, CapabilityKind, CapabilitySummary, ExecutionTarget, FleetHeartbeat,
    FleetStatus, NodeId,
};
use agentcast::flows::{
    CallbackAction, CallbackEvent, CallbackState, RefreshAction, RefreshEvent, RefreshState,
};
use agentcast::oauth::{OAuthClientRegistration, OAuthStatus};
use agentcast::sessions::{McpSessions, RefreshLocks, MAX_MCP_SESSIONS, MCP_SESSION_TTL_SECS};
use agentcast::vocabulary::{stable_id, ActionRisk, CoreErrorKind, ErrorInfo, StableId};

#[test]
fn status_response_contains_no_tokens() {
    let response = OAuthStatusResponse::from_status("user-1", "github", OAuthStatus::RefreshFailed);

    assert_eq!(response.subject, "user-1");
    assert_eq!(response.upstream_id, "github");
    assert_eq!(response.status, OAuthApiStatus::RefreshFailed);
}

#[test]
fn refresh_locks_reject_duplicate_until_guard_drops() {
    let mut locks = RefreshLocks::new();
    let guard = locks
        .try_acquire("user-1".to_string(), "fixture".to_string())
        .expect("first lock");

    assert!(
        locks
            .try_acquire("user-1".to_string(), "fixture".to_string())
            .is_none()
    );
    assert!(
        locks
            .try_acquire("user-2".to_string(), "fixture".to_string())
            .is_some()
    );

    locks.release(guard);
    assert!(
        locks
            .try_acquire("user-1".to_string(), "fixture".to_string())
            .is_some()
    );
}

#[test]
fn api_errors_use_typed_envelope() {
    let response = ApiErrorResponse::bad_request("scope is invalid".to_string());
    assert_eq!(response.status, 400);

    let body = response.envelope();
    assert_eq!(body.error.code, "bad_request");
    assert_eq!(body.error.message, "scope is invalid");
    assert_eq!(ApiErrorResponse::bad_gateway("x".into()).status, 502);
    assert_eq!(ApiErrorResponse::not_found("x".into()).code, "not_found");
}

#[test]
fn optional_scopes_parse_or_fail_as_bad_request() {
    assert!(parse_optional_scope(None).unwrap().is_none());
    let set = parse_optional_scope(Some("b a")).unwrap().unwrap();
    assert_eq!(set.as_slice(), &["a", "b"]);
    let err = parse_optional_scope(Some("a  b")).unwrap_err();
    assert_eq!(err.status, 400);
    assert_eq!(err.message, "scope string contains an empty segment");
}

#[test]
fn registration_response_hides_the_secret() {
    let response = OAuthClientRegistrationResponse::from_registration(OAuthClientRegistration {
        subject: "u".into(),
        upstream_id: "g".into(),
        client_id: "c".into(),
        client_secret: Some("s".into()),
        client_id_issued_at_unix: Some(1),
        client_secret_expires_at_unix: None,
    });
    assert!(response.has_client_secret);
    assert_eq!(response.client_id, "c");
    assert_eq!(response.client_id_issued_at_unix, Some(1));
}

#[test]
fn transport_headers_are_checked_in_order() {
    assert!(accepts_mcp_response(Some("application/json")));
    assert!(accepts_mcp_response(Some("text/html, text/event-stream;q=0.9")));
    assert!(accepts_mcp_response(Some(" */* ")));
    assert!(!accepts_mcp_response(Some("text/html")));
    assert!(!accepts_mcp_response(None));
    assert!(valid_protocol_version(None));
    assert!(valid_protocol_version(Some("2025-11-25")));
    assert!(!valid_protocol_version(Some("2024-01-01")));
    assert!(valid_origin(None, None));
    assert!(valid_origin(Some("https://a"), Some("https://a")));
    assert!(!valid_origin(Some("https://a"), None));
    assert!(valid_session_id("abc-123"));
    assert!(!valid_session_id(""));
    assert!(!valid_session_id("has space"));
    assert!(!valid_session_id("é"));
    assert_eq!(session_id(Some("bad id")), Err(McpTransportRejection::InvalidSessionId));
    assert_eq!(session_id(Some("ok")).unwrap().as_deref(), Some("ok"));
    assert_eq!(
        validate_mcp_transport_headers(Some("https://x"), Some("https://y"), None, None, None),
        Err(McpTransportRejection::ForbiddenOrigin)
    );
    assert_eq!(
        validate_mcp_transport_headers(None, None, Some("text/html"), None, None),
        Err(McpTransportRejection::NotAcceptable)
    );
    assert_eq!(
        validate_mcp_transport_headers(None, None, Some("application/json"), Some("1"), None),
        Err(McpTransportRejection::UnsupportedProtocolVersion)
    );
    assert_eq!(
        validate_mcp_transport_headers(None, None, Some("application/json"), None, Some("")),
        Err(McpTransportRejection::InvalidSessionId)
    );
    assert_eq!(
        validate_mcp_transport_headers(None, None, Some("application/json"), None, Some("s1")),
        Ok(())
    );
}

#[test]
fn rejections_map_to_status_and_codes() {
    let (status, body) = mcp_transport_rejection(McpTransportRejection::NotAcceptable);
    assert_eq!(status, 406);
    assert_eq!(body.error.code, "not_acceptable");
    let (status, body) = mcp_transport_rejection(McpTransportRejection::UnknownSessionId);
    assert_eq!(status, 404);
    assert_eq!(body.error.message, "unknown MCP session id");
    let (status, body) = mcp_transport_rejection(McpTransportRejection::ForbiddenOrigin);
    assert_eq!((status, body.error.code.as_str()), (403, "forbidden"));
    let (status, body) = mcp_transport_rejection(McpTransportRejection::InvalidSessionId);
    assert_eq!((status, body.error.code.as_str()), (400, "bad_request"));
    assert_eq!(status_code(ResponseStatus::Success), 200);
    assert_eq!(status_code(ResponseStatus::Forbidden), 403);
}

#[test]
fn limits_event_ids_and_origins() {
    assert_eq!(bounded_limit(None, 10), 10);
    assert_eq!(bounded_limit(Some(0), 10), 1);
    assert_eq!(bounded_limit(Some(500), 20), 100);
    assert_eq!(next_sse_event_id("41"), "42");
    assert_eq!(next_sse_event_id("+7"), "8");
    assert_eq!(next_sse_event_id("abc"), "1");
    assert_eq!(next_sse_event_id("18446744073709551615"), "1");
    assert_eq!(next_sse_event_id("18446744073709551616"), "1");
    assert_eq!(parse_u64("007"), Some(7));
    assert_eq!(parse_u64("+"), None);
    assert_eq!(last_event_id(Some("12")), "12");
    assert_eq!(last_event_id(Some("")), "0");
    assert_eq!(last_event_id(None), "0");
    assert_eq!(public_origin(None, Some("mcp.example.test")), "http://mcp.example.test");
    assert_eq!(public_origin(Some("https"), None), "https://");
    assert!(is_json_rpc_notification(Some("2.0"), false, Some("notifications/initialized")));
    assert!(!is_json_rpc_notification(Some("2.0"), true, Some("ping")));
    assert!(is_json_rpc_initialize_request(Some("2.0"), true, Some("initialize")));
    assert!(!is_json_rpc_initialize_request(Some("1.0"), true, Some("initialize")));
}

#[test]
fn sessions_expire_and_stay_bounded() {
    let mut sessions = McpSessions::new();
    sessions.insert("a".to_string(), 100);
    assert!(sessions.contains("a", 100));
    assert!(sessions.contains("a", 100 + MCP_SESSION_TTL_SECS - 1));
    assert!(!sessions.contains("a", 100 + MCP_SESSION_TTL_SECS));
    sessions.insert("b".to_string(), 100 + MCP_SESSION_TTL_SECS);
    assert_eq!(sessions.len(), 1);
    assert!(sessions.remove("b"));
    assert!(!sessions.remove("b"));
    for i in 0..MAX_MCP_SESSIONS {
        sessions.insert(format!("s{i:05}"), 10 + i as u64);
    }
    assert_eq!(sessions.len(), MAX_MCP_SESSIONS);
    sessions.insert("late".to_string(), 1033);
    assert_eq!(sessions.len(), MAX_MCP_SESSIONS);
    assert!(!sessions.contains("s00000", 1033));
    assert!(sessions.contains("s00001", 1033));
    assert!(sessions.contains("late", 1033));
    sessions.prune_expired(1811);
    assert!(!sessions.contains("s00001", 1811));
    assert!(sessions.contains("s00002", 1811));
}

fn refresh_request(result: bool, endpoint: bool) -> OAuthRefreshHttpRequest {
    OAuthRefreshHttpRequest {
        subject: "user-1".into(),
        upstream_id: "github".into(),
        now_unix: 10,
        token_endpoint: if endpoint { Some("https://t".into()) } else { None },
        client_id: if endpoint { Some("c".into()) } else { None },
        client_secret: None,
        result: if result {
            Some(agentcast::oauth::OAuthRefreshResult {
                access_token: "a".into(),
                refresh_token: None,
                scopes: None,
                expires_at_unix: 100,
            })
        } else {
            None
        },
    }
}

#[test]
fn refresh_flow_reports_status_when_locked_out() {
    let req = refresh_request(false, true);
    let (s, a) = req.refresh_step(RefreshState::Start, RefreshEvent::Started);
    assert_eq!(a, RefreshAction::TryLock);
    let (s, a) = req.refresh_step(s, RefreshEvent::Lock(false));
    assert_eq!(a, RefreshAction::ReadStatus);
    let (s, a) = req.refresh_step(s, RefreshEvent::Status(Ok(OAuthStatus::Connected)));
    assert_eq!(s, RefreshState::Done);
    assert_eq!(a, RefreshAction::Reply(Ok(OAuthStatus::Connected)));
}

#[test]
fn refresh_flow_runs_a_live_refresh_and_records_failures() {
    let req = refresh_request(false, true);
    let (s, _) = req.refresh_step(RefreshState::Start, RefreshEvent::Started);
    let (s, a) = req.refresh_step(s, RefreshEvent::Lock(true));
    assert_eq!(a, RefreshAction::MakeEndpoint);
    let (s, a) = req.refresh_step(s, RefreshEvent::Endpoint(Ok(())));
    assert_eq!(a, RefreshAction::BeginRefresh);
    let (s, a) = req.refresh_step(s, RefreshEvent::Begun(Ok(true)));
    assert_eq!(a, RefreshAction::Exchange);
    let (s2, a) = req.refresh_step(s.clone(), RefreshEvent::Exchanged(Ok(())));
    assert_eq!(a, RefreshAction::FinishRefresh);
    let (_, a) = req.refresh_step(s2, RefreshEvent::Status(Ok(OAuthStatus::Connected)));
    assert_eq!(a, RefreshAction::Reply(Ok(OAuthStatus::Connected)));
    let (s3, a) = req.refresh_step(s, RefreshEvent::Exchanged(Err("denied".into())));
    assert_eq!(a, RefreshAction::MarkRefreshFailed);
    let (_, a) = req.refresh_step(s3, RefreshEvent::Marked(Ok(())));
    assert_eq!(a, RefreshAction::Reply(Err(ApiErrorResponse::bad_request("denied".into()))));
}

#[test]
fn refresh_flow_needs_an_endpoint_without_a_result() {
    let req = refresh_request(false, false);
    let (s, _) = req.refresh_step(RefreshState::Start, RefreshEvent::Started);
    let (_, a) = req.refresh_step(s, RefreshEvent::Lock(true));
    assert_eq!(
        a,
        RefreshAction::Reply(Err(ApiErrorResponse::bad_request(
            "token_endpoint and client_id are required for live OAuth refresh".into()
        )))
    );
    let with_result = refresh_request(true, false);
    let (s, a) = with_result.refresh_step(RefreshState::Locking, RefreshEvent::Lock(true));
    assert_eq!(a, RefreshAction::RefreshWithResult);
    let (_, a) = with_result.refresh_step(s, RefreshEvent::Status(Err("no credential".into())));
    assert_eq!(a, RefreshAction::Reply(Err(ApiErrorResponse::bad_request("no credential".into()))));
    let (_, a) = req.refresh_step(RefreshState::Beginning, RefreshEvent::Begun(Ok(false)));
    assert_eq!(a, RefreshAction::Reply(Ok(OAuthStatus::RefreshFailed)));
}

#[test]
fn callback_flow_exchanges_a_code_or_stores_a_credential() {
    let mut req = OAuthCallbackRequest {
        state: "s".into(),
        subject: "u".into(),
        code: "c".into(),
        credential: None,
        now_unix: 1,
        token_endpoint: Some("https://t".into()),
        client_id: Some("id".into()),
        client_secret: None,
        redirect_uri: Some("https://r".into()),
        code_verifier: Some("v".into()),
    };
    let (s, a) = req.callback_step(CallbackState::Start, CallbackEvent::Started);
    assert_eq!(a, CallbackAction::MakeEndpoint);
    let (s, a) = req.callback_step(s, CallbackEvent::Outcome(Ok(())));
    assert_eq!(a, CallbackAction::BeginExchange);
    let (s, a) = req.callback_step(s, CallbackEvent::Outcome(Ok(())));
    assert_eq!(a, CallbackAction::ExchangeCode);
    let (s, a) = req.callback_step(s, CallbackEvent::Outcome(Ok(())));
    assert_eq!(a, CallbackAction::FinishExchange);
    let (s, a) = req.callback_step(s, CallbackEvent::Outcome(Ok(())));
    assert_eq!((s, a), (CallbackState::Done, CallbackAction::Reply(Ok(()))));
    let (_, a) = req.callback_step(CallbackState::Exchanging, CallbackEvent::Outcome(Err("bad code".into())));
    assert_eq!(a, CallbackAction::Reply(Err(ApiErrorResponse::bad_request("bad code".into()))));
    req.redirect_uri = None;
    let (_, a) = req.callback_step(CallbackState::Start, CallbackEvent::Started);
    assert_eq!(
        a,
        CallbackAction::Reply(Err(ApiErrorResponse::bad_request(
            "token_endpoint, client_id, redirect_uri, and code_verifier are required for live OAuth callback exchange".into()
        )))
    );
}

#[test]
fn oauth_status_row_is_redacted_status_only() {
    let row = GatewayCliView::oauth_status("user-1", "github", OAuthStatus::Connected);

    assert_eq!(row.subject, "user-1");
    assert_eq!(row.upstream_id, "github");
    assert_eq!(row.status, "connected");
    assert_eq!(
        GatewayCliView::oauth_status("u", "g", OAuthStatus::RefreshFailed).status,
        "refreshfailed"
    );
}

#[test]
fn renders_human_action_and_search_tables() {
    let actions = vec![GatewayActionRow {
        id: "mcp:fixture:echo".to_string(),
        name: "Echo".to_string(),
        description: Some("Repeat text".to_string()),
    }];
    let search = vec![GatewaySearchRow {
        action_id: "mcp:fixture:echo".to_string(),
        name: "Echo".to_string(),
        score: 100,
        match_kind: "Name".to_string(),
        matched_fields: vec!["Name".to_string()],
        matched_terms: vec!["echo".to_string()],
        summary: Some("Repeat text".to_string()),
        truncated: false,
    }];

    let action_table = GatewayCliView::render_actions_table(&actions);
    let search_table = GatewayCliView::render_search_table(&search);

    assert!(action_table.contains("ACTION ID"));
    assert!(action_table.contains("mcp:fixture:echo"));
    assert!(search_table.contains("SCORE"));
    assert!(search_table.contains("100"));
    assert!(search_table.contains("Repeat text"));
}

#[test]
fn tables_pad_columns_to_their_widest_cell() {
    let actions = vec![GatewayActionRow {
        id: "a".to_string(),
        name: "Name that is long".to_string(),
        description: None,
    }];
    assert_eq!(
        GatewayCliView::render_actions_table(&actions),
        "ACTION ID  NAME               DESCRIPTION\n---------  -----------------  -----------\na          Name that is long"
    );
    let route = ProtectedRouteRow {
        name: "syslog".into(),
        resource_uri: "https://r".into(),
        metadata_path: "/m".into(),
        required_scopes: vec!["a".into(), "b".into()],
        target: "upstream_mcp:syslog".into(),
    };
    let table = GatewayCliView::render_protected_route(&route);
    assert!(table.contains("a b"));
    assert!(table.ends_with("upstream_mcp:syslog"));
}

#[test]
fn renders_human_status_rows_without_secret_fields() {
    let status = GatewayCliView::oauth_status("user-1", "github", OAuthStatus::Connected);
    let output = GatewayCliView::render_oauth_status(&status);

    assert!(output.contains("SUBJECT"));
    assert!(output.contains("connected"));
    assert!(!output.contains("token"));
}

#[test]
fn degraded_nodes_are_still_available_targets() {
    let degraded = FleetHeartbeat::new(
        NodeId::new("node-1".to_string()),
        FleetStatus::Degraded,
        "2026-05-15T12:00:00Z".to_string(),
    );
    let offline = FleetHeartbeat::new(
        NodeId::new("node-2".to_string()),
        FleetStatus::Offline,
        "2026-05-15T12:00:00Z".to_string(),
    );

    assert!(degraded.is_available());
    assert!(!offline.is_available());
}

#[test]
fn heartbeats_collect_capabilities_and_targets_narrow() {
    let heartbeat = FleetHeartbeat::new(
        NodeId::new("node-1".to_string()),
        FleetStatus::Online,
        "2026-05-15T12:00:00Z".to_string(),
    )
    .with_capability(
        CapabilitySummary::new(CapabilityKind::McpRuntime, "mcp_stdio".to_string())
            .with_version("1".to_string()),
    );
    assert_eq!(heartbeat.capabilities.len(), 1);
    assert_eq!(heartbeat.capabilities[0].version.as_deref(), Some("1"));
    let target = ExecutionTarget::node(NodeId::new("n".to_string())).capability("mcp".to_string());
    assert_eq!(target.capability_name.as_deref(), Some("mcp"));
    assert_eq!(crate_boundary(), "agent-fleet");
}

#[test]
fn error_kind_strings_are_stable() {
    let error = ErrorInfo::new(CoreErrorKind::Conflict, "already exists".to_string());
    assert_eq!(error.kind_str(), "conflict");
    assert_eq!(AcpError::Conversion("x".into()).kind(), "acp_conversion");
    assert_eq!(AcpError::InvalidCommand("y".into()).message(), "ACP session command invalid: y");
    assert_ne!(AcpEventKind::Unknown, AcpEventKind::ToolCall);
}

#[test]
fn stable_ids_join_lowercase_words() {
    let parts = vec!["MCP".to_string(), " Git Hub!".to_string(), "___".to_string(), "status".to_string()];
    assert_eq!(stable_id(&parts).as_str(), "mcp:git_hub:status");
    assert_eq!(StableId::new("x".to_string()).as_str(), "x");
    assert_eq!(ActionRisk::default(), ActionRisk::ReadOnly);
}

#[test]
fn stable_ids_use_only_word_characters_and_colons() {
    let parts = vec![
        "MCP".to_string(),
        "File System".to_string(),
        "read-file!".to_string(),
        "--".to_string(),
    ];
    let id = stable_id(&parts);
    assert_eq!(id.as_str(), "mcp:file_system:read_file");
    assert!(id
        .as_str()
        .chars()
        .all(|c| c.is_ascii_lowercase() || c.is_ascii_digit() || c == '_' || c == ':'));
    assert_eq!(id.as_str().split(':').count(), 3);
}
