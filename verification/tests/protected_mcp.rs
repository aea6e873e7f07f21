use agentcast::api::{
    protected_mcp_decision, ProtectedMcpRequest, ProtectedMcpResponse, ProtectedRouteTarget,
    ResolvedProtectedRoute, ResponseStatus,
};
use agentcast::bearer::{BearerClaims, StaticBearerTokenVerifier};
use agentcast::challenge::ProtectedResourceMetadata;
use agentcast::mcp_json::McpServerId;
use agentcast::api::McpTransportRejection;
use agentcast::protected::{
    protected_delete_session, protected_json_rpc_admit, protected_json_rpc_reply,
    protected_sse_get_step, validate_known_session, DeleteSessionReply, JsonRpcOutcome,
    JsonRpcReply, SseGetReply,
};
use agentcast::scope::ScopeSet;
use agentcast::sessions::McpSessions;

/// How the route index of the fixture resolves a request: the `syslog`
/// route at `mcp.example.test/syslog`, its metadata document under
/// `/.well-known/oauth-protected-resource/syslog`.
fn resolve(request: &ProtectedMcpRequest) -> (Option<ProtectedResourceMetadata>, Option<ResolvedProtectedRoute>) {
    let scopes = ScopeSet::parse("mcp:read").expect("scope");
    if request.host != "mcp.example.test" {
        return (None, None);
    }
    if request.path == "/.well-known/oauth-protected-resource/syslog" {
        return (
            Some(ProtectedResourceMetadata {
                resource: "https://mcp.example.test/syslog".to_string(),
                authorization_servers: vec!["https://auth.example.test".to_string()],
                scopes_supported: scopes,
                bearer_methods_supported: vec!["header".to_string()],
            }),
            None,
        );
    }
    if request.path == "/syslog" || request.path.starts_with("/syslog/") {
        return (
            None,
            Some(ResolvedProtectedRoute {
                resource_uri: "https://mcp.example.test/syslog".to_string(),
                resource_metadata: format!(
                    "{}/.well-known/oauth-protected-resource/syslog",
                    request.public_origin
                ),
                required_scopes: scopes,
                target: ProtectedRouteTarget::UpstreamMcp { server_id: McpServerId::new("syslog") },
            }),
        );
    }
    (None, None)
}

fn request(path: &str, authorization: Option<&str>) -> ProtectedMcpRequest {
    ProtectedMcpRequest {
        host: "mcp.example.test".to_string(),
        path: path.to_string(),
        public_origin: "https://mcp.example.test".to_string(),
        authorization: authorization.map(str::to_string),
    }
}

/// The fixture verifier: claims written in the token itself.
fn handle_with_fixture_verifier(request: ProtectedMcpRequest) -> ProtectedMcpResponse {
    let (metadata, route) = resolve(&request);
    let claims = request
        .authorization
        .as_deref()
        .and_then(|h| BearerClaims::from_authorization_header(h).ok());
    protected_mcp_decision(metadata, route, claims)
}

fn handle_with_verifier(request: ProtectedMcpRequest, verifier: &StaticBearerTokenVerifier) -> ProtectedMcpResponse {
    let (metadata, route) = resolve(&request);
    let claims = request.authorization.as_deref().and_then(|h| verifier.verify(h).ok());
    protected_mcp_decision(metadata, route, claims)
}

#[test]
fn static_bearer_verifier_authorizes_opaque_tokens() {
    let verifier = StaticBearerTokenVerifier::new(vec![(
        "opaque-token".to_string(),
        BearerClaims {
            subject: "user-1".to_string(),
            audience: "https://mcp.example.test/syslog".to_string(),
            scopes: ScopeSet::parse("mcp:read").expect("scope"),
        },
    )]);
    let response = handle_with_verifier(request("/syslog", Some("Bearer opaque-token")), &verifier);

    let ProtectedMcpResponse::DispatchAllowed { status, subject, .. } = response else {
        panic!("expected dispatch");
    };
    assert_eq!(status, ResponseStatus::Accepted);
    assert_eq!(subject, "user-1");
}

#[test]
fn default_verifier_rejects_fixture_shaped_authorization_header() {
    let response = handle_with_verifier(
        request(
            "/syslog",
            Some("Bearer sub=user-1;aud=https://mcp.example.test/syslog;scope=mcp:read"),
        ),
        &StaticBearerTokenVerifier::empty(),
    );

    let ProtectedMcpResponse::Challenge { status, .. } = response else {
        panic!("expected challenge");
    };
    assert_eq!(status, ResponseStatus::Unauthorized);
}

#[test]
fn fixture_verifier_must_be_selected_explicitly() {
    let response = handle_with_fixture_verifier(request(
        "/syslog",
        Some("Bearer sub=user-1;aud=https://mcp.example.test/syslog;scope=mcp:read"),
    ));

    let ProtectedMcpResponse::DispatchAllowed { status, subject, .. } = response else {
        panic!("expected dispatch");
    };
    assert_eq!(status, ResponseStatus::Accepted);
    assert_eq!(subject, "user-1");
}

#[test]
fn metadata_request_returns_protected_resource_metadata() {
    let response =
        handle_with_fixture_verifier(request("/.well-known/oauth-protected-resource/syslog", None));

    let ProtectedMcpResponse::Metadata { status, metadata } = response else {
        panic!("expected metadata");
    };
    assert_eq!(status, ResponseStatus::Success);
    assert_eq!(metadata.resource, "https://mcp.example.test/syslog");
}

#[test]
fn missing_bearer_on_a_route_returns_unauthorized_challenge() {
    let response = handle_with_fixture_verifier(request("/syslog", None));

    let ProtectedMcpResponse::Challenge { status, www_authenticate } = response else {
        panic!("expected challenge");
    };
    assert_eq!(status, ResponseStatus::Unauthorized);
    assert!(www_authenticate.contains("resource_metadata="));
    assert_eq!(
        www_authenticate,
        "Bearer resource_metadata=\"https://mcp.example.test/.well-known/oauth-protected-resource/syslog\""
    );
}

#[test]
fn insufficient_scope_returns_forbidden_challenge() {
    let response = handle_with_fixture_verifier(request(
        "/syslog",
        Some("Bearer sub=user-1;aud=https://mcp.example.test/syslog;scope=mcp:write"),
    ));

    let ProtectedMcpResponse::Challenge { status, www_authenticate } = response else {
        panic!("expected challenge");
    };
    assert_eq!(status, ResponseStatus::Forbidden);
    assert!(www_authenticate.contains("insufficient_scope"));
}

#[test]
fn authorized_request_returns_dispatch_target() {
    let response = handle_with_fixture_verifier(request(
        "/syslog/tools/list",
        Some("Bearer sub=user-1;aud=https://mcp.example.test/syslog;scope=mcp:read"),
    ));

    let ProtectedMcpResponse::DispatchAllowed { status, subject, target } = response else {
        panic!("expected dispatch");
    };
    assert_eq!(status, ResponseStatus::Accepted);
    assert_eq!(subject, "user-1");
    assert_eq!(target, ProtectedRouteTarget::UpstreamMcp { server_id: McpServerId::new("syslog") });
}

#[test]
fn unknown_routes_are_not_found() {
    let response = handle_with_fixture_verifier(request("/other", None));
    assert_eq!(response, ProtectedMcpResponse::NotFound { status: ResponseStatus::NotFound });
}

fn allowed() -> ProtectedMcpResponse {
    handle_with_fixture_verifier(request(
        "/syslog",
        Some("Bearer sub=user-1;aud=https://mcp.example.test/syslog;scope=mcp:read"),
    ))
}

#[test]
fn known_sessions_are_checked_after_pruning() {
    let mut sessions = McpSessions::new();
    sessions.insert("abc".to_string(), 100);
    assert_eq!(validate_known_session(None, &mut sessions, 100), Ok(()));
    assert_eq!(validate_known_session(Some("abc"), &mut sessions, 200), Ok(()));
    assert_eq!(
        validate_known_session(Some("zzz"), &mut sessions, 200),
        Err(McpTransportRejection::UnknownSessionId)
    );
    assert_eq!(
        validate_known_session(Some("bad id!"), &mut sessions, 200),
        Err(McpTransportRejection::InvalidSessionId)
    );
    assert_eq!(
        validate_known_session(Some("abc"), &mut sessions, 100 + 1800),
        Err(McpTransportRejection::UnknownSessionId)
    );
    assert_eq!(sessions.len(), 0);
}

#[test]
fn json_rpc_notifications_get_no_body_and_initialize_opens_a_session() {
    assert_eq!(
        protected_json_rpc_admit(Err(McpTransportRejection::NotAcceptable), Ok(())),
        Err(McpTransportRejection::NotAcceptable)
    );
    assert_eq!(
        protected_json_rpc_admit(Ok(()), Err(McpTransportRejection::UnknownSessionId)),
        Err(McpTransportRejection::UnknownSessionId)
    );
    assert_eq!(
        protected_json_rpc_reply(JsonRpcOutcome::JsonRpc { has_result: true }, true, false),
        JsonRpcReply::Accepted
    );
    assert_eq!(
        protected_json_rpc_reply(JsonRpcOutcome::JsonRpc { has_result: true }, false, true),
        JsonRpcReply::Body { open_session: true }
    );
    assert_eq!(
        protected_json_rpc_reply(JsonRpcOutcome::JsonRpc { has_result: false }, false, true),
        JsonRpcReply::Body { open_session: false }
    );
    let refused = handle_with_fixture_verifier(request("/syslog", None));
    assert_eq!(
        protected_json_rpc_reply(JsonRpcOutcome::Rejected(refused.clone()), false, false),
        JsonRpcReply::Refused(refused)
    );
}

#[test]
fn event_stream_numbers_its_first_event_after_last_event_id() {
    let reply = protected_sse_get_step(Ok(()), Ok(()), allowed(), Some("s-1"), Some("41"), "/syslog");
    assert_eq!(
        reply,
        SseGetReply::Stream {
            session_id: Some("s-1".to_string()),
            event_id: "42".to_string(),
            data: "/syslog".to_string(),
        }
    );
    let reply = protected_sse_get_step(Ok(()), Ok(()), allowed(), None, Some("bad id!"), "/syslog");
    assert_eq!(
        reply,
        SseGetReply::Stream { session_id: None, event_id: "1".to_string(), data: "/syslog".to_string() }
    );
    let refused = handle_with_fixture_verifier(request("/syslog", None));
    assert_eq!(
        protected_sse_get_step(Ok(()), Ok(()), refused.clone(), None, None, "/syslog"),
        SseGetReply::Refused(refused)
    );
    assert_eq!(
        protected_sse_get_step(Err(McpTransportRejection::ForbiddenOrigin), Ok(()), allowed(), None, None, "/x"),
        SseGetReply::TransportRejected(McpTransportRejection::ForbiddenOrigin)
    );
}

#[test]
fn deleting_a_session_needs_an_open_session_id() {
    let mut sessions = McpSessions::new();
    sessions.insert("abc".to_string(), 100);
    assert_eq!(
        protected_delete_session(allowed(), None, &mut sessions),
        DeleteSessionReply::TransportRejected(McpTransportRejection::InvalidSessionId)
    );
    assert_eq!(protected_delete_session(allowed(), Some("abc"), &mut sessions), DeleteSessionReply::Deleted);
    assert_eq!(
        protected_delete_session(allowed(), Some("abc"), &mut sessions),
        DeleteSessionReply::TransportRejected(McpTransportRejection::UnknownSessionId)
    );
}
