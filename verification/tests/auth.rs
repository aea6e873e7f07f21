use agentcast::bearer::{AuthDecision, AuthorizedSubject, BearerClaims, BearerError, StaticBearerTokenVerifier};
use agentcast::challenge::AuthChallenge;
use agentcast::oauth::{
    validate_oauth_issuer_url, OAuthCallback, OAuthCredential, OAuthError, OAuthProviderMetadata,
    OAuthStatus, PendingOAuthState,
};
use agentcast::scope::{ScopeError, ScopeSet};

fn scopes(raw: &str) -> ScopeSet {
    ScopeSet::parse(raw).expect("valid scopes")
}

#[test]
fn parses_space_separated_scopes_in_sorted_order() {
    let scopes = ScopeSet::parse("mcp:write mcp:read mcp:read").expect("parse scopes");

    assert_eq!(scopes.as_slice(), &["mcp:read", "mcp:write"]);
}

#[test]
fn rejects_empty_scope_segments() {
    let error = ScopeSet::parse("mcp:read  ").expect_err("invalid scopes");

    assert_eq!(error.message(), "scope string contains an empty segment");
}

#[test]
fn required_scopes_must_all_be_present() {
    let granted = ScopeSet::parse("mcp:read mcp:write").expect("parse granted");
    let required = ScopeSet::parse("mcp:read").expect("parse required");
    let missing = ScopeSet::parse("mcp:admin").expect("parse missing");

    assert!(granted.contains_all(&required));
    assert!(!granted.contains_all(&missing));
}

#[test]
fn scope_with_unsupported_characters_is_named_in_the_error() {
    let error = ScopeSet::parse("mcp:read bad\"scope").expect_err("invalid scopes");
    assert_eq!(error, ScopeError::InvalidCharacters("bad\"scope".to_string()));
    assert_eq!(error.message(), "scope `bad\"scope` contains unsupported characters");
}

#[test]
fn empty_scope_string_is_the_empty_set() {
    let set = ScopeSet::parse("").expect("empty");
    assert!(set.is_empty());
    assert_eq!(set.as_header_value(), "");
}

#[test]
fn header_value_joins_sorted_scopes_with_spaces() {
    let set = ScopeSet::parse("b a c").expect("parse");
    assert_eq!(set.as_header_value(), "a b c");
    assert_eq!(ScopeSet::parse(&set.as_header_value()).expect("reparse"), set);
}

#[test]
fn from_scopes_sorts_and_checks_each_token() {
    let set = ScopeSet::from_scopes(vec!["z".to_string(), "a".to_string(), "z".to_string()])
        .expect("valid");
    assert_eq!(set.as_slice(), &["a", "z"]);
    assert!(ScopeSet::from_scopes(vec!["ok".to_string(), "no way".to_string()]).is_err());
}

#[test]
fn tests_missing_bearer_returns_unauthorized_challenge() {
    let decision = AuthDecision::authorize_route(
        None,
        "https://mcp.example.test/syslog",
        "https://mcp.example.test/.well-known/oauth-protected-resource/syslog",
        &scopes("mcp:read"),
    );

    let AuthDecision::Unauthorized(challenge) = decision else {
        panic!("expected unauthorized");
    };
    assert!(challenge.www_authenticate().contains("resource_metadata="));
}

#[test]
fn invalid_audience_is_unauthorized() {
    let claims = BearerClaims {
        subject: "user-1".to_string(),
        audience: "https://wrong.example.test/syslog".to_string(),
        scopes: scopes("mcp:read"),
    };

    let decision = AuthDecision::authorize_route(
        Some(&claims),
        "https://mcp.example.test/syslog",
        "https://mcp.example.test/.well-known/oauth-protected-resource/syslog",
        &scopes("mcp:read"),
    );

    assert!(matches!(decision, AuthDecision::Unauthorized(_)));
}

#[test]
fn missing_scope_is_forbidden_with_insufficient_scope() {
    let claims = BearerClaims {
        subject: "user-1".to_string(),
        audience: "https://mcp.example.test/syslog".to_string(),
        scopes: scopes("mcp:read"),
    };

    let decision = AuthDecision::authorize_route(
        Some(&claims),
        "https://mcp.example.test/syslog",
        "https://mcp.example.test/.well-known/oauth-protected-resource/syslog",
        &scopes("mcp:write"),
    );

    let AuthDecision::Forbidden(challenge) = decision else {
        panic!("expected forbidden");
    };
    assert_eq!(challenge.error(), Some("insufficient_scope"));
    assert!(challenge.www_authenticate().contains("scope=\"mcp:write\""));
}

#[test]
fn matching_audience_and_scope_authorizes_subject() {
    let claims = BearerClaims {
        subject: "user-1".to_string(),
        audience: "https://mcp.example.test/syslog".to_string(),
        scopes: scopes("mcp:read mcp:write"),
    };

    let decision = AuthDecision::authorize_route(
        Some(&claims),
        "https://mcp.example.test/syslog",
        "https://mcp.example.test/.well-known/oauth-protected-resource/syslog",
        &scopes("mcp:read"),
    );

    assert_eq!(
        decision,
        AuthDecision::Authorized(AuthorizedSubject {
            subject: "user-1".to_string()
        })
    );
    assert!(decision.is_authorized());
}

#[test]
fn parses_fixture_authorization_header_without_logging_token() {
    let claims = BearerClaims::from_authorization_header(
        "Bearer sub=user-1;aud=https://mcp.example.test/syslog;scope=mcp:read",
    )
    .expect("fixture claims");

    assert_eq!(claims.subject, "user-1");
    assert_eq!(claims.scopes.as_slice(), &["mcp:read"]);
}

#[test]
fn fixture_tokens_report_each_error() {
    assert_eq!(
        BearerClaims::from_authorization_header("Basic abc").unwrap_err(),
        BearerError::MissingBearerScheme
    );
    assert_eq!(
        BearerClaims::from_fixture_token("sub=user-1;garbage").unwrap_err(),
        BearerError::MalformedToken
    );
    assert_eq!(
        BearerClaims::from_fixture_token("aud=x").unwrap_err(),
        BearerError::MissingSubject
    );
    assert_eq!(
        BearerClaims::from_fixture_token("sub=x").unwrap_err(),
        BearerError::MissingAudience
    );
    assert_eq!(
        BearerClaims::from_fixture_token("sub=x;aud=y;scope=a  b").unwrap_err(),
        BearerError::Scope(ScopeError::EmptySegment)
    );
    let later = BearerClaims::from_fixture_token("sub=a;aud=y;sub=b;other=1").expect("claims");
    assert_eq!(later.subject, "b");
    assert!(later.scopes.is_empty());
    assert_eq!(BearerError::InvalidToken.message(), "bearer token is invalid");
}

#[test]
fn static_token_verifier_maps_opaque_token_to_claims() {
    let verifier = StaticBearerTokenVerifier::new(vec![(
        "opaque-token".to_string(),
        BearerClaims {
            subject: "user-1".to_string(),
            audience: "https://mcp.example.test/syslog".to_string(),
            scopes: scopes("mcp:read"),
        },
    )]);

    let claims = verifier.verify("Bearer opaque-token").expect("claims");

    assert_eq!(claims.subject, "user-1");
    assert_eq!(
        verifier.verify("Bearer wrong").unwrap_err(),
        BearerError::InvalidToken
    );
}

#[test]
fn static_token_verifier_uses_the_last_entry_of_a_token() {
    let claims = |s: &str| BearerClaims {
        subject: s.to_string(),
        audience: "aud".to_string(),
        scopes: ScopeSet::empty(),
    };
    let verifier = StaticBearerTokenVerifier::new(vec![
        ("t".to_string(), claims("first")),
        ("t".to_string(), claims("second")),
    ]);
    assert_eq!(verifier.verify("Bearer t").expect("claims").subject, "second");
    assert_eq!(verifier.verify("t").unwrap_err(), BearerError::MissingBearerScheme);
    assert_eq!(
        StaticBearerTokenVerifier::empty().verify("Bearer t").unwrap_err(),
        BearerError::InvalidToken
    );
}

#[test]
fn unauthorized_challenge_points_to_resource_metadata() {
    let challenge = AuthChallenge::unauthorized(
        "https://mcp.example.test/.well-known/oauth-protected-resource/syslog",
    );

    assert_eq!(
        challenge.www_authenticate(),
        "Bearer resource_metadata=\"https://mcp.example.test/.well-known/oauth-protected-resource/syslog\""
    );
}

#[test]
fn insufficient_scope_challenge_includes_required_scopes() {
    let scopes = ScopeSet::parse("mcp:read").expect("parse scopes");
    let challenge = AuthChallenge::insufficient_scope(
        "https://mcp.example.test/.well-known/oauth-protected-resource/syslog",
        scopes,
    );

    assert_eq!(
        challenge.www_authenticate(),
        "Bearer error=\"insufficient_scope\", resource_metadata=\"https://mcp.example.test/.well-known/oauth-protected-resource/syslog\", scope=\"mcp:read\""
    );
}

#[test]
fn oauth_probe_rejects_unsafe_urls() {
    for raw in [
        "http://auth.example.test",
        "https://user@auth.example.test",
        "https://auth.example.test/path?x=1",
        "https://auth.example.test/path#fragment",
        "https://localhost",
        "https://127.0.0.1",
        "https://10.0.0.1",
        "https://169.254.169.254",
        "https://metadata.google.internal",
    ] {
        assert_eq!(
            validate_oauth_issuer_url(raw).expect_err("unsafe"),
            OAuthError::UnsafeIssuerUrl
        );
    }
}

#[test]
fn oauth_probe_accepts_https_public_issuer() {
    let url = validate_oauth_issuer_url("https://auth.example.test/oauth").expect("safe url");

    assert_eq!(url.host.as_deref(), Some("auth.example.test"));
}

#[test]
fn oauth_probe_checks_more_unsafe_ranges() {
    for raw in [
        "https://192.168.1.1",
        "https://172.16.0.1",
        "https://255.255.255.255",
        "https://203.0.113.5",
        "https://LOCALHOST",
        "not a url",
    ] {
        assert_eq!(
            validate_oauth_issuer_url(raw).expect_err("unsafe"),
            OAuthError::UnsafeIssuerUrl
        );
    }
    assert!(validate_oauth_issuer_url("https://172.32.0.1").is_ok());
    assert!(validate_oauth_issuer_url("https://8.8.8.8/x").is_ok());
}

#[test]
fn provider_requires_pkce_s256_and_selects_scope_by_priority() {
    let metadata = OAuthProviderMetadata {
        issuer: "https://auth.example.test".to_string(),
        authorization_endpoint: "https://auth.example.test/authorize".to_string(),
        token_endpoint: "https://auth.example.test/token".to_string(),
        registration_endpoint: None,
        code_challenge_methods_supported: vec!["plain".to_string(), "S256".to_string()],
        scopes_supported: scopes("fallback"),
    };

    assert!(metadata.supports_pkce_s256());
    assert_eq!(
        metadata
            .selected_scope(Some(&scopes("challenge")), Some(&scopes("resource")))
            .expect("scope")
            .as_slice(),
        &["challenge"]
    );
}

#[test]
fn scope_selection_skips_empty_sets() {
    let metadata = OAuthProviderMetadata {
        issuer: "i".to_string(),
        authorization_endpoint: "a".to_string(),
        token_endpoint: "t".to_string(),
        registration_endpoint: None,
        code_challenge_methods_supported: vec!["plain".to_string()],
        scopes_supported: scopes("fallback"),
    };
    assert!(!metadata.supports_pkce_s256());
    let empty = ScopeSet::empty();
    assert_eq!(
        metadata.selected_scope(Some(&empty), Some(&scopes("resource"))).expect("scope").as_slice(),
        &["resource"]
    );
    assert_eq!(
        metadata.selected_scope(None, Some(&empty)).expect("scope").as_slice(),
        &["fallback"]
    );
    let bare = OAuthProviderMetadata { scopes_supported: ScopeSet::empty(), ..metadata };
    assert!(bare.selected_scope(None, None).is_none());
}

#[test]
fn callback_validation_rejects_replay_shape() {
    let pending = PendingOAuthState {
        state: "state-1".to_string(),
        subject: "user-1".to_string(),
        upstream_id: "github".to_string(),
        expires_at_unix: 100,
    };

    let wrong_subject = OAuthCallback {
        state: "state-1".to_string(),
        subject: "user-2".to_string(),
        code: "code".to_string(),
    };

    assert_eq!(
        pending.validate_callback(&wrong_subject, 50),
        Err(OAuthError::SubjectMismatch)
    );
    assert_eq!(
        pending.validate_callback(
            &OAuthCallback {
                state: "state-1".to_string(),
                subject: "user-1".to_string(),
                code: "code".to_string(),
            },
            101,
        ),
        Err(OAuthError::ExpiredState)
    );
}

#[test]
fn callback_validation_checks_state_and_code() {
    let pending = PendingOAuthState {
        state: "s".to_string(),
        subject: "u".to_string(),
        upstream_id: "g".to_string(),
        expires_at_unix: 100,
    };
    let cb = |state: &str, code: &str| OAuthCallback {
        state: state.to_string(),
        subject: "u".to_string(),
        code: code.to_string(),
    };
    assert_eq!(pending.validate_callback(&cb("x", "c"), 100), Err(OAuthError::StateMismatch));
    assert_eq!(pending.validate_callback(&cb("s", "  \t"), 100), Err(OAuthError::MissingCode));
    assert_eq!(pending.validate_callback(&cb("s", "c"), 100), Ok(()));
    assert_eq!(OAuthError::MissingCode.message(), "OAuth callback is missing authorization code");
}

#[test]
fn credential_status_is_redacted_and_time_based() {
    let credential = OAuthCredential {
        subject: "user-1".to_string(),
        upstream_id: "github".to_string(),
        access_token: "secret".to_string(),
        refresh_token: Some("refresh-secret".to_string()),
        scopes: scopes("repo"),
        expires_at_unix: 120,
        refresh_failed: false,
    };

    assert_eq!(credential.status(50, 60), OAuthStatus::Connected);
    assert_eq!(credential.status(70, 60), OAuthStatus::Expiring);
    assert_eq!(credential.status(121, 60), OAuthStatus::Expired);
    assert_eq!(credential.redacted_access_token(), "[REDACTED]");
}

#[test]
fn failed_refresh_outranks_expiry() {
    let credential = OAuthCredential {
        subject: "u".to_string(),
        upstream_id: "g".to_string(),
        access_token: "secret".to_string(),
        refresh_token: None,
        scopes: ScopeSet::empty(),
        expires_at_unix: 120,
        refresh_failed: true,
    };
    assert_eq!(credential.status(500, 60), OAuthStatus::RefreshFailed);
    let ok = OAuthCredential { refresh_failed: false, ..credential };
    assert_eq!(ok.status(120, 0), OAuthStatus::Expired);
    assert_eq!(ok.status(60, 60), OAuthStatus::Expiring);
    assert_eq!(ok.status(59, 60), OAuthStatus::Connected);
}
