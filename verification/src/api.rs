//! The HTTP surface of the gateway as plain values: request and response
//! shapes, error envelopes, and the transport rules of the protected MCP
//! endpoint (media types, protocol version, session ids, event ids).
use vstd::prelude::*;
use crate::oauth::{OAuthClientRegistration, OAuthCredential, OAuthProviderMetadata, OAuthRefreshResult, OAuthStatus};
use crate::scope::{scope_parse_spec, ScopeSet};
use crate::text::{chars_of, find_char_from, push_str, split_char, split_on, str_eq, string_from, trim, trim_str, u64_to_decimal, decimal, find_char, string_of_range, trim_bounds, is_ascii_digit, ascii_digit};
use crate::weburl::digits_value;
use crate::bearer::{covers, AuthDecision, BearerClaims};
use crate::challenge::{www_authenticate_spec, ChallengeView, ProtectedResourceMetadata};
use crate::mcp_json::McpServerId;

verus! {

// ---------------------------------------------------------------------------
// OAuth status as the API reports it.
#[derive(Clone, Copy, Debug, PartialEq, Eq, Structural)]
pub enum OAuthApiStatus {
    Disconnected,
    DiscoveryFailed,
    UnsupportedProvider,
    Connected,
    Expiring,
    Expired,
    RefreshFailed,
}

pub open spec fn api_status_of(s: OAuthStatus) -> OAuthApiStatus {
    match s {
        OAuthStatus::Disconnected => OAuthApiStatus::Disconnected,
        OAuthStatus::DiscoveryFailed => OAuthApiStatus::DiscoveryFailed,
        OAuthStatus::UnsupportedProvider => OAuthApiStatus::UnsupportedProvider,
        OAuthStatus::Connected => OAuthApiStatus::Connected,
        OAuthStatus::Expiring => OAuthApiStatus::Expiring,
        OAuthStatus::Expired => OAuthApiStatus::Expired,
        OAuthStatus::RefreshFailed => OAuthApiStatus::RefreshFailed,
    }
}

impl OAuthApiStatus {
    /// The API form of a credential status.
    pub fn from_status(status: OAuthStatus) -> (r: OAuthApiStatus)
        ensures
            r == api_status_of(status),
    {
        match status {
            OAuthStatus::Disconnected => OAuthApiStatus::Disconnected,
            OAuthStatus::DiscoveryFailed => OAuthApiStatus::DiscoveryFailed,
            OAuthStatus::UnsupportedProvider => OAuthApiStatus::UnsupportedProvider,
            OAuthStatus::Connected => OAuthApiStatus::Connected,
            OAuthStatus::Expiring => OAuthApiStatus::Expiring,
            OAuthStatus::Expired => OAuthApiStatus::Expired,
            OAuthStatus::RefreshFailed => OAuthApiStatus::RefreshFailed,
        }
    }
}

/// The status of one subject's credential for one upstream; no token is
/// part of it.
#[derive(Clone, Debug, PartialEq, Eq)]
pub struct OAuthStatusResponse {
    pub subject: String,
    pub upstream_id: String,
    pub status: OAuthApiStatus,
}

impl OAuthStatusResponse {
    pub fn from_status(subject: &str, upstream_id: &str, status: OAuthStatus) -> (r:
        OAuthStatusResponse)
        ensures
            r.subject@ == subject@,
            r.upstream_id@ == upstream_id@,
            r.status == api_status_of(status),
    {
        OAuthStatusResponse {
            subject: string_from(subject),
            upstream_id: string_from(upstream_id),
            status: OAuthApiStatus::from_status(status),
        }
    }
}

// ---------------------------------------------------------------------------
// Request and response bodies.
#[derive(Clone, Debug, PartialEq, Eq)]
pub struct OAuthProbeRequest {
    pub issuer_url: String,
    pub metadata: Option<OAuthProviderMetadata>,
}

#[derive(Clone, Debug, PartialEq, Eq)]
pub struct OAuthProbeResponse {
    pub status: OAuthApiStatus,
}

#[derive(Clone, Debug, PartialEq, Eq)]
pub struct OAuthAuthorizeRequest {
    pub issuer_url: String,
    pub metadata: Option<OAuthProviderMetadata>,
    pub subject: String,
    pub upstream_id: String,
    pub client_id: String,
    pub redirect_uri: String,
    pub resource_uri: String,
    pub state: String,
    pub code_challenge: String,
    pub expires_at_unix: u64,
    pub challenge_scopes: Option<String>,
    pub protected_resource_scopes: Option<String>,
}

#[derive(Clone, Debug, PartialEq, Eq)]
pub struct OAuthAuthorizeResponse {
    pub authorization_url: String,
    pub selected_scopes: Vec<String>,
}

#[derive(Clone, Debug, PartialEq, Eq)]
pub struct OAuthCallbackRequest {
    pub state: String,
    pub subject: String,
    pub code: String,
    pub credential: Option<OAuthCredential>,
    pub now_unix: u64,
    pub token_endpoint: Option<String>,
    pub client_id: Option<String>,
    pub client_secret: Option<String>,
    pub redirect_uri: Option<String>,
    pub code_verifier: Option<String>,
}

#[derive(Clone, Debug, PartialEq, Eq)]
pub struct OAuthRegisterHttpRequest {
    pub subject: String,
    pub upstream_id: String,
    pub registration_endpoint: String,
    pub redirect_uris: Vec<String>,
    pub client_name: Option<String>,
    pub result: Option<OAuthClientRegistration>,
}

#[derive(Clone, Debug, PartialEq, Eq)]
pub struct OAuthRefreshHttpRequest {
    pub subject: String,
    pub upstream_id: String,
    pub now_unix: u64,
    pub token_endpoint: Option<String>,
    pub client_id: Option<String>,
    pub client_secret: Option<String>,
    pub result: Option<OAuthRefreshResult>,
}

/// A client registration as the API reports it: whether there is a secret,
/// never the secret.
#[derive(Clone, Debug, PartialEq, Eq)]
pub struct OAuthClientRegistrationResponse {
    pub subject: String,
    pub upstream_id: String,
    pub client_id: String,
    pub has_client_secret: bool,
    pub client_id_issued_at_unix: Option<u64>,
    pub client_secret_expires_at_unix: Option<u64>,
}

impl OAuthClientRegistrationResponse {
    pub fn from_registration(registration: OAuthClientRegistration) -> (r:
        OAuthClientRegistrationResponse)
        ensures
            r.subject == registration.subject,
            r.upstream_id == registration.upstream_id,
            r.client_id == registration.client_id,
            r.has_client_secret == registration.client_secret is Some,
            r.client_id_issued_at_unix == registration.client_id_issued_at_unix,
            r.client_secret_expires_at_unix == registration.client_secret_expires_at_unix,
    {
        OAuthClientRegistrationResponse {
            subject: registration.subject,
            upstream_id: registration.upstream_id,
            client_id: registration.client_id,
            has_client_secret: registration.client_secret.is_some(),
            client_id_issued_at_unix: registration.client_id_issued_at_unix,
            client_secret_expires_at_unix: registration.client_secret_expires_at_unix,
        }
    }
}

#[derive(Clone, Debug, PartialEq, Eq)]
pub struct ReadResourceRequest {
    pub server_id: String,
    pub uri: String,
}

/// What the protected MCP endpoint is asked: which route, from which public
/// origin, with which `Authorization` header.
#[derive(Clone, Debug, PartialEq, Eq)]
pub struct ProtectedMcpRequest {
    pub host: String,
    pub path: String,
    pub public_origin: String,
    pub authorization: Option<String>,
}

#[derive(Clone, Copy, Debug, PartialEq, Eq, Structural)]
pub enum ResponseStatus {
    Success,
    Accepted,
    Unauthorized,
    Forbidden,
    NotFound,
}

pub open spec fn response_status_code(s: ResponseStatus) -> u16 {
    match s {
        ResponseStatus::Success => 200,
        ResponseStatus::Accepted => 202,
        ResponseStatus::Unauthorized => 401,
        ResponseStatus::Forbidden => 403,
        ResponseStatus::NotFound => 404,
    }
}

/// The HTTP status code of a response status.
pub fn status_code(status: ResponseStatus) -> (r: u16)
    ensures
        r == response_status_code(status),
{
    match status {
        ResponseStatus::Success => 200,
        ResponseStatus::Accepted => 202,
        ResponseStatus::Unauthorized => 401,
        ResponseStatus::Forbidden => 403,
        ResponseStatus::NotFound => 404,
    }
}

#[derive(Clone, Debug, PartialEq, Eq)]
pub struct GatewayApiStatus {
    pub server_count: usize,
    pub action_count: usize,
    pub collision_count: usize,
    /// Servers per status name, in name order.
    pub status_counts: Vec<(String, usize)>,
}

#[derive(Clone, Debug, PartialEq, Eq)]
pub struct GatewayApiAction {
    pub id: String,
    pub display_name: String,
    pub description: Option<String>,
}

#[derive(Clone, Debug, PartialEq, Eq)]
pub struct GatewayApiResource {
    pub server_id: String,
    pub uri: String,
    pub name: String,
    pub title: Option<String>,
    pub description: Option<String>,
    pub mime_type: Option<String>,
}

// ---------------------------------------------------------------------------
// Errors.
#[derive(Clone, Debug, PartialEq, Eq)]
pub struct ApiErrorBody {
    pub code: String,
    pub message: String,
}

#[derive(Clone, Debug, PartialEq, Eq)]
pub struct ApiErrorEnvelope {
    pub error: ApiErrorBody,
}

/// An error reply: its HTTP status, its code and its message.
#[derive(Clone, Debug, PartialEq, Eq)]
pub struct ApiErrorResponse {
    pub status: u16,
    pub code: String,
    pub message: String,
}

impl ApiErrorResponse {
    pub fn bad_request(message: String) -> (r: ApiErrorResponse)
        ensures
            r.status == 400,
            r.code@ == "bad_request"@,
            r.message == message,
    {
        ApiErrorResponse { status: 400, code: string_from("bad_request"), message }
    }

    pub fn bad_gateway(message: String) -> (r: ApiErrorResponse)
        ensures
            r.status == 502,
            r.code@ == "bad_gateway"@,
            r.message == message,
    {
        ApiErrorResponse { status: 502, code: string_from("bad_gateway"), message }
    }

    pub fn not_found(message: String) -> (r: ApiErrorResponse)
        ensures
            r.status == 404,
            r.code@ == "not_found"@,
            r.message == message,
    {
        ApiErrorResponse { status: 404, code: string_from("not_found"), message }
    }

    /// The JSON body of the reply.
    pub fn envelope(&self) -> (r: ApiErrorEnvelope)
        ensures
            r.error.code@ == self.code@,
            r.error.message@ == self.message@,
    {
        ApiErrorEnvelope {
            error: ApiErrorBody { code: self.code.clone(), message: self.message.clone() },
        }
    }
}

/// Reads an optional scope string; a malformed one is a bad request carrying
/// the scope error's message.
pub fn parse_optional_scope(raw: Option<&str>) -> (r: Result<Option<ScopeSet>, ApiErrorResponse>)
    ensures
        match raw {
            None => r matches Ok(None),
            Some(s) => match scope_parse_spec(s@) {
                Ok(set) => r matches Ok(Some(got)) && got@.to_set() == set,
                Err(f) => r matches Err(e) && e.status == 400 && e.code@ == "bad_request"@,
            },
        },
{
    match raw {
        None => Ok(None),
        Some(s) => match ScopeSet::parse(s) {
            Ok(set) => Ok(Some(set)),
            Err(e) => Err(ApiErrorResponse::bad_request(e.message())),
        },
    }
}

// ---------------------------------------------------------------------------
// Transport rules of the protected MCP endpoint.
#[derive(Clone, Copy, Debug, PartialEq, Eq, Structural)]
pub enum McpTransportRejection {
    ForbiddenOrigin,
    NotAcceptable,
    UnsupportedProtocolVersion,
    InvalidSessionId,
    UnknownSessionId,
}

pub open spec fn rejection_status(r: McpTransportRejection) -> u16 {
    match r {
        McpTransportRejection::ForbiddenOrigin => 403,
        McpTransportRejection::NotAcceptable => 406,
        McpTransportRejection::UnsupportedProtocolVersion => 400,
        McpTransportRejection::InvalidSessionId => 400,
        McpTransportRejection::UnknownSessionId => 404,
    }
}

pub open spec fn rejection_message(r: McpTransportRejection) -> Seq<char> {
    match r {
        McpTransportRejection::ForbiddenOrigin => "invalid protected MCP origin"@,
        McpTransportRejection::NotAcceptable =>
            "protected MCP route requires Accept: application/json or text/event-stream"@,
        McpTransportRejection::UnsupportedProtocolVersion => "unsupported MCP protocol version"@,
        McpTransportRejection::InvalidSessionId => "invalid MCP session id"@,
        McpTransportRejection::UnknownSessionId => "unknown MCP session id"@,
    }
}

pub open spec fn rejection_code_of(status: u16) -> Seq<char> {
    if status == 403 {
        "forbidden"@
    } else if status == 406 {
        "not_acceptable"@
    } else if status == 404 {
        "not_found"@
    } else {
        "bad_request"@
    }
}

/// The error code that goes with an HTTP status of a transport rejection.
pub fn mcp_rejection_code(status: u16) -> (r: &'static str)
    ensures
        r@ == rejection_code_of(status),
{
    if status == 403 {
        "forbidden"
    } else if status == 406 {
        "not_acceptable"
    } else if status == 404 {
        "not_found"
    } else {
        "bad_request"
    }
}

/// The status and JSON body of a transport rejection.
pub fn mcp_transport_rejection(rejection: McpTransportRejection) -> (r: (u16, ApiErrorEnvelope))
    ensures
        r.0 == rejection_status(rejection),
        r.1.error.code@ == rejection_code_of(rejection_status(rejection)),
        r.1.error.message@ == rejection_message(rejection),
{
    let (status, message) = match rejection {
        McpTransportRejection::ForbiddenOrigin => (403u16, "invalid protected MCP origin"),
        McpTransportRejection::NotAcceptable => (
            406u16,
            "protected MCP route requires Accept: application/json or text/event-stream",
        ),
        McpTransportRejection::UnsupportedProtocolVersion => (
            400u16,
            "unsupported MCP protocol version",
        ),
        McpTransportRejection::InvalidSessionId => (400u16, "invalid MCP session id"),
        McpTransportRejection::UnknownSessionId => (404u16, "unknown MCP session id"),
    };
    let code = mcp_rejection_code(status);
    (
        status,
        ApiErrorEnvelope {
            error: ApiErrorBody { code: string_from(code), message: string_from(message) },
        },
    )
}

/// The media type of one entry of an `Accept` header: the trimmed text
/// before its first `;`.
pub open spec fn media_of(part: Seq<char>) -> Seq<char> {
    let t = trim(part);
    let i = find_char_from(t, ';', 0);
    if i < t.len() {
        trim(t.subrange(0, i))
    } else {
        trim(part)
    }
}

pub open spec fn is_mcp_media(m: Seq<char>) -> bool {
    m == "*/*"@ || m == "application/*"@ || m == "application/json"@ || m == "text/event-stream"@
}

/// Some entry of the `Accept` value admits JSON or an event stream.
pub open spec fn accept_value_ok(raw: Seq<char>) -> bool {
    exists|i: int|
        0 <= i < split_on(raw, ',').len() && is_mcp_media(media_of(#[trigger] split_on(raw, ',')[i]))
}

/// An `Accept` header that admits JSON or an event stream.
pub open spec fn accepts_mcp(accept: Option<Seq<char>>) -> bool {
    match accept {
        None => false,
        Some(raw) => accept_value_ok(raw),
    }
}

pub open spec fn opt_str(o: Option<&str>) -> Option<Seq<char>> {
    match o {
        Some(s) => Some(s@),
        None => None,
    }
}

fn media_type(part: &str) -> (r: String)
    ensures
        r@ == media_of(part@),
{
    let t = trim_str(part);
    let tv = chars_of(t.as_str());
    let i = find_char(&tv, ';', 0);
    if i < tv.len() {
        let (a, b) = trim_bounds(&tv, 0, i);
        string_of_range(&tv, a, b)
    } else {
        t
    }
}

/// Whether the `Accept` header lets the endpoint answer with JSON or an
/// event stream.
pub fn accepts_mcp_response(accept: Option<&str>) -> (r: bool)
    ensures
        r == accepts_mcp(opt_str(accept)),
{
    let raw = match accept {
        None => {
            return false;
        },
        Some(a) => a,
    };
    let parts = split_char(raw, ',');
    let ghost w = parts@.map_values(|x: String| x@);
    let mut i: usize = 0;
    while i < parts.len()
        invariant
            i <= parts@.len(),
            w == parts@.map_values(|x: String| x@),
            w == split_on(raw@, ','),
            accept == Some(raw),
            forall|j: int| 0 <= j < i ==> !is_mcp_media(media_of(#[trigger] w[j])),
        decreases parts@.len() - i,
    {
        let m = media_type(parts[i].as_str());
        assert(w[i as int] == parts@[i as int]@);
        if str_eq(m.as_str(), "*/*") || str_eq(m.as_str(), "application/*") || str_eq(
            m.as_str(),
            "application/json",
        ) || str_eq(m.as_str(), "text/event-stream") {
            assert(is_mcp_media(media_of(split_on(raw@, ',')[i as int])));
            assert(opt_str(accept) == Some(raw@));
            return true;
        }
        i = i + 1;
    }
    false
}

/// Whether the `MCP-Protocol-Version` header, if present, names the
/// supported version.
pub fn valid_protocol_version(version: Option<&str>) -> (r: bool)
    ensures
        r == (version is None || version->0@ == "2025-11-25"@),
{
    match version {
        None => true,
        Some(v) => str_eq(v, "2025-11-25"),
    }
}

/// Whether the `Origin` header, if present, is the origin of the resource
/// (`allowed_origin`, when the route knows one).
pub fn valid_origin(origin: Option<&str>, allowed_origin: Option<&str>) -> (r: bool)
    ensures
        r == match origin {
            None => true,
            Some(o) => allowed_origin matches Some(a) && o@ == a@,
        },
{
    match origin {
        None => true,
        Some(o) => match allowed_origin {
            Some(a) => str_eq(o, a),
            None => false,
        },
    }
}

/// Visible ASCII, `!` to `~`: the bytes a session id may hold.
pub open spec fn is_session_char(c: char) -> bool {
    '!' <= c && c <= '~'
}

pub open spec fn is_valid_session_id(s: Seq<char>) -> bool {
    s.len() > 0 && forall|i: int| 0 <= i < s.len() ==> is_session_char(#[trigger] s[i])
}

/// A non-empty id of visible ASCII characters.
pub fn valid_session_id(session_id: &str) -> (r: bool)
    ensures
        r == is_valid_session_id(session_id@),
{
    let v = chars_of(session_id);
    if v.len() == 0 {
        return false;
    }
    let mut i: usize = 0;
    while i < v.len()
        invariant
            i <= v@.len(),
            v@ == session_id@,
            forall|j: int| 0 <= j < i ==> is_session_char(#[trigger] v@[j]),
        decreases v@.len() - i,
    {
        if !('!' <= v[i] && v[i] <= '~') {
            return false;
        }
        i = i + 1;
    }
    true
}

/// The `Mcp-Session-Id` header, checked when present.
pub fn session_id(header: Option<&str>) -> (r: Result<Option<String>, McpTransportRejection>)
    ensures
        match header {
            None => r matches Ok(None),
            Some(h) => if is_valid_session_id(h@) {
                r matches Ok(Some(s)) && s@ == h@
            } else {
                r == Err::<Option<String>, McpTransportRejection>(
                    McpTransportRejection::InvalidSessionId,
                )
            },
        },
{
    match header {
        None => Ok(None),
        Some(h) => if valid_session_id(h) {
            Ok(Some(string_from(h)))
        } else {
            Err(McpTransportRejection::InvalidSessionId)
        },
    }
}

/// The header checks of the endpoint, in order: origin, accepted media,
/// protocol version, session id.
pub fn validate_mcp_transport_headers(
    origin: Option<&str>,
    allowed_origin: Option<&str>,
    accept: Option<&str>,
    protocol_version: Option<&str>,
    session_header: Option<&str>,
) -> (r: Result<(), McpTransportRejection>)
    ensures
        r == if !(match origin {
            None => true,
            Some(o) => allowed_origin matches Some(a) && o@ == a@,
        }) {
            Err(McpTransportRejection::ForbiddenOrigin)
        } else if !accepts_mcp(opt_str(accept)) {
            Err(McpTransportRejection::NotAcceptable)
        } else if !(protocol_version is None || protocol_version->0@ == "2025-11-25"@) {
            Err(McpTransportRejection::UnsupportedProtocolVersion)
        } else if session_header is Some && !is_valid_session_id(session_header->0@) {
            Err(McpTransportRejection::InvalidSessionId)
        } else {
            Ok(())
        },
{
    if !valid_origin(origin, allowed_origin) {
        return Err(McpTransportRejection::ForbiddenOrigin);
    }
    if !accepts_mcp_response(accept) {
        return Err(McpTransportRejection::NotAcceptable);
    }
    if !valid_protocol_version(protocol_version) {
        return Err(McpTransportRejection::UnsupportedProtocolVersion);
    }
    match session_id(session_header) {
        Err(e) => Err(e),
        Ok(_) => Ok(()),
    }
}

pub open spec fn clamp_limit(requested: Option<usize>, default: usize) -> usize {
    let v = match requested {
        Some(x) => x,
        None => default,
    };
    if v < 1 {
        1
    } else if v > 100 {
        100
    } else {
        v
    }
}

/// A collection limit: the requested one or the default, kept within 1..=100.
pub fn bounded_limit(requested: Option<usize>, default: usize) -> (r: usize)
    ensures
        r == clamp_limit(requested, default),
{
    let v = match requested {
        Some(x) => x,
        None => default,
    };
    if v < 1 {
        1
    } else if v > 100 {
        100
    } else {
        v
    }
}

/// The value of a decimal `u64` text as `u64::from_str` reads it: an
/// optional `+`, then one or more ASCII digits, at most `u64::MAX`.
pub open spec fn all_digits(d: Seq<char>) -> bool {
    forall|i: int| 0 <= i < d.len() ==> is_ascii_digit(#[trigger] d[i])
}

pub open spec fn u64_text_value(s: Seq<char>) -> Option<int> {
    let d = if s.len() > 0 && s[0] == '+' {
        s.drop_first()
    } else {
        s
    };
    if d.len() > 0 && all_digits(d) && digits_value(d) <= u64::MAX {
        Some(digits_value(d))
    } else {
        None
    }
}

proof fn lemma_digits_value_nonneg(s: Seq<char>)
    requires
        forall|j: int| 0 <= j < s.len() ==> is_ascii_digit(#[trigger] s[j]),
    ensures
        digits_value(s) >= 0,
    decreases s.len(),
{
    if s.len() > 0 {
        assert forall|j: int| 0 <= j < s.drop_last().len() implies is_ascii_digit(
            #[trigger] s.drop_last()[j],
        ) by {
            assert(s.drop_last()[j] == s[j]);
        }
        lemma_digits_value_nonneg(s.drop_last());
        assert(is_ascii_digit(s[s.len() - 1]));
    }
}

proof fn lemma_digits_value_grows(s: Seq<char>, i: int)
    requires
        0 <= i <= s.len(),
        forall|j: int| 0 <= j < s.len() ==> is_ascii_digit(#[trigger] s[j]),
    ensures
        digits_value(s.subrange(0, i)) <= digits_value(s),
    decreases s.len() - i,
{
    if i < s.len() {
        lemma_digits_value_grows(s, i + 1);
        let p = s.subrange(0, i + 1);
        assert(p.drop_last() =~= s.subrange(0, i));
        assert(p.last() == s[i]);
        assert(is_ascii_digit(s[i]));
        assert forall|j: int| 0 <= j < s.subrange(0, i).len() implies is_ascii_digit(
            #[trigger] s.subrange(0, i)[j],
        ) by {
            assert(s.subrange(0, i)[j] == s[j]);
        }
        lemma_digits_value_nonneg(s.subrange(0, i));
    } else {
        assert(s.subrange(0, i) =~= s);
    }
}

/// `u64::from_str`.
pub fn parse_u64(s: &str) -> (r: Option<u64>)
    ensures
        match r {
            Some(v) => u64_text_value(s@) == Some(v as int),
            None => u64_text_value(s@) is None,
        },
{
    let v = chars_of(s);
    let start: usize = if v.len() > 0 && v[0] == '+' {
        1
    } else {
        0
    };
    let ghost d = if s@.len() > 0 && s@[0] == '+' {
        s@.drop_first()
    } else {
        s@
    };
    assert(d =~= v@.subrange(start as int, v@.len() as int));
    if start >= v.len() {
        return None;
    }
    let mut value: u128 = 0;
    let mut i: usize = start;
    while i < v.len()
        invariant
            v@ == s@,
            start <= i <= v@.len(),
            d == v@.subrange(start as int, v@.len() as int),
            d == (if s@.len() > 0 && s@[0] == '+' {
                s@.drop_first()
            } else {
                s@
            }),
            forall|j: int| 0 <= j < i - start ==> is_ascii_digit(#[trigger] d[j]),
            value as int == digits_value(d.subrange(0, i - start)),
            value <= u64::MAX,
        decreases v@.len() - i,
    {
        let c = v[i];
        assert(d[i - start] == c);
        if !ascii_digit(c) {
            assert(!is_ascii_digit(d[i - start]));
            assert(d.len() > 0);
            return None;
        }
        assert(d.subrange(0, i - start + 1).drop_last() =~= d.subrange(0, i - start));
        let digit: u128 = ((c as u32) - ('0' as u32)) as u128;
        value = value * 10 + digit;
        i = i + 1;
        if value > 0xffff_ffff_ffff_ffffu128 {
            proof {
                if all_digits(d) {
                    lemma_digits_value_grows(d, i - start);
                }
            }
            return None;
        }
    }
    assert(d.subrange(0, d.len() as int) =~= d);
    Some(value as u64)
}

pub open spec fn next_event_id_spec(last_event_id: Seq<char>) -> Seq<char> {
    match u64_text_value(last_event_id) {
        Some(v) => if v < u64::MAX {
            decimal((v + 1) as nat)
        } else {
            decimal(1)
        },
        None => decimal(1),
    }
}

/// The id of the next server-sent event: one more than the last id read as
/// a `u64`, or 1.
pub fn next_sse_event_id(last_event_id: &str) -> (r: String)
    ensures
        r@ == next_event_id_spec(last_event_id@),
{
    match parse_u64(last_event_id) {
        Some(v) => if v < 0xffff_ffff_ffff_ffffu64 {
            u64_to_decimal(v + 1)
        } else {
            u64_to_decimal(1)
        },
        None => u64_to_decimal(1),
    }
}

/// The `Last-Event-ID` header when it is a valid id, else `0`.
pub fn last_event_id(header: Option<&str>) -> (r: String)
    ensures
        r@ == match header {
            Some(h) => if is_valid_session_id(h@) {
                h@
            } else {
                "0"@
            },
            None => "0"@,
        },
{
    match header {
        Some(h) => if valid_session_id(h) {
            string_from(h)
        } else {
            string_from("0")
        },
        None => string_from("0"),
    }
}

/// A JSON-RPC notification: version `2.0`, no `id`, a string `method`.
pub fn is_json_rpc_notification(jsonrpc: Option<&str>, has_id: bool, method: Option<&str>) -> (r:
    bool)
    ensures
        r == (jsonrpc matches Some(v) && v@ == "2.0"@ && !has_id && method is Some),
{
    match jsonrpc {
        Some(v) => str_eq(v, "2.0") && !has_id && method.is_some(),
        None => false,
    }
}

/// A JSON-RPC `initialize` request: version `2.0`, an `id`, method
/// `initialize`.
pub fn is_json_rpc_initialize_request(
    jsonrpc: Option<&str>,
    has_id: bool,
    method: Option<&str>,
) -> (r: bool)
    ensures
        r == (jsonrpc matches Some(v) && v@ == "2.0"@ && has_id && (method matches Some(m) && m@
            == "initialize"@)),
{
    match jsonrpc {
        Some(v) => str_eq(v, "2.0") && has_id && match method {
            Some(m) => str_eq(m, "initialize"),
            None => false,
        },
        None => false,
    }
}

/// The `Host` header, or empty.
pub fn host(header: Option<&str>) -> (r: String)
    ensures
        r@ == match header {
            Some(h) => h@,
            None => Seq::<char>::empty(),
        },
{
    match header {
        Some(h) => string_from(h),
        None => String::new(),
    }
}

/// `proto://host`, the protocol from `X-Forwarded-Proto` or `http`.
pub fn public_origin(forwarded_proto: Option<&str>, host_header: Option<&str>) -> (r: String)
    ensures
        r@ == (match forwarded_proto {
            Some(p) => p@,
            None => "http"@,
        }) + "://"@ + match host_header {
            Some(h) => h@,
            None => Seq::<char>::empty(),
        },
{
    let mut r = match forwarded_proto {
        Some(p) => string_from(p),
        None => string_from("http"),
    };
    push_str(&mut r, "://");
    let h = host(host_header);
    push_str(&mut r, h.as_str());
    r
}


// ---------------------------------------------------------------------------
// Requests to a protected MCP route.
/// Where an authorized request to a protected route goes.
#[derive(Clone, Debug, PartialEq, Eq)]
pub enum ProtectedRouteTarget {
    UpstreamMcp { server_id: McpServerId },
}

/// A protected route as the route index resolved it for a request: the
/// resource it protects, the URL of its metadata document for the request's
/// public origin, the scopes it requires and where it forwards.
#[derive(Clone, Debug, PartialEq, Eq)]
pub struct ResolvedProtectedRoute {
    pub resource_uri: String,
    pub resource_metadata: String,
    pub required_scopes: ScopeSet,
    pub target: ProtectedRouteTarget,
}

/// What the protected MCP endpoint answers.
#[derive(Clone, Debug, PartialEq, Eq)]
pub enum ProtectedMcpResponse {
    Metadata { status: ResponseStatus, metadata: ProtectedResourceMetadata },
    DispatchAllowed { status: ResponseStatus, subject: String, target: ProtectedRouteTarget },
    Challenge { status: ResponseStatus, www_authenticate: String },
    NotFound { status: ResponseStatus },
}

/// The `WWW-Authenticate` value that sends a client to the metadata at
/// `resource_metadata`, with an error and scopes where they are given.
pub open spec fn challenge_header(
    resource_metadata: Seq<char>,
    error: Option<Seq<char>>,
    scope: Seq<Seq<char>>,
) -> Seq<char> {
    www_authenticate_spec(ChallengeView { resource_metadata, error, scope })
}

/// The answer to a request to the protected MCP endpoint, given what the
/// route index resolved (`metadata` where the request asks for a route's
/// metadata document, else `route` where it names a route) and the claims
/// of its bearer token, if it has valid ones: the metadata document; no
/// route; a challenge to authenticate (no claims, or claims for another
/// resource) or to get more scopes; or the route's target with the subject.
pub fn protected_mcp_decision(
    metadata: Option<ProtectedResourceMetadata>,
    route: Option<ResolvedProtectedRoute>,
    claims: Option<BearerClaims>,
) -> (r: ProtectedMcpResponse)
    ensures
        match metadata {
            Some(m) => r == (ProtectedMcpResponse::Metadata {
                status: ResponseStatus::Success,
                metadata: m,
            }),
            None => match route {
                None => r == (ProtectedMcpResponse::NotFound { status: ResponseStatus::NotFound }),
                Some(rt) => match claims {
                    Some(cl) if cl.audience@ == rt.resource_uri@ && covers(
                        cl.scopes@,
                        rt.required_scopes@,
                    ) => r matches ProtectedMcpResponse::DispatchAllowed { status, subject, target }
                        && status == ResponseStatus::Accepted && subject@ == cl.subject@ && target
                        == rt.target,
                    Some(cl) if cl.audience@ == rt.resource_uri@ => r matches ProtectedMcpResponse::Challenge {
                        status,
                        www_authenticate,
                    } && status == ResponseStatus::Forbidden && www_authenticate@ == challenge_header(
                        rt.resource_metadata@,
                        Some("insufficient_scope"@),
                        rt.required_scopes@,
                    ),
                    _ => r matches ProtectedMcpResponse::Challenge { status, www_authenticate }
                        && status == ResponseStatus::Unauthorized && www_authenticate@
                        == challenge_header(rt.resource_metadata@, None, Seq::empty()),
                },
            },
        },
{
    if let Some(m) = metadata {
        return ProtectedMcpResponse::Metadata { status: ResponseStatus::Success, metadata: m };
    }
    let rt = match route {
        None => {
            return ProtectedMcpResponse::NotFound { status: ResponseStatus::NotFound };
        },
        Some(rt) => rt,
    };
    let decision = AuthDecision::authorize_route(
        claims.as_ref(),
        rt.resource_uri.as_str(),
        rt.resource_metadata.as_str(),
        &rt.required_scopes,
    );
    match decision {
        AuthDecision::Authorized(subject) => ProtectedMcpResponse::DispatchAllowed {
            status: ResponseStatus::Accepted,
            subject: subject.subject,
            target: rt.target,
        },
        AuthDecision::Unauthorized(challenge) => {
            let www_authenticate = challenge.www_authenticate();
            ProtectedMcpResponse::Challenge { status: ResponseStatus::Unauthorized, www_authenticate }
        },
        AuthDecision::Forbidden(challenge) => {
            let www_authenticate = challenge.www_authenticate();
            ProtectedMcpResponse::Challenge { status: ResponseStatus::Forbidden, www_authenticate }
        },
    }
}


/// An `Accept` header is accepted exactly when one of its comma-separated
/// entries, trimmed and with any `;` parameters cut off, names `*/*`,
/// `application/*`, `application/json` or `text/event-stream`.
pub proof fn law_accepts_mcp_media(raw: Seq<char>)
    ensures
        accepts_mcp(Some(raw)) <==> exists|i: int|
            0 <= i < split_on(raw, ',').len() && ({
                let m = media_of(#[trigger] split_on(raw, ',')[i]);
                m == "*/*"@ || m == "application/*"@ || m == "application/json"@ || m
                    == "text/event-stream"@
            }),
{
    let parts = split_on(raw, ',');
    if accepts_mcp(Some(raw)) {
        let i = choose|i: int| 0 <= i < parts.len() && is_mcp_media(media_of(#[trigger] parts[i]));
        assert(is_mcp_media(media_of(parts[i])));
    }
    if exists|i: int|
        0 <= i < parts.len() && ({
            let m = media_of(#[trigger] parts[i]);
            m == "*/*"@ || m == "application/*"@ || m == "application/json"@ || m
                == "text/event-stream"@
        }) {
        let i = choose|i: int|
            0 <= i < parts.len() && ({
                let m = media_of(#[trigger] parts[i]);
                m == "*/*"@ || m == "application/*"@ || m == "application/json"@ || m
                    == "text/event-stream"@
            });
        assert(is_mcp_media(media_of(parts[i])));
    }
}

} // verus!
