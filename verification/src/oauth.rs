//! OAuth provider metadata, callback validation, credential status and the
//! safety check on issuer URLs.
use vstd::prelude::*;
use crate::scope::ScopeSet;
use crate::text::{ascii_lower, str_eq, string_from, to_ascii_lowercase, trim, trim_str};
use crate::weburl::{ipv4_octets, parse_ipv4, parse_url, url_parse, url_shape_ok, UrlParts, UrlPartsView};

verus! {

#[derive(Clone, Debug, PartialEq, Eq)]
pub struct OAuthProviderMetadata {
    pub issuer: String,
    pub authorization_endpoint: String,
    pub token_endpoint: String,
    pub registration_endpoint: Option<String>,
    pub code_challenge_methods_supported: Vec<String>,
    pub scopes_supported: ScopeSet,
}

/// The first of the challenge's scopes, the protected resource's scopes and
/// the provider's supported scopes that is given and not empty.
pub open spec fn selected_scope_spec(
    challenge: Option<Seq<Seq<char>>>,
    resource: Option<Seq<Seq<char>>>,
    supported: Seq<Seq<char>>,
) -> Option<Seq<Seq<char>>> {
    if challenge is Some && challenge->0.len() > 0 {
        challenge
    } else if resource is Some && resource->0.len() > 0 {
        resource
    } else if supported.len() > 0 {
        Some(supported)
    } else {
        None
    }
}

pub open spec fn scope_view(s: Option<&ScopeSet>) -> Option<Seq<Seq<char>>> {
    match s {
        Some(x) => Some(x@),
        None => None,
    }
}

impl OAuthProviderMetadata {
    /// Whether the provider lists the PKCE method `S256`.
    pub fn supports_pkce_s256(&self) -> (r: bool)
        ensures
            r == exists|i: int|
                0 <= i < self.code_challenge_methods_supported@.len()
                    && #[trigger] self.code_challenge_methods_supported@[i]@ == "S256"@,
    {
        let mut i: usize = 0;
        while i < self.code_challenge_methods_supported.len()
            invariant
                i <= self.code_challenge_methods_supported@.len(),
                forall|j: int|
                    0 <= j < i ==> #[trigger] self.code_challenge_methods_supported@[j]@ != "S256"@,
            decreases self.code_challenge_methods_supported@.len() - i,
        {
            if str_eq(self.code_challenge_methods_supported[i].as_str(), "S256") {
                return true;
            }
            i = i + 1;
        }
        false
    }

    /// The scope to request: the challenge's scopes, else the protected
    /// resource's, else the provider's supported scopes, skipping empty ones.
    pub fn selected_scope(
        &self,
        challenge_scopes: Option<&ScopeSet>,
        protected_resource_scopes: Option<&ScopeSet>,
    ) -> (r: Option<ScopeSet>)
        ensures
            match r {
                Some(s) => selected_scope_spec(
                    scope_view(challenge_scopes),
                    scope_view(protected_resource_scopes),
                    self.scopes_supported@,
                ) == Some(s@),
                None => selected_scope_spec(
                    scope_view(challenge_scopes),
                    scope_view(protected_resource_scopes),
                    self.scopes_supported@,
                ) is None,
            },
    {
        match challenge_scopes {
            Some(s) => {
                if !s.is_empty() {
                    return Some(s.copy());
                }
            },
            None => {},
        }
        match protected_resource_scopes {
            Some(s) => {
                if !s.is_empty() {
                    return Some(s.copy());
                }
            },
            None => {},
        }
        if self.scopes_supported.is_empty() {
            None
        } else {
            Some(self.scopes_supported.copy())
        }
    }
}

#[derive(Clone, Debug, PartialEq, Eq)]
pub struct PendingOAuthState {
    pub state: String,
    pub subject: String,
    pub upstream_id: String,
    pub expires_at_unix: u64,
}

#[derive(Clone, Debug, PartialEq, Eq)]
pub struct OAuthCallback {
    pub state: String,
    pub subject: String,
    pub code: String,
}

/// The outcome of checking a callback against the pending state: expiry
/// first, then state, then subject, then a non-blank code.
pub open spec fn callback_check(
    pending: PendingOAuthState,
    callback: OAuthCallback,
    now_unix: u64,
) -> Result<(), OAuthError> {
    if now_unix > pending.expires_at_unix {
        Err(OAuthError::ExpiredState)
    } else if pending.state@ != callback.state@ {
        Err(OAuthError::StateMismatch)
    } else if pending.subject@ != callback.subject@ {
        Err(OAuthError::SubjectMismatch)
    } else if trim(callback.code@).len() == 0 {
        Err(OAuthError::MissingCode)
    } else {
        Ok(())
    }
}

impl PendingOAuthState {
    /// Checks that a callback answers this pending authorization in time.
    pub fn validate_callback(&self, callback: &OAuthCallback, now_unix: u64) -> (r: Result<
        (),
        OAuthError,
    >)
        ensures
            r == callback_check(*self, *callback, now_unix),
    {
        if now_unix > self.expires_at_unix {
            return Err(OAuthError::ExpiredState);
        }
        if !str_eq(self.state.as_str(), callback.state.as_str()) {
            return Err(OAuthError::StateMismatch);
        }
        if !str_eq(self.subject.as_str(), callback.subject.as_str()) {
            return Err(OAuthError::SubjectMismatch);
        }
        let code = trim_str(callback.code.as_str());
        if code.unicode_len() == 0 {
            return Err(OAuthError::MissingCode);
        }
        Ok(())
    }
}

#[derive(Clone, Debug, PartialEq, Eq)]
pub struct OAuthCredential {
    pub subject: String,
    pub upstream_id: String,
    pub access_token: String,
    pub refresh_token: Option<String>,
    pub scopes: ScopeSet,
    pub expires_at_unix: u64,
    pub refresh_failed: bool,
}

#[derive(Clone, Debug, PartialEq, Eq)]
pub struct OAuthRefreshRequest {
    pub subject: String,
    pub upstream_id: String,
    pub refresh_token: String,
    pub scopes: ScopeSet,
    pub now_unix: u64,
}

#[derive(Clone, Debug, PartialEq, Eq)]
pub struct OAuthRefreshResult {
    pub access_token: String,
    pub refresh_token: Option<String>,
    pub scopes: Option<ScopeSet>,
    pub expires_at_unix: u64,
}

#[derive(Clone, Debug, PartialEq, Eq)]
pub struct OAuthClientRegistration {
    pub subject: String,
    pub upstream_id: String,
    pub client_id: String,
    pub client_secret: Option<String>,
    pub client_id_issued_at_unix: Option<u64>,
    pub client_secret_expires_at_unix: Option<u64>,
}

#[derive(Clone, Copy, Debug, PartialEq, Eq, Structural)]
pub enum OAuthStatus {
    Disconnected,
    DiscoveryFailed,
    UnsupportedProvider,
    Connected,
    Expiring,
    Expired,
    RefreshFailed,
}

/// The status of a credential at `now_unix`: a failed refresh wins, then
/// expiry, then "expiring" within `window` seconds of expiry.
pub open spec fn credential_status(
    refresh_failed: bool,
    expires_at_unix: u64,
    now_unix: u64,
    window: u64,
) -> OAuthStatus {
    if refresh_failed {
        OAuthStatus::RefreshFailed
    } else if expires_at_unix <= now_unix {
        OAuthStatus::Expired
    } else if expires_at_unix - now_unix <= window {
        OAuthStatus::Expiring
    } else {
        OAuthStatus::Connected
    }
}

impl OAuthCredential {
    pub fn status(&self, now_unix: u64, expiring_window_secs: u64) -> (r: OAuthStatus)
        ensures
            r == credential_status(
                self.refresh_failed,
                self.expires_at_unix,
                now_unix,
                expiring_window_secs,
            ),
    {
        if self.refresh_failed {
            return OAuthStatus::RefreshFailed;
        }
        if self.expires_at_unix <= now_unix {
            return OAuthStatus::Expired;
        }
        if self.expires_at_unix - now_unix <= expiring_window_secs {
            return OAuthStatus::Expiring;
        }
        OAuthStatus::Connected
    }

    /// The text shown in place of the access token.
    pub fn redacted_access_token(&self) -> (r: &'static str)
        ensures
            r@ == "[REDACTED]"@,
    {
        "[REDACTED]"
    }
}

#[derive(Clone, Copy, Debug, PartialEq, Eq, Structural)]
pub enum OAuthError {
    UnsafeIssuerUrl,
    UnsupportedPkce,
    ExpiredState,
    StateMismatch,
    SubjectMismatch,
    MissingCode,
    StateNotFound,
    CredentialNotFound,
    MissingRefreshToken,
    RefreshFailed,
}

pub open spec fn oauth_error_message(e: OAuthError) -> Seq<char> {
    match e {
        OAuthError::UnsafeIssuerUrl => "OAuth issuer URL is unsafe"@,
        OAuthError::UnsupportedPkce => "OAuth provider does not support PKCE S256"@,
        OAuthError::ExpiredState => "OAuth callback state expired"@,
        OAuthError::StateMismatch => "OAuth callback state does not match"@,
        OAuthError::SubjectMismatch => "OAuth callback subject does not match"@,
        OAuthError::MissingCode => "OAuth callback is missing authorization code"@,
        OAuthError::StateNotFound => "OAuth state was not found"@,
        OAuthError::CredentialNotFound => "OAuth credential was not found"@,
        OAuthError::MissingRefreshToken => "OAuth credential does not include a refresh token"@,
        OAuthError::RefreshFailed => "OAuth refresh failed"@,
    }
}

impl OAuthError {
    /// The error's message.
    pub fn message(&self) -> (r: String)
        ensures
            r@ == oauth_error_message(*self),
    {
        match self {
            OAuthError::UnsafeIssuerUrl => string_from("OAuth issuer URL is unsafe"),
            OAuthError::UnsupportedPkce => string_from("OAuth provider does not support PKCE S256"),
            OAuthError::ExpiredState => string_from("OAuth callback state expired"),
            OAuthError::StateMismatch => string_from("OAuth callback state does not match"),
            OAuthError::SubjectMismatch => string_from("OAuth callback subject does not match"),
            OAuthError::MissingCode => string_from("OAuth callback is missing authorization code"),
            OAuthError::StateNotFound => string_from("OAuth state was not found"),
            OAuthError::CredentialNotFound => string_from("OAuth credential was not found"),
            OAuthError::MissingRefreshToken => string_from(
                "OAuth credential does not include a refresh token",
            ),
            OAuthError::RefreshFailed => string_from("OAuth refresh failed"),
        }
    }
}

// ---------------------------------------------------------------------------
// Issuer URL safety.
/// An IPv4 address that must not be an issuer: private, loopback,
/// link-local (the cloud metadata address among them), broadcast or
/// documentation ranges.
pub open spec fn unsafe_ipv4(o: Seq<int>) -> bool {
    let (a, b, c, d) = (o[0], o[1], o[2], o[3]);
    ||| a == 10
    ||| (a == 172 && 16 <= b <= 31)
    ||| (a == 192 && b == 168)
    ||| a == 127
    ||| (a == 169 && b == 254)
    ||| (a == 255 && b == 255 && c == 255 && d == 255)
    ||| (a == 192 && b == 0 && c == 2)
    ||| (a == 198 && b == 51 && c == 100)
    ||| (a == 203 && b == 0 && c == 113)
}

/// Host names that point at the machine itself or at cloud metadata.
pub open spec fn blocked_host_name(h: Seq<char>) -> bool {
    h == "localhost"@ || h == "metadata.google.internal"@ || h == "metadata"@
}

/// Whether a parsed URL is a safe OAuth issuer: https, no credentials, no
/// query or fragment, a host that is neither a blocked name nor an unsafe
/// IPv4 address.
pub open spec fn safe_issuer(u: UrlPartsView) -> bool {
    &&& u.scheme == "https"@
    &&& u.username.len() == 0
    &&& u.password is None
    &&& u.query is None
    &&& u.fragment is None
    &&& u.host is Some
    &&& !blocked_host_name(ascii_lower(u.host->0))
    &&& match ipv4_octets(ascii_lower(u.host->0)) {
        Some(o) => !unsafe_ipv4(o),
        None => true,
    }
}

/// Refuses an IPv4 address in an unsafe range.
fn reject_unsafe_ip(a: u8, b: u8, c: u8, d: u8) -> (r: Result<(), OAuthError>)
    ensures
        unsafe_ipv4(seq![a as int, b as int, c as int, d as int]) ==> r == Err::<(), OAuthError>(
            OAuthError::UnsafeIssuerUrl,
        ),
        !unsafe_ipv4(seq![a as int, b as int, c as int, d as int]) ==> r is Ok,
{
    if a == 10 || (a == 172 && 16 <= b && b <= 31) || (a == 192 && b == 168) || a == 127 || (a
        == 169 && b == 254) || (a == 255 && b == 255 && c == 255 && d == 255) || (a == 192 && b == 0
        && c == 2) || (a == 198 && b == 51 && c == 100) || (a == 203 && b == 0 && c == 113) {
        return Err(OAuthError::UnsafeIssuerUrl);
    }
    Ok(())
}

/// Accepts a parsed URL as an OAuth issuer or refuses it as unsafe.
///
/// An IPv6 host comes bracketed from the URL parser and is never read as an
/// IP address here, so only IPv4 hosts are checked against address ranges.
pub fn check_issuer_url(url: UrlParts) -> (r: Result<UrlParts, OAuthError>)
    requires
        url_shape_ok(url@),
    ensures
        safe_issuer(url@) ==> r == Ok::<UrlParts, OAuthError>(url),
        !safe_issuer(url@) ==> r == Err::<UrlParts, OAuthError>(OAuthError::UnsafeIssuerUrl),
{
    if !str_eq(url.scheme.as_str(), "https") || url.username.unicode_len() != 0
        || url.password.is_some() || url.query.is_some() || url.fragment.is_some() {
        return Err(OAuthError::UnsafeIssuerUrl);
    }
    let lower = match &url.host {
        Some(h) => to_ascii_lowercase(h.as_str()),
        None => {
            return Err(OAuthError::UnsafeIssuerUrl);
        },
    };
    if str_eq(lower.as_str(), "localhost") || str_eq(lower.as_str(), "metadata.google.internal")
        || str_eq(lower.as_str(), "metadata") {
        return Err(OAuthError::UnsafeIssuerUrl);
    }
    match parse_ipv4(lower.as_str()) {
        Some((a, b, c, d)) => {
            if reject_unsafe_ip(a, b, c, d).is_err() {
                return Err(OAuthError::UnsafeIssuerUrl);
            }
        },
        None => {},
    }
    Ok(url)
}

/// Parses `raw` and accepts it only as a safe OAuth issuer URL.
pub fn validate_oauth_issuer_url(raw: &str) -> (r: Result<UrlParts, OAuthError>)
    ensures
        match url_parse(raw@) {
            Err(_) => r == Err::<UrlParts, OAuthError>(OAuthError::UnsafeIssuerUrl),
            Ok(u) => match r {
                Ok(got) => got@ == u && safe_issuer(u),
                Err(e) => e == OAuthError::UnsafeIssuerUrl && !safe_issuer(u),
            },
        },
{
    match parse_url(raw) {
        Ok(u) => check_issuer_url(u),
        Err(_) => Err(OAuthError::UnsafeIssuerUrl),
    }
}

} // verus!
