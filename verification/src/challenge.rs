//! Protected-resource metadata and the `WWW-Authenticate` challenge that points
//! a client at it.
use vstd::prelude::*;
use crate::scope::ScopeSet;
use crate::text::{join, join_strings, push_str, string_from};

verus! {

#[derive(Clone, Debug, PartialEq, Eq)]
pub struct ProtectedResourceMetadata {
    pub resource: String,
    pub authorization_servers: Vec<String>,
    pub scopes_supported: ScopeSet,
    pub bearer_methods_supported: Vec<String>,
}

#[derive(Clone, Debug, PartialEq, Eq)]
pub struct AuthChallenge {
    resource_metadata: String,
    error: Option<String>,
    scope: ScopeSet,
}

/// The mathematical form of an `AuthChallenge`.
pub struct ChallengeView {
    pub resource_metadata: Seq<char>,
    pub error: Option<Seq<char>>,
    pub scope: Seq<Seq<char>>,
}

impl View for AuthChallenge {
    type V = ChallengeView;

    closed spec fn view(&self) -> ChallengeView {
        ChallengeView {
            resource_metadata: self.resource_metadata@,
            error: match self.error {
                Some(e) => Some(e@),
                None => None,
            },
            scope: self.scope@,
        }
    }
}

/// `name="value"`.
pub open spec fn quoted_param(name: Seq<char>, value: Seq<char>) -> Seq<char> {
    name + "=\""@ + value + "\""@
}

/// The parameters of the challenge, in order.
pub open spec fn challenge_params(c: ChallengeView) -> Seq<Seq<char>> {
    (match c.error {
        Some(e) => seq![quoted_param("error"@, e)],
        None => Seq::empty(),
    }) + seq![quoted_param("resource_metadata"@, c.resource_metadata)] + (if c.scope.len() > 0 {
        seq![quoted_param("scope"@, join(c.scope, seq![' ']))]
    } else {
        Seq::empty()
    })
}

/// The `WWW-Authenticate` header value of a challenge.
pub open spec fn www_authenticate_spec(c: ChallengeView) -> Seq<char> {
    "Bearer "@ + join(challenge_params(c), ", "@)
}

fn quoted(name: &str, value: &str) -> (r: String)
    ensures
        r@ == quoted_param(name@, value@),
{
    let mut r = string_from(name);
    push_str(&mut r, "=\"");
    push_str(&mut r, value);
    push_str(&mut r, "\"");
    r
}

impl AuthChallenge {
    /// A challenge for a missing or unusable bearer token.
    pub fn unauthorized(resource_metadata: &str) -> (r: AuthChallenge)
        ensures
            r@.resource_metadata == resource_metadata@,
            r@.error is None,
            r@.scope == Seq::<Seq<char>>::empty(),
    {
        AuthChallenge {
            resource_metadata: string_from(resource_metadata),
            error: None,
            scope: ScopeSet::empty(),
        }
    }

    /// A challenge for a token that lacks some of the `required` scopes.
    pub fn insufficient_scope(resource_metadata: &str, required: ScopeSet) -> (r: AuthChallenge)
        ensures
            r@.resource_metadata == resource_metadata@,
            r@.error == Some("insufficient_scope"@),
            r@.scope == required@,
    {
        AuthChallenge {
            resource_metadata: string_from(resource_metadata),
            error: Some(string_from("insufficient_scope")),
            scope: required,
        }
    }

    /// The error code, if any.
    pub fn error(&self) -> (r: Option<&str>)
        ensures
            match self@.error {
                Some(e) => r matches Some(s) && s@ == e,
                None => r is None,
            },
    {
        match &self.error {
            Some(e) => Some(e.as_str()),
            None => None,
        }
    }

    pub fn resource_metadata(&self) -> (r: &str)
        ensures
            r@ == self@.resource_metadata,
    {
        self.resource_metadata.as_str()
    }

    /// The scopes the challenge asks for.
    pub fn scope(&self) -> (r: &ScopeSet)
        ensures
            r@ == self@.scope,
    {
        &self.scope
    }

    /// The `WWW-Authenticate` header value.
    pub fn www_authenticate(&self) -> (r: String)
        ensures
            r@ == www_authenticate_spec(self@),
    {
        let mut params: Vec<String> = Vec::new();
        match &self.error {
            Some(e) => {
                params.push(quoted("error", e.as_str()));
            },
            None => {},
        }
        params.push(quoted("resource_metadata", self.resource_metadata.as_str()));
        if !self.scope.is_empty() {
            let value = self.scope.as_header_value();
            params.push(quoted("scope", value.as_str()));
        }
        assert(params@.map_values(|x: String| x@) =~= challenge_params(self@));
        let mut r = string_from("Bearer ");
        let joined = join_strings(&params, ", ");
        push_str(&mut r, joined.as_str());
        r
    }
}

} // verus!
