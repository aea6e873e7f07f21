//! Bearer token claims and the route authorization decision made from them.
use vstd::prelude::*;
use crate::challenge::{AuthChallenge, ChallengeView};
use crate::scope::{scope_parse_spec, scope_set_wf, ScopeError, ScopeFault, ScopeSet};
use crate::text::{find_char, find_char_from, split_char, split_on, starts_with, str_eq, string_from, string_of_range, chars_of, has_prefix};

verus! {

#[derive(Clone, Debug, PartialEq, Eq)]
pub struct BearerClaims {
    pub subject: String,
    pub audience: String,
    pub scopes: ScopeSet,
}

#[derive(Clone, Debug, PartialEq, Eq)]
pub struct AuthorizedSubject {
    pub subject: String,
}

#[derive(Clone, Debug, PartialEq, Eq)]
pub enum AuthDecision {
    Authorized(AuthorizedSubject),
    Unauthorized(AuthChallenge),
    Forbidden(AuthChallenge),
}

#[derive(Clone, Debug, PartialEq, Eq)]
pub enum BearerError {
    MissingBearerScheme,
    MalformedToken,
    MissingSubject,
    MissingAudience,
    InvalidToken,
    Scope(ScopeError),
}

/// The mathematical form of a `BearerError`.
pub enum BearerFault {
    MissingBearerScheme,
    MalformedToken,
    MissingSubject,
    MissingAudience,
    InvalidToken,
    Scope(ScopeFault),
}

impl View for BearerError {
    type V = BearerFault;

    open spec fn view(&self) -> BearerFault {
        match self {
            BearerError::MissingBearerScheme => BearerFault::MissingBearerScheme,
            BearerError::MalformedToken => BearerFault::MalformedToken,
            BearerError::MissingSubject => BearerFault::MissingSubject,
            BearerError::MissingAudience => BearerFault::MissingAudience,
            BearerError::InvalidToken => BearerFault::InvalidToken,
            BearerError::Scope(e) => BearerFault::Scope(e@),
        }
    }
}

impl BearerError {
    /// The error's message.
    pub fn message(&self) -> (r: String)
        ensures
            r@ == match self {
                BearerError::MissingBearerScheme => "authorization header is missing Bearer scheme"@,
                BearerError::MalformedToken => "bearer token is malformed"@,
                BearerError::MissingSubject => "bearer token is missing subject"@,
                BearerError::MissingAudience => "bearer token is missing audience"@,
                BearerError::InvalidToken => "bearer token is invalid"@,
                BearerError::Scope(e) => match e {
                    ScopeError::EmptySegment => "scope string contains an empty segment"@,
                    ScopeError::InvalidCharacters(s) => "scope `"@ + s@
                        + "` contains unsupported characters"@,
                },
            },
    {
        match self {
            BearerError::MissingBearerScheme => string_from(
                "authorization header is missing Bearer scheme",
            ),
            BearerError::MalformedToken => string_from("bearer token is malformed"),
            BearerError::MissingSubject => string_from("bearer token is missing subject"),
            BearerError::MissingAudience => string_from("bearer token is missing audience"),
            BearerError::InvalidToken => string_from("bearer token is invalid"),
            BearerError::Scope(e) => e.message(),
        }
    }
}

/// Whether `granted` holds every token of `required`.
pub open spec fn covers(granted: Seq<Seq<char>>, required: Seq<Seq<char>>) -> bool {
    forall|i: int| 0 <= i < required.len() ==> granted.contains(#[trigger] required[i])
}

pub open spec fn is_unauthorized_challenge(c: ChallengeView, resource_metadata: Seq<char>) -> bool {
    c.resource_metadata == resource_metadata && c.error is None && c.scope
        == Seq::<Seq<char>>::empty()
}

pub open spec fn is_insufficient_scope_challenge(
    c: ChallengeView,
    resource_metadata: Seq<char>,
    required: Seq<Seq<char>>,
) -> bool {
    c.resource_metadata == resource_metadata && c.error == Some("insufficient_scope"@) && c.scope
        == required
}

impl AuthDecision {
    /// Decides whether `claims` may reach the resource `resource_uri` that
    /// requires `required_scopes`: no claims or another audience is
    /// unauthorized, missing scopes are forbidden, and otherwise the subject is
    /// authorized.
    pub fn authorize_route(
        claims: Option<&BearerClaims>,
        resource_uri: &str,
        resource_metadata: &str,
        required_scopes: &ScopeSet,
    ) -> (r: AuthDecision)
        ensures
            match claims {
                None => r matches AuthDecision::Unauthorized(c) && is_unauthorized_challenge(
                    c@,
                    resource_metadata@,
                ),
                Some(cl) => if cl.audience@ != resource_uri@ {
                    r matches AuthDecision::Unauthorized(c) && is_unauthorized_challenge(
                        c@,
                        resource_metadata@,
                    )
                } else if !covers(cl.scopes@, required_scopes@) {
                    r matches AuthDecision::Forbidden(c) && is_insufficient_scope_challenge(
                        c@,
                        resource_metadata@,
                        required_scopes@,
                    )
                } else {
                    r matches AuthDecision::Authorized(s) && s.subject@ == cl.subject@
                },
            },
    {
        let claims = match claims {
            None => {
                return AuthDecision::Unauthorized(AuthChallenge::unauthorized(resource_metadata));
            },
            Some(c) => c,
        };
        if !str_eq(claims.audience.as_str(), resource_uri) {
            return AuthDecision::Unauthorized(AuthChallenge::unauthorized(resource_metadata));
        }
        if !claims.scopes.contains_all(required_scopes) {
            return AuthDecision::Forbidden(
                AuthChallenge::insufficient_scope(resource_metadata, required_scopes.copy()),
            );
        }
        AuthDecision::Authorized(AuthorizedSubject { subject: claims.subject.clone() })
    }

    pub fn is_authorized(&self) -> (r: bool)
        ensures
            r == (self is Authorized),
    {
        match self {
            AuthDecision::Authorized(_) => true,
            _ => false,
        }
    }
}

/// The claims a fixture token names so far: subject, audience and scopes.
pub type FixtureState = (Option<Seq<char>>, Option<Seq<char>>, Option<Set<Seq<char>>>);

/// Reads the `key=value` pairs of a fixture token from left to right.
pub open spec fn fixture_fold(pairs: Seq<Seq<char>>, st: FixtureState) -> Result<
    FixtureState,
    BearerFault,
>
    decreases pairs.len(),
{
    if pairs.len() == 0 {
        Ok(st)
    } else {
        let p = pairs[0];
        let i = find_char_from(p, '=', 0);
        if i >= p.len() {
            Err(BearerFault::MalformedToken)
        } else {
            let key = p.subrange(0, i);
            let value = p.subrange(i + 1, p.len() as int);
            if key == "sub"@ {
                fixture_fold(pairs.drop_first(), (Some(value), st.1, st.2))
            } else if key == "aud"@ {
                fixture_fold(pairs.drop_first(), (st.0, Some(value), st.2))
            } else if key == "scope"@ {
                match scope_parse_spec(value) {
                    Ok(set) => fixture_fold(pairs.drop_first(), (st.0, st.1, Some(set))),
                    Err(f) => Err(BearerFault::Scope(f)),
                }
            } else {
                fixture_fold(pairs.drop_first(), st)
            }
        }
    }
}

/// The claims of a fixture token `sub=..;aud=..;scope=..`: subject, audience
/// and scope set, or the fault.
pub open spec fn fixture_claims_spec(token: Seq<char>) -> Result<
    (Seq<char>, Seq<char>, Set<Seq<char>>),
    BearerFault,
> {
    match fixture_fold(split_on(token, ';'), (None, None, None)) {
        Err(f) => Err(f),
        Ok(st) => match st.0 {
            None => Err(BearerFault::MissingSubject),
            Some(sub) => match st.1 {
                None => Err(BearerFault::MissingAudience),
                Some(aud) => Ok(
                    (
                        sub,
                        aud,
                        match st.2 {
                            Some(set) => set,
                            None => Set::empty(),
                        },
                    ),
                ),
            },
        },
    }
}

/// The claims as mathematical values.
pub open spec fn claims_match(c: BearerClaims, want: (Seq<char>, Seq<char>, Set<Seq<char>>)) -> bool {
    c.subject@ == want.0 && c.audience@ == want.1 && scope_set_wf(c.scopes@)
        && c.scopes@.to_set() == want.2
}

impl BearerClaims {
    /// Reads the claims of an `Authorization: Bearer <fixture token>` header.
    pub fn from_authorization_header(raw: &str) -> (r: Result<BearerClaims, BearerError>)
        ensures
            !has_prefix(raw@, "Bearer "@) ==> (r matches Err(e) && e@
                == BearerFault::MissingBearerScheme),
            has_prefix(raw@, "Bearer "@) ==> match fixture_claims_spec(
                raw@.subrange("Bearer "@.len() as int, raw@.len() as int),
            ) {
                Ok(want) => r matches Ok(c) && claims_match(c, want),
                Err(f) => r matches Err(e) && e@ == f,
            },
    {
        if !starts_with(raw, "Bearer ") {
            return Err(BearerError::MissingBearerScheme);
        }
        let v = chars_of(raw);
        let prefix = chars_of("Bearer ");
        let token = string_of_range(&v, prefix.len(), v.len());
        BearerClaims::from_fixture_token(token.as_str())
    }

    /// Reads the claims of a fixture token `sub=..;aud=..;scope=..`; later
    /// pairs override earlier ones and unknown keys are skipped.
    pub fn from_fixture_token(token: &str) -> (r: Result<BearerClaims, BearerError>)
        ensures
            match fixture_claims_spec(token@) {
                Ok(want) => r matches Ok(c) && claims_match(c, want),
                Err(f) => r matches Err(e) && e@ == f,
            },
    {
        let pairs = split_char(token, ';');
        let ghost w = pairs@.map_values(|x: String| x@);
        let mut subject: Option<String> = None;
        let mut audience: Option<String> = None;
        let mut scopes: Option<ScopeSet> = None;
        let mut i: usize = 0;
        assert(w.skip(0) =~= w);
        while i < pairs.len()
            invariant
                w == pairs@.map_values(|x: String| x@),
                w == split_on(token@, ';'),
                i <= w.len(),
                fixture_fold(w, (None, None, None)) == fixture_fold(
                    w.skip(i as int),
                    (
                        match subject {
                            Some(s) => Some(s@),
                            None => None,
                        },
                        match audience {
                            Some(s) => Some(s@),
                            None => None,
                        },
                        match scopes {
                            Some(s) => Some(s@.to_set()),
                            None => None,
                        },
                    ),
                ),
                match scopes {
                    Some(s) => scope_set_wf(s@),
                    None => true,
                },
            decreases w.len() - i,
        {
            let pv = chars_of(pairs[i].as_str());
            let eq = find_char(&pv, '=', 0);
            let ghost p = w[i as int];
            assert(w.skip(i as int)[0] == p);
            assert(w.skip(i as int).drop_first() =~= w.skip(i + 1));
            if eq >= pv.len() {
                return Err(BearerError::MalformedToken);
            }
            let key = string_of_range(&pv, 0, eq);
            let value = string_of_range(&pv, eq + 1, pv.len());
            if str_eq(key.as_str(), "sub") {
                subject = Some(value);
            } else if str_eq(key.as_str(), "aud") {
                audience = Some(value);
            } else if str_eq(key.as_str(), "scope") {
                match ScopeSet::parse(value.as_str()) {
                    Ok(set) => {
                        scopes = Some(set);
                    },
                    Err(e) => {
                        return Err(BearerError::Scope(e));
                    },
                }
            }
            i = i + 1;
        }
        assert(w.skip(w.len() as int).len() == 0);
        let subject = match subject {
            Some(s) => s,
            None => {
                return Err(BearerError::MissingSubject);
            },
        };
        let audience = match audience {
            Some(s) => s,
            None => {
                return Err(BearerError::MissingAudience);
            },
        };
        let scopes = match scopes {
            Some(s) => s,
            None => {
                let e = ScopeSet::empty();
                assert(e@.to_set() =~= Set::<Seq<char>>::empty());
                e
            },
        };
        Ok(BearerClaims { subject, audience, scopes })
    }

    /// A copy of these claims.
    pub fn copy(&self) -> (r: BearerClaims)
        ensures
            r.subject@ == self.subject@,
            r.audience@ == self.audience@,
            r.scopes@ == self.scopes@,
    {
        BearerClaims {
            subject: self.subject.clone(),
            audience: self.audience.clone(),
            scopes: self.scopes.copy(),
        }
    }
}

/// A verifier that knows a fixed set of opaque tokens and the claims each
/// one carries.
#[derive(Clone, Debug)]
pub struct StaticBearerTokenVerifier {
    tokens: Vec<(String, BearerClaims)>,
}

/// The claims that the last entry for `token` carries, if any.
pub open spec fn static_lookup(entries: Seq<(String, BearerClaims)>, token: Seq<char>) -> Option<
    BearerClaims,
>
    decreases entries.len(),
{
    if entries.len() == 0 {
        None
    } else if entries.last().0@ == token {
        Some(entries.last().1)
    } else {
        static_lookup(entries.drop_last(), token)
    }
}

impl StaticBearerTokenVerifier {
    /// A verifier for the given tokens; a token listed twice carries the
    /// claims of its last entry.
    pub fn new(tokens: Vec<(String, BearerClaims)>) -> (r: StaticBearerTokenVerifier)
        ensures
            r.entries() == tokens@,
    {
        StaticBearerTokenVerifier { tokens }
    }

    /// The verifier with no tokens: it refuses every header.
    pub fn empty() -> (r: StaticBearerTokenVerifier)
        ensures
            r.entries() == Seq::<(String, BearerClaims)>::empty(),
    {
        StaticBearerTokenVerifier { tokens: Vec::new() }
    }

    pub closed spec fn entries(&self) -> Seq<(String, BearerClaims)> {
        self.tokens@
    }

    /// Checks an `Authorization` header: it must use the Bearer scheme and
    /// name a known token.
    pub fn verify(&self, authorization: &str) -> (r: Result<BearerClaims, BearerError>)
        ensures
            !has_prefix(authorization@, "Bearer "@) ==> (r matches Err(e) && e@
                == BearerFault::MissingBearerScheme),
            has_prefix(authorization@, "Bearer "@) ==> match static_lookup(
                self.entries(),
                authorization@.subrange("Bearer "@.len() as int, authorization@.len() as int),
            ) {
                Some(c) => r matches Ok(got) && got.subject@ == c.subject@ && got.audience@
                    == c.audience@ && got.scopes@ == c.scopes@,
                None => r matches Err(e) && e@ == BearerFault::InvalidToken,
            },
    {
        if !starts_with(authorization, "Bearer ") {
            return Err(BearerError::MissingBearerScheme);
        }
        let v = chars_of(authorization);
        let prefix = chars_of("Bearer ");
        let token = string_of_range(&v, prefix.len(), v.len());
        proof {
            reveal_strlit("Bearer ");
        }
        assert(token@ == authorization@.subrange("Bearer "@.len() as int, authorization@.len() as int));
        assert(self.tokens@.take(self.tokens@.len() as int) =~= self.tokens@);
        let mut i = self.tokens.len();
        while i > 0
            invariant
                i <= self.tokens@.len(),
                has_prefix(authorization@, "Bearer "@),
                token@ == authorization@.subrange("Bearer "@.len() as int, authorization@.len() as int),
                static_lookup(self.tokens@, token@) == static_lookup(
                    self.tokens@.take(i as int),
                    token@,
                ),
            decreases i,
        {
            let ghost t = self.tokens@.take(i as int);
            assert(t.drop_last() =~= self.tokens@.take(i - 1));
            if str_eq(self.tokens[i - 1].0.as_str(), token.as_str()) {
                return Ok(self.tokens[i - 1].1.copy());
            }
            i = i - 1;
        }
        Err(BearerError::InvalidToken)
    }
}

} // verus!
