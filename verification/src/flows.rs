//! The decisions of the OAuth refresh and callback endpoints, as state
//! machines: the caller performs each action (taking a lock, asking the OAuth
//! service, calling the token endpoint) and reports its outcome as the next
//! event; the machine says what to do next, ending with the reply.
use vstd::prelude::*;
use crate::api::{ApiErrorResponse, OAuthCallbackRequest, OAuthRefreshHttpRequest};
use crate::oauth::OAuthStatus;
use crate::text::string_from;

verus! {

// ---------------------------------------------------------------------------
// Refresh.
#[derive(Clone, Debug, PartialEq, Eq)]
pub enum RefreshState {
    Start,
    /// Waiting to learn whether the refresh lock was taken.
    Locking,
    /// Another refresh runs: reading the current status to report it.
    ReadingStatus,
    /// Refreshing with the result the request carries.
    RefreshingWithResult,
    /// Building the token endpoint from the request.
    MakingEndpoint,
    /// Asking the service for the refresh request to send.
    Beginning,
    /// Waiting for the token endpoint's answer.
    Exchanging,
    /// Storing the new tokens.
    Finishing,
    /// Recording the failed refresh; the text is the token endpoint's error.
    MarkingFailed(String),
    Done,
}

#[derive(Debug, PartialEq, Eq)]
pub enum RefreshEvent {
    Started,
    /// Whether the lock was taken.
    Lock(bool),
    /// A status from the service, or its error message.
    Status(Result<OAuthStatus, String>),
    /// Whether the token endpoint could be built, or why not.
    Endpoint(Result<(), String>),
    /// Whether the service had a refresh request to send, or its error.
    Begun(Result<bool, String>),
    /// Whether the token endpoint answered with new tokens, or its error.
    Exchanged(Result<(), String>),
    /// Whether the failure was recorded, or the service's error.
    Marked(Result<(), String>),
}

#[derive(Debug, PartialEq, Eq)]
pub enum RefreshAction {
    TryLock,
    ReadStatus,
    RefreshWithResult,
    MakeEndpoint,
    BeginRefresh,
    Exchange,
    FinishRefresh,
    MarkRefreshFailed,
    /// Answer with this status (of the request's subject and upstream) or
    /// this error.
    Reply(Result<OAuthStatus, ApiErrorResponse>),
}

/// The event that reports the outcome of what `state` waits for.
pub open spec fn refresh_event_fits(state: RefreshState, event: RefreshEvent) -> bool {
    match state {
        RefreshState::Start => event is Started,
        RefreshState::Locking => event is Lock,
        RefreshState::ReadingStatus => event is Status,
        RefreshState::RefreshingWithResult => event is Status,
        RefreshState::MakingEndpoint => event is Endpoint,
        RefreshState::Beginning => event is Begun,
        RefreshState::Exchanging => event is Exchanged,
        RefreshState::Finishing => event is Status,
        RefreshState::MarkingFailed(_) => event is Marked,
        RefreshState::Done => false,
    }
}

pub open spec fn replies_status(a: RefreshAction, s: OAuthStatus) -> bool {
    a matches RefreshAction::Reply(Ok(x)) && x == s
}

pub open spec fn replies_bad_request(a: RefreshAction, m: Seq<char>) -> bool {
    a matches RefreshAction::Reply(Err(e)) && e.status == 400 && e.code@ == "bad_request"@
        && e.message@ == m
}

fn reply_status(r: Result<OAuthStatus, String>) -> (a: RefreshAction)
    ensures
        match r {
            Ok(s) => replies_status(a, s),
            Err(m) => replies_bad_request(a, m@),
        },
{
    match r {
        Ok(s) => RefreshAction::Reply(Ok(s)),
        Err(m) => RefreshAction::Reply(Err(ApiErrorResponse::bad_request(m))),
    }
}

impl OAuthRefreshHttpRequest {
    /// One step of the refresh endpoint. With the lock taken, a request that
    /// carries a refresh result is applied directly; otherwise the token
    /// endpoint and client id are required, the service's refresh request is
    /// sent, and a failed exchange is recorded before its error is returned.
    /// Without the lock, the current status is reported.
    pub fn refresh_step(&self, state: RefreshState, event: RefreshEvent) -> (r: (
        RefreshState,
        RefreshAction,
    ))
        requires
            refresh_event_fits(state, event),
        ensures
            match (state, event) {
                (RefreshState::Start, _) => r == (RefreshState::Locking, RefreshAction::TryLock),
                (RefreshState::Locking, RefreshEvent::Lock(false)) => r == (
                    RefreshState::ReadingStatus,
                    RefreshAction::ReadStatus,
                ),
                (RefreshState::Locking, RefreshEvent::Lock(true)) => if self.result is Some {
                    r == (RefreshState::RefreshingWithResult, RefreshAction::RefreshWithResult)
                } else if self.token_endpoint is Some && self.client_id is Some {
                    r == (RefreshState::MakingEndpoint, RefreshAction::MakeEndpoint)
                } else {
                    r.0 == RefreshState::Done && replies_bad_request(
                        r.1,
                        "token_endpoint and client_id are required for live OAuth refresh"@,
                    )
                },
                (RefreshState::ReadingStatus, RefreshEvent::Status(res))
                | (RefreshState::RefreshingWithResult, RefreshEvent::Status(res))
                | (RefreshState::Finishing, RefreshEvent::Status(res)) => r.0 == RefreshState::Done
                    && match res {
                    Ok(s) => replies_status(r.1, s),
                    Err(m) => replies_bad_request(r.1, m@),
                },
                (RefreshState::MakingEndpoint, RefreshEvent::Endpoint(res)) => match res {
                    Ok(()) => r == (RefreshState::Beginning, RefreshAction::BeginRefresh),
                    Err(m) => r.0 == RefreshState::Done && replies_bad_request(r.1, m@),
                },
                (RefreshState::Beginning, RefreshEvent::Begun(res)) => match res {
                    Ok(true) => r == (RefreshState::Exchanging, RefreshAction::Exchange),
                    Ok(false) => r.0 == RefreshState::Done && replies_status(
                        r.1,
                        OAuthStatus::RefreshFailed,
                    ),
                    Err(m) => r.0 == RefreshState::Done && replies_bad_request(r.1, m@),
                },
                (RefreshState::Exchanging, RefreshEvent::Exchanged(res)) => match res {
                    Ok(()) => r == (RefreshState::Finishing, RefreshAction::FinishRefresh),
                    Err(m) => r == (
                        RefreshState::MarkingFailed(m),
                        RefreshAction::MarkRefreshFailed,
                    ),
                },
                (RefreshState::MarkingFailed(m), RefreshEvent::Marked(res)) => r.0
                    == RefreshState::Done && match res {
                    Ok(()) => replies_bad_request(r.1, m@),
                    Err(m2) => replies_bad_request(r.1, m2@),
                },
                _ => false,
            },
    {
        match state {
            RefreshState::Start => (RefreshState::Locking, RefreshAction::TryLock),
            RefreshState::Locking => match event {
                RefreshEvent::Lock(false) => (RefreshState::ReadingStatus, RefreshAction::ReadStatus),
                _ => {
                    if self.result.is_some() {
                        (RefreshState::RefreshingWithResult, RefreshAction::RefreshWithResult)
                    } else if self.token_endpoint.is_some() && self.client_id.is_some() {
                        (RefreshState::MakingEndpoint, RefreshAction::MakeEndpoint)
                    } else {
                        (
                            RefreshState::Done,
                            RefreshAction::Reply(
                                Err(
                                    ApiErrorResponse::bad_request(
                                        string_from(
                                            "token_endpoint and client_id are required for live OAuth refresh",
                                        ),
                                    ),
                                ),
                            ),
                        )
                    }
                },
            },
            RefreshState::ReadingStatus | RefreshState::RefreshingWithResult
            | RefreshState::Finishing => match event {
                RefreshEvent::Status(res) => (RefreshState::Done, reply_status(res)),
                _ => (RefreshState::Done, RefreshAction::TryLock),
            },
            RefreshState::MakingEndpoint => match event {
                RefreshEvent::Endpoint(Ok(())) => (RefreshState::Beginning, RefreshAction::BeginRefresh),
                RefreshEvent::Endpoint(Err(m)) => (
                    RefreshState::Done,
                    RefreshAction::Reply(Err(ApiErrorResponse::bad_request(m))),
                ),
                _ => (RefreshState::Done, RefreshAction::TryLock),
            },
            RefreshState::Beginning => match event {
                RefreshEvent::Begun(Ok(true)) => (RefreshState::Exchanging, RefreshAction::Exchange),
                RefreshEvent::Begun(Ok(false)) => (
                    RefreshState::Done,
                    RefreshAction::Reply(Ok(OAuthStatus::RefreshFailed)),
                ),
                RefreshEvent::Begun(Err(m)) => (
                    RefreshState::Done,
                    RefreshAction::Reply(Err(ApiErrorResponse::bad_request(m))),
                ),
                _ => (RefreshState::Done, RefreshAction::TryLock),
            },
            RefreshState::Exchanging => match event {
                RefreshEvent::Exchanged(Ok(())) => (RefreshState::Finishing, RefreshAction::FinishRefresh),
                RefreshEvent::Exchanged(Err(m)) => (
                    RefreshState::MarkingFailed(m),
                    RefreshAction::MarkRefreshFailed,
                ),
                _ => (RefreshState::Done, RefreshAction::TryLock),
            },
            RefreshState::MarkingFailed(m) => match event {
                RefreshEvent::Marked(Ok(())) => (
                    RefreshState::Done,
                    RefreshAction::Reply(Err(ApiErrorResponse::bad_request(m))),
                ),
                RefreshEvent::Marked(Err(m2)) => (
                    RefreshState::Done,
                    RefreshAction::Reply(Err(ApiErrorResponse::bad_request(m2))),
                ),
                _ => (RefreshState::Done, RefreshAction::TryLock),
            },
            RefreshState::Done => (RefreshState::Done, RefreshAction::TryLock),
        }
    }
}

// ---------------------------------------------------------------------------
// Callback.
#[derive(Clone, Debug, PartialEq, Eq)]
pub enum CallbackState {
    Start,
    /// Storing the credential the request carries.
    Completing,
    /// Building the token endpoint from the request.
    MakingEndpoint,
    /// Checking the callback against the pending authorization.
    BeginningExchange,
    /// Waiting for the token endpoint to exchange the code.
    Exchanging,
    /// Storing the exchanged tokens.
    Finishing,
    Done,
}

#[derive(Debug, PartialEq, Eq)]
pub enum CallbackEvent {
    Started,
    /// The outcome of the step the state waits for, or its error message.
    Outcome(Result<(), String>),
}

#[derive(Debug, PartialEq, Eq)]
pub enum CallbackAction {
    CompleteCallback,
    MakeEndpoint,
    BeginExchange,
    ExchangeCode,
    FinishExchange,
    /// Answer `204 No Content`, or with this error.
    Reply(Result<(), ApiErrorResponse>),
}

pub open spec fn callback_event_fits(state: CallbackState, event: CallbackEvent) -> bool {
    match state {
        CallbackState::Start => event is Started,
        CallbackState::Done => false,
        _ => event is Outcome,
    }
}

pub open spec fn callback_bad_request(a: CallbackAction, m: Seq<char>) -> bool {
    a matches CallbackAction::Reply(Err(e)) && e.status == 400 && e.code@ == "bad_request"@
        && e.message@ == m
}

impl OAuthCallbackRequest {
    /// One step of the callback endpoint. A request that carries a credential
    /// stores it; otherwise token endpoint, client id, redirect URI and code
    /// verifier are required, the callback is checked, the code exchanged and
    /// the tokens stored. Any failure answers a bad request with its message.
    pub fn callback_step(&self, state: CallbackState, event: CallbackEvent) -> (r: (
        CallbackState,
        CallbackAction,
    ))
        requires
            callback_event_fits(state, event),
        ensures
            match (state, event) {
                (CallbackState::Start, _) => if self.credential is Some {
                    r == (CallbackState::Completing, CallbackAction::CompleteCallback)
                } else if self.token_endpoint is Some && self.client_id is Some
                    && self.redirect_uri is Some && self.code_verifier is Some {
                    r == (CallbackState::MakingEndpoint, CallbackAction::MakeEndpoint)
                } else {
                    r.0 == CallbackState::Done && callback_bad_request(
                        r.1,
                        "token_endpoint, client_id, redirect_uri, and code_verifier are required for live OAuth callback exchange"@,
                    )
                },
                (s, CallbackEvent::Outcome(Err(m))) => r.0 == CallbackState::Done
                    && callback_bad_request(r.1, m@),
                (CallbackState::Completing, CallbackEvent::Outcome(Ok(())))
                | (CallbackState::Finishing, CallbackEvent::Outcome(Ok(()))) => r == (
                    CallbackState::Done,
                    CallbackAction::Reply(Ok(())),
                ),
                (CallbackState::MakingEndpoint, CallbackEvent::Outcome(Ok(()))) => r == (
                    CallbackState::BeginningExchange,
                    CallbackAction::BeginExchange,
                ),
                (CallbackState::BeginningExchange, CallbackEvent::Outcome(Ok(()))) => r == (
                    CallbackState::Exchanging,
                    CallbackAction::ExchangeCode,
                ),
                (CallbackState::Exchanging, CallbackEvent::Outcome(Ok(()))) => r == (
                    CallbackState::Finishing,
                    CallbackAction::FinishExchange,
                ),
                _ => false,
            },
    {
        match state {
            CallbackState::Start => {
                if self.credential.is_some() {
                    (CallbackState::Completing, CallbackAction::CompleteCallback)
                } else if self.token_endpoint.is_some() && self.client_id.is_some()
                    && self.redirect_uri.is_some() && self.code_verifier.is_some() {
                    (CallbackState::MakingEndpoint, CallbackAction::MakeEndpoint)
                } else {
                    (
                        CallbackState::Done,
                        CallbackAction::Reply(
                            Err(
                                ApiErrorResponse::bad_request(
                                    string_from(
                                        "token_endpoint, client_id, redirect_uri, and code_verifier are required for live OAuth callback exchange",
                                    ),
                                ),
                            ),
                        ),
                    )
                }
            },
            _ => match event {
                CallbackEvent::Outcome(Err(m)) => (
                    CallbackState::Done,
                    CallbackAction::Reply(Err(ApiErrorResponse::bad_request(m))),
                ),
                _ => match state {
                    CallbackState::MakingEndpoint => (
                        CallbackState::BeginningExchange,
                        CallbackAction::BeginExchange,
                    ),
                    CallbackState::BeginningExchange => (
                        CallbackState::Exchanging,
                        CallbackAction::ExchangeCode,
                    ),
                    CallbackState::Exchanging => (
                        CallbackState::Finishing,
                        CallbackAction::FinishExchange,
                    ),
                    _ => (CallbackState::Done, CallbackAction::Reply(Ok(()))),
                },
            },
        }
    }
}

} // verus!
