//! The protected MCP endpoint's handlers as steps: each takes what the
//! request carried and what was looked up for it, and gives the reply or
//! the next thing to do (dispatch, open a session, stream).
use vstd::prelude::*;
use crate::api::{
    is_valid_session_id, last_event_id, next_event_id_spec, next_sse_event_id, session_id,
    McpTransportRejection, ProtectedMcpResponse,
};
use crate::sessions::{live_get, McpSessions};
use crate::strmap::sm_get;
use crate::text::string_from;

verus! {

/// Checks a request's session header against the open sessions at `now`,
/// pruning expired sessions first: no header passes; a malformed id or one
/// that is not open is refused.
pub fn validate_known_session(session_header: Option<&str>, sessions: &mut McpSessions, now: u64) -> (r:
    Result<(), McpTransportRejection>)
    requires
        old(sessions).wf(),
    ensures
        final(sessions).wf(),
        match session_header {
            None => r is Ok && *final(sessions) == *old(sessions),
            Some(h) => if !is_valid_session_id(h@) {
                r == Err::<(), McpTransportRejection>(McpTransportRejection::InvalidSessionId)
                    && *final(sessions) == *old(sessions)
            } else {
                &&& forall|k: Seq<char>| #[trigger] sm_get(final(sessions).entries(), k)
                    == live_get(old(sessions).entries(), now, k)
                &&& if live_get(old(sessions).entries(), now, h@) is Some {
                    r is Ok
                } else {
                    r == Err::<(), McpTransportRejection>(McpTransportRejection::UnknownSessionId)
                }
            },
        },
{
    let id = match session_id(session_header) {
        Err(e) => {
            return Err(e);
        },
        Ok(None) => {
            return Ok(());
        },
        Ok(Some(id)) => id,
    };
    let ghost before = sessions.entries();
    sessions.prune_expired(now);
    if sessions.contains(id.as_str(), now) {
        Ok(())
    } else {
        proof {
            let e = sessions.entries();
            assert(sm_get(e, id@) == live_get(before, now, id@));
        }
        Err(McpTransportRejection::UnknownSessionId)
    }
}

// ---------------------------------------------------------------------------
// JSON-RPC over POST.
/// What the upstream runtime gave for a dispatched JSON-RPC request: a
/// JSON-RPC body (with a `result` or not), or a refusal of the route.
#[derive(Debug)]
pub enum JsonRpcOutcome {
    JsonRpc { has_result: bool },
    Rejected(ProtectedMcpResponse),
}

/// The reply to a JSON-RPC POST.
#[derive(Debug, PartialEq, Eq)]
pub enum JsonRpcReply {
    /// The transport rules refused the request.
    TransportRejected(McpTransportRejection),
    /// A notification: `202 Accepted` without a body.
    Accepted,
    /// The JSON-RPC body; with a new session opened for it when it answers
    /// an `initialize` request with a result.
    Body { open_session: bool },
    /// The route refused the request.
    Refused(ProtectedMcpResponse),
}

/// Whether a JSON-RPC POST goes on to dispatch: the transport check first,
/// then the session check.
pub fn protected_json_rpc_admit(
    transport: Result<(), McpTransportRejection>,
    known_session: Result<(), McpTransportRejection>,
) -> (r: Result<(), McpTransportRejection>)
    ensures
        r == match transport {
            Err(e) => Err(e),
            Ok(()) => known_session,
        },
{
    match transport {
        Err(e) => Err(e),
        Ok(()) => known_session,
    }
}

/// The reply to a dispatched JSON-RPC request: a notification gets no body,
/// an `initialize` answered with a result opens a session, and a refusal of
/// the route is passed on.
pub fn protected_json_rpc_reply(outcome: JsonRpcOutcome, notification: bool, initialize: bool) -> (r:
    JsonRpcReply)
    ensures
        match outcome {
            JsonRpcOutcome::Rejected(resp) => r == JsonRpcReply::Refused(resp),
            JsonRpcOutcome::JsonRpc { has_result } => if notification {
                r == JsonRpcReply::Accepted
            } else {
                r == (JsonRpcReply::Body { open_session: initialize && has_result })
            },
        },
{
    match outcome {
        JsonRpcOutcome::Rejected(resp) => JsonRpcReply::Refused(resp),
        JsonRpcOutcome::JsonRpc { has_result } => if notification {
            JsonRpcReply::Accepted
        } else {
            JsonRpcReply::Body { open_session: initialize && has_result }
        },
    }
}

// ---------------------------------------------------------------------------
// The event stream over GET.
/// The reply to an event-stream GET.
#[derive(Debug, PartialEq, Eq)]
pub enum SseGetReply {
    TransportRejected(McpTransportRejection),
    Refused(ProtectedMcpResponse),
    /// One `endpoint` event with the given id and data, in the session
    /// `session_id` (`None`: a new session is opened for it).
    Stream { session_id: Option<String>, event_id: String, data: String },
}

/// The reply to an event-stream GET: the transport and session checks, then
/// the route's decision (only a dispatch goes on), then the stream's
/// session (the request's, or a new one) and its first event, numbered
/// after the request's `Last-Event-ID`, carrying the request path.
pub fn protected_sse_get_step(
    transport: Result<(), McpTransportRejection>,
    known_session: Result<(), McpTransportRejection>,
    authorization: ProtectedMcpResponse,
    session_header: Option<&str>,
    last_event_header: Option<&str>,
    path: &str,
) -> (r: SseGetReply)
    ensures
        match (transport, known_session) {
            (Err(e), _) => r == SseGetReply::TransportRejected(e),
            (Ok(()), Err(e)) => r == SseGetReply::TransportRejected(e),
            _ => if !(authorization is DispatchAllowed) {
                r == SseGetReply::Refused(authorization)
            } else {
                match session_header {
                    Some(h) if !is_valid_session_id(h@) => r == SseGetReply::TransportRejected(
                        McpTransportRejection::InvalidSessionId,
                    ),
                    _ => r matches SseGetReply::Stream { session_id, event_id, data } && data@
                        == path@ && event_id@ == next_event_id_spec(
                        match last_event_header {
                            Some(l) => if is_valid_session_id(l@) {
                                l@
                            } else {
                                "0"@
                            },
                            None => "0"@,
                        },
                    ) && match session_header {
                        Some(h) => session_id matches Some(s) && s@ == h@,
                        None => session_id is None,
                    },
                }
            },
        },
{
    if let Err(e) = transport {
        return SseGetReply::TransportRejected(e);
    }
    if let Err(e) = known_session {
        return SseGetReply::TransportRejected(e);
    }
    match authorization {
        ProtectedMcpResponse::DispatchAllowed { .. } => {},
        other => {
            return SseGetReply::Refused(other);
        },
    }
    let session = match session_id(session_header) {
        Err(e) => {
            return SseGetReply::TransportRejected(e);
        },
        Ok(s) => s,
    };
    let last = last_event_id(last_event_header);
    let event_id = next_sse_event_id(last.as_str());
    SseGetReply::Stream { session_id: session, event_id, data: string_from(path) }
}

// ---------------------------------------------------------------------------
// Closing a session.
/// The reply to a session DELETE.
#[derive(Debug, PartialEq, Eq)]
pub enum DeleteSessionReply {
    Refused(ProtectedMcpResponse),
    TransportRejected(McpTransportRejection),
    /// `204 No Content`: the session was closed.
    Deleted,
}

/// Closes the request's session when the route lets the request through:
/// a missing or malformed id is refused, and so is one that is not open.
pub fn protected_delete_session(
    authorization: ProtectedMcpResponse,
    session_header: Option<&str>,
    sessions: &mut McpSessions,
) -> (r: DeleteSessionReply)
    requires
        old(sessions).wf(),
    ensures
        final(sessions).wf(),
        !(authorization is DispatchAllowed) ==> r == DeleteSessionReply::Refused(authorization)
            && *final(sessions) == *old(sessions),
        authorization is DispatchAllowed ==> match session_header {
            Some(h) if is_valid_session_id(h@) => {
                &&& forall|k: Seq<char>| #[trigger] sm_get(final(sessions).entries(), k) == if k
                    == h@ {
                    None
                } else {
                    sm_get(old(sessions).entries(), k)
                }
                &&& if sm_get(old(sessions).entries(), h@) is Some {
                    r == DeleteSessionReply::Deleted
                } else {
                    r == DeleteSessionReply::TransportRejected(
                        McpTransportRejection::UnknownSessionId,
                    )
                }
            },
            _ => r == DeleteSessionReply::TransportRejected(
                McpTransportRejection::InvalidSessionId,
            ) && *final(sessions) == *old(sessions),
        },
{
    match authorization {
        ProtectedMcpResponse::DispatchAllowed { .. } => {},
        other => {
            return DeleteSessionReply::Refused(other);
        },
    }
    let id = match session_id(session_header) {
        Ok(Some(id)) => id,
        _ => {
            return DeleteSessionReply::TransportRejected(McpTransportRejection::InvalidSessionId);
        },
    };
    if sessions.remove(id.as_str()) {
        DeleteSessionReply::Deleted
    } else {
        DeleteSessionReply::TransportRejected(McpTransportRejection::UnknownSessionId)
    }
}

} // verus!
