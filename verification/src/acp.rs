//! Agent Client Protocol vocabulary: errors, events, prompts, session ids and
//! session commands.
use vstd::prelude::*;
use crate::json_value::JsonValue;
use crate::text::{push_str, string_from};

verus! {

#[derive(Clone, Debug, PartialEq, Eq)]
pub enum AcpError {
    Conversion(String),
    InvalidCommand(String),
}

impl AcpError {
    /// The stable name of the error's kind.
    pub fn kind(&self) -> (r: &'static str)
        ensures
            r@ == match self {
                AcpError::Conversion(_) => "acp_conversion"@,
                AcpError::InvalidCommand(_) => "acp_invalid_command"@,
            },
    {
        match self {
            AcpError::Conversion(_) => "acp_conversion",
            AcpError::InvalidCommand(_) => "acp_invalid_command",
        }
    }

    /// The error's message.
    pub fn message(&self) -> (r: String)
        ensures
            r@ == match self {
                AcpError::Conversion(m) => "ACP conversion failed: "@ + m@,
                AcpError::InvalidCommand(m) => "ACP session command invalid: "@ + m@,
            },
    {
        match self {
            AcpError::Conversion(m) => {
                let mut r = string_from("ACP conversion failed: ");
                push_str(&mut r, m.as_str());
                r
            },
            AcpError::InvalidCommand(m) => {
                let mut r = string_from("ACP session command invalid: ");
                push_str(&mut r, m.as_str());
                r
            },
        }
    }
}

#[derive(Clone, Copy, Debug, PartialEq, Eq, Structural)]
pub enum AcpEventKind {
    MessageChunk,
    ReasoningChunk,
    ToolCall,
    ToolCallUpdate,
    PermissionRequest,
    UsageUpdate,
    SessionInfo,
    Unknown,
}

#[derive(Clone, Debug, PartialEq, Eq)]
pub struct AcpSessionId(pub String);


/// An event of an agent session; the payload as the agent sent it.
#[derive(Debug)]
pub struct AcpEvent {
    pub kind: AcpEventKind,
    pub payload: JsonValue,
}

/// A prompt for an agent, with its attachments.
#[derive(Debug)]
pub struct AcpPromptRequest {
    pub prompt: String,
    pub attachments: Vec<JsonValue>,
}

/// A command sent to an agent session.
#[derive(Debug)]
pub enum AcpSessionCommand {
    Prompt { request: AcpPromptRequest },
    Cancel,
    ApprovePermission { request_id: String, option_id: String },
    RejectPermission { request_id: String },
}

} // verus!
