//! Fleet nodes: heartbeats, the capabilities they report, and targets for
//! remote execution.
use vstd::prelude::*;
use crate::json_value::{JsonValue, JsonView};

verus! {

/// The name of this crate's boundary, for diagnostics.
pub fn crate_boundary() -> (r: &'static str)
    ensures
        r@ == "agent-fleet"@,
{
    "agent-fleet"
}

#[derive(Clone, Debug, PartialEq, Eq)]
pub struct NodeId(pub String);

impl NodeId {
    pub fn new(id: String) -> (r: NodeId)
        ensures
            r.0 == id,
    {
        NodeId(id)
    }
}

#[derive(Clone, Copy, Debug, PartialEq, Eq, Structural)]
pub enum CapabilityKind {
    McpRuntime,
}

#[derive(Clone, Debug, PartialEq, Eq)]
pub struct CapabilitySummary {
    pub kind: CapabilityKind,
    pub name: String,
    pub version: Option<String>,
}

impl CapabilitySummary {
    pub fn new(kind: CapabilityKind, name: String) -> (r: CapabilitySummary)
        ensures
            r.kind == kind,
            r.name == name,
            r.version is None,
    {
        CapabilitySummary { kind, name, version: None }
    }

    pub fn with_version(self, version: String) -> (r: CapabilitySummary)
        ensures
            r.kind == self.kind,
            r.name == self.name,
            r.version == Some(version),
    {
        CapabilitySummary { version: Some(version), ..self }
    }
}

#[derive(Clone, Copy, Debug, PartialEq, Eq, Structural)]
pub enum FleetStatus {
    Online,
    Degraded,
    Offline,
    Unknown,
}

#[derive(Clone, Debug, PartialEq, Eq)]
pub struct FleetHeartbeat {
    pub node_id: NodeId,
    pub status: FleetStatus,
    pub checked_at: String,
    pub capabilities: Vec<CapabilitySummary>,
}

impl FleetHeartbeat {
    /// A heartbeat that reports no capability yet.
    pub fn new(node_id: NodeId, status: FleetStatus, checked_at: String) -> (r: FleetHeartbeat)
        ensures
            r.node_id == node_id,
            r.status == status,
            r.checked_at == checked_at,
            r.capabilities@.len() == 0,
    {
        FleetHeartbeat { node_id, status, checked_at, capabilities: Vec::new() }
    }

    /// The same heartbeat reporting one more capability, last.
    pub fn with_capability(self, capability: CapabilitySummary) -> (r: FleetHeartbeat)
        ensures
            r.node_id == self.node_id,
            r.status == self.status,
            r.checked_at == self.checked_at,
            r.capabilities@ == self.capabilities@.push(capability),
    {
        let mut h = self;
        h.capabilities.push(capability);
        h
    }

    /// Online and degraded nodes take work; offline and unknown ones do not.
    pub fn is_available(&self) -> (r: bool)
        ensures
            r == (self.status == FleetStatus::Online || self.status == FleetStatus::Degraded),
    {
        match self.status {
            FleetStatus::Online | FleetStatus::Degraded => true,
            _ => false,
        }
    }
}

#[derive(Clone, Debug, PartialEq, Eq)]
pub struct ExecutionTarget {
    pub node_id: NodeId,
    pub capability_name: Option<String>,
}

impl ExecutionTarget {
    /// The node itself, no particular capability.
    pub fn node(node_id: NodeId) -> (r: ExecutionTarget)
        ensures
            r.node_id == node_id,
            r.capability_name is None,
    {
        ExecutionTarget { node_id, capability_name: None }
    }

    /// The same target narrowed to a capability.
    pub fn capability(self, name: String) -> (r: ExecutionTarget)
        ensures
            r.node_id == self.node_id,
            r.capability_name == Some(name),
    {
        ExecutionTarget { node_id: self.node_id, capability_name: Some(name) }
    }
}


/// A request to run an action on a fleet node.
#[derive(Debug)]
pub struct RemoteExecutionRequest {
    pub request_id: String,
    pub target: ExecutionTarget,
    pub action_id: String,
    pub arguments: JsonValue,
}

impl RemoteExecutionRequest {
    /// A request with empty (object) arguments.
    pub fn new(request_id: String, target: ExecutionTarget, action_id: String) -> (r:
        RemoteExecutionRequest)
        ensures
            r.request_id == request_id,
            r.target == target,
            r.action_id == action_id,
            r.arguments@ == JsonView::Object(Seq::empty()),
    {
        let entries: Vec<(String, JsonValue)> = Vec::new();
        proof {
            crate::json_value::lemma_json_entries_model(entries@);
            assert(crate::json_value::json_entries_model(entries@) =~= Seq::<(Seq<char>, JsonView)>::empty());
        }
        RemoteExecutionRequest { request_id, target, action_id, arguments: JsonValue::Object(entries) }
    }

    /// The same request with the given arguments.
    pub fn with_arguments(self, arguments: JsonValue) -> (r: RemoteExecutionRequest)
        ensures
            r.request_id == self.request_id,
            r.target == self.target,
            r.action_id == self.action_id,
            r.arguments == arguments,
    {
        RemoteExecutionRequest {
            request_id: self.request_id,
            target: self.target,
            action_id: self.action_id,
            arguments,
        }
    }
}

} // verus!
