//! Events of agent connections, and what conversations and delegations come to.

use vstd::prelude::*;
use crate::json::Json;

verus! {

/// Where a connection to an agent stands.
#[derive(Debug, Clone, Copy, PartialEq, Eq, Structural)]
pub enum ConnectionStatus {
    Connecting,
    Connected,
    Prompting,
    Disconnected,
    Error,
}

/// Where a conversation stands.
#[derive(Debug, Clone, Copy, PartialEq, Eq, Structural)]
pub enum ConversationStatus {
    InProgress,
    PendingReview,
    Completed,
    Cancelled,
}

/// The agents that conversations run on.
#[derive(Debug, Clone, Copy, PartialEq, Eq, Structural)]
pub enum AgentType {
    ClaudeCode,
    Codex,
    OpenCode,
    Gemini,
    OpenClaw,
    Cline,
}

/// An answer that an agent offers with a permission request.
#[derive(Debug, PartialEq)]
pub struct PermissionOption {
    pub option_id: String,
    pub name: String,
    pub kind: String,
}

/// What a `PermissionOption` says.
pub struct Choice {
    pub id: Seq<char>,
    pub name: Seq<char>,
    pub kind: Seq<char>,
}

impl View for PermissionOption {
    type V = Choice;

    open spec fn view(&self) -> Choice {
        Choice { id: self.option_id@, name: self.name@, kind: self.kind@ }
    }
}

/// What options say, in order.
pub open spec fn choices(options: Seq<PermissionOption>) -> Seq<Choice> {
    options.map_values(|o: PermissionOption| o@)
}

impl Clone for PermissionOption {
    fn clone(&self) -> (r: Self)
        ensures
            r@ == self@,
    {
        PermissionOption {
            option_id: self.option_id.clone(),
            name: self.name.clone(),
            kind: self.kind.clone(),
        }
    }
}

/// What an agent connection reports.
#[derive(Debug, PartialEq)]
#[allow(inconsistent_fields)]
pub enum AcpEvent {
    SessionStarted { session_id: String },
    ContentDelta { text: String },
    ToolCall {
        tool_call_id: String,
        title: String,
        kind: String,
        status: String,
        content: Option<String>,
        raw_input: Option<String>,
        raw_output: Option<String>,
        locations: Option<Json>,
        meta: Option<Json>,
        images: Option<Json>,
    },
    ToolCallUpdate {
        tool_call_id: String,
        title: Option<String>,
        status: Option<String>,
        content: Option<String>,
        raw_input: Option<String>,
        raw_output: Option<String>,
    },
    PermissionRequest { request_id: String, tool_call: Json, options: Vec<PermissionOption> },
    TurnComplete { session_id: String, stop_reason: String, agent_type: String },
    ConversationLinked {
        conversation_id: i32,
        folder_id: i32,
        parent_conversation_id: Option<i32>,
        parent_tool_use_id: Option<String>,
    },
    ConversationStatusChanged { conversation_id: i32, status: ConversationStatus },
    StatusChanged { status: ConnectionStatus },
    Error { message: String, agent_type: String, code: Option<String>, terminal: bool },
}

/// An event and the connection it comes from.
#[derive(Debug, PartialEq)]
pub struct EventEnvelope {
    pub seq: u64,
    pub connection_id: String,
    pub payload: AcpEvent,
}

/// What a delegated task came to.
#[derive(Debug, PartialEq)]
pub struct DelegationSuccess {
    pub text: String,
    pub child_conversation_id: i32,
    pub child_agent_type: AgentType,
    pub turn_count: u32,
    pub duration_ms: u64,
    pub token_usage: Option<u64>,
}

/// Why a delegated task failed.
#[derive(Debug, PartialEq)]
pub enum DelegationError {
    Canceled { reason: String },
    ChildRefusal,
    ChildMaxTokens,
    ChildMaxTurnRequests,
    ChildEmpty,
    ChildUnknown(String),
}

/// How a delegated task ended.
#[derive(Debug, PartialEq)]
pub enum DelegationOutcome {
    Done(DelegationSuccess),
    Failed { error: DelegationError, child_conversation_id: Option<i32> },
}

} // verus!
