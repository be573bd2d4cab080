//! What connection events mean for conversations and delegations: which events
//! matter, which rows are written, when a delegation is resolved, and when the
//! worker of a connection goes away.

use vstd::prelude::*;
use crate::acp::types::AcpEvent;
use crate::acp::types::AgentType;
use crate::acp::types::ConnectionStatus;
use crate::acp::types::ConversationStatus;
use crate::acp::types::DelegationError;
use crate::acp::types::DelegationOutcome;
use crate::acp::types::DelegationSuccess;
use crate::acp::types::EventEnvelope;
use crate::json::parsed;
use crate::json::Json;
use crate::json::JsonTree;
use crate::keyed::KeyedStore;
use crate::text::as_text;
use crate::text::ascii_lower;
use crate::text::breaks_line;
use crate::text::contains;
use crate::text::fold_lines;
use crate::text::folded;
use crate::text::lemma_folded;
use crate::text::occurs;
use crate::text::opt_string;
use crate::text::opt_text;
use crate::text::same_text;
use crate::text::to_ascii_lowercase;
use crate::text::trim;
use crate::text::trimmed;
use crate::text::underscore;
use crate::text::underscored;

verus! {

// ─── which events matter ─────────────────────────────────────────────────

/// How many events a worker's mailbox holds.
pub const WORKER_QUEUE_CAPACITY: usize = 64;

/// Whether an event ends its connection.
pub open spec fn ends_connection(event: AcpEvent) -> bool {
    match event {
        AcpEvent::StatusChanged { status } => status == ConnectionStatus::Disconnected,
        AcpEvent::Error { terminal, .. } => terminal,
        _ => false,
    }
}

/// Whether an event is one that a worker acts on.
pub open spec fn matters(event: AcpEvent) -> bool {
    match event {
        AcpEvent::SessionStarted { .. } => true,
        AcpEvent::TurnComplete { .. } => true,
        AcpEvent::ConversationLinked { .. } => true,
        AcpEvent::ToolCall { .. } => true,
        AcpEvent::StatusChanged { status } => status == ConnectionStatus::Disconnected,
        AcpEvent::Error { .. } => true,
        _ => false,
    }
}

/// Whether an event has to reach the connection's worker.
pub fn is_lifecycle_relevant(event: &AcpEvent) -> (r: bool)
    ensures
        r == matters(*event),
{
    match event {
        AcpEvent::SessionStarted { .. } => true,
        AcpEvent::TurnComplete { .. } => true,
        AcpEvent::ConversationLinked { .. } => true,
        AcpEvent::ToolCall { .. } => true,
        AcpEvent::StatusChanged { status } => *status == ConnectionStatus::Disconnected,
        AcpEvent::Error { .. } => true,
        _ => false,
    }
}

/// Whether the connection's worker goes away after this event. An error that is
/// not terminal keeps it: the end of the turn is still to come.
pub fn is_dispatcher_terminal(event: &AcpEvent) -> (r: bool)
    ensures
        r == ends_connection(*event),
{
    match event {
        AcpEvent::StatusChanged { status } => *status == ConnectionStatus::Disconnected,
        AcpEvent::Error { terminal, .. } => *terminal,
        _ => false,
    }
}

/// Whether the code of an error says anything.
pub open spec fn telling_code(code: Option<Seq<char>>) -> bool {
    code matches Some(c) && trimmed(c).len() > 0
}

/// What is said of an error. Where it has a code: the code in brackets and the
/// message, on one line. Else the message as it stands. White space around the
/// message is left out either way.
pub open spec fn error_detail(message: Seq<char>, code: Option<Seq<char>>) -> Seq<char> {
    if telling_code(code) {
        folded("["@ + code->0 + "] "@ + trimmed(message))
    } else {
        trimmed(message)
    }
}

/// What is said of an error. Where it has a code, that is a single line.
pub fn format_terminal_error(message: &str, code: Option<&str>) -> (r: String)
    ensures
        r@ == error_detail(message@, opt_text(code)),
        telling_code(opt_text(code)) ==> forall|i: int|
            0 <= i < r@.len() ==> !breaks_line(#[trigger] r@[i]),
{
    let text = trim(message);
    match code {
        Some(c) => {
            if !trim(c).is_empty() {
                let mut out = "[".to_owned();
                out.append(c);
                out.append("] ");
                out.append(text);
                return fold_lines(out.as_str());
            }
            text.to_owned()
        },
        None => text.to_owned(),
    }
}

// ─── delegation calls ────────────────────────────────────────────────────

/// Whether a title names the delegation tool, however it is spelled.
pub open spec fn names_delegation(title: Seq<char>) -> bool {
    occurs(underscored(ascii_lower(title)), "delegate_to_agent"@)
}

/// Whether arguments have the shape that the delegation tool asks for.
pub open spec fn delegation_shape(input: JsonTree) -> bool {
    input.text_at("task"@) is Some && input.text_at("agent_type"@) is Some
}

/// Whether a tool call is a delegation: by its title, or by its arguments where
/// they are JSON.
pub open spec fn is_delegation(title: Seq<char>, raw_input: Option<Seq<char>>) -> bool {
    names_delegation(title) || match raw_input {
        Some(raw) => match parsed(raw) {
            Ok(input) => delegation_shape(input),
            Err(_) => false,
        },
        None => false,
    }
}

/// Whether arguments have the shape that the delegation tool asks for.
pub fn has_delegation_shape(input: &Json) -> (r: bool)
    ensures
        r == delegation_shape(input@),
{
    input.str_at("task").is_some() && input.str_at("agent_type").is_some()
}

/// Whether a tool call is a delegation.
pub fn is_delegation_invocation(title: &str, raw_input: Option<&str>) -> (r: bool)
    ensures
        r == is_delegation(title@, opt_text(raw_input)),
{
    let lowered = to_ascii_lowercase(title);
    let normalized = underscore(lowered.as_str());
    if contains(normalized.as_str(), "delegate_to_agent") {
        return true;
    }
    match raw_input {
        Some(raw) => match Json::parse(raw) {
            Ok(input) => has_delegation_shape(&input),
            Err(_) => false,
        },
        None => false,
    }
}

// ─── what an event asks for ──────────────────────────────────────────────

/// The status that a conversation takes when a turn ends: up for review after a
/// normal end, cancelled after a failure, and untouched otherwise.
pub open spec fn status_after(stop_reason: Seq<char>) -> Option<ConversationStatus> {
    if stop_reason == "end_turn"@ {
        Some(ConversationStatus::PendingReview)
    } else if stop_reason == "refusal"@ || stop_reason == "max_tokens"@ || stop_reason
        == "max_turn_requests"@ || stop_reason == "unknown"@ || stop_reason == "empty"@ {
        Some(ConversationStatus::Cancelled)
    } else {
        None
    }
}

/// The status that a conversation takes when a turn ends.
pub fn turn_status(stop_reason: &str) -> (r: Option<ConversationStatus>)
    ensures
        r == status_after(stop_reason@),
{
    if same_text(stop_reason, "end_turn") {
        Some(ConversationStatus::PendingReview)
    } else if same_text(stop_reason, "refusal") || same_text(stop_reason, "max_tokens") || same_text(
        stop_reason,
        "max_turn_requests",
    ) || same_text(stop_reason, "unknown") || same_text(stop_reason, "empty") {
        Some(ConversationStatus::Cancelled)
    } else {
        None
    }
}

/// What a live connection says of itself.
#[derive(Debug, PartialEq)]
pub struct SessionSnapshot {
    pub conversation_id: Option<i32>,
    pub last_assistant_text: Option<String>,
}

/// What an event asks the host to do.
#[derive(Debug, PartialEq)]
pub enum EventPlan {
    Nothing,
    /// Tell the broker that this tool call of this connection is a delegation.
    RegisterToolCall { connection_id: String, tool_call_id: String },
    /// Write the agent's own session identifier to the conversation.
    WriteExternalId { conversation_id: i32, external_id: String },
    /// Write the status, where there is one, then report it; then, where
    /// `resolve` is there, resolve the delegation that the conversation may be.
    CompleteTurn {
        conversation_id: i32,
        status: Option<ConversationStatus>,
        resolve: Option<TurnEnd>,
    },
}

/// How a turn ended, for the delegation that it may belong to.
#[derive(Debug, PartialEq)]
pub struct TurnEnd {
    pub stop_reason: String,
    pub last_text: Option<String>,
}

/// What an `EventPlan` says.
pub enum Plan {
    Nothing,
    RegisterToolCall { connection_id: Seq<char>, tool_call_id: Seq<char> },
    WriteExternalId { conversation_id: i32, external_id: Seq<char> },
    CompleteTurn {
        conversation_id: i32,
        status: Option<ConversationStatus>,
        resolve: Option<(Seq<char>, Option<Seq<char>>)>,
    },
}

impl View for EventPlan {
    type V = Plan;

    open spec fn view(&self) -> Plan {
        match *self {
            EventPlan::Nothing => Plan::Nothing,
            EventPlan::RegisterToolCall { connection_id, tool_call_id } => Plan::RegisterToolCall {
                connection_id: connection_id@,
                tool_call_id: tool_call_id@,
            },
            EventPlan::WriteExternalId { conversation_id, external_id } => Plan::WriteExternalId {
                conversation_id,
                external_id: external_id@,
            },
            EventPlan::CompleteTurn { conversation_id, status, resolve } => Plan::CompleteTurn {
                conversation_id,
                status,
                resolve: match resolve {
                    Some(end) => Some((end.stop_reason@, opt_string(end.last_text))),
                    None => None,
                },
            },
        }
    }
}

/// The conversation that a connection is bound to.
pub open spec fn bound_to(session: Option<SessionSnapshot>) -> Option<i32> {
    match session {
        Some(s) => s.conversation_id,
        None => None,
    }
}

/// What an event asks for, given what the connection says of itself and whether
/// there is a broker.
pub open spec fn plan_of(
    envelope: EventEnvelope,
    session: Option<SessionSnapshot>,
    has_broker: bool,
) -> Plan {
    match envelope.payload {
        AcpEvent::ToolCall { tool_call_id, title, raw_input, .. } => if has_broker && is_delegation(
            title@,
            opt_string(raw_input),
        ) {
            Plan::RegisterToolCall {
                connection_id: envelope.connection_id@,
                tool_call_id: tool_call_id@,
            }
        } else {
            Plan::Nothing
        },
        AcpEvent::SessionStarted { session_id } => match bound_to(session) {
            Some(conversation_id) => Plan::WriteExternalId {
                conversation_id,
                external_id: session_id@,
            },
            None => Plan::Nothing,
        },
        AcpEvent::TurnComplete { stop_reason, .. } => match bound_to(session) {
            Some(conversation_id) => Plan::CompleteTurn {
                conversation_id,
                status: status_after(stop_reason@),
                resolve: if has_broker {
                    Some((stop_reason@, opt_string(session->0.last_assistant_text)))
                } else {
                    None
                },
            },
            None => Plan::Nothing,
        },
        _ => Plan::Nothing,
    }
}

/// What an event asks for.
pub fn handle_event(
    envelope: &EventEnvelope,
    session: Option<SessionSnapshot>,
    has_broker: bool,
) -> (r: EventPlan)
    ensures
        r@ == plan_of(*envelope, session, has_broker),
        envelope.payload matches AcpEvent::TurnComplete { stop_reason, .. } ==> (
        session matches Some(live) ==> (live.conversation_id matches Some(id) ==> (
        r matches EventPlan::CompleteTurn { conversation_id, resolve, .. } && conversation_id == id
            && (resolve is Some <==> has_broker) && (resolve matches Some(end)
            ==> end.stop_reason@ == stop_reason@ && opt_string(end.last_text) == opt_string(
            live.last_assistant_text,
        ))))),
{
    match &envelope.payload {
        AcpEvent::ToolCall { tool_call_id, title, raw_input, .. } => {
            if has_broker && is_delegation_invocation(title.as_str(), as_text(raw_input)) {
                EventPlan::RegisterToolCall {
                    connection_id: envelope.connection_id.clone(),
                    tool_call_id: tool_call_id.clone(),
                }
            } else {
                EventPlan::Nothing
            }
        },
        AcpEvent::SessionStarted { session_id } => match session {
            Some(snapshot) => match snapshot.conversation_id {
                Some(conversation_id) => EventPlan::WriteExternalId {
                    conversation_id,
                    external_id: session_id.clone(),
                },
                None => EventPlan::Nothing,
            },
            None => EventPlan::Nothing,
        },
        AcpEvent::TurnComplete { stop_reason, .. } => match session {
            Some(snapshot) => match snapshot.conversation_id {
                Some(conversation_id) => EventPlan::CompleteTurn {
                    conversation_id,
                    status: turn_status(stop_reason.as_str()),
                    resolve: if has_broker {
                        Some(
                            TurnEnd {
                                stop_reason: stop_reason.clone(),
                                last_text: snapshot.last_assistant_text,
                            },
                        )
                    } else {
                        None
                    },
                },
                None => EventPlan::Nothing,
            },
            None => EventPlan::Nothing,
        },
        _ => EventPlan::Nothing,
    }
}

/// What to do after an attempt to carry out a plan failed.
#[derive(Debug, Clone, Copy, PartialEq, Eq, Structural)]
pub enum RetryStep {
    /// Wait this many milliseconds, then plan and try again.
    After(u64),
    /// Give the event up.
    GiveUp,
}

/// What is done after the attempt with this number failed.
pub open spec fn step_after(attempt: u32) -> RetryStep {
    match attempt {
        1 => RetryStep::After(100),
        2 => RetryStep::After(500),
        _ => RetryStep::GiveUp,
    }
}

/// What to do after the attempt with this number, counted from one, failed: a
/// second try after a tenth of a second, a third after another half, then no
/// more.
pub fn retry_after(attempt: u32) -> (r: RetryStep)
    ensures
        r == step_after(attempt),
{
    match attempt {
        1 => RetryStep::After(100),
        2 => RetryStep::After(500),
        _ => RetryStep::GiveUp,
    }
}

// ─── delegations ─────────────────────────────────────────────────────────

/// What the row of a conversation says of the delegation that it may be.
#[derive(Debug, PartialEq)]
pub struct DelegationRow {
    pub delegation_call_id: Option<String>,
    pub parent_tool_use_id: Option<String>,
    pub agent_type: AgentType,
}

/// How a delegation ends whose child's turn ended with `stop_reason`: a normal
/// end hands back the child's last text, and every failure has an error of its
/// own.
pub open spec fn outcome_is(
    outcome: DelegationOutcome,
    stop_reason: Seq<char>,
    last_text: Option<Seq<char>>,
    conversation_id: i32,
    agent_type: AgentType,
) -> bool {
    if stop_reason == "end_turn"@ {
        outcome matches DelegationOutcome::Done(success) && success.text@ == (match last_text {
            Some(text) => text,
            None => Seq::empty(),
        }) && success.child_conversation_id == conversation_id && success.child_agent_type
            == agent_type && success.turn_count == 1 && success.duration_ms == 0
            && success.token_usage is None
    } else {
        outcome matches DelegationOutcome::Failed { error, child_conversation_id }
            && child_conversation_id == Some(conversation_id) && error_is(error, stop_reason)
    }
}

/// The error of a turn that did not end normally.
pub open spec fn error_is(error: DelegationError, stop_reason: Seq<char>) -> bool {
    if stop_reason == "cancelled"@ {
        error matches DelegationError::Canceled { reason } && reason@
            == "child session was cancelled"@
    } else if stop_reason == "refusal"@ {
        error == DelegationError::ChildRefusal
    } else if stop_reason == "max_tokens"@ {
        error == DelegationError::ChildMaxTokens
    } else if stop_reason == "max_turn_requests"@ {
        error == DelegationError::ChildMaxTurnRequests
    } else if stop_reason == "empty"@ {
        error == DelegationError::ChildEmpty
    } else {
        error matches DelegationError::ChildUnknown(reason) && reason@ == stop_reason
    }
}

fn turn_error(stop_reason: &str) -> (r: DelegationError)
    ensures
        error_is(r, stop_reason@),
{
    if same_text(stop_reason, "cancelled") {
        DelegationError::Canceled { reason: "child session was cancelled".to_owned() }
    } else if same_text(stop_reason, "refusal") {
        DelegationError::ChildRefusal
    } else if same_text(stop_reason, "max_tokens") {
        DelegationError::ChildMaxTokens
    } else if same_text(stop_reason, "max_turn_requests") {
        DelegationError::ChildMaxTurnRequests
    } else if same_text(stop_reason, "empty") {
        DelegationError::ChildEmpty
    } else {
        DelegationError::ChildUnknown(stop_reason.to_owned())
    }
}

/// How a delegation ends whose child's turn ended.
pub fn turn_outcome(
    conversation_id: i32,
    agent_type: AgentType,
    end: TurnEnd,
) -> (r: DelegationOutcome)
    ensures
        outcome_is(
            r,
            end.stop_reason@,
            opt_string(end.last_text),
            conversation_id,
            agent_type,
        ),
{
    if same_text(end.stop_reason.as_str(), "end_turn") {
        let text = match end.last_text {
            Some(text) => text,
            None => String::new(),
        };
        DelegationOutcome::Done(
            DelegationSuccess {
                text,
                child_conversation_id: conversation_id,
                child_agent_type: agent_type,
                turn_count: 1,
                duration_ms: 0,
                token_usage: None,
            },
        )
    } else {
        DelegationOutcome::Failed {
            error: turn_error(end.stop_reason.as_str()),
            child_conversation_id: Some(conversation_id),
        }
    }
}

/// A call of the broker that is to be resolved, and with what.
#[derive(Debug, PartialEq)]
pub struct ResolvedCall {
    pub call_id: String,
    pub outcome: DelegationOutcome,
}

/// Whether the row belongs to a delegation that can be resolved: it names the
/// broker's call and the tool use that waits for it.
pub open spec fn resolvable(row: Option<DelegationRow>) -> bool {
    row matches Some(r) && r.delegation_call_id is Some && r.parent_tool_use_id is Some
}

/// Whether `call` is what the end of a turn resolves, given the conversation's row.
pub open spec fn resolves(
    call: Option<ResolvedCall>,
    conversation_id: i32,
    row: Option<DelegationRow>,
    end: TurnEnd,
) -> bool {
    &&& call is Some <==> resolvable(row)
    &&& call matches Some(c) ==> c.call_id@ == row->0.delegation_call_id->0@ && outcome_is(
        c.outcome,
        end.stop_reason@,
        opt_string(end.last_text),
        conversation_id,
        row->0.agent_type,
    )
}

/// On the end of a turn, the broker call that it resolves. A conversation whose
/// row could not be read, or that is no delegation, resolves none.
pub fn forward_turn_complete_to_broker(
    conversation_id: i32,
    row: Option<DelegationRow>,
    end: TurnEnd,
) -> (r: Option<ResolvedCall>)
    ensures
        resolves(r, conversation_id, row, end),
{
    let row = match row {
        Some(row) => row,
        None => {
            return None;
        },
    };
    let call_id = match row.delegation_call_id {
        Some(id) => id,
        None => {
            return None;
        },
    };
    if row.parent_tool_use_id.is_none() {
        return None;
    }
    Some(ResolvedCall { call_id, outcome: turn_outcome(conversation_id, row.agent_type, end) })
}

// ─── ended connections ───────────────────────────────────────────────────

/// A connection that is bound to a conversation, with what the host needs to
/// report on it after the connection itself is gone.
#[derive(Debug, PartialEq)]
pub struct CachedConn<H> {
    pub conversation_id: i32,
    pub handle: H,
}

/// Remembers a connection when it is bound to a conversation. A connection that
/// is remembered already, or that the host no longer knows, changes nothing.
pub fn try_cache_link<H>(
    cache: &mut KeyedStore<CachedConn<H>>,
    connection_id: &str,
    conversation_id: i32,
    found: Option<H>,
)
    requires
        old(cache).wf(),
    ensures
        final(cache).wf(),
        final(cache)@ == match found {
            Some(handle) => if old(cache)@.dom().contains(connection_id@) {
                old(cache)@
            } else {
                old(cache)@.insert(connection_id@, CachedConn { conversation_id, handle })
            },
            None => old(cache)@,
        },
{
    if cache.contains_key(connection_id) {
        return ;
    }
    match found {
        Some(handle) => {
            cache.insert(connection_id.to_owned(), CachedConn { conversation_id, handle });
        },
        None => {},
    }
}

/// A write to the status of a conversation.
#[derive(Debug, Clone, Copy, PartialEq, Eq, Structural)]
pub struct StatusSwap {
    /// The write takes effect on a row with this status alone.
    pub expected: ConversationStatus,
    pub target: ConversationStatus,
}

impl StatusSwap {
    /// The status of a row after the write.
    pub open spec fn applied(self, row: ConversationStatus) -> ConversationStatus {
        if row == self.expected {
            self.target
        } else {
            row
        }
    }

    /// Writes to a row, and says whether the write took effect.
    pub fn apply(&self, row: &mut ConversationStatus) -> (r: bool)
        ensures
            *final(row) == self.applied(*old(row)),
            r == (*old(row) == self.expected),
    {
        if *row == self.expected {
            *row = self.target;
            true
        } else {
            false
        }
    }
}

/// The write for a conversation whose connection is gone.
pub open spec fn cancel_if_running() -> StatusSwap {
    StatusSwap {
        expected: ConversationStatus::InProgress,
        target: ConversationStatus::Cancelled,
    }
}

/// What is to be done for a conversation whose connection is gone: the write,
/// and a report through `handle` where the write took effect.
#[derive(Debug, PartialEq)]
pub struct TerminalWork<H> {
    pub conversation_id: i32,
    pub swap: StatusSwap,
    pub handle: H,
}

/// Forgets a connection that is gone, and says what is to be done for its
/// conversation. A connection that is not remembered asks for nothing.
pub fn handle_terminal_event<H>(
    cache: &mut KeyedStore<CachedConn<H>>,
    connection_id: &str,
) -> (r: Option<TerminalWork<H>>)
    requires
        old(cache).wf(),
    ensures
        final(cache).wf(),
        final(cache)@ == old(cache)@.remove(connection_id@),
        r == if old(cache)@.dom().contains(connection_id@) {
            Some(
                TerminalWork {
                    conversation_id: old(cache)@[connection_id@].conversation_id,
                    swap: cancel_if_running(),
                    handle: old(cache)@[connection_id@].handle,
                },
            )
        } else {
            None
        },
{
    match cache.remove(connection_id) {
        Some(entry) => Some(
            TerminalWork {
                conversation_id: entry.conversation_id,
                swap: StatusSwap {
                    expected: ConversationStatus::InProgress,
                    target: ConversationStatus::Cancelled,
                },
                handle: entry.handle,
            },
        ),
        None => None,
    }
}

/// What is reported of a write to the status of a conversation.
pub open spec fn report_of(
    conversation_id: i32,
    status: ConversationStatus,
    changed: bool,
) -> Option<AcpEvent> {
    if changed {
        Some(AcpEvent::ConversationStatusChanged { conversation_id, status })
    } else {
        None
    }
}

/// The event to report once the status of a conversation was written: none
/// where a conditional write did not take effect.
pub fn status_report(conversation_id: i32, status: ConversationStatus, changed: bool) -> (r: Option<
    AcpEvent,
>)
    ensures
        r == report_of(conversation_id, status, changed),
{
    if changed {
        Some(AcpEvent::ConversationStatusChanged { conversation_id, status })
    } else {
        None
    }
}

// ─── the worker of a connection ──────────────────────────────────────────

/// What a worker has the host do.
#[derive(Debug, PartialEq)]
pub enum WorkerAction<H> {
    Nothing,
    /// Plan and carry out the event, with retries.
    Handle,
    /// Carry out `row`; then, where `cancel` is there, have the broker cancel
    /// what waits for this connection, for the reason it gives.
    Terminal { row: Option<TerminalWork<H>>, cancel: Option<CancelChild> },
}

/// Why the broker is to cancel what waits for a connection.
#[derive(Debug, PartialEq)]
pub struct CancelChild {
    pub detail: Option<String>,
}

/// What a worker knows of its connection.
#[derive(Debug)]
pub struct ConnectionWorker<H> {
    pub connection_id: String,
    pub has_broker: bool,
    pub cache: KeyedStore<CachedConn<H>>,
    pub terminal_dispatched: bool,
}

/// The detail with which a broker cancels after this event.
pub open spec fn cancel_detail(event: AcpEvent) -> Option<Seq<char>> {
    match event {
        AcpEvent::Error { message, code, .. } => Some(error_detail(message@, opt_string(code))),
        _ => None,
    }
}

/// Whether the end of the connection is acted on at this event, given whether it
/// was before.
pub open spec fn acts_on_end(dispatched: bool, event: AcpEvent) -> bool {
    !dispatched && ends_connection(event)
}

impl<H> ConnectionWorker<H> {
    /// The worker is in order.
    pub open spec fn wf(&self) -> bool {
        self.cache.wf()
    }

    /// A worker that has seen nothing.
    pub fn new(connection_id: String, has_broker: bool) -> (r: Self)
        ensures
            r.wf(),
            r.connection_id == connection_id,
            r.has_broker == has_broker,
            r.cache@ == Map::<Seq<char>, CachedConn<H>>::empty(),
            !r.terminal_dispatched,
    {
        ConnectionWorker {
            connection_id,
            has_broker,
            cache: KeyedStore::new(),
            terminal_dispatched: false,
        }
    }

    fn end(&mut self, detail: Option<String>) -> (r: WorkerAction<H>)
        requires
            old(self).wf(),
        ensures
            final(self).wf(),
            final(self).connection_id == old(self).connection_id,
            final(self).has_broker == old(self).has_broker,
            final(self).terminal_dispatched,
            final(self).cache@ == old(self).cache@.remove(old(self).connection_id@),
            r matches WorkerAction::Terminal { row, cancel } && row == old(self).row_work() && (
            cancel is Some <==> old(self).has_broker) && (cancel matches Some(c) ==> c.detail
                == detail),
    {
        let row = handle_terminal_event(&mut self.cache, self.connection_id.as_str());
        self.terminal_dispatched = true;
        let cancel = if self.has_broker {
            Some(CancelChild { detail })
        } else {
            None
        };
        WorkerAction::Terminal { row, cancel }
    }

    /// What the end of the connection asks for, for its conversation.
    pub open spec fn row_work(&self) -> Option<TerminalWork<H>> {
        if self.cache@.dom().contains(self.connection_id@) {
            let entry = self.cache@[self.connection_id@];
            Some(
                TerminalWork {
                    conversation_id: entry.conversation_id,
                    swap: cancel_if_running(),
                    handle: entry.handle,
                },
            )
        } else {
            None
        }
    }

    /// Whether `after` and `action` are what the worker makes of an event.
    pub open spec fn makes_of(
        self,
        event: AcpEvent,
        found: Option<H>,
        after: Self,
        action: WorkerAction<H>,
    ) -> bool {
        &&& after.connection_id == self.connection_id
        &&& after.has_broker == self.has_broker
        &&& after.terminal_dispatched == (self.terminal_dispatched || ends_connection(event))
        &&& match event {
            AcpEvent::ConversationLinked { conversation_id, .. } => action == WorkerAction::<
                H,
            >::Nothing && after.cache@ == match found {
                Some(handle) => if self.cache@.dom().contains(self.connection_id@) {
                    self.cache@
                } else {
                    self.cache@.insert(self.connection_id@, CachedConn { conversation_id, handle })
                },
                None => self.cache@,
            },
            _ => if acts_on_end(self.terminal_dispatched, event) {
                after.cache@ == self.cache@.remove(self.connection_id@) && (
                action matches WorkerAction::Terminal { row, cancel } && row == self.row_work() && (
                cancel is Some <==> self.has_broker) && (cancel matches Some(c) ==> opt_string(
                    c.detail,
                ) == cancel_detail(event)))
            } else {
                after.cache@ == self.cache@ && action == if ends_connection(event)
                    || event is Error {
                    WorkerAction::<H>::Nothing
                } else {
                    WorkerAction::<H>::Handle
                }
            },
        }
    }

    /// Takes the next event. `found` is what the host knows of the connection,
    /// for an event that binds it to a conversation. The end of the connection
    /// is acted on once, at whichever event reports it first; an error that is
    /// not terminal is left to the end of the turn.
    pub fn step(&mut self, event: &AcpEvent, found: Option<H>) -> (r: WorkerAction<H>)
        requires
            old(self).wf(),
        ensures
            final(self).wf(),
            final(self).connection_id == old(self).connection_id,
            final(self).has_broker == old(self).has_broker,
            final(self).terminal_dispatched == (old(self).terminal_dispatched || ends_connection(
                *event,
            )),
            old(self).makes_of(*event, found, *final(self), r),
    {
        match event {
            AcpEvent::ConversationLinked { conversation_id, .. } => {
                try_cache_link(
                    &mut self.cache,
                    self.connection_id.as_str(),
                    *conversation_id,
                    found,
                );
                WorkerAction::Nothing
            },
            AcpEvent::StatusChanged { status } => {
                if *status != ConnectionStatus::Disconnected {
                    WorkerAction::Handle
                } else if self.terminal_dispatched {
                    WorkerAction::Nothing
                } else {
                    self.end(None)
                }
            },
            AcpEvent::Error { message, code, terminal, .. } => {
                if !*terminal || self.terminal_dispatched {
                    WorkerAction::Nothing
                } else {
                    let detail = format_terminal_error(message.as_str(), as_text(code));
                    self.end(Some(detail))
                }
            },
            _ => WorkerAction::Handle,
        }
    }
}

// ─── the dispatcher ──────────────────────────────────────────────────────

/// How an event is to be delivered.
#[derive(Debug, PartialEq)]
pub struct Delivery {
    pub connection_id: String,
    /// A worker for the connection is to be started first.
    pub spawn: bool,
    /// The worker goes away once it has the event.
    pub last: bool,
}

/// What a `Delivery` says.
pub struct Route {
    pub connection: Seq<char>,
    pub spawn: bool,
    pub last: bool,
}

impl View for Delivery {
    type V = Route;

    open spec fn view(&self) -> Route {
        Route { connection: self.connection_id@, spawn: self.spawn, last: self.last }
    }
}

/// How an event is delivered where the workers have these mailboxes; one that
/// does not matter is not.
pub open spec fn route_of<S>(boxes: Map<Seq<char>, S>, envelope: EventEnvelope) -> Option<Route> {
    if matters(envelope.payload) {
        Some(
            Route {
                connection: envelope.connection_id@,
                spawn: !boxes.dom().contains(envelope.connection_id@),
                last: ends_connection(envelope.payload),
            },
        )
    } else {
        None
    }
}

/// The mailboxes after a delivery: that of a worker that has its last event, or
/// that is gone, is dropped.
pub open spec fn boxes_after<S>(
    boxes: Map<Seq<char>, S>,
    route: Route,
    handed_over: bool,
) -> Map<Seq<char>, S> {
    if route.last || !handed_over {
        boxes.remove(route.connection)
    } else {
        boxes
    }
}

/// The workers of all connections, each by the mailbox `S` that reaches it.
#[derive(Debug)]
pub struct Dispatcher<S> {
    workers: KeyedStore<S>,
}

impl<S> Dispatcher<S> {
    /// The mailboxes by connection.
    pub closed spec fn mailboxes(&self) -> Map<Seq<char>, S> {
        self.workers@
    }

    /// The dispatcher is in order.
    pub closed spec fn wf(&self) -> bool {
        self.workers.wf()
    }

    /// No worker runs.
    pub fn new() -> (r: Self)
        ensures
            r.wf(),
            r.mailboxes() == Map::<Seq<char>, S>::empty(),
    {
        Dispatcher { workers: KeyedStore::new() }
    }

    /// How an event is to be delivered; one that does not matter is not.
    pub fn route(&self, envelope: &EventEnvelope) -> (r: Option<Delivery>)
        requires
            self.wf(),
        ensures
            match r {
                Some(delivery) => route_of(self.mailboxes(), *envelope) == Some(delivery@),
                None => route_of(self.mailboxes(), *envelope) is None,
            },
    {
        if !is_lifecycle_relevant(&envelope.payload) {
            return None;
        }
        Some(
            Delivery {
                connection_id: envelope.connection_id.clone(),
                spawn: !self.workers.contains_key(envelope.connection_id.as_str()),
                last: is_dispatcher_terminal(&envelope.payload),
            },
        )
    }

    /// A worker was started.
    pub fn started(&mut self, connection_id: String, mailbox: S)
        requires
            old(self).wf(),
        ensures
            final(self).wf(),
            final(self).mailboxes() == old(self).mailboxes().insert(connection_id@, mailbox),
    {
        self.workers.insert(connection_id, mailbox);
    }

    /// The mailbox of a connection's worker.
    pub fn mailbox(&self, connection_id: &str) -> (r: Option<&S>)
        requires
            self.wf(),
        ensures
            match r {
                Some(s) => self.mailboxes().dom().contains(connection_id@) && *s
                    == self.mailboxes()[connection_id@],
                None => !self.mailboxes().dom().contains(connection_id@),
            },
    {
        self.workers.get(connection_id)
    }

    /// The event was handed over, or could not be because the worker is gone.
    /// Either the worker stays, or its mailbox is dropped: after the last event,
    /// and where the worker is gone, so that the next event starts a new one.
    pub fn settled(&mut self, delivery: Delivery, handed_over: bool)
        requires
            old(self).wf(),
        ensures
            final(self).wf(),
            final(self).mailboxes() == boxes_after(old(self).mailboxes(), delivery@, handed_over),
    {
        if delivery.last || !handed_over {
            self.workers.remove(delivery.connection_id.as_str());
        }
    }
}

// ─── what holds of every run ─────────────────────────────────────────────

/// An event that the dispatcher drops is one that a worker would not act on: it
/// asks for nothing whatever the connection says, ends nothing and binds
/// nothing.
pub proof fn lemma_dropped_events_ask_for_nothing(
    envelope: EventEnvelope,
    session: Option<SessionSnapshot>,
    has_broker: bool,
)
    requires
        !matters(envelope.payload),
    ensures
        plan_of(envelope, session, has_broker) == Plan::Nothing,
        !ends_connection(envelope.payload),
        !(envelope.payload is ConversationLinked),
{
}

/// No event that ends a connection is dropped.
pub proof fn lemma_ends_are_delivered(event: AcpEvent)
    requires
        ends_connection(event),
    ensures
        matters(event),
{
}

/// Whether the end of a connection was acted on after `events`.
pub open spec fn dispatched_after(events: Seq<AcpEvent>) -> bool
    decreases events.len(),
{
    if events.len() == 0 {
        false
    } else {
        dispatched_after(events.drop_last()) || ends_connection(events.last())
    }
}

/// Whether the end of a connection is acted on at the `i`-th of `events`.
pub open spec fn acted_on_at(events: Seq<AcpEvent>, i: int) -> bool {
    acts_on_end(dispatched_after(events.take(i)), events[i])
}

proof fn lemma_dispatched(events: Seq<AcpEvent>)
    ensures
        dispatched_after(events) <==> exists|i: int|
            0 <= i < events.len() && ends_connection(#[trigger] events[i]),
    decreases events.len(),
{
    if events.len() > 0 {
        let front = events.drop_last();
        lemma_dispatched(front);
        if dispatched_after(front) {
            let i = choose|i: int| 0 <= i < front.len() && ends_connection(#[trigger] front[i]);
            assert(ends_connection(events[i]));
        }
        if ends_connection(events.last()) {
            assert(ends_connection(events[events.len() - 1]));
        }
        if exists|i: int| 0 <= i < events.len() && ends_connection(#[trigger] events[i]) {
            let i = choose|i: int| 0 <= i < events.len() && ends_connection(#[trigger] events[i]);
            if i < front.len() {
                assert(ends_connection(front[i]));
            }
        }
    }
}

/// The end of a connection is acted on once and no more: not at two of its
/// events, and at one of them where any reports it.
pub proof fn lemma_end_is_acted_on_once(events: Seq<AcpEvent>)
    ensures
        forall|i: int, j: int|
            0 <= i < j < events.len() ==> !(#[trigger] acted_on_at(events, i) && #[trigger]
            acted_on_at(events, j)),
        (exists|i: int| 0 <= i < events.len() && ends_connection(#[trigger] events[i])) ==> exists|
            k: int,
        |
            0 <= k < events.len() && #[trigger] acted_on_at(events, k),
    decreases events.len(),
{
    assert forall|i: int, j: int| 0 <= i < j < events.len() implies !(#[trigger] acted_on_at(
        events,
        i,
    ) && #[trigger] acted_on_at(events, j)) by {
        if acted_on_at(events, i) {
            let before = events.take(j);
            assert(before[i] == events[i]);
            lemma_dispatched(before);
        }
    }
    if exists|i: int| 0 <= i < events.len() && ends_connection(#[trigger] events[i]) {
        let front = events.drop_last();
        lemma_end_is_acted_on_once(front);
        lemma_dispatched(front);
        if dispatched_after(front) {
            let k = choose|k: int| 0 <= k < front.len() && #[trigger] acted_on_at(front, k);
            assert(front.take(k) =~= events.take(k));
            assert(acted_on_at(events, k));
        } else {
            let i = choose|i: int| 0 <= i < events.len() && ends_connection(#[trigger] events[i]);
            if i < front.len() {
                assert(ends_connection(front[i]));
            }
            assert(events.take(events.len() - 1) =~= front);
            assert(acted_on_at(events, events.len() - 1));
        }
    }
}

/// An event that came up, and whether its worker could be handed it.
pub struct Handover {
    pub envelope: EventEnvelope,
    pub handed_over: bool,
}

/// What one worker was handed.
pub struct Inbox {
    pub connection: Seq<char>,
    pub events: Seq<AcpEvent>,
}

/// All workers that were started, in order, and the open mailboxes, each with
/// the number of the worker that it reaches.
pub struct Fleet {
    pub inboxes: Seq<Inbox>,
    pub boxes: Map<Seq<char>, int>,
}

/// The workers after one more event: it is routed, its worker is started where
/// there is none, it is handed over, and the delivery is settled.
pub open spec fn fleet_step(fleet: Fleet, step: Handover) -> Fleet {
    match route_of(fleet.boxes, step.envelope) {
        None => fleet,
        Some(route) => {
            let boxes = if route.spawn {
                fleet.boxes.insert(route.connection, fleet.inboxes.len() as int)
            } else {
                fleet.boxes
            };
            let inboxes = if route.spawn {
                fleet.inboxes.push(Inbox { connection: route.connection, events: Seq::empty() })
            } else {
                fleet.inboxes
            };
            Fleet {
                inboxes: if step.handed_over {
                    handed(inboxes, boxes[route.connection], step.envelope.payload)
                } else {
                    inboxes
                },
                boxes: boxes_after(boxes, route, step.handed_over),
            }
        },
    }
}

/// `inboxes` after the worker `w` was handed `event`.
pub open spec fn handed(inboxes: Seq<Inbox>, w: int, event: AcpEvent) -> Seq<Inbox> {
    inboxes.update(
        w,
        Inbox { connection: inboxes[w].connection, events: inboxes[w].events.push(event) },
    )
}

/// The workers after `steps`.
pub open spec fn fleet_after(steps: Seq<Handover>) -> Fleet
    decreases steps.len(),
{
    if steps.len() == 0 {
        Fleet { inboxes: Seq::empty(), boxes: Map::empty() }
    } else {
        fleet_step(fleet_after(steps.drop_last()), steps.last())
    }
}

/// What the workers of one connection were handed, one worker after the other.
pub open spec fn received(inboxes: Seq<Inbox>, connection: Seq<char>) -> Seq<AcpEvent>
    decreases inboxes.len(),
{
    if inboxes.len() == 0 {
        Seq::empty()
    } else if inboxes.last().connection == connection {
        received(inboxes.drop_last(), connection) + inboxes.last().events
    } else {
        received(inboxes.drop_last(), connection)
    }
}

/// Whether a step is about an event of `connection` that matters.
pub open spec fn concerns(step: Handover, connection: Seq<char>) -> bool {
    matters(step.envelope.payload) && step.envelope.connection_id@ == connection
}

/// The events of `connection` that matter and could be handed over, in order.
pub open spec fn deliverable(steps: Seq<Handover>, connection: Seq<char>) -> Seq<AcpEvent>
    decreases steps.len(),
{
    if steps.len() == 0 {
        Seq::empty()
    } else {
        let rest = deliverable(steps.drop_last(), connection);
        if concerns(steps.last(), connection) && steps.last().handed_over {
            rest.push(steps.last().envelope.payload)
        } else {
            rest
        }
    }
}

/// Whether `connection` has a worker after `steps`: the last event of it that
/// matters was handed over and did not end it.
pub open spec fn has_worker(steps: Seq<Handover>, connection: Seq<char>) -> bool
    decreases steps.len(),
{
    if steps.len() == 0 {
        false
    } else if concerns(steps.last(), connection) {
        steps.last().handed_over && !ends_connection(steps.last().envelope.payload)
    } else {
        has_worker(steps.drop_last(), connection)
    }
}

/// Whether no event of an inbox follows one that ends the connection.
pub open spec fn stops_at_end(events: Seq<AcpEvent>) -> bool {
    forall|i: int| 0 <= i < events.len() - 1 ==> !ends_connection(#[trigger] events[i])
}

/// Whether the mailbox of `connection`, where it has one, reaches its newest
/// worker, which was handed no end.
spec fn box_is_newest(fleet: Fleet, connection: Seq<char>) -> bool {
    fleet.boxes.dom().contains(connection) ==> {
        let w = fleet.boxes[connection];
        &&& 0 <= w < fleet.inboxes.len()
        &&& fleet.inboxes[w].connection == connection
        &&& forall|j: int|
            w < j < fleet.inboxes.len() ==> (#[trigger] fleet.inboxes[j]).connection != connection
        &&& forall|i: int|
            0 <= i < fleet.inboxes[w].events.len() ==> !ends_connection(
                #[trigger] fleet.inboxes[w].events[i],
            )
    }
}

proof fn lemma_handed(inboxes: Seq<Inbox>, w: int, event: AcpEvent, connection: Seq<char>)
    requires
        0 <= w < inboxes.len(),
        forall|j: int|
            w < j < inboxes.len() ==> (#[trigger] inboxes[j]).connection != inboxes[w].connection,
    ensures
        received(handed(inboxes, w, event), connection) == if connection == inboxes[w].connection {
            received(inboxes, connection).push(event)
        } else {
            received(inboxes, connection)
        },
    decreases inboxes.len(),
{
    let after = handed(inboxes, w, event);
    let front = inboxes.drop_last();
    if w == inboxes.len() - 1 {
        assert(after.drop_last() =~= front);
        assert(received(front, connection) + inboxes[w].events.push(event) =~= (received(
            front,
            connection,
        ) + inboxes[w].events).push(event));
    } else {
        assert forall|j: int| w < j < front.len() implies (#[trigger] front[j]).connection
            != front[w].connection by {
            assert(front[j] == inboxes[j]);
        }
        lemma_handed(front, w, event, connection);
        assert(after.drop_last() =~= handed(front, w, event));
        assert(inboxes[inboxes.len() - 1].connection != inboxes[w].connection);
        if inboxes.last().connection == connection {
            assert(connection != inboxes[w].connection);
        }
    }
}

proof fn lemma_fleet_in_order(steps: Seq<Handover>)
    ensures
        forall|c: Seq<char>| #[trigger] box_is_newest(fleet_after(steps), c),
        forall|i: int|
            0 <= i < fleet_after(steps).inboxes.len() ==> stops_at_end(
                (#[trigger] fleet_after(steps).inboxes[i]).events,
            ),
    decreases steps.len(),
{
    if steps.len() > 0 {
        let before = fleet_after(steps.drop_last());
        let step = steps.last();
        lemma_fleet_in_order(steps.drop_last());
        let after = fleet_after(steps);
        if matters(step.envelope.payload) {
            let own = step.envelope.connection_id@;
            assert(box_is_newest(before, own));
            let w = if before.boxes.dom().contains(own) {
                before.boxes[own]
            } else {
                before.inboxes.len() as int
            };
            assert forall|c: Seq<char>| #[trigger] box_is_newest(after, c) by {
                assert(box_is_newest(before, c));
                if after.boxes.dom().contains(c) && c != own {
                    let v = before.boxes[c];
                    assert(after.boxes[c] == v);
                    assert(after.inboxes[v] == before.inboxes[v]);
                    assert forall|j: int| v < j < after.inboxes.len() implies (
                    #[trigger] after.inboxes[j]).connection != c by {
                        if j < before.inboxes.len() {
                            assert(before.inboxes[j].connection != c);
                        }
                    }
                }
                if after.boxes.dom().contains(c) && c == own {
                    assert(after.boxes[c] == w);
                    assert forall|j: int| w < j < after.inboxes.len() implies (
                    #[trigger] after.inboxes[j]).connection != c by {
                        assert(before.inboxes[j].connection != c);
                    }
                    let old_events = if w < before.inboxes.len() {
                        before.inboxes[w].events
                    } else {
                        Seq::empty()
                    };
                    assert(after.inboxes[w].events =~= old_events.push(step.envelope.payload));
                    assert forall|i: int| 0 <= i < after.inboxes[w].events.len() implies
                    !ends_connection(#[trigger] after.inboxes[w].events[i]) by {
                        if i < old_events.len() {
                            assert(before.inboxes[w].events[i] == after.inboxes[w].events[i]);
                        }
                    }
                }
            }
            assert forall|i: int| 0 <= i < after.inboxes.len() implies stops_at_end(
                (#[trigger] after.inboxes[i]).events,
            ) by {
                if i == w {
                    assert forall|k: int| 0 <= k < after.inboxes[i].events.len() - 1 implies
                    !ends_connection(#[trigger] after.inboxes[i].events[k]) by {
                        if w < before.inboxes.len() {
                            assert(before.inboxes[w].events[k] == after.inboxes[i].events[k]);
                        }
                    }
                } else {
                    assert(after.inboxes[i] == before.inboxes[i]);
                }
            }
        } else {
            assert(after == before);
        }
    }
}

/// Over any run the workers of a connection are handed exactly its events that
/// matter and could be handed over, in order and each once. Nothing follows an
/// end in one worker, and after it the connection has no worker until its next
/// event that matters.
pub proof fn lemma_events_reach_workers_in_order(steps: Seq<Handover>, connection: Seq<char>)
    ensures
        received(fleet_after(steps).inboxes, connection) == deliverable(steps, connection),
        fleet_after(steps).boxes.dom().contains(connection) == has_worker(steps, connection),
        forall|i: int|
            0 <= i < fleet_after(steps).inboxes.len() ==> stops_at_end(
                (#[trigger] fleet_after(steps).inboxes[i]).events,
            ),
    decreases steps.len(),
{
    lemma_fleet_in_order(steps);
    if steps.len() > 0 {
        let front = steps.drop_last();
        let before = fleet_after(front);
        let step = steps.last();
        lemma_events_reach_workers_in_order(front, connection);
        lemma_fleet_in_order(front);
        if matters(step.envelope.payload) {
            let own = step.envelope.connection_id@;
            assert(box_is_newest(before, own));
            let spawn = !before.boxes.dom().contains(own);
            let fresh = Inbox { connection: own, events: Seq::<AcpEvent>::empty() };
            let inboxes = if spawn {
                before.inboxes.push(fresh)
            } else {
                before.inboxes
            };
            let w = if spawn {
                before.inboxes.len() as int
            } else {
                before.boxes[own]
            };
            if spawn {
                assert(inboxes.drop_last() =~= before.inboxes);
                assert(received(before.inboxes, connection) + fresh.events =~= received(
                    before.inboxes,
                    connection,
                ));
            }
            assert(received(inboxes, connection) == received(before.inboxes, connection));
            if step.handed_over {
                lemma_handed(inboxes, w, step.envelope.payload, connection);
            }
        }
    }
}

/// The end of a connection cancels a conversation that is running, and leaves
/// one that is up for review, completed or cancelled as it is.
pub proof fn lemma_end_keeps_finished_conversations(row: ConversationStatus)
    ensures
        cancel_if_running().applied(row) == if row == ConversationStatus::InProgress {
            ConversationStatus::Cancelled
        } else {
            row
        },
{
}

/// Different failures of a child reach the parent as different errors.
pub proof fn lemma_failures_are_told_apart(
    a: DelegationError,
    b: DelegationError,
    reason_a: Seq<char>,
    reason_b: Seq<char>,
)
    requires
        error_is(a, reason_a),
        error_is(b, reason_b),
        reason_a != reason_b,
    ensures
        a != b,
{
}

// ─── what events come to ─────────────────────────────────────────────────

/// The end of a turn on a bound connection completes that conversation's turn.
/// With a broker it always asks for the delegation to be resolved, with the
/// turn's own stop reason and the last text of the connection; without one it
/// never does. On a connection that is bound to nothing it asks for nothing.
pub proof fn lemma_turn_end_reaches_broker(
    plan: EventPlan,
    envelope: EventEnvelope,
    session: Option<SessionSnapshot>,
    has_broker: bool,
)
    requires
        plan@ == plan_of(envelope, session, has_broker),
        envelope.payload is TurnComplete,
    ensures
        (session matches Some(live) && live.conversation_id is Some) ==> (
        plan matches EventPlan::CompleteTurn { conversation_id, status, resolve }
            && session->0.conversation_id == Some(conversation_id) && (resolve is Some
            <==> has_broker) && (resolve matches Some(end)
            ==> envelope.payload matches AcpEvent::TurnComplete { stop_reason, .. }
            && end.stop_reason@ == stop_reason@ && (end.last_text is Some
            <==> session->0.last_assistant_text is Some) && (end.last_text matches Some(text)
            ==> session->0.last_assistant_text matches Some(said) && text@ == said@))),
        !(session matches Some(live) && live.conversation_id is Some) ==> plan
            == EventPlan::Nothing,
{
}

/// A turn that ends normally puts its conversation up for review, one that fails
/// cancels it, and every other end (such as that the user cancelled the turn)
/// leaves the status as it is.
pub proof fn lemma_turn_end_sets_status(
    plan: EventPlan,
    envelope: EventEnvelope,
    session: Option<SessionSnapshot>,
    has_broker: bool,
)
    requires
        plan@ == plan_of(envelope, session, has_broker),
        plan is CompleteTurn,
    ensures
        ({
            let reason = envelope.payload->TurnComplete_stop_reason@;
            let failed = reason == "refusal"@ || reason == "max_tokens"@ || reason
                == "max_turn_requests"@ || reason == "unknown"@ || reason == "empty"@;
            &&& envelope.payload is TurnComplete
            &&& plan->CompleteTurn_status == Some(ConversationStatus::PendingReview) <==> reason
                == "end_turn"@
            &&& plan->CompleteTurn_status == Some(ConversationStatus::Cancelled) <==> failed
            &&& plan->CompleteTurn_status is None <==> reason != "end_turn"@ && !failed
        }),
{
    reveal_strlit("end_turn");
    reveal_strlit("refusal");
    reveal_strlit("max_tokens");
    reveal_strlit("max_turn_requests");
    reveal_strlit("unknown");
    reveal_strlit("empty");
    assert("end_turn"@.len() == 8);
    assert("refusal"@.len() == 7);
    assert("max_tokens"@.len() == 10);
    assert("max_turn_requests"@.len() == 17);
    assert("unknown"@.len() == 7);
    assert("empty"@.len() == 5);
}

/// The start of a session on a bound connection writes the agent's identifier to
/// that conversation, and nothing else does.
pub proof fn lemma_session_start_writes_its_id(
    plan: EventPlan,
    envelope: EventEnvelope,
    session: Option<SessionSnapshot>,
    has_broker: bool,
)
    requires
        plan@ == plan_of(envelope, session, has_broker),
    ensures
        plan is WriteExternalId <==> envelope.payload is SessionStarted && (
        session matches Some(live) && live.conversation_id is Some),
        plan matches EventPlan::WriteExternalId { conversation_id, external_id }
            ==> session->0.conversation_id == Some(conversation_id)
            && (envelope.payload matches AcpEvent::SessionStarted { session_id } && external_id@
            == session_id@),
{
}

/// With a broker each tool call that is a delegation is registered under its own
/// identifier for the connection it came over; without one, or where the call is
/// no delegation, nothing is registered.
pub proof fn lemma_delegations_are_registered(
    plan: EventPlan,
    envelope: EventEnvelope,
    session: Option<SessionSnapshot>,
    has_broker: bool,
)
    requires
        plan@ == plan_of(envelope, session, has_broker),
    ensures
        plan is RegisterToolCall <==> has_broker && (
        envelope.payload matches AcpEvent::ToolCall { title, raw_input, .. } && is_delegation(
            title@,
            opt_string(raw_input),
        )),
        plan matches EventPlan::RegisterToolCall { connection_id, tool_call_id: registered }
            ==> connection_id@ == envelope.connection_id@
            && (envelope.payload matches AcpEvent::ToolCall { tool_call_id, .. } && registered@
            == tool_call_id@),
{
}

/// Whether `c` stands for the small letter or the underscore `d`: itself, the
/// capital letter, or a space or hyphen for the underscore.
pub open spec fn spells(c: char, d: char) -> bool {
    ||| c == d
    ||| 'A' <= c <= 'Z' && c as int + 32 == d as int
    ||| d == '_' && (c == ' ' || c == '-')
}

/// Whether `name` stands in `title` from character `i` on, in any spelling.
pub open spec fn spelled_at(title: Seq<char>, name: Seq<char>, i: int) -> bool {
    &&& 0 <= i
    &&& i + name.len() <= title.len()
    &&& forall|k: int| 0 <= k < name.len() ==> spells(#[trigger] title[i + k], name[k])
}

/// A title names the delegation tool if and only if the tool's name stands in it,
/// in whatever letter case and with whatever of underscores, hyphens and spaces
/// between its words.
pub proof fn lemma_any_spelling_names_delegation(title: Seq<char>)
    ensures
        names_delegation(title) <==> exists|i: int| spelled_at(title, "delegate_to_agent"@, i),
{
    reveal_strlit("delegate_to_agent");
    let name = "delegate_to_agent"@;
    let low = underscored(ascii_lower(title));
    assert(low.len() == title.len());
    assert forall|k: int| 0 <= k < name.len() implies #[trigger] name[k] == '_' || 'a' <= name[k]
        <= 'z' by {}
    if names_delegation(title) {
        let i = choose|i: int| crate::text::occurs_at(low, name, i);
        assert forall|k: int| 0 <= k < name.len() implies spells(#[trigger] title[i + k], name[k]) by {
            assert(low.subrange(i, i + name.len())[k] == low[i + k]);
            assert(low[i + k] == name[k]);
        }
        assert(spelled_at(title, name, i));
    }
    if exists|i: int| spelled_at(title, name, i) {
        let i = choose|i: int| spelled_at(title, name, i);
        let part = low.subrange(i, i + name.len());
        assert forall|k: int| 0 <= k < name.len() implies #[trigger] part[k] == name[k] by {
            assert(spells(title[i + k], name[k]));
            assert(part[k] == low[i + k]);
            assert(name[k] == '_' || 'a' <= name[k] <= 'z');
        }
        assert(part =~= name);
        assert(crate::text::occurs_at(low, name, i));
    }
}

/// A call whose arguments hand a task to an agent is a delegation whatever its
/// title is.
pub proof fn lemma_task_for_agent_is_delegation(title: Seq<char>, raw: Seq<char>, input: JsonTree)
    requires
        parsed(raw) == Ok::<JsonTree, Seq<char>>(input),
    ensures
        names_delegation(title) ==> is_delegation(title, Some(raw)) && is_delegation(title, None),
        !names_delegation(title) ==> !is_delegation(title, None) && (is_delegation(title, Some(raw))
            <==> input.text_at("task"@) is Some && input.text_at("agent_type"@) is Some),
{
}

/// A child's turn that ends normally resolves the broker's call with what the
/// child last said; every other end resolves it with a failure. The call is the
/// one that the row names, and the conversation and the agent are the child's.
pub proof fn lemma_parent_gets_childs_answer(
    plan: EventPlan,
    envelope: EventEnvelope,
    session: SessionSnapshot,
    row: DelegationRow,
    resolved: Option<ResolvedCall>,
)
    requires
        envelope.payload is TurnComplete,
        session.conversation_id is Some,
        row.delegation_call_id is Some,
        row.parent_tool_use_id is Some,
        plan@ == plan_of(envelope, Some(session), true),
        plan is CompleteTurn && plan->resolve is Some ==> resolves(
            resolved,
            plan->CompleteTurn_conversation_id,
            Some(row),
            plan->resolve->0,
        ),
    ensures
        ({
            let reason = envelope.payload->TurnComplete_stop_reason@;
            let call = resolved->0;
            &&& plan is CompleteTurn && plan->resolve is Some
            &&& resolved is Some
            &&& call.call_id@ == row.delegation_call_id->0@
            &&& reason == "end_turn"@ <==> call.outcome is Done
            &&& call.outcome matches DelegationOutcome::Done(success)
                ==> success.child_conversation_id == session.conversation_id->0
                && success.turn_count == 1 && success.duration_ms == 0 && success.token_usage is None
                && success.child_agent_type == row.agent_type && success.text@
                == match session.last_assistant_text {
                Some(said) => said@,
                None => Seq::empty(),
            }
            &&& call.outcome matches DelegationOutcome::Failed { error, child_conversation_id }
                ==> child_conversation_id == session.conversation_id && error_is(error, reason)
        }),
{
}

/// A failure tells the parent why the child's turn ended: each of the known
/// reasons by an error of its own, any other in its own words.
pub proof fn lemma_failure_tells_reason(error: DelegationError, reason: Seq<char>)
    requires
        error_is(error, reason),
    ensures
        error is Canceled <==> reason == "cancelled"@,
        error is ChildRefusal <==> reason == "refusal"@,
        error is ChildMaxTokens <==> reason == "max_tokens"@,
        error is ChildMaxTurnRequests <==> reason == "max_turn_requests"@,
        error is ChildEmpty <==> reason == "empty"@,
        error matches DelegationError::ChildUnknown(words) ==> words@ == reason,
        error matches DelegationError::Canceled { reason: words } ==> words@
            == "child session was cancelled"@,
{
    reveal_strlit("cancelled");
    reveal_strlit("refusal");
    reveal_strlit("max_tokens");
    reveal_strlit("max_turn_requests");
    reveal_strlit("empty");
    assert("cancelled"@.len() == 9);
    assert("refusal"@.len() == 7);
    assert("max_tokens"@.len() == 10);
    assert("max_turn_requests"@.len() == 17);
    assert("empty"@.len() == 5);
}

/// What is said of an error holds all of its message but outer white space: as it
/// stands where there is no telling code, else behind the code in brackets, with
/// a space for each line break and nothing else changed.
pub proof fn lemma_error_detail_keeps_message(message: Seq<char>, code: Seq<char>)
    ensures
        error_detail(message, None) == trimmed(message),
        trimmed(code).len() == 0 ==> error_detail(message, Some(code)) == trimmed(message),
        trimmed(code).len() > 0 ==> ({
            let whole = "["@ + code + "] "@ + trimmed(message);
            let said = error_detail(message, Some(code));
            &&& said.len() == whole.len()
            &&& !said.contains('\n') && !said.contains('\r')
            &&& forall|i: int|
                0 <= i < whole.len() ==> #[trigger] said[i] == whole[i] || (said[i] == ' ' && (
                whole[i] == '\n' || whole[i] == '\r'))
        }),
{
    lemma_folded("["@ + code + "] "@ + trimmed(message));
}

/// A connection that was bound to a conversation and is lost has that conversation
/// cancelled where it is still running, reported through the handle that the host
/// knew when it was bound, and the broker told to cancel what waits for it, where
/// there is one: for a terminal error with what is said of the error, for a plain
/// loss without a reason.
pub proof fn lemma_lost_connection_cancels<H>(
    fresh: ConnectionWorker<H>,
    link: AcpEvent,
    handle: H,
    bound: ConnectionWorker<H>,
    linked: WorkerAction<H>,
    end: AcpEvent,
    found: Option<H>,
    gone: ConnectionWorker<H>,
    action: WorkerAction<H>,
)
    requires
        !fresh.cache@.dom().contains(fresh.connection_id@),
        !fresh.terminal_dispatched,
        link is ConversationLinked,
        fresh.makes_of(link, Some(handle), bound, linked),
        end matches AcpEvent::Error { terminal, .. } ==> terminal,
        end matches AcpEvent::StatusChanged { status } ==> status == ConnectionStatus::Disconnected,
        end is Error || end is StatusChanged,
        bound.makes_of(end, found, gone, action),
    ensures
        action matches WorkerAction::Terminal { row, cancel } && (row matches Some(work)
            && work.conversation_id == link->ConversationLinked_conversation_id && work.handle
            == handle && work.swap.expected == ConversationStatus::InProgress && work.swap.target
            == ConversationStatus::Cancelled) && (cancel is Some <==> fresh.has_broker) && (
        cancel matches Some(c) ==> opt_string(c.detail) == match end {
            AcpEvent::Error { message, code, .. } => Some(
                error_detail(message@, opt_string(code)),
            ),
            _ => None,
        }),
        !gone.cache@.dom().contains(fresh.connection_id@),
        gone.terminal_dispatched,
{
}

/// A worker that has acted on the end of its connection acts on no further one,
/// and an event that neither binds nor ends the connection leaves what the worker
/// remembers alone: the host plans it, but for an error that is not terminal.
pub proof fn lemma_worker_keeps_binding<H>(
    before: ConnectionWorker<H>,
    event: AcpEvent,
    found: Option<H>,
    after: ConnectionWorker<H>,
    action: WorkerAction<H>,
)
    requires
        before.makes_of(event, found, after, action),
        !(event is ConversationLinked),
    ensures
        before.terminal_dispatched ==> !(action is Terminal) && after.terminal_dispatched
            && after.cache@ == before.cache@,
        !(event is Error) && !(event is StatusChanged) ==> action == WorkerAction::<H>::Handle
            && after.cache@ == before.cache@ && after.terminal_dispatched
            == before.terminal_dispatched,
        (event matches AcpEvent::Error { terminal, .. } && !terminal) ==> action == WorkerAction::<
            H,
        >::Nothing && after.cache@ == before.cache@ && after.terminal_dispatched
            == before.terminal_dispatched,
        (event matches AcpEvent::StatusChanged { status } && status
            != ConnectionStatus::Disconnected) ==> after.cache@ == before.cache@
            && after.terminal_dispatched == before.terminal_dispatched,
{
}

/// An event goes to the worker of the connection it came over, which is started
/// where there is none, and is the worker's last where it ends the connection.
/// Every start, end of a turn, binding, tool call, error and loss of a connection
/// is delivered.
pub proof fn lemma_events_are_routed<S>(
    boxes: Map<Seq<char>, S>,
    envelope: EventEnvelope,
    delivery: Option<Delivery>,
)
    requires
        match delivery {
            Some(d) => route_of(boxes, envelope) == Some(d@),
            None => route_of(boxes, envelope) is None,
        },
    ensures
        delivery is Some <==> match envelope.payload {
            AcpEvent::SessionStarted { .. } | AcpEvent::TurnComplete { .. }
            | AcpEvent::ConversationLinked { .. } | AcpEvent::ToolCall { .. }
            | AcpEvent::Error { .. } => true,
            AcpEvent::StatusChanged { status } => status == ConnectionStatus::Disconnected,
            _ => false,
        },
        delivery matches Some(d) ==> d.connection_id@ == envelope.connection_id@ && (d.spawn
            <==> !boxes.dom().contains(envelope.connection_id@)) && (d.last
            <==> match envelope.payload {
            AcpEvent::Error { terminal, .. } => terminal,
            AcpEvent::StatusChanged { .. } => true,
            _ => false,
        }),
{
}

/// Settling a delivery drops the mailbox of its connection alone, and only after
/// the last event or where the worker is gone.
pub proof fn lemma_settling_touches_own_mailbox<S>(
    boxes: Map<Seq<char>, S>,
    delivery: Delivery,
    handed_over: bool,
    other: Seq<char>,
)
    requires
        other != delivery.connection_id@,
    ensures
        ({
            let after = boxes_after(boxes, delivery@, handed_over);
            &&& after.dom().contains(other) == boxes.dom().contains(other)
            &&& boxes.dom().contains(other) ==> after[other] == boxes[other]
            &&& delivery.last || !handed_over ==> !after.dom().contains(delivery.connection_id@)
            &&& !delivery.last && handed_over ==> after == boxes
        }),
{
}

/// A conversation that is no delegation, or whose row names no tool use that waits
/// for it, or could not be read, resolves nothing.
pub proof fn lemma_only_delegations_are_resolved(
    resolved: Option<ResolvedCall>,
    conversation_id: i32,
    row: Option<DelegationRow>,
    end: TurnEnd,
)
    requires
        resolves(resolved, conversation_id, row, end),
    ensures
        resolved is Some <==> (row matches Some(r) && r.delegation_call_id is Some
            && r.parent_tool_use_id is Some),
{
}

/// A plan is tried three times and no more, each time after a longer wait.
pub proof fn lemma_three_tries(attempt: u32)
    ensures
        1 <= attempt < 3 <==> step_after(attempt) is After,
        step_after(1) == RetryStep::After(100),
        step_after(2) == RetryStep::After(500),
{
}

/// A write that took effect is reported with its conversation and its status; one
/// that did not is not reported.
pub proof fn lemma_writes_are_reported(
    conversation_id: i32,
    status: ConversationStatus,
    swap: StatusSwap,
    row: ConversationStatus,
)
    ensures
        report_of(conversation_id, status, true) == Some(
            AcpEvent::ConversationStatusChanged { conversation_id, status },
        ),
        report_of(conversation_id, status, false) is None,
        row == swap.expected ==> swap.applied(row) == swap.target,
        row != swap.expected ==> swap.applied(row) == row,
{
}

/// The first binding of a connection counts: a later one changes nothing, and
/// neither does one of a connection that the host no longer knows.
pub proof fn lemma_first_binding_counts<H>(
    before: ConnectionWorker<H>,
    link: AcpEvent,
    found: Option<H>,
    after: ConnectionWorker<H>,
    action: WorkerAction<H>,
)
    requires
        link is ConversationLinked,
        before.makes_of(link, found, after, action),
    ensures
        action == WorkerAction::<H>::Nothing,
        before.cache@.dom().contains(before.connection_id@) || found is None ==> after.cache@
            == before.cache@,
        !before.cache@.dom().contains(before.connection_id@) && found is Some
            ==> after.cache@.dom().contains(before.connection_id@)
            && after.cache@[before.connection_id@].conversation_id
            == link->ConversationLinked_conversation_id
            && after.cache@[before.connection_id@].handle == found->0,
        after.terminal_dispatched == before.terminal_dispatched,
{
}

} // verus!
