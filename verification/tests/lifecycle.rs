use codeg::acp::lifecycle::format_terminal_error;
use codeg::acp::lifecycle::forward_turn_complete_to_broker;
use codeg::acp::lifecycle::handle_event;
use codeg::acp::lifecycle::handle_terminal_event;
use codeg::acp::lifecycle::has_delegation_shape;
use codeg::acp::lifecycle::is_delegation_invocation;
use codeg::acp::lifecycle::is_dispatcher_terminal;
use codeg::acp::lifecycle::is_lifecycle_relevant;
use codeg::acp::lifecycle::retry_after;
use codeg::acp::lifecycle::status_report;
use codeg::acp::lifecycle::try_cache_link;
use codeg::acp::lifecycle::turn_outcome;
use codeg::acp::lifecycle::CachedConn;
use codeg::acp::lifecycle::ConnectionWorker;
use codeg::acp::lifecycle::DelegationRow;
use codeg::acp::lifecycle::Dispatcher;
use codeg::acp::lifecycle::EventPlan;
use codeg::acp::lifecycle::RetryStep;
use codeg::acp::lifecycle::SessionSnapshot;
use codeg::acp::lifecycle::TerminalWork;
use codeg::acp::lifecycle::TurnEnd;
use codeg::acp::lifecycle::WorkerAction;
use codeg::acp::types::AcpEvent;
use codeg::acp::types::AgentType;
use codeg::acp::types::ConnectionStatus;
use codeg::acp::types::ConversationStatus;
use codeg::acp::types::DelegationError;
use codeg::acp::types::DelegationOutcome;
use codeg::acp::types::EventEnvelope;
use codeg::json::Json;
use codeg::keyed::KeyedStore;

const CONVERSATION: i32 = 31;

/// A host with one conversation, one connection and one delegation that waits
/// for it.
struct Host {
    bound: bool,
    status: ConversationStatus,
    external_id: Option<String>,
    reports: Vec<AcpEvent>,
    broker: bool,
    canceled: Option<String>,
    pending: usize,
    started: usize,
    dispatcher: Dispatcher<usize>,
    workers: Vec<ConnectionWorker<&'static str>>,
}

impl Host {
    fn new(bound: bool, broker: bool) -> Host {
        Host {
            bound,
            status: ConversationStatus::InProgress,
            external_id: None,
            reports: Vec::new(),
            broker,
            canceled: None,
            pending: if broker { 1 } else { 0 },
            started: 0,
            dispatcher: Dispatcher::new(),
            workers: Vec::new(),
        }
    }

    fn snapshot(&self) -> Option<SessionSnapshot> {
        Some(SessionSnapshot {
            conversation_id: if self.bound { Some(CONVERSATION) } else { None },
            last_assistant_text: None,
        })
    }

    fn handle(&mut self, envelope: &EventEnvelope) {
        match handle_event(envelope, self.snapshot(), self.broker) {
            EventPlan::Nothing => {}
            EventPlan::RegisterToolCall { .. } => {}
            EventPlan::WriteExternalId {
                conversation_id,
                external_id,
            } => {
                assert_eq!(conversation_id, CONVERSATION);
                self.external_id = Some(external_id);
            }
            EventPlan::CompleteTurn {
                conversation_id,
                status,
                ..
            } => {
                assert_eq!(conversation_id, CONVERSATION);
                if let Some(status) = status {
                    self.status = status;
                    self.reports
                        .extend(status_report(conversation_id, status, true));
                }
            }
        }
    }

    fn end(&mut self, work: Option<TerminalWork<&'static str>>) {
        if let Some(work) = work {
            let changed = work.swap.apply(&mut self.status);
            self.reports
                .extend(status_report(work.conversation_id, work.swap.target, changed));
        }
    }

    fn send(&mut self, connection_id: &str, payload: AcpEvent) {
        let envelope = EventEnvelope {
            seq: 1,
            connection_id: connection_id.to_string(),
            payload,
        };
        let Some(delivery) = self.dispatcher.route(&envelope) else {
            return;
        };
        if delivery.spawn {
            self.started += 1;
            self.workers
                .push(ConnectionWorker::new(connection_id.to_string(), self.broker));
            self.dispatcher
                .started(connection_id.to_string(), self.workers.len() - 1);
        }
        let worker = *self.dispatcher.mailbox(connection_id).unwrap();
        match self.workers[worker].step(&envelope.payload, Some("state")) {
            WorkerAction::Nothing => {}
            WorkerAction::Handle => self.handle(&envelope),
            WorkerAction::Terminal { row, cancel } => {
                self.end(row);
                if let Some(cancel) = cancel {
                    if self.pending > 0 {
                        self.pending = 0;
                        let reason = "child session ended without TurnComplete";
                        self.canceled = Some(match cancel.detail {
                            Some(detail) => format!("canceled: {reason}: {detail}"),
                            None => format!("canceled: {reason}"),
                        });
                    }
                }
            }
        }
        self.dispatcher.settled(delivery, true);
    }
}

fn started(session_id: &str) -> AcpEvent {
    AcpEvent::SessionStarted {
        session_id: session_id.into(),
    }
}

fn turn_complete(stop_reason: &str) -> AcpEvent {
    AcpEvent::TurnComplete {
        session_id: "ext-1".into(),
        stop_reason: stop_reason.into(),
        agent_type: "claude_code".into(),
    }
}

fn linked() -> AcpEvent {
    AcpEvent::ConversationLinked {
        conversation_id: CONVERSATION,
        folder_id: 1,
        parent_conversation_id: None,
        parent_tool_use_id: None,
    }
}

fn disconnected() -> AcpEvent {
    AcpEvent::StatusChanged {
        status: ConnectionStatus::Disconnected,
    }
}

fn error(message: &str, code: Option<&str>, terminal: bool) -> AcpEvent {
    AcpEvent::Error {
        message: message.into(),
        agent_type: "gemini".into(),
        code: code.map(str::to_string),
        terminal,
    }
}

fn envelope(payload: AcpEvent) -> EventEnvelope {
    EventEnvelope {
        seq: 1,
        connection_id: "c1".to_string(),
        payload,
    }
}

fn cache() -> KeyedStore<CachedConn<&'static str>> {
    let mut cache = KeyedStore::new();
    try_cache_link(&mut cache, "c1", CONVERSATION, Some("state"));
    assert!(cache.contains_key("c1"));
    cache
}

#[test]
fn handle_event_writes_external_id_when_conversation_bound() {
    let mut host = Host::new(true, false);
    host.handle(&envelope(started("ext-99")));
    assert_eq!(host.external_id.as_deref(), Some("ext-99"));
}

#[test]
fn handle_event_is_noop_when_no_conversation_bound() {
    let mut host = Host::new(false, false);
    host.handle(&envelope(started("should-not-write")));
    assert!(host.external_id.is_none());
    let gone = handle_event(&envelope(started("should-not-write")), None, true);
    assert_eq!(gone, EventPlan::Nothing);
}

#[test]
fn handle_event_writes_pending_review_on_turn_complete() {
    let mut host = Host::new(true, false);
    host.handle(&envelope(turn_complete("end_turn")));
    assert_eq!(host.status, ConversationStatus::PendingReview);
    assert_eq!(
        host.reports,
        vec![AcpEvent::ConversationStatusChanged {
            conversation_id: CONVERSATION,
            status: ConversationStatus::PendingReview,
        }]
    );
}

#[test]
fn handle_event_writes_cancelled_on_turn_failure_stop_reasons() {
    let cases = [
        "refusal",
        "max_tokens",
        "max_turn_requests",
        "unknown",
        "empty",
    ];
    for stop_reason in cases {
        let mut host = Host::new(true, false);
        host.handle(&envelope(turn_complete(stop_reason)));
        assert_eq!(
            host.status,
            ConversationStatus::Cancelled,
            "stop_reason={stop_reason} must flip the row to Cancelled"
        );
    }
}

#[test]
fn handle_event_skips_write_on_cancelled_stop_reason() {
    let mut host = Host::new(true, false);
    host.handle(&envelope(turn_complete("cancelled")));
    assert_eq!(host.status, ConversationStatus::InProgress);
    assert!(host.reports.is_empty());
}

#[test]
fn handle_event_pending_review_is_noop_when_no_conversation_bound() {
    let mut host = Host::new(false, false);
    host.handle(&envelope(turn_complete("end_turn")));
    assert_eq!(host.status, ConversationStatus::InProgress);
}

#[test]
fn handle_event_is_noop_for_unrelated_events() {
    let mut host = Host::new(true, false);
    host.handle(&envelope(AcpEvent::ContentDelta { text: "hi".into() }));
    assert!(host.external_id.is_none());
    assert_eq!(host.status, ConversationStatus::InProgress);
}

#[test]
fn delegation_calls_are_registered_with_the_broker() {
    let call = |title: &str| {
        envelope(AcpEvent::ToolCall {
            tool_call_id: "tc-1".into(),
            title: title.into(),
            kind: "other".into(),
            status: "pending".into(),
            content: None,
            raw_input: None,
            raw_output: None,
            locations: None,
            meta: None,
            images: None,
        })
    };
    assert_eq!(
        handle_event(&call("delegate_to_agent"), None, true),
        EventPlan::RegisterToolCall {
            connection_id: "c1".into(),
            tool_call_id: "tc-1".into()
        }
    );
    assert_eq!(
        handle_event(&call("delegate_to_agent"), None, false),
        EventPlan::Nothing
    );
    assert_eq!(handle_event(&call("write"), None, true), EventPlan::Nothing);
}

#[test]
fn handle_terminal_event_writes_cancelled_when_in_progress() {
    let mut host = Host::new(true, false);
    let mut cache = cache();
    host.end(handle_terminal_event(&mut cache, "c1"));
    assert_eq!(host.status, ConversationStatus::Cancelled);
    assert_eq!(host.reports.len(), 1);
    assert!(!cache.contains_key("c1"));
}

#[test]
fn handle_terminal_event_preserves_pending_review() {
    let mut host = Host::new(true, false);
    host.status = ConversationStatus::PendingReview;
    host.end(handle_terminal_event(&mut cache(), "c1"));
    assert_eq!(host.status, ConversationStatus::PendingReview);
    assert!(host.reports.is_empty());
}

#[test]
fn handle_terminal_event_preserves_user_completed() {
    let mut host = Host::new(true, false);
    host.status = ConversationStatus::Completed;
    host.end(handle_terminal_event(&mut cache(), "c1"));
    assert_eq!(host.status, ConversationStatus::Completed);
    assert!(host.reports.is_empty());
}

#[test]
fn handle_terminal_event_drains_cache_on_error_then_disconnected() {
    let mut host = Host::new(true, false);
    let mut cache = cache();
    host.end(handle_terminal_event(&mut cache, "c1"));
    assert!(!cache.contains_key("c1"));
    let second = handle_terminal_event(&mut cache, "c1");
    assert!(second.is_none());
    host.end(second);
    assert_eq!(host.status, ConversationStatus::Cancelled);
}

#[test]
fn handle_terminal_event_noop_when_connection_unknown() {
    let mut host = Host::new(true, false);
    let mut cache: KeyedStore<CachedConn<&'static str>> = KeyedStore::new();
    host.end(handle_terminal_event(&mut cache, "ghost-connection"));
    assert_eq!(host.status, ConversationStatus::InProgress);
}

#[test]
fn a_connection_is_bound_once() {
    let mut cache = cache();
    try_cache_link(&mut cache, "c1", 99, Some("later"));
    try_cache_link(&mut cache, "c2", 99, None);
    assert_eq!(cache.get("c1").unwrap().conversation_id, CONVERSATION);
    assert_eq!(cache.get("c1").unwrap().handle, "state");
    assert!(!cache.contains_key("c2"));
}

#[test]
fn dispatcher_filter_drops_high_frequency_events_at_source() {
    let mut host = Host::new(true, false);
    for i in 0..50 {
        host.send(
            "c1",
            AcpEvent::ContentDelta {
                text: format!("delta {i}"),
            },
        );
    }
    assert!(host.external_id.is_none());
    assert_eq!(host.status, ConversationStatus::InProgress);
    assert_eq!(host.started, 0);
}

#[test]
fn dispatcher_delivers_session_started_and_turn_complete_to_db() {
    let mut host = Host::new(true, false);
    host.send("c1", started("ext-final"));
    host.send("c1", turn_complete("end_turn"));
    assert_eq!(host.external_id.as_deref(), Some("ext-final"));
    assert_eq!(host.status, ConversationStatus::PendingReview);
    assert_eq!(host.started, 1);
}

#[test]
fn dispatcher_delivers_turn_complete_after_relevant_event_burst() {
    let mut host = Host::new(true, false);
    for i in 1..=200u64 {
        host.send("c1", started(&format!("ext-{i:03}")));
    }
    host.send("c1", turn_complete("end_turn"));
    assert_eq!(host.external_id.as_deref(), Some("ext-200"));
    assert_eq!(host.status, ConversationStatus::PendingReview);
}

#[test]
fn dispatcher_error_alone_does_not_drain_broker_pending_entry() {
    let mut host = Host::new(true, true);
    host.send(
        "c-no-drain",
        error(
            "Gemini refused the prompt.",
            Some("turn_failed_refusal"),
            false,
        ),
    );
    assert_eq!(host.pending, 1);
    host.send("c-no-drain", disconnected());
    assert_eq!(host.pending, 0);
}

#[test]
fn dispatcher_terminal_error_alone_drains_broker_with_detail() {
    let mut host = Host::new(true, true);
    host.send("c-error-alone", error("transport closed", None, true));
    assert_eq!(
        host.canceled.as_deref(),
        Some("canceled: child session ended without TurnComplete: transport closed")
    );
}

#[test]
fn dispatcher_error_then_disconnected_threads_buffered_detail_to_broker() {
    let mut host = Host::new(true, true);
    host.send(
        "c-auth-fail",
        error("Authentication required", Some("auth_required"), true),
    );
    host.send("c-auth-fail", disconnected());
    assert_eq!(
        host.canceled.as_deref(),
        Some(
            "canceled: child session ended without TurnComplete: \
             [auth_required] Authentication required"
        )
    );
}

#[test]
fn dispatcher_disconnected_alone_drains_broker_with_default_reason() {
    let mut host = Host::new(true, true);
    host.send("c-bare-disco", disconnected());
    assert_eq!(
        host.canceled.as_deref(),
        Some("canceled: child session ended without TurnComplete")
    );
}

#[test]
fn dispatcher_non_terminal_error_does_not_pollute_disconnected_drain_reason() {
    let mut host = Host::new(true, true);
    host.send(
        "c-nonterm",
        error("Failed to load session, starting new: stale id", None, false),
    );
    host.send("c-nonterm", disconnected());
    assert_eq!(
        host.canceled.as_deref(),
        Some("canceled: child session ended without TurnComplete")
    );
}

#[test]
fn dispatcher_non_terminal_error_does_not_flip_conversation_row() {
    let mut host = Host::new(true, false);
    host.send("c-row", linked());
    host.send("c-row", error("Failed to set mode: bad id", None, false));
    assert_eq!(host.status, ConversationStatus::InProgress);
    host.send("c-row", disconnected());
    assert_eq!(host.status, ConversationStatus::Cancelled);
}

#[test]
fn a_worker_acts_on_the_end_once() {
    let mut worker: ConnectionWorker<&'static str> = ConnectionWorker::new("c1".into(), true);
    assert_eq!(worker.step(&linked(), Some("state")), WorkerAction::Nothing);
    match worker.step(&error(" boom ", Some("x"), true), None) {
        WorkerAction::Terminal { row, cancel } => {
            assert_eq!(row.unwrap().conversation_id, CONVERSATION);
            assert_eq!(cancel.unwrap().detail.as_deref(), Some("[x] boom"));
        }
        other => panic!("unexpected {:?}", other),
    }
    assert_eq!(worker.step(&disconnected(), None), WorkerAction::Nothing);
    assert_eq!(worker.step(&error("again", None, true), None), WorkerAction::Nothing);
    assert_eq!(worker.step(&started("s"), None), WorkerAction::Handle);
}

#[test]
fn workers_go_away_after_the_last_event() {
    let mut host = Host::new(true, false);
    host.send("c1", started("a"));
    host.send("c2", started("b"));
    host.send("c1", disconnected());
    assert!(host.dispatcher.mailbox("c1").is_none());
    assert!(host.dispatcher.mailbox("c2").is_some());
    host.send("c1", started("c"));
    assert_eq!(host.started, 3);

    // A worker that is gone is replaced at the next event.
    let delivery = host.dispatcher.route(&envelope(started("d"))).unwrap();
    assert!(!delivery.spawn && !delivery.last);
    host.dispatcher.settled(delivery, false);
    assert!(host.dispatcher.route(&envelope(started("d"))).unwrap().spawn);
}

#[test]
fn each_worker_gets_its_events_in_order_up_to_the_end() {
    let mut dispatcher: Dispatcher<usize> = Dispatcher::new();
    let mut inboxes: Vec<(String, Vec<AcpEvent>)> = Vec::new();
    let run = [
        ("c1", started("a"), true),
        ("c2", started("b"), true),
        ("c1", linked(), true),
        ("c1", error("late", None, true), true),
        ("c1", started("c"), true),
        ("c2", linked(), false),
        ("c2", disconnected(), true),
    ];
    for (connection_id, payload, handed_over) in run {
        let mut envelope = envelope(payload);
        envelope.connection_id = connection_id.to_string();
        let delivery = dispatcher.route(&envelope).unwrap();
        if delivery.spawn {
            dispatcher.started(connection_id.to_string(), inboxes.len());
            inboxes.push((connection_id.to_string(), Vec::new()));
        }
        let worker = *dispatcher.mailbox(connection_id).unwrap();
        if handed_over {
            inboxes[worker].1.push(envelope.payload);
        }
        dispatcher.settled(delivery, handed_over);
    }
    assert_eq!(
        inboxes,
        vec![
            (
                "c1".to_string(),
                vec![started("a"), linked(), error("late", None, true)]
            ),
            ("c2".to_string(), vec![started("b")]),
            ("c1".to_string(), vec![started("c")]),
            ("c2".to_string(), vec![disconnected()]),
        ]
    );
    assert!(dispatcher.mailbox("c1").is_some());
    assert!(dispatcher.mailbox("c2").is_none());
}

#[test]
fn failed_writes_are_tried_three_times() {
    assert_eq!(retry_after(1), RetryStep::After(100));
    assert_eq!(retry_after(2), RetryStep::After(500));
    assert_eq!(retry_after(3), RetryStep::GiveUp);
}

fn end(stop_reason: &str, last_text: Option<&str>) -> TurnEnd {
    TurnEnd {
        stop_reason: stop_reason.into(),
        last_text: last_text.map(str::to_string),
    }
}

#[test]
fn child_turns_resolve_delegations() {
    match turn_outcome(5, AgentType::Codex, end("end_turn", Some("hi"))) {
        DelegationOutcome::Done(success) => {
            assert_eq!(success.text, "hi");
            assert_eq!(success.child_conversation_id, 5);
            assert_eq!(success.child_agent_type, AgentType::Codex);
            assert_eq!(success.turn_count, 1);
            assert_eq!(success.duration_ms, 0);
            assert_eq!(success.token_usage, None);
        }
        other => panic!("unexpected {:?}", other),
    }
    let failure = |stop_reason: &str| match turn_outcome(5, AgentType::Cline, end(stop_reason, None))
    {
        DelegationOutcome::Failed {
            error,
            child_conversation_id,
        } => {
            assert_eq!(child_conversation_id, Some(5));
            error
        }
        other => panic!("unexpected {:?}", other),
    };
    assert_eq!(
        failure("cancelled"),
        DelegationError::Canceled {
            reason: "child session was cancelled".into()
        }
    );
    assert_eq!(failure("refusal"), DelegationError::ChildRefusal);
    assert_eq!(failure("max_tokens"), DelegationError::ChildMaxTokens);
    assert_eq!(
        failure("max_turn_requests"),
        DelegationError::ChildMaxTurnRequests
    );
    assert_eq!(failure("empty"), DelegationError::ChildEmpty);
    assert_eq!(
        failure("odd"),
        DelegationError::ChildUnknown("odd".into())
    );
}

#[test]
fn only_delegations_are_resolved() {
    let row = |call: Option<&str>, tool: Option<&str>| {
        Some(DelegationRow {
            delegation_call_id: call.map(str::to_string),
            parent_tool_use_id: tool.map(str::to_string),
            agent_type: AgentType::Gemini,
        })
    };
    let resolve = |row| forward_turn_complete_to_broker(5, row, end("refusal", None));
    assert!(resolve(None).is_none());
    assert!(resolve(row(None, Some("tu"))).is_none());
    assert!(resolve(row(Some("call"), None)).is_none());
    assert_eq!(resolve(row(Some("call"), Some("tu"))).unwrap().call_id, "call");
}

#[test]
fn delegations_have_a_shape() {
    let shape = |text: &str| has_delegation_shape(&Json::parse(text).unwrap());
    assert!(shape(r#"{"task":"x","agent_type":"codex","more":1}"#));
    assert!(!shape(r#"{"task":1,"agent_type":"codex"}"#));
    assert!(!shape(r#"["task","agent_type"]"#));
    assert!(!is_delegation_invocation("write", Some("not json")));
}

#[test]
fn matches_bare_method_in_title() {
    assert!(is_delegation_invocation("delegate_to_agent", None));
    assert!(is_delegation_invocation("Delegate To Agent", None));
    assert!(is_delegation_invocation("delegate-to-agent", None));
}

#[test]
fn matches_mcp_prefixed_method_in_title() {
    assert!(is_delegation_invocation(
        "mcp__codeg-delegate__delegate_to_agent",
        None
    ));
    assert!(is_delegation_invocation(
        "Run mcp__codeg__delegate_to_agent",
        None
    ));
}

#[test]
fn matches_via_raw_input_shape_when_title_is_unrecognized() {
    let raw = r#"{"agent_type":"codex","task":"smoke test"}"#;
    assert!(is_delegation_invocation("Delegate to codex", Some(raw)));
    assert!(is_delegation_invocation("anything", Some(raw)));
}

#[test]
fn rejects_unrelated_tools() {
    assert!(!is_delegation_invocation("write", None));
    assert!(!is_delegation_invocation("agent", None));
    assert!(!is_delegation_invocation("delegate_other_thing", None));
    assert!(!is_delegation_invocation(
        "write",
        Some(r#"{"path":"/tmp/x","content":"y"}"#)
    ));
}

#[test]
fn format_terminal_error_with_code_prefixes_bracketed_label() {
    assert_eq!(
        format_terminal_error("Authentication required", Some("auth_required")),
        "[auth_required] Authentication required"
    );
}

#[test]
fn format_terminal_error_without_code_returns_trimmed_message() {
    assert_eq!(
        format_terminal_error("  transport closed\n", None),
        "transport closed"
    );
}

#[test]
fn format_terminal_error_treats_blank_code_as_absent() {
    assert_eq!(
        format_terminal_error("agent crashed", Some("   ")),
        "agent crashed"
    );
}

#[test]
fn an_error_with_a_code_stays_on_one_line() {
    assert_eq!(
        format_terminal_error(" first\nsecond\r\nthird \n", Some("io")),
        "[io] first second  third"
    );
    assert_eq!(format_terminal_error("a", Some("x\ny")), "[x y] a");
    assert_eq!(
        format_terminal_error(" first\nsecond \n", None),
        "first\nsecond"
    );
}

#[test]
fn is_lifecycle_relevant_matches_worker_arms() {
    assert!(is_lifecycle_relevant(&AcpEvent::SessionStarted {
        session_id: "s".into(),
    }));
    assert!(is_lifecycle_relevant(&AcpEvent::TurnComplete {
        session_id: "s".into(),
        stop_reason: "end_turn".into(),
        agent_type: "claude_code".into(),
    }));
    assert!(is_lifecycle_relevant(&AcpEvent::ConversationLinked {
        conversation_id: 1,
        folder_id: 1,
        parent_conversation_id: None,
        parent_tool_use_id: None,
    }));
    assert!(is_lifecycle_relevant(&AcpEvent::ToolCall {
        tool_call_id: "tc-1".into(),
        title: "delegate_to_agent".into(),
        kind: "other".into(),
        status: "pending".into(),
        content: None,
        raw_input: None,
        raw_output: None,
        locations: None,
        meta: None,
        images: None,
    }));
    assert!(is_lifecycle_relevant(&AcpEvent::StatusChanged {
        status: ConnectionStatus::Disconnected,
    }));
    assert!(is_lifecycle_relevant(&AcpEvent::Error {
        message: "boom".into(),
        agent_type: "claude_code".into(),
        code: None,
        terminal: true,
    }));

    assert!(!is_lifecycle_relevant(&AcpEvent::ContentDelta {
        text: "x".into(),
    }));
    assert!(!is_lifecycle_relevant(&AcpEvent::StatusChanged {
        status: ConnectionStatus::Connected,
    }));
    assert!(!is_lifecycle_relevant(&AcpEvent::StatusChanged {
        status: ConnectionStatus::Prompting,
    }));
}

#[test]
fn is_dispatcher_terminal_drops_worker_on_disconnected_and_terminal_error() {
    assert!(is_dispatcher_terminal(&AcpEvent::StatusChanged {
        status: ConnectionStatus::Disconnected,
    }));
    assert!(is_dispatcher_terminal(&AcpEvent::Error {
        message: "transport closed".into(),
        agent_type: "claude_code".into(),
        code: None,
        terminal: true,
    }));

    assert!(!is_dispatcher_terminal(&AcpEvent::Error {
        message: "turn refusal".into(),
        agent_type: "claude_code".into(),
        code: Some("turn_failed_refusal".into()),
        terminal: false,
    }));

    assert!(!is_dispatcher_terminal(&AcpEvent::StatusChanged {
        status: ConnectionStatus::Connected,
    }));
    assert!(!is_dispatcher_terminal(&AcpEvent::StatusChanged {
        status: ConnectionStatus::Prompting,
    }));
    assert!(!is_dispatcher_terminal(&AcpEvent::StatusChanged {
        status: ConnectionStatus::Error,
    }));

    assert!(!is_dispatcher_terminal(&AcpEvent::TurnComplete {
        session_id: "s".into(),
        stop_reason: "end_turn".into(),
        agent_type: "claude_code".into(),
    }));
}
