use codeg::acp::types::AcpEvent;
use codeg::acp::types::ConnectionStatus;
use codeg::acp::types::ConversationStatus;
use codeg::acp::types::EventEnvelope;
use codeg::acp::types::PermissionOption;
use codeg::chat_channel::completion::format_completion;
use codeg::chat_channel::completion::localize_stop_reason;
use codeg::chat_channel::completion::Lang;
use codeg::chat_channel::session::command_prefix;
use codeg::chat_channel::session::error_message;
use codeg::chat_channel::session::heartbeat_due;
use codeg::chat_channel::session::permission_message;
use codeg::chat_channel::session::progress_message;
use codeg::chat_channel::session::prompt_failed_message;
use codeg::chat_channel::session::turn_message;
use codeg::chat_channel::session::ActiveSession;
use codeg::chat_channel::session::ProgressUpdate;
use codeg::chat_channel::session::SessionAction;
use codeg::chat_channel::session::SessionBridge;
use codeg::chat_channel::tool_detail::extract_agent_type;
use codeg::chat_channel::tool_detail::format_delegation_outcome;
use codeg::chat_channel::tool_detail::format_tool_call_detail;
use codeg::chat_channel::tool_detail::is_delegation_title;
use codeg::chat_channel::tool_detail::short_path;
use codeg::chat_channel::tool_detail::truncate_str;
use codeg::chat_channel::types::MessageLevel;
use codeg::chat_channel::types::RichMessage;
use codeg::json::Json;
use codeg::keyed::KeyedStore;

fn session(connection_id: &str) -> ActiveSession {
    ActiveSession {
        channel_id: 7,
        sender_id: "u1".into(),
        conversation_id: 31,
        connection_id: connection_id.to_string(),
        agent_type: "Gemini".into(),
        content_buffer: String::new(),
        tool_calls: Vec::new(),
        tool_call_inputs: KeyedStore::new(),
        last_flushed: 1_000,
        pending_prompt: None,
        permission_pending: None,
    }
}

fn bridge(connection_id: &str) -> SessionBridge {
    let mut bridge = SessionBridge::new();
    bridge.register(connection_id.to_string(), session(connection_id));
    bridge
}

fn envelope(connection_id: &str, payload: AcpEvent) -> EventEnvelope {
    EventEnvelope {
        seq: 1,
        connection_id: connection_id.to_string(),
        payload,
    }
}

fn take(bridge: &mut SessionBridge, payload: AcpEvent, now: u64) -> SessionAction {
    bridge.handle_acp_envelope(&envelope("c1", payload), false, now)
}

fn delta(text: &str) -> AcpEvent {
    AcpEvent::ContentDelta { text: text.into() }
}

fn tool_call(id: &str, title: &str, raw_input: Option<&str>) -> AcpEvent {
    AcpEvent::ToolCall {
        tool_call_id: id.into(),
        title: title.into(),
        kind: "other".into(),
        status: "pending".into(),
        content: None,
        raw_input: raw_input.map(str::to_string),
        raw_output: None,
        locations: None,
        meta: None,
        images: None,
    }
}

fn tool_update(
    id: &str,
    title: Option<&str>,
    status: Option<&str>,
    raw_input: Option<&str>,
    raw_output: Option<&str>,
) -> AcpEvent {
    AcpEvent::ToolCallUpdate {
        tool_call_id: id.into(),
        title: title.map(str::to_string),
        status: status.map(str::to_string),
        content: None,
        raw_input: raw_input.map(str::to_string),
        raw_output: raw_output.map(str::to_string),
    }
}

fn turn_complete(stop_reason: &str) -> AcpEvent {
    AcpEvent::TurnComplete {
        session_id: "s".into(),
        stop_reason: stop_reason.into(),
        agent_type: "claude_code".into(),
    }
}

fn error(message: &str, terminal: bool) -> AcpEvent {
    AcpEvent::Error {
        message: message.into(),
        agent_type: "claude_code".into(),
        code: None,
        terminal,
    }
}

fn post(text: &str) -> SessionAction {
    SessionAction::Post {
        channel_id: 7,
        message: RichMessage::info(text.to_string()),
    }
}

#[test]
fn is_delegation_title_matches_variants() {
    assert!(is_delegation_title("delegate_to_agent"));
    assert!(is_delegation_title("Delegate To Agent"));
    assert!(is_delegation_title("delegate-to-agent"));
    assert!(is_delegation_title(
        "mcp__codeg-delegate__delegate_to_agent"
    ));
    assert!(is_delegation_title("Run mcp__codeg__delegate_to_agent"));
    assert!(!is_delegation_title("agent"));
    assert!(!is_delegation_title("write"));
}

#[test]
fn titles_are_lowered_beyond_ascii() {
    // The Kelvin sign is a capital k.
    assert!(is_delegation_title("DELEGATE TO AGENT \u{212a}"));
    assert_eq!(
        format_tool_call_detail("\u{c4}NDERN WRITE", Some(r#"{"path":"a"}"#)),
        "Write: a"
    );
    assert_eq!(format_tool_call_detail("BASH", Some("ls")), "Bash: ls");
}

#[test]
fn extract_agent_type_pulls_canonical_string() {
    assert_eq!(
        extract_agent_type(r#"{"agent_type":"codex","task":"x"}"#),
        Some("codex".into())
    );
    assert_eq!(extract_agent_type(r#"{"task":"x"}"#), None);
    assert_eq!(extract_agent_type("not json"), None);
}

#[test]
fn format_delegation_outcome_renders_ok_with_preview() {
    let out = r#"{"kind":"ok","text":"  hello world  "}"#;
    let body = format_delegation_outcome(Some(r#"{"agent_type":"codex"}"#), Some(out));
    assert_eq!(body, "✅ codex: hello world");
}

#[test]
fn format_delegation_outcome_renders_err_with_code() {
    let out = r#"{"kind":"err","code":"timeout"}"#;
    let body = format_delegation_outcome(Some(r#"{"agent_type":"gemini"}"#), Some(out));
    assert_eq!(body, "❌ gemini failed (timeout)");
}

#[test]
fn format_delegation_outcome_falls_back_to_plain_text() {
    let body =
        format_delegation_outcome(Some(r#"{"agent_type":"cline"}"#), Some("plain reply body"));
    assert_eq!(body, "✅ cline: plain reply body");
}

#[test]
fn format_delegation_outcome_empty_output_marks_done() {
    let body = format_delegation_outcome(Some(r#"{"agent_type":"open_code"}"#), None);
    assert_eq!(body, "✅ open_code done");
}

#[test]
fn format_delegation_outcome_truncates_long_ok_text() {
    let long_text = "x".repeat(400);
    let out = format!(r#"{{"kind":"ok","text":"{long_text}"}}"#);
    let body = format_delegation_outcome(Some(r#"{"agent_type":"codex"}"#), Some(&out));
    assert!(body.len() < 300);
    assert!(body.starts_with("✅ codex: "));
    assert!(body.ends_with("..."));
}

#[test]
fn delegation_outcomes_without_details() {
    assert_eq!(
        format_delegation_outcome(None, Some(r#"{"kind":"err"}"#)),
        "❌ agent failed (err)"
    );
    assert_eq!(
        format_delegation_outcome(None, Some(r#"{"kind":"ok","text":"  "}"#)),
        "✅ agent done"
    );
    assert_eq!(
        format_delegation_outcome(None, Some(r#"{"kind":"maybe"}"#)),
        r#"✅ agent: {"kind":"maybe"}"#
    );
    assert_eq!(format_delegation_outcome(None, Some("  ")), "✅ agent done");
}

#[test]
fn tool_calls_are_told_by_their_arguments() {
    let detail = |title: &str, raw: &str| format_tool_call_detail(title, Some(raw));
    assert_eq!(detail("Edit file", r#"{"file_path":"src/a.rs"}"#), "Edit: src/a.rs");
    assert_eq!(detail("open", r#"{"notebook_path":"n.ipynb"}"#), "Read: n.ipynb");
    assert_eq!(detail("Delete", r#"{"path":"x"}"#), "Delete: x");
    assert_eq!(
        detail("run", r#"{"command":"npm test\nnpm run lint"}"#),
        "Bash: npm test"
    );
    assert_eq!(detail("run", r#"{"cmd":"ls\r\n"}"#), "Bash: ls");
    assert_eq!(detail("find", r#"{"pattern":"fn main"}"#), "Grep: \"fn main\"");
    assert_eq!(
        detail("find", r#"{"file_path":3,"path":"src","pattern":"x"}"#),
        "Grep: \"x\" in src"
    );
    assert_eq!(detail("find", r#"{"glob":"*.rs"}"#), "Glob: *.rs");
    assert_eq!(
        detail("go", r#"{"task_id":1,"description":"tidy up"}"#),
        "Agent: tidy up"
    );
    assert_eq!(detail("go", r#"{"description":"tidy up"}"#), "go");
    assert_eq!(detail("get", r#"{"url":"http://a"}"#), "Fetch: http://a");
    assert_eq!(detail("ask", r#"{"query":"rust"}"#), "Search: rust");
    assert_eq!(detail("todo", r#"{"todos":[]}"#), "TodoWrite");
    assert_eq!(detail("shell tool", "make all\nmake test"), "Bash: make all");
    assert_eq!(detail("shell", "{broken"), "shell");
    assert_eq!(detail("Other", "make all"), "Other");
    assert_eq!(format_tool_call_detail("Other", None), "Other");
}

#[test]
fn long_texts_are_shortened() {
    assert_eq!(truncate_str("abcdef", 6), "abcdef");
    assert_eq!(truncate_str("abcdefg", 6), "abc...");
    assert_eq!(truncate_str("abcd", 2), "...");
    let path = format!("/{}/src/main.rs", "long/".repeat(20));
    assert_eq!(short_path(&path), "src/main.rs");
    assert_eq!(short_path("/a/b/c"), "/a/b/c");
    let flat = "x".repeat(80);
    assert_eq!(short_path(&flat), flat);
    let one = format!("{}/b", "x".repeat(80));
    assert_eq!(short_path(&one), one);
}

#[test]
fn completions_say_how_much_there_was() {
    assert_eq!(
        format_completion("", 3, Lang::En),
        "(No text output, 3 tool calls)"
    );
    assert_eq!(
        format_completion("", 0, Lang::ZhTw),
        "(无文本输出, 0 次工具调用)"
    );
    assert_eq!(format_completion("done", 0, Lang::Fr), "done");
    assert_eq!(
        format_completion("done", 2, Lang::En),
        "done\n\n[2 tool calls]"
    );
    assert_eq!(
        format_completion("done", 2, Lang::ZhCn),
        "done\n\n[2 次工具调用]"
    );
    let long = format!("{}{}", "a".repeat(1500), "é".repeat(600));
    assert_eq!(
        format_completion(&long, 1, Lang::En),
        format!(
            "{}\n\n...\n\n{}\n\n[Full response: 2700 chars, 1 tool calls]",
            "a".repeat(500),
            "é".repeat(500)
        )
    );
    assert!(format_completion(&long, 1, Lang::ZhCn).ends_with("\n\n[完整回复: 2700 字符, 1 次工具调用]"));
    let limit = "b".repeat(2000);
    assert_eq!(format_completion(&limit, 0, Lang::En), limit);
}

#[test]
fn stop_reasons_are_said_in_the_language() {
    assert_eq!(localize_stop_reason("end_turn", Lang::En), "Completed");
    assert_eq!(localize_stop_reason("stop_sequence", Lang::Ko), "정지 시퀀스");
    assert_eq!(localize_stop_reason("stop_sequence", Lang::Es), "stop_sequence");
    assert_eq!(localize_stop_reason("max_tokens", Lang::De), "Maximale Länge erreicht");
    assert_eq!(localize_stop_reason("timeout", Lang::ZhTw), "逾時");
    assert_eq!(localize_stop_reason("error", Lang::Ar), "خطأ");
    assert_eq!(localize_stop_reason("cancelled", Lang::Ja), "キャンセル");
    assert_eq!(localize_stop_reason("refusal", Lang::Pt), "refusal");
}

#[test]
fn non_terminal_error_keeps_session_and_conversation_intact() {
    let mut bridge = bridge("c-nonterm");
    let action = bridge.handle_acp_envelope(
        &envelope("c-nonterm", error("Failed to set mode: bad id", false)),
        false,
        2_000,
    );
    assert!(
        bridge.get("c-nonterm").is_some(),
        "non-terminal Error must leave the bridge session in place"
    );
    assert_eq!(
        action,
        SessionAction::Report {
            channel_id: 7,
            agent_type: "claude_code".into(),
            message: "Failed to set mode: bad id".into(),
        }
    );
}

#[test]
fn terminal_error_tears_down_session_and_writes_cancelled() {
    let mut bridge = bridge("c-term");
    bridge.register("other".to_string(), session("other"));
    let action = bridge.handle_acp_envelope(
        &envelope("c-term", error("transport closed", true)),
        false,
        2_000,
    );
    assert!(
        bridge.get("c-term").is_none(),
        "terminal Error must remove the bridge session so the next message starts fresh"
    );
    assert!(bridge.get("other").is_some());
    match action {
        SessionAction::Abort {
            channel_id,
            sender_id,
            conversation_id,
            status,
            ..
        } => {
            assert_eq!((channel_id, sender_id.as_str(), conversation_id), (7, "u1", 31));
            assert_eq!(status, ConversationStatus::Cancelled);
        }
        other => panic!("unexpected {:?}", other),
    }
}

#[test]
fn a_lost_connection_forgets_the_session() {
    for status in [ConnectionStatus::Disconnected, ConnectionStatus::Error] {
        let mut bridge = bridge("c1");
        let action = take(&mut bridge, AcpEvent::StatusChanged { status }, 5);
        assert_eq!(
            action,
            SessionAction::Forget {
                channel_id: 7,
                sender_id: "u1".into()
            }
        );
        assert!(bridge.get("c1").is_none());
        let again = take(&mut bridge, AcpEvent::StatusChanged { status }, 5);
        assert_eq!(again, SessionAction::Nothing);
    }
    let mut bridge = bridge("c1");
    let status = ConnectionStatus::Prompting;
    assert_eq!(
        take(&mut bridge, AcpEvent::StatusChanged { status }, 5),
        SessionAction::Nothing
    );
    assert!(bridge.get("c1").is_some());
}

#[test]
fn events_of_unknown_connections_ask_for_nothing() {
    let mut bridge = bridge("c1");
    let action = bridge.handle_acp_envelope(&envelope("c2", delta("x")), false, 5);
    assert_eq!(action, SessionAction::Nothing);
    let action = bridge.handle_acp_envelope(&envelope("c2", error("x", true)), false, 5);
    assert_eq!(action, SessionAction::Nothing);
    assert_eq!(bridge.get("c1").unwrap().content_buffer, "");
}

#[test]
fn a_start_sends_the_prompt_once() {
    let mut first = session("c1");
    first.pending_prompt = Some("fix it".into());
    let mut bridge = SessionBridge::new();
    bridge.register("c1".into(), first);
    let started = || AcpEvent::SessionStarted {
        session_id: "ext".into(),
    };
    let expected = |prompt: Option<&str>| SessionAction::Start {
        channel_id: 7,
        conversation_id: 31,
        external_id: "ext".into(),
        prompt: prompt.map(str::to_string),
    };
    assert_eq!(take(&mut bridge, started(), 5), expected(Some("fix it")));
    assert_eq!(take(&mut bridge, started(), 5), expected(None));
    assert_eq!(
        prompt_failed_message("busy"),
        RichMessage::error("Failed to send task: busy".to_string())
    );
}

#[test]
fn a_turn_hands_out_what_was_written() {
    let mut bridge = bridge("c1");
    assert_eq!(take(&mut bridge, delta("Hello, "), 1_500), SessionAction::Nothing);
    assert_eq!(
        take(&mut bridge, tool_call("t1", "Read", None), 1_600),
        SessionAction::Nothing
    );
    assert_eq!(take(&mut bridge, delta("world"), 1_700), SessionAction::Nothing);
    assert_eq!(
        take(&mut bridge, turn_complete("end_turn"), 1_800),
        SessionAction::TurnDone {
            channel_id: 7,
            conversation_id: 31,
            content: "Hello, world".into(),
            tool_count: 1,
            agent_type: "claude_code".into(),
            stop_reason: "end_turn".into(),
            status: Some(ConversationStatus::Completed),
        }
    );
    let session = bridge.get("c1").unwrap();
    assert_eq!(session.content_buffer, "");
    assert!(session.tool_calls.is_empty());
    assert_eq!(session.last_flushed, 1_800);
    match take(&mut bridge, turn_complete("refusal"), 1_900) {
        SessionAction::TurnDone { content, tool_count, status, .. } => {
            assert_eq!((content.as_str(), tool_count, status), ("", 0, None));
        }
        other => panic!("unexpected {:?}", other),
    }
}

#[test]
fn progress_is_reported_in_bursts() {
    let mut bridge = bridge("c1");
    take(&mut bridge, tool_call("t1", "Search", None), 1_000);
    let report = || {
        SessionAction::Progress(ProgressUpdate {
            channel_id: 7,
            agent_type: "Gemini".into(),
            last_tool: Some("Search".into()),
        })
    };
    // Enough text, but too early.
    assert_eq!(take(&mut bridge, delta(&"x".repeat(500)), 2_999), SessionAction::Nothing);
    assert_eq!(take(&mut bridge, delta("y"), 3_000), report());
    assert_eq!(take(&mut bridge, delta("y"), 4_999), SessionAction::Nothing);
    assert_eq!(take(&mut bridge, delta("y"), 5_000), report());
    assert_eq!(
        progress_message("Gemini is responding".to_string(), Some("Search")),
        RichMessage::info("Gemini is responding | Search".to_string())
    );
    assert_eq!(
        progress_message("Gemini is responding".to_string(), None),
        RichMessage::info("Gemini is responding".to_string())
    );
}

#[test]
fn progress_is_reported_from_time_to_time() {
    let mut bridge = bridge("c1");
    bridge.register("c2".to_string(), session("c2"));
    take(&mut bridge, delta("x"), 2_000);
    assert!(bridge.flush_progress(10_999).is_empty());
    assert_eq!(
        bridge.flush_progress(11_000),
        vec![ProgressUpdate {
            channel_id: 7,
            agent_type: "Gemini".into(),
            last_tool: None,
        }]
    );
    assert!(bridge.flush_progress(11_001).is_empty());
    assert_eq!(bridge.get("c1").unwrap().last_flushed, 11_000);
    assert_eq!(bridge.get("c2").unwrap().last_flushed, 1_000);
    assert!(heartbeat_due(0, 10_000));
    assert!(!heartbeat_due(0, 9_999));
    assert!(!heartbeat_due(5, 0));
}

#[test]
fn delegations_are_announced_and_summed_up() {
    let mut bridge = bridge("c1");
    let input = r#"{"agent_type":"codex","task":"x"}"#;
    assert_eq!(
        take(&mut bridge, tool_call("t1", "Delegate to agent", Some(input)), 5),
        post("🤖 Delegating to codex…")
    );
    assert_eq!(
        take(&mut bridge, tool_update("t1", None, Some("in_progress"), None, None), 6),
        SessionAction::Nothing
    );
    assert_eq!(
        take(
            &mut bridge,
            tool_update("t1", None, Some("completed"), None, Some(r#"{"kind":"ok","text":"hi"}"#)),
            7
        ),
        post("✅ codex: hi")
    );
    // The arguments are gone once the call is complete.
    assert_eq!(
        take(&mut bridge, tool_update("t1", None, Some("completed"), None, None), 8),
        post(">> tool")
    );
    assert_eq!(
        take(
            &mut bridge,
            tool_update("t2", Some("Write"), Some("completed"), Some(r#"{"path":"a.rs"}"#), None),
            9
        ),
        post(">> Write: a.rs")
    );
}

fn option(id: &str, kind: &str) -> PermissionOption {
    PermissionOption {
        option_id: id.into(),
        name: id.into(),
        kind: kind.into(),
    }
}

fn permission(tool_call: &str, options: Vec<PermissionOption>) -> AcpEvent {
    AcpEvent::PermissionRequest {
        request_id: "r1".into(),
        tool_call: Json::parse(tool_call).unwrap(),
        options,
    }
}

#[test]
fn permissions_are_asked_for() {
    let mut bridge = bridge("c1");
    let request = permission(
        r#"{"title":"Bash","rawInput":{"command":"rm x"}}"#,
        vec![option("o1", "deny")],
    );
    assert_eq!(
        take(&mut bridge, request, 5),
        SessionAction::Ask {
            channel_id: 7,
            description: "Bash: rm x".into()
        }
    );
    let pending = bridge.get("c1").unwrap().permission_pending.as_ref().unwrap();
    assert_eq!(pending.request_id, "r1");
    assert_eq!(pending.tool_description, "Bash: rm x");
    assert_eq!(pending.options, vec![option("o1", "deny")]);
    assert_eq!(pending.sent_message_id, None);

    let described = |tool_call: &str| {
        let mut fresh = self::bridge("c1");
        match take(&mut fresh, permission(tool_call, Vec::new()), 5) {
            SessionAction::Ask { description, .. } => description,
            other => panic!("unexpected {:?}", other),
        }
    };
    assert_eq!(described("{}"), "Unknown tool");
    assert_eq!(described(r#"{"tool_name":"shell","raw_input":"ls"}"#), "Bash: ls");
    assert_eq!(described(r#"{"title":"shell","rawInput":null,"raw_input":"ls"}"#), "shell");

    assert_eq!(
        permission_message("Bash: rm x", "/", Lang::En),
        RichMessage {
            title: Some("Permission Request".into()),
            body: "Agent requests permission: Bash: rm x\n\n/approve | /deny | /approve always".into(),
            fields: Vec::new(),
            level: MessageLevel::Warning,
        }
    );
    assert_eq!(
        permission_message("x", "!", Lang::ZhCn).body,
        "Agent 请求权限: x\n\n!approve 批准 | !deny 拒绝 | !approve always 自动批准"
    );
    assert_eq!(command_prefix(None), "/");
    assert_eq!(command_prefix(Some("!".to_string())), "!");
}

#[test]
fn permissions_are_granted_where_the_sender_wants_it() {
    let grant = |options: Vec<PermissionOption>| {
        let mut bridge = bridge("c1");
        let action =
            bridge.handle_acp_envelope(&envelope("c1", permission("{}", options)), true, 5);
        assert!(bridge.get("c1").unwrap().permission_pending.is_none());
        match action {
            SessionAction::Grant { request_id, option_id } => {
                assert_eq!(request_id, "r1");
                Some(option_id)
            }
            SessionAction::Nothing => None,
            other => panic!("unexpected {:?}", other),
        }
    };
    assert_eq!(
        grant(vec![option("a", "deny"), option("b", "allowForSession"), option("c", "allow")]),
        Some("b".to_string())
    );
    assert_eq!(
        grant(vec![option("a", "deny"), option("b", "reject")]),
        Some("a".to_string())
    );
    assert_eq!(grant(Vec::new()), None);
}

#[test]
fn reports_are_worded_in_the_language() {
    assert_eq!(
        turn_message("done", 0, "codex", "end_turn", Lang::En),
        RichMessage {
            title: Some("Turn Complete".into()),
            body: "done".into(),
            fields: vec![
                ("Agent".into(), "codex".into()),
                ("Stop Reason".into(), "Completed".into()),
            ],
            level: MessageLevel::Info,
        }
    );
    assert_eq!(
        turn_message("", 1, "codex", "error", Lang::ZhCn).fields[1],
        ("结束原因".to_string(), "错误".to_string())
    );
    assert_eq!(
        error_message("codex", "boom", Lang::Ja),
        RichMessage {
            title: Some("Agent Error".into()),
            body: "[codex] boom".into(),
            fields: Vec::new(),
            level: MessageLevel::Error,
        }
    );
    assert_eq!(
        error_message("codex", "boom", Lang::ZhTw).title.as_deref(),
        Some("Agent 错误")
    );
}
