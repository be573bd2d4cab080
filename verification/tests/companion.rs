use codeg::acp::delegation::companion::dispatch_line;
use codeg::acp::delegation::companion::dispatch_with_handle;
use codeg::acp::delegation::companion::drain_and_cancel_all;
use codeg::acp::delegation::companion::err;
use codeg::acp::delegation::companion::finish_call;
use codeg::acp::delegation::companion::handle_cancel_notification;
use codeg::acp::delegation::companion::list_tools;
use codeg::acp::delegation::companion::ok;
use codeg::acp::delegation::companion::render_tool_result;
use codeg::acp::delegation::companion::request_id_key;
use codeg::acp::delegation::companion::CompanionContext;
use codeg::acp::delegation::companion::InflightCalls;
use codeg::acp::delegation::companion::InflightEntry;
use codeg::acp::delegation::companion::JsonRpcRequest;
use codeg::acp::delegation::companion::JsonRpcResponse;
use codeg::acp::delegation::companion::LineAction;
use codeg::acp::delegation::companion::PendingCancel;
use codeg::acp::delegation::companion::RoundTrip;
use codeg::acp::delegation::companion::SpawnedCall;
use codeg::json::Json;
use serde_json::Value;

const VERSION: &str = "1.2.3";

fn ctx() -> CompanionContext {
    CompanionContext {
        parent_connection_id: "p1".into(),
        socket_path: "/tmp/codeg-mcp-companion-test-nope.sock".into(),
        token: "tok".into(),
    }
}

/// Reads a line as the host does: an object with a version, a method, and
/// possibly an identifier and parameters.
fn read(line: &str) -> Result<JsonRpcRequest, String> {
    let value: Value = serde_json::from_str(line).map_err(|e| e.to_string())?;
    let text = |key: &str| value[key].as_str().map(str::to_string);
    Ok(JsonRpcRequest {
        jsonrpc: text("jsonrpc").ok_or("missing field `jsonrpc`")?,
        id: value
            .get("id")
            .filter(|id| !id.is_null())
            .map(|id| Json::from_value(id.clone())),
        method: text("method").ok_or("missing field `method`")?,
        params: Json::from_value(value.get("params").cloned().unwrap_or(Value::Null)),
    })
}

fn dispatch(inflight: &mut InflightCalls<u32>, line: &str) -> (LineAction, Option<PendingCancel<u32>>) {
    dispatch_line(&ctx(), VERSION, inflight, read(line), 11)
}

fn dispatch_for_test(line: &str) -> LineAction {
    dispatch(&mut InflightCalls::new(), line).0
}

fn unwrap_respond(action: LineAction) -> JsonRpcResponse {
    match action {
        LineAction::Respond(r) => r,
        LineAction::Spawn(_) => panic!("expected Respond, got Spawn"),
        LineAction::Silent => panic!("expected Respond, got Silent"),
    }
}

fn unwrap_spawn(action: LineAction) -> SpawnedCall {
    match action {
        LineAction::Spawn(call) => call,
        _ => panic!("expected Spawn"),
    }
}

fn value(json: &Json) -> Value {
    json.to_value()
}

#[test]
fn initialize_returns_protocol_version() {
    let line = r#"{"jsonrpc":"2.0","id":1,"method":"initialize"}"#;
    let resp = unwrap_respond(dispatch_for_test(line));
    let result = value(&resp.result.unwrap());
    assert_eq!(result["protocolVersion"], "2024-11-05");
    assert_eq!(result["serverInfo"]["name"], "codeg-mcp");
    assert_eq!(result["serverInfo"]["version"], VERSION);
    assert!(result["capabilities"]["tools"].is_object());
}

#[test]
fn tools_list_returns_delegate_to_agent() {
    let line = r#"{"jsonrpc":"2.0","id":2,"method":"tools/list"}"#;
    let resp = unwrap_respond(dispatch_for_test(line));
    let result = value(&resp.result.unwrap());
    let tools = result["tools"].as_array().unwrap();
    assert_eq!(tools.len(), 1);
    assert_eq!(tools[0]["name"], "delegate_to_agent");
    let agents = tools[0]["inputSchema"]["properties"]["agent_type"]["enum"]
        .as_array()
        .unwrap();
    assert_eq!(agents.len(), 6);
    assert!(tools[0]["inputSchema"]["properties"]
        .get("timeout_seconds")
        .is_none());
}

#[test]
fn a_schema_that_cannot_be_read_is_an_error() {
    let resp = list_tools(Json::Unsigned(2), Err("eof".to_string()));
    let e = resp.error.unwrap();
    assert_eq!(e.code, -32603);
    assert_eq!(e.message, "embedded schema invalid: eof");
}

#[test]
fn notifications_initialized_produces_no_response() {
    let line = r#"{"jsonrpc":"2.0","method":"notifications/initialized"}"#;
    let action = dispatch_for_test(line);
    assert!(matches!(action, LineAction::Silent));
}

#[test]
fn parse_error_returns_null_id_error() {
    let line = "not json";
    let resp = unwrap_respond(dispatch_for_test(line));
    let e = resp.error.unwrap();
    assert_eq!(e.code, -32700);
    assert!(e.message.contains("parse"));
    assert_eq!(value(&resp.id), Value::Null);
}

#[test]
fn unknown_method_returns_32601() {
    let line = r#"{"jsonrpc":"2.0","id":9,"method":"resources/list"}"#;
    let resp = unwrap_respond(dispatch_for_test(line));
    assert_eq!(value(&resp.id), Value::from(9));
    let e = resp.error.unwrap();
    assert_eq!(e.code, -32601);
    assert_eq!(e.message, "method not found: resources/list");
}

#[test]
fn tools_call_with_unknown_tool_rejected_synchronously() {
    let line = r#"{
        "jsonrpc":"2.0",
        "id":3,
        "method":"tools/call",
        "params": {
            "name": "other_tool",
            "arguments": {},
            "_meta": {"tool_use_id": "tu1"}
        }
    }"#;
    let resp = unwrap_respond(dispatch_for_test(line));
    let e = resp.error.unwrap();
    assert_eq!(e.code, -32602);
    assert!(e.message.contains("other_tool"));
}

#[test]
fn tools_call_registers_inflight_and_returns_spawn() {
    let mut inflight = InflightCalls::new();
    let line = r#"{
        "jsonrpc":"2.0",
        "id":4,
        "method":"tools/call",
        "params": {
            "name": "delegate_to_agent",
            "arguments": {"agent_type": "codex", "task": "x"}
        }
    }"#;
    let call = unwrap_spawn(dispatch(&mut inflight, line).0);
    assert_eq!(call.request_id_key, request_id_key(&Json::Unsigned(4)));
    assert_eq!(inflight.len(), 1);
    assert_eq!(call.request.token, "tok");
    assert_eq!(call.request.parent_connection_id, "p1");
    assert_eq!(call.request.parent_tool_use_id, "");
    assert_eq!(value(&call.request.input)["task"], "x");
    let handle = call.request.external_handle.unwrap();
    assert_eq!(handle.len(), 36);
    assert_eq!(&handle[14..15], "4");
    let entry = inflight.take(&call.request_id_key).unwrap();
    assert_eq!(entry.external_handle, handle);
    assert_eq!(entry.cancel_tx, 11);
    assert_eq!(inflight.len(), 0);
}

#[test]
fn handles_have_the_form_of_random_uuids() {
    let line = r#"{"jsonrpc":"2.0","id":4,"method":"tools/call","params":{"name":"delegate_to_agent"}}"#;
    let first = unwrap_spawn(dispatch_for_test(line)).request;
    let second = unwrap_spawn(dispatch_for_test(line)).request;
    assert_ne!(first.external_handle, second.external_handle);
    assert_eq!(value(&first.input), Value::Null);
    let handle: Vec<char> = first.external_handle.unwrap().chars().collect();
    for (i, c) in handle.iter().enumerate() {
        match i {
            8 | 13 | 18 | 23 => assert_eq!(*c, '-'),
            19 => assert!("89ab".contains(*c)),
            _ => assert!(c.is_ascii_hexdigit() && !c.is_ascii_uppercase()),
        }
    }
}

#[test]
fn cancel_notification_fires_inflight_cancel_channel() {
    let mut inflight = InflightCalls::new();
    inflight.register(
        request_id_key(&Json::Unsigned(7)),
        InflightEntry {
            external_handle: "h-7".into(),
            cancel_tx: 77,
        },
    );
    let line = r#"{
        "jsonrpc":"2.0",
        "method":"notifications/cancelled",
        "params": {"requestId": 7, "reason": "user requested"}
    }"#;
    let (action, cancel) = dispatch(&mut inflight, line);
    assert!(matches!(action, LineAction::Silent));
    let cancel = cancel.expect("the call is in flight");
    assert_eq!(cancel.cancel_tx, 77);
    assert_eq!(cancel.request.external_handle, "h-7");
    assert_eq!(cancel.request.token, "tok");
    assert_eq!(cancel.request.reason.as_deref(), Some("user requested"));
    assert_eq!(inflight.len(), 0);

    let (action, cancel) = dispatch(&mut inflight, line);
    assert!(matches!(action, LineAction::Silent));
    assert!(cancel.is_none());
}

#[test]
fn cancel_for_unknown_request_id_is_silent_noop() {
    let mut inflight = InflightCalls::new();
    let line = r#"{
        "jsonrpc":"2.0",
        "method":"notifications/cancelled",
        "params": {"requestId": 999}
    }"#;
    let (action, cancel) = dispatch(&mut inflight, line);
    assert!(matches!(action, LineAction::Silent));
    assert!(cancel.is_none());
    assert_eq!(inflight.len(), 0);
    assert!(handle_cancel_notification(&ctx(), &mut inflight, &Json::Null).is_none());
}

#[test]
fn a_number_and_a_text_are_different_identifiers() {
    assert_eq!(request_id_key(&Json::Unsigned(42)), "42");
    assert_eq!(request_id_key(&Json::Integer(42)), "42");
    assert_eq!(request_id_key(&Json::Integer(-1)), "-1");
    assert_eq!(request_id_key(&Json::text("42")), "\"42\"");
    assert_eq!(request_id_key(&Json::text("a\"b\n")), "\"a\\\"b\\n\"");
    assert_eq!(request_id_key(&Json::Null), "null");

    let mut inflight = InflightCalls::new();
    let call = r#"{"jsonrpc":"2.0","id":42,"method":"tools/call","params":{"name":"delegate_to_agent"}}"#;
    dispatch(&mut inflight, call);
    let other = r#"{"jsonrpc":"2.0","method":"notifications/cancelled","params":{"requestId":"42"}}"#;
    assert!(dispatch(&mut inflight, other).1.is_none());
    assert_eq!(inflight.len(), 1);
}

#[test]
fn a_call_is_cancelled_under_its_own_handle() {
    let mut inflight = InflightCalls::new();
    let call = read(
        r#"{"jsonrpc":"2.0","id":"a","method":"tools/call","params":{"name":"delegate_to_agent","_meta":{"tool_use_id":"tu"}}}"#,
    );
    let (action, _) =
        dispatch_with_handle(&ctx(), VERSION, &mut inflight, call, 5, "h-5".to_string());
    let spawned = unwrap_spawn(action);
    assert_eq!(spawned.request.parent_tool_use_id, "tu");
    assert_eq!(spawned.request.external_handle.as_deref(), Some("h-5"));
    let cancellation =
        r#"{"jsonrpc":"2.0","method":"notifications/cancelled","params":{"requestId":"a"}}"#;
    let cancel = dispatch(&mut inflight, cancellation).1.unwrap();
    assert_eq!(cancel.cancel_tx, 5);
    assert_eq!(cancel.request.external_handle, "h-5");
    assert_eq!(cancel.request.reason, None);
    let end = finish_call(
        &mut inflight,
        spawned.request_id,
        &spawned.request_id_key,
        RoundTrip::Canceled,
    );
    assert!(end.is_none());
}

#[test]
fn a_late_cancellation_finds_nothing() {
    let mut inflight = InflightCalls::new();
    let call = r#"{"jsonrpc":"2.0","id":8,"method":"tools/call","params":{"name":"delegate_to_agent"}}"#;
    let spawned = unwrap_spawn(dispatch(&mut inflight, call).0);
    let outcome = Json::parse(r#"{"kind":"ok","text":"done"}"#).unwrap();
    let resp = finish_call(
        &mut inflight,
        spawned.request_id,
        &spawned.request_id_key,
        RoundTrip::Replied(outcome),
    )
    .unwrap();
    assert_eq!(resp.jsonrpc, "2.0");
    assert_eq!(value(&resp.id), Value::from(8));
    assert_eq!(value(&resp.result.unwrap())["content"][0]["text"], "done");
    let cancellation =
        r#"{"jsonrpc":"2.0","method":"notifications/cancelled","params":{"requestId":8}}"#;
    assert!(dispatch(&mut inflight, cancellation).1.is_none());
}

#[test]
fn a_broker_that_fails_is_an_error() {
    let mut inflight: InflightCalls<u32> = InflightCalls::new();
    let resp = finish_call(
        &mut inflight,
        Json::Unsigned(1),
        "1",
        RoundTrip::Failed("no socket".to_string()),
    )
    .unwrap();
    let e = resp.error.unwrap();
    assert_eq!(e.code, -32603);
    assert_eq!(e.message, "broker round-trip failed: no socket");
}

#[test]
fn shutdown_cancels_every_call() {
    let mut inflight = InflightCalls::new();
    for (key, handle, waker) in [("1", "h1", 1u32), ("\"b\"", "h2", 2)] {
        inflight.register(
            key.to_string(),
            InflightEntry {
                external_handle: handle.to_string(),
                cancel_tx: waker,
            },
        );
    }
    let cancels = drain_and_cancel_all(&ctx(), &mut inflight, "stdin closed");
    assert_eq!(inflight.len(), 0);
    let seen: Vec<(u32, &str, Option<&str>)> = cancels
        .iter()
        .map(|c| {
            (
                c.cancel_tx,
                c.request.external_handle.as_str(),
                c.request.reason.as_deref(),
            )
        })
        .collect();
    assert_eq!(
        seen,
        vec![
            (1, "h1", Some("stdin closed")),
            (2, "h2", Some("stdin closed"))
        ]
    );
    assert!(inflight.drain_all().is_empty());
}

#[test]
fn responses_have_a_result_or_an_error() {
    let good = ok(Json::Unsigned(1), Json::Bool(true));
    assert_eq!(good.result, Some(Json::Bool(true)));
    assert!(good.error.is_none());
    let bad = err(Json::Null, -1, "no".to_string());
    assert!(bad.result.is_none());
    assert_eq!(bad.error.unwrap().message, "no");
}

#[test]
fn render_tool_result_maps_ok_outcome() {
    let outcome = Json::parse(r#"{"kind": "ok", "text": "hi", "child_conversation_id": 42}"#).unwrap();
    let rendered = value(&render_tool_result(&outcome));
    assert_eq!(rendered["isError"], false);
    assert_eq!(rendered["content"][0]["text"], "hi");
    assert_eq!(rendered["structuredContent"]["child_conversation_id"], 42);
}

#[test]
fn render_tool_result_maps_err_outcome() {
    let outcome = Json::parse(
        r#"{"kind": "err", "code": "canceled", "message": "canceled: user requested"}"#,
    )
    .unwrap();
    let rendered = value(&render_tool_result(&outcome));
    assert_eq!(rendered["isError"], true);
    assert_eq!(rendered["content"][0]["text"], "canceled: user requested");
    assert_eq!(rendered["content"][0]["type"], "text");
    assert_eq!(rendered["structuredContent"]["code"], "canceled");
    let bare = value(&render_tool_result(
        &Json::parse(r#"{"kind":"err"}"#).unwrap(),
    ));
    assert_eq!(bare["content"][0]["text"], "delegation failed");
}
