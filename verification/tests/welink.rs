use codeg::chat_channel::chunks::line_segments;
use codeg::chat_channel::chunks::split_at_char_limit;
use codeg::chat_channel::chunks::split_message;
use codeg::chat_channel::cli::auth_login_args;
use codeg::chat_channel::cli::command_result;
use codeg::chat_channel::cli::command_words_preview;
use codeg::chat_channel::cli::preview_text;
use codeg::chat_channel::cli::query_history_args;
use codeg::chat_channel::cli::require_command;
use codeg::chat_channel::cli::CommandOutcome;
use codeg::chat_channel::cli::CommandOutputError;
use codeg::chat_channel::history::card_reply_text;
use codeg::chat_channel::history::extract_message_text;
use codeg::chat_channel::history::history_batch;
use codeg::chat_channel::history::history_message_to_incoming;
use codeg::chat_channel::history::json_u64;
use codeg::chat_channel::history::normalize_sender_list;
use codeg::chat_channel::history::parse_history_output;
use codeg::chat_channel::history::sender_allowed;
use codeg::chat_channel::history::value_text;
use codeg::chat_channel::history::value_to_string;
use codeg::chat_channel::history::value_to_u64;
use codeg::chat_channel::html::html_escape_text;
use codeg::chat_channel::html::html_to_text;
use codeg::chat_channel::html::html_unescape;
use codeg::chat_channel::html::strip_html_tags;
use codeg::chat_channel::types::ChannelConnectionStatus;
use codeg::chat_channel::types::ChatChannelError;
use codeg::chat_channel::types::RichMessage;
use codeg::chat_channel::types::SentMessageId;
use codeg::chat_channel::types::WelinkConfig;
use codeg::chat_channel::welink::format_welink_message;
use codeg::chat_channel::welink::sent;
use codeg::chat_channel::welink::PollFailure;
use codeg::chat_channel::welink::PollStep;
use codeg::chat_channel::welink::SendReply;
use codeg::chat_channel::welink::WelinkBackend;
use codeg::chat_channel::welink::MAX_CONTENT_CHARS;
use codeg::json::Json;

fn sample_history(messages: &[&str], max_msg_id: u64) -> String {
    format!(
        r#"{{"resultCode":"0","respData":{{"maxMsgId":{},"chatInfo":[{}]}}}}"#,
        max_msg_id,
        messages.join(",")
    )
}

fn json(text: &str) -> Json {
    Json::parse(text).expect("json")
}

fn strings(values: &[&str]) -> Vec<String> {
    values.iter().map(|v| v.to_string()).collect()
}

fn backend() -> WelinkBackend {
    let mut config =
        WelinkConfig::with_defaults("group-1".to_string(), "http://example.invalid/".to_string());
    config.include_sender = strings(&[" alice ", "", "bob"]);
    config.exclude_sender = strings(&["bob", "   "]);
    WelinkBackend::new(7, "tok".to_string(), config)
}

fn cli_error() -> CommandOutputError {
    CommandOutputError {
        words: strings(&["welink-cli", "auth", "login"]),
        detail: "timed out after 10000 ms".to_string(),
    }
}

#[test]
fn config_deserializes_defaults() {
    let cfg =
        WelinkConfig::with_defaults("group-1".to_string(), "http://example.invalid/".to_string());
    assert_eq!(cfg.group_id, "group-1");
    assert_eq!(cfg.send_http_url, "http://example.invalid/");
    assert_eq!(cfg.welink_cli_path, "welink-cli");
    assert!(cfg.include_sender.is_empty());
    assert!(cfg.exclude_sender.is_empty());
    assert_eq!(cfg.request_timeout_ms, 10_000);
}

#[test]
fn builds_fixed_query_history_args_without_cursor() {
    assert_eq!(
        query_history_args("C:/WeLink/welink-cli.exe", "group-1", None),
        vec![
            "C:/WeLink/welink-cli.exe",
            "im",
            "query-history-message",
            "--group-id",
            "group-1",
            "--query-count",
            "100",
        ]
    );
}

#[test]
fn builds_fixed_query_history_args_with_cursor() {
    assert_eq!(
        query_history_args("welink-cli", "group-1", Some("42")),
        vec![
            "welink-cli",
            "im",
            "query-history-message",
            "--group-id",
            "group-1",
            "--message-id",
            "42",
            "--query-direction",
            "1",
            "--query-count",
            "100",
        ]
    );
}

#[test]
fn a_blank_cursor_counts_as_none() {
    assert_eq!(
        query_history_args("welink-cli", "g", Some(" \t")),
        query_history_args("welink-cli", "g", None)
    );
    assert_eq!(
        auth_login_args("welink-cli"),
        vec!["welink-cli", "auth", "login"]
    );
}

#[test]
fn sender_filter_exclude_takes_precedence() {
    let included = vec!["alice".to_string()];
    let excluded = vec!["alice".to_string()];
    assert!(!sender_allowed("alice", &included, &excluded));
    assert!(!sender_allowed("bob", &included, &[]));
    assert!(sender_allowed("bob", &[], &[]));
}

#[test]
fn sender_lists_lose_blanks() {
    assert_eq!(
        normalize_sender_list(strings(&[" alice ", "", "\t", "bob"])),
        vec!["alice", "bob"]
    );
}

#[test]
fn initial_sync_records_cursor_without_messages() {
    let output = sample_history(
        &[r#"{"msgId":10,"sender":"alice","contentType":"TEXT_MSG","content":"/help"}"#],
        12,
    );
    let batch = parse_history_output(&output, None, &[], &[], true).expect("parse");
    assert!(batch.messages.is_empty());
    assert_eq!(batch.next_cursor.as_deref(), Some("12"));
}

#[test]
fn parses_new_text_messages_and_ignores_old_messages() {
    let output = sample_history(
        &[
            r#"{"msgId":4,"sender":"old","contentType":"TEXT_MSG","content":"/old"}"#,
            r#"{"msgId":6,"sender":"alice","contentType":"TEXT_MSG","content":"&lt;b&gt;/status&lt;/b&gt;"}"#,
        ],
        7,
    );
    let batch = parse_history_output(&output, Some("5"), &[], &[], false).expect("parse");
    assert_eq!(batch.next_cursor.as_deref(), Some("7"));
    assert_eq!(batch.messages.len(), 1);
    assert_eq!(batch.messages[0].sender, "alice");
    assert_eq!(batch.messages[0].text, "/status");
}

#[test]
fn include_and_exclude_sender_filter_history_messages() {
    let output = sample_history(
        &[
            r#"{"msgId":6,"sender":"alice","contentType":"TEXT_MSG","content":"/status"}"#,
            r#"{"msgId":7,"sender":"bob","contentType":"TEXT_MSG","content":"/help"}"#,
        ],
        7,
    );
    let included = vec!["alice".to_string(), "bob".to_string()];
    let excluded = vec!["bob".to_string()];
    let batch =
        parse_history_output(&output, Some("5"), &included, &excluded, false).expect("parse");
    assert_eq!(batch.messages.len(), 1);
    assert_eq!(batch.messages[0].sender, "alice");
}

#[test]
fn extracts_card_reply_text() {
    let card = r#"{"cardContext":{"replyMsg":{"content":"&lt;i&gt;approve&lt;/i&gt;"}}}"#;
    let message = Json::Object(vec![
        ("msgId".to_string(), Json::Unsigned(8)),
        ("sender".to_string(), Json::text("alice")),
        ("contentType".to_string(), Json::text("CARD_MSG")),
        ("content".to_string(), Json::text(card)),
    ]);
    assert_eq!(extract_message_text(&message).as_deref(), Some("approve"));
}

#[test]
fn a_card_without_a_reply_has_no_text() {
    assert_eq!(card_reply_text(&json(r#"{"cardContext":{}}"#)), None);
    assert_eq!(
        card_reply_text(&json(
            r#"{"cardContext":{"replyMsg":{"content":1,"PcContent":"a &amp; b"}}}"#
        )),
        Some("a & b".to_string())
    );
    let broken = json(r#"{"contentType":"CARD_MSG","content":"not json"}"#);
    assert_eq!(extract_message_text(&broken), None);
    let picture = json(r#"{"contentType":"PIC_MSG","content":"x"}"#);
    assert_eq!(extract_message_text(&picture), None);
}

#[test]
fn a_failed_query_says_its_code() {
    let reply = json(r#"{"resultCode":17,"resultContext":"no such group"}"#);
    assert_eq!(
        history_batch(&reply, None, &[], &[], false),
        Err(ChatChannelError::ConnectionFailed(
            "WeLink history query failed: code=17 context=no such group".to_string()
        ))
    );
    match parse_history_output("{", None, &[], &[], false) {
        Err(ChatChannelError::ConnectionFailed(message)) => {
            assert!(message.starts_with("Invalid JSON: "));
            assert!(message.len() > "Invalid JSON: ".len());
        }
        other => panic!("unexpected {:?}", other),
    }
}

#[test]
fn commands_come_in_the_order_of_their_numbers() {
    let output = sample_history(
        &[
            r#"{"msgId":"9","sender":"a","contentType":"TEXT_MSG","content":"third"}"#,
            r#"{"sender":"a","contentType":"TEXT_MSG","content":"first"}"#,
            r#"{"msgId":7,"sender":"a","contentType":"TEXT_MSG","content":"second"}"#,
            r#"{"msgId":7,"sender":"a","contentType":"TEXT_MSG","content":"   "}"#,
            r#"{"msgId":9,"contentType":"TEXT_MSG","content":"fourth"}"#,
        ],
        3,
    );
    let batch = parse_history_output(&output, Some("6"), &[], &[], false).expect("parse");
    let seen: Vec<&str> = batch.messages.iter().map(|m| m.text.as_str()).collect();
    assert_eq!(seen, vec!["first", "second", "third", "fourth"]);
    assert_eq!(batch.messages[3].sender, "welink-user");
    assert_eq!(batch.next_cursor.as_deref(), Some("9"));

    // The next query brings nothing again, and the cursor stays.
    let again = parse_history_output(&output, Some("9"), &[], &[], false).expect("parse");
    let seen: Vec<&str> = again.messages.iter().map(|m| m.text.as_str()).collect();
    assert_eq!(seen, vec!["first"]);
    assert_eq!(again.next_cursor.as_deref(), Some("9"));
    let empty = parse_history_output("{}", Some("12"), &[], &[], false).expect("parse");
    assert_eq!(empty.next_cursor.as_deref(), Some("12"));
    assert!(empty.messages.is_empty());
    let nothing = parse_history_output("{}", None, &[], &[], false).expect("parse");
    assert_eq!(nothing.next_cursor, None);
}

#[test]
fn a_command_keeps_the_message_it_came_in() {
    let message = json(r#"{"msgId":6,"sender":"a","contentType":"TEXT_MSG","content":" /go "}"#);
    let command = history_message_to_incoming(message.clone(), &[], &[]).expect("command");
    assert_eq!(command.text, "/go");
    assert_eq!(command.metadata, message);
    assert!(history_message_to_incoming(message, &strings(&["b"]), &[]).is_none());
}

#[test]
fn lenient_members() {
    assert_eq!(value_to_u64(&json("12")), Some(12));
    assert_eq!(value_to_u64(&json("\"12\"")), Some(12));
    assert_eq!(value_to_u64(&json("\"+12\"")), Some(12));
    assert_eq!(value_to_u64(&json("\"18446744073709551616\"")), None);
    assert_eq!(value_to_u64(&json("-1")), None);
    assert_eq!(value_to_u64(&json("1.5")), None);
    assert_eq!(value_to_string(&json("-3")), Some("-3".to_string()));
    assert_eq!(
        value_to_string(&json("18446744073709551615")),
        Some("18446744073709551615".to_string())
    );
    assert_eq!(value_to_string(&json("1.5")), None);
    assert_eq!(json_u64(&json(r#"{"msgId":"8"}"#), "msgId"), Some(8));
    assert_eq!(
        value_text(&json(r#"{"text":"b","content":3}"#), &["content", "text"]),
        Some("b".to_string())
    );
}

#[test]
fn splits_messages_at_welink_limit() {
    let body = "a".repeat(MAX_CONTENT_CHARS + 20);
    let chunks = split_message(&body, MAX_CONTENT_CHARS);
    assert_eq!(chunks.len(), 2);
    assert!(chunks
        .iter()
        .all(|chunk| chunk.chars().count() <= MAX_CONTENT_CHARS));
}

#[test]
fn chunks_make_up_the_message() {
    let text = "one\ntwo\n\nfünf sechs sieben\nx";
    assert_eq!(
        line_segments(text),
        vec!["one\n", "two\n", "\n", "fünf sechs sieben\n", "x"]
    );
    assert_eq!(
        split_message(text, 8),
        vec!["one\ntwo\n", "\n", "fünf sec", "hs siebe", "n\nx"]
    );
    assert_eq!(split_message(text, 8).concat(), text);
    assert_eq!(split_message("", 8), vec![""]);
    assert_eq!(split_at_char_limit("äöü", 2), ("äö", "ü"));
    assert_eq!(split_at_char_limit("äöü", 5), ("äöü", ""));
}

#[test]
fn lines_that_fit_are_not_cut() {
    let chunks = split_message("aaa\nbbb\nccc\nddd", 9);
    assert_eq!(chunks, vec!["aaa\nbbb\n", "ccc\nddd"]);
}

#[test]
fn only_long_lines_are_cut() {
    let text = "ab\ncdefghijkl\nmn\nop";
    let limit = 5;
    let chunks = split_message(text, limit);
    assert_eq!(chunks, vec!["ab\n", "cdefg", "hijkl", "\nmn\n", "op"]);
    let mut cut = 0;
    for chunk in &chunks {
        cut += chunk.len();
        let mut start = 0;
        let allowed = line_segments(text).iter().any(|line| {
            let end = start + line.len();
            let inside = start < cut && cut < end && line.len() > limit;
            start = end;
            cut == end || inside
        });
        assert!(allowed);
    }
}

#[test]
fn escaped_text_is_inert_and_comes_back() {
    let text = "a & <b> \"c\" 'd' &lt; &amp;lt;";
    let escaped = html_escape_text(text);
    assert_eq!(
        escaped,
        "a &amp; &lt;b&gt; &quot;c&quot; &#39;d&#39; &amp;lt; &amp;amp;lt;"
    );
    assert_eq!(html_unescape(&escaped), text);
    assert_eq!(html_unescape("&apos;"), "'");
    assert_eq!(strip_html_tags("<p>one</p> > two < three"), "one  two ");
    assert_eq!(html_to_text("&lt;b&gt;x &amp;amp; y&lt;/b&gt;"), "x & y");
    assert_eq!(html_to_text(&html_escape_text("plain \"text\"")), "plain \"text\"");
}

#[test]
fn messages_become_markup() {
    let message = RichMessage::info("1 < 2".to_string())
        .with_title("T&C")
        .with_field("k", "v")
        .with_field("a", "\"b\"");
    assert_eq!(
        format_welink_message(&message),
        "<b>T&amp;C</b>\n1 &lt; 2\n<b>k</b>: v\n<b>a</b>: &quot;b&quot;"
    );
    assert_eq!(
        format_welink_message(&RichMessage::error("x".to_string())),
        "x"
    );
}

#[test]
fn previews_stay_on_one_line() {
    assert_eq!(preview_text("a\tb\r\nc", 300), "a\\tb\\r\\nc");
    assert_eq!(preview_text("abcdef", 4), "abcd...");
    assert_eq!(preview_text("abcd", 4), "abcd");
    assert_eq!(
        command_words_preview(&strings(&["welink-cli", "a b", "", "--x"])),
        "welink-cli \"a b\" \"\" --x"
    );
    assert_eq!(
        command_words_preview(&strings(&["say \"hi\""])),
        "\"say \\\"hi\\\"\""
    );
}

#[test]
fn a_command_reports_how_it_ended() {
    let words = strings(&["welink-cli", "auth"]);
    assert_eq!(
        require_command(Vec::new()).unwrap_err().to_text(),
        ": command is empty"
    );
    assert_eq!(require_command(words.clone()).unwrap(), words);
    assert_eq!(
        command_result(words.clone(), 250, CommandOutcome::TimedOut)
            .unwrap_err()
            .to_text(),
        "welink-cli auth: timed out after 250 ms"
    );
    assert_eq!(
        command_result(
            words.clone(),
            250,
            CommandOutcome::Failed("not found".to_string())
        )
        .unwrap_err()
        .to_text(),
        "welink-cli auth: failed to run command: not found"
    );
    let exited = |success: bool| CommandOutcome::Exited {
        success,
        status: "exit status: 3".to_string(),
        stdout: vec![b'o', b'k', 0xff, b'\n'],
        stderr: b"bad\tthing".to_vec(),
    };
    assert_eq!(
        command_result(words.clone(), 250, exited(true)),
        Ok("ok\u{fffd}\n".to_string())
    );
    assert_eq!(
        command_result(words, 250, exited(false))
            .unwrap_err()
            .to_text(),
        "welink-cli auth: exited with status exit status: 3 stdout=ok\u{fffd}\\n stderr=bad\\tthing"
    );
}

#[test]
fn a_channel_starts_polls_and_stops() {
    let mut channel = backend();
    assert_eq!(channel.include_sender, vec!["alice", "bob"]);
    assert_eq!(channel.exclude_sender, vec!["bob"]);
    assert_eq!(channel.status, ChannelConnectionStatus::Disconnected);
    assert_eq!(channel.begin_start(), vec!["welink-cli", "auth", "login"]);
    assert_eq!(channel.status, ChannelConnectionStatus::Connecting);
    assert_eq!(
        channel.login_done(Ok(String::new())).unwrap(),
        query_history_args("welink-cli", "group-1", None)
    );
    let first = sample_history(
        &[r#"{"msgId":3,"sender":"alice","contentType":"TEXT_MSG","content":"old"}"#],
        3,
    );
    let mut cursor = channel.first_history(Ok(first)).unwrap();
    assert_eq!(cursor.as_deref(), Some("3"));
    assert_eq!(channel.status, ChannelConnectionStatus::Connected);

    assert_eq!(
        channel.polled(&mut cursor, Err(cli_error())),
        PollStep::Retry(PollFailure::Query(cli_error()))
    );
    assert_eq!(channel.status, ChannelConnectionStatus::Error);
    assert_eq!(cursor.as_deref(), Some("3"));
    match channel.polled(&mut cursor, Ok("nonsense".to_string())) {
        PollStep::Retry(PollFailure::Parse(ChatChannelError::ConnectionFailed(message))) => {
            assert!(message.starts_with("Invalid JSON: "))
        }
        other => panic!("unexpected {:?}", other),
    }
    assert_eq!(cursor.as_deref(), Some("3"));

    let next = sample_history(
        &[
            r#"{"msgId":3,"sender":"alice","contentType":"TEXT_MSG","content":"old"}"#,
            r#"{"msgId":5,"sender":"bob","contentType":"TEXT_MSG","content":"no"}"#,
            r#"{"msgId":4,"sender":"alice","contentType":"TEXT_MSG","content":"/go"}"#,
        ],
        4,
    );
    match channel.polled(&mut cursor, Ok(next)) {
        PollStep::Deliver(commands) => {
            assert_eq!(commands.len(), 1);
            assert_eq!(commands[0].channel_id, 7);
            assert_eq!(commands[0].sender_id, "alice");
            assert_eq!(commands[0].command_text, "/go");
            assert_eq!(
                commands[0].metadata.get("msgId").and_then(|v| v.as_u64()),
                Some(4)
            );
        }
        PollStep::Retry(_) => panic!("expected commands"),
    }
    assert_eq!(cursor.as_deref(), Some("5"));
    assert_eq!(channel.status, ChannelConnectionStatus::Connected);
    channel.disconnect();
    assert_eq!(channel.status, ChannelConnectionStatus::Disconnected);
}

#[test]
fn a_channel_that_cannot_start_says_why() {
    let mut channel = backend();
    channel.begin_start();
    assert_eq!(
        channel.login_done(Err(cli_error())),
        Err(ChatChannelError::AuthenticationFailed(
            "welink-cli auth login: timed out after 10000 ms".to_string()
        ))
    );
    assert_eq!(channel.status, ChannelConnectionStatus::Error);

    channel.begin_start();
    assert_eq!(
        channel.first_history(Err(cli_error())),
        Err(ChatChannelError::ConnectionFailed(
            "welink-cli auth login: timed out after 10000 ms".to_string()
        ))
    );
    assert_eq!(channel.status, ChannelConnectionStatus::Error);

    channel.begin_start();
    assert!(channel
        .first_history(Ok(r#"{"resultCode":"1"}"#.to_string()))
        .is_err());
    assert_eq!(channel.status, ChannelConnectionStatus::Connecting);

    assert!(channel.test_login(Ok(String::new())).is_ok());
    assert!(matches!(
        channel.test_login(Err(cli_error())),
        Err(ChatChannelError::AuthenticationFailed(_))
    ));
    assert_eq!(channel.test_history(Ok("{}".to_string())), Ok(()));
    assert_eq!(
        channel.test_history(Ok(r#"{"resultCode":"1"}"#.to_string())),
        Err(ChatChannelError::ConnectionFailed(
            "WeLink history query failed: code=1 context=".to_string()
        ))
    );
    assert!(channel.test_history(Err(cli_error())).is_err());
}

#[test]
fn a_timeout_of_zero_becomes_one() {
    let mut config = WelinkConfig::with_defaults("g".to_string(), "u".to_string());
    config.request_timeout_ms = 0;
    assert_eq!(
        WelinkBackend::new(1, "t".to_string(), config).request_timeout_ms,
        1
    );
}

#[test]
fn messages_go_out_in_pieces() {
    let channel = backend();
    let body = channel.send_body("hi").to_text();
    assert_eq!(
        body,
        r#"{"auth":"tok","content":"hi","receiver":"group-1"}"#
    );
    let long = "<".repeat(1000);
    let pieces = WelinkBackend::message_chunks(&long);
    assert_eq!(pieces.len(), 2);
    assert_eq!(pieces.concat(), "&lt;".repeat(1000));
    assert_eq!(
        WelinkBackend::rich_message_chunks(&RichMessage::warning("w".to_string())),
        vec!["w"]
    );
}

#[test]
fn sending_needs_every_piece() {
    let taken = |text: &str| {
        Ok(SendReply {
            success: true,
            status: "200 OK".to_string(),
            text: text.to_string(),
        })
    };
    let run = |replies: Vec<Result<SendReply, String>>| {
        let mut id = SentMessageId("m0".to_string());
        for reply in replies {
            id = sent(id, reply)?;
        }
        Ok::<SentMessageId, ChatChannelError>(id)
    };
    assert_eq!(run(vec![]), Ok(SentMessageId("m0".to_string())));
    assert_eq!(
        run(vec![taken(" "), taken("")]),
        Ok(SentMessageId("m0".to_string()))
    );
    assert_eq!(
        run(vec![taken("m1"), taken("m2"), taken(" ")]),
        Ok(SentMessageId("m2".to_string()))
    );
    assert_eq!(
        run(vec![
            taken("m1"),
            Err("reset".to_string()),
            taken("m2"),
            Err("later".to_string())
        ]),
        Err(ChatChannelError::SendFailed("reset".to_string()))
    );
}

#[test]
fn the_last_reply_names_the_message() {
    let reply = |success: bool, text: &str| {
        Ok(SendReply {
            success,
            status: "503 Service Unavailable".to_string(),
            text: text.to_string(),
        })
    };
    let start = || SentMessageId("m1".to_string());
    assert_eq!(
        sent(start(), reply(true, "m2")),
        Ok(SentMessageId("m2".to_string()))
    );
    assert_eq!(sent(start(), reply(true, " \n")), Ok(start()));
    assert_eq!(
        sent(start(), reply(false, "a\nb")),
        Err(ChatChannelError::SendFailed(
            "HTTP 503 Service Unavailable: a\\nb".to_string()
        ))
    );
    assert_eq!(
        sent(start(), Err("reset".to_string())),
        Err(ChatChannelError::SendFailed("reset".to_string()))
    );
}
