use e_agent::lzss::{lzss_compress, lzss_compressed_len, lzss_decompress};
use e_agent::message::{Message, MessageContent, StopReason, ToolResultMessage, UserMessage, join_text};
use e_agent::policy::{
    DangerousCommandClass, ExecMediationPolicy, ExecMediationResult, ExtensionPolicy,
    ExtensionPolicyMode, SecretBrokerPolicy, evaluate_exec_mediation, hostcall_params_hash,
    PathStep, normalize_path_steps, strip_verbatim_prefix, to_hex_lower,
};
use e_agent::queue::{MessageQueue, QueuedMessage};
use e_agent::hooks::HostAction;
use e_agent::json::{JsonNumber, JsonValue};
use e_agent::message::AssistantMessage;
use e_agent::session::{
    HostWrite, SessionEntry, TurnPart, build_system_prompt, goal_active, host_action_writes,
    resume_prompt, interrupted_calls, message_id, parse_command,
    restored_messages, role, validate_final_message,
};

#[test]
fn lzss_round_trips_text() {
    for text in ["", "a", "hello hello hello hello hello", "标题标题标题标题 mixed ascii 标题"] {
        let packed = lzss_compress(text.as_bytes());
        assert_eq!(packed.len(), lzss_compressed_len(text.as_bytes()));
        assert_eq!(lzss_decompress(&packed, text.len()), Ok(text.to_string()));
    }
    let long = "abcd".repeat(200);
    let packed = lzss_compress(long.as_bytes());
    assert!(packed.len() < long.len());
    assert_eq!(lzss_decompress(&packed, long.len()), Ok(long));
}

#[test]
fn lzss_fails_closed_on_bad_streams() {
    assert_eq!(lzss_decompress(&[5], 5), Err("truncated LZSS literal run".to_string()));
    assert_eq!(
        lzss_decompress(&[0, b'a'], 2),
        Err("LZSS output length mismatch: expected 2, decoded 1".to_string())
    );
    assert_eq!(lzss_decompress(&[0, b'a'], 0), Err("LZSS output exceeds declared length".to_string()));
    assert_eq!(lzss_decompress(&[0x80], 4), Err("truncated LZSS match distance".to_string()));
    assert_eq!(lzss_decompress(&[0x80, 0, 0], 4), Err("invalid LZSS match distance".to_string()));
}

#[test]
fn exec_mediation_allows_then_denies_by_prefix() {
    let policy = ExecMediationPolicy {
        enabled: true,
        deny_patterns: vec!["RM -RF".into()],
        allow_patterns: vec!["rm -rf ./build".into()],
    };
    assert!(matches!(
        evaluate_exec_mediation(&policy, "rm", &["-rf".into(), "./build".into()]),
        ExecMediationResult::Allow
    ));
    match evaluate_exec_mediation(&policy, "Rm", &["-rf".into(), "/".into()]) {
        ExecMediationResult::Deny { class, reason } => {
            assert_eq!(class, Some(DangerousCommandClass::PolicyMatch));
            assert_eq!(reason, "Command matches deny pattern: RM -RF");
        }
        other => panic!("expected a denial, got {other:?}"),
    }
    let off = ExecMediationPolicy { enabled: false, ..policy };
    assert!(matches!(evaluate_exec_mediation(&off, "rm", &["-rf".into()]), ExecMediationResult::Allow));
    assert_eq!(DangerousCommandClass::PolicyMatch.label(), "policy_match");
}

#[test]
fn secret_names_are_recognised_by_suffix() {
    let policy = SecretBrokerPolicy::default();
    assert!(policy.is_secret("openai_api_key"));
    assert!(policy.is_secret("DATABASE_URL"));
    assert!(!policy.is_secret("HOME"));
    let allowed = SecretBrokerPolicy { enabled: true, disclosure_allowlist: vec!["Public_Key".into()] };
    assert!(!allowed.is_secret("PUBLIC_KEY"));
    let off = SecretBrokerPolicy { enabled: false, disclosure_allowlist: vec![] };
    assert!(!off.is_secret("API_TOKEN"));
}

#[test]
fn default_extension_policy_prompts_and_denies_exec() {
    let policy = ExtensionPolicy::default();
    assert_eq!(policy.mode, ExtensionPolicyMode::Prompt);
    assert_eq!(policy.default_caps, vec!["read", "write", "http", "events", "session"]);
    assert_eq!(policy.deny_caps, vec!["exec", "env"]);
    assert!(policy.exec_mediation.enabled);
    assert!(policy.secret_broker.enabled);
}

#[test]
fn hostcall_hash_is_sha256_hex_of_method_and_params() {
    assert_eq!(
        hostcall_params_hash("read", &JsonValue::Object(vec![("path".to_string(), JsonValue::String("a".to_string()))])),
        "729e89d05d1584cba1e69a0138355e8653e23130f029072422af05350f647aa1"
    );
    assert_eq!(
        hostcall_params_hash("", &JsonValue::Null),
        "74234e98afe7498fb5daf1f36ac2d78acc339464f950703b8c019892f982b90b"
    );
    assert_eq!(to_hex_lower(&[0, 15, 255]), "000fff");
}

#[test]
fn queue_takes_steering_before_follow_ups_and_refuses_when_closed() {
    let mut queue = MessageQueue::new();
    queue.push(QueuedMessage::FollowUp(UserMessage::text("later".into()))).unwrap();
    queue.push(QueuedMessage::Steer(UserMessage::text("now".into()))).unwrap();
    queue.push(QueuedMessage::Steer(UserMessage::text("then".into()))).unwrap();
    assert_eq!(queue.len(), 3);
    let first = queue.pop_steer().unwrap();
    assert!(matches!(&first.content[0], MessageContent::Text { text } if text == "now"));
    let second = queue.pop_steer().unwrap();
    assert!(matches!(&second.content[0], MessageContent::Text { text } if text == "then"));
    assert!(queue.pop_steer().is_none());
    assert!(queue.pop_follow_up().is_some());
    queue.close();
    assert_eq!(
        queue.push(QueuedMessage::Steer(UserMessage::text("x".into()))),
        Err("session is not accepting messages".to_string())
    );
}

#[test]
fn commands_parse_name_and_argument() {
    assert_eq!(parse_command("/name  rest of it"), Some(("name".into(), "rest of it".into())));
    assert_eq!(parse_command("/name"), Some(("name".into(), "".into())));
    assert_eq!(parse_command("plain text"), None);
}

#[test]
fn final_message_replacements_keep_the_role() {
    let user = Message::User(UserMessage::text("a".into()));
    let other = Message::User(UserMessage::text("b".into()));
    let result = Message::ToolResult(ToolResultMessage::text("call".into(), "1".into()));
    assert_eq!(role(&user), "user");
    assert_eq!(role(&result), "tool_result");
    assert!(validate_final_message(&user, &other).is_ok());
    assert_eq!(validate_final_message(&user, &result), Err("message role cannot change".to_string()));
}

#[test]
fn text_blocks_join_with_a_separator() {
    let content = vec![
        MessageContent::Text { text: "a".into() },
        MessageContent::Thinking { thinking: "t".into(), signature: None },
        MessageContent::Text { text: "b".into() },
    ];
    assert_eq!(join_text(&content, "\n"), "a\nb");
    assert_eq!(StopReason::default(), StopReason::Stop);
}

fn goal(status: &str) -> SessionEntry {
    SessionEntry::Custom {
        custom_type: "goal-state".into(),
        data: JsonValue::Object(vec![(
            "goal".into(),
            JsonValue::Object(vec![("status".into(), JsonValue::String(status.into()))]),
        )]),
    }
}

fn call(id: &str) -> Message {
    Message::Assistant(AssistantMessage {
        content: vec![MessageContent::ToolUse {
            id: id.into(),
            name: "node".into(),
            input: "{}".into(),
            custom: false,
            item_id: None,
        }],
        stop_reason: StopReason::ToolUse,
        usage: None,
        error_message: None,
    })
}

#[test]
fn restores_messages_and_custom_entries() {
    let entries = vec![
        SessionEntry::Message { message: Message::User(UserMessage::text("hello".into())) },
        SessionEntry::Custom {
            custom_type: "state".into(),
            data: JsonValue::Object(vec![(
                "n".into(),
                JsonValue::Number(e_agent::json::JsonNumber { as_u64: Some(1), text: "1".into() }),
            )]),
        },
    ];
    assert_eq!(restored_messages(&entries).len(), 1);
    assert_eq!(entries.len(), 2);
}

#[test]
fn restores_calls_with_their_results() {
    let entries = vec![
        SessionEntry::Message { message: Message::User(UserMessage::text("hello".into())) },
        SessionEntry::Custom { custom_type: "state".into(), data: JsonValue::Null },
        SessionEntry::Message { message: call("a") },
        SessionEntry::Message {
            message: Message::ToolResult(ToolResultMessage::text("a".into(), "1".into())),
        },
    ];
    assert!(!goal_active(&entries));
    assert_eq!(restored_messages(&entries), vec![0, 2, 3]);
}

#[test]
fn an_active_goal_drops_tool_calls_and_results() {
    let entries = vec![
        SessionEntry::Message { message: Message::User(UserMessage::text("go".into())) },
        SessionEntry::Message { message: call("a") },
        SessionEntry::Message {
            message: Message::ToolResult(ToolResultMessage::text("a".into(), "1".into())),
        },
        goal("done"),
        goal("active"),
    ];
    assert!(goal_active(&entries));
    assert_eq!(restored_messages(&entries), vec![0]);
    let finished = vec![goal("active"), goal("done")];
    assert!(!goal_active(&finished));
}

#[test]
fn unanswered_calls_are_found_in_order() {
    let messages = vec![
        call("a"),
        call("b"),
        Message::ToolResult(ToolResultMessage::text("a".into(), "1".into())),
        call("c"),
    ];
    assert_eq!(interrupted_calls(&messages), vec!["b".to_string(), "c".to_string()]);
}

#[test]
fn turn_messages_are_numbered_by_run_and_turn() {
    assert_eq!(message_id(3, 0, TurnPart::User), "3:0:user");
    assert_eq!(message_id(3, 1, TurnPart::Tool("call_1".into())), "3:1:tool:call_1");
    assert_eq!(message_id(12, 2, TurnPart::Injected(5)), "12:2:injected:5");
    assert_eq!(message_id(0, 0, TurnPart::Assistant), "0:0:assistant");
    assert_eq!(message_id(0, 4, TurnPart::Steer), "0:4:steer");
}

#[test]
fn backspace_undoes_typing() {
    let mut app = e_agent::state::AppState::new(Vec::new(), e_agent::session::SessionStatus::Idle);
    app.insert_text("ab");
    app.cursor = 1;
    app.insert('x');
    assert_eq!(app.editor, "axb");
    app.backspace();
    assert_eq!(app.editor, "ab");
    assert_eq!(app.cursor, 1);
}

fn goal_with(status: &str, id: Option<&str>, text: Option<&str>) -> SessionEntry {
    let mut goal = vec![("status".to_string(), JsonValue::String(status.into()))];
    if let Some(id) = id {
        goal.push(("id".into(), JsonValue::String(id.into())));
    }
    if let Some(text) = text {
        goal.push(("text".into(), JsonValue::String(text.into())));
    }
    SessionEntry::Custom {
        custom_type: "goal-state".into(),
        data: JsonValue::Object(vec![("goal".into(), JsonValue::Object(goal))]),
    }
}

#[test]
fn an_active_goal_is_resumed_with_its_objective() {
    let entries = vec![goal_with("active", Some("g1"), Some("ship it"))];
    assert_eq!(
        resume_prompt(&entries).as_deref(),
        Some("Resume the active goal after process restart. Objective: ship it\nUse the current goal_id g1 when completing it.")
    );
    assert_eq!(resume_prompt(&[goal_with("active", None, Some("x"))]), None);
    assert_eq!(
        resume_prompt(&[goal_with("active", Some("g"), Some("x")), goal_with("done", Some("g"), Some("x"))]),
        None
    );
}

#[test]
fn host_actions_become_entries_and_queued_messages() {
    let writes = host_action_writes(HostAction::SendUserMessage {
        text: "hi".into(),
        deliver_as: "steer".into(),
    });
    assert!(matches!(&writes[0], HostWrite::Enqueue(QueuedMessage::Steer(_))));
    let message = JsonValue::Object(vec![("content".into(), JsonValue::String("go".into()))]);
    let writes = host_action_writes(HostAction::SendMessage {
        message,
        deliver_as: "followUp".into(),
        trigger_turn: true,
    });
    assert_eq!(writes.len(), 2);
    assert!(matches!(&writes[0], HostWrite::AppendCustom { kind, .. } if kind == "extension-message"));
    assert!(matches!(&writes[1], HostWrite::Enqueue(QueuedMessage::FollowUp(m))
        if matches!(&m.content[0], MessageContent::Text { text } if text == "go")));
    let writes = host_action_writes(HostAction::AppendEntry { kind: "k".into(), data: JsonValue::Null });
    assert!(matches!(&writes[0], HostWrite::AppendCustom { kind, data: JsonValue::Null } if kind == "k"));
}

#[test]
fn system_prompt_lists_time_directory_and_extensions() {
    assert_eq!(
        build_system_prompt("base", "now", "/w", &["one".to_string(), "two".to_string()]),
        "base\n当前时间为:now\n当前目录为:/w\none\ntwo"
    );
}

#[test]
fn json_clone_keeps_nested_data() {
    let value = JsonValue::Object(vec![
        ("a".to_string(), JsonValue::Array(vec![JsonValue::Null, JsonValue::Bool(true)])),
        ("n".to_string(), JsonValue::Number(JsonNumber { as_u64: Some(7), text: "7".to_string() })),
        ("s".to_string(), JsonValue::String("x".to_string())),
    ]);
    let copy = value.clone();
    assert_eq!(copy, value);
    assert_eq!(copy.to_json_text(), "{\"a\":[null,true],\"n\":7,\"s\":\"x\"}");
}

#[test]
fn lzss_compressed_len_stays_within_one_header_per_chunk() {
    assert_eq!(lzss_compressed_len(b""), 0);
    assert_eq!(lzss_compressed_len(b"abc"), 4);
    assert_eq!(lzss_compress(b"abc"), vec![2, b'a', b'b', b'c']);
    let long = "x".repeat(300);
    let unique: Vec<u8> = (0..=255u8).collect();
    for input in [long.as_bytes(), unique.as_slice(), b"abcdabcdabcdabcd".as_slice()] {
        let n = lzss_compressed_len(input);
        assert!(n <= input.len() + (input.len() + 127) / 128);
        assert_eq!(lzss_compress(input).len(), n);
    }
    assert_eq!(lzss_compressed_len(&unique), 256 + 2);
}

#[test]
fn json_text_is_serde_json_display() {
    let number = |n: u64| JsonValue::Number(JsonNumber { as_u64: Some(n), text: n.to_string() });
    let value = JsonValue::Object(vec![("b".to_string(), number(1)), ("a".to_string(), number(2))]);
    assert_eq!(value.to_json_text(), "{\"a\":2,\"b\":1}");
    assert_eq!(JsonValue::Array(vec![]).to_json_text(), "[]");
}

#[test]
fn paths_resolve_dots_by_name_and_lose_verbatim_prefixes() {
    let steps = vec![
        PathStep::Name("a".to_string()),
        PathStep::Current,
        PathStep::Name("b".to_string()),
        PathStep::Parent,
        PathStep::Parent,
        PathStep::Parent,
        PathStep::Name("c".to_string()),
    ];
    assert_eq!(normalize_path_steps(&steps), vec!["c".to_string()]);
    assert_eq!(normalize_path_steps(&[]), Vec::<String>::new());
    assert_eq!(strip_verbatim_prefix(r"\\?\C:\x"), r"C:\x");
    assert_eq!(strip_verbatim_prefix("//?/C:/x"), "C:/x");
    assert_eq!(strip_verbatim_prefix("/home/x"), "/home/x");
}
