use e_agent::event::{AgentEvent, MessageDelta};
use e_agent::hooks::{ProviderEvent, ToolCall, ToolCallOutcome};
use e_agent::json::JsonValue;
use e_agent::message::{
    AssistantMessage, Message, MessageContent, StopReason, ToolDef, ToolInput, ToolOutput, ToolResultMessage,
    Usage, UserMessage,
};
use e_agent::provider::{
    ApiResponse, ApiTool, InputItem, OutputItem, OutputPart, ResponseStatus, Role, ToolFormat,
    from_response, to_input_items, to_tool,
};
use e_agent::session::{
    AgentLoop, LoopStep, validate_tool_call, SessionStatus, StreamState, StreamStep, fatal_outcome, finalized_message,
    tool_call_verdict, tool_result_message,
};

fn response(status: ResponseStatus, output: Vec<OutputItem>) -> ApiResponse {
    ApiResponse { status, error: None, incomplete_reason: None, output, usage: None }
}

fn function_call(arguments: &str) -> OutputItem {
    OutputItem::FunctionCall {
        call_id: "call_1".into(),
        name: "node".into(),
        arguments: arguments.into(),
        id: None,
    }
}

#[test]
fn flattens_text_tool_calls_and_results_in_order() {
    let messages = vec![
        Message::User(UserMessage::text("hi".into())),
        Message::Assistant(AssistantMessage {
            content: vec![
                MessageContent::Thinking { thinking: "dropped".into(), signature: None },
                MessageContent::Text { text: "before".into() },
                MessageContent::ToolUse {
                    id: "call_1".into(),
                    name: "node".into(),
                    input: "{\"code\":\"print(1)\"}".into(),
                    custom: false,
                    item_id: None,
                },
                MessageContent::Text { text: "after".into() },
            ],
            stop_reason: StopReason::ToolUse,
            usage: None,
            error_message: None,
        }),
        Message::ToolResult(ToolResultMessage::text("call_1".into(), "1".into())),
    ];
    let items = to_input_items(&messages);
    assert_eq!(items.len(), 5);
    assert!(matches!(&items[0], InputItem::Message { role: Role::User, content } if content == "hi"));
    assert!(matches!(&items[1], InputItem::Message { role: Role::Assistant, content } if content == "before"));
    assert!(matches!(&items[2], InputItem::FunctionCall { call_id, .. } if call_id == "call_1"));
    assert!(matches!(&items[3], InputItem::Message { content, .. } if content == "after"));
    assert!(matches!(&items[4], InputItem::FunctionCallOutput { call_id, output } if call_id == "call_1" && output == &vec!["1".to_string()]));
    assert!(!format!("{items:?}").contains("dropped"));
}

#[test]
fn maps_json_and_custom_tool_definitions_to_their_native_protocols() {
    let schema = JsonValue::Object(vec![("type".into(), JsonValue::String("object".into()))]);
    let json_tool = to_tool(ToolDef {
        name: "lookup".into(),
        description: "Lookup a value".into(),
        input: ToolInput::Json(schema),
    });
    assert!(matches!(json_tool, ApiTool::Function { ref parameters, strict: false, .. }
        if parameters.get_str("type").map(String::as_str) == Some("object")));
    let text_tool = to_tool(ToolDef { name: "node".into(), description: "Run Python".into(), input: ToolInput::Text });
    assert!(matches!(text_tool, ApiTool::Custom { format: ToolFormat::Text, .. }));
    let lark_tool = to_tool(ToolDef {
        name: "node".into(),
        description: "Run Python".into(),
        input: ToolInput::Lark("start: /.+/".into()),
    });
    assert!(matches!(lark_tool, ApiTool::Custom { format: ToolFormat::Lark(ref g), .. } if g == "start: /.+/"));
}

#[test]
fn accepts_custom_tool_call_input_as_raw_text() {
    let output = OutputItem::CustomToolCall {
        call_id: "call_1".into(),
        name: "node".into(),
        input: "print(\"a\\nb\")".into(),
        id: "ctc_1".into(),
    };
    let message = from_response(response(ResponseStatus::Completed, vec![output])).unwrap();
    let MessageContent::ToolUse { input, custom, item_id, .. } = &message.content[0] else {
        panic!("expected custom tool call");
    };
    assert_eq!(input, "print(\"a\\nb\")");
    assert!(*custom);
    assert_eq!(item_id.as_deref(), Some("ctc_1"));
}

#[test]
fn replays_custom_calls_and_outputs_as_custom_items() {
    let messages = vec![
        Message::Assistant(AssistantMessage {
            content: vec![MessageContent::ToolUse {
                id: "call_1".into(),
                name: "node".into(),
                input: "print(1)".into(),
                custom: true,
                item_id: Some("ctc_1".into()),
            }],
            stop_reason: StopReason::ToolUse,
            usage: None,
            error_message: None,
        }),
        Message::ToolResult(ToolResultMessage {
            tool_use_id: "call_1".into(),
            content: vec![MessageContent::text("1".into())],
            is_error: false,
            custom: true,
        }),
    ];
    let items = to_input_items(&messages);
    assert!(matches!(&items[0], InputItem::CustomToolCall { input, id, .. } if input == "print(1)" && id.as_deref() == Some("ctc_1")));
    assert!(matches!(&items[1], InputItem::CustomToolCallOutput { call_id, .. } if call_id == "call_1"));
}

#[test]
fn reports_tool_use_as_the_stop_reason() {
    let message = from_response(response(ResponseStatus::Completed, vec![function_call("{\"code\":\"1\"}")])).unwrap();
    assert_eq!(message.stop_reason, StopReason::ToolUse);
}

#[test]
fn reports_length_when_the_response_is_incomplete() {
    let output = vec![OutputItem::Message(vec![OutputPart::Text("half".into())])];
    let message = from_response(response(ResponseStatus::Incomplete, output)).unwrap();
    assert_eq!(message.stop_reason, StopReason::Length);
}

#[test]
fn rejects_a_failed_response() {
    assert_eq!(
        from_response(response(ResponseStatus::Failed, Vec::new())).err(),
        Some("response Failed: no detail reported".to_string())
    );
    let mut cancelled = response(ResponseStatus::Cancelled, Vec::new());
    cancelled.error = Some("boom".into());
    assert_eq!(from_response(cancelled).err(), Some("response Cancelled: boom".to_string()));
}

#[test]
fn leaves_function_arguments_for_the_executor_to_parse() {
    let message = from_response(response(ResponseStatus::Completed, vec![function_call("not json")])).unwrap();
    let MessageContent::ToolUse { input, custom, .. } = &message.content[0] else {
        panic!("expected function tool call");
    };
    assert_eq!(input, "not json");
    assert!(!custom);
}

#[test]
fn refusals_and_reasoning_are_kept_as_text() {
    let mut r = response(
        ResponseStatus::Completed,
        vec![
            OutputItem::Reasoning(vec!["a".into(), "b".into()]),
            OutputItem::Message(vec![OutputPart::Refusal("no".into())]),
            OutputItem::Other,
        ],
    );
    r.usage = Some((3, 4));
    let message = from_response(r).unwrap();
    assert_eq!(message.stop_reason, StopReason::Refusal);
    assert!(matches!(&message.content[0], MessageContent::Thinking { thinking, .. } if thinking == "ab"));
    assert!(matches!(&message.content[1], MessageContent::Text { text } if text == "no"));
    assert_eq!(message.content.len(), 2);
    assert_eq!(message.usage, Some(Usage { input_tokens: 3, output_tokens: 4 }));
}

#[test]
fn stream_merges_deltas_and_finishes_with_tool_use() {
    let mut stream = StreamState::new();
    let step = stream.on_event(ProviderEvent::ContentDelta {
        block_index: 0,
        delta: MessageContent::Text { text: "he".into() },
    });
    assert!(matches!(step, StreamStep::Publish { block_index: 0, delta: MessageDelta::Text(ref t) } if t == "he"));
    stream.on_event(ProviderEvent::ContentDelta { block_index: 0, delta: MessageContent::Text { text: "llo".into() } });
    stream.on_event(ProviderEvent::ContentDelta {
        block_index: 1,
        delta: MessageContent::ToolUse {
            id: "c".into(),
            name: "node".into(),
            input: "{}".into(),
            custom: false,
            item_id: None,
        },
    });
    assert!(matches!(stream.on_event(ProviderEvent::Usage(Usage { input_tokens: 1, output_tokens: 2 })), StreamStep::Continue));
    assert!(matches!(stream.on_event(ProviderEvent::Done(StopReason::Stop)), StreamStep::Finish));
    let message = stream.finish();
    assert_eq!(message.stop_reason, StopReason::ToolUse);
    assert!(matches!(&message.content[0], MessageContent::Text { text } if text == "hello"));
    assert_eq!(message.usage, Some(Usage { input_tokens: 1, output_tokens: 2 }));
    assert_eq!(message.error_message, None);
}

#[test]
fn stream_without_an_end_or_with_an_error_is_an_error() {
    let unfinished = StreamState::new().finish();
    assert_eq!(unfinished.stop_reason, StopReason::Error);
    assert_eq!(unfinished.error_message.as_deref(), Some("provider stream ended without a terminal event"));
    let mut failed = StreamState::new();
    assert!(matches!(failed.on_event(ProviderEvent::Error("down".into())), StreamStep::Finish));
    let message = failed.finish();
    assert_eq!(message.stop_reason, StopReason::Error);
    assert_eq!(message.error_message.as_deref(), Some("down"));
    let mut cancelled = StreamState::new();
    cancelled.cancel();
    assert_eq!(cancelled.finish().stop_reason, StopReason::Aborted);
}

#[test]
fn tool_calls_run_only_when_neither_hook_nor_validation_refuses() {
    assert_eq!(tool_call_verdict(ToolCallOutcome::Continue, Ok(())), Ok(()));
    assert_eq!(tool_call_verdict(ToolCallOutcome::Block("no".into()), Err("bad".into())), Err("no".to_string()));
    assert_eq!(tool_call_verdict(ToolCallOutcome::Continue, Err("bad".into())), Err("bad".to_string()));
    let failed = tool_result_message("c".into(), true, Err("aborted".into()));
    assert!(failed.is_error && failed.custom);
    assert!(matches!(&failed.content[0], MessageContent::Text { text } if text == "aborted"));
    let output = ToolOutput { content: vec![MessageContent::text("1".into())], details: None };
    let ok = tool_result_message("c".into(), false, Ok(output));
    assert!(!ok.is_error);
    assert!(matches!(&ok.content[0], MessageContent::Text { text } if text == "1"));
}

fn tool_use(id: &str, custom: bool) -> MessageContent {
    MessageContent::ToolUse {
        id: id.into(),
        name: "run".into(),
        input: "{}".into(),
        custom,
        item_id: None,
    }
}

fn answer(content: Vec<MessageContent>) -> AssistantMessage {
    AssistantMessage { content, stop_reason: StopReason::ToolUse, usage: None, error_message: None }
}

#[test]
fn each_tool_call_runs_in_order_before_the_next_turn() {
    let (mut run, first, events) = AgentLoop::new(3);
    assert!(matches!(first, LoopStep::CallModel { turn_index: 0 }));
    assert!(matches!(events[..], [AgentEvent::TurnStart { run_id: 3, turn_index: 0 }]));
    let (step, events) = run.on_answer(&answer(vec![
        MessageContent::text("looking".into()),
        tool_use("a", false),
        tool_use("b", true),
    ]));
    assert!(matches!(step, LoopStep::CheckTool(ref call) if call.id == "a" && !call.custom));
    assert!(matches!(&events[..], [AgentEvent::ToolExecutionStart { id, .. }] if id == "a"));
    let call = ToolCall { id: "a".into(), name: "run".into(), input: "{\"x\":1}".into() };
    let (step, events) = run.on_checked(Ok(ToolCallOutcome::Continue), call, Ok(()));
    assert!(events.is_empty());
    assert!(matches!(step, LoopStep::RunTool(ref call) if call.id == "a" && call.input == "{\"x\":1}"));
    let output = ToolOutput { content: vec![MessageContent::text("ok".into())], details: None };
    let step = run.on_tool_output(Ok(output));
    assert!(matches!(step, LoopStep::StoreResult { ref message_id, ref message } if message_id == "3:0:tool:a" && !message.is_error));
    assert!(matches!(run.on_result_stored(), LoopStep::TakeSteer { ref message_id } if message_id == "3:0:steer"));
    let (step, _) = run.on_steer_taken();
    assert!(matches!(step, LoopStep::CheckTool(ref call) if call.id == "b" && call.custom));
    let call = ToolCall { id: "b".into(), name: "run".into(), input: "{}".into() };
    let (step, _) = run.on_checked(Ok(ToolCallOutcome::Continue), call, Ok(()));
    assert!(matches!(step, LoopStep::RunTool(_)));
    let step = run.on_tool_output(Err("aborted".into()));
    assert!(matches!(step, LoopStep::StoreResult { ref message, .. } if message.is_error && message.custom));
    run.on_result_stored();
    let (step, events) = run.on_steer_taken();
    assert!(matches!(step, LoopStep::CallModel { turn_index: 1 }));
    assert!(matches!(
        events[..],
        [AgentEvent::TurnEnd { run_id: 3, turn_index: 0 }, AgentEvent::TurnStart { run_id: 3, turn_index: 1 }]
    ));
    assert_eq!(run.turn_index(), 1);
    assert_eq!(run.run_id(), 3);
    let (step, events) = run.on_answer(&answer(vec![MessageContent::text("done".into())]));
    assert!(matches!(step, LoopStep::Finish));
    assert!(matches!(events[..], [AgentEvent::TurnEnd { run_id: 3, turn_index: 1 }]));
}

#[test]
fn invalid_or_failing_tool_hooks_never_reach_the_executor() {
    let cases: Vec<(Result<ToolCallOutcome, String>, Result<(), String>, &str, usize)> = vec![
        (Ok(ToolCallOutcome::Continue), Err("invalid input".into()), "invalid input", 1),
        (Err("boom".into()), Ok(()), "tool hook failed: boom", 1),
        (Ok(ToolCallOutcome::Block("denied".into())), Ok(()), "denied", 0),
        (Err("boom".into()), Err("invalid input".into()), "tool hook failed: boom", 2),
    ];
    for (hook, validation, reason, errors) in cases {
        let (mut run, _, _) = AgentLoop::new(0);
        run.on_answer(&answer(vec![tool_use("a", false)]));
        let call = ToolCall { id: "a".into(), name: "run".into(), input: "{}".into() };
        let (step, events) = run.on_checked(hook, call, validation);
        assert_eq!(events.len(), errors);
        assert!(events.iter().all(|e| matches!(e, AgentEvent::HookError { hook, .. } if hook == "tool_call")));
        match step {
            LoopStep::StoreResult { message_id, message } => {
                assert_eq!(message_id, "0:0:tool:a");
                assert!(message.is_error);
                assert_eq!(message.tool_use_id, "a");
                assert!(matches!(&message.content[0], MessageContent::Text { text } if text == reason));
            }
            other => panic!("a refused call must not run: {other:?}"),
        }
    }
}

#[test]
fn persistence_keeps_valid_hook_edits_and_failure_is_fatal() {
    let original = Message::User(UserMessage::text("hi".into()));
    let edited = Message::User(UserMessage::text("hello".into()));
    let (kept, error) = finalized_message(original.clone(), Ok(edited));
    assert!(matches!(&kept, Message::User(u) if matches!(&u.content[0], MessageContent::Text { text } if text == "hello")));
    assert!(error.is_none());
    let (kept, error) = finalized_message(original.clone(), Err("hook".into()));
    assert!(matches!(&kept, Message::User(u) if matches!(&u.content[0], MessageContent::Text { text } if text == "hi")));
    assert_eq!(error, Some("hook".to_string()));
    let wrong_role = Message::Assistant(answer(vec![]));
    let (kept, error) = finalized_message(original, Ok(wrong_role));
    assert!(matches!(kept, Message::User(_)));
    assert!(error.is_some());

    let (status, events) = fatal_outcome("disk full".into());
    assert_eq!(status, SessionStatus::Fatal);
    assert_eq!(events.len(), 3);
    assert!(matches!(&events[0], AgentEvent::PersistenceError { error } if error == "disk full"));
    assert!(matches!(&events[1], AgentEvent::SessionFatal { error } if error == "disk full"));
    assert!(matches!(events[2], AgentEvent::SessionShutdown));
}

#[test]
fn tool_calls_must_name_a_known_tool_with_json_input() {
    let tools = vec![
        ToolDef { name: "run".into(), description: String::new(), input: ToolInput::Json(JsonValue::Null) },
        ToolDef { name: "shell".into(), description: String::new(), input: ToolInput::Text },
    ];
    let call = |name: &str, input: &str| ToolCall { id: "c".into(), name: name.into(), input: input.into() };
    assert_eq!(validate_tool_call(&call("nope", "{}"), &tools), Err("unknown tool nope".to_string()));
    assert!(matches!(validate_tool_call(&call("run", "{\"a\":true}"), &tools), Ok(Some((0, JsonValue::Object(_))))));
    let bad = validate_tool_call(&call("run", "{"), &tools);
    assert!(matches!(&bad, Err(e) if e.starts_with("invalid JSON tool input: ") && e.len() > "invalid JSON tool input: ".len()));
    assert_eq!(validate_tool_call(&call("shell", "ls"), &tools), Ok(None));
}
