use e_agent::broker::BrokerError;
use e_agent::input::{InputEvent, KeyCode, KeyEvent, KeyKind, Modifiers};
use e_agent::json::{JsonNumber, JsonValue};
use e_agent::pi_ui::{
    UiCallPlan, component_id, default_value, operation, pi_input_data, pi_input_reply,
    pi_operation_support, plan_ui_call, reply_value, settle_reply,
};
use e_agent::ui_protocol::{
    Contribution, DialogRequest, DialogResult, OverlayAction, SupportLevel, UiCapabilities,
    UiOperation, UiOperationKind, UiReply,
};

fn s(text: &str) -> JsonValue {
    JsonValue::String(text.into())
}

fn obj(entries: Vec<(&str, JsonValue)>) -> JsonValue {
    JsonValue::Object(entries.into_iter().map(|(k, v)| (k.to_string(), v)).collect())
}

fn num(n: u64) -> JsonValue {
    JsonValue::Number(JsonNumber { as_u64: Some(n), text: n.to_string() })
}

#[test]
fn custom_widget_frames_use_overlay_or_editor_operations() {
    let overlay = operation(
        "setWidget",
        &obj(vec![
            ("widgetKey", s("__pi_custom_7")),
            ("overlay", JsonValue::Bool(true)),
            ("lines", JsonValue::Array(vec![s("one"), s("two")])),
        ]),
    )
    .expect("map custom overlay");
    assert!(matches!(
        overlay,
        UiOperation::Overlay { action: OverlayAction::Show { ref content, capturing: true }, .. }
            if content == "one\ntwo"
    ));

    let editor = operation(
        "setWidget",
        &obj(vec![("widgetKey", s("__pi_custom_7")), ("lines", JsonValue::Array(vec![s("editor")]))]),
    )
    .expect("map custom editor");
    assert_eq!(editor, UiOperation::CustomEditor { content: Some("editor".into()) });

    let close = operation(
        "setWidget",
        &obj(vec![
            ("widgetKey", s("__pi_custom_7")),
            ("overlay", JsonValue::Bool(true)),
            ("lines", JsonValue::Array(vec![])),
        ]),
    )
    .expect("map custom close");
    assert!(matches!(close, UiOperation::Overlay { action: OverlayAction::Hide, .. }));
}

#[test]
fn select_keeps_title_and_options() {
    let op = operation(
        "select",
        &obj(vec![("title", s("Choose")), ("options", JsonValue::Array(vec![s("a"), s("b")]))]),
    )
    .unwrap();
    assert_eq!(
        op,
        UiOperation::Dialog(DialogRequest::Select {
            title: "Choose".into(),
            options: vec!["a".into(), "b".into()],
        })
    );
}

#[test]
fn status_and_footer_become_contributions() {
    let status = operation("setStatus", &obj(vec![("statusKey", s("build")), ("statusText", s("one"))]));
    assert_eq!(
        status,
        Some(UiOperation::Contribution(Contribution::Put {
            slot: "status".into(),
            key: "build".into(),
            content: "one".into(),
        }))
    );
    let footer = operation("setFooter", &obj(vec![("content", s("\u{1b}[31mfooter\u{1b}[0m"))]));
    assert_eq!(
        footer,
        Some(UiOperation::Contribution(Contribution::Put {
            slot: "footer".into(),
            key: "footer".into(),
            content: "footer".into(),
        }))
    );
    assert_eq!(
        operation("pasteToEditor", &obj(vec![("text", s("x\ny"))])),
        Some(UiOperation::Paste { text: "x\ny".into() })
    );
}

#[test]
fn headless_dialogs_settle_to_pi_defaults() {
    let capabilities = UiCapabilities::default();
    let empty = obj(vec![]);
    for (op, expected) in [
        ("select", JsonValue::Null),
        ("confirm", JsonValue::Bool(false)),
        ("getEditorText", JsonValue::String(String::new())),
    ] {
        assert_eq!(default_value(op), expected);
        match plan_ui_call(op, &empty, false, &capabilities) {
            UiCallPlan::Settle(value) => assert_eq!(value, expected),
            UiCallPlan::Ask { .. } => panic!("a headless call must settle"),
        }
    }
}

#[test]
fn interactive_calls_ask_when_supported() {
    let mut capabilities = UiCapabilities::default();
    capabilities.set(UiOperationKind::Dialog, SupportLevel::Adapted);
    let payload = obj(vec![("timeout", num(1))]);
    match plan_ui_call("confirm", &payload, true, &capabilities) {
        UiCallPlan::Ask { default, timeout_ms, .. } => {
            assert_eq!(default, JsonValue::Bool(false));
            assert_eq!(timeout_ms, Some(1));
        }
        UiCallPlan::Settle(_) => panic!("a supported dialog must ask"),
    }
    match plan_ui_call("confirm", &payload, true, &UiCapabilities::default()) {
        UiCallPlan::Settle(value) => assert_eq!(value, JsonValue::Bool(false)),
        UiCallPlan::Ask { .. } => panic!("an unsupported dialog must settle"),
    }
}

#[test]
fn replies_become_pi_values() {
    assert_eq!(
        reply_value(UiReply::Dialog(DialogResult::Selected(Some("b".into()))), JsonValue::Null),
        s("b")
    );
    assert_eq!(reply_value(UiReply::Dialog(DialogResult::Confirmed(true)), JsonValue::Null), JsonValue::Bool(true));
    assert_eq!(reply_value(UiReply::Ack, JsonValue::Bool(false)), JsonValue::Null);
    assert_eq!(reply_value(UiReply::Cancelled, JsonValue::Bool(false)), JsonValue::Bool(false));
    assert_eq!(reply_value(UiReply::Value("[1]".into()), JsonValue::Null), JsonValue::Array(vec![num(1)]));
    assert_eq!(reply_value(UiReply::Value("not json".into()), JsonValue::Null), s("not json"));
    assert_eq!(settle_reply(Err(BrokerError::Closed), JsonValue::Null), JsonValue::Null);
}

#[test]
fn terminal_input_is_encoded_for_pi() {
    let key = InputEvent::Key(KeyEvent {
        code: KeyCode::Char('a'),
        modifiers: Modifiers::default(),
        kind: KeyKind::Press,
    });
    assert_eq!(pi_input_data(&key), Some("a".to_string()));
    let reply = pi_input_reply(&key);
    assert_eq!(reply.get_str("key").map(String::as_str), Some("a"));
}

#[test]
fn terminal_input_support_is_explicit() {
    assert!(matches!(
        pi_operation_support(&UiCapabilities::default(), "onTerminalInput"),
        SupportLevel::Unsupported(_)
    ));
}

#[test]
fn component_ids_are_stable_hashes() {
    assert_eq!(component_id("a"), component_id("a"));
    assert_ne!(component_id("a"), component_id("b"));
    assert_eq!(component_id(""), 0xcbf29ce484222325);
}
