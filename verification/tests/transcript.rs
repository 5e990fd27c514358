use e_agent::editing::cursor_position;
use e_agent::event::AgentEvent;
use e_agent::json::{JsonNumber, JsonValue};
use e_agent::markdown::{Change, Line, Tint, markdown_text, wrap_cell};
use e_agent::message::{AssistantMessage, Message, MessageContent, StopReason, UserMessage};
use e_agent::session::SessionStatus;
use e_agent::state::AppState;
use e_agent::transcript::{
    cursor_cell, editor_height, status_line, tool_source, transcript,
};

fn flat(lines: &[Line]) -> String {
    lines.iter().map(|line| line.text()).collect::<String>()
}

#[test]
fn cursor_position_uses_terminal_width() {
    assert_eq!(cursor_position("你a", 1), (0, 2));
    assert_eq!(cursor_position("你\n好", 3), (1, 2));
    assert_eq!(cursor_position("\t字", 2), (0, 6));
}

#[test]
fn renders_tables_with_borders_and_cjk_width() {
    let table = "| 项目 | 今日新增 | 简介 |\n| --- | ---: | --- |\n| cordis | 719 | 时空可组合性元框架 |\n| OpenCut | 134 | 开源视频编辑器 |";
    let rendered = markdown_text(table, 32);
    let lines = rendered.iter().map(|line| line.width()).collect::<Vec<_>>();
    assert!(rendered.iter().any(|line| line.text().contains('┌')));
    assert!(rendered.iter().any(|line| line.text().contains('┼')));
    assert!(rendered.iter().all(|line| line.width() <= 32));
    assert!(lines.len() >= 7);
}

#[test]
fn incomplete_markdown_never_panics() {
    for source in ["## Head", "ing\n\n```ru", "st\nfn main() {}\n```"] {
        assert!(!markdown_text(source, 80).is_empty());
    }
}

#[test]
fn finalized_thinking_and_tool_source_remain_visible() {
    let input = "{\"code\":\"console.log('kept')\"}".to_string();
    let mut app = AppState::new(Vec::new(), SessionStatus::Running);
    app.reduce(AgentEvent::ToolExecutionStart {
        id: "call".into(),
        name: "node".into(),
        input: input.clone(),
    });
    app.reduce(AgentEvent::ToolExecutionEnd {
        id: "call".into(),
        name: "node".into(),
        result: JsonValue::Object(Vec::new()),
        is_error: false,
    });
    app.reduce(AgentEvent::MessageEnd {
        message_id: "assistant".into(),
        message: Message::Assistant(AssistantMessage {
            content: vec![
                MessageContent::Thinking { thinking: "kept reasoning".into(), signature: None },
                MessageContent::ToolUse {
                    id: "call".into(),
                    name: "node".into(),
                    input,
                    custom: false,
                    item_id: None,
                },
            ],
            stop_reason: StopReason::ToolUse,
            usage: None,
            error_message: None,
        }),
    });
    let rendered = flat(&transcript(&app, 80));
    assert!(rendered.contains("kept reasoning"));
    assert!(rendered.contains("console.log('kept')"));
    assert!(!rendered.contains("node: done"));
}

#[test]
fn headings_code_and_emphasis_are_styled() {
    let lines = markdown_text("# Title\n\nsome **bold** and *it*\n\n```rust\nfn f() {}\n```", 80);
    assert_eq!(lines[0].text(), "Title");
    assert_eq!(lines[0].spans[0].style.fg, Tint::Cyan);
    assert_eq!(lines[0].spans[0].style.bold, Change::Add);
    let body = &lines[1];
    assert_eq!(body.text(), "some bold and it");
    assert_eq!(body.spans[1].style.bold, Change::Add);
    assert_eq!(body.spans[2].style.bold, Change::Remove);
    assert_eq!(body.spans[3].style.italic, Change::Add);
    let code = lines.iter().find(|line| line.text().contains("fn f()")).unwrap();
    assert_eq!(code.spans[0].style.fg, Tint::Yellow);
    assert!(!lines.last().unwrap().spans.is_empty());
}

#[test]
fn list_items_get_bullets() {
    let lines = markdown_text("- one\n- two", 80);
    let texts = lines.iter().map(|line| line.text()).collect::<Vec<_>>();
    assert!(texts.contains(&"• one".to_string()));
    assert!(texts.contains(&"• two".to_string()));
}

#[test]
fn empty_markdown_is_one_empty_line() {
    let lines = markdown_text("", 10);
    assert_eq!(lines.len(), 1);
    assert!(lines[0].spans.is_empty());
}

#[test]
fn table_exact_layout() {
    let lines = markdown_text("| a | b |\n| - | - |\n| 1 | 22 |", 80);
    let texts = lines.iter().map(|line| line.text()).collect::<Vec<_>>();
    assert_eq!(
        texts,
        vec![
            "".to_string(),
            "┌───┬────┐".to_string(),
            "│ a │ b  │".to_string(),
            "├───┼────┤".to_string(),
            "│ 1 │ 22 │".to_string(),
            "└───┴────┘".to_string(),
        ]
    );
}

#[test]
fn wrap_cell_breaks_words_and_long_words() {
    assert_eq!(wrap_cell("alpha beta gamma", 10), vec!["alpha beta", "gamma"]);
    assert_eq!(wrap_cell("abcdefgh", 3), vec!["abc", "def", "gh"]);
    assert_eq!(wrap_cell("   ", 5), vec![""]);
    assert_eq!(wrap_cell("时空可组合", 4), vec!["时空", "可组", "合"]);
}

#[test]
fn line_styled_splits_at_line_feeds() {
    let line = Line::styled("a\r\nb\n", e_agent::markdown::plain_style());
    assert_eq!(line.spans.len(), 2);
    assert_eq!(line.spans[0].content, "a");
    assert_eq!(line.spans[1].content, "b");
    assert_eq!(Line::raw("").spans.len(), 0);
    assert_eq!(Line::raw("x\r").spans[0].content, "x\r");
}

#[test]
fn tool_source_prefers_the_code_field() {
    assert_eq!(tool_source("{\"code\":\"print(1)\"}"), "print(1)");
    assert_eq!(tool_source("{\"other\":1}"), "{\"other\":1}");
    assert_eq!(tool_source("not json"), "not json");
}

#[test]
fn transcript_labels_messages_and_marks_failures() {
    let app = AppState::new(
        vec![
            Message::User(UserMessage::text("hi".into())),
            Message::Assistant(AssistantMessage {
                content: vec![MessageContent::Text { text: "oops".into() }],
                stop_reason: StopReason::Error,
                usage: None,
                error_message: Some("down".into()),
            }),
        ],
        SessionStatus::Idle,
    );
    let texts = transcript(&app, 40).iter().map(|line| line.text()).collect::<Vec<_>>();
    assert_eq!(texts, vec!["You", "hi", "", "Assistant", "oops", "Error", ""]);
}

#[test]
fn running_tools_show_in_id_order_with_json() {
    let mut app = AppState::new(Vec::new(), SessionStatus::Running);
    app.reduce(AgentEvent::ToolExecutionStart { id: "b".into(), name: "second".into(), input: "x".into() });
    app.reduce(AgentEvent::ToolExecutionStart { id: "a".into(), name: "first".into(), input: "y".into() });
    app.reduce(AgentEvent::ToolExecutionUpdate {
        id: "a".into(),
        update: JsonValue::Object(vec![(
            "n".into(),
            JsonValue::Number(JsonNumber { as_u64: Some(1), text: "1".into() }),
        )]),
    });
    let rendered = flat(&transcript(&app, 80));
    let first = rendered.find("first: updating").unwrap();
    let second = rendered.find("second: running").unwrap();
    assert!(first < second);
    assert!(rendered.contains("{\"n\":1}"));
}

#[test]
fn json_text_escapes_like_serde_json() {
    let value = JsonValue::Array(vec![
        JsonValue::String("a\"b\\c\n\u{1}".into()),
        JsonValue::Bool(true),
        JsonValue::Null,
    ]);
    assert_eq!(value.to_json_text(), "[\"a\\\"b\\\\c\\n\\u0001\",true,null]");
}

#[test]
fn status_line_and_layout_helpers() {
    let mut app = AppState::new(Vec::new(), SessionStatus::Fatal);
    assert_eq!(status_line(&app).text(), "Fatal");
    assert_eq!(status_line(&app).style.fg, Tint::Red);
    app.fatal_error = Some("disk full".into());
    assert_eq!(status_line(&app).text(), "disk full");
    assert_eq!(editor_height("one", 24), 3);
    assert_eq!(editor_height("1\n2\n3", 24), 5);
    assert_eq!(editor_height("1\n2\n3\n4\n5\n6", 6), 4);
    assert_eq!(cursor_cell(0, 10, 20, 14, 1, 3), (3, 12));
    assert_eq!(cursor_cell(0, 10, 20, 14, 9, 99), (19, 13));
}

#[test]
fn settle_scroll_follows_and_sticks() {
    let mut app = AppState::new(Vec::new(), SessionStatus::Idle);
    app.settle_scroll(30, 10);
    assert_eq!(app.scroll, 20);
    assert!(app.follow);
    app.scroll_up(3);
    app.settle_scroll(31, 10);
    assert_eq!(app.scroll, 17);
    assert!(!app.follow);
    app.scroll = u16::MAX;
    app.settle_scroll(31, 10);
    assert_eq!(app.scroll, 21);
    assert!(app.follow);
}
