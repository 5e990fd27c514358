use e_agent::event::{AgentEvent, MessageDelta};
use e_agent::input::{InputEvent, KeyCode, KeyEvent, KeyKind, Modifiers};
use e_agent::message::{AssistantMessage, Message, StopReason, Usage, UserMessage};
use e_agent::reducer::{AppEvent, Effect, SessionCommand, reduce};
use e_agent::session::SessionStatus;
use e_agent::state::AppState;
use e_agent::ui_protocol::{
    Contribution, DialogRequest, DialogResult, ExtensionId, Generation, Notification,
    NotificationLevel, OverlayAction, OverlayId, RequestId, UiEnvelope, UiOperation,
    UiProtocolVersion, UiReply,
};

fn key(code: KeyCode) -> InputEvent {
    InputEvent::Key(KeyEvent { code, modifiers: Modifiers::default(), kind: KeyKind::Press })
}

fn envelope(request: u64, operation: UiOperation) -> UiEnvelope {
    UiEnvelope {
        version: UiProtocolVersion::current(),
        extension: ExtensionId("x".into()),
        request: RequestId(request),
        generation: Generation(0),
        deadline: None,
        operation,
    }
}

#[test]
fn input_reduces_to_prompt_without_terminal() {
    let mut state = AppState::new(Vec::new(), SessionStatus::Idle);
    reduce(&mut state, AppEvent::Input(InputEvent::Text("hello".into())));
    let effects = reduce(&mut state, AppEvent::Input(key(KeyCode::Enter)));
    assert_eq!(effects, vec![Effect::Session(SessionCommand::Prompt("hello".into()))]);
}

#[test]
fn dialog_consumes_escape_before_application_exit() {
    let mut state = AppState::new(Vec::new(), SessionStatus::Idle);
    reduce(
        &mut state,
        AppEvent::Ui(envelope(
            1,
            UiOperation::Dialog(DialogRequest::Confirm { title: "t".into(), message: "m".into() }),
        )),
    );
    assert_eq!(
        reduce(&mut state, AppEvent::Input(key(KeyCode::Esc))),
        vec![Effect::UiReply(RequestId(1), UiReply::Dialog(DialogResult::Confirmed(false)))]
    );
}

#[test]
fn keybindings_report_conflicts_and_override_fallback() {
    let mut state = AppState::new(Vec::new(), SessionStatus::Idle);
    reduce(
        &mut state,
        AppEvent::Ui(envelope(
            1,
            UiOperation::Keybindings {
                entries: vec![
                    ("input.newline".into(), "esc".into()),
                    ("app.exit".into(), "esc".into()),
                ],
            },
        )),
    );
    assert_eq!(state.ui.keybinding_conflicts.len(), 1);
    assert_eq!(reduce(&mut state, AppEvent::Input(key(KeyCode::Esc))), vec![Effect::Exit]);
}

#[test]
fn reducer_restores_streams_and_marks_fatal_partial() {
    let mut app = AppState::new(
        vec![Message::User(UserMessage::text("# hello".into()))],
        SessionStatus::Idle,
    );
    app.reduce(AgentEvent::MessageStart {
        message_id: "a".into(),
        message: Message::Assistant(AssistantMessage {
            content: vec![],
            stop_reason: StopReason::Stop,
            usage: None,
            error_message: None,
        }),
    });
    app.reduce(AgentEvent::MessageUpdate {
        message_id: "a".into(),
        block_index: 0,
        delta: MessageDelta::Text("## Head\n```ru".into()),
        usage: Some(Usage::default()),
    });
    app.reduce(AgentEvent::MessageUpdate {
        message_id: "a".into(),
        block_index: 0,
        delta: MessageDelta::Thinking("reasoning".into()),
        usage: None,
    });
    assert_eq!(app.thinking, "reasoning");
    app.reduce(AgentEvent::SessionFatal { error: "disk full".into() });
    assert_eq!(app.thinking, "reasoning");
    assert_eq!(app.messages.len(), 1);
    assert!(app.partial_unpersisted);
    assert_eq!(app.status, SessionStatus::Fatal);
    assert_eq!(app.fatal_error.as_deref(), Some("disk full"));
}

#[test]
fn transcript_scroll_disables_follow_and_moves_both_directions() {
    let mut app = AppState::new(Vec::new(), SessionStatus::Idle);
    app.scroll = 20;
    app.scroll_up(1);
    assert_eq!(app.scroll, 19);
    assert!(!app.follow);
    app.scroll_down(1);
    assert_eq!(app.scroll, 20);
    assert!(!app.follow);
}

#[test]
fn editor_preserves_markdown_and_supports_delete_vertical_motion() {
    let mut app = AppState::new(Vec::new(), SessionStatus::Idle);
    app.editor = "# 标题\n第二行".into();
    app.cursor = 3;
    app.move_vertical(1);
    assert_eq!(app.cursor, 8);
    app.cursor = 7;
    app.delete();
    assert_eq!(app.editor, "# 标题\n第二");
    app.cursor = 1;
    let submitted = app.take_editor().unwrap();
    assert_eq!(submitted, "# 标题\n第二");
    assert!(app.editor.is_empty());
}

#[test]
fn tools_run_update_finish_and_are_interrupted_by_a_fatal_error() {
    let mut app = AppState::new(Vec::new(), SessionStatus::Running);
    app.reduce(AgentEvent::ToolExecutionStart { id: "1".into(), name: "node".into(), input: "x".into() });
    app.reduce(AgentEvent::ToolExecutionStart { id: "2".into(), name: "node".into(), input: "y".into() });
    app.reduce(AgentEvent::ToolExecutionUpdate { id: "1".into(), update: e_agent::json::JsonValue::Null });
    assert_eq!(app.tools[0].1.status, "updating");
    app.reduce(AgentEvent::ToolExecutionEnd {
        id: "2".into(),
        name: "node".into(),
        result: e_agent::json::JsonValue::Bool(true),
        is_error: true,
    });
    assert_eq!(app.tools[1].1.status, "error");
    assert!(app.tools[1].1.is_error);
    app.reduce(AgentEvent::SessionFatal { error: "boom".into() });
    assert_eq!(app.tools[0].1.status, "interrupted");
    assert_eq!(app.tools[1].1.status, "error");
    app.reduce(AgentEvent::SessionShutdown);
    assert_eq!(app.status, SessionStatus::Fatal);
}

#[test]
fn messages_end_the_stream_with_the_same_id_only() {
    let mut app = AppState::new(Vec::new(), SessionStatus::Idle);
    app.reduce(AgentEvent::AgentStart { run_id: 1 });
    assert_eq!(app.status, SessionStatus::Running);
    app.reduce(AgentEvent::MessageStart {
        message_id: "a".into(),
        message: Message::Assistant(AssistantMessage {
            content: vec![],
            stop_reason: StopReason::Stop,
            usage: None,
            error_message: None,
        }),
    });
    app.reduce(AgentEvent::MessageUpdate {
        message_id: "b".into(),
        block_index: 0,
        delta: MessageDelta::Text("ignored".into()),
        usage: None,
    });
    assert_eq!(app.partial, "");
    app.reduce(AgentEvent::MessageUpdate {
        message_id: "a".into(),
        block_index: 0,
        delta: MessageDelta::Text("kept".into()),
        usage: None,
    });
    assert_eq!(app.partial, "kept");
    app.reduce(AgentEvent::MessageEnd {
        message_id: "a".into(),
        message: Message::User(UserMessage::text("done".into())),
    });
    assert_eq!(app.partial, "");
    assert!(app.partial_id.is_none());
    assert_eq!(app.messages.len(), 1);
    app.reduce(AgentEvent::AgentSettled { run_id: 1 });
    assert_eq!(app.status, SessionStatus::Idle);
    app.reduce(AgentEvent::SessionShutdown);
    assert_eq!(app.status, SessionStatus::Closed);
}

#[test]
fn ui_requests_update_the_screen_and_reply() {
    let mut app = AppState::new(Vec::new(), SessionStatus::Idle);
    let effects = reduce(
        &mut app,
        AppEvent::Ui(envelope(
            2,
            UiOperation::Contribution(Contribution::Put {
                slot: "title".into(),
                key: "t".into(),
                content: "Hello".into(),
            }),
        )),
    );
    assert_eq!(
        effects,
        vec![Effect::SetTitle("Hello".into()), Effect::UiReply(RequestId(2), UiReply::Ack)]
    );
    assert_eq!(app.ui.contributions.len(), 1);
    reduce(
        &mut app,
        AppEvent::Ui(envelope(
            3,
            UiOperation::Contribution(Contribution::Remove { slot: "title".into(), key: "t".into() }),
        )),
    );
    assert!(app.ui.contributions.is_empty());
    reduce(&mut app, AppEvent::Ui(envelope(4, UiOperation::Editor { text: Some("ab".into()) })));
    assert_eq!(app.cursor, 2);
    let effects = reduce(&mut app, AppEvent::Ui(envelope(5, UiOperation::Editor { text: None })));
    assert_eq!(effects, vec![Effect::UiReply(RequestId(5), UiReply::Value("ab".into()))]);
    for i in 0..40u64 {
        reduce(
            &mut app,
            AppEvent::Ui(envelope(
                10 + i,
                UiOperation::Notify(Notification { message: i.to_string(), level: NotificationLevel::Info }),
            )),
        );
    }
    assert_eq!(app.ui.notifications.len(), 32);
    assert_eq!(app.ui.notifications[0].message, "8");
}

#[test]
fn overlays_act_by_handle_and_escape_closes_the_top_capturing_one() {
    let mut app = AppState::new(Vec::new(), SessionStatus::Idle);
    let show = |id: u64| {
        UiOperation::Overlay {
            id: OverlayId(id),
            generation: Generation(0),
            action: OverlayAction::Show { content: "c".into(), capturing: true },
        }
    };
    reduce(&mut app, AppEvent::Ui(envelope(1, show(1))));
    reduce(&mut app, AppEvent::Ui(envelope(2, show(2))));
    let stale = reduce(
        &mut app,
        AppEvent::Ui(envelope(
            3,
            UiOperation::Overlay { id: OverlayId(9), generation: Generation(0), action: OverlayAction::Hide },
        )),
    );
    assert_eq!(stale, vec![Effect::UiReply(RequestId(3), UiReply::StaleHandle)]);
    reduce(
        &mut app,
        AppEvent::Ui(envelope(
            4,
            UiOperation::Overlay { id: OverlayId(1), generation: Generation(0), action: OverlayAction::Focus },
        )),
    );
    assert_eq!(app.ui.overlays[1].id, OverlayId(1));
    assert_eq!(reduce(&mut app, AppEvent::Input(key(KeyCode::Esc))), vec![]);
    assert_eq!(app.ui.overlays.len(), 1);
    assert_eq!(app.ui.overlays[0].id, OverlayId(2));
}

#[test]
fn ctrl_c_aborts_a_run_and_shutdown_closes_the_session() {
    let mut app = AppState::new(Vec::new(), SessionStatus::Running);
    let ctrl_c = InputEvent::Key(KeyEvent {
        code: KeyCode::Char('c'),
        modifiers: Modifiers { ctrl: true, alt: false, shift: false },
        kind: KeyKind::Press,
    });
    assert_eq!(
        reduce(&mut app, AppEvent::Input(ctrl_c.clone())),
        vec![Effect::Session(SessionCommand::Abort)]
    );
    app.status = SessionStatus::Idle;
    assert_eq!(reduce(&mut app, AppEvent::Input(ctrl_c)), vec![Effect::Exit]);
    assert_eq!(
        reduce(&mut app, AppEvent::Shutdown),
        vec![Effect::Session(SessionCommand::Abort), Effect::Session(SessionCommand::Close)]
    );
    reduce(&mut app, AppEvent::ObserverLagged(5));
    assert_eq!(app.status, SessionStatus::Fatal);
    assert_eq!(app.fatal_error.as_deref(), Some("event observer lagged by 5 records"));
}

#[test]
fn select_dialog_moves_and_chooses() {
    let mut app = AppState::new(Vec::new(), SessionStatus::Idle);
    reduce(
        &mut app,
        AppEvent::Ui(envelope(
            7,
            UiOperation::Dialog(DialogRequest::Select {
                title: "t".into(),
                options: vec!["a".into(), "b".into()],
            }),
        )),
    );
    reduce(&mut app, AppEvent::Input(key(KeyCode::Down)));
    reduce(&mut app, AppEvent::Input(key(KeyCode::Down)));
    assert_eq!(
        reduce(&mut app, AppEvent::Input(key(KeyCode::Enter))),
        vec![Effect::UiReply(RequestId(7), UiReply::Dialog(DialogResult::Selected(Some("b".into()))))]
    );
    assert!(app.ui.dialog.is_none());
}

#[test]
fn capturing_overlay_swallows_input_until_escape() {
    let mut state = AppState::new(Vec::new(), SessionStatus::Idle);
    reduce(
        &mut state,
        AppEvent::Ui(envelope(
            1,
            UiOperation::Overlay {
                id: OverlayId(1),
                generation: Generation(0),
                action: OverlayAction::Show { content: "menu".into(), capturing: true },
            },
        )),
    );
    assert!(reduce(&mut state, AppEvent::Input(InputEvent::Text("a".into()))).is_empty());
    assert_eq!(state.editor, "");
    assert!(reduce(&mut state, AppEvent::Input(key(KeyCode::Esc))).is_empty());
    assert!(state.ui.overlays.is_empty());
    assert_eq!(reduce(&mut state, AppEvent::Input(key(KeyCode::Esc))), vec![Effect::Exit]);
}
