//! The application's reducer: how session events, terminal input and
//! extension UI requests change the state, and what effects they ask the host
//! to perform.

use vstd::prelude::*;
use crate::event::{AgentEvent, MessageDelta};
use crate::json::{JsonValue, text_eq};
use crate::message::Message;
use crate::session::SessionStatus;
use crate::editing::{backspace, delete, insert_text, inserted_at, move_vertical, moved_vertically};
use crate::input::{InputEvent, KeyCode, KeyKind, MouseKind};
use crate::state::{
    AppState, AppView, DialogView, PendingDialog, ToolState, ToolView, app_view, key_index,
    put_entry, tools_view, tool_view,
};
use crate::state::{ContributionKey, OverlayState, OverlayView, UiView, contribution_key, overlay_view, ui_view};
use crate::ui_protocol::{
    Contribution, DialogRequest, DialogResult, ExtensionId, Generation, OverlayAction, OverlayId,
    RequestId, UiEnvelope, UiOperation, UiReply,
};
use crate::input::CommandId;
use crate::component::CursorAnchor;
use crate::render::SemanticFrame;
use crate::text::push_str;

verus! {

#[derive(Debug, PartialEq, Eq)]
pub enum SessionCommand {
    Prompt(String),
    Steer(String),
    FollowUp(String),
    Abort,
    Close,
}

/// The partial message is the one with this id.
pub open spec fn streaming(v: AppView, id: Seq<char>) -> bool {
    v.partial_id == Some(id)
}

/// No message is streaming.
pub open spec fn without_partial(v: AppView) -> AppView {
    AppView {
        partial_id: None,
        partial: seq![],
        thinking: seq![],
        tool_call_input: seq![],
        partial_unpersisted: false,
        ..v
    }
}

pub open spec fn with_status(t: ToolView, status: Seq<char>) -> ToolView {
    (t.0, status, t.2, t.3, t.4, t.5)
}

/// Tools still running or updating are marked interrupted.
pub open spec fn interrupted(tools: Seq<(Seq<char>, ToolView)>) -> Seq<(Seq<char>, ToolView)> {
    tools.map_values(
        |e: (Seq<char>, ToolView)|
            if e.1.1 == "running"@ || e.1.1 == "updating"@ {
                (e.0, with_status(e.1, "interrupted"@))
            } else {
                e
            },
    )
}

/// The state after a session event: runs start and settle, the streaming
/// message accumulates deltas under its id and joins the transcript when it
/// ends, tools move through running, updating and done or error, and a fatal
/// error interrupts running tools and marks an unsaved partial message.
pub open spec fn after_session_event(v: AppView, event: AgentEvent) -> AppView {
    match event {
        AgentEvent::AgentStart { .. } => AppView { status: SessionStatus::Running, ..v },
        AgentEvent::MessageStart { message_id, message } => match message {
            Message::Assistant(_) => AppView {
                partial_id: Some(message_id@),
                ..without_partial(v)
            },
            _ => v,
        },
        AgentEvent::MessageUpdate { message_id, delta, .. } => if streaming(v, message_id@) {
            match delta {
                MessageDelta::Thinking(t) => AppView { thinking: v.thinking + t@, ..v },
                MessageDelta::ToolCallInput(t) => AppView {
                    tool_call_input: v.tool_call_input + t@,
                    ..v
                },
                MessageDelta::Text(t) => AppView { partial: v.partial + t@, ..v },
                MessageDelta::Content(_) => v,
            }
        } else {
            v
        },
        AgentEvent::MessageEnd { message_id, message } => {
            let w = if streaming(v, message_id@) {
                without_partial(v)
            } else {
                v
            };
            AppView { messages: w.messages.push(message), ..w }
        },
        AgentEvent::ToolExecutionStart { id, name, input } => AppView {
            tools: put_entry(v.tools, id@, (name@, "running"@, input@, None, None, false)),
            ..v
        },
        AgentEvent::ToolExecutionUpdate { id, update } => match key_index(v.tools, id@) {
            Some(i) => AppView {
                tools: v.tools.update(
                    i,
                    (id@, (v.tools[i].1.0, "updating"@, v.tools[i].1.2, Some(update), v.tools[i].1.4, v.tools[i].1.5)),
                ),
                ..v
            },
            None => v,
        },
        AgentEvent::ToolExecutionEnd { id, result, is_error, .. } => match key_index(v.tools, id@) {
            Some(i) => AppView {
                tools: v.tools.update(
                    i,
                    (
                        id@,
                        (
                            v.tools[i].1.0,
                            if is_error {
                                "error"@
                            } else {
                                "done"@
                            },
                            v.tools[i].1.2,
                            v.tools[i].1.3,
                            Some(result),
                            is_error,
                        ),
                    ),
                ),
                ..v
            },
            None => v,
        },
        AgentEvent::AgentSettled { .. } => AppView { status: SessionStatus::Idle, ..v },
        AgentEvent::SessionFatal { error } => AppView {
            status: SessionStatus::Fatal,
            partial_unpersisted: v.partial.len() > 0,
            fatal_error: Some(error@),
            tools: interrupted(v.tools),
            ..v
        },
        AgentEvent::SessionShutdown => if v.status != SessionStatus::Fatal {
            AppView { status: SessionStatus::Closed, ..v }
        } else {
            v
        },
        _ => v,
    }
}

fn is_streaming(state: &AppState, id: &String) -> (r: bool)
    ensures
        r == streaming(app_view(*state), id@),
{
    match &state.partial_id {
        Some(p) => text_eq(p.as_str(), id.as_str()),
        None => false,
    }
}

fn clear_partial(state: &mut AppState)
    ensures
        app_view(*final(state)) == without_partial(app_view(*old(state))),
{
    state.partial_id = None;
    state.partial = String::new();
    state.thinking = String::new();
    state.tool_call_input = String::new();
    state.partial_unpersisted = false;
}

/// The position of the tool with this id.
fn tool_position(state: &AppState, id: &String) -> (r: Option<usize>)
    ensures
        match r {
            Some(i) => key_index(app_view(*state).tools, id@) == Some(i as int) && i < state.tools@.len(),
            None => key_index(app_view(*state).tools, id@) is None,
        },
{
    let ghost view = app_view(*state).tools;
    let mut i: usize = 0;
    assert(view.skip(0) =~= view);
    while i < state.tools.len()
        invariant
            i <= state.tools@.len(),
            view == tools_view(state.tools@),
            view.len() == state.tools@.len(),
            key_index(view, id@) == match key_index(view.skip(i as int), id@) {
                Some(k) => Some(k + i),
                None => None,
            },
        decreases state.tools@.len() - i,
    {
        assert(view.skip(i as int)[0] == view[i as int]);
        assert(view.skip(i as int).drop_first() =~= view.skip(i + 1));
        assert(view[i as int].0 == state.tools@[i as int].0@);
        if text_eq(state.tools[i].0.as_str(), id.as_str()) {
            return Some(i);
        }
        i += 1;
    }
    None
}

proof fn lemma_key_index<K, V>(entries: Seq<(K, V)>, key: K)
    ensures
        match key_index(entries, key) {
            Some(i) => 0 <= i < entries.len() && entries[i].0 == key && forall|j: int|
                0 <= j < i ==> entries[j].0 != key,
            None => forall|j: int| 0 <= j < entries.len() ==> entries[j].0 != key,
        },
    decreases entries.len(),
{
    if entries.len() > 0 {
        lemma_key_index(entries.drop_first(), key);
        if entries[0].0 != key {
            assert forall|j: int| 1 <= j < entries.len() implies entries[j] == entries.drop_first()[j - 1] by {}
        }
    }
}

proof fn lemma_remove_insert<T>(s: Seq<T>, i: int, x: T)
    requires
        0 <= i < s.len(),
    ensures
        s.remove(i).insert(i, x) == s.update(i, x),
{
    assert(s.remove(i).insert(i, x) =~= s.update(i, x));
}

proof fn lemma_tools_view_update(tools: Seq<(String, ToolState)>, i: int, e: (String, ToolState))
    requires
        0 <= i < tools.len(),
    ensures
        tools_view(tools.update(i, e)) == tools_view(tools).update(i, (e.0@, tool_view(e.1))),
{
    assert(tools_view(tools.update(i, e)) =~= tools_view(tools).update(i, (e.0@, tool_view(e.1))));
}

/// Replaces the tool at `i`, keeping its id.
fn replace_tool(state: &mut AppState, i: usize, tool: ToolState)
    requires
        i < old(state).tools@.len(),
    ensures
        app_view(*final(state)) == (AppView {
            tools: app_view(*old(state)).tools.update(
                i as int,
                (app_view(*old(state)).tools[i as int].0, tool_view(tool)),
            ),
            ..app_view(*old(state))
        }),
{
    let ghost before = state.tools@;
    let (id, _) = state.tools.remove(i);
    let ghost entry = (id, tool);
    state.tools.insert(i, (id, tool));
    proof {
        lemma_remove_insert(before, i as int, entry);
        lemma_tools_view_update(before, i as int, entry);
    }
}

/// Applies a session event to the state.
pub fn reduce_session(state: &mut AppState, event: AgentEvent)
    ensures
        app_view(*final(state)) == after_session_event(app_view(*old(state)), event),
{
    let ghost ev = event;
    let ghost before_view = app_view(*state);
    match event {
        AgentEvent::AgentStart { .. } => {
            state.status = SessionStatus::Running;
            assert(app_view(*state) == after_session_event(before_view, ev));
        },
        AgentEvent::MessageStart { message_id, message } => {
            match message {
                Message::Assistant(_) => {
                    clear_partial(state);
                    state.partial_id = Some(message_id);
                    assert(app_view(*state) == after_session_event(before_view, ev));
                },
                _ => {},
            }
        },
        AgentEvent::MessageUpdate { message_id, delta, .. } => {
            if is_streaming(state, &message_id) {
                match delta {
                    MessageDelta::Thinking(t) => push_str(&mut state.thinking, t.as_str()),
                    MessageDelta::ToolCallInput(t) => push_str(&mut state.tool_call_input, t.as_str()),
                    MessageDelta::Text(t) => push_str(&mut state.partial, t.as_str()),
                    MessageDelta::Content(_) => {},
                }
            }
            assert(app_view(*state) == after_session_event(before_view, ev));
        },
        AgentEvent::MessageEnd { message_id, message } => {
            if is_streaming(state, &message_id) {
                clear_partial(state);
            }
            state.messages.push(message);
            assert(app_view(*state) == after_session_event(before_view, ev));
        },
        AgentEvent::ToolExecutionStart { id, name, input } => {
            let ghost before = app_view(*state);
            let tool = ToolState {
                name,
                status: String::from_str("running"),
                input,
                update: None,
                result: None,
                is_error: false,
            };
            proof {
                lemma_key_index(before.tools, id@);
            }
            match tool_position(state, &id) {
                Some(i) => {
                    replace_tool(state, i, tool);
                    proof {
                        let k = choose|k: int|
                            0 <= k < before.tools.len() && before.tools[k].0 == id@ && forall|j: int|
                                0 <= j < k ==> before.tools[j].0 != id@;
                        assert(k == i);
                    }
                },
                None => {
                    let ghost old_tools = state.tools@;
                    state.tools.push((id, tool));
                    assert(tools_view(state.tools@) =~= tools_view(old_tools).push(
                        (id@, tool_view(tool)),
                    ));
                },
            }
            assert(app_view(*state) == after_session_event(before_view, ev));
        },
        AgentEvent::ToolExecutionUpdate { id, update } => {
            match tool_position(state, &id) {
                Some(i) => {
                    let ghost before = state.tools@;
                    proof {
                        lemma_key_index(before_view.tools, id@);
                    }
                    assert(before_view.tools[i as int] == (before[i as int].0@, tool_view(before[i as int].1)));
                    let (key, old_tool) = state.tools.remove(i);
                    assert(key == before[i as int].0 && old_tool == before[i as int].1);
                    let tool = ToolState {
                        name: old_tool.name,
                        status: String::from_str("updating"),
                        input: old_tool.input,
                        update: Some(update),
                        result: old_tool.result,
                        is_error: old_tool.is_error,
                    };
                    let ghost entry = (key, tool);
                    state.tools.insert(i, (key, tool));
                    proof {
                        lemma_remove_insert(before, i as int, entry);
                        lemma_tools_view_update(before, i as int, entry);
                    }
                },
                None => {},
            }
            assert(app_view(*state) == after_session_event(before_view, ev));
        },
        AgentEvent::ToolExecutionEnd { id, result, is_error, .. } => {
            match tool_position(state, &id) {
                Some(i) => {
                    let ghost before = state.tools@;
                    proof {
                        lemma_key_index(before_view.tools, id@);
                    }
                    assert(before_view.tools[i as int] == (before[i as int].0@, tool_view(before[i as int].1)));
                    let (key, old_tool) = state.tools.remove(i);
                    assert(key == before[i as int].0 && old_tool == before[i as int].1);
                    let tool = ToolState {
                        name: old_tool.name,
                        status: if is_error {
                            String::from_str("error")
                        } else {
                            String::from_str("done")
                        },
                        input: old_tool.input,
                        update: old_tool.update,
                        result: Some(result),
                        is_error,
                    };
                    let ghost entry = (key, tool);
                    state.tools.insert(i, (key, tool));
                    proof {
                        lemma_remove_insert(before, i as int, entry);
                        lemma_tools_view_update(before, i as int, entry);
                    }
                },
                None => {},
            }
            assert(app_view(*state) == after_session_event(before_view, ev));
        },
        AgentEvent::AgentSettled { .. } => {
            state.status = SessionStatus::Idle;
            assert(app_view(*state) == after_session_event(before_view, ev));
        },
        AgentEvent::SessionFatal { error } => {
            state.status = SessionStatus::Fatal;
            state.partial_unpersisted = !state.partial.as_str().is_empty();
            state.fatal_error = Some(error);
            interrupt_tools(state);
            assert(app_view(*state) == after_session_event(before_view, ev));
        },
        AgentEvent::SessionShutdown => {
            if state.status != SessionStatus::Fatal {
                state.status = SessionStatus::Closed;
            }
            assert(app_view(*state) == after_session_event(before_view, ev));
        },
        _ => {
            assert(app_view(*state) == after_session_event(before_view, ev));
        },
    }
}

fn interrupt_tools(state: &mut AppState)
    ensures
        app_view(*final(state)) == (AppView {
            tools: interrupted(app_view(*old(state)).tools),
            ..app_view(*old(state))
        }),
{
    let ghost start = app_view(*state);
    let mut i: usize = 0;
    while i < state.tools.len()
        invariant
            i <= state.tools@.len(),
            state.tools@.len() == start.tools.len(),
            app_view(*state) == (AppView { tools: app_view(*state).tools, ..start }),
            forall|k: int| 0 <= k < i ==> #[trigger] app_view(*state).tools[k] == interrupted(start.tools)[k],
            forall|k: int| i <= k < start.tools.len() ==> #[trigger] app_view(*state).tools[k] == start.tools[k],
        decreases state.tools@.len() - i,
    {
        let busy = text_eq(state.tools[i].1.status.as_str(), "running") || text_eq(
            state.tools[i].1.status.as_str(),
            "updating",
        );
        assert(app_view(*state).tools[i as int] == start.tools[i as int]);
        assert(tools_view(state.tools@)[i as int] == (state.tools@[i as int].0@, tool_view(state.tools@[i as int].1)));
        if busy {
            let ghost before = state.tools@;
            let (key, old_tool) = state.tools.remove(i);
            let tool = ToolState {
                name: old_tool.name,
                status: String::from_str("interrupted"),
                input: old_tool.input,
                update: old_tool.update,
                result: old_tool.result,
                is_error: old_tool.is_error,
            };
            let ghost entry = (key, tool);
            state.tools.insert(i, (key, tool));
            proof {
                lemma_remove_insert(before, i as int, entry);
                lemma_tools_view_update(before, i as int, entry);
            }
        }
        assert(app_view(*state).tools[i as int] == interrupted(start.tools)[i as int]);
        i += 1;
    }
    assert(app_view(*state).tools =~= interrupted(start.tools));
}

/// A dialog result as text and values.
pub enum DialogShown {
    Selected(Option<Seq<char>>),
    Confirmed(bool),
    Input(Option<Seq<char>>),
    Edited(Option<Seq<char>>),
}

pub open spec fn shown_result(r: DialogResult) -> DialogShown {
    match r {
        DialogResult::Selected(v) => DialogShown::Selected(crate::text::opt_string_view(v)),
        DialogResult::Confirmed(b) => DialogShown::Confirmed(b),
        DialogResult::Input(v) => DialogShown::Input(crate::text::opt_string_view(v)),
        DialogResult::Edited(v) => DialogShown::Edited(crate::text::opt_string_view(v)),
    }
}

/// The result of a dialog dismissed with escape: nothing chosen, not
/// confirmed, nothing entered.
pub open spec fn spec_cancelled(d: DialogRequest) -> DialogShown {
    match d {
        DialogRequest::Select { .. } => DialogShown::Selected(None),
        DialogRequest::Confirm { .. } => DialogShown::Confirmed(false),
        DialogRequest::Input { .. } => DialogShown::Input(None),
        DialogRequest::Editor { .. } => DialogShown::Edited(None),
    }
}

pub fn cancelled_dialog(dialog: &DialogRequest) -> (r: DialogResult)
    ensures
        shown_result(r) == spec_cancelled(*dialog),
{
    match dialog {
        DialogRequest::Select { .. } => DialogResult::Selected(None),
        DialogRequest::Confirm { .. } => DialogResult::Confirmed(false),
        DialogRequest::Input { .. } => DialogResult::Input(None),
        DialogRequest::Editor { .. } => DialogResult::Edited(None),
    }
}

pub open spec fn pressed(kind: KeyKind) -> bool {
    kind == KeyKind::Press || kind == KeyKind::Repeat
}

pub open spec fn with_text(d: DialogView, text: Seq<char>, cursor: int) -> DialogView {
    (d.0, d.1, text, cursor as usize, d.4)
}

pub open spec fn with_cursor(d: DialogView, cursor: int) -> DialogView {
    (d.0, d.1, d.2, cursor as usize, d.4)
}

/// A dialog after an input event, and its result when the event ends it:
/// escape cancels; selection moves with up and down and ends with enter;
/// confirmation takes `y` or enter for yes and `n` for no; text entry edits
/// like the editor (shift-enter adds a line in the multi-line editor) and ends
/// with enter; pasted and typed text goes in at the cursor.
pub open spec fn after_dialog_input(d: DialogView, event: InputEvent) -> (DialogView, Option<DialogShown>) {
    match event {
        InputEvent::Key(key) => if !pressed(key.kind) {
            (d, None)
        } else if key.code == KeyCode::Esc {
            (d, Some(spec_cancelled(d.1)))
        } else {
            match d.1 {
                DialogRequest::Select { options, .. } => match key.code {
                    KeyCode::Up => ((d.0, d.1, d.2, d.3, if d.4 > 0 {
                        (d.4 - 1) as usize
                    } else {
                        0
                    }), None),
                    KeyCode::Down => {
                        let last = if options@.len() > 0 {
                            options@.len() - 1
                        } else {
                            0
                        };
                        ((d.0, d.1, d.2, d.3, crate::editing::min(d.4 + 1, last) as usize), None)
                    },
                    KeyCode::Enter => (
                        d,
                        Some(
                            DialogShown::Selected(
                                if d.4 < options@.len() {
                                    Some(options@[d.4 as int]@)
                                } else {
                                    None
                                },
                            ),
                        ),
                    ),
                    _ => (d, None),
                },
                DialogRequest::Confirm { .. } => match key.code {
                    KeyCode::Char(c) => if c == 'y' || c == 'Y' {
                        (d, Some(DialogShown::Confirmed(true)))
                    } else if c == 'n' || c == 'N' {
                        (d, Some(DialogShown::Confirmed(false)))
                    } else {
                        (d, None)
                    },
                    KeyCode::Enter => (d, Some(DialogShown::Confirmed(true))),
                    _ => (d, None),
                },
                _ => match key.code {
                    KeyCode::Enter => if d.1 is Editor && key.modifiers.shift {
                        (with_text(d, inserted_at(d.2, d.3 as int, seq!['\n']), d.3 + 1), None)
                    } else if d.1 is Input {
                        (d, Some(DialogShown::Input(Some(d.2))))
                    } else {
                        (d, Some(DialogShown::Edited(Some(d.2))))
                    },
                    KeyCode::Char(ch) => if !key.modifiers.ctrl {
                        (with_text(d, inserted_at(d.2, d.3 as int, seq![ch]), d.3 + 1), None)
                    } else {
                        (d, None)
                    },
                    KeyCode::Backspace => if d.3 == 0 {
                        (d, None)
                    } else {
                        (with_text(d, d.2.remove(d.3 - 1), d.3 - 1), None)
                    },
                    KeyCode::Delete => if d.3 < d.2.len() {
                        (with_text(d, d.2.remove(d.3 as int), d.3 as int), None)
                    } else {
                        (d, None)
                    },
                    KeyCode::Left => (with_cursor(d, if d.3 > 0 {
                        d.3 - 1
                    } else {
                        0
                    }), None),
                    KeyCode::Right => (with_cursor(d, crate::editing::min(d.3 + 1, d.2.len() as int)), None),
                    KeyCode::Up => (with_cursor(d, moved_vertically(d.2, d.3 as int, true)), None),
                    KeyCode::Down => (with_cursor(d, moved_vertically(d.2, d.3 as int, false)), None),
                    _ => (d, None),
                },
            }
        },
        InputEvent::Paste(t) | InputEvent::Text(t) => (
            with_text(d, inserted_at(d.2, d.3 as int, t@), d.3 + t@.len()),
            None,
        ),
        _ => (d, None),
    }
}

pub open spec fn pending_view(p: PendingDialog) -> DialogView {
    (p.request, p.dialog, p.text@, p.cursor, p.selected)
}

/// Texts the event would insert fit with the cursor in a `usize`.
pub open spec fn insert_fits(cursor: usize, event: InputEvent) -> bool {
    match event {
        InputEvent::Paste(t) | InputEvent::Text(t) => cursor + t@.len() <= usize::MAX,
        _ => cursor < usize::MAX,
    }
}

/// Applies an input event to an open dialog; the result ends it.
pub fn handle_dialog(dialog: &mut PendingDialog, event: &InputEvent) -> (r: Option<DialogResult>)
    requires
        old(dialog).cursor <= old(dialog).text@.len(),
        insert_fits(old(dialog).cursor, *event),
    ensures
        pending_view(*final(dialog)) == after_dialog_input(pending_view(*old(dialog)), *event).0,
        match r {
            Some(res) => after_dialog_input(pending_view(*old(dialog)), *event).1 == Some(shown_result(res)),
            None => after_dialog_input(pending_view(*old(dialog)), *event).1 is None,
        },
        final(dialog).cursor <= final(dialog).text@.len(),
{
    let key = match event {
        InputEvent::Key(key) => *key,
        InputEvent::Paste(text) | InputEvent::Text(text) => {
            insert_text(&mut dialog.text, &mut dialog.cursor, text.as_str());
            return None;
        },
        _ => return None,
    };
    if !(key.kind == KeyKind::Press || key.kind == KeyKind::Repeat) {
        return None;
    }
    if key.code == KeyCode::Esc {
        return Some(cancelled_dialog(&dialog.dialog));
    }
    match &dialog.dialog {
        DialogRequest::Select { options, .. } => match key.code {
            KeyCode::Up => {
                dialog.selected = if dialog.selected > 0 {
                    dialog.selected - 1
                } else {
                    0
                };
            },
            KeyCode::Down => {
                let last = if options.len() > 0 {
                    options.len() - 1
                } else {
                    0
                };
                dialog.selected = if dialog.selected < last {
                    dialog.selected + 1
                } else {
                    last
                };
            },
            KeyCode::Enter => {
                let chosen = if dialog.selected < options.len() {
                    Some(options[dialog.selected].clone())
                } else {
                    None
                };
                return Some(DialogResult::Selected(chosen));
            },
            _ => {},
        },
        DialogRequest::Confirm { .. } => match key.code {
            KeyCode::Char(c) => {
                if c == 'y' || c == 'Y' {
                    return Some(DialogResult::Confirmed(true));
                } else if c == 'n' || c == 'N' {
                    return Some(DialogResult::Confirmed(false));
                }
            },
            KeyCode::Enter => return Some(DialogResult::Confirmed(true)),
            _ => {},
        },
        _ => {
            let editor = match &dialog.dialog {
                DialogRequest::Editor { .. } => true,
                _ => false,
            };
            match key.code {
                KeyCode::Enter => {
                    if editor && key.modifiers.shift {
                        proof {
                            reveal_strlit("\n");
                        }
                        insert_text(&mut dialog.text, &mut dialog.cursor, "\n");
                    } else if editor {
                        return Some(DialogResult::Edited(Some(dialog.text.clone())));
                    } else {
                        return Some(DialogResult::Input(Some(dialog.text.clone())));
                    }
                },
                KeyCode::Char(ch) => {
                    if !key.modifiers.ctrl {
                        let mut t = String::new();
                        crate::text::push_char(&mut t, ch);
                        insert_text(&mut dialog.text, &mut dialog.cursor, t.as_str());
                    }
                },
                KeyCode::Backspace => backspace(&mut dialog.text, &mut dialog.cursor),
                KeyCode::Delete => delete(&mut dialog.text, dialog.cursor),
                KeyCode::Left => {
                    dialog.cursor = if dialog.cursor > 0 {
                        dialog.cursor - 1
                    } else {
                        0
                    };
                },
                KeyCode::Right => {
                    let n = crate::text::chars_of(dialog.text.as_str()).len();
                    dialog.cursor = if dialog.cursor < n {
                        dialog.cursor + 1
                    } else {
                        n
                    };
                },
                KeyCode::Up => move_vertical(dialog.text.as_str(), &mut dialog.cursor, -1),
                KeyCode::Down => move_vertical(dialog.text.as_str(), &mut dialog.cursor, 1),
                _ => {},
            }
        },
    }
    None
}

#[derive(Debug, PartialEq, Eq)]
pub enum Effect {
    Session(SessionCommand),
    UiReply(RequestId, UiReply),
    SetTitle(String),
    Exit,
}

/// The first overlay with this handle and generation.
pub open spec fn overlay_index(overlays: Seq<OverlayView>, id: OverlayId, generation: Generation) -> Option<int>
    decreases overlays.len(),
{
    if overlays.len() == 0 {
        None
    } else if overlays[0].1 == id && overlays[0].2 == generation {
        Some(0)
    } else {
        match overlay_index(overlays.drop_first(), id, generation) {
            Some(i) => Some(i + 1),
            None => None,
        }
    }
}

proof fn lemma_overlay_index(overlays: Seq<OverlayView>, id: OverlayId, generation: Generation)
    ensures
        overlay_index(overlays, id, generation) matches Some(i) ==> 0 <= i < overlays.len(),
    decreases overlays.len(),
{
    if overlays.len() > 0 {
        lemma_overlay_index(overlays.drop_first(), id, generation);
    }
}

/// The overlays after an action on the overlay at `i`: hide removes it,
/// `SetHidden` sets its flag, focus moves it on top, unfocus moves it one step
/// down.
pub open spec fn overlay_acted(o: Seq<OverlayView>, i: int, action: OverlayAction) -> Seq<OverlayView> {
    match action {
        OverlayAction::Hide => o.remove(i),
        OverlayAction::SetHidden(h) => o.update(i, (o[i].0, o[i].1, o[i].2, o[i].3, h, o[i].5)),
        OverlayAction::Focus => o.remove(i).push(o[i]),
        OverlayAction::Unfocus => if i > 0 {
            o.update(i, o[i - 1]).update(i - 1, o[i])
        } else {
            o
        },
        OverlayAction::Show { .. } => o,
    }
}

/// The bindings and conflicts after binding `entries` (command, key) in
/// order: a key bound twice keeps the later command and records a conflict
/// `key: earlier, later`.
pub open spec fn bound(entries: Seq<(Seq<char>, Seq<char>)>) -> (Seq<(Seq<char>, Seq<char>)>, Seq<Seq<char>>)
    decreases entries.len(),
{
    if entries.len() == 0 {
        (seq![], seq![])
    } else {
        let (kb, conflicts) = bound(entries.drop_last());
        let command = entries.last().0;
        let key = entries.last().1;
        let conflicts = match key_index(kb, key) {
            Some(i) => conflicts.push(key + ": "@ + kb[i].1 + ", "@ + command),
            None => conflicts,
        };
        (put_entry(kb, key, command), conflicts)
    }
}

/// `entries` without the first entry under `key`.
pub open spec fn without_key<K, V>(entries: Seq<(K, V)>, key: K) -> Seq<(K, V)> {
    match key_index(entries, key) {
        Some(i) => entries.remove(i),
        None => entries,
    }
}

pub open spec fn with_ui(v: AppView, ui: UiView) -> AppView {
    AppView { ui, ..v }
}

/// Keeps the newest 32 notifications.
pub open spec fn bounded_notifications(n: Seq<crate::ui_protocol::Notification>) -> Seq<crate::ui_protocol::Notification> {
    if n.len() > 32 {
        n.skip(n.len() - 32)
    } else {
        n
    }
}

/// The state after an extension's UI request: dialogs open, notifications
/// queue (newest 32 kept), contributions, renders and frames are stored per
/// extension and key, the editor is set or pasted into, overlays are shown or
/// acted on by handle, themes and keybindings replaced.
pub open spec fn after_ui(v: AppView, env: UiEnvelope) -> AppView {
    let ext = env.extension.0@;
    let ui = v.ui;
    match env.operation {
        UiOperation::Dialog(dialog) => {
            let text = match dialog {
                DialogRequest::Editor { prefill, .. } => prefill@,
                _ => seq![],
            };
            with_ui(v, UiView { dialog: Some((env.request, dialog, text, text.len() as usize, 0)), ..ui })
        },
        UiOperation::Notify(n) => with_ui(
            v,
            UiView { notifications: bounded_notifications(ui.notifications.push(n)), ..ui },
        ),
        UiOperation::Contribution(Contribution::Put { slot, key, content }) => with_ui(
            v,
            UiView {
                contributions: put_entry(ui.contributions, (ext, slot@, key@), content@),
                ..ui
            },
        ),
        UiOperation::Contribution(Contribution::Remove { slot, key }) => with_ui(
            v,
            UiView { contributions: without_key(ui.contributions, (ext, slot@, key@)), ..ui },
        ),
        UiOperation::Editor { text: Some(t) } => AppView {
            editor: t@,
            cursor: t@.len() as usize,
            ..v
        },
        UiOperation::Paste { text } => AppView {
            editor: inserted_at(v.editor, v.cursor as int, text@),
            cursor: (v.cursor + text@.len()) as usize,
            ..v
        },
        UiOperation::CustomEditor { content } => with_ui(
            v,
            UiView {
                custom_editor: match content {
                    Some(c) => Some((ext, v.editor, c@)),
                    None => None,
                },
                ..ui
            },
        ),
        UiOperation::Overlay { id, generation, action } => match action {
            OverlayAction::Show { content, capturing } => with_ui(
                v,
                UiView {
                    overlays: ui.overlays.push((ext, id, generation, content@, false, capturing)),
                    ..ui
                },
            ),
            _ => match overlay_index(ui.overlays, id, generation) {
                Some(i) => with_ui(v, UiView { overlays: overlay_acted(ui.overlays, i, action), ..ui }),
                None => v,
            },
        },
        UiOperation::Theme { generation } => with_ui(v, UiView { theme_generation: generation, ..ui }),
        UiOperation::Keybindings { entries } => {
            let (kb, conflicts) = bound(entries@.map_values(|e: (String, String)| (e.0@, e.1@)));
            with_ui(v, UiView { keybindings: kb, keybinding_conflicts: conflicts, ..ui })
        },
        UiOperation::Render { key, content } => with_ui(
            v,
            UiView {
                contributions: put_entry(ui.contributions, (ext, "render"@, key@), content@),
                ..ui
            },
        ),
        UiOperation::Frame { key, frame, cursor } => with_ui(
            v,
            UiView { frames: put_entry(ui.frames, (ext, key@), (frame, cursor)), ..ui },
        ),
        _ => v,
    }
}

/// What a UI request replies: nothing yet for a dialog and for requests the
/// terminal does not handle here, the editor's text when asked for it, a
/// stale handle for an overlay action on an unknown overlay, else an
/// acknowledgement; a title contribution also sets the terminal title.
pub open spec fn ui_effects(v: AppView, env: UiEnvelope, effects: Seq<Effect>) -> bool {
    let ack = seq![Effect::UiReply(env.request, UiReply::Ack)];
    match env.operation {
        UiOperation::Dialog(_) | UiOperation::Capabilities | UiOperation::TerminalInput { .. }
        | UiOperation::Clipboard { .. } | UiOperation::Unknown(_) => effects.len() == 0,
        UiOperation::Contribution(Contribution::Put { slot, content, .. }) => if slot@ == "title"@ {
            effects.len() == 2 && (effects[0] matches Effect::SetTitle(t) && t@ == content@)
                && effects[1] == Effect::UiReply(env.request, UiReply::Ack)
        } else {
            effects == ack
        },
        UiOperation::Editor { text: None } => effects.len() == 1 && (effects[0] matches Effect::UiReply(
            r,
            UiReply::Value(t),
        ) && r == env.request && t@ == v.editor),
        UiOperation::Overlay { id, generation, action } => if action is Show || overlay_index(
            v.ui.overlays,
            id,
            generation,
        ) is Some {
            effects == ack
        } else {
            effects == seq![Effect::UiReply(env.request, UiReply::StaleHandle)]
        },
        _ => effects == ack,
    }
}

fn ack(request: RequestId) -> (r: Vec<Effect>)
    ensures
        r@ == seq![Effect::UiReply(request, UiReply::Ack)],
{
    let mut r: Vec<Effect> = Vec::new();
    r.push(Effect::UiReply(request, UiReply::Ack));
    assert(r@ =~= seq![Effect::UiReply(request, UiReply::Ack)]);
    r
}

fn same_contribution_key(a: &(ExtensionId, String, String), b: &(ExtensionId, String, String)) -> (r: bool)
    ensures
        r == (contribution_key(*a) == contribution_key(*b)),
{
    text_eq(a.0.0.as_str(), b.0.0.as_str()) && text_eq(a.1.as_str(), b.1.as_str()) && text_eq(
        a.2.as_str(),
        b.2.as_str(),
    )
}

fn contribution_position(
    entries: &Vec<((ExtensionId, String, String), String)>,
    key: &(ExtensionId, String, String),
) -> (r: Option<usize>)
    ensures
        match r {
            Some(i) => key_index(
                entries@.map_values(|e: ((ExtensionId, String, String), String)| (contribution_key(e.0), e.1@)),
                contribution_key(*key),
            ) == Some(i as int) && i < entries@.len(),
            None => key_index(
                entries@.map_values(|e: ((ExtensionId, String, String), String)| (contribution_key(e.0), e.1@)),
                contribution_key(*key),
            ) is None,
        },
{
    let ghost view = entries@.map_values(
        |e: ((ExtensionId, String, String), String)| (contribution_key(e.0), e.1@),
    );
    let mut i: usize = 0;
    assert(view.skip(0) =~= view);
    while i < entries.len()
        invariant
            i <= entries@.len(),
            view == entries@.map_values(
                |e: ((ExtensionId, String, String), String)| (contribution_key(e.0), e.1@),
            ),
            key_index(view, contribution_key(*key)) == match key_index(
                view.skip(i as int),
                contribution_key(*key),
            ) {
                Some(k) => Some(k + i),
                None => None,
            },
        decreases entries@.len() - i,
    {
        assert(view.skip(i as int)[0] == view[i as int]);
        assert(view.skip(i as int).drop_first() =~= view.skip(i + 1));
        if same_contribution_key(&entries[i].0, key) {
            return Some(i);
        }
        i += 1;
    }
    None
}

/// Stores `content` under `key` among the contributions.
fn put_contribution(state: &mut AppState, key: (ExtensionId, String, String), content: String)
    ensures
        app_view(*final(state)) == with_ui(
            app_view(*old(state)),
            UiView {
                contributions: put_entry(
                    app_view(*old(state)).ui.contributions,
                    contribution_key(key),
                    content@,
                ),
                ..app_view(*old(state)).ui
            },
        ),
{
    let ghost before = app_view(*state).ui.contributions;
    proof {
        lemma_key_index(before, contribution_key(key));
    }
    match contribution_position(&state.ui.contributions, &key) {
        Some(i) => {
            let ghost old_entries = state.ui.contributions@;
            let ghost entry = (key, content);
            state.ui.contributions.set(i, (key, content));
            proof {
                let k = choose|k: int|
                    0 <= k < before.len() && before[k].0 == contribution_key(key) && forall|j: int|
                        0 <= j < k ==> before[j].0 != contribution_key(key);
                assert(k == i);
                assert(ui_view(state.ui).contributions =~= before.update(
                    i as int,
                    (contribution_key(key), content@),
                ));
            }
        },
        None => {
            let ghost old_entries = state.ui.contributions@;
            state.ui.contributions.push((key, content));
            assert(ui_view(state.ui).contributions =~= before.push((contribution_key(key), content@)));
        },
    }
}

/// Removes the contribution under `key`, if there is one.
fn remove_contribution(state: &mut AppState, key: (ExtensionId, String, String))
    ensures
        app_view(*final(state)) == with_ui(
            app_view(*old(state)),
            UiView {
                contributions: without_key(app_view(*old(state)).ui.contributions, contribution_key(key)),
                ..app_view(*old(state)).ui
            },
        ),
{
    let ghost before = app_view(*state).ui.contributions;
    match contribution_position(&state.ui.contributions, &key) {
        Some(i) => {
            let ghost old_entries = state.ui.contributions@;
            state.ui.contributions.remove(i);
            assert(ui_view(state.ui).contributions =~= before.remove(i as int));
        },
        None => {},
    }
}

fn frame_position(
    entries: &Vec<((ExtensionId, String), (SemanticFrame, Option<CursorAnchor>))>,
    extension: &ExtensionId,
    key: &String,
) -> (r: Option<usize>)
    ensures
        match r {
            Some(i) => key_index(
                entries@.map_values(
                    |e: ((ExtensionId, String), (SemanticFrame, Option<CursorAnchor>))| ((e.0.0.0@, e.0.1@), e.1),
                ),
                (extension.0@, key@),
            ) == Some(i as int) && i < entries@.len(),
            None => key_index(
                entries@.map_values(
                    |e: ((ExtensionId, String), (SemanticFrame, Option<CursorAnchor>))| ((e.0.0.0@, e.0.1@), e.1),
                ),
                (extension.0@, key@),
            ) is None,
        },
{
    let ghost view = entries@.map_values(
        |e: ((ExtensionId, String), (SemanticFrame, Option<CursorAnchor>))| ((e.0.0.0@, e.0.1@), e.1),
    );
    let mut i: usize = 0;
    assert(view.skip(0) =~= view);
    while i < entries.len()
        invariant
            i <= entries@.len(),
            view == entries@.map_values(
                |e: ((ExtensionId, String), (SemanticFrame, Option<CursorAnchor>))| ((e.0.0.0@, e.0.1@), e.1),
            ),
            key_index(view, (extension.0@, key@)) == match key_index(view.skip(i as int), (extension.0@, key@)) {
                Some(k) => Some(k + i),
                None => None,
            },
        decreases entries@.len() - i,
    {
        assert(view.skip(i as int)[0] == view[i as int]);
        assert(view.skip(i as int).drop_first() =~= view.skip(i + 1));
        if text_eq(entries[i].0.0.0.as_str(), extension.0.as_str()) && text_eq(
            entries[i].0.1.as_str(),
            key.as_str(),
        ) {
            return Some(i);
        }
        i += 1;
    }
    None
}

fn put_frame(
    state: &mut AppState,
    extension: ExtensionId,
    key: String,
    frame: SemanticFrame,
    cursor: Option<CursorAnchor>,
)
    ensures
        app_view(*final(state)) == with_ui(
            app_view(*old(state)),
            UiView {
                frames: put_entry(app_view(*old(state)).ui.frames, (extension.0@, key@), (frame, cursor)),
                ..app_view(*old(state)).ui
            },
        ),
{
    let ghost before = app_view(*state).ui.frames;
    proof {
        lemma_key_index(before, (extension.0@, key@));
    }
    match frame_position(&state.ui.frames, &extension, &key) {
        Some(i) => {
            let ghost k_view = (extension.0@, key@);
            state.ui.frames.set(i, ((extension, key), (frame, cursor)));
            proof {
                let k = choose|k: int|
                    0 <= k < before.len() && before[k].0 == k_view && forall|j: int|
                        0 <= j < k ==> before[j].0 != k_view;
                assert(k == i);
                assert(ui_view(state.ui).frames =~= before.update(i as int, (k_view, (frame, cursor))));
            }
        },
        None => {
            let ghost k_view = (extension.0@, key@);
            state.ui.frames.push(((extension, key), (frame, cursor)));
            assert(ui_view(state.ui).frames =~= before.push((k_view, (frame, cursor))));
        },
    }
}

fn keybinding_position(bindings: &Vec<(String, CommandId)>, key: &String) -> (r: Option<usize>)
    ensures
        match r {
            Some(i) => key_index(bindings@.map_values(|e: (String, CommandId)| (e.0@, e.1.0@)), key@) == Some(
                i as int,
            ) && i < bindings@.len(),
            None => key_index(bindings@.map_values(|e: (String, CommandId)| (e.0@, e.1.0@)), key@) is None,
        },
{
    let ghost view = bindings@.map_values(|e: (String, CommandId)| (e.0@, e.1.0@));
    let mut i: usize = 0;
    assert(view.skip(0) =~= view);
    while i < bindings.len()
        invariant
            i <= bindings@.len(),
            view == bindings@.map_values(|e: (String, CommandId)| (e.0@, e.1.0@)),
            key_index(view, key@) == match key_index(view.skip(i as int), key@) {
                Some(k) => Some(k + i),
                None => None,
            },
        decreases bindings@.len() - i,
    {
        assert(view.skip(i as int)[0] == view[i as int]);
        assert(view.skip(i as int).drop_first() =~= view.skip(i + 1));
        if text_eq(bindings[i].0.as_str(), key.as_str()) {
            return Some(i);
        }
        i += 1;
    }
    None
}

/// Replaces the keybindings by `entries` (command, key) and records conflicts.
fn bind_keys(state: &mut AppState, entries: Vec<(String, String)>)
    ensures
        ({
            let (kb, conflicts) = bound(entries@.map_values(|e: (String, String)| (e.0@, e.1@)));
            app_view(*final(state)) == with_ui(
                app_view(*old(state)),
                UiView { keybindings: kb, keybinding_conflicts: conflicts, ..app_view(*old(state)).ui },
            )
        }),
{
    let ghost start = app_view(*state);
    let ghost texts = entries@.map_values(|e: (String, String)| (e.0@, e.1@));
    state.ui.keybindings = Vec::new();
    state.ui.keybinding_conflicts = Vec::new();
    let mut i: usize = 0;
    proof {
        assert(texts.take(0) =~= seq![]);
        assert(app_view(*state).ui.keybindings =~= seq![]);
        assert(app_view(*state).ui.keybinding_conflicts =~= seq![]);
    }
    while i < entries.len()
        invariant
            i <= entries@.len(),
            texts == entries@.map_values(|e: (String, String)| (e.0@, e.1@)),
            app_view(*state) == with_ui(
                start,
                UiView {
                    keybindings: bound(texts.take(i as int)).0,
                    keybinding_conflicts: bound(texts.take(i as int)).1,
                    ..start.ui
                },
            ),
        decreases entries@.len() - i,
    {
        let command = &entries[i].0;
        let key = &entries[i].1;
        let ghost prefix = texts.take(i as int);
        let ghost kb = bound(prefix).0;
        assert(texts.take(i + 1).drop_last() =~= prefix);
        assert(texts.take(i + 1).last() == (command@, key@));
        proof {
            lemma_key_index(kb, key@);
        }
        match keybinding_position(&state.ui.keybindings, key) {
            Some(k) => {
                let mut line = key.clone();
                push_str(&mut line, ": ");
                push_str(&mut line, state.ui.keybindings[k].1.0.as_str());
                push_str(&mut line, ", ");
                push_str(&mut line, command.as_str());
                let ghost before = state.ui.keybinding_conflicts@;
                state.ui.keybinding_conflicts.push(line);
                assert(app_view(*state).ui.keybinding_conflicts =~= bound(prefix).1.push(
                    key@ + ": "@ + kb[k as int].1 + ", "@ + command@,
                ));
                state.ui.keybindings.set(k, (key.clone(), CommandId(command.clone())));
                proof {
                    let j = choose|j: int|
                        0 <= j < kb.len() && kb[j].0 == key@ && forall|m: int| 0 <= m < j ==> kb[m].0 != key@;
                    assert(j == k);
                    assert(app_view(*state).ui.keybindings =~= kb.update(k as int, (key@, command@)));
                }
            },
            None => {
                state.ui.keybindings.push((key.clone(), CommandId(command.clone())));
                assert(app_view(*state).ui.keybindings =~= kb.push((key@, command@)));
            },
        }
        i += 1;
    }
    assert(texts.take(entries@.len() as int) =~= texts);
}

fn overlay_position(overlays: &Vec<OverlayState>, id: OverlayId, generation: Generation) -> (r: Option<usize>)
    ensures
        match r {
            Some(i) => overlay_index(overlays@.map_values(|o: OverlayState| overlay_view(o)), id, generation)
                == Some(i as int) && i < overlays@.len(),
            None => overlay_index(overlays@.map_values(|o: OverlayState| overlay_view(o)), id, generation) is None,
        },
{
    let ghost view = overlays@.map_values(|o: OverlayState| overlay_view(o));
    let mut i: usize = 0;
    assert(view.skip(0) =~= view);
    while i < overlays.len()
        invariant
            i <= overlays@.len(),
            view == overlays@.map_values(|o: OverlayState| overlay_view(o)),
            overlay_index(view, id, generation) == match overlay_index(view.skip(i as int), id, generation) {
                Some(k) => Some(k + i),
                None => None,
            },
        decreases overlays@.len() - i,
    {
        assert(view.skip(i as int)[0] == view[i as int]);
        assert(view.skip(i as int).drop_first() =~= view.skip(i + 1));
        if overlays[i].id == id && overlays[i].generation == generation {
            return Some(i);
        }
        i += 1;
    }
    None
}

/// Applies an overlay action to the overlay at `i`.
fn act_on_overlay(state: &mut AppState, i: usize, action: OverlayAction)
    requires
        i < old(state).ui.overlays@.len(),
        !(action is Show),
    ensures
        app_view(*final(state)) == with_ui(
            app_view(*old(state)),
            UiView {
                overlays: overlay_acted(app_view(*old(state)).ui.overlays, i as int, action),
                ..app_view(*old(state)).ui
            },
        ),
{
    let ghost before = app_view(*state).ui.overlays;
    let ghost entries = state.ui.overlays@;
    match action {
        OverlayAction::Hide => {
            state.ui.overlays.remove(i);
            assert(app_view(*state).ui.overlays =~= before.remove(i as int));
        },
        OverlayAction::SetHidden(hidden) => {
            let overlay = state.ui.overlays.remove(i);
            let changed = OverlayState {
                extension: overlay.extension,
                id: overlay.id,
                generation: overlay.generation,
                content: overlay.content,
                hidden,
                capturing: overlay.capturing,
            };
            state.ui.overlays.insert(i, changed);
            assert(app_view(*state).ui.overlays =~= before.update(
                i as int,
                (before[i as int].0, before[i as int].1, before[i as int].2, before[i as int].3, hidden, before[i as int].5),
            ));
        },
        OverlayAction::Focus => {
            let overlay = state.ui.overlays.remove(i);
            state.ui.overlays.push(overlay);
            assert(app_view(*state).ui.overlays =~= before.remove(i as int).push(before[i as int]));
        },
        OverlayAction::Unfocus => {
            if i > 0 {
                let overlay = state.ui.overlays.remove(i);
                state.ui.overlays.insert(i - 1, overlay);
                assert(app_view(*state).ui.overlays =~= before.update(i as int, before[i - 1]).update(
                    i - 1,
                    before[i as int],
                ));
            }
        },
        OverlayAction::Show { .. } => {},
    }
}

/// Applies an extension's UI request and returns the replies and effects it
/// needs.
pub fn reduce_ui(state: &mut AppState, envelope: UiEnvelope) -> (r: Vec<Effect>)
    requires
        envelope.operation matches UiOperation::Paste { text } ==> old(state).cursor + text@.len()
            <= usize::MAX,
    ensures
        app_view(*final(state)) == after_ui(app_view(*old(state)), envelope),
        ui_effects(app_view(*old(state)), envelope, r@),
{
    let ghost env = envelope;
    let ghost v = app_view(*state);
    let request = envelope.request;
    let extension = envelope.extension;
    match envelope.operation {
        UiOperation::Dialog(dialog) => {
            let text = match &dialog {
                DialogRequest::Editor { prefill, .. } => prefill.clone(),
                _ => String::new(),
            };
            let cursor = crate::text::chars_of(text.as_str()).len();
            state.ui.dialog = Some(PendingDialog { request, cursor, text, selected: 0, dialog });
            Vec::new()
        },
        UiOperation::Notify(notification) => {
            state.ui.notifications.push(notification);
            while state.ui.notifications.len() > 32
                invariant
                    app_view(*state) == with_ui(
                        v,
                        UiView { notifications: app_view(*state).ui.notifications, ..v.ui },
                    ),
                    bounded_notifications(app_view(*state).ui.notifications) == bounded_notifications(
                        v.ui.notifications.push(notification),
                    ),
                decreases state.ui.notifications@.len(),
            {
                let ghost before = state.ui.notifications@;
                state.ui.notifications.remove(0);
                assert(before.skip(before.len() - 32) =~= before.remove(0).skip(before.len() - 1 - 32));
                assert(before.remove(0).len() > 32 ==> before.remove(0).skip(before.remove(0).len() - 32)
                    =~= before.skip(before.len() - 32));
                assert(before.remove(0).len() == 32 ==> before.remove(0) =~= before.skip(before.len() - 32));
            }
            ack(request)
        },
        UiOperation::Contribution(Contribution::Put { slot, key, content }) => {
            let title = text_eq(slot.as_str(), "title");
            if title {
                let copy = content.clone();
                put_contribution(state, (extension, slot, key), content);
                let mut effects: Vec<Effect> = Vec::new();
                effects.push(Effect::SetTitle(copy));
                effects.push(Effect::UiReply(request, UiReply::Ack));
                effects
            } else {
                put_contribution(state, (extension, slot, key), content);
                ack(request)
            }
        },
        UiOperation::Contribution(Contribution::Remove { slot, key }) => {
            remove_contribution(state, (extension, slot, key));
            ack(request)
        },
        UiOperation::Editor { text: Some(text) } => {
            state.cursor = crate::text::chars_of(text.as_str()).len();
            state.editor = text;
            ack(request)
        },
        UiOperation::Editor { text: None } => {
            let mut effects: Vec<Effect> = Vec::new();
            effects.push(Effect::UiReply(request, UiReply::Value(state.editor.clone())));
            effects
        },
        UiOperation::Paste { text } => {
            state.insert_text(text.as_str());
            ack(request)
        },
        UiOperation::CustomEditor { content } => {
            state.ui.custom_editor = match content {
                Some(c) => Some((extension, state.editor.clone(), c)),
                None => None,
            };
            ack(request)
        },
        UiOperation::Overlay { id, generation, action } => {
            match action {
                OverlayAction::Show { content, capturing } => {
                    state.ui.overlays.push(
                        OverlayState { extension, id, generation, content, hidden: false, capturing },
                    );
                    assert(app_view(*state).ui.overlays =~= v.ui.overlays.push(
                        (env.extension.0@, id, generation, content@, false, capturing),
                    ));
                    ack(request)
                },
                _ => match overlay_position(&state.ui.overlays, id, generation) {
                    Some(i) => {
                        act_on_overlay(state, i, action);
                        ack(request)
                    },
                    None => {
                        let mut effects: Vec<Effect> = Vec::new();
                        effects.push(Effect::UiReply(request, UiReply::StaleHandle));
                        effects
                    },
                },
            }
        },
        UiOperation::Theme { generation } => {
            state.ui.theme_generation = generation;
            ack(request)
        },
        UiOperation::Keybindings { entries } => {
            bind_keys(state, entries);
            ack(request)
        },
        UiOperation::Render { key, content } => {
            put_contribution(state, (extension, String::from_str("render"), key), content);
            ack(request)
        },
        UiOperation::Frame { key, frame, cursor } => {
            put_frame(state, extension, key, frame, cursor);
            ack(request)
        },
        _ => Vec::new(),
    }
}

/// The topmost overlay that is visible and captures input.
pub open spec fn last_capturing(o: Seq<OverlayView>) -> Option<int>
    decreases o.len(),
{
    if o.len() == 0 {
        None
    } else if !o.last().4 && o.last().5 {
        Some(o.len() - 1)
    } else {
        last_capturing(o.drop_last())
    }
}

proof fn lemma_last_capturing(o: Seq<OverlayView>)
    ensures
        last_capturing(o) matches Some(i) ==> 0 <= i < o.len(),
    decreases o.len(),
{
    if o.len() > 0 {
        lemma_last_capturing(o.drop_last());
    }
}

/// The state after a bound command: `input.newline` adds a line, the page
/// commands scroll the transcript by ten rows.
pub open spec fn after_command(v: AppView, command: Seq<char>) -> AppView {
    if command == "input.newline"@ {
        AppView { editor: inserted_at(v.editor, v.cursor as int, seq!['\n']), cursor: (v.cursor + 1) as usize, ..v }
    } else if command == "transcript.page-up"@ {
        AppView { follow: false, scroll: v.scroll.saturating_sub(10), ..v }
    } else if command == "transcript.page-down"@ {
        AppView { scroll: v.scroll.saturating_add(10), ..v }
    } else {
        v
    }
}

/// The effects of a bound command: `app.exit` exits, `app.interrupt` aborts a
/// running session.
pub open spec fn command_effects(v: AppView, command: Seq<char>) -> Seq<Effect> {
    if command == "app.exit"@ {
        seq![Effect::Exit]
    } else if command == "app.interrupt"@ && v.status == SessionStatus::Running {
        seq![Effect::Session(SessionCommand::Abort)]
    } else {
        seq![]
    }
}

pub fn command_effect(state: &mut AppState, command: &CommandId) -> (r: Vec<Effect>)
    requires
        old(state).cursor < usize::MAX,
    ensures
        app_view(*final(state)) == after_command(app_view(*old(state)), command.0@),
        r@ == command_effects(app_view(*old(state)), command.0@),
{
    let name = command.0.as_str();
    proof {
        assert("app.exit"@ != "input.newline"@ && "app.exit"@ != "transcript.page-up"@ && "app.exit"@
            != "transcript.page-down"@ && "app.interrupt"@ != "input.newline"@ && "app.interrupt"@
            != "transcript.page-up"@ && "app.interrupt"@ != "transcript.page-down"@) by {
            reveal_strlit("app.exit");
            reveal_strlit("app.interrupt");
            reveal_strlit("input.newline");
            reveal_strlit("transcript.page-up");
            reveal_strlit("transcript.page-down");
            assert("app.exit"@[0] != "input.newline"@[0]);
            assert("app.exit"@[0] != "transcript.page-up"@[0]);
            assert("app.exit"@[0] != "transcript.page-down"@[0]);
            assert("app.interrupt"@[0] != "input.newline"@[0]);
            assert("app.interrupt"@[0] != "transcript.page-up"@[0]);
            assert("app.interrupt"@[0] != "transcript.page-down"@[0]);
        }
    }
    let mut effects: Vec<Effect> = Vec::new();
    if text_eq(name, "app.exit") {
        effects.push(Effect::Exit);
        assert(effects@ =~= seq![Effect::Exit]);
    } else if text_eq(name, "app.interrupt") && state.status == SessionStatus::Running {
        effects.push(Effect::Session(SessionCommand::Abort));
        assert(effects@ =~= seq![Effect::Session(SessionCommand::Abort)]);
    } else if text_eq(name, "input.newline") {
        state.insert('\n');
    } else if text_eq(name, "transcript.page-up") {
        state.scroll_up(10);
    } else if text_eq(name, "transcript.page-down") {
        state.scroll_down(10);
    }
    effects
}

/// Where a key event may bind a command: a pressed or repeated key that no
/// dialog or capturing overlay takes first.
pub open spec fn bound_command(v: AppView, event: InputEvent) -> Option<Seq<char>> {
    match event {
        InputEvent::Key(key) => match key_index(v.ui.keybindings, crate::editing::spec_key_name(key)) {
            Some(i) => Some(v.ui.keybindings[i].1),
            None => None,
        },
        _ => None,
    }
}

pub open spec fn char_count(s: Seq<char>) -> usize {
    s.len() as usize
}

/// The state after a key that reaches the editor.
pub open spec fn after_key(v: AppView, key: crate::input::KeyEvent) -> AppView {
    match key.code {
        KeyCode::Enter => if key.modifiers.shift {
            AppView { editor: inserted_at(v.editor, v.cursor as int, seq!['\n']), cursor: (v.cursor + 1) as usize, ..v }
        } else if crate::state::blank(v.editor) {
            v
        } else {
            AppView { editor: seq![], cursor: 0, ..v }
        },
        KeyCode::Char(ch) => if !key.modifiers.ctrl {
            AppView { editor: inserted_at(v.editor, v.cursor as int, seq![ch]), cursor: (v.cursor + 1) as usize, ..v }
        } else {
            v
        },
        KeyCode::Backspace => if v.cursor == 0 {
            v
        } else {
            AppView { editor: v.editor.remove(v.cursor - 1), cursor: (v.cursor - 1) as usize, ..v }
        },
        KeyCode::Delete => if v.cursor < v.editor.len() {
            AppView { editor: v.editor.remove(v.cursor as int), ..v }
        } else {
            v
        },
        KeyCode::Left => AppView { cursor: if v.cursor > 0 { (v.cursor - 1) as usize } else { 0 }, ..v },
        KeyCode::Right => AppView { cursor: crate::editing::min(v.cursor + 1, v.editor.len() as int) as usize, ..v },
        KeyCode::Home => AppView { cursor: 0, ..v },
        KeyCode::End => AppView { cursor: char_count(v.editor), ..v },
        KeyCode::Up => if v.editor.len() == 0 {
            AppView { follow: false, scroll: v.scroll.saturating_sub(1), ..v }
        } else {
            AppView { cursor: moved_vertically(v.editor, v.cursor as int, true) as usize, ..v }
        },
        KeyCode::Down => if v.editor.len() == 0 {
            AppView { scroll: v.scroll.saturating_add(1), ..v }
        } else {
            AppView { cursor: moved_vertically(v.editor, v.cursor as int, false) as usize, ..v }
        },
        KeyCode::PageUp => AppView { follow: false, scroll: v.scroll.saturating_sub(10), ..v },
        KeyCode::PageDown => AppView { scroll: v.scroll.saturating_add(10), ..v },
        _ => v,
    }
}

/// The state after terminal input: an open dialog takes it first, then a
/// capturing overlay (escape closes the topmost one), then keybindings; the
/// wheel scrolls, resizes and focus changes are recorded, text goes into the
/// editor unless the session failed, and keys edit the editor.
pub open spec fn after_input(v: AppView, event: InputEvent) -> AppView {
    match v.ui.dialog {
        Some(d) => {
            let (next, result) = after_dialog_input(d, event);
            match result {
                Some(_) => with_ui(v, UiView { dialog: None, ..v.ui }),
                None => with_ui(v, UiView { dialog: Some(next), ..v.ui }),
            }
        },
        None => match last_capturing(v.ui.overlays) {
            Some(i) => if event matches InputEvent::Key(key) && key.code == KeyCode::Esc && pressed(key.kind) {
                with_ui(v, UiView { overlays: v.ui.overlays.remove(i), ..v.ui })
            } else {
                v
            },
            None => match bound_command(v, event) {
                Some(command) => after_command(v, command),
                None => match event {
                    InputEvent::Mouse(m) => if m.kind == MouseKind::ScrollUp {
                        AppView { follow: false, scroll: v.scroll.saturating_sub(3), ..v }
                    } else if m.kind == MouseKind::ScrollDown {
                        AppView { scroll: v.scroll.saturating_add(3), ..v }
                    } else {
                        v
                    },
                    InputEvent::Resize { columns, rows } => with_ui(v, UiView { terminal_size: (columns, rows), ..v.ui }),
                    InputEvent::FocusGained => with_ui(v, UiView { terminal_focused: true, ..v.ui }),
                    InputEvent::FocusLost => with_ui(v, UiView { terminal_focused: false, ..v.ui }),
                    InputEvent::Paste(t) | InputEvent::Text(t) => if v.status != SessionStatus::Fatal {
                        AppView { editor: inserted_at(v.editor, v.cursor as int, t@), cursor: (v.cursor + t@.len()) as usize, ..v }
                    } else {
                        v
                    },
                    InputEvent::Key(key) => if !pressed(key.kind) || key.code == KeyCode::Esc || (key.code
                        == KeyCode::Char('c') && key.modifiers.ctrl) || v.status == SessionStatus::Fatal {
                        v
                    } else {
                        after_key(v, key)
                    },
                },
            },
        },
    }
}

/// What terminal input asks of the host: a dialog result when it ends a
/// dialog, a bound command's effects, exit on escape, abort (or exit when
/// idle) on ctrl-c, and the editor's text as a prompt on enter.
pub open spec fn input_effects(v: AppView, event: InputEvent, effects: Seq<Effect>) -> bool {
    match v.ui.dialog {
        Some(d) => match after_dialog_input(d, event).1 {
            Some(res) => effects.len() == 1 && (effects[0] matches Effect::UiReply(r, UiReply::Dialog(
                result,
            )) && r == d.0 && shown_result(result) == res),
            None => effects.len() == 0,
        },
        None => if last_capturing(v.ui.overlays) is Some {
            effects.len() == 0
        } else {
            match bound_command(v, event) {
                Some(command) => effects == command_effects(v, command),
                None => match event {
                    InputEvent::Key(key) => if !pressed(key.kind) {
                        effects.len() == 0
                    } else if key.code == KeyCode::Esc {
                        effects == seq![Effect::Exit]
                    } else if key.code == KeyCode::Char('c') && key.modifiers.ctrl {
                        if v.status == SessionStatus::Running {
                            effects == seq![Effect::Session(SessionCommand::Abort)]
                        } else {
                            effects == seq![Effect::Exit]
                        }
                    } else if v.status != SessionStatus::Fatal && key.code == KeyCode::Enter
                        && !key.modifiers.shift && !crate::state::blank(v.editor) {
                        effects.len() == 1 && (effects[0] matches Effect::Session(SessionCommand::Prompt(t))
                            && t@ == v.editor)
                    } else {
                        effects.len() == 0
                    },
                    _ => effects.len() == 0,
                },
            }
        },
    }
}

fn capturing_position(overlays: &Vec<OverlayState>) -> (r: Option<usize>)
    ensures
        match r {
            Some(i) => last_capturing(overlays@.map_values(|o: OverlayState| overlay_view(o))) == Some(i as int)
                && i < overlays@.len(),
            None => last_capturing(overlays@.map_values(|o: OverlayState| overlay_view(o))) is None,
        },
{
    let ghost view = overlays@.map_values(|o: OverlayState| overlay_view(o));
    let mut i = overlays.len();
    assert(view.take(i as int) =~= view);
    while i > 0
        invariant
            i <= overlays@.len(),
            view == overlays@.map_values(|o: OverlayState| overlay_view(o)),
            last_capturing(view) == last_capturing(view.take(i as int)),
        decreases i,
    {
        assert(view.take(i as int).last() == view[i - 1]);
        assert(view.take(i as int).drop_last() =~= view.take(i - 1));
        if !overlays[i - 1].hidden && overlays[i - 1].capturing {
            return Some(i - 1);
        }
        i -= 1;
    }
    assert(view.take(0) =~= seq![]);
    None
}

/// Every insertion the event can cause fits the cursors in a `usize`.
pub open spec fn input_fits(s: AppState, event: InputEvent) -> bool {
    &&& insert_fits(s.cursor, event)
    &&& s.ui.dialog matches Some(d) ==> insert_fits(d.cursor, event)
}

/// Applies terminal input and returns the effects it asks for.
pub fn reduce_input(state: &mut AppState, event: InputEvent) -> (r: Vec<Effect>)
    requires
        crate::state::cursors_ok(*old(state)),
        input_fits(*old(state), event),
    ensures
        app_view(*final(state)) == after_input(app_view(*old(state)), event),
        input_effects(app_view(*old(state)), event, r@),
        crate::state::cursors_ok(*final(state)),
{
    let ghost v = app_view(*state);
    if state.ui.dialog.is_some() {
        let mut dialog = state.ui.dialog.take().unwrap();
        let result = handle_dialog(&mut dialog, &event);
        match result {
            Some(result) => {
                let request = dialog.request;
                let mut effects: Vec<Effect> = Vec::new();
                effects.push(Effect::UiReply(request, UiReply::Dialog(result)));
                return effects;
            },
            None => {
                state.ui.dialog = Some(dialog);
                return Vec::new();
            },
        }
    }
    proof {
        lemma_last_capturing(v.ui.overlays);
    }
    match capturing_position(&state.ui.overlays) {
        Some(i) => {
            let escape = match &event {
                InputEvent::Key(key) => key.code == KeyCode::Esc && (key.kind == KeyKind::Press
                    || key.kind == KeyKind::Repeat),
                _ => false,
            };
            if escape {
                state.ui.overlays.remove(i);
                assert(app_view(*state).ui.overlays =~= v.ui.overlays.remove(i as int));
            }
            return Vec::new();
        },
        None => {},
    }
    match state.resolve_command(&event) {
        Some(command) => {
            return command_effect(state, &command);
        },
        None => {},
    }
    match event {
        InputEvent::Mouse(m) => {
            if m.kind == MouseKind::ScrollUp {
                state.scroll_up(3);
            } else if m.kind == MouseKind::ScrollDown {
                state.scroll_down(3);
            }
            Vec::new()
        },
        InputEvent::Resize { columns, rows } => {
            state.ui.terminal_size = (columns, rows);
            Vec::new()
        },
        InputEvent::FocusGained => {
            state.ui.terminal_focused = true;
            Vec::new()
        },
        InputEvent::FocusLost => {
            state.ui.terminal_focused = false;
            Vec::new()
        },
        InputEvent::Paste(text) | InputEvent::Text(text) => {
            if state.status != SessionStatus::Fatal {
                state.insert_text(text.as_str());
            }
            Vec::new()
        },
        InputEvent::Key(key) => {
            let mut effects: Vec<Effect> = Vec::new();
            if !(key.kind == KeyKind::Press || key.kind == KeyKind::Repeat) {
                return effects;
            }
            if key.code == KeyCode::Esc {
                effects.push(Effect::Exit);
                assert(effects@ =~= seq![Effect::Exit]);
                return effects;
            }
            if key.code == KeyCode::Char('c') && key.modifiers.ctrl {
                if state.status == SessionStatus::Running {
                    effects.push(Effect::Session(SessionCommand::Abort));
                    assert(effects@ =~= seq![Effect::Session(SessionCommand::Abort)]);
                } else {
                    effects.push(Effect::Exit);
                    assert(effects@ =~= seq![Effect::Exit]);
                }
                return effects;
            }
            if state.status == SessionStatus::Fatal {
                return effects;
            }
            match key.code {
                KeyCode::Enter => {
                    if key.modifiers.shift {
                        state.insert('\n');
                    } else {
                        match state.take_editor() {
                            Some(text) => {
                                effects.push(Effect::Session(SessionCommand::Prompt(text)));
                            },
                            None => {},
                        }
                    }
                },
                KeyCode::Char(ch) => {
                    if !key.modifiers.ctrl {
                        state.insert(ch);
                    }
                },
                KeyCode::Backspace => state.backspace(),
                KeyCode::Delete => state.delete(),
                KeyCode::Left => {
                    state.cursor = if state.cursor > 0 {
                        state.cursor - 1
                    } else {
                        0
                    };
                },
                KeyCode::Right => {
                    let n = crate::text::chars_of(state.editor.as_str()).len();
                    state.cursor = if state.cursor < n {
                        state.cursor + 1
                    } else {
                        n
                    };
                },
                KeyCode::Home => {
                    state.cursor = 0;
                },
                KeyCode::End => {
                    state.cursor = crate::text::chars_of(state.editor.as_str()).len();
                },
                KeyCode::Up => {
                    if state.editor.as_str().is_empty() {
                        state.scroll_up(1);
                    } else {
                        state.move_vertical(-1);
                    }
                },
                KeyCode::Down => {
                    if state.editor.as_str().is_empty() {
                        state.scroll_down(1);
                    } else {
                        state.move_vertical(1);
                    }
                },
                KeyCode::PageUp => state.scroll_up(10),
                KeyCode::PageDown => state.scroll_down(10),
                _ => {},
            }
            effects
        },
    }
}

#[derive(Debug)]
pub enum AppEvent {
    Session(AgentEvent),
    Input(InputEvent),
    Ui(UiEnvelope),
    ObserverLagged(u64),
    Shutdown,
}

/// What an application event does to the state.
pub open spec fn after_event(v: AppView, event: AppEvent) -> AppView {
    match event {
        AppEvent::Session(e) => after_session_event(v, e),
        AppEvent::Input(e) => after_input(v, e),
        AppEvent::Ui(env) => after_ui(v, env),
        AppEvent::ObserverLagged(skipped) => AppView {
            status: SessionStatus::Fatal,
            fatal_error: Some("event observer lagged by "@ + crate::text::decimal(skipped as nat) + " records"@),
            ..v
        },
        AppEvent::Shutdown => v,
    }
}

/// What an application event asks of the host; shutting down aborts and
/// closes the session.
pub open spec fn event_effects(v: AppView, event: AppEvent, effects: Seq<Effect>) -> bool {
    match event {
        AppEvent::Input(e) => input_effects(v, e, effects),
        AppEvent::Ui(env) => ui_effects(v, env, effects),
        AppEvent::Shutdown => effects == seq![
            Effect::Session(SessionCommand::Abort),
            Effect::Session(SessionCommand::Close),
        ],
        _ => effects.len() == 0,
    }
}

/// The insertions an event can cause fit the cursors in a `usize`.
pub open spec fn event_fits(s: AppState, event: AppEvent) -> bool {
    match event {
        AppEvent::Input(e) => input_fits(s, e),
        AppEvent::Ui(env) => env.operation matches UiOperation::Paste { text } ==> s.cursor + text@.len()
            <= usize::MAX,
        _ => true,
    }
}

/// Applies an application event and returns the effects it asks for.
pub fn reduce(state: &mut AppState, event: AppEvent) -> (r: Vec<Effect>)
    requires
        crate::state::cursors_ok(*old(state)),
        event_fits(*old(state), event),
    ensures
        app_view(*final(state)) == after_event(app_view(*old(state)), event),
        event_effects(app_view(*old(state)), event, r@),
{
    match event {
        AppEvent::Session(e) => {
            reduce_session(state, e);
            Vec::new()
        },
        AppEvent::Input(e) => reduce_input(state, e),
        AppEvent::Ui(envelope) => reduce_ui(state, envelope),
        AppEvent::ObserverLagged(skipped) => {
            let mut message = String::from_str("event observer lagged by ");
            push_str(&mut message, crate::text::u64_to_decimal(skipped).as_str());
            push_str(&mut message, " records");
            state.status = SessionStatus::Fatal;
            state.fatal_error = Some(message);
            Vec::new()
        },
        AppEvent::Shutdown => {
            let mut effects: Vec<Effect> = Vec::new();
            effects.push(Effect::Session(SessionCommand::Abort));
            effects.push(Effect::Session(SessionCommand::Close));
            assert(effects@ =~= seq![
                Effect::Session(SessionCommand::Abort),
                Effect::Session(SessionCommand::Close),
            ]);
            effects
        },
    }
}

impl AppState {
    /// Applies a session event.
    pub fn reduce(&mut self, event: AgentEvent)
        ensures
            app_view(*final(self)) == after_session_event(app_view(*old(self)), event),
    {
        reduce_session(self, event);
    }
}

/// An open dialog takes terminal input before the application does: no key
/// leaves the application or reaches the session while it is open; the only
/// effect input can have is the dialog's own reply.
pub proof fn law_dialog_takes_input_first(v: AppView, event: InputEvent, effects: Seq<Effect>)
    requires
        v.ui.dialog is Some,
        input_effects(v, event, effects),
    ensures
        forall|i: int| 0 <= i < effects.len() ==> (#[trigger] effects[i]) is UiReply,
{
}

/// A capturing overlay swallows terminal input: it asks for nothing.
pub proof fn law_capturing_overlay_swallows_input(v: AppView, event: InputEvent, effects: Seq<Effect>)
    requires
        v.ui.dialog is None,
        last_capturing(v.ui.overlays) is Some,
        input_effects(v, event, effects),
    ensures
        effects.len() == 0,
{
}

} // verus!
