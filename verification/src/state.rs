//! The state of the terminal application: the transcript, the streaming
//! message, running tools, the editor, and what extensions have put on
//! screen. Keyed collections are vectors of entries with distinct keys.

use vstd::prelude::*;
use crate::component::CursorAnchor;
use crate::editing::{inserted_at, moved_vertically, spec_key_name};
use crate::input::{CommandId, InputEvent};
use crate::json::JsonValue;
use crate::message::Message;
use crate::render::SemanticFrame;
use crate::session::SessionStatus;
use crate::text::spec_is_whitespace;
use crate::ui_protocol::{
    DialogRequest, ExtensionId, Generation, Notification, OverlayId, RequestId,
};

verus! {

#[derive(Debug)]
pub struct ToolState {
    pub name: String,
    pub status: String,
    pub input: String,
    pub update: Option<JsonValue>,
    pub result: Option<JsonValue>,
    pub is_error: bool,
}

#[derive(Debug)]
pub struct PendingDialog {
    pub request: RequestId,
    pub dialog: DialogRequest,
    pub text: String,
    pub cursor: usize,
    pub selected: usize,
}

#[derive(Debug)]
pub struct OverlayState {
    pub extension: ExtensionId,
    pub id: OverlayId,
    pub generation: Generation,
    pub content: String,
    pub hidden: bool,
    pub capturing: bool,
}

/// What extensions have put on screen.
#[derive(Debug)]
pub struct UiState {
    pub dialog: Option<PendingDialog>,
    /// Contents by extension, slot and key.
    pub contributions: Vec<((ExtensionId, String, String), String)>,
    /// Rendered frames by extension and key.
    pub frames: Vec<((ExtensionId, String), (SemanticFrame, Option<CursorAnchor>))>,
    /// Oldest first.
    pub notifications: Vec<Notification>,
    /// Bottom first; the last one is on top.
    pub overlays: Vec<OverlayState>,
    pub custom_editor: Option<(ExtensionId, String, String)>,
    pub theme_generation: u64,
    /// Commands by key name.
    pub keybindings: Vec<(String, CommandId)>,
    pub keybinding_conflicts: Vec<String>,
    pub terminal_size: (u16, u16),
    pub terminal_focused: bool,
}

#[derive(Debug)]
pub struct AppState {
    pub messages: Vec<Message>,
    pub partial_id: Option<String>,
    pub partial: String,
    pub thinking: String,
    pub tool_call_input: String,
    pub partial_unpersisted: bool,
    /// Tool executions by id.
    pub tools: Vec<(String, ToolState)>,
    pub status: SessionStatus,
    pub editor: String,
    pub cursor: usize,
    pub scroll: u16,
    pub follow: bool,
    pub fatal_error: Option<String>,
    pub ui: UiState,
}

pub type ToolView = (Seq<char>, Seq<char>, Seq<char>, Option<JsonValue>, Option<JsonValue>, bool);

pub type DialogView = (RequestId, DialogRequest, Seq<char>, usize, usize);

pub type OverlayView = (Seq<char>, OverlayId, Generation, Seq<char>, bool, bool);

pub type ContributionKey = (Seq<char>, Seq<char>, Seq<char>);

/// The state of the UI as text and values.
pub struct UiView {
    pub dialog: Option<DialogView>,
    pub contributions: Seq<(ContributionKey, Seq<char>)>,
    pub frames: Seq<((Seq<char>, Seq<char>), (SemanticFrame, Option<CursorAnchor>))>,
    pub notifications: Seq<Notification>,
    pub overlays: Seq<OverlayView>,
    pub custom_editor: Option<ContributionKey>,
    pub theme_generation: u64,
    pub keybindings: Seq<(Seq<char>, Seq<char>)>,
    pub keybinding_conflicts: Seq<Seq<char>>,
    pub terminal_size: (u16, u16),
    pub terminal_focused: bool,
}

/// The state of the application as text and values.
pub struct AppView {
    pub messages: Seq<Message>,
    pub partial_id: Option<Seq<char>>,
    pub partial: Seq<char>,
    pub thinking: Seq<char>,
    pub tool_call_input: Seq<char>,
    pub partial_unpersisted: bool,
    pub tools: Seq<(Seq<char>, ToolView)>,
    pub status: SessionStatus,
    pub editor: Seq<char>,
    pub cursor: usize,
    pub scroll: u16,
    pub follow: bool,
    pub fatal_error: Option<Seq<char>>,
    pub ui: UiView,
}

pub open spec fn text_opt(o: Option<String>) -> Option<Seq<char>> {
    crate::text::opt_string_view(o)
}

pub open spec fn tool_view(t: ToolState) -> ToolView {
    (t.name@, t.status@, t.input@, t.update, t.result, t.is_error)
}

pub open spec fn tools_view(tools: Seq<(String, ToolState)>) -> Seq<(Seq<char>, ToolView)> {
    tools.map_values(|e: (String, ToolState)| (e.0@, tool_view(e.1)))
}

pub open spec fn dialog_view(d: Option<PendingDialog>) -> Option<DialogView> {
    match d {
        Some(p) => Some((p.request, p.dialog, p.text@, p.cursor, p.selected)),
        None => None,
    }
}

pub open spec fn overlay_view(o: OverlayState) -> OverlayView {
    (o.extension.0@, o.id, o.generation, o.content@, o.hidden, o.capturing)
}

pub open spec fn contribution_key(k: (ExtensionId, String, String)) -> ContributionKey {
    (k.0.0@, k.1@, k.2@)
}

pub open spec fn ui_view(u: UiState) -> UiView {
    UiView {
        dialog: dialog_view(u.dialog),
        contributions: u.contributions@.map_values(
            |e: ((ExtensionId, String, String), String)| (contribution_key(e.0), e.1@),
        ),
        frames: u.frames@.map_values(
            |e: ((ExtensionId, String), (SemanticFrame, Option<CursorAnchor>))| ((e.0.0.0@, e.0.1@), e.1),
        ),
        notifications: u.notifications@,
        overlays: u.overlays@.map_values(|o: OverlayState| overlay_view(o)),
        custom_editor: match u.custom_editor {
            Some(c) => Some(contribution_key(c)),
            None => None,
        },
        theme_generation: u.theme_generation,
        keybindings: u.keybindings@.map_values(|e: (String, CommandId)| (e.0@, e.1.0@)),
        keybinding_conflicts: u.keybinding_conflicts@.map_values(|s: String| s@),
        terminal_size: u.terminal_size,
        terminal_focused: u.terminal_focused,
    }
}

pub open spec fn app_view(s: AppState) -> AppView {
    AppView {
        messages: s.messages@,
        partial_id: text_opt(s.partial_id),
        partial: s.partial@,
        thinking: s.thinking@,
        tool_call_input: s.tool_call_input@,
        partial_unpersisted: s.partial_unpersisted,
        tools: tools_view(s.tools@),
        status: s.status,
        editor: s.editor@,
        cursor: s.cursor,
        scroll: s.scroll,
        follow: s.follow,
        fatal_error: text_opt(s.fatal_error),
        ui: ui_view(s.ui),
    }
}

/// The cursors lie within their texts.
pub open spec fn cursors_ok(s: AppState) -> bool {
    &&& s.cursor <= s.editor@.len()
    &&& s.ui.dialog matches Some(d) ==> d.cursor <= d.text@.len()
}

/// The index of the first entry under `key`.
pub open spec fn key_index<K, V>(entries: Seq<(K, V)>, key: K) -> Option<int>
    decreases entries.len(),
{
    if entries.len() == 0 {
        None
    } else if entries[0].0 == key {
        Some(0)
    } else {
        match key_index(entries.drop_first(), key) {
            Some(i) => Some(i + 1),
            None => None,
        }
    }
}

/// `entries` with `value` under `key`: in place of the first entry under
/// `key`, else added at the end.
pub open spec fn put_entry<K, V>(entries: Seq<(K, V)>, key: K, value: V) -> Seq<(K, V)> {
    if exists|i: int| 0 <= i < entries.len() && entries[i].0 == key {
        let i = choose|i: int|
            0 <= i < entries.len() && entries[i].0 == key && forall|j: int|
                0 <= j < i ==> entries[j].0 != key;
        entries.update(i, (key, value))
    } else {
        entries.push((key, value))
    }
}

/// The editor is blank: every character is white space.
pub open spec fn blank(s: Seq<char>) -> bool {
    forall|j: int| 0 <= j < s.len() ==> spec_is_whitespace(#[trigger] s[j])
}

pub open spec fn empty_ui() -> UiView {
    UiView {
        dialog: None,
        contributions: seq![],
        frames: seq![],
        notifications: seq![],
        overlays: seq![],
        custom_editor: None,
        theme_generation: 0,
        keybindings: seq![],
        keybinding_conflicts: seq![],
        terminal_size: (0, 0),
        terminal_focused: false,
    }
}

impl Default for UiState {
    fn default() -> (r: Self)
        ensures
            ui_view(r) == empty_ui(),
    {
        let r = UiState {
            dialog: None,
            contributions: Vec::new(),
            frames: Vec::new(),
            notifications: Vec::new(),
            overlays: Vec::new(),
            custom_editor: None,
            theme_generation: 0,
            keybindings: Vec::new(),
            keybinding_conflicts: Vec::new(),
            terminal_size: (0, 0),
            terminal_focused: false,
        };
        assert(ui_view(r).contributions =~= seq![]);
        assert(ui_view(r).frames =~= seq![]);
        assert(ui_view(r).overlays =~= seq![]);
        assert(ui_view(r).keybindings =~= seq![]);
        assert(ui_view(r).keybinding_conflicts =~= seq![]);
        r
    }
}

impl AppState {
    /// A state showing `messages`, with an empty editor that follows the
    /// transcript.
    pub fn new(messages: Vec<Message>, status: SessionStatus) -> (r: Self)
        ensures
            app_view(r) == (AppView {
                messages: messages@,
                partial_id: None,
                partial: seq![],
                thinking: seq![],
                tool_call_input: seq![],
                partial_unpersisted: false,
                tools: seq![],
                status,
                editor: seq![],
                cursor: 0,
                scroll: 0,
                follow: true,
                fatal_error: None,
                ui: empty_ui(),
            }),
            cursors_ok(r),
    {
        let r = AppState {
            messages,
            partial_id: None,
            partial: String::new(),
            thinking: String::new(),
            tool_call_input: String::new(),
            partial_unpersisted: false,
            tools: Vec::new(),
            status,
            editor: String::new(),
            cursor: 0,
            scroll: 0,
            follow: true,
            fatal_error: None,
            ui: UiState::default(),
        };
        assert(tools_view(r.tools@) =~= seq![]);
        r
    }

    pub fn insert(&mut self, ch: char)
        requires
            old(self).cursor < usize::MAX,
        ensures
            app_view(*final(self)) == (AppView {
                editor: inserted_at(old(self).editor@, old(self).cursor as int, seq![ch]),
                cursor: (old(self).cursor + 1) as usize,
                ..app_view(*old(self))
            }),
    {
        let mut text = String::new();
        crate::text::push_char(&mut text, ch);
        crate::editing::insert_text(&mut self.editor, &mut self.cursor, text.as_str());
    }

    pub fn insert_text(&mut self, text: &str)
        requires
            old(self).cursor + text@.len() <= usize::MAX,
        ensures
            app_view(*final(self)) == (AppView {
                editor: inserted_at(old(self).editor@, old(self).cursor as int, text@),
                cursor: (old(self).cursor + text@.len()) as usize,
                ..app_view(*old(self))
            }),
    {
        crate::editing::insert_text(&mut self.editor, &mut self.cursor, text);
    }

    pub fn backspace(&mut self)
        requires
            old(self).cursor <= old(self).editor@.len(),
        ensures
            old(self).cursor == 0 ==> app_view(*final(self)) == app_view(*old(self)),
            old(self).cursor > 0 ==> app_view(*final(self)) == (AppView {
                editor: old(self).editor@.remove(old(self).cursor - 1),
                cursor: (old(self).cursor - 1) as usize,
                ..app_view(*old(self))
            }),
    {
        crate::editing::backspace(&mut self.editor, &mut self.cursor);
    }

    pub fn delete(&mut self)
        ensures
            old(self).cursor < old(self).editor@.len() ==> app_view(*final(self)) == (AppView {
                editor: old(self).editor@.remove(old(self).cursor as int),
                ..app_view(*old(self))
            }),
            old(self).cursor >= old(self).editor@.len() ==> app_view(*final(self)) == app_view(
                *old(self),
            ),
    {
        crate::editing::delete(&mut self.editor, self.cursor);
    }

    pub fn move_vertical(&mut self, direction: isize)
        requires
            old(self).cursor <= old(self).editor@.len(),
        ensures
            app_view(*final(self)) == (AppView {
                cursor: moved_vertically(old(self).editor@, old(self).cursor as int, direction < 0) as usize,
                ..app_view(*old(self))
            }),
            final(self).cursor <= final(self).editor@.len(),
    {
        crate::editing::move_vertical(self.editor.as_str(), &mut self.cursor, direction);
    }

    /// Scrolls the transcript up and stops following it.
    pub fn scroll_up(&mut self, amount: u16)
        ensures
            app_view(*final(self)) == (AppView {
                follow: false,
                scroll: old(self).scroll.saturating_sub(amount),
                ..app_view(*old(self))
            }),
    {
        self.follow = false;
        self.scroll = self.scroll.saturating_sub(amount);
    }

    pub fn scroll_down(&mut self, amount: u16)
        ensures
            app_view(*final(self)) == (AppView {
                scroll: old(self).scroll.saturating_add(amount),
                ..app_view(*old(self))
            }),
    {
        self.scroll = self.scroll.saturating_add(amount);
    }

    /// Takes the editor's text for submission unless it is blank.
    pub fn take_editor(&mut self) -> (r: Option<String>)
        ensures
            blank(old(self).editor@) ==> r is None && app_view(*final(self)) == app_view(*old(self)),
            !blank(old(self).editor@) ==> (r matches Some(t) && t@ == old(self).editor@)
                && app_view(*final(self)) == (AppView {
                editor: seq![],
                cursor: 0,
                ..app_view(*old(self))
            }),
    {
        let chars = crate::text::chars_of(self.editor.as_str());
        let mut i: usize = 0;
        while i < chars.len() && crate::text::is_whitespace(chars[i])
            invariant
                i <= chars@.len(),
                forall|j: int| 0 <= j < i ==> spec_is_whitespace(#[trigger] chars@[j]),
            decreases chars@.len() - i,
        {
            i += 1;
        }
        if i == chars.len() {
            return None;
        }
        assert(!spec_is_whitespace(chars@[i as int]));
        self.cursor = 0;
        let mut text = String::new();
        std::mem::swap(&mut text, &mut self.editor);
        Some(text)
    }

    /// The command bound to a key event, if any.
    pub fn resolve_command(&self, event: &InputEvent) -> (r: Option<CommandId>)
        ensures
            match event {
                InputEvent::Key(key) => match key_index(
                    app_view(*self).ui.keybindings,
                    spec_key_name(*key),
                ) {
                    Some(i) => r matches Some(c) && c.0@ == app_view(*self).ui.keybindings[i].1,
                    None => r is None,
                },
                _ => r is None,
            },
    {
        let name = match crate::editing::key_name(event) {
            Some(n) => n,
            None => return None,
        };
        let ghost view = app_view(*self).ui.keybindings;
        let mut i: usize = 0;
        assert(view.skip(0) =~= view);
        while i < self.ui.keybindings.len()
            invariant
                i <= self.ui.keybindings@.len(),
                view == app_view(*self).ui.keybindings,
                view.len() == self.ui.keybindings@.len(),
                match event {
                    InputEvent::Key(key) => name@ == spec_key_name(*key),
                    _ => false,
                },
                key_index(view, name@) == match key_index(view.skip(i as int), name@) {
                    Some(k) => Some(k + i),
                    None => None,
                },
            decreases self.ui.keybindings@.len() - i,
        {
            assert(view.skip(i as int)[0] == view[i as int]);
            assert(view.skip(i as int).drop_first() =~= view.skip(i + 1));
            assert(view[i as int] == (self.ui.keybindings@[i as int].0@, self.ui.keybindings@[i as int].1.0@));
            if crate::json::text_eq(self.ui.keybindings[i].0.as_str(), name.as_str()) {
                return Some(self.ui.keybindings[i].1.clone());
            }
            i += 1;
        }
        None
    }
}

} // verus!
