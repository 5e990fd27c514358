//! How the UI calls of Pi extensions map onto the frontend protocol: each
//! call name and JSON payload becomes an operation, each reply becomes the
//! JSON value the extension receives, and calls that get no answer settle to
//! Pi's defaults.

use vstd::prelude::*;
use crate::ansi::{plain_line, plain_lines, plain_text, symbols, parsed_line, texts};
use crate::component::{ComponentId, CursorAnchor};
use crate::input::{InputEvent, KeyCode};
use crate::json::{
    JsonNumber, JsonValue, array_field, bool_field, json_parse, parse_json, str_field,
    string_items, strings_of, text_eq, u64_field,
};
use crate::render::{Size, cells_shown, frame_ok};
use crate::renderers::{PiCachedFrame, cached_cells, cached_cursor, clamp_u16, line_count, parsed_lines};
use crate::text::{push_char, push_str};
use crate::ui_protocol::{
    Contribution, DialogRequest, DialogResult, Generation, Notification, NotificationLevel,
    OverlayAction, OverlayId, SupportLevel, UiCapabilities, UiOperation, UiOperationKind, UiReply,
};

verus! {

pub open spec fn fnv_offset() -> u64 {
    0xcbf2_9ce4_8422_2325u64
}

pub open spec fn fnv_prime() -> u64 {
    0x0000_0100_0000_01b3u64
}

/// The 64-bit FNV-1a hash of `bytes`.
pub open spec fn fnv1a(bytes: Seq<u8>) -> u64
    decreases bytes.len(),
{
    if bytes.len() == 0 {
        fnv_offset()
    } else {
        (fnv1a(bytes.drop_last()) ^ (bytes.last() as u64)).wrapping_mul(fnv_prime())
    }
}

/// The stable identity of a Pi component key: FNV-1a over its UTF-8 bytes.
pub open spec fn spec_component_id(key: Seq<char>) -> u64 {
    fnv1a(vstd::utf8::encode_utf8(key))
}

pub fn component_id(key: &str) -> (r: u64)
    ensures
        r == spec_component_id(key@),
{
    let bytes = key.as_bytes();
    let mut hash: u64 = 0xcbf2_9ce4_8422_2325;
    let mut i: usize = 0;
    while i < bytes.len()
        invariant
            i <= bytes@.len(),
            bytes@ == vstd::utf8::encode_utf8(key@),
            hash == fnv1a(bytes@.take(i as int)),
        decreases bytes@.len() - i,
    {
        assert(bytes@.take(i + 1).drop_last() =~= bytes@.take(i as int));
        hash = (hash ^ (bytes[i] as u64)).wrapping_mul(0x0000_0100_0000_01b3);
        i += 1;
    }
    assert(bytes@.take(bytes@.len() as int) =~= bytes@);
    hash
}

/// The text under `key`, empty when it is not a string.
pub open spec fn text_of(p: JsonValue, key: Seq<char>) -> Seq<char> {
    match str_field(p, key) {
        Some(s) => s,
        None => seq![],
    }
}

/// The flag under `key`, `default` when it is not a boolean.
pub open spec fn flag_of(p: JsonValue, key: Seq<char>, default: bool) -> bool {
    match bool_field(p, key) {
        Some(b) => b,
        None => default,
    }
}

/// The strings of the array under `key` (none when it is not an array).
pub open spec fn lines_of(p: JsonValue, key: Seq<char>) -> Seq<Seq<char>> {
    match array_field(p, key) {
        Some(items) => strings_of(items),
        None => seq![],
    }
}

/// The content a widget, header, footer or indicator shows: its `lines`
/// without escapes, joined by newlines, else its `content` without escapes,
/// each within 4096 columns.
pub open spec fn spec_content(p: JsonValue) -> Seq<char> {
    match array_field(p, "lines"@) {
        Some(items) => plain_text(strings_of(items), 4096),
        None => match str_field(p, "content"@) {
            Some(c) => symbols(parsed_line(c, 4096).0),
            None => seq![],
        },
    }
}

pub open spec fn bool_text(b: bool) -> Seq<char> {
    if b {
        "true"@
    } else {
        "false"@
    }
}

/// A contribution to `slot` under `key`: set to `content`, or removed when
/// `content` is empty.
pub open spec fn is_contribution(r: UiOperation, slot: Seq<char>, key: Seq<char>, content: Seq<char>) -> bool {
    if content.len() == 0 {
        r matches UiOperation::Contribution(Contribution::Remove { slot: s, key: k }) && s@ == slot
            && k@ == key
    } else {
        r matches UiOperation::Contribution(Contribution::Put { slot: s, key: k, content: c }) && s@
            == slot && k@ == key && c@ == content
    }
}

/// The `[name, command]` pairs among the entries of a keybindings call:
/// arrays whose first two items are strings.
pub open spec fn key_pairs(items: Seq<JsonValue>) -> Seq<(Seq<char>, Seq<char>)>
    decreases items.len(),
{
    if items.len() == 0 {
        seq![]
    } else {
        let rest = key_pairs(items.drop_last());
        match items.last() {
            JsonValue::Array(pair) => if pair@.len() >= 2 {
                match (pair@[0], pair@[1]) {
                    (JsonValue::String(a), JsonValue::String(b)) => rest.push((a@, b@)),
                    _ => rest,
                }
            } else {
                rest
            },
            _ => rest,
        }
    }
}

pub open spec fn pair_texts(v: Seq<(String, String)>) -> Seq<(Seq<char>, Seq<char>)> {
    v.map_values(|p: (String, String)| (p.0@, p.1@))
}

pub open spec fn string_texts(v: Seq<String>) -> Seq<Seq<char>> {
    v.map_values(|s: String| s@)
}

/// The width of a render call: its `width` when that fits a `u16`, else 80.
pub open spec fn render_width(p: JsonValue) -> u16 {
    let w = match u64_field(p, "width"@) {
        Some(w) => w,
        None => 80,
    };
    if w <= 0xffff {
        w as u16
    } else {
        80
    }
}

/// The overlay action of a `custom` call in mode `mode`.
pub open spec fn overlay_action(mode: Seq<char>, p: JsonValue) -> OverlayAction {
    if mode == "hide"@ {
        OverlayAction::Hide
    } else if mode == "setHidden"@ {
        OverlayAction::SetHidden(flag_of(p, "hidden"@, false))
    } else if mode == "focus"@ {
        OverlayAction::Focus
    } else {
        OverlayAction::Unfocus
    }
}

pub open spec fn is_overlay_mode(mode: Option<Seq<char>>) -> bool {
    mode == Some("hide"@) || mode == Some("setHidden"@) || mode == Some("focus"@) || mode == Some(
        "unfocus"@,
    )
}

pub open spec fn notification_level(p: JsonValue) -> NotificationLevel {
    let level = match str_field(p, "level"@) {
        Some(l) => l,
        None => "info"@,
    };
    if level == "warning"@ {
        NotificationLevel::Warning
    } else if level == "error"@ {
        NotificationLevel::Error
    } else {
        NotificationLevel::Info
    }
}

/// The operation of a `setWidget` call.
pub open spec fn is_widget_operation(p: JsonValue, r: UiOperation) -> bool {
    let key = text_of(p, "widgetKey"@);
    let content = spec_content(p);
    if "__pi_custom_"@.is_prefix_of(key) {
        if flag_of(p, "overlay"@, false) {
            if content.len() == 0 {
                r == UiOperation::Overlay {
                    id: OverlayId(spec_component_id(key)),
                    generation: Generation(0),
                    action: OverlayAction::Hide,
                }
            } else {
                r matches UiOperation::Overlay {
                    id,
                    generation,
                    action: OverlayAction::Show { content: c, capturing },
                } && id == OverlayId(spec_component_id(key)) && generation == Generation(0) && c@
                    == content && capturing == !flag_of(p, "nonCapturing"@, false)
            }
        } else if !flag_of(p, "clear"@, false) {
            r matches UiOperation::CustomEditor { content: Some(c) } && c@ == content
        } else {
            r == UiOperation::CustomEditor { content: None }
        }
    } else {
        let placement = match str_field(p, "placement"@) {
            Some(s) => s,
            None => "aboveEditor"@,
        };
        is_contribution(
            r,
            if placement == "belowEditor"@ {
                "below-widget"@
            } else {
                "widget"@
            },
            key,
            content,
        )
    }
}

/// The operation of a `render` call: the cached frame of its lines at its
/// width, for the component named by its key.
pub open spec fn is_render_operation(p: JsonValue, r: UiOperation) -> bool {
    let key = text_of(p, "key"@);
    let width = render_width(p);
    let lines = parsed_lines(lines_of(p, "lines"@), width as int);
    r matches UiOperation::Frame { key: k, frame, cursor } && k@ == key && frame.size == (Size {
        width,
        height: clamp_u16(lines.len() as int),
    }) && frame_ok(frame) && cells_shown(frame.cells@) == cached_cells(width as int, lines)
        && cursor == cached_cursor(ComponentId(spec_component_id(key)), lines, line_count(lines))
}

/// What a Pi UI call named `op` with payload `p` asks of the frontend; `None`
/// for calls that ask nothing of it.
pub open spec fn is_operation_for(op: Seq<char>, p: JsonValue, r: Option<UiOperation>) -> bool {
    let mode = str_field(p, "mode"@);
    if op == "custom"@ && mode == Some("poll"@) {
        r == Some(
            UiOperation::TerminalInput {
                subscription: spec_component_id(text_of(p, "widgetKey"@)),
                enabled: true,
            },
        )
    } else if op == "custom"@ && is_overlay_mode(mode) {
        r == Some(
            UiOperation::Overlay {
                id: OverlayId(spec_component_id(text_of(p, "widgetKey"@))),
                generation: Generation(0),
                action: overlay_action(mode.unwrap(), p),
            },
        )
    } else if op == "select"@ {
        r matches Some(UiOperation::Dialog(DialogRequest::Select { title, options })) && title@
            == text_of(p, "title"@) && string_texts(options@) == lines_of(p, "options"@)
    } else if op == "confirm"@ {
        r matches Some(UiOperation::Dialog(DialogRequest::Confirm { title, message })) && title@
            == text_of(p, "title"@) && message@ == text_of(p, "message"@)
    } else if op == "input"@ {
        r matches Some(UiOperation::Dialog(DialogRequest::Input { title, placeholder })) && title@
            == text_of(p, "title"@) && placeholder@ == text_of(p, "placeholder"@)
    } else if op == "editor"@ {
        r matches Some(UiOperation::Dialog(DialogRequest::Editor { title, prefill })) && title@
            == text_of(p, "title"@) && prefill@ == text_of(p, "default"@)
    } else if op == "notify"@ {
        r matches Some(UiOperation::Notify(n)) && n.message@ == text_of(p, "message"@) && n.level
            == notification_level(p)
    } else if op == "setStatus"@ {
        r matches Some(c) && is_contribution(
            c,
            "status"@,
            text_of(p, "statusKey"@),
            text_of(p, "statusText"@),
        )
    } else if op == "setFooter"@ {
        r matches Some(c) && is_contribution(c, "footer"@, "footer"@, spec_content(p))
    } else if op == "setHeader"@ {
        r matches Some(c) && is_contribution(c, "header"@, "header"@, spec_content(p))
    } else if op == "setWorkingMessage"@ {
        r matches Some(c) && is_contribution(c, "working"@, "message"@, text_of(p, "message"@))
    } else if op == "setWorkingVisible"@ {
        r matches Some(c) && is_contribution(
            c,
            "working"@,
            "visible"@,
            bool_text(flag_of(p, "visible"@, true)),
        )
    } else if op == "setWorkingIndicator"@ {
        r matches Some(c) && is_contribution(c, "working"@, "indicator"@, spec_content(p))
    } else if op == "setHiddenThinkingLabel"@ {
        r matches Some(c) && is_contribution(c, "working"@, "thinking-label"@, text_of(p, "label"@))
    } else if op == "setWidget"@ {
        r matches Some(c) && is_widget_operation(p, c)
    } else if op == "setTitle"@ {
        r matches Some(c) && is_contribution(c, "title"@, "title"@, text_of(p, "title"@))
    } else if op == "pasteToEditor"@ {
        r matches Some(UiOperation::Paste { text }) && text@ == text_of(p, "text"@)
    } else if op == "render"@ {
        r matches Some(c) && is_render_operation(p, c)
    } else if op == "setTheme"@ {
        r == Some(
            UiOperation::Theme {
                generation: match u64_field(p, "generation"@) {
                    Some(g) => g,
                    None => 0,
                },
            },
        )
    } else if op == "setToolsExpanded"@ {
        r matches Some(c) && is_contribution(
            c,
            "tools"@,
            "expanded"@,
            bool_text(flag_of(p, "expanded"@, false)),
        )
    } else if op == "setKeybindings"@ {
        r matches Some(UiOperation::Keybindings { entries }) && pair_texts(entries@) == key_pairs(
            match array_field(p, "entries"@) {
                Some(items) => items,
                None => seq![],
            },
        )
    } else if op == "set_editor_text"@ || op == "setEditorText"@ {
        r matches Some(UiOperation::Editor { text: Some(t) }) && t@ == text_of(p, "text"@)
    } else if op == "getEditorText"@ {
        r == Some(UiOperation::Editor { text: None })
    } else {
        r is None
    }
}

fn text(payload: &JsonValue, key: &str) -> (r: String)
    ensures
        r@ == text_of(*payload, key@),
{
    match payload.get_str(key) {
        Some(s) => s.clone(),
        None => String::new(),
    }
}

fn flag(payload: &JsonValue, key: &str, default: bool) -> (r: bool)
    ensures
        r == flag_of(*payload, key@, default),
{
    match payload.get_bool(key) {
        Some(b) => b,
        None => default,
    }
}

fn str_refs<'a>(v: &'a Vec<String>) -> (r: Vec<&'a str>)
    ensures
        texts(r@) == string_texts(v@),
{
    let mut r: Vec<&'a str> = Vec::new();
    let mut i: usize = 0;
    while i < v.len()
        invariant
            i <= v@.len(),
            texts(r@) == string_texts(v@.take(i as int)),
        decreases v@.len() - i,
    {
        let ghost before = r@;
        r.push(v[i].as_str());
        assert(texts(r@) =~= texts(before).push(v@[i as int]@));
        assert(string_texts(v@.take(i + 1)) =~= string_texts(v@.take(i as int)).push(v@[i as int]@));
        i += 1;
    }
    assert(v@.take(v@.len() as int) =~= v@);
    r
}

fn lines(payload: &JsonValue, key: &str) -> (r: Vec<String>)
    ensures
        string_texts(r@) == lines_of(*payload, key@),
{
    match payload.get_array(key) {
        Some(items) => string_items(items),
        None => {
            let r: Vec<String> = Vec::new();
            assert(string_texts(r@) =~= seq![]);
            r
        },
    }
}

/// The content of a widget, header, footer or indicator call.
pub fn content(payload: &JsonValue) -> (r: String)
    ensures
        r@ == spec_content(*payload),
{
    match payload.get_array("lines") {
        Some(items) => {
            let strings = string_items(items);
            let refs = str_refs(&strings);
            plain_lines(refs.as_slice(), 4096)
        },
        None => match payload.get_str("content") {
            Some(c) => plain_line(c.as_str(), 4096),
            None => String::new(),
        },
    }
}

fn bool_string(b: bool) -> (r: String)
    ensures
        r@ == bool_text(b),
{
    if b {
        String::from_str("true")
    } else {
        String::from_str("false")
    }
}

/// A contribution to `slot` under `key`: set to `content`, or removed when it
/// is empty.
pub fn contribution_value(slot: &str, key: String, content: String) -> (r: UiOperation)
    ensures
        is_contribution(r, slot@, key@, content@),
{
    let slot = String::from_str(slot);
    if content.as_str().is_empty() {
        UiOperation::Contribution(Contribution::Remove { slot, key })
    } else {
        UiOperation::Contribution(Contribution::Put { slot, key, content })
    }
}

fn key_pair_entries(items: &Vec<JsonValue>) -> (r: Vec<(String, String)>)
    ensures
        pair_texts(r@) == key_pairs(items@),
{
    let mut r: Vec<(String, String)> = Vec::new();
    let mut i: usize = 0;
    while i < items.len()
        invariant
            i <= items@.len(),
            pair_texts(r@) == key_pairs(items@.take(i as int)),
        decreases items@.len() - i,
    {
        assert(items@.take(i + 1).drop_last() =~= items@.take(i as int));
        match &items[i] {
            JsonValue::Array(pair) => {
                if pair.len() >= 2 {
                    match (&pair[0], &pair[1]) {
                        (JsonValue::String(a), JsonValue::String(b)) => {
                            let ghost before = r@;
                            r.push((a.clone(), b.clone()));
                            assert(pair_texts(r@) =~= pair_texts(before).push((a@, b@)));
                        },
                        _ => {},
                    }
                }
            },
            _ => {},
        }
        i += 1;
    }
    assert(items@.take(items@.len() as int) =~= items@);
    r
}

fn render_operation(payload: &JsonValue) -> (r: UiOperation)
    ensures
        is_render_operation(*payload, r),
{
    let key = text(payload, "key");
    let strings = lines(payload, "lines");
    let refs = str_refs(&strings);
    let requested = match payload.get_u64("width") {
        Some(w) => w,
        None => 80,
    };
    let width: u16 = if requested <= 0xffff {
        requested as u16
    } else {
        80
    };
    let cached = PiCachedFrame::from_ansi_lines(
        ComponentId(component_id(key.as_str())),
        refs.as_slice(),
        width,
    );
    UiOperation::Frame { key, frame: cached.frame, cursor: cached.cursor }
}

fn widget_operation(payload: &JsonValue) -> (r: UiOperation)
    ensures
        is_widget_operation(*payload, r),
{
    let key = text(payload, "widgetKey");
    let prefix = String::from_str("__pi_custom_");
    let custom = crate::text::starts_with_chars(
        &crate::text::chars_of(key.as_str()),
        &crate::text::chars_of(prefix.as_str()),
    );
    if custom {
        let content = content(payload);
        if flag(payload, "overlay", false) {
            let id = OverlayId(component_id(key.as_str()));
            UiOperation::Overlay {
                id,
                generation: Generation(0),
                action: if content.as_str().is_empty() {
                    OverlayAction::Hide
                } else {
                    OverlayAction::Show {
                        content,
                        capturing: !flag(payload, "nonCapturing", false),
                    }
                },
            }
        } else {
            UiOperation::CustomEditor {
                content: if !flag(payload, "clear", false) {
                    Some(content)
                } else {
                    None
                },
            }
        }
    } else {
        let below = match payload.get_str("placement") {
            Some(p) => text_eq(p.as_str(), "belowEditor"),
            None => false,
        };
        proof {
            assert("aboveEditor"@ != "belowEditor"@) by {
                reveal_strlit("aboveEditor");
                reveal_strlit("belowEditor");
                assert("aboveEditor"@[0] != "belowEditor"@[0]);
            }
        }
        contribution_value(
            if below {
                "below-widget"
            } else {
                "widget"
            },
            key,
            content(payload),
        )
    }
}

fn is_text(value: Option<&String>, expected: &str) -> (r: bool)
    ensures
        r == (crate::text::opt_string_view(
            match value {
                Some(s) => Some(*s),
                None => None,
            },
        ) == Some(expected@)),
{
    match value {
        Some(s) => text_eq(s.as_str(), expected),
        None => false,
    }
}

/// The frontend operation that a Pi UI call asks for, if any.
pub fn operation(op: &str, payload: &JsonValue) -> (r: Option<UiOperation>)
    ensures
        is_operation_for(op@, *payload, r),
{
    let mode = payload.get_str("mode");
    let custom = text_eq(op, "custom");
    if custom && is_text(mode, "poll") {
        let key = text(payload, "widgetKey");
        return Some(
            UiOperation::TerminalInput { subscription: component_id(key.as_str()), enabled: true },
        );
    }
    let hide = is_text(mode, "hide");
    let set_hidden = is_text(mode, "setHidden");
    let focus = is_text(mode, "focus");
    let unfocus = is_text(mode, "unfocus");
    if custom && (hide || set_hidden || focus || unfocus) {
        let action = if hide {
            OverlayAction::Hide
        } else if set_hidden {
            OverlayAction::SetHidden(flag(payload, "hidden", false))
        } else if focus {
            OverlayAction::Focus
        } else {
            OverlayAction::Unfocus
        };
        let key = text(payload, "widgetKey");
        return Some(
            UiOperation::Overlay {
                id: OverlayId(component_id(key.as_str())),
                generation: Generation(0),
                action,
            },
        );
    }
    if text_eq(op, "select") {
        let title = text(payload, "title");
        let options = lines(payload, "options");
        return Some(UiOperation::Dialog(DialogRequest::Select { title, options }));
    }
    if text_eq(op, "confirm") {
        return Some(
            UiOperation::Dialog(
                DialogRequest::Confirm {
                    title: text(payload, "title"),
                    message: text(payload, "message"),
                },
            ),
        );
    }
    if text_eq(op, "input") {
        return Some(
            UiOperation::Dialog(
                DialogRequest::Input {
                    title: text(payload, "title"),
                    placeholder: text(payload, "placeholder"),
                },
            ),
        );
    }
    if text_eq(op, "editor") {
        return Some(
            UiOperation::Dialog(
                DialogRequest::Editor {
                    title: text(payload, "title"),
                    prefill: text(payload, "default"),
                },
            ),
        );
    }
    if text_eq(op, "notify") {
        let level_text = payload.get_str("level");
        let level = if is_text(level_text, "warning") {
            NotificationLevel::Warning
        } else if is_text(level_text, "error") {
            NotificationLevel::Error
        } else {
            proof {
                assert("info"@ != "warning"@ && "info"@ != "error"@) by {
                    reveal_strlit("info");
                    reveal_strlit("warning");
                    reveal_strlit("error");
                    assert("info"@[0] != "warning"@[0]);
                    assert("info"@[0] != "error"@[0]);
                }
            }
            NotificationLevel::Info
        };
        return Some(UiOperation::Notify(Notification { message: text(payload, "message"), level }));
    }
    if text_eq(op, "setStatus") {
        return Some(
            contribution_value("status", text(payload, "statusKey"), text(payload, "statusText")),
        );
    }
    if text_eq(op, "setFooter") {
        return Some(contribution_value("footer", String::from_str("footer"), content(payload)));
    }
    if text_eq(op, "setHeader") {
        return Some(contribution_value("header", String::from_str("header"), content(payload)));
    }
    if text_eq(op, "setWorkingMessage") {
        return Some(
            contribution_value("working", String::from_str("message"), text(payload, "message")),
        );
    }
    if text_eq(op, "setWorkingVisible") {
        return Some(
            contribution_value(
                "working",
                String::from_str("visible"),
                bool_string(flag(payload, "visible", true)),
            ),
        );
    }
    if text_eq(op, "setWorkingIndicator") {
        return Some(contribution_value("working", String::from_str("indicator"), content(payload)));
    }
    if text_eq(op, "setHiddenThinkingLabel") {
        return Some(
            contribution_value("working", String::from_str("thinking-label"), text(payload, "label")),
        );
    }
    if text_eq(op, "setWidget") {
        return Some(widget_operation(payload));
    }
    if text_eq(op, "setTitle") {
        return Some(contribution_value("title", String::from_str("title"), text(payload, "title")));
    }
    if text_eq(op, "pasteToEditor") {
        return Some(UiOperation::Paste { text: text(payload, "text") });
    }
    if text_eq(op, "render") {
        return Some(render_operation(payload));
    }
    if text_eq(op, "setTheme") {
        let generation = match payload.get_u64("generation") {
            Some(g) => g,
            None => 0,
        };
        return Some(UiOperation::Theme { generation });
    }
    if text_eq(op, "setToolsExpanded") {
        return Some(
            contribution_value(
                "tools",
                String::from_str("expanded"),
                bool_string(flag(payload, "expanded", false)),
            ),
        );
    }
    if text_eq(op, "setKeybindings") {
        let entries = match payload.get_array("entries") {
            Some(items) => key_pair_entries(items),
            None => {
                let v: Vec<(String, String)> = Vec::new();
                assert(pair_texts(v@) =~= key_pairs(seq![]));
                v
            },
        };
        return Some(UiOperation::Keybindings { entries });
    }
    if text_eq(op, "set_editor_text") || text_eq(op, "setEditorText") {
        return Some(UiOperation::Editor { text: Some(text(payload, "text")) });
    }
    if text_eq(op, "getEditorText") {
        return Some(UiOperation::Editor { text: None });
    }
    None
}

/// The bytes a Pi component reads for a key or text event; `None` for mouse,
/// resize and focus events.
pub open spec fn spec_pi_input_data(event: InputEvent) -> Option<Seq<char>> {
    match event {
        InputEvent::Paste(text) => Some("\u{1b}[200~"@ + text@ + "\u{1b}[201~"@),
        InputEvent::Text(text) => Some(text@),
        InputEvent::Key(key) => Some(
            match key.code {
                KeyCode::Enter => "\r"@,
                KeyCode::Esc => "\u{1b}"@,
                KeyCode::Char(ch) => if key.modifiers.ctrl {
                    seq![((crate::text::spec_to_ascii_lowercase(ch) as u32) & 0x1fu32) as char]
                } else {
                    seq![ch]
                },
                KeyCode::Backspace => "\u{7f}"@,
                KeyCode::Delete => "\u{1b}[3~"@,
                KeyCode::Left => "\u{1b}[D"@,
                KeyCode::Right => "\u{1b}[C"@,
                KeyCode::Up => "\u{1b}[A"@,
                KeyCode::Down => "\u{1b}[B"@,
                KeyCode::Home => "\u{1}"@,
                KeyCode::End => "\u{5}"@,
                KeyCode::PageUp => "\u{1b}[5~"@,
                KeyCode::PageDown => "\u{1b}[6~"@,
            },
        ),
        _ => None,
    }
}

fn one_char(c: char) -> (r: String)
    ensures
        r@ == seq![c],
{
    let mut r = String::new();
    push_char(&mut r, c);
    r
}

/// The bytes a Pi component reads for a key or text event.
pub fn pi_input_data(event: &InputEvent) -> (r: Option<String>)
    ensures
        crate::text::opt_string_view(r) == spec_pi_input_data(*event),
{
    match event {
        InputEvent::Paste(text) => {
            let mut r = String::from_str("\u{1b}[200~");
            push_str(&mut r, text.as_str());
            push_str(&mut r, "\u{1b}[201~");
            Some(r)
        },
        InputEvent::Text(text) => Some(text.clone()),
        InputEvent::Key(key) => Some(
            match key.code {
                KeyCode::Enter => String::from_str("\r"),
                KeyCode::Esc => String::from_str("\u{1b}"),
                KeyCode::Char(ch) => if key.modifiers.ctrl {
                    let lower = crate::text::to_ascii_lowercase(ch) as u32;
                    let code = lower & 0x1f;
                    assert(code < 0x20) by (bit_vector)
                        requires
                            code == lower & 0x1f,
                    ;
                    one_char(crate::text::char_from_ascii(code as u8))
                } else {
                    one_char(ch)
                },
                KeyCode::Backspace => String::from_str("\u{7f}"),
                KeyCode::Delete => String::from_str("\u{1b}[3~"),
                KeyCode::Left => String::from_str("\u{1b}[D"),
                KeyCode::Right => String::from_str("\u{1b}[C"),
                KeyCode::Up => String::from_str("\u{1b}[A"),
                KeyCode::Down => String::from_str("\u{1b}[B"),
                KeyCode::Home => String::from_str("\u{1}"),
                KeyCode::End => String::from_str("\u{5}"),
                KeyCode::PageUp => String::from_str("\u{1b}[5~"),
                KeyCode::PageDown => String::from_str("\u{1b}[6~"),
            },
        ),
        _ => None,
    }
}

/// The JSON number of a small count.
pub open spec fn is_count(v: JsonValue, n: u64) -> bool {
    v matches JsonValue::Number(num) && num.as_u64 == Some(n) && num.text@ == crate::text::decimal(
        n as nat,
    )
}

fn count(n: u16) -> (r: JsonValue)
    ensures
        is_count(r, n as u64),
{
    JsonValue::Number(
        JsonNumber { as_u64: Some(n as u64), text: crate::text::usize_to_decimal(n as usize) },
    )
}

/// What a Pi component's input poll receives: the new size for a resize, the
/// key bytes for a key or text event, an empty object otherwise.
pub open spec fn is_input_reply(event: InputEvent, r: JsonValue) -> bool {
    match event {
        InputEvent::Resize { columns, rows } => r matches JsonValue::Object(entries)
            && entries@.len() == 2 && entries@[0].0@ == "height"@ && is_count(
            entries@[0].1,
            rows as u64,
        ) && entries@[1].0@ == "width"@ && is_count(entries@[1].1, columns as u64),
        _ => match spec_pi_input_data(event) {
            Some(key) => r matches JsonValue::Object(entries) && entries@.len() == 1
                && entries@[0].0@ == "key"@ && (entries@[0].1 matches JsonValue::String(k) && k@
                == key),
            None => r matches JsonValue::Object(entries) && entries@.len() == 0,
        },
    }
}

pub fn pi_input_reply(event: &InputEvent) -> (r: JsonValue)
    ensures
        is_input_reply(*event, r),
{
    match event {
        InputEvent::Resize { columns, rows } => {
            let mut entries: Vec<(String, JsonValue)> = Vec::new();
            entries.push((String::from_str("height"), count(*rows)));
            entries.push((String::from_str("width"), count(*columns)));
            JsonValue::Object(entries)
        },
        _ => {
            let mut entries: Vec<(String, JsonValue)> = Vec::new();
            match pi_input_data(event) {
                Some(key) => {
                    entries.push((String::from_str("key"), JsonValue::String(key)));
                },
                None => {},
            }
            JsonValue::Object(entries)
        },
    }
}

/// What an unanswered call settles to: `false` for `confirm`, an empty text
/// for `getEditorText`, `null` otherwise.
pub open spec fn is_default_value(op: Seq<char>, r: JsonValue) -> bool {
    if op == "confirm"@ {
        r == JsonValue::Bool(false)
    } else if op == "getEditorText"@ {
        r matches JsonValue::String(s) && s@.len() == 0
    } else {
        r == JsonValue::Null
    }
}

pub fn default_value(op: &str) -> (r: JsonValue)
    ensures
        is_default_value(op@, r),
{
    if text_eq(op, "confirm") {
        JsonValue::Bool(false)
    } else if text_eq(op, "getEditorText") {
        JsonValue::String(String::new())
    } else {
        JsonValue::Null
    }
}

/// The JSON value an extension receives for a reply: the chosen or entered
/// text (or `null`), the confirmation, the input event, a value's JSON (or
/// the value as a string when it is not JSON), `null` for an
/// acknowledgement, and `default` for every refusal.
pub open spec fn is_reply_value(reply: UiReply, default: JsonValue, r: JsonValue) -> bool {
    match reply {
        UiReply::Dialog(DialogResult::Selected(v)) | UiReply::Dialog(DialogResult::Input(v))
        | UiReply::Dialog(DialogResult::Edited(v)) => r == match v {
            Some(s) => JsonValue::String(s),
            None => JsonValue::Null,
        },
        UiReply::Dialog(DialogResult::Confirmed(b)) => r == JsonValue::Bool(b),
        UiReply::Input(event) => is_input_reply(event, r),
        UiReply::Value(v) => r == match json_parse(v@) {
            Some(j) => j,
            None => JsonValue::String(v),
        },
        UiReply::Ack => r == JsonValue::Null,
        _ => r == default,
    }
}

pub fn reply_value(reply: UiReply, default: JsonValue) -> (r: JsonValue)
    ensures
        is_reply_value(reply, default, r),
{
    match reply {
        UiReply::Dialog(DialogResult::Selected(v)) | UiReply::Dialog(DialogResult::Input(v))
        | UiReply::Dialog(DialogResult::Edited(v)) => match v {
            Some(s) => JsonValue::String(s),
            None => JsonValue::Null,
        },
        UiReply::Dialog(DialogResult::Confirmed(b)) => JsonValue::Bool(b),
        UiReply::Input(event) => pi_input_reply(&event),
        UiReply::Value(v) => match parse_json(v.as_str()) {
            Ok(j) => j,
            Err(_) => JsonValue::String(v),
        },
        UiReply::Ack => JsonValue::Null,
        _ => default,
    }
}

/// The kind of operation a Pi UI call name needs.
pub open spec fn spec_pi_kind(name: Seq<char>) -> UiOperationKind {
    if name == "select"@ || name == "confirm"@ || name == "input"@ || name == "editor"@ {
        UiOperationKind::Dialog
    } else if name == "notify"@ {
        UiOperationKind::Notification
    } else if name == "setStatus"@ || name == "setWidget"@ || name == "setTitle"@ || name
        == "setHeader"@ || name == "setFooter"@ || name == "setWorkingMessage"@ || name
        == "setWorkingVisible"@ || name == "setWorkingIndicator"@ || name
        == "setHiddenThinkingLabel"@ || name == "setToolsExpanded"@ {
        UiOperationKind::Contribution
    } else if name == "setTheme"@ {
        UiOperationKind::Theme
    } else if name == "render"@ {
        UiOperationKind::Render
    } else if name == "setKeybindings"@ {
        UiOperationKind::Keybindings
    } else if name == "setEditorText"@ || name == "set_editor_text"@ || name == "getEditorText"@
        || name == "pasteToEditor"@ {
        UiOperationKind::Editor
    } else if name == "onTerminalInput"@ {
        UiOperationKind::TerminalInput
    } else if name == "custom"@ {
        UiOperationKind::Overlay
    } else {
        UiOperationKind::Unknown
    }
}

fn pi_kind(name: &str) -> (r: UiOperationKind)
    ensures
        r == spec_pi_kind(name@),
{
    if text_eq(name, "select") || text_eq(name, "confirm") || text_eq(name, "input") || text_eq(
        name,
        "editor",
    ) {
        UiOperationKind::Dialog
    } else if text_eq(name, "notify") {
        UiOperationKind::Notification
    } else if text_eq(name, "setStatus") || text_eq(name, "setWidget") || text_eq(name, "setTitle")
        || text_eq(name, "setHeader") || text_eq(name, "setFooter") || text_eq(
        name,
        "setWorkingMessage",
    ) || text_eq(name, "setWorkingVisible") || text_eq(name, "setWorkingIndicator") || text_eq(
        name,
        "setHiddenThinkingLabel",
    ) || text_eq(name, "setToolsExpanded") {
        UiOperationKind::Contribution
    } else if text_eq(name, "setTheme") {
        UiOperationKind::Theme
    } else if text_eq(name, "render") {
        UiOperationKind::Render
    } else if text_eq(name, "setKeybindings") {
        UiOperationKind::Keybindings
    } else if text_eq(name, "setEditorText") || text_eq(name, "set_editor_text") || text_eq(
        name,
        "getEditorText",
    ) || text_eq(name, "pasteToEditor") {
        UiOperationKind::Editor
    } else if text_eq(name, "onTerminalInput") {
        UiOperationKind::TerminalInput
    } else if text_eq(name, "custom") {
        UiOperationKind::Overlay
    } else {
        UiOperationKind::Unknown
    }
}

/// How well the frontend supports the Pi UI call `name`: the level of the
/// kind of operation it needs.
pub fn pi_operation_support(capabilities: &UiCapabilities, name: &str) -> (r: SupportLevel)
    ensures
        capabilities.level(spec_pi_kind(name@)) matches Some(l) ==> r == l,
        capabilities.level(spec_pi_kind(name@)) is None ==> crate::ui_protocol::unsupported_for(
            r,
            "unknown operation"@,
        ),
{
    capabilities.support(pi_kind(name))
}

/// What a Pi UI call leads to: an immediate value, or a request to the
/// frontend with the value to fall back on and the deadline it allows.
#[derive(Debug)]
pub enum UiCallPlan {
    Settle(JsonValue),
    Ask { operation: UiOperation, default: JsonValue, timeout_ms: Option<u64> },
}

/// The call settles at once to Pi's default when it asks nothing of the
/// frontend, when there is no frontend, or when the frontend does not support
/// it; otherwise it asks, with the call's `timeout` in milliseconds.
pub open spec fn is_plan(
    op: Seq<char>,
    payload: JsonValue,
    interactive: bool,
    capabilities: UiCapabilities,
    r: UiCallPlan,
) -> bool {
    match r {
        UiCallPlan::Settle(d) => is_default_value(op, d) && (is_operation_for(op, payload, None)
            || !interactive || exists|o: UiOperation|
            is_operation_for(op, payload, Some(o)) && (capabilities.level(
                crate::ui_protocol::spec_kind(o),
            ) is None || capabilities.level(crate::ui_protocol::spec_kind(o)) matches Some(
                SupportLevel::Unsupported(_),
            ))),
        UiCallPlan::Ask { operation, default, timeout_ms } => is_operation_for(op, payload, Some(operation))
            && is_default_value(op, default) && interactive && (capabilities.level(
            crate::ui_protocol::spec_kind(operation),
        ) matches Some(l) && !(l is Unsupported)) && timeout_ms == u64_field(payload, "timeout"@),
    }
}

/// Decides what a Pi UI call leads to.
pub fn plan_ui_call(op: &str, payload: &JsonValue, interactive: bool, capabilities: &UiCapabilities) -> (r: UiCallPlan)
    ensures
        is_plan(op@, *payload, interactive, *capabilities, r),
{
    let default = default_value(op);
    let operation = match operation(op, payload) {
        Some(o) => o,
        None => return UiCallPlan::Settle(default),
    };
    if !interactive {
        return UiCallPlan::Settle(default);
    }
    match capabilities.support(operation.kind()) {
        SupportLevel::Unsupported(_) => {
            return UiCallPlan::Settle(default);
        },
        _ => {},
    }
    UiCallPlan::Ask { operation, default, timeout_ms: payload.get_u64("timeout") }
}

/// The value an asked call settles to: the reply's value, or the default
/// when the broker was closed, full or busy.
pub fn settle_reply(
    reply: Result<UiReply, crate::broker::BrokerError>,
    default: JsonValue,
) -> (r: JsonValue)
    ensures
        match reply {
            Ok(rep) => is_reply_value(rep, default, r),
            Err(_) => r == default,
        },
{
    match reply {
        Ok(rep) => reply_value(rep, default),
        Err(_) => default,
    }
}


/// A `notify` call becomes a notification of its message, at level `Error`
/// exactly when its `level` is `"error"`, `Warning` exactly when it is
/// `"warning"`, and `Info` for any other level or none: the three levels are
/// told apart.
pub proof fn law_notify_levels(p: JsonValue, r: Option<UiOperation>)
    requires
        is_operation_for("notify"@, p, r),
    ensures
        r matches Some(UiOperation::Notify(n)) && n.message@ == text_of(p, "message"@) && {
            &&& (n.level == NotificationLevel::Error <==> str_field(p, "level"@) == Some("error"@))
            &&& (n.level == NotificationLevel::Warning <==> str_field(p, "level"@) == Some("warning"@))
            &&& (n.level == NotificationLevel::Info <==> str_field(p, "level"@) != Some("error"@)
                && str_field(p, "level"@) != Some("warning"@))
        },
{
    reveal_strlit("notify");
    reveal_strlit("custom");
    reveal_strlit("select");
    reveal_strlit("confirm");
    reveal_strlit("input");
    reveal_strlit("editor");
    reveal_strlit("error");
    reveal_strlit("warning");
    reveal_strlit("info");
    assert("notify"@[0] != "custom"@[0]);
    assert("notify"@[0] != "select"@[0]);
    assert("notify"@[0] != "confirm"@[0]);
    assert("notify"@[0] != "input"@[0]);
    assert("notify"@[0] != "editor"@[0]);
    assert("error"@[0] != "warning"@[0]);
    assert("info"@[0] != "warning"@[0]);
    assert("info"@[0] != "error"@[0]);
}

} // verus!
