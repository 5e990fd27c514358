//! The transcript as the terminal shows it: every message under a label, the
//! reasoning, tool source and answer still streaming, and the tools still
//! running, in the order of their ids.

use vstd::prelude::*;
use crate::json::{JsonValue, json_display_text, json_parse, parse_json, str_field, text_eq};
use crate::markdown::{
    Line, LineView, Tint, empty_line, label, label_style, lines_view, markdown_lines,
    markdown_text, push_line, text_line, tinted, tinted_style,
};
use crate::message::{Message, MessageContent, StopReason, content_of};
use crate::state::{AppState, AppView, ToolState, ToolView, app_view, tool_view, tools_view};
use crate::text::push_str;

verus! {

/// The source a tool call shows: the `code` text of its JSON input, else the
/// input as it is.
pub open spec fn tool_source_of(input: Seq<char>) -> Seq<char> {
    match json_parse(input) {
        Some(v) => match str_field(v, "code"@) {
            Some(code) => code,
            None => input,
        },
        None => input,
    }
}

pub fn tool_source(input: &str) -> (r: String)
    ensures
        r@ == tool_source_of(input@),
{
    match parse_json(input) {
        Ok(v) => match v.get_str("code") {
            Some(code) => code.clone(),
            None => {
                let mut r = String::new();
                push_str(&mut r, input);
                r
            },
        },
        Err(_) => {
            let mut r = String::new();
            push_str(&mut r, input);
            r
        },
    }
}

/// A fenced code block of `lang` holding `body`.
pub open spec fn fenced(lang: Seq<char>, body: Seq<char>) -> Seq<char> {
    "```"@ + lang + "\n"@ + body + "\n```"@
}

fn fence(lang: &str, body: &str) -> (r: String)
    ensures
        r@ == fenced(lang@, body@),
{
    let mut r = String::new();
    push_str(&mut r, "```");
    push_str(&mut r, lang);
    push_str(&mut r, "\n");
    push_str(&mut r, body);
    push_str(&mut r, "\n```");
    assert(r@ =~= fenced(lang@, body@));
    r
}

/// A tool call's source as a TypeScript block.
pub open spec fn source_block(input: Seq<char>) -> Seq<char> {
    fenced("typescript"@, tool_source_of(input))
}

/// The lines of one block of a message.
pub open spec fn content_lines(c: MessageContent, width: int) -> Seq<LineView> {
    match c {
        MessageContent::Text { text } => markdown_lines(text@, width),
        MessageContent::Thinking { thinking, .. } => seq![text_line("Thinking"@, label(Tint::Magenta))]
            + markdown_lines(thinking@, width),
        MessageContent::ToolUse { name, input, .. } => seq![
            text_line("Tool source: "@ + name@, label(Tint::Yellow)),
        ] + markdown_lines(source_block(input@), width),
    }
}

pub open spec fn contents_lines(cs: Seq<MessageContent>, width: int) -> Seq<LineView>
    decreases cs.len(),
{
    if cs.len() == 0 {
        seq![]
    } else {
        contents_lines(cs.drop_last(), width) + content_lines(cs.last(), width)
    }
}

pub open spec fn label_text(m: Message) -> Seq<char> {
    match m {
        Message::User(_) => "You"@,
        Message::Assistant(_) => "Assistant"@,
        Message::ToolResult(_) => "Tool"@,
    }
}

pub open spec fn label_tint(m: Message) -> Tint {
    match m {
        Message::User(_) => Tint::Cyan,
        Message::Assistant(_) => Tint::Green,
        Message::ToolResult(_) => Tint::Yellow,
    }
}

/// The red line under an answer that failed or was cancelled.
pub open spec fn stop_lines(m: Message) -> Seq<LineView> {
    match m {
        Message::Assistant(a) => match a.stop_reason {
            StopReason::Error => seq![text_line("Error"@, tinted(Tint::Red))],
            StopReason::Aborted => seq![text_line("Aborted"@, tinted(Tint::Red))],
            _ => seq![],
        },
        _ => seq![],
    }
}

/// A message: its label, its blocks, how it stopped, and an empty line.
pub open spec fn message_block(m: Message, width: int) -> Seq<LineView> {
    seq![text_line(label_text(m), label(label_tint(m)))] + contents_lines(content_of(m), width)
        + stop_lines(m) + seq![empty_line()]
}

pub open spec fn messages_lines(ms: Seq<Message>, width: int) -> Seq<LineView>
    decreases ms.len(),
{
    if ms.len() == 0 {
        seq![]
    } else {
        messages_lines(ms.drop_last(), width) + message_block(ms.last(), width)
    }
}

/// `a` sorts before `b`, character by character.
pub open spec fn text_less(a: Seq<char>, b: Seq<char>) -> bool
    decreases a.len(),
{
    if a.len() == 0 {
        b.len() > 0
    } else if b.len() == 0 {
        false
    } else if a[0] != b[0] {
        (a[0] as u32) < (b[0] as u32)
    } else {
        text_less(a.drop_first(), b.drop_first())
    }
}

/// The index of the first entry with the least key.
pub open spec fn least_index(ts: Seq<(Seq<char>, ToolView)>) -> int
    decreases ts.len(),
{
    if ts.len() <= 1 {
        0
    } else {
        let j = least_index(ts.drop_last());
        if text_less(ts.last().0, ts[j].0) {
            ts.len() - 1
        } else {
            j
        }
    }
}

proof fn lemma_least_index(ts: Seq<(Seq<char>, ToolView)>)
    requires
        ts.len() > 0,
    ensures
        0 <= least_index(ts) < ts.len(),
    decreases ts.len(),
{
    if ts.len() > 1 {
        lemma_least_index(ts.drop_last());
    }
}

/// The entries in the order of their keys.
pub open spec fn by_key(ts: Seq<(Seq<char>, ToolView)>) -> Seq<(Seq<char>, ToolView)>
    decreases ts.len(),
{
    if ts.len() == 0 {
        seq![]
    } else {
        let m = least_index(ts);
        if 0 <= m < ts.len() {
            seq![ts[m]] + by_key(ts.remove(m))
        } else {
            seq![]
        }
    }
}

pub open spec fn json_block_lines(v: Option<JsonValue>, width: int) -> Seq<LineView> {
    match v {
        Some(j) => markdown_lines(fenced("json"@, json_display_text(j)), width),
        None => seq![],
    }
}

/// A result worth showing: neither `null` nor an empty object.
pub open spec fn shown_result(v: Option<JsonValue>) -> Option<JsonValue> {
    match v {
        Some(JsonValue::Null) => None,
        Some(JsonValue::Object(entries)) => if entries.len() == 0 {
            None
        } else {
            v
        },
        _ => v,
    }
}

/// A running tool: its name and status, its source, and what it has
/// reported so far.
pub open spec fn tool_block(t: ToolView, width: int) -> Seq<LineView> {
    seq![
        text_line(
            t.0 + ": "@ + t.1,
            tinted(
                if t.5 {
                    Tint::Red
                } else {
                    Tint::Yellow
                },
            ),
        ),
    ] + markdown_lines(source_block(t.2), width) + json_block_lines(t.3, width) + json_block_lines(
        shown_result(t.4),
        width,
    )
}

pub open spec fn is_running(t: ToolView) -> bool {
    t.1 == "running"@ || t.1 == "updating"@
}

pub open spec fn tools_lines(ts: Seq<(Seq<char>, ToolView)>, width: int) -> Seq<LineView>
    decreases ts.len(),
{
    if ts.len() == 0 {
        seq![]
    } else {
        tools_lines(ts.drop_last(), width) + if is_running(ts.last().1) {
            tool_block(ts.last().1, width)
        } else {
            seq![]
        }
    }
}

/// The lines of the transcript in `width` columns: the messages, then the
/// reasoning, the tool source and the answer being streamed (the answer
/// marked when it could not be stored), then the running tools by id.
pub open spec fn transcript_lines(s: AppView, width: int) -> Seq<LineView> {
    messages_lines(s.messages, width) + (if s.thinking.len() > 0 {
        seq![text_line("Thinking"@, label(Tint::Magenta))] + markdown_lines(s.thinking, width)
    } else {
        seq![]
    }) + (if s.tool_call_input.len() > 0 {
        seq![text_line("Tool source"@, label(Tint::Yellow))] + markdown_lines(
            source_block(s.tool_call_input),
            width,
        )
    } else {
        seq![]
    }) + (if s.partial.len() > 0 {
        seq![text_line("Assistant"@, label(Tint::Green))] + markdown_lines(s.partial, width) + (
        if s.partial_unpersisted {
            seq![text_line("Unpersisted"@, tinted(Tint::Red))]
        } else {
            seq![]
        })
    } else {
        seq![]
    }) + tools_lines(by_key(s.tools), width)
}

fn extend(lines: &mut Vec<Line>, more: Vec<Line>)
    ensures
        lines_view(final(lines)@) == lines_view(old(lines)@) + lines_view(more@),
{
    let mut more = more;
    let ghost added = more@;
    lines.append(&mut more);
    assert(lines_view(lines@) =~= lines_view(old(lines)@) + lines_view(added));
}

fn content_lines_of(c: &MessageContent, width: usize) -> (r: Vec<Line>)
    ensures
        lines_view(r@) == content_lines(*c, width as int),
{
    match c {
        MessageContent::Text { text } => markdown_text(text.as_str(), width),
        MessageContent::Thinking { thinking, .. } => {
            let mut r: Vec<Line> = Vec::new();
            push_line(&mut r, Line::styled("Thinking", label_style(Tint::Magenta)));
            extend(&mut r, markdown_text(thinking.as_str(), width));
            assert(lines_view(r@) =~= content_lines(*c, width as int));
            r
        },
        MessageContent::ToolUse { name, input, .. } => {
            let mut head = String::new();
            push_str(&mut head, "Tool source: ");
            push_str(&mut head, name.as_str());
            let mut r: Vec<Line> = Vec::new();
            push_line(&mut r, Line::styled(head.as_str(), label_style(Tint::Yellow)));
            let src = tool_source(input.as_str());
            let block = fence("typescript", src.as_str());
            extend(&mut r, markdown_text(block.as_str(), width));
            assert(lines_view(r@) =~= content_lines(*c, width as int));
            r
        },
    }
}

/// The lines of a message's blocks.
pub fn message_lines(message: &Message, width: usize) -> (r: Vec<Line>)
    ensures
        lines_view(r@) == contents_lines(content_of(*message), width as int),
{
    let content = message.content();
    let mut r: Vec<Line> = Vec::new();
    let mut i: usize = 0;
    assert(lines_view(r@) =~= contents_lines(content@.take(0), width as int));
    while i < content.len()
        invariant
            i <= content@.len(),
            content@ == content_of(*message),
            lines_view(r@) == contents_lines(content@.take(i as int), width as int),
        decreases content@.len() - i,
    {
        assert(content@.take(i + 1).drop_last() =~= content@.take(i as int));
        extend(&mut r, content_lines_of(&content[i], width));
        i += 1;
    }
    assert(content@.take(content@.len() as int) =~= content@);
    r
}

fn message_block_of(m: &Message, width: usize) -> (r: Vec<Line>)
    ensures
        lines_view(r@) == message_block(*m, width as int),
{
    let mut r: Vec<Line> = Vec::new();
    match m {
        Message::User(_) => push_line(&mut r, Line::styled("You", label_style(Tint::Cyan))),
        Message::Assistant(_) => push_line(&mut r, Line::styled("Assistant", label_style(Tint::Green))),
        Message::ToolResult(_) => push_line(&mut r, Line::styled("Tool", label_style(Tint::Yellow))),
    }
    extend(&mut r, message_lines(m, width));
    match m {
        Message::Assistant(a) => match a.stop_reason {
            StopReason::Error => push_line(&mut r, Line::styled("Error", tinted_style(Tint::Red))),
            StopReason::Aborted => push_line(&mut r, Line::styled("Aborted", tinted_style(Tint::Red))),
            _ => {},
        },
        _ => {},
    }
    push_line(&mut r, Line::empty());
    assert(lines_view(r@) =~= message_block(*m, width as int));
    r
}

/// Whether `a` sorts before `b`.
pub fn text_before(a: &str, b: &str) -> (r: bool)
    ensures
        r == text_less(a@, b@),
{
    let x = crate::text::chars_of(a);
    let y = crate::text::chars_of(b);
    let mut i: usize = 0;
    assert(x@.skip(0) =~= x@);
    assert(y@.skip(0) =~= y@);
    while i < x.len() && i < y.len() && x[i] == y[i]
        invariant
            i <= x@.len(),
            i <= y@.len(),
            x@ == a@,
            y@ == b@,
            text_less(a@, b@) == text_less(x@.skip(i as int), y@.skip(i as int)),
        decreases x@.len() - i,
    {
        assert(x@.skip(i as int).drop_first() =~= x@.skip(i + 1));
        assert(y@.skip(i as int).drop_first() =~= y@.skip(i + 1));
        i += 1;
    }
    if i == x.len() {
        assert(x@.skip(i as int).len() == 0);
        i < y.len()
    } else if i == y.len() {
        false
    } else {
        assert(x@.skip(i as int)[0] == x@[i as int]);
        assert(y@.skip(i as int)[0] == y@[i as int]);
        (x[i] as u32) < (y[i] as u32)
    }
}

spec fn picked(tools: Seq<(String, ToolState)>, work: Seq<usize>) -> Seq<(Seq<char>, ToolView)> {
    work.map_values(|k: usize| (tools[k as int].0@, tool_view(tools[k as int].1)))
}

fn tool_block_of(t: &ToolState, width: usize) -> (r: Vec<Line>)
    ensures
        lines_view(r@) == tool_block(tool_view(*t), width as int),
{
    let mut head = String::new();
    push_str(&mut head, t.name.as_str());
    push_str(&mut head, ": ");
    push_str(&mut head, t.status.as_str());
    let style = if t.is_error {
        tinted_style(Tint::Red)
    } else {
        tinted_style(Tint::Yellow)
    };
    let mut r: Vec<Line> = Vec::new();
    push_line(&mut r, Line::styled(head.as_str(), style));
    let src = tool_source(t.input.as_str());
    let block = fence("typescript", src.as_str());
    extend(&mut r, markdown_text(block.as_str(), width));
    let ghost mid = lines_view(r@);
    match &t.update {
        Some(u) => {
            let text = u.to_json_text();
            let block = fence("json", text.as_str());
            extend(&mut r, markdown_text(block.as_str(), width));
        },
        None => {},
    }
    assert(lines_view(r@) =~= mid + json_block_lines(t.update, width as int));
    let ghost mid2 = lines_view(r@);
    let show = match &t.result {
        Some(JsonValue::Null) => false,
        Some(JsonValue::Object(entries)) => entries.len() > 0,
        Some(_) => true,
        None => false,
    };
    if show {
        match &t.result {
            Some(v) => {
                let text = v.to_json_text();
                let block = fence("json", text.as_str());
                extend(&mut r, markdown_text(block.as_str(), width));
            },
            None => {},
        }
    }
    assert(lines_view(r@) =~= mid2 + json_block_lines(shown_result(t.result), width as int));
    assert(lines_view(r@) =~= tool_block(tool_view(*t), width as int));
    r
}

/// The lines of the transcript of `app` laid out in `width` columns.
pub fn transcript(app: &AppState, width: usize) -> (r: Vec<Line>)
    ensures
        lines_view(r@) == transcript_lines(app_view(*app), width as int),
{
    let ghost v = app_view(*app);
    let mut lines: Vec<Line> = Vec::new();
    let mut i: usize = 0;
    assert(lines_view(lines@) =~= messages_lines(app.messages@.take(0), width as int));
    while i < app.messages.len()
        invariant
            i <= app.messages@.len(),
            lines_view(lines@) == messages_lines(app.messages@.take(i as int), width as int),
        decreases app.messages@.len() - i,
    {
        assert(app.messages@.take(i + 1).drop_last() =~= app.messages@.take(i as int));
        extend(&mut lines, message_block_of(&app.messages[i], width));
        i += 1;
    }
    assert(app.messages@.take(app.messages@.len() as int) =~= app.messages@);
    let ghost after_messages = lines_view(lines@);
    if !app.thinking.as_str().is_empty() {
        push_line(&mut lines, Line::styled("Thinking", label_style(Tint::Magenta)));
        extend(&mut lines, markdown_text(app.thinking.as_str(), width));
    }
    let ghost after_thinking = lines_view(lines@);
    if !app.tool_call_input.as_str().is_empty() {
        push_line(&mut lines, Line::styled("Tool source", label_style(Tint::Yellow)));
        let src = tool_source(app.tool_call_input.as_str());
        let block = fence("typescript", src.as_str());
        extend(&mut lines, markdown_text(block.as_str(), width));
    }
    let ghost after_source = lines_view(lines@);
    if !app.partial.as_str().is_empty() {
        push_line(&mut lines, Line::styled("Assistant", label_style(Tint::Green)));
        extend(&mut lines, markdown_text(app.partial.as_str(), width));
        if app.partial_unpersisted {
            push_line(&mut lines, Line::styled("Unpersisted", tinted_style(Tint::Red)));
        }
    }
    let ghost after_partial = lines_view(lines@);
    assert(after_partial =~= messages_lines(v.messages, width as int) + (if v.thinking.len() > 0 {
        seq![text_line("Thinking"@, label(Tint::Magenta))] + markdown_lines(v.thinking, width as int)
    } else {
        seq![]
    }) + (if v.tool_call_input.len() > 0 {
        seq![text_line("Tool source"@, label(Tint::Yellow))] + markdown_lines(
            source_block(v.tool_call_input),
            width as int,
        )
    } else {
        seq![]
    }) + (if v.partial.len() > 0 {
        seq![text_line("Assistant"@, label(Tint::Green))] + markdown_lines(v.partial, width as int) + (
        if v.partial_unpersisted {
            seq![text_line("Unpersisted"@, tinted(Tint::Red))]
        } else {
            seq![]
        })
    } else {
        seq![]
    }));
    let ghost all = tools_view(app.tools@);
    let mut work: Vec<usize> = Vec::new();
    let mut k: usize = 0;
    while k < app.tools.len()
        invariant
            k <= app.tools@.len(),
            work@.len() == k,
            forall|j: int| 0 <= j < k ==> #[trigger] work@[j] == j,
        decreases app.tools@.len() - k,
    {
        work.push(k);
        k += 1;
    }
    assert(picked(app.tools@, work@) =~= all);
    let ghost mut done: Seq<(Seq<char>, ToolView)> = seq![];
    while work.len() > 0
        invariant
            forall|j: int| 0 <= j < work@.len() ==> #[trigger] work@[j] < app.tools@.len(),
            all == tools_view(app.tools@),
            done + by_key(picked(app.tools@, work@)) == by_key(all),
            lines_view(lines@) == after_partial + tools_lines(done, width as int),
        decreases work@.len(),
    {
        let ghost pw = picked(app.tools@, work@);
        let mut best: usize = 0;
        let mut j: usize = 1;
        assert(pw.take(1).len() == 1);
        while j < work.len()
            invariant
                1 <= j <= work@.len(),
                best < j,
                pw == picked(app.tools@, work@),
                forall|x: int| 0 <= x < work@.len() ==> #[trigger] work@[x] < app.tools@.len(),
                best == least_index(pw.take(j as int)),
            decreases work@.len() - j,
        {
            assert(pw.take(j + 1).drop_last() =~= pw.take(j as int));
            assert(pw.take(j + 1)[best as int] == pw[best as int]);
            if text_before(app.tools[work[j]].0.as_str(), app.tools[work[best]].0.as_str()) {
                best = j;
            }
            j += 1;
        }
        assert(pw.take(work@.len() as int) =~= pw);
        proof {
            lemma_least_index(pw);
        }
        let idx = work.remove(best);
        assert(picked(app.tools@, work@) =~= pw.remove(best as int));
        let t = &app.tools[idx].1;
        let running = text_eq(t.status.as_str(), "running") || text_eq(t.status.as_str(), "updating");
        let ghost entry = pw[best as int];
        if running {
            extend(&mut lines, tool_block_of(t, width));
        }
        proof {
            assert((done.push(entry)).drop_last() =~= done);
            assert(done.push(entry) + by_key(pw.remove(best as int)) =~= done + by_key(pw));
            done = done.push(entry);
        }
    }
    assert(by_key(picked(app.tools@, work@)) =~= Seq::<(Seq<char>, ToolView)>::empty());
    assert(done =~= by_key(all));
    lines
}

/// How many lines `text` splits into at its line feeds.
pub open spec fn split_count(text: Seq<char>) -> int
    decreases text.len(),
{
    if text.len() == 0 {
        1
    } else {
        split_count(text.drop_last()) + if text.last() == '\n' {
            1int
        } else {
            0int
        }
    }
}

/// The rows the editor takes on a screen `height` rows tall: its lines and
/// two more, at least three, and no more than the screen leaves beside the
/// status line and one transcript row (the line count taken as a `u16`).
pub open spec fn spec_editor_height(editor: Seq<char>, height: u16) -> u16 {
    let lines = split_count(editor) as u16;
    let want = if lines + 2 > u16::MAX {
        lines + 2 - 65536
    } else {
        lines + 2
    };
    let most = if height >= 5 {
        (height - 2) as u16
    } else {
        3u16
    };
    if want < 3 {
        3
    } else if want > most {
        most
    } else {
        want as u16
    }
}

pub fn editor_height(editor: &str, height: u16) -> (r: u16)
    ensures
        r == spec_editor_height(editor@, height),
{
    let chars = crate::text::chars_of(editor);
    let mut count: u128 = 1;
    let mut i: usize = 0;
    while i < chars.len()
        invariant
            i <= chars@.len(),
            chars@ == editor@,
            count == split_count(chars@.take(i as int)),
            count <= i + 1,
        decreases chars@.len() - i,
    {
        assert(chars@.take(i + 1).drop_last() =~= chars@.take(i as int));
        if chars[i] == '\n' {
            count = count + 1;
        }
        i += 1;
    }
    assert(chars@.take(chars@.len() as int) =~= chars@);
    let want = (count as u16).wrapping_add(2);
    let most = if height.saturating_sub(2) > 3 {
        height - 2
    } else {
        3
    };
    if want < 3 {
        3
    } else if want > most {
        most
    } else {
        want
    }
}

/// The screen cell of the editor's cursor: `row` rows below the editor's top
/// border and `col` columns in, kept inside the editor's area.
pub open spec fn spec_cursor_cell(x: u16, y: u16, right: u16, bottom: u16, row: usize, col: usize) -> (u16, u16) {
    let cx = if x + (col as u16) > u16::MAX {
        u16::MAX
    } else {
        (x + (col as u16)) as u16
    };
    let below = if (row as u16) + 1 > u16::MAX {
        0
    } else {
        (row as u16) + 1
    };
    let cy = if y + below > u16::MAX {
        u16::MAX
    } else {
        (y + below) as u16
    };
    let last_x = if right >= 1 {
        (right - 1) as u16
    } else {
        0u16
    };
    let last_y = if bottom >= 1 {
        (bottom - 1) as u16
    } else {
        0u16
    };
    (
        if cx < last_x {
            cx
        } else {
            last_x
        },
        if cy < last_y {
            cy
        } else {
            last_y
        },
    )
}

pub fn cursor_cell(x: u16, y: u16, right: u16, bottom: u16, row: usize, col: usize) -> (r: (u16, u16))
    ensures
        r == spec_cursor_cell(x, y, right, bottom, row, col),
{
    let cx = x.saturating_add(col as u16);
    let cy = y.saturating_add((row as u16).wrapping_add(1));
    let last_x = right.saturating_sub(1);
    let last_y = bottom.saturating_sub(1);
    (
        if cx < last_x {
            cx
        } else {
            last_x
        },
        if cy < last_y {
            cy
        } else {
            last_y
        },
    )
}

pub open spec fn status_name(s: crate::session::SessionStatus) -> Seq<char> {
    match s {
        crate::session::SessionStatus::Idle => "Idle"@,
        crate::session::SessionStatus::Running => "Running"@,
        crate::session::SessionStatus::Fatal => "Fatal"@,
        crate::session::SessionStatus::Closed => "Closed"@,
    }
}

/// The status line: the fatal error if there is one, else the session's
/// status; red when the session failed, grey otherwise.
pub open spec fn spec_status_line(s: AppView) -> LineView {
    text_line(
        match s.fatal_error {
            Some(e) => e,
            None => status_name(s.status),
        },
        tinted(
            if s.status == crate::session::SessionStatus::Fatal {
                Tint::Red
            } else {
                Tint::DarkGray
            },
        ),
    )
}

pub fn status_line(app: &AppState) -> (r: Line)
    ensures
        crate::markdown::line_view(r) == spec_status_line(app_view(*app)),
{
    let style = if app.status == crate::session::SessionStatus::Fatal {
        tinted_style(Tint::Red)
    } else {
        tinted_style(Tint::DarkGray)
    };
    match &app.fatal_error {
        Some(e) => Line::styled(e.as_str(), style),
        None => match app.status {
            crate::session::SessionStatus::Idle => Line::styled("Idle", style),
            crate::session::SessionStatus::Running => Line::styled("Running", style),
            crate::session::SessionStatus::Fatal => Line::styled("Fatal", style),
            crate::session::SessionStatus::Closed => Line::styled("Closed", style),
        },
    }
}

impl AppState {
    /// Places the transcript's scroll once it is laid out in `line_count`
    /// rows of which `height` are visible: at the bottom while following,
    /// else where the user left it (within range), following again once the
    /// bottom is reached.
    pub fn settle_scroll(&mut self, line_count: u16, height: u16)
        ensures
            ({
                let bottom = if line_count >= height {
                    (line_count - height) as u16
                } else {
                    0u16
                };
                let scroll = if old(self).follow || old(self).scroll >= bottom {
                    bottom
                } else {
                    old(self).scroll
                };
                app_view(*final(self)) == (AppView {
                    scroll,
                    follow: old(self).follow || scroll == bottom,
                    ..app_view(*old(self))
                })
            }),
    {
        let bottom = line_count.saturating_sub(height);
        if self.follow {
            self.scroll = bottom;
        } else {
            if self.scroll > bottom {
                self.scroll = bottom;
            }
            if self.scroll == bottom {
                self.follow = true;
            }
        }
    }
}

/// `a` sorts before `b`: by extension, then slot, then key.
pub open spec fn key_less(a: crate::state::ContributionKey, b: crate::state::ContributionKey) -> bool {
    text_less(a.0, b.0) || (a.0 == b.0 && (text_less(a.1, b.1) || (a.1 == b.1 && text_less(a.2, b.2))))
}

pub open spec fn least_entry(es: Seq<(crate::state::ContributionKey, Seq<char>)>) -> int
    decreases es.len(),
{
    if es.len() <= 1 {
        0
    } else {
        let j = least_entry(es.drop_last());
        if key_less(es.last().0, es[j].0) {
            es.len() - 1
        } else {
            j
        }
    }
}

proof fn lemma_least_entry(es: Seq<(crate::state::ContributionKey, Seq<char>)>)
    requires
        es.len() > 0,
    ensures
        0 <= least_entry(es) < es.len(),
    decreases es.len(),
{
    if es.len() > 1 {
        lemma_least_entry(es.drop_last());
    }
}

/// The contributions in the order of their keys.
pub open spec fn entries_by_key(es: Seq<(crate::state::ContributionKey, Seq<char>)>) -> Seq<(crate::state::ContributionKey, Seq<char>)>
    decreases es.len(),
{
    if es.len() == 0 {
        seq![]
    } else {
        let m = least_entry(es);
        if 0 <= m < es.len() {
            seq![es[m]] + entries_by_key(es.remove(m))
        } else {
            seq![]
        }
    }
}

/// The lines of the contents put in `slot`, in key order.
pub open spec fn slot_lines(es: Seq<(crate::state::ContributionKey, Seq<char>)>, slot: Seq<char>) -> Seq<Seq<char>>
    decreases es.len(),
{
    if es.len() == 0 {
        seq![]
    } else {
        slot_lines(es.drop_last(), slot) + if es.last().0.1 == slot {
            crate::markdown::text_pieces(es.last().1)
        } else {
            seq![]
        }
    }
}

fn entry_before(a: &(crate::ui_protocol::ExtensionId, String, String), b: &(crate::ui_protocol::ExtensionId, String, String)) -> (r: bool)
    ensures
        r == key_less(crate::state::contribution_key(*a), crate::state::contribution_key(*b)),
{
    if text_before(a.0.0.as_str(), b.0.0.as_str()) {
        return true;
    }
    if !text_eq(a.0.0.as_str(), b.0.0.as_str()) {
        return false;
    }
    if text_before(a.1.as_str(), b.1.as_str()) {
        return true;
    }
    if !text_eq(a.1.as_str(), b.1.as_str()) {
        return false;
    }
    text_before(a.2.as_str(), b.2.as_str())
}

spec fn picked_entries(es: Seq<((crate::ui_protocol::ExtensionId, String, String), String)>, work: Seq<usize>) -> Seq<(crate::state::ContributionKey, Seq<char>)> {
    work.map_values(|k: usize| (crate::state::contribution_key(es[k as int].0), es[k as int].1@))
}

impl AppState {
    /// The lines of everything extensions put in `slot`, in the order of
    /// their extension, slot and key.
    pub fn contribution_lines(&self, slot: &str) -> (r: Vec<String>)
        ensures
            r@.map_values(|s: String| s@) == slot_lines(
                entries_by_key(app_view(*self).ui.contributions),
                slot@,
            ),
    {
        let es = &self.ui.contributions;
        let ghost all = app_view(*self).ui.contributions;
        let mut work: Vec<usize> = Vec::new();
        let mut k: usize = 0;
        while k < es.len()
            invariant
                k <= es@.len(),
                work@.len() == k,
                forall|j: int| 0 <= j < k ==> #[trigger] work@[j] == j,
            decreases es@.len() - k,
        {
            work.push(k);
            k += 1;
        }
        assert(picked_entries(es@, work@) =~= all);
        let mut r: Vec<String> = Vec::new();
        let ghost mut done: Seq<(crate::state::ContributionKey, Seq<char>)> = seq![];
        while work.len() > 0
            invariant
                forall|j: int| 0 <= j < work@.len() ==> #[trigger] work@[j] < es@.len(),
                all == app_view(*self).ui.contributions,
                es == &self.ui.contributions,
                done + entries_by_key(picked_entries(es@, work@)) == entries_by_key(all),
                r@.map_values(|s: String| s@) == slot_lines(done, slot@),
            decreases work@.len(),
        {
            let ghost pw = picked_entries(es@, work@);
            let mut best: usize = 0;
            let mut j: usize = 1;
            assert(pw.take(1).len() == 1);
            while j < work.len()
                invariant
                    1 <= j <= work@.len(),
                    best < j,
                    pw == picked_entries(es@, work@),
                    forall|x: int| 0 <= x < work@.len() ==> #[trigger] work@[x] < es@.len(),
                    best == least_entry(pw.take(j as int)),
                decreases work@.len() - j,
            {
                assert(pw.take(j + 1).drop_last() =~= pw.take(j as int));
                assert(pw.take(j + 1)[best as int] == pw[best as int]);
                if entry_before(&es[work[j]].0, &es[work[best]].0) {
                    best = j;
                }
                j += 1;
            }
            assert(pw.take(work@.len() as int) =~= pw);
            proof {
                lemma_least_entry(pw);
            }
            let idx = work.remove(best);
            assert(picked_entries(es@, work@) =~= pw.remove(best as int));
            let ghost entry = pw[best as int];
            assert(entry.1 == es@[idx as int].1@);
            assert(entry.0.1 == es@[idx as int].0.1@);
            if text_eq(es[idx].0.1.as_str(), slot) {
                let line = crate::markdown::Line::raw(es[idx].1.as_str());
                let mut s: usize = 0;
                let ghost base = r@.map_values(|x: String| x@);
                assert(crate::markdown::line_view(line).0.len() == line.spans@.len());
                while s < line.spans.len()
                    invariant
                        s <= line.spans@.len(),
                        line.spans@.len() == crate::markdown::text_pieces(entry.1).len(),
                        crate::markdown::line_view(line).0 == crate::markdown::text_pieces(entry.1).map_values(
                            |p: Seq<char>| (p, crate::markdown::plain()),
                        ),
                        r@.map_values(|x: String| x@) == base + crate::markdown::text_pieces(entry.1).take(s as int),
                    decreases line.spans@.len() - s,
                {
                    assert(line.spans@[s as int].content@ == crate::markdown::text_pieces(entry.1)[s as int]) by {
                        assert(crate::markdown::line_view(line).0[s as int] == crate::markdown::span_view(line.spans@[s as int]));
                    }
                    let ghost before = r@;
                    let piece = line.spans[s].content.clone();
                    r.push(piece);
                    assert(r@.map_values(|x: String| x@) =~= before.map_values(|x: String| x@).push(piece@));
                    assert(crate::markdown::text_pieces(entry.1).take(s + 1) =~= crate::markdown::text_pieces(entry.1).take(s as int).push(crate::markdown::text_pieces(entry.1)[s as int]));
                    assert(r@.map_values(|x: String| x@) =~= base + crate::markdown::text_pieces(entry.1).take(s + 1));
                    s += 1;
                }
                assert(crate::markdown::text_pieces(entry.1).take(s as int) =~= crate::markdown::text_pieces(entry.1)) by {
                    assert(crate::markdown::line_view(line).0.len() == line.spans@.len());
                }
            }
            proof {
                assert((done.push(entry)).drop_last() =~= done);
                assert(done.push(entry) + entries_by_key(pw.remove(best as int)) =~= done + entries_by_key(pw));
                done = done.push(entry);
            }
            assert(r@.map_values(|x: String| x@) =~= slot_lines(done, slot@));
        }
        assert(entries_by_key(picked_entries(es@, work@)) =~= Seq::<(crate::state::ContributionKey, Seq<char>)>::empty());
        assert(done =~= entries_by_key(all));
        r
    }
}

} // verus!
