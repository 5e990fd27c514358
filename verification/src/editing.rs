//! Editing a text buffer at a cursor counted in characters, moving between
//! lines, and naming key events the way keybindings spell them.

use vstd::prelude::*;
use crate::input::{InputEvent, KeyCode, KeyEvent};
use crate::render::{char_width, unicode_char_width};
use crate::text::{chars_of, push_char, push_str, string_from_chars};

verus! {

/// The text after inserting `inserted` at character `cursor` (at the end when
/// the cursor lies past it).
pub open spec fn inserted_at(text: Seq<char>, cursor: int, inserted: Seq<char>) -> Seq<char> {
    let at = if cursor < text.len() {
        cursor
    } else {
        text.len() as int
    };
    text.take(at) + inserted + text.skip(at)
}

/// Inserts `inserted` at the cursor and moves the cursor past it.
pub fn insert_text(text: &mut String, cursor: &mut usize, inserted: &str)
    requires
        *old(cursor) + inserted@.len() <= usize::MAX,
    ensures
        final(text)@ == inserted_at(old(text)@, *old(cursor) as int, inserted@),
        *final(cursor) == *old(cursor) + inserted@.len(),
{
    let chars = chars_of(text.as_str());
    let added = chars_of(inserted);
    let at = if *cursor < chars.len() {
        *cursor
    } else {
        chars.len()
    };
    let mut result: Vec<char> = Vec::new();
    let mut i: usize = 0;
    while i < at
        invariant
            i <= at <= chars@.len(),
            result@ == chars@.take(i as int),
        decreases at - i,
    {
        result.push(chars[i]);
        assert(chars@.take(i + 1) =~= chars@.take(i as int).push(chars@[i as int]));
        i += 1;
    }
    let mut j: usize = 0;
    while j < added.len()
        invariant
            j <= added@.len(),
            result@ == chars@.take(at as int) + added@.take(j as int),
        decreases added@.len() - j,
    {
        result.push(added[j]);
        assert(added@.take(j + 1) =~= added@.take(j as int).push(added@[j as int]));
        j += 1;
    }
    let mut k: usize = at;
    assert(added@.take(added@.len() as int) =~= added@);
    while k < chars.len()
        invariant
            at <= k <= chars@.len(),
            result@ == chars@.take(at as int) + added@ + chars@.subrange(at as int, k as int),
        decreases chars@.len() - k,
    {
        result.push(chars[k]);
        assert(chars@.subrange(at as int, k + 1) =~= chars@.subrange(at as int, k as int).push(
            chars@[k as int],
        ));
        k += 1;
    }
    assert(chars@.subrange(at as int, chars@.len() as int) =~= chars@.skip(at as int));
    *text = string_from_chars(result.as_slice());
    *cursor = *cursor + added.len();
}

/// Removes the character before the cursor and moves the cursor back.
pub fn backspace(text: &mut String, cursor: &mut usize)
    requires
        *old(cursor) <= old(text)@.len(),
    ensures
        *old(cursor) == 0 ==> final(text)@ == old(text)@ && *final(cursor) == 0,
        *old(cursor) > 0 ==> final(text)@ == old(text)@.remove(*old(cursor) - 1) && *final(cursor)
            == *old(cursor) - 1,
{
    if *cursor == 0 {
        return;
    }
    let mut chars = chars_of(text.as_str());
    chars.remove(*cursor - 1);
    *cursor = *cursor - 1;
    *text = string_from_chars(chars.as_slice());
}

/// Removes the character at the cursor, if there is one.
pub fn delete(text: &mut String, cursor: usize)
    ensures
        cursor < old(text)@.len() ==> final(text)@ == old(text)@.remove(cursor as int),
        cursor >= old(text)@.len() ==> final(text)@ == old(text)@,
{
    let mut chars = chars_of(text.as_str());
    if cursor < chars.len() {
        chars.remove(cursor);
        *text = string_from_chars(chars.as_slice());
    }
}

/// Where the line holding index `i` starts: after the last newline before `i`.
pub open spec fn line_start(s: Seq<char>, i: int) -> int
    decreases i,
{
    if i <= 0 {
        0
    } else if s[i - 1] == '\n' {
        i
    } else {
        line_start(s, i - 1)
    }
}

/// The index of the first newline at or after `i`, if any.
pub open spec fn next_newline(s: Seq<char>, i: int) -> Option<int>
    decreases s.len() - i,
{
    if i < 0 || i >= s.len() {
        None
    } else if s[i] == '\n' {
        Some(i)
    } else {
        next_newline(s, i + 1)
    }
}

proof fn lemma_line_start(s: Seq<char>, i: int)
    requires
        0 <= i <= s.len(),
    ensures
        0 <= line_start(s, i) <= i,
        line_start(s, i) > 0 ==> s[line_start(s, i) - 1] == '\n',
    decreases i,
{
    if i > 0 && s[i - 1] != '\n' {
        lemma_line_start(s, i - 1);
    }
}

proof fn lemma_next_newline(s: Seq<char>, i: int)
    requires
        0 <= i,
    ensures
        next_newline(s, i) matches Some(k) ==> i <= k < s.len() && s[k] == '\n',
    decreases s.len() - i,
{
    if i < s.len() && s[i] != '\n' {
        lemma_next_newline(s, i + 1);
    }
}

pub open spec fn min(a: int, b: int) -> int {
    if a < b {
        a
    } else {
        b
    }
}

/// The cursor after moving one line up (`up`) or down, keeping the column
/// where the target line is long enough; unchanged on the first line going up
/// and on the last line going down.
pub open spec fn moved_vertically(s: Seq<char>, cursor: int, up: bool) -> int {
    let current_start = line_start(s, cursor);
    let column = cursor - current_start;
    if up {
        if current_start == 0 {
            cursor
        } else {
            let previous_end = current_start - 1;
            let previous_start = line_start(s, previous_end);
            previous_start + min(column, previous_end - previous_start)
        }
    } else {
        match next_newline(s, cursor) {
            None => cursor,
            Some(current_end) => {
                let next_start = current_end + 1;
                let next_end = match next_newline(s, next_start) {
                    Some(e) => e,
                    None => s.len() as int,
                };
                next_start + min(column, next_end - next_start)
            },
        }
    }
}

fn find_line_start(chars: &Vec<char>, index: usize) -> (r: usize)
    requires
        index <= chars@.len(),
    ensures
        r == line_start(chars@, index as int),
{
    let mut i = index;
    while i > 0
        invariant
            i <= index <= chars@.len(),
            line_start(chars@, index as int) == line_start(chars@, i as int),
        decreases i,
    {
        if chars[i - 1] == '\n' {
            return i;
        }
        i -= 1;
    }
    0
}

fn find_newline(chars: &Vec<char>, from: usize) -> (r: Option<usize>)
    ensures
        match r {
            Some(k) => next_newline(chars@, from as int) == Some(k as int),
            None => next_newline(chars@, from as int) is None,
        },
{
    let mut i = from;
    while i < chars.len()
        invariant
            from <= i,
            next_newline(chars@, from as int) == next_newline(chars@, i as int),
        decreases chars@.len() - i,
    {
        if chars[i] == '\n' {
            return Some(i);
        }
        i += 1;
    }
    None
}

/// Moves the cursor one line up (negative direction) or down.
pub fn move_vertical(text: &str, cursor: &mut usize, direction: isize)
    requires
        *old(cursor) <= text@.len(),
    ensures
        *final(cursor) == moved_vertically(text@, *old(cursor) as int, direction < 0),
        *final(cursor) <= text@.len(),
{
    let chars = chars_of(text);
    proof {
        lemma_line_start(chars@, *cursor as int);
    }
    let current_start = find_line_start(&chars, *cursor);
    let column = *cursor - current_start;
    if direction < 0 {
        if current_start == 0 {
            return;
        }
        let previous_end = current_start - 1;
        proof {
            lemma_line_start(chars@, previous_end as int);
        }
        let previous_start = find_line_start(&chars, previous_end);
        let span = previous_end - previous_start;
        *cursor = previous_start + if column < span {
            column
        } else {
            span
        };
    } else {
        proof {
            lemma_next_newline(chars@, *cursor as int);
        }
        match find_newline(&chars, *cursor) {
            None => {},
            Some(current_end) => {
                let next_start = current_end + 1;
                proof {
                    lemma_next_newline(chars@, next_start as int);
                }
                let next_end = match find_newline(&chars, next_start) {
                    Some(e) => e,
                    None => chars.len(),
                };
                let span = next_end - next_start;
                *cursor = next_start + if column < span {
                    column
                } else {
                    span
                };
            },
        }
    }
}

/// The columns a character takes in the editor: as `unicode-width` reports
/// it, none when it reports nothing.
pub open spec fn editor_width(c: char) -> nat {
    match unicode_char_width(c) {
        Some(w) => w as nat,
        None => 0,
    }
}

/// Row and column of the cursor: a newline starts the next row, a tab moves
/// to the next multiple of four, other characters advance by their width
/// (counts stop at `usize::MAX`).
pub open spec fn position_after(s: Seq<char>) -> (usize, usize)
    decreases s.len(),
{
    if s.len() == 0 {
        (0, 0)
    } else {
        let (row, col) = position_after(s.drop_last());
        let c = s.last();
        if c == '\n' {
            (row.saturating_add(1), 0)
        } else if c == '\t' {
            (row, col.saturating_add((4 - col % 4) as usize))
        } else {
            (row, col.saturating_add(editor_width(c) as usize))
        }
    }
}

/// The row and column the cursor sits at after the first `cursor` characters.
pub fn cursor_position(text: &str, cursor: usize) -> (r: (usize, usize))
    ensures
        r == position_after(text@.take(if cursor <= text@.len() {
            cursor as int
        } else {
            text@.len() as int
        })),
{
    let chars = chars_of(text);
    let end = if cursor <= chars.len() {
        cursor
    } else {
        chars.len()
    };
    let mut row: usize = 0;
    let mut col: usize = 0;
    let mut i: usize = 0;
    while i < end
        invariant
            i <= end <= chars@.len(),
            chars@ == text@,
            (row, col) == position_after(chars@.take(i as int)),
        decreases end - i,
    {
        let c = chars[i];
        assert(chars@.take(i + 1).drop_last() =~= chars@.take(i as int));
        if c == '\n' {
            row = row.saturating_add(1);
            col = 0;
        } else if c == '\t' {
            col = col.saturating_add(4 - (col % 4));
        } else {
            let w = match char_width(c) {
                Some(w) => w,
                None => 0,
            };
            col = col.saturating_add(w);
        }
        i += 1;
    }
    (row, col)
}

/// The name of a key: its modifiers as `ctrl+`, `alt+`, `shift+` in that
/// order, then the key.
pub open spec fn spec_key_name(key: KeyEvent) -> Seq<char> {
    let prefix = (if key.modifiers.ctrl {
        "ctrl+"@
    } else {
        seq![]
    }) + (if key.modifiers.alt {
        "alt+"@
    } else {
        seq![]
    }) + (if key.modifiers.shift {
        "shift+"@
    } else {
        seq![]
    });
    prefix + match key.code {
        KeyCode::Enter => "enter"@,
        KeyCode::Esc => "esc"@,
        KeyCode::Char(ch) => seq![ch],
        KeyCode::Backspace => "backspace"@,
        KeyCode::Delete => "delete"@,
        KeyCode::Left => "left"@,
        KeyCode::Right => "right"@,
        KeyCode::Up => "up"@,
        KeyCode::Down => "down"@,
        KeyCode::Home => "home"@,
        KeyCode::End => "end"@,
        KeyCode::PageUp => "pageup"@,
        KeyCode::PageDown => "pagedown"@,
    }
}

/// The keybinding name of a key event; other events have none.
pub fn key_name(event: &InputEvent) -> (r: Option<String>)
    ensures
        crate::text::opt_string_view(r) == match event {
            InputEvent::Key(key) => Some(spec_key_name(*key)),
            _ => None,
        },
{
    let key = match event {
        InputEvent::Key(key) => *key,
        _ => return None,
    };
    let mut value = String::new();
    if key.modifiers.ctrl {
        push_str(&mut value, "ctrl+");
    }
    if key.modifiers.alt {
        push_str(&mut value, "alt+");
    }
    if key.modifiers.shift {
        push_str(&mut value, "shift+");
    }
    match key.code {
        KeyCode::Enter => push_str(&mut value, "enter"),
        KeyCode::Esc => push_str(&mut value, "esc"),
        KeyCode::Char(ch) => push_char(&mut value, ch),
        KeyCode::Backspace => push_str(&mut value, "backspace"),
        KeyCode::Delete => push_str(&mut value, "delete"),
        KeyCode::Left => push_str(&mut value, "left"),
        KeyCode::Right => push_str(&mut value, "right"),
        KeyCode::Up => push_str(&mut value, "up"),
        KeyCode::Down => push_str(&mut value, "down"),
        KeyCode::Home => push_str(&mut value, "home"),
        KeyCode::End => push_str(&mut value, "end"),
        KeyCode::PageUp => push_str(&mut value, "pageup"),
        KeyCode::PageDown => push_str(&mut value, "pagedown"),
    }
    assert(value@ =~= spec_key_name(key));
    Some(value)
}

/// Backspace undoes typing: a character inserted at the cursor and then
/// removed by backspace (with the cursor after it) leaves the text as it
/// was.
pub proof fn law_backspace_undoes_insert(text: Seq<char>, cursor: int, c: char)
    requires
        0 <= cursor <= text.len(),
    ensures
        inserted_at(text, cursor, seq![c]).remove(cursor) == text,
{
    assert(inserted_at(text, cursor, seq![c]).remove(cursor) =~= text);
}


/// Every index from a line's start up to the index it was computed from has
/// that same line start.
proof fn lemma_same_line(s: Seq<char>, i: int, j: int)
    requires
        0 <= i <= s.len(),
        line_start(s, i) <= j <= i,
    ensures
        line_start(s, j) == line_start(s, i),
    decreases i - j,
{
    lemma_line_start(s, i);
    if j < i {
        assert(s[i - 1] != '\n');
        lemma_same_line(s, i - 1, j);
    } else {
    }
}

proof fn lemma_line_start_at_newline(s: Seq<char>, k: int)
    requires
        0 <= k < s.len(),
        s[k] == '\n',
    ensures
        line_start(s, k + 1) == k + 1,
{
}

/// The end of the line that starts at `start`: its newline, or the text's end.
pub open spec fn line_end(s: Seq<char>, start: int) -> int {
    match next_newline(s, start) {
        Some(e) => e,
        None => s.len() as int,
    }
}

/// Moving up keeps the cursor's column on the line above, or goes to that
/// line's end when it is shorter; on the first line the cursor stays. Moving
/// down does the same with the line below; on the last line it stays.
pub proof fn law_vertical_moves_change_line(s: Seq<char>, cursor: int)
    requires
        0 <= cursor <= s.len(),
    ensures
        ({
            let start = line_start(s, cursor);
            let column = cursor - start;
            let up = moved_vertically(s, cursor, true);
            if start == 0 {
                up == cursor
            } else {
                let above = line_start(s, start - 1);
                &&& line_start(s, up) == above
                &&& above <= up <= start - 1
                &&& (column <= start - 1 - above ==> up - above == column)
                &&& (column > start - 1 - above ==> up == start - 1)
            }
        }),
        ({
            let start = line_start(s, cursor);
            let column = cursor - start;
            let down = moved_vertically(s, cursor, false);
            match next_newline(s, cursor) {
                None => down == cursor,
                Some(end) => {
                    let below = end + 1;
                    &&& line_start(s, down) == below
                    &&& below <= down <= line_end(s, below)
                    &&& (column <= line_end(s, below) - below ==> down - below == column)
                    &&& (column > line_end(s, below) - below ==> down == line_end(s, below))
                }
            }
        }),
{
    lemma_line_start(s, cursor);
    let start = line_start(s, cursor);
    if start > 0 {
        lemma_line_start(s, start - 1);
        let above = line_start(s, start - 1);
        let up = moved_vertically(s, cursor, true);
        lemma_same_line(s, start - 1, up);
    }
    lemma_next_newline(s, cursor);
    match next_newline(s, cursor) {
        None => {},
        Some(end) => {
            let below = end + 1;
            lemma_line_start_at_newline(s, end);
            lemma_next_newline(s, below);
            let stop = line_end(s, below);
            let down = moved_vertically(s, cursor, false);
            assert(below <= down <= stop);
            assert forall|m: int| below <= m < stop implies s[m] != '\n' by {
                if s[m] == '\n' {
                    lemma_first_newline(s, below, m);
                }
            }
            if down > below {
                assert forall|m: int| below <= m < down implies s[m] != '\n' by {}
                lemma_same_line_from(s, below, down);
            }
        },
    }
}

proof fn lemma_first_newline(s: Seq<char>, i: int, m: int)
    requires
        0 <= i <= m < s.len(),
        s[m] == '\n',
    ensures
        next_newline(s, i) matches Some(k) && k <= m,
    decreases m - i,
{
    if s[i] != '\n' {
        lemma_first_newline(s, i + 1, m);
    }
}

/// From a line start `b`, every index up to `d` with no newline between has
/// line start `b`.
proof fn lemma_same_line_from(s: Seq<char>, b: int, d: int)
    requires
        0 <= b <= d <= s.len(),
        b == 0 || s[b - 1] == '\n',
        forall|m: int| b <= m < d ==> s[m] != '\n',
    ensures
        line_start(s, d) == b,
    decreases d - b,
{
    if d > b {
        lemma_same_line_from(s, b, d - 1);
    }
}

} // verus!
