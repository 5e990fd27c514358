//! Markdown as the transcript shows it: styled lines from a markdown text,
//! tables drawn with box borders, and cell text wrapped to a column width.

use vstd::prelude::*;
use pulldown_cmark::{Event, Options, Parser, TagEnd};
use pulldown_cmark::TagEnd::{
    CodeBlock, Emphasis, Heading, Item, Paragraph, Strong, Table, TableCell, TableHead, TableRow,
};
use crate::render::{char_width, unicode_char_width};
use crate::text::{chars_of, push_char, push_str, spec_is_whitespace, string_from_chars};

verus! {

/// A foreground colour; `Default` leaves the terminal's own.
#[derive(Clone, Copy, Debug, PartialEq, Eq, Structural)]
pub enum Tint {
    Default,
    Cyan,
    Green,
    Yellow,
    Magenta,
    Red,
    DarkGray,
}

/// What a style does to a text modifier: leaves it, adds it or removes it.
#[derive(Clone, Copy, Debug, PartialEq, Eq, Structural)]
pub enum Change {
    Keep,
    Add,
    Remove,
}

#[derive(Clone, Copy, Debug, PartialEq, Eq, Structural)]
pub struct TextStyle {
    pub fg: Tint,
    pub bold: Change,
    pub italic: Change,
}

pub open spec fn plain() -> TextStyle {
    TextStyle { fg: Tint::Default, bold: Change::Keep, italic: Change::Keep }
}

/// A colour alone.
pub open spec fn tinted(fg: Tint) -> TextStyle {
    TextStyle { fg, bold: Change::Keep, italic: Change::Keep }
}

/// A colour in bold, as the transcript's labels use.
pub open spec fn label(fg: Tint) -> TextStyle {
    TextStyle { fg, bold: Change::Add, italic: Change::Keep }
}

pub fn plain_style() -> (r: TextStyle)
    ensures
        r == plain(),
{
    TextStyle { fg: Tint::Default, bold: Change::Keep, italic: Change::Keep }
}

pub fn tinted_style(fg: Tint) -> (r: TextStyle)
    ensures
        r == tinted(fg),
{
    TextStyle { fg, bold: Change::Keep, italic: Change::Keep }
}

pub fn label_style(fg: Tint) -> (r: TextStyle)
    ensures
        r == label(fg),
{
    TextStyle { fg, bold: Change::Add, italic: Change::Keep }
}

#[derive(Debug)]
pub struct Span {
    pub content: String,
    pub style: TextStyle,
}

/// A line of spans, with a style under them all.
#[derive(Debug)]
pub struct Line {
    pub spans: Vec<Span>,
    pub style: TextStyle,
}

pub type SpanView = (Seq<char>, TextStyle);

pub type LineView = (Seq<SpanView>, TextStyle);

pub open spec fn span_view(s: Span) -> SpanView {
    (s.content@, s.style)
}

pub open spec fn line_view(l: Line) -> LineView {
    (l.spans@.map_values(|s: Span| span_view(s)), l.style)
}

pub open spec fn lines_view(ls: Seq<Line>) -> Seq<LineView> {
    ls.map_values(|l: Line| line_view(l))
}

/// A line with no spans.
pub open spec fn empty_line() -> LineView {
    (seq![], plain())
}

/// `s` without one carriage return at its end.
pub open spec fn strip_cr(s: Seq<char>) -> Seq<char> {
    if s.len() > 0 && s.last() == '\r' {
        s.drop_last()
    } else {
        s
    }
}

/// The finished pieces of `s` and the piece being read, cut at each line
/// feed (a carriage return before the line feed is dropped).
pub open spec fn pieces_scan(s: Seq<char>) -> (Seq<Seq<char>>, Seq<char>)
    decreases s.len(),
{
    if s.len() == 0 {
        (seq![], seq![])
    } else {
        let st = pieces_scan(s.drop_last());
        if s.last() == '\n' {
            (st.0.push(strip_cr(st.1)), seq![])
        } else {
            (st.0, st.1.push(s.last()))
        }
    }
}

/// The lines of a text as `str::lines` gives them: a final line feed ends
/// the last line rather than starting an empty one.
pub open spec fn text_pieces(s: Seq<char>) -> Seq<Seq<char>> {
    let st = pieces_scan(s);
    if st.1.len() > 0 {
        st.0.push(st.1)
    } else {
        st.0
    }
}

/// A line made from a text: one unstyled span per line of the text, and
/// `style` under them.
pub open spec fn text_line(s: Seq<char>, style: TextStyle) -> LineView {
    (text_pieces(s).map_values(|p: Seq<char>| (p, plain())), style)
}

impl Line {
    /// A line without spans or style.
    pub fn empty() -> (r: Line)
        ensures
            line_view(r) == empty_line(),
    {
        let r = Line { spans: Vec::new(), style: plain_style() };
        assert(line_view(r).0 =~= seq![]);
        r
    }

    /// A line showing `content` in `style` (each line of `content` becomes a
    /// span of its own).
    pub fn styled(content: &str, style: TextStyle) -> (r: Line)
        ensures
            line_view(r) == text_line(content@, style),
    {
        let chars = chars_of(content);
        let mut spans: Vec<Span> = Vec::new();
        let mut cur: Vec<char> = Vec::new();
        let mut i: usize = 0;
        while i < chars.len()
            invariant
                i <= chars@.len(),
                chars@ == content@,
                spans@.map_values(|s: Span| span_view(s)) == pieces_scan(chars@.take(i as int)).0.map_values(
                    |p: Seq<char>| (p, plain()),
                ),
                cur@ == pieces_scan(chars@.take(i as int)).1,
            decreases chars@.len() - i,
        {
            assert(chars@.take(i + 1).drop_last() =~= chars@.take(i as int));
            let c = chars[i];
            if c == '\n' {
                if cur.len() > 0 && cur[cur.len() - 1] == '\r' {
                    cur.pop();
                }
                let ghost before = spans@;
                spans.push(Span { content: string_from_chars(cur.as_slice()), style: plain_style() });
                assert(spans@.map_values(|s: Span| span_view(s)) =~= before.map_values(
                    |s: Span| span_view(s),
                ).push((cur@, plain())));
                cur = Vec::new();
            } else {
                cur.push(c);
            }
            assert(pieces_scan(chars@.take(i + 1)).0.map_values(|p: Seq<char>| (p, plain())) =~= (
            if c == '\n' {
                pieces_scan(chars@.take(i as int)).0.push(strip_cr(pieces_scan(chars@.take(i as int)).1))
            } else {
                pieces_scan(chars@.take(i as int)).0
            }).map_values(|p: Seq<char>| (p, plain())));
            i += 1;
        }
        assert(chars@.take(chars@.len() as int) =~= chars@);
        if cur.len() > 0 {
            let ghost before = spans@;
            spans.push(Span { content: string_from_chars(cur.as_slice()), style: plain_style() });
            assert(spans@.map_values(|s: Span| span_view(s)) =~= before.map_values(
                |s: Span| span_view(s),
            ).push((cur@, plain())));
            assert(text_pieces(content@).map_values(|p: Seq<char>| (p, plain())) =~= pieces_scan(
                content@,
            ).0.push(cur@).map_values(|p: Seq<char>| (p, plain())));
        }
        Line { spans, style }
    }

    /// A line showing `content` without style.
    pub fn raw(content: &str) -> (r: Line)
        ensures
            line_view(r) == text_line(content@, plain()),
    {
        Line::styled(content, plain_style())
    }
}

/// The columns a text takes on a terminal, as `unicode-width` counts them.
pub uninterp spec fn unicode_str_width(s: Seq<char>) -> usize;

/// `UnicodeWidthStr::width`: claimed only to return what
/// [`unicode_str_width`] names for `s`.
#[verifier::external_body]
pub(crate) fn str_width(s: &str) -> (r: usize)
    ensures
        r == unicode_str_width(s@),
{
    unicode_width::UnicodeWidthStr::width(s)
}

pub open spec fn cols(s: Seq<char>) -> int {
    unicode_str_width(s) as int
}

/// The columns a character takes (none for a control character).
pub open spec fn char_cols(c: char) -> int {
    match unicode_char_width(c) {
        Some(w) => w as int,
        None => 0,
    }
}

/// The words of `s` found so far and the word being read.
pub open spec fn words_scan(s: Seq<char>) -> (Seq<Seq<char>>, Seq<char>)
    decreases s.len(),
{
    if s.len() == 0 {
        (seq![], seq![])
    } else {
        let st = words_scan(s.drop_last());
        if spec_is_whitespace(s.last()) {
            if st.1.len() > 0 {
                (st.0.push(st.1), seq![])
            } else {
                st
            }
        } else {
            (st.0, st.1.push(s.last()))
        }
    }
}

/// The words of `s`: its runs of characters other than white space
/// (`str::split_whitespace`).
pub open spec fn words(s: Seq<char>) -> Seq<Seq<char>> {
    let st = words_scan(s);
    if st.1.len() > 0 {
        st.0.push(st.1)
    } else {
        st.0
    }
}

pub fn split_words(s: &str) -> (r: Vec<String>)
    ensures
        r@.map_values(|w: String| w@) == words(s@),
{
    let chars = chars_of(s);
    let mut done: Vec<String> = Vec::new();
    let mut cur: Vec<char> = Vec::new();
    let mut i: usize = 0;
    while i < chars.len()
        invariant
            i <= chars@.len(),
            chars@ == s@,
            done@.map_values(|w: String| w@) == words_scan(chars@.take(i as int)).0,
            cur@ == words_scan(chars@.take(i as int)).1,
        decreases chars@.len() - i,
    {
        assert(chars@.take(i + 1).drop_last() =~= chars@.take(i as int));
        let c = chars[i];
        if crate::text::is_whitespace(c) {
            if cur.len() > 0 {
                let ghost before = done@;
                done.push(string_from_chars(cur.as_slice()));
                assert(done@.map_values(|w: String| w@) =~= before.map_values(|w: String| w@).push(
                    cur@,
                ));
                cur = Vec::new();
            }
        } else {
            cur.push(c);
        }
        i += 1;
    }
    assert(chars@.take(chars@.len() as int) =~= chars@);
    if cur.len() > 0 {
        let ghost before = done@;
        done.push(string_from_chars(cur.as_slice()));
        assert(done@.map_values(|w: String| w@) =~= before.map_values(|w: String| w@).push(cur@));
    }
    done
}

/// The lines finished so far and the line being filled.
pub type Wrapping = (Seq<Seq<char>>, Seq<char>);

/// Adds a character, first closing the line when the character would
/// overflow it.
pub open spec fn wrap_char(st: Wrapping, c: char, width: int) -> Wrapping {
    let st1 = if cols(st.1) + char_cols(c) > width && st.1.len() > 0 {
        (st.0.push(st.1), seq![])
    } else {
        st
    };
    (st1.0, st1.1.push(c))
}

pub open spec fn wrap_chars(st: Wrapping, word: Seq<char>, width: int) -> Wrapping
    decreases word.len(),
{
    if word.len() == 0 {
        st
    } else {
        wrap_char(wrap_chars(st, word.drop_last(), width), word.last(), width)
    }
}

/// Adds a word: on a new line when it would not fit after a space, then
/// character by character.
pub open spec fn wrap_word(st: Wrapping, word: Seq<char>, width: int) -> Wrapping {
    let st1 = if st.1.len() > 0 && cols(st.1) + 1 + cols(word) > width {
        (st.0.push(st.1), seq![])
    } else {
        st
    };
    let st2 = if st1.1.len() > 0 {
        (st1.0, st1.1.push(' '))
    } else {
        st1
    };
    wrap_chars(st2, word, width)
}

pub open spec fn wrap_words(ws: Seq<Seq<char>>, width: int) -> Wrapping
    decreases ws.len(),
{
    if ws.len() == 0 {
        (seq![], seq![])
    } else {
        wrap_word(wrap_words(ws.drop_last(), width), ws.last(), width)
    }
}

/// The words of `text` laid out in lines of at most `width` columns (a word
/// longer than a line is broken between characters); at least one line.
pub open spec fn wrapped(text: Seq<char>, width: int) -> Seq<Seq<char>> {
    let st = wrap_words(words(text), width);
    if st.1.len() > 0 || st.0.len() == 0 {
        st.0.push(st.1)
    } else {
        st.0
    }
}

/// Whether `a + b > c`, for any sizes.
fn sum_exceeds(a: usize, b: usize, c: usize) -> (r: bool)
    ensures
        r == (a + b > c),
{
    (a as u128) + (b as u128) > (c as u128)
}

/// Whether `a + 1 + b > c`, for any sizes.
fn spaced_exceeds(a: usize, b: usize, c: usize) -> (r: bool)
    ensures
        r == (a + 1 + b > c),
{
    (a as u128) + 1 + (b as u128) > (c as u128)
}

fn close_line(result: &mut Vec<String>, line: &mut String)
    ensures
        final(result)@.map_values(|s: String| s@) == old(result)@.map_values(|s: String| s@).push(
            old(line)@,
        ),
        final(line)@ == Seq::<char>::empty(),
{
    let mut taken = String::new();
    std::mem::swap(&mut taken, line);
    let ghost before = result@;
    result.push(taken);
    assert(result@.map_values(|s: String| s@) =~= before.map_values(|s: String| s@).push(
        old(line)@,
    ));
}

/// The lines of a table cell of `width` columns.
pub fn wrap_cell(text: &str, width: usize) -> (r: Vec<String>)
    ensures
        r@.map_values(|s: String| s@) == wrapped(text@, width as int),
        r@.len() >= 1,
{
    let all = split_words(text);
    let ghost ws = all@.map_values(|w: String| w@);
    let mut result: Vec<String> = Vec::new();
    let mut line = String::new();
    let mut k: usize = 0;
    while k < all.len()
        invariant
            k <= all@.len(),
            ws == all@.map_values(|w: String| w@),
            ws == words(text@),
            (result@.map_values(|s: String| s@), line@) == wrap_words(ws.take(k as int), width as int),
        decreases all@.len() - k,
    {
        assert(ws.take(k + 1).drop_last() =~= ws.take(k as int));
        let word = all[k].as_str();
        if !line.as_str().is_empty() && spaced_exceeds(str_width(line.as_str()), str_width(word), width) {
            close_line(&mut result, &mut line);
        }
        if !line.as_str().is_empty() {
            push_char(&mut line, ' ');
        }
        let ghost start: Wrapping = (result@.map_values(|s: String| s@), line@);
        let chars = chars_of(word);
        let mut j: usize = 0;
        while j < chars.len()
            invariant
                j <= chars@.len(),
                chars@ == word@,
                (result@.map_values(|s: String| s@), line@) == wrap_chars(start, chars@.take(j as int), width as int),
            decreases chars@.len() - j,
        {
            assert(chars@.take(j + 1).drop_last() =~= chars@.take(j as int));
            let c = chars[j];
            let cw: usize = match char_width(c) {
                Some(w) => w,
                None => 0,
            };
            if sum_exceeds(str_width(line.as_str()), cw, width) && !line.as_str().is_empty() {
                close_line(&mut result, &mut line);
            }
            push_char(&mut line, c);
            j += 1;
        }
        assert(chars@.take(chars@.len() as int) =~= chars@);
        k += 1;
    }
    assert(ws.take(all@.len() as int) =~= ws);
    if !line.as_str().is_empty() || result.len() == 0 {
        let ghost before = result@;
        result.push(line);
        assert(result@.map_values(|s: String| s@) =~= before.map_values(|s: String| s@).push(
            wrap_words(ws, width as int).1,
        ));
    }
    result
}

pub open spec fn rows_view(rows: Seq<Vec<String>>) -> Seq<Seq<Seq<char>>> {
    rows.map_values(|r: Vec<String>| r@.map_values(|s: String| s@))
}

/// The length of the longest row.
pub open spec fn column_count(rows: Seq<Seq<Seq<char>>>) -> int
    decreases rows.len(),
{
    if rows.len() == 0 {
        0
    } else {
        let c = column_count(rows.drop_last());
        if rows.last().len() > c {
            rows.last().len() as int
        } else {
            c
        }
    }
}

/// The columns of column `c`'s widest cell, and at least one.
pub open spec fn natural_width(rows: Seq<Seq<Seq<char>>>, c: int) -> int
    decreases rows.len(),
{
    if rows.len() == 0 {
        1
    } else {
        let w = natural_width(rows.drop_last(), c);
        let r = rows.last();
        if 0 <= c < r.len() {
            let cw = if cols(r[c]) > 1 {
                cols(r[c])
            } else {
                1
            };
            if cw > w {
                cw
            } else {
                w
            }
        } else {
            w
        }
    }
}

proof fn lemma_natural_width(rows: Seq<Seq<Seq<char>>>)
    ensures
        forall|c: int| 1 <= #[trigger] natural_width(rows, c) <= usize::MAX,
    decreases rows.len(),
{
    if rows.len() > 0 {
        lemma_natural_width(rows.drop_last());
        assert forall|c: int| 1 <= #[trigger] natural_width(rows, c) <= usize::MAX by {
            assert(1 <= natural_width(rows.drop_last(), c) <= usize::MAX);
        }
    }
}

pub open spec fn natural_widths(rows: Seq<Seq<Seq<char>>>, columns: int) -> Seq<usize> {
    Seq::new(columns as nat, |c: int| natural_width(rows, c) as usize)
}

pub open spec fn seq_sum(ws: Seq<usize>) -> nat
    decreases ws.len(),
{
    if ws.len() == 0 {
        0
    } else {
        seq_sum(ws.drop_last()) + ws.last() as nat
    }
}

/// The index of the last of the widest columns.
pub open spec fn last_max(ws: Seq<usize>) -> int
    decreases ws.len(),
{
    if ws.len() <= 1 {
        0
    } else {
        let j = last_max(ws.drop_last());
        if ws.last() >= ws[j] {
            ws.len() - 1
        } else {
            j
        }
    }
}

pub proof fn lemma_last_max(ws: Seq<usize>)
    requires
        ws.len() > 0,
    ensures
        0 <= last_max(ws) < ws.len(),
    decreases ws.len(),
{
    if ws.len() > 1 {
        lemma_last_max(ws.drop_last());
    }
}

pub proof fn lemma_sum_update(ws: Seq<usize>, i: int, v: usize)
    requires
        0 <= i < ws.len(),
    ensures
        seq_sum(ws.update(i, v)) == seq_sum(ws) - ws[i] + v,
    decreases ws.len(),
{
    if i == ws.len() - 1 {
        assert(ws.update(i, v).drop_last() =~= ws.drop_last());
    } else {
        lemma_sum_update(ws.drop_last(), i, v);
        assert(ws.update(i, v).drop_last() =~= ws.drop_last().update(i, v));
    }
}

/// Narrows the widest column (the last of them) one column at a time until
/// the widths fit in `limit` or every column is one wide.
pub open spec fn shrink(ws: Seq<usize>, limit: int) -> Seq<usize>
    decreases seq_sum(ws),
{
    if seq_sum(ws) <= limit {
        ws
    } else {
        let i = last_max(ws);
        if 0 <= i < ws.len() && ws[i] > 1 {
            proof {
                lemma_sum_update(ws, i, (ws[i] - 1) as usize);
            }
            shrink(ws.update(i, (ws[i] - 1) as usize), limit)
        } else {
            ws
        }
    }
}

/// What is left of `width` for cell text once borders and padding are drawn.
pub open spec fn content_room(width: int, columns: int) -> int {
    if width >= 3 * columns + 1 {
        width - (3 * columns + 1)
    } else {
        0
    }
}

pub open spec fn capped(n: int) -> int {
    if n > usize::MAX {
        usize::MAX as int
    } else {
        n
    }
}

pub open spec fn repeated(c: char, n: int) -> Seq<char> {
    Seq::new(n as nat, |_i: int| c)
}

pub open spec fn border_cells(ws: Seq<usize>, k: int, middle: char, right: char) -> Seq<char>
    decreases k,
{
    if k <= 0 {
        seq![]
    } else {
        border_cells(ws, k - 1, middle, right) + repeated('─', capped(ws[k - 1] + 2)) + seq![
            if k == ws.len() {
                right
            } else {
                middle
            },
        ]
    }
}

/// A horizontal border over columns of widths `ws`.
pub open spec fn border(ws: Seq<usize>, left: char, middle: char, right: char) -> Seq<char> {
    seq![left] + border_cells(ws, ws.len() as int, middle, right)
}

pub open spec fn cell_of(row: Seq<Seq<char>>, i: int) -> Seq<char> {
    if 0 <= i < row.len() {
        row[i]
    } else {
        seq![]
    }
}

/// The lines of each cell of a row.
pub open spec fn wrapped_cells(row: Seq<Seq<char>>, ws: Seq<usize>) -> Seq<Seq<Seq<char>>> {
    Seq::new(ws.len(), |i: int| wrapped(cell_of(row, i), ws[i] as int))
}

pub open spec fn max_len(s: Seq<Seq<Seq<char>>>) -> int
    decreases s.len(),
{
    if s.len() == 0 {
        0
    } else {
        let m = max_len(s.drop_last());
        if s.last().len() > m {
            s.last().len() as int
        } else {
            m
        }
    }
}

/// One cell's part of a text line: the cell's `li`-th line padded to the
/// column's width, then a border.
pub open spec fn cell_part(lines: Seq<Seq<char>>, li: int, w: usize) -> Seq<char> {
    let cell = if 0 <= li < lines.len() {
        lines[li]
    } else {
        seq![]
    };
    let room = if w >= cols(cell) {
        w - cols(cell)
    } else {
        0
    };
    seq![' '] + cell + repeated(' ', capped(room + 1)) + seq!['│']
}

pub open spec fn row_text(wr: Seq<Seq<Seq<char>>>, ws: Seq<usize>, li: int, k: int) -> Seq<char>
    decreases k,
{
    if k <= 0 {
        seq!['│']
    } else {
        row_text(wr, ws, li, k - 1) + cell_part(wr[k - 1], li, ws[k - 1])
    }
}

/// The text lines of one table row: as many as its tallest cell needs.
pub open spec fn row_lines(row: Seq<Seq<char>>, ws: Seq<usize>) -> Seq<LineView> {
    let wr = wrapped_cells(row, ws);
    Seq::new(
        max_len(wr) as nat,
        |li: int| text_line(row_text(wr, ws, li, ws.len() as int), plain()),
    )
}

pub open spec fn body_lines(rows: Seq<Seq<Seq<char>>>, ws: Seq<usize>, k: int) -> Seq<LineView>
    decreases k,
{
    if k <= 0 {
        seq![]
    } else {
        body_lines(rows, ws, k - 1) + row_lines(rows[k - 1], ws) + if k < rows.len() {
            seq![text_line(border(ws, '├', '┼', '┤'), plain())]
        } else {
            seq![]
        }
    }
}

/// The lines of a table of `rows` in `width` columns: nothing for a table
/// without cells, else a box with a rule between rows, and an empty line.
pub open spec fn table_lines(rows: Seq<Seq<Seq<char>>>, width: int) -> Seq<LineView> {
    let columns = column_count(rows);
    if rows.len() == 0 || columns == 0 {
        seq![]
    } else {
        let ws = shrink(natural_widths(rows, columns), content_room(width, columns));
        seq![text_line(border(ws, '┌', '┬', '┐'), plain())] + body_lines(rows, ws, rows.len() as int)
            + seq![text_line(border(ws, '└', '┴', '┘'), plain()), empty_line()]
    }
}

proof fn lemma_column_count(rows: Seq<Seq<Seq<char>>>)
    ensures
        column_count(rows) >= 0,
        forall|i: int| 0 <= i < rows.len() ==> #[trigger] rows[i].len() <= column_count(rows),
    decreases rows.len(),
{
    if rows.len() > 0 {
        lemma_column_count(rows.drop_last());
        assert forall|i: int| 0 <= i < rows.len() implies #[trigger] rows[i].len() <= column_count(rows) by {
            if i < rows.len() - 1 {
                assert(rows.drop_last()[i] == rows[i]);
            }
        }
    }
}

proof fn lemma_sum_prefix(ws: Seq<usize>, k: int)
    requires
        0 <= k <= ws.len(),
    ensures
        seq_sum(ws.take(k)) <= seq_sum(ws),
    decreases ws.len() - k,
{
    if k < ws.len() {
        lemma_sum_prefix(ws, k + 1);
        assert(ws.take(k + 1).drop_last() =~= ws.take(k));
    } else {
        assert(ws.take(k) =~= ws);
    }
}

/// Whether the widths add up to more than `limit`.
fn sum_over(ws: &Vec<usize>, limit: usize) -> (r: bool)
    ensures
        r == (seq_sum(ws@) > limit),
{
    let mut acc: u128 = 0;
    let mut i: usize = 0;
    while i < ws.len()
        invariant
            i <= ws@.len(),
            acc == seq_sum(ws@.take(i as int)),
            acc <= limit,
        decreases ws@.len() - i,
    {
        assert(ws@.take(i + 1).drop_last() =~= ws@.take(i as int));
        acc = acc + ws[i] as u128;
        if acc > limit as u128 {
            proof {
                lemma_sum_prefix(ws@, i + 1);
            }
            return true;
        }
        i += 1;
    }
    assert(ws@.take(ws@.len() as int) =~= ws@);
    false
}

fn last_max_index(ws: &Vec<usize>) -> (r: usize)
    requires
        ws@.len() > 0,
    ensures
        r == last_max(ws@),
        r < ws@.len(),
{
    let mut best: usize = 0;
    let mut i: usize = 1;
    assert(ws@.take(1).len() == 1);
    while i < ws.len()
        invariant
            1 <= i <= ws@.len(),
            best < i,
            best == last_max(ws@.take(i as int)),
        decreases ws@.len() - i,
    {
        assert(ws@.take(i + 1).drop_last() =~= ws@.take(i as int));
        if ws[i] >= ws[best] {
            best = i;
        }
        i += 1;
    }
    assert(ws@.take(ws@.len() as int) =~= ws@);
    best
}

fn push_repeated(s: &mut String, c: char, n: usize)
    ensures
        final(s)@ == old(s)@ + repeated(c, n as int),
{
    let mut i: usize = 0;
    while i < n
        invariant
            i <= n,
            s@ == old(s)@ + repeated(c, i as int),
        decreases n - i,
    {
        push_char(s, c);
        assert(s@ =~= old(s)@ + repeated(c, i + 1));
        i += 1;
    }
}

fn border_text(ws: &Vec<usize>, left: char, middle: char, right: char) -> (r: String)
    ensures
        r@ == border(ws@, left, middle, right),
{
    let mut text = String::new();
    push_char(&mut text, left);
    let mut k: usize = 0;
    while k < ws.len()
        invariant
            k <= ws@.len(),
            text@ == seq![left] + border_cells(ws@, k as int, middle, right),
        decreases ws@.len() - k,
    {
        push_repeated(&mut text, '─', ws[k].saturating_add(2));
        if k + 1 == ws.len() {
            push_char(&mut text, right);
        } else {
            push_char(&mut text, middle);
        }
        assert(text@ =~= seq![left] + border_cells(ws@, k + 1, middle, right));
        k += 1;
    }
    text
}

pub(crate) fn push_line(lines: &mut Vec<Line>, line: Line)
    ensures
        lines_view(final(lines)@) == lines_view(old(lines)@).push(line_view(line)),
        final(lines)@.len() == old(lines)@.len() + 1,
{
    let ghost before = lines@;
    lines.push(line);
    assert(lines_view(lines@) =~= lines_view(before).push(line_view(line)));
}

fn row_cells(row: &Vec<String>, ws: &Vec<usize>) -> (r: Vec<Vec<String>>)
    ensures
        rows_view(r@) == wrapped_cells(row@.map_values(|s: String| s@), ws@),
{
    let ghost rv = row@.map_values(|s: String| s@);
    let mut r: Vec<Vec<String>> = Vec::new();
    let mut i: usize = 0;
    while i < ws.len()
        invariant
            i <= ws@.len(),
            rv == row@.map_values(|s: String| s@),
            rows_view(r@) == wrapped_cells(rv, ws@).take(i as int),
        decreases ws@.len() - i,
    {
        let cell: &str = if i < row.len() {
            row[i].as_str()
        } else {
            ""
        };
        proof {
            if i >= row@.len() {
                reveal_strlit("");
            }
        }
        assert(cell@ == cell_of(rv, i as int));
        let lines = wrap_cell(cell, ws[i]);
        let ghost before = r@;
        r.push(lines);
        assert(rows_view(r@) =~= wrapped_cells(rv, ws@).take(i + 1)) by {
            assert(rows_view(r@) =~= rows_view(before).push(lines@.map_values(|s: String| s@)));
        }
        i += 1;
    }
    assert(wrapped_cells(rv, ws@).take(ws@.len() as int) =~= wrapped_cells(rv, ws@));
    r
}

fn tallest(wr: &Vec<Vec<String>>) -> (r: usize)
    ensures
        r == max_len(rows_view(wr@)),
{
    let ghost v = rows_view(wr@);
    let mut m: usize = 0;
    let mut i: usize = 0;
    while i < wr.len()
        invariant
            i <= wr@.len(),
            v == rows_view(wr@),
            m == max_len(v.take(i as int)),
        decreases wr@.len() - i,
    {
        assert(v.take(i + 1).drop_last() =~= v.take(i as int));
        assert(v[i as int].len() == wr@[i as int]@.len());
        if wr[i].len() > m {
            m = wr[i].len();
        }
        i += 1;
    }
    assert(v.take(wr@.len() as int) =~= v);
    m
}

fn push_row(lines: &mut Vec<Line>, row: &Vec<String>, ws: &Vec<usize>)
    ensures
        lines_view(final(lines)@) == lines_view(old(lines)@) + row_lines(
            row@.map_values(|s: String| s@),
            ws@,
        ),
{
    let ghost rv = row@.map_values(|s: String| s@);
    let wr = row_cells(row, ws);
    let ghost wv = rows_view(wr@);
    let height = tallest(&wr);
    let mut li: usize = 0;
    while li < height
        invariant
            li <= height,
            height == max_len(wv),
            wv == rows_view(wr@),
            wv == wrapped_cells(rv, ws@),
            wr@.len() == ws@.len(),
            lines_view(lines@) == lines_view(old(lines)@) + row_lines(rv, ws@).take(li as int),
        decreases height - li,
    {
        let mut text = String::new();
        push_char(&mut text, '│');
        let mut k: usize = 0;
        while k < ws.len()
            invariant
                k <= ws@.len(),
                wr@.len() == ws@.len(),
                wv == rows_view(wr@),
                text@ == row_text(wv, ws@, li as int, k as int),
            decreases ws@.len() - k,
        {
            let cell: &str = if li < wr[k].len() {
                wr[k][li].as_str()
            } else {
                ""
            };
            proof {
                if li >= wr@[k as int]@.len() {
                    reveal_strlit("");
                }
            }
            assert(wv[k as int] == wr@[k as int]@.map_values(|s: String| s@));
            assert(cell@ == (if (li as int) < wv[k as int].len() {
                wv[k as int][li as int]
            } else {
                seq![]
            }));
            let w = str_width(cell);
            push_char(&mut text, ' ');
            push_str(&mut text, cell);
            let room: usize = if ws[k] >= w {
                ws[k] - w
            } else {
                0
            };
            push_repeated(&mut text, ' ', room.saturating_add(1));
            push_char(&mut text, '│');
            assert(text@ =~= row_text(wv, ws@, li as int, k + 1));
            k += 1;
        }
        let ghost before = lines@;
        push_line(lines, Line::raw(text.as_str()));
        assert(lines_view(lines@) =~= lines_view(old(lines)@) + row_lines(rv, ws@).take(li + 1));
        li += 1;
    }
    assert(row_lines(rv, ws@).take(height as int) =~= row_lines(rv, ws@));
}

/// Adds the lines of a table of `rows`, drawn in `width` columns.
pub fn render_table(lines: &mut Vec<Line>, rows: &Vec<Vec<String>>, width: usize)
    ensures
        lines_view(final(lines)@) == lines_view(old(lines)@) + table_lines(rows_view(rows@), width as int),
{
    let ghost rv = rows_view(rows@);
    if rows.len() == 0 {
        assert(lines_view(lines@) =~= lines_view(old(lines)@) + table_lines(rv, width as int));
        return;
    }
    let mut columns: usize = 0;
    let mut i: usize = 0;
    while i < rows.len()
        invariant
            i <= rows@.len(),
            rv == rows_view(rows@),
            columns == column_count(rv.take(i as int)),
        decreases rows@.len() - i,
    {
        assert(rv.take(i + 1).drop_last() =~= rv.take(i as int));
        assert(rv[i as int].len() == rows@[i as int]@.len());
        if rows[i].len() > columns {
            columns = rows[i].len();
        }
        i += 1;
    }
    assert(rv.take(rows@.len() as int) =~= rv);
    if columns == 0 {
        assert(lines_view(lines@) =~= lines_view(old(lines)@) + table_lines(rv, width as int));
        return;
    }
    proof {
        lemma_column_count(rv);
    }
    let mut widths: Vec<usize> = Vec::new();
    let mut c: usize = 0;
    while c < columns
        invariant
            c <= columns,
            widths@ =~= Seq::new(c as nat, |x: int| natural_width(rv.take(0), x) as usize),
        decreases columns - c,
    {
        widths.push(1);
        c += 1;
    }
    let mut ri: usize = 0;
    while ri < rows.len()
        invariant
            ri <= rows@.len(),
            rv == rows_view(rows@),
            columns == column_count(rv),
            forall|x: int| 0 <= x < rv.len() ==> #[trigger] rv[x].len() <= column_count(rv),
            widths@ =~= Seq::new(columns as nat, |x: int| natural_width(rv.take(ri as int), x) as usize),
        decreases rows@.len() - ri,
    {
        let row = &rows[ri];
        assert(rv[ri as int] == row@.map_values(|s: String| s@));
        assert(rv.take(ri + 1).drop_last() =~= rv.take(ri as int));
        assert(rv.take(ri + 1).last() == rv[ri as int]);
        assert(row@.len() <= columns) by {
            assert(rv[ri as int].len() <= column_count(rv));
        }
        let mut ci: usize = 0;
        while ci < row.len()
            invariant
                ci <= row@.len(),
                ri < rv.len(),
                row@.len() <= columns,
                widths@.len() == columns,
                rv[ri as int] == row@.map_values(|s: String| s@),
                rv.take(ri + 1).drop_last() == rv.take(ri as int),
                rv.take(ri + 1).last() == rv[ri as int],
                forall|x: int|
                    0 <= x < ci ==> #[trigger] widths@[x] == natural_width(rv.take(ri + 1), x) as usize,
                forall|x: int|
                    ci <= x < columns ==> #[trigger] widths@[x] == natural_width(rv.take(ri as int), x) as usize,
            decreases row@.len() - ci,
        {
            let w = str_width(row[ci].as_str());
            proof {
                lemma_natural_width(rv.take(ri + 1));
                lemma_natural_width(rv.take(ri as int));
            }
            assert(rv[ri as int][ci as int] == row@[ci as int]@);
            assert(rv.take(ri + 1).last()[ci as int] == row@[ci as int]@);
            let cw: usize = if w > 1 {
                w
            } else {
                1
            };
            if cw > widths[ci] {
                widths.set(ci, cw);
            }
            ci += 1;
        }
        assert(widths@ =~= Seq::new(columns as nat, |x: int| natural_width(rv.take(ri + 1), x) as usize));
        ri += 1;
    }
    assert(rv.take(rows@.len() as int) =~= rv);
    let limit: usize = if columns > (usize::MAX - 1) / 3 {
        0
    } else {
        width.saturating_sub(3 * columns + 1)
    };
    assert(limit == content_room(width as int, columns as int));
    let ghost target = shrink(natural_widths(rv, columns as int), limit as int);
    assert(widths@ =~= natural_widths(rv, columns as int));
    loop
        invariant
            widths@.len() == columns,
            columns > 0,
            shrink(widths@, limit as int) == target,
        ensures
            widths@ == target,
        decreases seq_sum(widths@),
    {
        if !sum_over(&widths, limit) {
            break;
        }
        let idx = last_max_index(&widths);
        if widths[idx] <= 1 {
            break;
        }
        proof {
            lemma_sum_update(widths@, idx as int, (widths@[idx as int] - 1) as usize);
        }
        let w = widths[idx];
        widths.set(idx, w - 1);
    }
    let top = border_text(&widths, '┌', '┬', '┐');
    push_line(lines, Line::raw(top.as_str()));
    let ghost head = lines_view(lines@);
    let mut r: usize = 0;
    while r < rows.len()
        invariant
            r <= rows@.len(),
            rv == rows_view(rows@),
            widths@ == target,
            lines_view(lines@) == head + body_lines(rv, widths@, r as int),
        decreases rows@.len() - r,
    {
        assert(rv[r as int] == rows@[r as int]@.map_values(|s: String| s@));
        push_row(lines, &rows[r], &widths);
        if r + 1 < rows.len() {
            let mid = border_text(&widths, '├', '┼', '┤');
            push_line(lines, Line::raw(mid.as_str()));
        }
        assert(lines_view(lines@) =~= head + body_lines(rv, widths@, r + 1));
        r += 1;
    }
    let bottom = border_text(&widths, '└', '┴', '┘');
    push_line(lines, Line::raw(bottom.as_str()));
    push_line(lines, Line::empty());
    assert(lines_view(lines@) =~= lines_view(old(lines)@) + table_lines(rv, width as int));
}

/// A markdown element, as the transcript tells them apart (`Row` is a table's
/// head or one of its rows).
#[derive(Debug)]
pub enum MdTag {
    Table,
    Row,
    Cell,
    Heading,
    Strong,
    Emphasis,
    CodeBlock,
    Item,
    Paragraph,
    Other,
}

/// A markdown parser event, as the transcript reads them: the start or end
/// of an element, text (inline code included), a line break (soft or hard),
/// or anything else.
#[derive(Debug)]
pub enum MdEvent {
    Start(MdTag),
    End(MdTag),
    Text(String),
    Break,
    Other,
}

/// The events `pulldown-cmark` reads in a markdown text with all of its
/// extensions on.
pub uninterp spec fn markdown_events(source: Seq<char>) -> Seq<MdEvent>;

/// `pulldown_cmark::Parser::new_ext(source, Options::all())`, each event
/// carried over into [`MdEvent`]: the element of a start is the element its
/// end names.
#[verifier::external_body]
fn parse_markdown(source: &str) -> (r: Vec<MdEvent>)
    ensures
        r@ == markdown_events(source@),
{
    let tag = |end: TagEnd| match end {
        Table => MdTag::Table, TableHead | TableRow => MdTag::Row, TableCell => MdTag::Cell,
        Heading(_) => MdTag::Heading, Strong => MdTag::Strong, Emphasis => MdTag::Emphasis,
        CodeBlock => MdTag::CodeBlock, Item => MdTag::Item, Paragraph => MdTag::Paragraph,
        _ => MdTag::Other,
    };
    Parser::new_ext(source, Options::all()).map(|event| match event {
        Event::Start(t) => MdEvent::Start(tag(t.to_end())), Event::End(t) => MdEvent::End(tag(t)),
        Event::Text(t) | Event::Code(t) => MdEvent::Text(t.into_string()),
        Event::SoftBreak | Event::HardBreak => MdEvent::Break, _ => MdEvent::Other,
    }).collect()
}

/// A table being read: its rows, the row and the cell being read, and
/// whether a cell is open.
pub type TableView = (Seq<Seq<Seq<char>>>, Seq<Seq<char>>, Seq<char>, bool);

/// Lines so far, the current style, and the table being read if any.
pub type MdView = (Seq<LineView>, TextStyle, Option<TableView>);

pub open spec fn md_start() -> MdView {
    (seq![empty_line()], plain(), None)
}

/// `ls` with a span added to its last line.
pub open spec fn add_span(ls: Seq<LineView>, s: SpanView) -> Seq<LineView> {
    if ls.len() == 0 {
        ls
    } else {
        ls.update(ls.len() - 1, (ls.last().0.push(s), ls.last().1))
    }
}

pub open spec fn bullet() -> Seq<char> {
    seq!['•', ' ']
}

pub open spec fn heading() -> TextStyle {
    TextStyle { fg: Tint::Cyan, bold: Change::Add, italic: Change::Keep }
}

/// One event read: inside a table, cells collect their text until the table
/// ends and is drawn; outside, headings, emphasis and code blocks set the
/// style, text adds a span, and breaks, paragraph and item ends and the ends
/// of headings and code blocks start a new line.
pub open spec fn md_step(st: MdView, ev: MdEvent, width: int) -> MdView {
    match st.2 {
        Some(tb) => {
            let rows = tb.0;
            let row = tb.1;
            let cell = tb.2;
            let in_cell = tb.3;
            match ev {
                MdEvent::Start(MdTag::Cell) => (st.0, st.1, Some((rows, row, seq![], true))),
                MdEvent::End(MdTag::Cell) => (st.0, st.1, Some((rows, row.push(cell), seq![], false))),
                MdEvent::End(MdTag::Row) => if row.len() > 0 {
                    (st.0, st.1, Some((rows.push(row), seq![], cell, in_cell)))
                } else {
                    st
                },
                MdEvent::End(MdTag::Table) => (st.0 + table_lines(rows, width), st.1, None),
                MdEvent::Text(t) => if in_cell {
                    (st.0, st.1, Some((rows, row, cell + t@, in_cell)))
                } else {
                    st
                },
                MdEvent::Break => if in_cell {
                    (st.0, st.1, Some((rows, row, cell.push(' '), in_cell)))
                } else {
                    st
                },
                _ => st,
            }
        },
        None => match ev {
            MdEvent::Start(MdTag::Table) => (st.0, st.1, Some((seq![], seq![], seq![], false))),
            MdEvent::Start(MdTag::Heading) => (st.0, heading(), None),
            MdEvent::End(MdTag::Heading) => (st.0.push(empty_line()), plain(), None),
            MdEvent::Start(MdTag::Strong) => (st.0, TextStyle { bold: Change::Add, ..st.1 }, None),
            MdEvent::End(MdTag::Strong) => (st.0, TextStyle { bold: Change::Remove, ..st.1 }, None),
            MdEvent::Start(MdTag::Emphasis) => (st.0, TextStyle { italic: Change::Add, ..st.1 }, None),
            MdEvent::End(MdTag::Emphasis) => (st.0, TextStyle { italic: Change::Remove, ..st.1 }, None),
            MdEvent::Start(MdTag::CodeBlock) => (st.0, tinted(Tint::Yellow), None),
            MdEvent::End(MdTag::CodeBlock) => (st.0.push(empty_line()), plain(), None),
            MdEvent::Text(t) => (add_span(st.0, (t@, st.1)), st.1, None),
            MdEvent::Break => (st.0.push(empty_line()), st.1, None),
            MdEvent::End(MdTag::Paragraph) => (st.0.push(empty_line()), st.1, None),
            MdEvent::End(MdTag::Item) => (st.0.push(empty_line()), st.1, None),
            MdEvent::Start(MdTag::Item) => (add_span(st.0, (bullet(), plain())), st.1, None),
            _ => st,
        },
    }
}

pub open spec fn md_run(evs: Seq<MdEvent>, width: int) -> MdView
    decreases evs.len(),
{
    if evs.len() == 0 {
        md_start()
    } else {
        md_step(md_run(evs.drop_last(), width), evs.last(), width)
    }
}

/// `ls` without its trailing empty lines, keeping at least one line.
pub open spec fn trim_lines(ls: Seq<LineView>) -> Seq<LineView>
    decreases ls.len(),
{
    if ls.len() > 1 && ls.last().0.len() == 0 {
        trim_lines(ls.drop_last())
    } else {
        ls
    }
}

/// The styled lines of a markdown text laid out in `width` columns.
pub open spec fn markdown_lines(source: Seq<char>, width: int) -> Seq<LineView> {
    trim_lines(md_run(markdown_events(source), width).0)
}

proof fn lemma_md_nonempty(evs: Seq<MdEvent>, width: int)
    ensures
        md_run(evs, width).0.len() >= 1,
    decreases evs.len(),
{
    if evs.len() > 0 {
        lemma_md_nonempty(evs.drop_last(), width);
    }
}

proof fn lemma_trim_nonempty(ls: Seq<LineView>)
    requires
        ls.len() >= 1,
    ensures
        trim_lines(ls).len() >= 1,
    decreases ls.len(),
{
    if ls.len() > 1 && ls.last().0.len() == 0 {
        lemma_trim_nonempty(ls.drop_last());
    }
}

fn add_span_to(lines: &mut Vec<Line>, span: Span)
    requires
        old(lines)@.len() >= 1,
    ensures
        lines_view(final(lines)@) == add_span(lines_view(old(lines)@), span_view(span)),
        final(lines)@.len() == old(lines)@.len(),
{
    let mut last = lines.pop().unwrap();
    let ghost before = last.spans@;
    last.spans.push(span);
    assert(line_view(last) =~= (line_view(old(lines)@.last()).0.push(span_view(span)), last.style));
    lines.push(last);
    assert(lines_view(lines@) =~= add_span(lines_view(old(lines)@), span_view(span)));
}

fn push_text(s: &mut String, t: &String)
    ensures
        final(s)@ == old(s)@ + t@,
{
    push_str(s, t.as_str());
}

/// The state of a markdown layout in progress.
struct MdState {
    lines: Vec<Line>,
    style: TextStyle,
    in_table: bool,
    rows: Vec<Vec<String>>,
    row: Vec<String>,
    cell: String,
    in_cell: bool,
}

spec fn md_view(s: MdState) -> MdView {
    (
        lines_view(s.lines@),
        s.style,
        if s.in_table {
            Some((rows_view(s.rows@), s.row@.map_values(|x: String| x@), s.cell@, s.in_cell))
        } else {
            None::<TableView>
        },
    )
}

/// Reads one event inside a table.
fn table_event(s0: MdState, ev: &MdEvent, width: usize) -> (r: MdState)
    requires
        s0.in_table,
        s0.lines@.len() >= 1,
    ensures
        md_view(r) == md_step(md_view(s0), *ev, width as int),
        r.lines@.len() >= 1,
{
    let mut s = s0;
    let ghost rowv = s.row@.map_values(|x: String| x@);
    match ev {
        MdEvent::Start(MdTag::Cell) => {
            s.cell = String::new();
            s.in_cell = true;
        },
        MdEvent::End(MdTag::Cell) => {
            let mut taken = String::new();
            std::mem::swap(&mut taken, &mut s.cell);
            s.row.push(taken);
            assert(s.row@.map_values(|x: String| x@) =~= rowv.push(taken@));
            s.in_cell = false;
        },
        MdEvent::End(MdTag::Row) => {
            if s.row.len() > 0 {
                let mut taken: Vec<String> = Vec::new();
                std::mem::swap(&mut taken, &mut s.row);
                let ghost before = s.rows@;
                s.rows.push(taken);
                assert(rows_view(s.rows@) =~= rows_view(before).push(rowv));
                assert(s.row@.map_values(|x: String| x@) =~= Seq::<Seq<char>>::empty());
            }
        },
        MdEvent::End(MdTag::Table) => {
            s.in_table = false;
            render_table(&mut s.lines, &s.rows, width);
            assert(s.lines@.len() >= 1) by {
                assert(lines_view(s.lines@).len() == s.lines@.len());
                assert(lines_view(s0.lines@).len() == s0.lines@.len());
            }
        },
        MdEvent::Text(t) => {
            if s.in_cell {
                push_text(&mut s.cell, t);
            }
        },
        MdEvent::Break => {
            if s.in_cell {
                push_char(&mut s.cell, ' ');
            }
        },
        _ => {},
    }
    s
}

/// Reads one event outside a table.
fn text_event(s: &mut MdState, ev: &MdEvent, width: usize)
    requires
        !old(s).in_table,
        old(s).lines@.len() >= 1,
    ensures
        md_view(*final(s)) == md_step(md_view(*old(s)), *ev, width as int),
        final(s).lines@.len() >= 1,
{
    match ev {
        MdEvent::Start(MdTag::Table) => {
            s.in_table = true;
            s.rows = Vec::new();
            s.row = Vec::new();
            s.cell = String::new();
            s.in_cell = false;
            assert(rows_view(s.rows@) =~= Seq::<Seq<Seq<char>>>::empty());
            assert(s.row@.map_values(|x: String| x@) =~= Seq::<Seq<char>>::empty());
        },
        MdEvent::Start(MdTag::Heading) => {
            s.style = TextStyle { fg: Tint::Cyan, bold: Change::Add, italic: Change::Keep };
        },
        MdEvent::End(MdTag::Heading) => {
            s.style = plain_style();
            push_line(&mut s.lines, Line::empty());
        },
        MdEvent::Start(MdTag::Strong) => {
            s.style = TextStyle { bold: Change::Add, ..s.style };
        },
        MdEvent::End(MdTag::Strong) => {
            s.style = TextStyle { bold: Change::Remove, ..s.style };
        },
        MdEvent::Start(MdTag::Emphasis) => {
            s.style = TextStyle { italic: Change::Add, ..s.style };
        },
        MdEvent::End(MdTag::Emphasis) => {
            s.style = TextStyle { italic: Change::Remove, ..s.style };
        },
        MdEvent::Start(MdTag::CodeBlock) => {
            s.style = tinted_style(Tint::Yellow);
        },
        MdEvent::End(MdTag::CodeBlock) => {
            s.style = plain_style();
            push_line(&mut s.lines, Line::empty());
        },
        MdEvent::Text(t) => {
            let style = s.style;
            add_span_to(&mut s.lines, Span { content: t.clone(), style });
        },
        MdEvent::Break => {
            push_line(&mut s.lines, Line::empty());
        },
        MdEvent::End(MdTag::Paragraph) => {
            push_line(&mut s.lines, Line::empty());
        },
        MdEvent::End(MdTag::Item) => {
            push_line(&mut s.lines, Line::empty());
        },
        MdEvent::Start(MdTag::Item) => {
            let mut b = String::new();
            push_str(&mut b, "• ");
            proof {
                reveal_strlit("• ");
            }
            assert(b@ =~= bullet());
            add_span_to(&mut s.lines, Span { content: b, style: plain_style() });
        },
        _ => {},
    }
}

/// The styled lines of a markdown text laid out in `width` columns (tables
/// drawn to fit it); at least one line.
pub fn markdown_text(source: &str, width: usize) -> (r: Vec<Line>)
    ensures
        lines_view(r@) == markdown_lines(source@, width as int),
        r@.len() >= 1,
{
    let events = parse_markdown(source);
    let mut lines: Vec<Line> = Vec::new();
    lines.push(Line::empty());
    let mut s = MdState {
        lines,
        style: plain_style(),
        in_table: false,
        rows: Vec::new(),
        row: Vec::new(),
        cell: String::new(),
        in_cell: false,
    };
    assert(md_view(s) =~= md_start());
    let mut i: usize = 0;
    while i < events.len()
        invariant
            i <= events@.len(),
            events@ == markdown_events(source@),
            s.lines@.len() >= 1,
            md_run(events@.take(i as int), width as int) == md_view(s),
        decreases events@.len() - i,
    {
        assert(events@.take(i + 1).drop_last() =~= events@.take(i as int));
        assert(events@.take(i + 1).last() == events@[i as int]);
        let ev = &events[i];
        if s.in_table {
            s = table_event(s, ev, width);
        } else {
            text_event(&mut s, ev, width);
        }
        i += 1;
    }
    assert(events@.take(events@.len() as int) =~= events@);
    let mut lines = s.lines;
    let ghost full = lines_view(lines@);
    proof {
        lemma_trim_nonempty(full);
    }
    while lines.len() > 1 && lines[lines.len() - 1].spans.len() == 0
        invariant
            lines@.len() >= 1,
            trim_lines(lines_view(lines@)) == trim_lines(full),
        decreases lines@.len(),
    {
        let ghost before = lines@;
        lines.pop();
        assert(lines_view(lines@) =~= lines_view(before).drop_last());
    }
    assert(trim_lines(lines_view(lines@)) == lines_view(lines@));
    lines
}

/// The columns of a line's spans together.
pub open spec fn spans_cols(spans: Seq<SpanView>) -> int
    decreases spans.len(),
{
    if spans.len() == 0 {
        0
    } else {
        spans_cols(spans.drop_last()) + cols(spans.last().0)
    }
}

/// The text of a line's spans together.
pub open spec fn spans_text(spans: Seq<SpanView>) -> Seq<char>
    decreases spans.len(),
{
    if spans.len() == 0 {
        seq![]
    } else {
        spans_text(spans.drop_last()) + spans.last().0
    }
}

impl Line {
    /// The columns the line takes (at most `usize::MAX`).
    pub fn width(&self) -> (r: usize)
        ensures
            r == capped(spans_cols(line_view(*self).0)),
    {
        let ghost v = line_view(*self).0;
        let mut total: usize = 0;
        let mut i: usize = 0;
        while i < self.spans.len()
            invariant
                i <= self.spans@.len(),
                v == line_view(*self).0,
                total == capped(spans_cols(v.take(i as int))),
            decreases self.spans@.len() - i,
        {
            assert(v.take(i + 1).drop_last() =~= v.take(i as int));
            assert(v[i as int].0 == self.spans@[i as int].content@);
            total = total.saturating_add(str_width(self.spans[i].content.as_str()));
            i += 1;
        }
        assert(v.take(self.spans@.len() as int) =~= v);
        total
    }

    /// The text of the line's spans.
    pub fn text(&self) -> (r: String)
        ensures
            r@ == spans_text(line_view(*self).0),
    {
        let ghost v = line_view(*self).0;
        let mut r = String::new();
        let mut i: usize = 0;
        while i < self.spans.len()
            invariant
                i <= self.spans@.len(),
                v == line_view(*self).0,
                r@ == spans_text(v.take(i as int)),
            decreases self.spans@.len() - i,
        {
            assert(v.take(i + 1).drop_last() =~= v.take(i as int));
            assert(v[i as int].0 == self.spans@[i as int].content@);
            push_str(&mut r, self.spans[i].content.as_str());
            i += 1;
        }
        assert(v.take(self.spans@.len() as int) =~= v);
        r
    }
}


/// Emphasis scopes italic: outside a table, text between the start and the
/// end of an emphasis is drawn with italic added, and text after its end
/// with italic removed; colour and weight stay as they were, and both texts
/// land on the current line.
pub proof fn law_emphasis_scopes_italic(st: MdView, a: String, b: String, width: int)
    requires
        st.2 is None,
        st.0.len() > 0,
    ensures
        ({
            let s1 = md_step(st, MdEvent::Start(MdTag::Emphasis), width);
            let s2 = md_step(s1, MdEvent::Text(a), width);
            let s3 = md_step(s2, MdEvent::End(MdTag::Emphasis), width);
            let s4 = md_step(s3, MdEvent::Text(b), width);
            let spans = s4.0.last().0;
            let n = spans.len();
            &&& s4.0.len() == st.0.len()
            &&& n == st.0.last().0.len() + 2
            &&& spans[n - 2].0 == a@ && spans[n - 2].1.italic == Change::Add
            &&& spans[n - 1].0 == b@ && spans[n - 1].1.italic == Change::Remove
            &&& spans[n - 2].1.fg == st.1.fg && spans[n - 2].1.bold == st.1.bold
            &&& spans[n - 1].1.fg == st.1.fg && spans[n - 1].1.bold == st.1.bold
            &&& s4.1.italic == Change::Remove
        }),
{
}

} // verus!
