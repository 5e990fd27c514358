//! A parser for the ANSI-styled lines that terminal components render: it keeps
//! printable characters up to a column budget, applies SGR styles and OSC 8
//! hyperlinks to them, records the `pi:c` cursor marker, and drops every other
//! control sequence.

use vstd::prelude::*;
use crate::text::{opt_string_view, chars_of, is_control, is_ascii, push_char, slice_chars, string_from_chars, spec_is_control, spec_is_ascii, spec_is_ascii_digit};

verus! {

#[derive(Clone, Copy, Debug, PartialEq, Eq, Structural)]
pub struct AnsiStyle {
    pub foreground: Option<u32>,
    pub background: Option<u32>,
    pub bold: bool,
    pub italic: bool,
    pub underline: bool,
    pub inverse: bool,
    pub strikethrough: bool,
}

/// No colours and no attributes.
pub open spec fn no_style() -> AnsiStyle {
    AnsiStyle {
        foreground: None,
        background: None,
        bold: false,
        italic: false,
        underline: false,
        inverse: false,
        strikethrough: false,
    }
}

impl Default for AnsiStyle {
    fn default() -> (r: Self)
        ensures
            r == no_style(),
    {
        AnsiStyle {
            foreground: None,
            background: None,
            bold: false,
            italic: false,
            underline: false,
            inverse: false,
            strikethrough: false,
        }
    }
}

#[derive(Debug, PartialEq, Eq)]
pub struct AnsiCell {
    pub symbol: char,
    pub style: AnsiStyle,
    pub hyperlink: Option<String>,
}

impl Clone for AnsiCell {
    fn clone(&self) -> (r: Self)
        ensures
            r == *self,
    {
        AnsiCell { symbol: self.symbol, style: self.style, hyperlink: self.hyperlink.clone() }
    }
}

#[derive(Debug, PartialEq, Eq)]
pub struct AnsiLine {
    pub cells: Vec<AnsiCell>,
    pub cursor: Option<usize>,
}

impl Default for AnsiLine {
    fn default() -> (r: Self)
        ensures
            r.cells@.len() == 0,
            r.cursor is None,
    {
        AnsiLine { cells: Vec::new(), cursor: None }
    }
}

#[derive(Debug, PartialEq, Eq)]
pub struct AnsiFrame {
    pub width: usize,
    pub lines: Vec<AnsiLine>,
}

/// What a cell shows: its character, its style and the target of its link.
pub type CellView = (char, AnsiStyle, Option<Seq<char>>);

pub open spec fn cell_view(c: AnsiCell) -> CellView {
    (c.symbol, c.style, opt_string_view(c.hyperlink))
}

pub open spec fn cells_view(cells: Seq<AnsiCell>) -> Seq<CellView> {
    cells.map_values(|c: AnsiCell| cell_view(c))
}

proof fn lemma_cells_view_push(cells: Seq<AnsiCell>, c: AnsiCell)
    ensures
        cells_view(cells.push(c)) == cells_view(cells).push(cell_view(c)),
{
    assert forall|k: int| 0 <= k < cells.len() + 1 implies #[trigger] cells_view(cells.push(c))[k]
        == cells_view(cells).push(cell_view(c))[k] by {
        if k < cells.len() {
            assert(cells.push(c)[k] == cells[k]);
        }
    }
    assert(cells_view(cells.push(c)) =~= cells_view(cells).push(cell_view(c)));
}

/// Code points that take two terminal columns (CJK, Hangul, full-width forms,
/// pictographs).
pub open spec fn is_wide(v: u32) -> bool {
    (0x1100 <= v && v <= 0x115f) || (0x2329 <= v && v <= 0x232a) || (0x2e80 <= v && v <= 0xa4cf)
        || (0xac00 <= v && v <= 0xd7a3) || (0xf900 <= v && v <= 0xfaff) || (0xfe10 <= v && v
        <= 0xfe19) || (0xfe30 <= v && v <= 0xfe6f) || (0xff00 <= v && v <= 0xff60) || (0xffe0
        <= v && v <= 0xffe6) || (0x1f300 <= v && v <= 0x1faff) || (0x20000 <= v && v <= 0x3fffd)
}

/// Columns a character takes: none for control characters, two for wide ones,
/// one otherwise.
pub open spec fn cell_width(c: char) -> int {
    if spec_is_control(c) {
        0
    } else if spec_is_ascii(c) {
        1
    } else if is_wide(c as u32) {
        2
    } else {
        1
    }
}

fn char_cells(c: char) -> (r: usize)
    ensures
        r == cell_width(c),
{
    if is_control(c) || is_ascii(c) {
        return if is_control(c) {
            0
        } else {
            1
        };
    }
    let v = c as u32;
    if (0x1100 <= v && v <= 0x115f) || (0x2329 <= v && v <= 0x232a) || (0x2e80 <= v && v
        <= 0xa4cf) || (0xac00 <= v && v <= 0xd7a3) || (0xf900 <= v && v <= 0xfaff) || (0xfe10
        <= v && v <= 0xfe19) || (0xfe30 <= v && v <= 0xfe6f) || (0xff00 <= v && v <= 0xff60)
        || (0xffe0 <= v && v <= 0xffe6) || (0x1f300 <= v && v <= 0x1faff) || (0x20000 <= v && v
        <= 0x3fffd) {
        2
    } else {
        1
    }
}

/// The payload of a string control (OSC, APC, DCS, PM, SOS) whose body starts
/// at `i`, and the index after it. The body runs to BEL or to ESC `\`; an ESC
/// followed by any other character drops both; the end of input ends it.
pub open spec fn string_control(s: Seq<char>, i: int, acc: Seq<char>) -> (Seq<char>, int)
    decreases s.len() - i,
{
    if i >= s.len() {
        (acc, s.len() as int)
    } else if s[i] == '\u{7}' {
        (acc, i + 1)
    } else if s[i] == '\u{1b}' {
        if i + 1 < s.len() {
            if s[i + 1] == '\\' {
                (acc, i + 2)
            } else {
                string_control(s, i + 2, acc)
            }
        } else {
            (acc, s.len() as int)
        }
    } else {
        string_control(s, i + 1, acc.push(s[i]))
    }
}

pub proof fn lemma_string_control_end(s: Seq<char>, i: int, acc: Seq<char>)
    requires
        0 <= i <= s.len(),
    ensures
        i < string_control(s, i, acc).1 <= s.len() || (i == s.len() && string_control(s, i, acc).1
            == s.len()),
    decreases s.len() - i,
{
    if i < s.len() && s[i] != '\u{7}' {
        if s[i] == '\u{1b}' {
            if i + 1 < s.len() && s[i + 1] != '\\' {
                lemma_string_control_end(s, i + 2, acc);
            }
        } else {
            lemma_string_control_end(s, i + 1, acc.push(s[i]));
        }
    }
}

fn read_string_control(s: &Vec<char>, start: usize) -> (r: (String, usize))
    requires
        start <= s@.len(),
    ensures
        (r.0@, r.1 as int) == string_control(s@, start as int, Seq::empty()),
{
    let mut payload = String::new();
    let mut i = start;
    while i < s.len()
        invariant
            start <= i <= s@.len(),
            string_control(s@, start as int, Seq::empty()) == string_control(s@, i as int, payload@),
        decreases s@.len() - i,
    {
        let c = s[i];
        if c == '\u{7}' {
            return (payload, i + 1);
        }
        if c == '\u{1b}' {
            if i + 1 < s.len() {
                if s[i + 1] == '\\' {
                    return (payload, i + 2);
                }
                i += 2;
            } else {
                i = s.len();
            }
        } else {
            push_char(&mut payload, c);
            i += 1;
        }
    }
    (payload, i)
}

/// A final byte of a control sequence: `@` through `~`.
pub open spec fn is_final_byte(c: char) -> bool {
    '@' <= c && c <= '~'
}

/// The index of the first final byte at or after `i` (the length if none).
pub open spec fn csi_final(s: Seq<char>, i: int) -> int
    decreases s.len() - i,
{
    if i >= s.len() {
        s.len() as int
    } else if is_final_byte(s[i]) {
        i
    } else {
        csi_final(s, i + 1)
    }
}

pub proof fn lemma_csi_final(s: Seq<char>, i: int)
    requires
        0 <= i <= s.len(),
    ensures
        i <= csi_final(s, i) <= s.len(),
    decreases s.len() - i,
{
    if i < s.len() && !is_final_byte(s[i]) {
        lemma_csi_final(s, i + 1);
    }
}

fn find_final_byte(s: &Vec<char>, start: usize) -> (r: usize)
    requires
        start <= s@.len(),
    ensures
        r == csi_final(s@, start as int),
{
    let mut i = start;
    while i < s.len()
        invariant
            start <= i <= s@.len(),
            csi_final(s@, start as int) == csi_final(s@, i as int),
        decreases s@.len() - i,
    {
        if '@' <= s[i] && s[i] <= '~' {
            return i;
        }
        i += 1;
    }
    i
}

/// The fields of an SGR parameter string, split at every `;`.
pub open spec fn split_fields(p: Seq<char>) -> Seq<Seq<char>>
    decreases p.len(),
{
    if p.len() == 0 {
        seq![Seq::<char>::empty()]
    } else {
        let f = split_fields(p.drop_last());
        if p.last() == ';' {
            f.push(Seq::<char>::empty())
        } else {
            f.update(f.len() - 1, f.last().push(p.last()))
        }
    }
}

proof fn lemma_split_fields_len(p: Seq<char>)
    ensures
        split_fields(p).len() >= 1,
    decreases p.len(),
{
    if p.len() > 0 {
        lemma_split_fields_len(p.drop_last());
    }
}

/// The value of a string of ASCII digits.
pub open spec fn digits_value(d: Seq<char>) -> nat
    decreases d.len(),
{
    if d.len() == 0 {
        0
    } else {
        digits_value(d.drop_last()) * 10 + ((d.last() as u32) - ('0' as u32)) as nat
    }
}

pub open spec fn all_digits(d: Seq<char>) -> bool {
    forall|k: int| 0 <= k < d.len() ==> spec_is_ascii_digit(#[trigger] d[k])
}

/// `str::parse::<u16>`: an optional `+` and at least one digit, with a value
/// that fits; anything else fails.
pub open spec fn parse_u16(t: Seq<char>) -> Option<u16> {
    let d = if t.len() > 1 && t[0] == '+' {
        t.drop_first()
    } else {
        t
    };
    if d.len() > 0 && all_digits(d) && digits_value(d) <= 0xffff {
        Some(digits_value(d) as u16)
    } else {
        None
    }
}

pub open spec fn field_value(t: Seq<char>) -> u16 {
    match parse_u16(t) {
        Some(v) => v,
        None => 0,
    }
}

/// The numbers of an SGR sequence: `0` when it has no parameters, else each
/// field parsed, a field that does not parse counting as `0`.
pub open spec fn sgr_values(p: Seq<char>) -> Seq<u16> {
    if p.len() == 0 {
        seq![0u16]
    } else {
        split_fields(p).map_values(|f: Seq<char>| field_value(f))
    }
}

proof fn lemma_digits_value_grows(d: Seq<char>, k: int)
    requires
        0 <= k <= d.len(),
        all_digits(d),
    ensures
        digits_value(d.take(k)) <= digits_value(d),
    decreases d.len() - k,
{
    if k < d.len() {
        lemma_digits_value_grows(d, k + 1);
        assert(d.take(k + 1).drop_last() =~= d.take(k));
        assert(spec_is_ascii_digit(d[k]));
        assert(d.take(k + 1).last() == d[k]);
    } else {
        assert(d.take(k) =~= d);
    }
}

fn field_to_u16(f: &Vec<char>) -> (r: u16)
    ensures
        r == field_value(f@),
{
    let mut start: usize = 0;
    if f.len() > 1 && f[0] == '+' {
        start = 1;
    }
    let ghost d = if f@.len() > 1 && f@[0] == '+' {
        f@.drop_first()
    } else {
        f@
    };
    assert(d =~= f@.subrange(start as int, f@.len() as int));
    if start == f.len() {
        return 0;
    }
    let mut value: u32 = 0;
    let mut i = start;
    while i < f.len()
        invariant
            start <= i <= f@.len(),
            start < f@.len(),
            d =~= f@.subrange(start as int, f@.len() as int),
            d == (if f@.len() > 1 && f@[0] == '+' {
                f@.drop_first()
            } else {
                f@
            }),
            all_digits(d.take(i - start)),
            value == digits_value(d.take(i - start)),
            value <= 0xffff,
        decreases f@.len() - i,
    {
        let c = f[i];
        if !('0' <= c && c <= '9') {
            assert(d[i - start] == c);
            assert(!all_digits(d));
            return 0;
        }
        let next = value * 10 + (c as u32 - '0' as u32);
        proof {
            assert(d.take(i - start + 1).drop_last() =~= d.take(i - start));
            assert(d.take(i - start + 1).last() == c);
        }
        if next > 0xffff {
            proof {
                if all_digits(d) {
                    lemma_digits_value_grows(d, i - start + 1);
                }
            }
            return 0;
        }
        value = next;
        i += 1;
    }
    assert(d.take(i - start) =~= d);
    value as u16
}

fn sgr_numbers(p: &Vec<char>) -> (r: Vec<u16>)
    ensures
        r@ == sgr_values(p@),
{
    if p.len() == 0 {
        let mut v: Vec<u16> = Vec::new();
        v.push(0);
        assert(v@ =~= seq![0u16]);
        return v;
    }
    let mut values: Vec<u16> = Vec::new();
    let mut field: Vec<char> = Vec::new();
    let mut i: usize = 0;
    proof {
        assert(p@.take(0) =~= Seq::<char>::empty());
    }
    while i < p.len()
        invariant
            i <= p@.len(),
            split_fields(p@.take(i as int)).len() == values@.len() + 1,
            forall|k: int| 0 <= k < values@.len() ==> values@[k] == field_value(
                #[trigger] split_fields(p@.take(i as int))[k],
            ),
            split_fields(p@.take(i as int)).last() == field@,
        decreases p@.len() - i,
    {
        let c = p[i];
        proof {
            assert(p@.take(i + 1).drop_last() =~= p@.take(i as int));
            assert(p@.take(i + 1).last() == c);
            lemma_split_fields_len(p@.take(i as int));
        }
        if c == ';' {
            let v = field_to_u16(&field);
            values.push(v);
            field = Vec::new();
        } else {
            field.push(c);
        }
        i += 1;
    }
    assert(p@.take(p@.len() as int) =~= p@);
    let last = field_to_u16(&field);
    values.push(last);
    assert(values@ =~= sgr_values(p@));
    values
}

/// The colour of a basic SGR colour code: normal colours tagged `0x01`,
/// bright ones `0x02`, in the top byte.
pub open spec fn spec_ansi_color(code: u16) -> u32 {
    if 30 <= code <= 37 {
        0x01000000u32 | ((code - 30) as u32)
    } else if 90 <= code <= 97 {
        0x02000000u32 | ((code - 90) as u32)
    } else if 40 <= code <= 47 {
        0x01000000u32 | ((code - 40) as u32)
    } else if 100 <= code <= 107 {
        0x02000000u32 | ((code - 100) as u32)
    } else {
        0
    }
}

fn ansi_color(code: u16) -> (r: u32)
    ensures
        r == spec_ansi_color(code),
{
    if 30 <= code && code <= 37 {
        0x01000000u32 | ((code - 30) as u32)
    } else if 90 <= code && code <= 97 {
        0x02000000u32 | ((code - 90) as u32)
    } else if 40 <= code && code <= 47 {
        0x01000000u32 | ((code - 40) as u32)
    } else if 100 <= code && code <= 107 {
        0x02000000u32 | ((code - 100) as u32)
    } else {
        0
    }
}

/// An extended colour starting at `start`: `5;n` (a palette index) or
/// `2;r;g;b` (a 24-bit colour), with the index of its last number.
pub open spec fn extended_color(v: Seq<u16>, start: int) -> Option<(u32, int)> {
    if 0 <= start < v.len() && v[start] == 5 && start + 1 < v.len() {
        Some((v[start + 1] as u32, start + 1))
    } else if 0 <= start < v.len() && v[start] == 2 && start + 3 < v.len() {
        Some(
            ((((v[start + 1] as u32) << 16u32) | ((v[start + 2] as u32) << 8u32)) | (v[start
                + 3] as u32), start + 3),
        )
    } else {
        None
    }
}

fn parse_extended_color(values: &Vec<u16>, start: usize) -> (r: Option<(u32, usize)>)
    ensures
        match r {
            Some((c, k)) => extended_color(values@, start as int) == Some((c, k as int)),
            None => extended_color(values@, start as int) is None,
        },
{
    if start < values.len() && values[start] == 5 && values.len() - start > 1 {
        Some((values[start + 1] as u32, start + 1))
    } else if start < values.len() && values[start] == 2 && values.len() - start > 3 {
        let r = values[start + 1] as u32;
        let g = values[start + 2] as u32;
        let b = values[start + 3] as u32;
        Some((((r << 16u32) | (g << 8u32)) | b, start + 3))
    } else {
        None
    }
}

/// The style after one SGR code that takes no arguments.
pub open spec fn sgr_code(code: u16, style: AnsiStyle) -> AnsiStyle {
    if code == 0 {
        no_style()
    } else if code == 1 {
        AnsiStyle { bold: true, ..style }
    } else if code == 3 {
        AnsiStyle { italic: true, ..style }
    } else if code == 4 {
        AnsiStyle { underline: true, ..style }
    } else if code == 7 {
        AnsiStyle { inverse: true, ..style }
    } else if code == 9 {
        AnsiStyle { strikethrough: true, ..style }
    } else if code == 22 {
        AnsiStyle { bold: false, ..style }
    } else if code == 23 {
        AnsiStyle { italic: false, ..style }
    } else if code == 24 {
        AnsiStyle { underline: false, ..style }
    } else if code == 27 {
        AnsiStyle { inverse: false, ..style }
    } else if code == 29 {
        AnsiStyle { strikethrough: false, ..style }
    } else if (30 <= code <= 37) || (90 <= code <= 97) {
        AnsiStyle { foreground: Some(spec_ansi_color(code)), ..style }
    } else if code == 39 {
        AnsiStyle { foreground: None, ..style }
    } else if (40 <= code <= 47) || (100 <= code <= 107) {
        AnsiStyle { background: Some(spec_ansi_color(code)), ..style }
    } else if code == 49 {
        AnsiStyle { background: None, ..style }
    } else {
        style
    }
}

/// The style after the SGR numbers from `index` on: `38` and `48` take an
/// extended colour for the foreground or background when one follows.
pub open spec fn sgr_apply(v: Seq<u16>, index: int, style: AnsiStyle) -> AnsiStyle
    decreases v.len() - index,
{
    if index < 0 || index >= v.len() {
        style
    } else if v[index] == 38 || v[index] == 48 {
        match extended_color(v, index + 1) {
            Some((color, last)) => {
                let next = if v[index] == 38 {
                    AnsiStyle { foreground: Some(color), ..style }
                } else {
                    AnsiStyle { background: Some(color), ..style }
                };
                sgr_apply(v, last + 1, next)
            },
            None => sgr_apply(v, index + 1, style),
        }
    } else {
        sgr_apply(v, index + 1, sgr_code(v[index], style))
    }
}

fn apply_code(code: u16, style: &mut AnsiStyle)
    ensures
        *final(style) == sgr_code(code, *old(style)),
{
    match code {
        0 => *style = AnsiStyle::default(),
        1 => style.bold = true,
        3 => style.italic = true,
        4 => style.underline = true,
        7 => style.inverse = true,
        9 => style.strikethrough = true,
        22 => style.bold = false,
        23 => style.italic = false,
        24 => style.underline = false,
        27 => style.inverse = false,
        29 => style.strikethrough = false,
        30..=37 | 90..=97 => style.foreground = Some(ansi_color(code)),
        39 => style.foreground = None,
        40..=47 | 100..=107 => style.background = Some(ansi_color(code)),
        49 => style.background = None,
        _ => {},
    }
}

fn apply_sgr(values: &Vec<u16>, style: &mut AnsiStyle)
    ensures
        *final(style) == sgr_apply(values@, 0, *old(style)),
{
    let mut index: usize = 0;
    while index < values.len()
        invariant
            sgr_apply(values@, 0, *old(style)) == sgr_apply(values@, index as int, *style),
        decreases values@.len() - index,
    {
        let code = values[index];
        if code == 38 || code == 48 {
            match parse_extended_color(values, index + 1) {
                Some((color, last)) => {
                    if code == 38 {
                        style.foreground = Some(color);
                    } else {
                        style.background = Some(color);
                    }
                    index = last;
                },
                None => {},
            }
        } else {
            apply_code(code, style);
        }
        index += 1;
    }
}

/// The index of the first `c` at or after `i` (the length if none).
pub open spec fn find_char(s: Seq<char>, c: char, i: int) -> int
    decreases s.len() - i,
{
    if i >= s.len() {
        s.len() as int
    } else if s[i] == c {
        i
    } else {
        find_char(s, c, i + 1)
    }
}

proof fn lemma_find_char(s: Seq<char>, c: char, i: int)
    requires
        0 <= i <= s.len(),
    ensures
        i <= find_char(s, c, i) <= s.len(),
        find_char(s, c, i) < s.len() ==> s[find_char(s, c, i)] == c,
    decreases s.len() - i,
{
    if i < s.len() && s[i] != c {
        lemma_find_char(s, c, i + 1);
    }
}

/// The hyperlink after an OSC payload: `8;params;uri` links what follows to
/// `uri`, or ends the link when `uri` is empty; other payloads leave it as is.
pub open spec fn osc_hyperlink(p: Seq<char>, current: Option<Seq<char>>) -> Option<Seq<char>> {
    if p.len() >= 2 && p[0] == '8' && p[1] == ';' {
        let k = find_char(p, ';', 2);
        if k < p.len() {
            let uri = p.subrange(k + 1, p.len() as int);
            if uri.len() == 0 {
                None
            } else {
                Some(uri)
            }
        } else {
            current
        }
    } else {
        current
    }
}

fn osc_link(payload: &String, current: Option<String>) -> (r: Option<String>)
    ensures
        opt_string_view(r) == osc_hyperlink(payload@, opt_string_view(current)),
{
    let p = chars_of(payload.as_str());
    if p.len() >= 2 && p[0] == '8' && p[1] == ';' {
        let mut k: usize = 2;
        while k < p.len() && p[k] != ';'
            invariant
                2 <= k <= p@.len(),
                find_char(p@, ';', 2) == find_char(p@, ';', k as int),
            decreases p@.len() - k,
        {
            k += 1;
        }
        if k < p.len() {
            if k + 1 == p.len() {
                return None;
            }
            let uri = slice_chars(&p, k + 1, p.len());
            let text = string_from_chars(uri.as_slice());
            return Some(text);
        }
    }
    current
}

/// The payload of the cursor marker that components place in their output.
pub open spec fn cursor_marker() -> Seq<char> {
    seq!['p', 'i', ':', 'c']
}

fn is_cursor_marker(payload: &String) -> (r: bool)
    ensures
        r == (payload@ == cursor_marker()),
{
    let p = chars_of(payload.as_str());
    let r = p.len() == 4 && p[0] == 'p' && p[1] == 'i' && p[2] == ':' && p[3] == 'c';
    assert(r ==> p@ =~= cursor_marker());
    r
}

fn copy_link(link: &Option<String>) -> (r: Option<String>)
    ensures
        r == *link,
{
    match link {
        Some(s) => Some(s.clone()),
        None => None,
    }
}

/// The parser's state between tokens of a line.
pub struct LineState {
    pub cells: Seq<CellView>,
    pub cursor: Option<int>,
    pub style: AnsiStyle,
    pub hyperlink: Option<Seq<char>>,
    pub used: int,
}

pub open spec fn start_state() -> LineState {
    LineState { cells: Seq::empty(), cursor: None, style: no_style(), hyperlink: None, used: 0 }
}

/// The state after the rest of the line from index `i`, within `width` columns.
/// A printable character is kept when its columns still fit; ESC `[` runs to a
/// final byte and applies its numbers when that byte is `m`; ESC `]` may set
/// the hyperlink; ESC `_` with the cursor marker records the column reached;
/// ESC `P`, `^` and `X` are skipped to their terminator; any other ESC pair is
/// dropped.
pub open spec fn line_from(s: Seq<char>, i: int, width: int, st: LineState) -> LineState
    decreases s.len() - i,
{
    if i < 0 || i >= s.len() {
        st
    } else if s[i] != '\u{1b}' {
        let c = s[i];
        let w = cell_width(c);
        if spec_is_control(c) || w == 0 || st.used + w > width {
            line_from(s, i + 1, width, st)
        } else {
            line_from(
                s,
                i + 1,
                width,
                LineState {
                    cells: st.cells.push((c, st.style, st.hyperlink)),
                    used: st.used + w,
                    ..st
                },
            )
        }
    } else if i + 1 >= s.len() {
        st
    } else if s[i + 1] == '[' {
        let j = csi_final(s, i + 2);
        if j < s.len() {
            proof {
                lemma_csi_final(s, i + 2);
            }
            if s[j] == 'm' {
                line_from(
                    s,
                    j + 1,
                    width,
                    LineState {
                        style: sgr_apply(sgr_values(s.subrange(i + 2, j)), 0, st.style),
                        ..st
                    },
                )
            } else {
                line_from(s, j + 1, width, st)
            }
        } else {
            st
        }
    } else if s[i + 1] == ']' || s[i + 1] == '_' || s[i + 1] == 'P' || s[i + 1] == '^' || s[i
        + 1] == 'X' {
        let (p, j) = string_control(s, i + 2, Seq::empty());
        proof {
            lemma_string_control_end(s, i + 2, Seq::empty());
        }
        let next = if s[i + 1] == ']' {
            LineState { hyperlink: osc_hyperlink(p, st.hyperlink), ..st }
        } else if s[i + 1] == '_' && p == cursor_marker() {
            LineState { cursor: Some(st.used), ..st }
        } else {
            st
        };
        line_from(s, j, width, next)
    } else {
        line_from(s, i + 2, width, st)
    }
}

pub open spec fn state_of(
    cells: Seq<AnsiCell>,
    cursor: Option<usize>,
    style: AnsiStyle,
    hyperlink: Option<String>,
    used: usize,
) -> LineState {
    LineState {
        cells: cells_view(cells),
        cursor: match cursor {
            Some(c) => Some(c as int),
            None => None,
        },
        style,
        hyperlink: opt_string_view(hyperlink),
        used: used as int,
    }
}

/// What a parsed line holds: its cells and the cursor column.
pub open spec fn line_view(l: AnsiLine) -> (Seq<CellView>, Option<int>) {
    let st = state_of(l.cells@, l.cursor, no_style(), None, 0);
    (st.cells, st.cursor)
}

/// The cells and cursor of `s` parsed within `width` columns.
pub open spec fn parsed_line(s: Seq<char>, width: int) -> (Seq<CellView>, Option<int>) {
    let st = line_from(s, 0, width, start_state());
    (st.cells, st.cursor)
}

/// Parses one line of ANSI-styled text into at most `width` columns of cells.
pub fn parse_line(input: &str, width: usize) -> (r: AnsiLine)
    ensures
        line_view(r) == parsed_line(input@, width as int),
{
    let s = chars_of(input);
    let mut line = AnsiLine::default();
    let mut style = AnsiStyle::default();
    let mut hyperlink: Option<String> = None;
    let mut used: usize = 0;
    let mut i: usize = 0;
    assert(cells_view(line.cells@) =~= Seq::<CellView>::empty());
    while i < s.len()
        invariant
            i <= s@.len(),
            used <= width,
            line_from(s@, 0, width as int, start_state()) == line_from(
                s@,
                i as int,
                width as int,
                state_of(line.cells@, line.cursor, style, hyperlink, used),
            ),
        decreases s@.len() - i,
    {
        let c = s[i];
        let ghost before = state_of(line.cells@, line.cursor, style, hyperlink, used);
        if c != '\u{1b}' {
            if !is_control(c) {
                let cells = char_cells(c);
                if cells != 0 && cells <= width - used {
                    let cell = AnsiCell { symbol: c, style, hyperlink: copy_link(&hyperlink) };
                    let ghost old_cells = line.cells@;
                    line.cells.push(cell);
                    proof {
                        lemma_cells_view_push(old_cells, cell);
                    }
                    used += cells;
                    assert(cells_view(line.cells@) =~= before.cells.push((c, style, before.hyperlink)));
                }
            }
            i += 1;
        } else if i + 1 >= s.len() {
            i = s.len();
        } else {
            let d = s[i + 1];
            if d == '[' {
                let j = find_final_byte(&s, i + 2);
                proof {
                    lemma_csi_final(s@, i + 2);
                }
                if j < s.len() {
                    if s[j] == 'm' {
                        let p = slice_chars(&s, i + 2, j);
                        let values = sgr_numbers(&p);
                        apply_sgr(&values, &mut style);
                    }
                    i = j + 1;
                } else {
                    i = s.len();
                }
            } else if d == ']' || d == '_' || d == 'P' || d == '^' || d == 'X' {
                let (payload, j) = read_string_control(&s, i + 2);
                proof {
                    lemma_string_control_end(s@, i + 2, Seq::empty());
                }
                if d == ']' {
                    hyperlink = osc_link(&payload, hyperlink);
                } else if d == '_' {
                    if is_cursor_marker(&payload) {
                        line.cursor = Some(used);
                    }
                }
                i = j;
            } else {
                i += 2;
            }
        }
    }
    line
}

/// Parses each line on its own, from the default style and no link.
pub fn parse_frame(lines: &[&str], width: usize) -> (r: AnsiFrame)
    ensures
        r.width == width,
        r.lines@.len() == lines@.len(),
        forall|k: int| 0 <= k < lines@.len() ==> line_view(#[trigger] r.lines@[k]) == parsed_line(
            lines@[k]@,
            width as int,
        ),
{
    let mut parsed: Vec<AnsiLine> = Vec::new();
    let mut i: usize = 0;
    while i < lines.len()
        invariant
            i <= lines@.len(),
            parsed@.len() == i,
            forall|k: int| 0 <= k < i ==> line_view(#[trigger] parsed@[k]) == parsed_line(
                lines@[k]@,
                width as int,
            ),
        decreases lines@.len() - i,
    {
        let line = parse_line(lines[i], width);
        parsed.push(line);
        i += 1;
    }
    AnsiFrame { width, lines: parsed }
}

/// The characters of a row of cells.
pub open spec fn symbols(cells: Seq<CellView>) -> Seq<char> {
    cells.map_values(|c: CellView| c.0)
}

fn line_symbols(line: &AnsiLine) -> (r: String)
    ensures
        r@ == symbols(line_view(*line).0),
{
    let mut r = String::new();
    let mut i: usize = 0;
    while i < line.cells.len()
        invariant
            i <= line.cells@.len(),
            r@ == symbols(cells_view(line.cells@.take(i as int))),
        decreases line.cells@.len() - i,
    {
        push_char(&mut r, line.cells[i].symbol);
        proof {
            assert(line.cells@.take(i + 1) =~= line.cells@.take(i as int).push(line.cells@[i as int]));
            lemma_cells_view_push(line.cells@.take(i as int), line.cells@[i as int]);
            assert(symbols(cells_view(line.cells@.take(i + 1))) =~= symbols(
                cells_view(line.cells@.take(i as int)),
            ).push(line.cells@[i as int].symbol));
        }
        i += 1;
    }
    assert(line.cells@.take(line.cells@.len() as int) =~= line.cells@);
    r
}

/// The characters a line shows, without styles or links.
pub fn plain_line(input: &str, width: usize) -> (r: String)
    ensures
        r@ == symbols(parsed_line(input@, width as int).0),
{
    let line = parse_line(input, width);
    line_symbols(&line)
}

/// The texts of string slices.
pub open spec fn texts(lines: Seq<&str>) -> Seq<Seq<char>> {
    lines.map_values(|l: &str| l@)
}

/// The characters of the parsed lines of a frame.
pub open spec fn plain_parts(lines: Seq<Seq<char>>, width: int) -> Seq<Seq<char>> {
    Seq::new(lines.len(), |k: int| symbols(parsed_line(lines[k], width).0))
}

/// The characters each line shows, the lines joined by newlines.
pub open spec fn plain_text(lines: Seq<Seq<char>>, width: int) -> Seq<char> {
    crate::message::join_seq(plain_parts(lines, width), seq!['\n'])
}

/// The characters each line shows, the lines joined by newlines.
pub fn plain_lines(lines: &[&str], width: usize) -> (r: String)
    ensures
        r@ == plain_text(texts(lines@), width as int),
{
    let frame = parse_frame(lines, width);
    let mut r = String::new();
    let mut i: usize = 0;
    while i < frame.lines.len()
        invariant
            i <= frame.lines@.len(),
            frame.lines@.len() == lines@.len(),
            forall|k: int| 0 <= k < lines@.len() ==> line_view(#[trigger] frame.lines@[k]) == parsed_line(
                lines@[k]@,
                width as int,
            ),
            r@ == crate::message::join_seq(plain_parts(texts(lines@), width as int).take(i as int), seq!['\n']),
        decreases frame.lines@.len() - i,
    {
        let text = line_symbols(&frame.lines[i]);
        let ghost parts = plain_parts(texts(lines@), width as int);
        if i > 0 {
            push_char(&mut r, '\n');
        }
        crate::text::push_str(&mut r, text.as_str());
        proof {
            assert(parts.take(i + 1).drop_last() =~= parts.take(i as int));
            assert(parts.take(i + 1).last() == text@);
            if i == 0 {
                assert(r@ =~= parts.take(1)[0]);
            } else {
                assert(r@ =~= crate::message::join_seq(parts.take(i as int), seq!['\n']) + seq!['\n'] + text@);
            }
        }
        i += 1;
    }
    assert(plain_parts(texts(lines@), width as int).take(lines@.len() as int) =~= plain_parts(texts(lines@), width as int));
    r
}

/// The columns a row of cells takes.
pub open spec fn columns(cells: Seq<CellView>) -> int
    decreases cells.len(),
{
    if cells.len() == 0 {
        0
    } else {
        columns(cells.drop_last()) + cell_width(cells.last().0)
    }
}

proof fn lemma_line_from_fits(s: Seq<char>, i: int, width: int, st: LineState)
    requires
        0 <= st.used <= width,
        st.used == columns(st.cells),
        st.cursor matches Some(c) ==> 0 <= c <= st.used,
    ensures
        ({
            let r = line_from(s, i, width, st);
            &&& 0 <= r.used <= width
            &&& r.used == columns(r.cells)
            &&& r.cursor matches Some(c) ==> 0 <= c <= r.used
        }),
    decreases s.len() - i,
{
    if i < 0 || i >= s.len() {
    } else if s[i] != '\u{1b}' {
        let c = s[i];
        let w = cell_width(c);
        if spec_is_control(c) || w == 0 || st.used + w > width {
            lemma_line_from_fits(s, i + 1, width, st);
        } else {
            let next = LineState { cells: st.cells.push((c, st.style, st.hyperlink)), used: st.used + w, ..st };
            assert(next.cells.drop_last() =~= st.cells);
            lemma_line_from_fits(s, i + 1, width, next);
        }
    } else if i + 1 >= s.len() {
    } else if s[i + 1] == '[' {
        let j = csi_final(s, i + 2);
        lemma_csi_final(s, i + 2);
        if j < s.len() {
            if s[j] == 'm' {
                lemma_line_from_fits(
                    s,
                    j + 1,
                    width,
                    LineState {
                        style: sgr_apply(sgr_values(s.subrange(i + 2, j)), 0, st.style),
                        ..st
                    },
                );
            } else {
                lemma_line_from_fits(s, j + 1, width, st);
            }
        }
    } else if s[i + 1] == ']' || s[i + 1] == '_' || s[i + 1] == 'P' || s[i + 1] == '^' || s[i
        + 1] == 'X' {
        let (p, j) = string_control(s, i + 2, Seq::empty());
        lemma_string_control_end(s, i + 2, Seq::empty());
        let next = if s[i + 1] == ']' {
            LineState { hyperlink: osc_hyperlink(p, st.hyperlink), ..st }
        } else if s[i + 1] == '_' && p == cursor_marker() {
            LineState { cursor: Some(st.used), ..st }
        } else {
            st
        };
        lemma_line_from_fits(s, j, width, next);
    } else {
        lemma_line_from_fits(s, i + 2, width, st);
    }
}

/// A parsed line never takes more than its width: the columns of its cells
/// add up to at most `width`, and the cursor marker sits within them.
pub proof fn law_parsed_line_fits(s: Seq<char>, width: nat)
    ensures
        columns(parsed_line(s, width as int).0) <= width,
        parsed_line(s, width as int).1 matches Some(c) ==> 0 <= c <= columns(
            parsed_line(s, width as int).0,
        ),
{
    lemma_line_from_fits(s, 0, width as int, start_state());
}


/// The numbers after a prefix are read as they would be alone.
proof fn lemma_sgr_after_prefix(p: Seq<u16>, rest: Seq<u16>, k: int, style: AnsiStyle)
    requires
        0 <= k,
    ensures
        sgr_apply(p + rest, p.len() + k, style) == sgr_apply(rest, k, style),
    decreases rest.len() - k,
{
    let v = p + rest;
    let i = p.len() + k;
    if k < rest.len() {
        assert(v[i] == rest[k]);
        assert(v[i + 1] == rest[k + 1] || k + 1 >= rest.len());
        if rest[k] == 38 || rest[k] == 48 {
            if k + 1 < rest.len() {
                assert(v[i + 1] == rest[k + 1]);
            }
            if k + 2 < rest.len() {
                assert(v[i + 2] == rest[k + 2]);
            }
            if k + 3 < rest.len() {
                assert(v[i + 3] == rest[k + 3]);
            }
            if k + 4 < rest.len() {
                assert(v[i + 4] == rest[k + 4]);
            }
            match extended_color(rest, k + 1) {
                Some((c, last)) => {
                    assert(extended_color(v, i + 1) == Some((c, last + p.len())));
                    lemma_sgr_after_prefix(p, rest, last + 1, if rest[k] == 38 {
                        AnsiStyle { foreground: Some(c), ..style }
                    } else {
                        AnsiStyle { background: Some(c), ..style }
                    });
                },
                None => {
                    assert(extended_color(v, i + 1) is None);
                    lemma_sgr_after_prefix(p, rest, k + 1, style);
                },
            }
        } else {
            lemma_sgr_after_prefix(p, rest, k + 1, sgr_code(rest[k], style));
        }
    }
}

/// `48;5;n` and `48;2;r;g;b` paint the background and leave the text colour
/// and every attribute as they were; `38;5;n` and `38;2;r;g;b` paint the text
/// colour and leave the background. What follows is read as it would be
/// alone.
pub proof fn law_extended_colors_pick_their_layer(n: u16, r: u16, g: u16, b: u16, rest: Seq<u16>, style: AnsiStyle)
    ensures
        sgr_apply(seq![48u16, 5u16, n] + rest, 0, style) == sgr_apply(rest, 0, AnsiStyle { background: Some(n as u32), ..style }),
        sgr_apply(seq![38u16, 5u16, n] + rest, 0, style) == sgr_apply(rest, 0, AnsiStyle { foreground: Some(n as u32), ..style }),
        sgr_apply(seq![48u16, 2u16, r, g, b] + rest, 0, style) == sgr_apply(
            rest,
            0,
            AnsiStyle { background: Some(((((r as u32) << 16u32) | ((g as u32) << 8u32)) | (b as u32))), ..style },
        ),
        sgr_apply(seq![38u16, 2u16, r, g, b] + rest, 0, style) == sgr_apply(
            rest,
            0,
            AnsiStyle { foreground: Some(((((r as u32) << 16u32) | ((g as u32) << 8u32)) | (b as u32))), ..style },
        ),
{
    let p1 = seq![48u16, 5u16, n];
    let v1 = p1 + rest;
    assert(v1[0] == 48u16 && v1[1] == 5u16 && v1[2] == n);
    lemma_sgr_after_prefix(p1, rest, 0, AnsiStyle { background: Some(n as u32), ..style });
    let p2 = seq![38u16, 5u16, n];
    let v2 = p2 + rest;
    assert(v2[0] == 38u16 && v2[1] == 5u16 && v2[2] == n);
    lemma_sgr_after_prefix(p2, rest, 0, AnsiStyle { foreground: Some(n as u32), ..style });
    let c = ((((r as u32) << 16u32) | ((g as u32) << 8u32)) | (b as u32));
    let p3 = seq![48u16, 2u16, r, g, b];
    let v3 = p3 + rest;
    assert(v3[0] == 48u16 && v3[1] == 2u16 && v3[2] == r && v3[3] == g && v3[4] == b);
    lemma_sgr_after_prefix(p3, rest, 0, AnsiStyle { background: Some(c), ..style });
    let p4 = seq![38u16, 2u16, r, g, b];
    let v4 = p4 + rest;
    assert(v4[0] == 38u16 && v4[1] == 2u16 && v4[2] == r && v4[3] == g && v4[4] == b);
    lemma_sgr_after_prefix(p4, rest, 0, AnsiStyle { foreground: Some(c), ..style });
}

} // verus!
