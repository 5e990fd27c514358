//! Turning the ANSI lines a component renders into a cached semantic frame
//! with the component's cursor.

use vstd::prelude::*;
use crate::ansi::{AnsiFrame, AnsiStyle, CellView, line_view, parse_frame, parsed_line, texts};
use crate::component::{ComponentId, CursorAnchor};
use crate::render::{
    CellShown, Rect, SemanticFrame, Size, Style, blank_shown, cells_shown, char_width, frame_ok,
    glyph_width, put_shown,
};
use crate::text::opt_string_view;

verus! {

#[derive(Debug, PartialEq, Eq)]
pub struct PiCachedFrame {
    pub frame: SemanticFrame,
    pub cursor: Option<CursorAnchor>,
}

pub open spec fn spec_native_style(style: AnsiStyle) -> Style {
    Style {
        foreground: style.foreground,
        background: style.background,
        bold: style.bold,
        italic: style.italic,
        underline: style.underline,
        inverse: style.inverse,
        strikethrough: style.strikethrough,
    }
}

/// The frame style with the same colours and attributes.
pub fn native_style(style: &AnsiStyle) -> (r: Style)
    ensures
        r == spec_native_style(*style),
{
    Style {
        foreground: style.foreground,
        background: style.background,
        bold: style.bold,
        italic: style.italic,
        underline: style.underline,
        inverse: style.inverse,
        strikethrough: style.strikethrough,
    }
}

/// The cells after writing the cells of `row` from the `k`-th on at row `y`,
/// the `k`-th at column `x` and each next one after the columns of the last.
pub open spec fn place_row(
    cells: Seq<CellShown>,
    size: Size,
    clip: Rect,
    y: u16,
    row: Seq<CellView>,
    k: int,
    x: u16,
) -> Seq<CellShown>
    decreases row.len() - k,
{
    if k < 0 || k >= row.len() {
        cells
    } else {
        let c = row[k];
        place_row(
            put_shown(cells, size, clip, x, y, c.0, glyph_width(c.0), spec_native_style(c.1), c.2),
            size,
            clip,
            y,
            row,
            k + 1,
            x.saturating_add(glyph_width(c.0)),
        )
    }
}

/// The cells after writing the first `n` lines, line `i` at row `i`.
pub open spec fn place_lines(
    cells: Seq<CellShown>,
    size: Size,
    clip: Rect,
    lines: Seq<(Seq<CellView>, Option<int>)>,
    n: int,
) -> Seq<CellShown>
    decreases n,
{
    if n <= 0 {
        cells
    } else {
        place_row(
            place_lines(cells, size, clip, lines, n - 1),
            size,
            clip,
            (n - 1) as u16,
            lines[n - 1].0,
            0,
            0,
        )
    }
}

/// The cursor of the last of the first `n` lines that carries a marker at a
/// column that fits a `u16`.
pub open spec fn cached_cursor(
    component: ComponentId,
    lines: Seq<(Seq<CellView>, Option<int>)>,
    n: int,
) -> Option<CursorAnchor>
    decreases n,
{
    if n <= 0 {
        None
    } else {
        match lines[n - 1].1 {
            Some(x) => if x <= 0xffff {
                Some(
                    CursorAnchor {
                        component,
                        x: x as u16,
                        y: (n - 1) as u16,
                        visible: true,
                        ime: true,
                    },
                )
            } else {
                cached_cursor(component, lines, n - 1)
            },
            None => cached_cursor(component, lines, n - 1),
        }
    }
}

/// Each line parsed within `width` columns.
pub open spec fn parsed_lines(lines: Seq<Seq<char>>, width: int) -> Seq<(Seq<CellView>, Option<int>)> {
    Seq::new(lines.len(), |k: int| parsed_line(lines[k], width))
}

pub open spec fn clamp_u16(n: int) -> u16 {
    if n <= 0xffff {
        n as u16
    } else {
        0xffff
    }
}

pub open spec fn full_rect(size: Size) -> Rect {
    Rect { x: 0, y: 0, width: size.width, height: size.height }
}

/// The frame of `lines` cut to `width` columns (both clamped to the `u16`
/// range), the lines past row `u16::MAX` left out.
pub open spec fn cached_cells(width: int, lines: Seq<(Seq<CellView>, Option<int>)>) -> Seq<
    CellShown,
> {
    let size = Size { width: clamp_u16(width), height: clamp_u16(lines.len() as int) };
    place_lines(
        Seq::new((size.width as nat * size.height as nat) as nat, |i: int| blank_shown()),
        size,
        full_rect(size),
        lines,
        line_count(lines),
    )
}

pub open spec fn line_count(lines: Seq<(Seq<CellView>, Option<int>)>) -> int {
    if lines.len() <= 0x10000 {
        lines.len() as int
    } else {
        0x10000
    }
}

fn copy_link(link: &Option<String>) -> (r: Option<String>)
    ensures
        r == *link,
{
    match link {
        Some(s) => Some(s.clone()),
        None => None,
    }
}

impl PiCachedFrame {
    /// Parses the lines within `width` columns and caches them as a frame.
    pub fn from_ansi_lines(component: ComponentId, lines: &[&str], width: u16) -> (r: Self)
        ensures
            r.frame.size == (Size { width, height: clamp_u16(lines@.len() as int) }),
            frame_ok(r.frame),
            cells_shown(r.frame.cells@) == cached_cells(
                width as int,
                parsed_lines(texts(lines@), width as int),
            ),
            r.cursor == cached_cursor(
                component,
                parsed_lines(texts(lines@), width as int),
                line_count(parsed_lines(texts(lines@), width as int)),
            ),
    {
        let parsed = parse_frame(lines, width as usize);
        assert(parsed.lines@.map_values(|l: crate::ansi::AnsiLine| line_view(l)) =~= parsed_lines(
            texts(lines@),
            width as int,
        ));
        Self::from_ansi_frame(component, parsed)
    }

    /// Caches a parsed frame: each line `i` fills row `i` from column 0, each
    /// cell after the columns of the one before; the cursor comes from the
    /// last line with a marker.
    pub fn from_ansi_frame(component: ComponentId, parsed: AnsiFrame) -> (r: Self)
        ensures
            r.frame.size == (Size {
                width: clamp_u16(parsed.width as int),
                height: clamp_u16(parsed.lines@.len() as int),
            }),
            frame_ok(r.frame),
            cells_shown(r.frame.cells@) == cached_cells(
                parsed.width as int,
                parsed.lines@.map_values(|l: crate::ansi::AnsiLine| line_view(l)),
            ),
            r.cursor == cached_cursor(
                component,
                parsed.lines@.map_values(|l: crate::ansi::AnsiLine| line_view(l)),
                line_count(parsed.lines@.map_values(|l: crate::ansi::AnsiLine| line_view(l))),
            ),
    {
        let ghost views = parsed.lines@.map_values(|l: crate::ansi::AnsiLine| line_view(l));
        let width: u16 = if parsed.width <= 0xffff {
            parsed.width as u16
        } else {
            0xffff
        };
        let height: u16 = if parsed.lines.len() <= 0xffff {
            parsed.lines.len() as u16
        } else {
            0xffff
        };
        let size = Size { width, height };
        let clip = Rect { x: 0, y: 0, width: size.width, height: size.height };
        let mut frame = SemanticFrame::new(size);
        let mut cursor: Option<CursorAnchor> = None;
        let ghost blank = cells_shown(frame.cells@);
        let mut line_index: usize = 0;
        while line_index < parsed.lines.len() && line_index <= 0xffff
            invariant
                line_index <= parsed.lines@.len(),
                line_index <= 0x10000,
                frame.size == size,
                frame_ok(frame),
                views == parsed.lines@.map_values(|l: crate::ansi::AnsiLine| line_view(l)),
                cells_shown(frame.cells@) == place_lines(blank, size, clip, views, line_index as int),
                cursor == cached_cursor(component, views, line_index as int),
            decreases parsed.lines@.len() - line_index,
        {
            let y = line_index as u16;
            let line = &parsed.lines[line_index];
            let ghost row = views[line_index as int].0;
            assert(row == line_view(*line).0);
            match line.cursor {
                Some(x) => {
                    if x <= 0xffff {
                        cursor = Some(
                            CursorAnchor { component, x: x as u16, y, visible: true, ime: true },
                        );
                    }
                },
                None => {},
            }
            let mut x: u16 = 0;
            let mut k: usize = 0;
            let ghost before = cells_shown(frame.cells@);
            while k < line.cells.len()
                invariant
                    k <= line.cells@.len(),
                    frame.size == size,
                    frame_ok(frame),
                    row == line_view(*line).0,
                    place_row(before, size, clip, y, row, 0, 0) == place_row(
                        cells_shown(frame.cells@),
                        size,
                        clip,
                        y,
                        row,
                        k as int,
                        x,
                    ),
                decreases line.cells@.len() - k,
            {
                let cell = &line.cells[k];
                assert(row[k as int] == crate::ansi::cell_view(*cell));
                let width: u16 = match char_width(cell.symbol) {
                    Some(w) => w as u16,
                    None => 0,
                };
                frame.put_cell(
                    clip,
                    x,
                    y,
                    cell.symbol,
                    native_style(&cell.style),
                    copy_link(&cell.hyperlink),
                );
                x = x.saturating_add(width);
                k += 1;
            }
            line_index += 1;
        }
        assert(blank =~= Seq::new((size.width as nat * size.height as nat) as nat, |i: int| blank_shown()));
        PiCachedFrame { frame, cursor }
    }
}

} // verus!
