//! Renderer-neutral frames: a grid of cells that clipped, width-aware writes
//! fill, and the scheduler that coalesces requested damage.

use vstd::prelude::*;
use crate::component::ComponentId;
use crate::text::{opt_string_view, push_char};

verus! {

#[derive(Clone, Copy, Debug, PartialEq, Eq, Structural)]
pub enum ScreenMode {
    Main,
    Alternate,
}

#[derive(Clone, Copy, Debug, PartialEq, Eq, Structural)]
pub struct Size {
    pub width: u16,
    pub height: u16,
}

#[derive(Clone, Copy, Debug, PartialEq, Eq, Structural)]
pub struct Rect {
    pub x: u16,
    pub y: u16,
    pub width: u16,
    pub height: u16,
}

pub open spec fn spec_contains(r: Rect, x: u16, y: u16) -> bool {
    x >= r.x && y >= r.y && x < r.x.saturating_add(r.width) && y < r.y.saturating_add(r.height)
}

impl Rect {
    /// The point lies inside the rectangle (edges saturating at the coordinate limit).
    pub fn contains(self, x: u16, y: u16) -> (r: bool)
        ensures
            r == spec_contains(self, x, y),
    {
        x >= self.x && y >= self.y && x < self.x.saturating_add(self.width) && y
            < self.y.saturating_add(self.height)
    }
}

#[derive(Clone, Copy, Debug, PartialEq, Eq, Structural)]
pub struct Style {
    pub foreground: Option<u32>,
    pub background: Option<u32>,
    pub bold: bool,
    pub italic: bool,
    pub underline: bool,
    pub inverse: bool,
    pub strikethrough: bool,
}

/// The style with no colours and no attributes.
pub open spec fn plain_style() -> Style {
    Style {
        foreground: None,
        background: None,
        bold: false,
        italic: false,
        underline: false,
        inverse: false,
        strikethrough: false,
    }
}

impl Default for Style {
    fn default() -> (r: Self)
        ensures
            r == plain_style(),
    {
        Style {
            foreground: None,
            background: None,
            bold: false,
            italic: false,
            underline: false,
            inverse: false,
            strikethrough: false,
        }
    }
}

#[derive(Debug, PartialEq, Eq)]
pub struct Cell {
    pub symbol: String,
    pub style: Style,
    pub hyperlink: Option<String>,
}

impl Clone for Cell {
    fn clone(&self) -> (r: Self)
        ensures
            r == *self,
    {
        Cell { symbol: self.symbol.clone(), style: self.style, hyperlink: self.hyperlink.clone() }
    }
}

impl Default for Cell {
    fn default() -> (r: Self)
        ensures
            r.symbol@ == Seq::<char>::empty(),
            r.style == plain_style(),
            r.hyperlink is None,
    {
        Cell { symbol: String::new(), style: Style::default(), hyperlink: None }
    }
}

/// What a cell shows: its text, its style and the target of its link.
pub type CellShown = (Seq<char>, Style, Option<Seq<char>>);

pub open spec fn shown(c: Cell) -> CellShown {
    (c.symbol@, c.style, opt_string_view(c.hyperlink))
}

pub open spec fn cells_shown(cells: Seq<Cell>) -> Seq<CellShown> {
    cells.map_values(|c: Cell| shown(c))
}

pub open spec fn blank_shown() -> CellShown {
    (Seq::empty(), plain_style(), None)
}

#[derive(Clone, Debug, PartialEq, Eq)]
pub struct SemanticFrame {
    pub size: Size,
    pub cells: Vec<Cell>,
}

/// The cell grid has one cell per column of every row.
pub open spec fn frame_ok(f: SemanticFrame) -> bool {
    f.cells@.len() == f.size.width as int * f.size.height as int
}

/// A glyph of `width` columns written at `(x, y)` lands: inside the clip and the
/// frame, with a nonzero width that fits both (edges saturating at the coordinate
/// limit) and with all its cells inside the grid.
pub open spec fn glyph_fits(size: Size, clip: Rect, x: u16, y: u16, width: u16) -> bool {
    &&& spec_contains(clip, x, y)
    &&& x < size.width
    &&& y < size.height
    &&& width != 0
    &&& x.saturating_add(width) <= clip.x.saturating_add(clip.width)
    &&& x.saturating_add(width) <= size.width
    &&& y as int * size.width as int + x as int + width as int <= size.width as int
        * size.height as int
}

/// The cells after a glyph lands at index `start`: its symbol in the first
/// column, blank continuation cells of the same style in the others, the rest
/// unchanged.
pub open spec fn with_glyph(
    cells: Seq<CellShown>,
    start: int,
    symbol: char,
    width: int,
    style: Style,
    hyperlink: Option<Seq<char>>,
) -> Seq<CellShown> {
    Seq::new(
        cells.len(),
        |i: int|
            if i == start {
                (seq![symbol], style, hyperlink)
            } else if start < i < start + width {
                (Seq::<char>::empty(), style, None::<Seq<char>>)
            } else {
                cells[i]
            },
    )
}

/// The cells after a write of a `width`-column glyph at `(x, y)`: it lands
/// where it fits, else nothing changes.
pub open spec fn put_shown(
    cells: Seq<CellShown>,
    size: Size,
    clip: Rect,
    x: u16,
    y: u16,
    symbol: char,
    width: u16,
    style: Style,
    hyperlink: Option<Seq<char>>,
) -> Seq<CellShown> {
    if glyph_fits(size, clip, x, y, width) {
        with_glyph(
            cells,
            y as int * size.width as int + x as int,
            symbol,
            width as int,
            style,
            hyperlink,
        )
    } else {
        cells
    }
}

/// The displayed width of a character, as the `unicode-width` crate reports it.
pub uninterp spec fn unicode_char_width(c: char) -> Option<usize>;

/// `UnicodeWidthChar::width`: claimed only to return what
/// [`unicode_char_width`] names for `c`.
#[verifier::external_body]
pub(crate) fn char_width(c: char) -> (r: Option<usize>)
    ensures
        r == unicode_char_width(c),
{
    unicode_width::UnicodeWidthChar::width(c)
}

/// The columns a character takes in a frame (0 when the crate gives none).
pub open spec fn glyph_width(c: char) -> u16 {
    match unicode_char_width(c) {
        Some(w) => w as u16,
        None => 0,
    }
}

proof fn lemma_row_index(w: int, h: int, x: int, y: int)
    requires
        0 <= x < w,
        0 <= y < h,
    ensures
        0 <= y * w + x < w * h,
        y * w + x + (w - x) <= w * h,
        w <= 0xffff && h <= 0xffff ==> w * h <= 0xffff * 0xffff,
{
    assert(w <= 0xffff && h <= 0xffff ==> w * h <= 0xffff * 0xffff) by (nonlinear_arith)
        requires
            0 <= x < w,
            0 <= y < h,
    ;
    assert(y * w + w <= h * w) by (nonlinear_arith)
        requires
            0 <= y < h,
            0 <= w,
    ;
    assert(y * w >= 0) by (nonlinear_arith)
        requires
            0 <= y,
            0 <= w,
    ;
    assert(w * h == h * w) by (nonlinear_arith);
}

proof fn lemma_cells_shown_set(cells: Seq<Cell>, i: int, c: Cell)
    requires
        0 <= i < cells.len(),
    ensures
        cells_shown(cells.update(i, c)) == cells_shown(cells).update(i, shown(c)),
{
    assert(cells_shown(cells.update(i, c)) =~= cells_shown(cells).update(i, shown(c)));
}

impl SemanticFrame {
    /// A frame of the given size with every cell blank.
    pub fn new(size: Size) -> (r: Self)
        ensures
            r.size == size,
            frame_ok(r),
            cells_shown(r.cells@) == Seq::new(r.cells@.len(), |i: int| blank_shown()),
    {
        assert(size.width as int * size.height as int <= 0xffff * 0xffff) by (nonlinear_arith)
            requires
                size.width <= 0xffff,
                size.height <= 0xffff,
        ;
        let n = size.width as usize * size.height as usize;
        let mut cells: Vec<Cell> = Vec::new();
        while cells.len() < n
            invariant
                cells@.len() <= n,
                forall|i: int| 0 <= i < cells@.len() ==> shown(#[trigger] cells@[i]) == blank_shown(),
            decreases n - cells@.len(),
        {
            cells.push(Cell::default());
        }
        assert(cells_shown(cells@) =~= Seq::new(cells@.len(), |i: int| blank_shown()));
        SemanticFrame { size, cells }
    }

    /// Write one character with no hyperlink.
    pub fn put(&mut self, clip: Rect, x: u16, y: u16, symbol: char, style: Style)
        requires
            frame_ok(*old(self)),
        ensures
            frame_ok(*final(self)),
            final(self).size == old(self).size,
            cells_shown(final(self).cells@) == put_shown(
                cells_shown(old(self).cells@),
                old(self).size,
                clip,
                x,
                y,
                symbol,
                glyph_width(symbol),
                style,
                None,
            ),
    {
        self.put_cell(clip, x, y, symbol, style, None);
    }

    /// Write one character: it lands only where it fits the clip and the frame.
    pub fn put_cell(
        &mut self,
        clip: Rect,
        x: u16,
        y: u16,
        symbol: char,
        style: Style,
        hyperlink: Option<String>,
    )
        requires
            frame_ok(*old(self)),
        ensures
            frame_ok(*final(self)),
            final(self).size == old(self).size,
            cells_shown(final(self).cells@) == put_shown(
                cells_shown(old(self).cells@),
                old(self).size,
                clip,
                x,
                y,
                symbol,
                glyph_width(symbol),
                style,
                opt_string_view(hyperlink),
            ),
    {
        let width = match char_width(symbol) {
            Some(w) => w as u16,
            None => 0,
        };
        self.put_glyph(clip, x, y, symbol, width, style, hyperlink);
    }

    /// Write a character known to take `width` columns.
    pub fn put_glyph(
        &mut self,
        clip: Rect,
        x: u16,
        y: u16,
        symbol: char,
        width: u16,
        style: Style,
        hyperlink: Option<String>,
    )
        requires
            frame_ok(*old(self)),
        ensures
            frame_ok(*final(self)),
            final(self).size == old(self).size,
            cells_shown(final(self).cells@) == put_shown(
                cells_shown(old(self).cells@),
                old(self).size,
                clip,
                x,
                y,
                symbol,
                width,
                style,
                opt_string_view(hyperlink),
            ),
    {
        if !clip.contains(x, y) || x >= self.size.width || y >= self.size.height {
            return;
        }
        if width == 0 || x.saturating_add(width) > clip.x.saturating_add(clip.width)
            || x.saturating_add(width) > self.size.width {
            return;
        }
        let row = self.size.width as usize;
        proof {
            lemma_row_index(row as int, self.size.height as int, x as int, y as int);
        }
        assert(self.cells@.len() == row as int * self.size.height as int);
        let start = y as usize * row + x as usize;
        if start + width as usize > self.cells.len() {
            return;
        }
        let ghost link = opt_string_view(hyperlink);
        let ghost target = with_glyph(
            cells_shown(self.cells@),
            start as int,
            symbol,
            width as int,
            style,
            link,
        );
        let mut symbol_text = String::new();
        push_char(&mut symbol_text, symbol);
        let first = Cell { symbol: symbol_text, style, hyperlink };
        proof {
            lemma_cells_shown_set(self.cells@, start as int, first);
        }
        self.cells.set(start, first);
        let mut offset: u16 = 1;
        while offset < width
            invariant
                1 <= offset <= width,
                start + width <= self.cells.len(),
                self.size == old(self).size,
                target.len() == self.cells@.len(),
                forall|i: int| start < i < start + width ==> #[trigger] target[i] == (
                    Seq::<char>::empty(),
                    style,
                    None::<Seq<char>>,
                ),
                forall|i: int|
                    0 <= i < target.len() && !(start + offset <= i < start + width) ==> #[trigger] cells_shown(
                        self.cells@,
                    )[i] == target[i],
            decreases width - offset,
        {
            let blank = Cell { symbol: String::new(), style, hyperlink: None };
            proof {
                lemma_cells_shown_set(self.cells@, start + offset, blank);
                assert(shown(blank) == (Seq::<char>::empty(), style, None::<Seq<char>>));
            }
            self.cells.set(start + offset as usize, blank);
            offset += 1;
        }
        assert(cells_shown(self.cells@) =~= target);
    }
}

#[derive(Clone, Copy, Debug, PartialEq, Eq, Structural)]
pub enum Damage {
    Clean,
    Components,
    Full,
}

impl Default for Damage {
    fn default() -> (r: Self)
        ensures
            r == Damage::Clean,
    {
        Damage::Clean
    }
}

/// The damage covering both: full beats components beats none.
pub open spec fn damage_join(a: Damage, b: Damage) -> Damage {
    if a == Damage::Full || b == Damage::Full {
        Damage::Full
    } else if a == Damage::Components || b == Damage::Components {
        Damage::Components
    } else {
        Damage::Clean
    }
}

/// Requested damage coalesces: the join is commutative, associative and
/// idempotent, and no damage is its identity, so the order and repetition of
/// requests between two frames does not matter.
pub proof fn law_damage_coalesces(a: Damage, b: Damage, c: Damage)
    ensures
        damage_join(a, b) == damage_join(b, a),
        damage_join(damage_join(a, b), c) == damage_join(a, damage_join(b, c)),
        damage_join(a, a) == a,
        damage_join(a, Damage::Clean) == a,
{
}

#[derive(Clone, Copy, Debug, PartialEq, Eq, Structural)]
pub enum InvalidationReason {
    State,
    Resize,
    Theme,
    Capabilities,
    Full,
}

#[derive(Debug)]
pub struct RendererPrivateState {
    pub family: Option<String>,
}

impl Default for RendererPrivateState {
    fn default() -> (r: Self)
        ensures
            r.family is None,
    {
        RendererPrivateState { family: None }
    }
}

/// Damage requested since the last frame, and the components invalidated.
#[derive(Debug)]
pub struct RenderScheduler {
    dirty: Damage,
    components: Vec<ComponentId>,
}

impl Default for RenderScheduler {
    fn default() -> (r: Self)
        ensures
            r.dirty_view() == Damage::Clean,
            r.components_view().len() == 0,
    {
        RenderScheduler { dirty: Damage::Clean, components: Vec::new() }
    }
}

impl RenderScheduler {
    pub closed spec fn dirty_view(&self) -> Damage {
        self.dirty
    }

    pub closed spec fn components_view(&self) -> Seq<ComponentId> {
        self.components@
    }

    /// Add damage to the pending frame.
    pub fn request(&mut self, damage: Damage)
        ensures
            final(self).dirty_view() == damage_join(old(self).dirty_view(), damage),
            final(self).components_view() == old(self).components_view(),
    {
        self.dirty = if self.dirty == Damage::Full || damage == Damage::Full {
            Damage::Full
        } else if self.dirty == Damage::Components || damage == Damage::Components {
            Damage::Components
        } else {
            Damage::Clean
        };
    }

    /// Mark one component for redraw.
    pub fn invalidate(&mut self, id: ComponentId, reason: InvalidationReason)
        ensures
            final(self).dirty_view() == damage_join(old(self).dirty_view(), Damage::Components),
            final(self).components_view().contains(id),
            forall|c: ComponentId| old(self).components_view().contains(c) ==> final(self).components_view().contains(c),
            forall|c: ComponentId| #[trigger] final(self).components_view().contains(c) ==> c == id
                || old(self).components_view().contains(c),
    {
        let mut i: usize = 0;
        let mut found = false;
        while i < self.components.len()
            invariant
                i <= self.components@.len(),
                found ==> self.components@.contains(id),
            decreases self.components@.len() - i,
        {
            if self.components[i].0 == id.0 {
                found = true;
                assert(self.components@[i as int] == id);
            }
            i += 1;
        }
        if !found {
            self.components.push(id);
            proof {
                assert(self.components@[self.components@.len() - 1] == id);
            }
        }
        proof {
            assert forall|c: ComponentId| #[trigger] self.components@.contains(c) implies c == id
                || old(self).components@.contains(c) by {
                if self.components@.contains(c) && c != id {
                    let k = choose|k: int| 0 <= k < self.components@.len() && self.components@[k] == c;
                    assert(old(self).components@[k] == c);
                }
            }
            assert forall|c: ComponentId| old(self).components@.contains(c) implies #[trigger] self.components@.contains(c) by {
                let k = choose|k: int| 0 <= k < old(self).components@.len() && old(self).components@[k] == c;
                assert(self.components@[k] == c);
            }
        }
        self.request(Damage::Components);
    }

    pub fn has_damage(&self) -> (r: bool)
        ensures
            r == (self.dirty_view() != Damage::Clean),
    {
        self.dirty != Damage::Clean
    }

    /// Take the pending damage, leaving none.
    pub fn take(&mut self) -> (r: Damage)
        ensures
            r == old(self).dirty_view(),
            final(self).dirty_view() == Damage::Clean,
            final(self).components_view().len() == 0,
    {
        self.components.clear();
        let r = self.dirty;
        self.dirty = Damage::Clean;
        r
    }
}

} // verus!
