//! Component identity, cursor anchors and keyboard focus with a history of
//! previously focused components.

use vstd::prelude::*;
use crate::editing::{inserted_at, position_after};
use crate::input::InputEvent;
use crate::render::{CellShown, Rect, SemanticFrame, Size, Style, cells_shown, char_width, frame_ok, glyph_width, put_shown};
use crate::state::{AppState, AppView, app_view};

verus! {

#[derive(Clone, Copy, Debug, PartialEq, Eq, PartialOrd, Ord, Hash, Structural)]
pub struct ComponentId(pub u64);

#[derive(Clone, Copy, Debug, PartialEq, Eq, Structural)]
pub struct CursorAnchor {
    pub component: ComponentId,
    pub x: u16,
    pub y: u16,
    pub visible: bool,
    pub ime: bool,
}

#[derive(Clone, Copy, Debug, PartialEq, Eq, Structural)]
pub enum InputResult {
    Consumed,
    Bubble,
}

#[derive(Debug)]
pub struct EditorComponent {
    id: ComponentId,
}

impl EditorComponent {
    pub closed spec fn id_view(&self) -> ComponentId {
        self.id
    }

    pub fn new(id: ComponentId) -> (r: Self)
        ensures
            r.id_view() == id,
    {
        EditorComponent { id }
    }

    pub fn id(&self) -> (r: ComponentId)
        ensures
            r == self.id_view(),
    {
        self.id
    }
}

/// Which component has focus, which are mounted, and the components focus
/// passed through on the way, oldest first.
#[derive(Debug)]
pub struct FocusManager {
    focused: Option<ComponentId>,
    mounted: Vec<ComponentId>,
    history: Vec<ComponentId>,
}

/// The last entry of `history` that is mounted.
pub open spec fn last_mounted(history: Seq<ComponentId>, mounted: Set<ComponentId>) -> Option<ComponentId>
    decreases history.len(),
{
    if history.len() == 0 {
        None
    } else if mounted.contains(history.last()) {
        Some(history.last())
    } else {
        last_mounted(history.drop_last(), mounted)
    }
}

/// Holds of every component but `id`.
pub open spec fn other_than(id: ComponentId) -> spec_fn(ComponentId) -> bool {
    |c: ComponentId| c != id
}

/// The sequence with every occurrence of `id` taken out.
pub open spec fn without(history: Seq<ComponentId>, id: ComponentId) -> Seq<ComponentId> {
    history.filter(other_than(id))
}

proof fn lemma_without_contains(s: Seq<ComponentId>, id: ComponentId, c: ComponentId)
    ensures
        without(s, id).contains(c) <==> s.contains(c) && c != id,
{
    let pred = other_than(id);
    if without(s, id).contains(c) {
        s.lemma_filter_contains_rev(pred, c);
        let k = choose|k: int| 0 <= k < s.filter(pred).len() && s.filter(pred)[k] == c;
        s.lemma_filter_pred(pred, k);
    }
    if s.contains(c) && c != id {
        let k = choose|k: int| 0 <= k < s.len() && s[k] == c;
        s.lemma_filter_contains(pred, k);
    }
}

/// The entries of `items` other than `id`, in order.
fn keep_others(items: &Vec<ComponentId>, id: ComponentId) -> (r: Vec<ComponentId>)
    ensures
        r@ == without(items@, id),
{
    let mut kept: Vec<ComponentId> = Vec::new();
    let mut j: usize = 0;
    while j < items.len()
        invariant
            j <= items@.len(),
            kept@ == without(items@.take(j as int), id),
        decreases items@.len() - j,
    {
        let c = items[j];
        proof {
            assert(items@.take(j + 1) =~= items@.take(j as int).push(c));
            items@.take(j as int).lemma_filter_push(c, other_than(id));
        }
        if c.0 != id.0 {
            kept.push(c);
        }
        j += 1;
    }
    assert(items@.take(items@.len() as int) =~= items@);
    kept
}

/// Where a component renders: the frame, the clip and base style, and the
/// cursor it may place.
pub struct RenderContext<'a> {
    pub frame: &'a mut crate::render::SemanticFrame,
    pub clip: crate::render::Rect,
    pub style: crate::render::Style,
    pub cursor: &'a mut Option<CursorAnchor>,
}

impl<'a> RenderContext<'a> {
    /// Places the cursor.
    pub fn set_cursor(&mut self, cursor: CursorAnchor)
        ensures
            *final(self).cursor == Some(cursor),
            *final(self).frame == *old(self).frame,
            *final(final(self).frame) == *final(old(self).frame),
            *final(final(self).cursor) == *final(old(self).cursor),
            final(self).clip == old(self).clip,
            final(self).style == old(self).style,
    {
        *self.cursor = Some(cursor);
    }
}

/// A piece of the terminal UI with its own identity, rendering and input
/// handling.
pub trait Component {
    fn id(&self) -> ComponentId;

    fn render(&mut self, state: &AppState, context: &mut RenderContext<'_>, area: Rect)
        requires
            frame_ok(*old(context).frame),
        ensures
            frame_ok(*final(context).frame),
            final(context).frame.size == old(context).frame.size,
            *final(final(context).frame) == *final(old(context).frame),
            *final(final(context).cursor) == *final(old(context).cursor),
    ;

    fn input(&mut self, state: &mut AppState, event: &InputEvent) -> InputResult
        requires
            crate::reducer::insert_fits(old(state).cursor, *event),
    ;

    fn focus_changed(&mut self, focused: bool) {
    }

    fn invalidate(&mut self, reason: crate::render::InvalidationReason) {
    }
}

proof fn lemma_insert_one(text: Seq<char>, cursor: int, inserted: Seq<char>, c: char)
    requires
        0 <= cursor,
    ensures
        inserted_at(inserted_at(text, cursor, inserted), cursor + inserted.len(), seq![c])
            == inserted_at(text, cursor, inserted.push(c)),
{
    let at = if cursor < text.len() { cursor } else { text.len() as int };
    let mid = inserted_at(text, cursor, inserted);
    let at2 = if cursor + inserted.len() < mid.len() { cursor + inserted.len() } else { mid.len() as int };
    assert(at2 == at + inserted.len());
    assert(inserted_at(mid, cursor + inserted.len(), seq![c]) =~= inserted_at(text, cursor, inserted.push(c)));
}

/// Where the editor's characters land: each at the running column of its
/// row, a newline starting the next row at the left edge of `area`.
pub open spec fn editor_cells(
    cells: Seq<CellShown>,
    size: Size,
    clip: Rect,
    style: Style,
    text: Seq<char>,
    k: int,
    x: u16,
    y: u16,
    left: u16,
) -> Seq<CellShown>
    decreases text.len() - k,
{
    if k < 0 || k >= text.len() {
        cells
    } else if text[k] == '\n' {
        editor_cells(cells, size, clip, style, text, k + 1, left, y.saturating_add(1), left)
    } else {
        editor_cells(
            put_shown(cells, size, clip, x, y, text[k], glyph_width(text[k]), style, None),
            size,
            clip,
            style,
            text,
            k + 1,
            x.saturating_add(glyph_width(text[k])),
            y,
            left,
        )
    }
}

/// The cursor the editor places: at its row and column from the area's
/// corner, visible and accepting composed input.
pub open spec fn editor_cursor(id: ComponentId, editor: Seq<char>, cursor: usize, area: Rect) -> CursorAnchor {
    let at = if cursor <= editor.len() { cursor as int } else { editor.len() as int };
    let (row, column) = position_after(editor.take(at));
    CursorAnchor {
        component: id,
        x: area.x.saturating_add(column as u16),
        y: area.y.saturating_add(row as u16),
        visible: true,
        ime: true,
    }
}

impl EditorComponent {
    /// Pasted or typed text goes into the editor at the cursor; other input
    /// bubbles up.
    pub fn handle_input(&mut self, state: &mut AppState, event: &InputEvent) -> (r: InputResult)
        requires
            crate::reducer::insert_fits(old(state).cursor, *event),
        ensures
            final(self).id_view() == old(self).id_view(),
            match event {
                InputEvent::Paste(t) | InputEvent::Text(t) => r == InputResult::Consumed && app_view(*final(state))
                    == (AppView {
                    editor: inserted_at(app_view(*old(state)).editor, old(state).cursor as int, t@),
                    cursor: (old(state).cursor + t@.len()) as usize,
                    ..app_view(*old(state))
                }),
                _ => r == InputResult::Bubble && app_view(*final(state)) == app_view(*old(state)),
            },
    {
        match event {
            InputEvent::Paste(text) | InputEvent::Text(text) => {
                let chars = crate::text::chars_of(text.as_str());
                let ghost start = app_view(*state);
                let ghost c0 = state.cursor;
                let mut i: usize = 0;
                assert(chars@.take(0) =~= seq![]);
                assert(inserted_at(start.editor, c0 as int, seq![]) =~= start.editor);
                while i < chars.len()
                    invariant
                        i <= chars@.len(),
                        chars@ == text@,
                        c0 + chars@.len() <= usize::MAX,
                        state.cursor == c0 + i,
                        app_view(*state) == (AppView {
                            editor: inserted_at(start.editor, c0 as int, chars@.take(i as int)),
                            cursor: (c0 + i) as usize,
                            ..start
                        }),
                    decreases chars@.len() - i,
                {
                    proof {
                        lemma_insert_one(start.editor, c0 as int, chars@.take(i as int), chars@[i as int]);
                        assert(chars@.take(i as int).push(chars@[i as int]) =~= chars@.take(i + 1));
                    }
                    state.insert(chars[i]);
                    i += 1;
                }
                assert(chars@.take(chars@.len() as int) =~= chars@);
                InputResult::Consumed
            },
            _ => InputResult::Bubble,
        }
    }

    /// Draws the editor's text into the area and places the cursor.
    pub fn draw(&self, state: &AppState, context: &mut RenderContext<'_>, area: Rect)
        requires
            frame_ok(*old(context).frame),
        ensures
            frame_ok(*final(context).frame),
            final(context).frame.size == old(context).frame.size,
            cells_shown(final(context).frame.cells@) == editor_cells(
                cells_shown(old(context).frame.cells@),
                old(context).frame.size,
                old(context).clip,
                old(context).style,
                state.editor@,
                0,
                area.x,
                area.y,
                area.x,
            ),
            *final(context).cursor == Some(editor_cursor(self.id_view(), state.editor@, state.cursor, area)),
            *final(final(context).frame) == *final(old(context).frame),
            *final(final(context).cursor) == *final(old(context).cursor),
    {
        let chars = crate::text::chars_of(state.editor.as_str());
        let ghost start = cells_shown(context.frame.cells@);
        let mut x = area.x;
        let mut y = area.y;
        let mut i: usize = 0;
        while i < chars.len()
            invariant
                i <= chars@.len(),
                chars@ == state.editor@,
                frame_ok(*context.frame),
                context.frame.size == old(context).frame.size,
                context.clip == old(context).clip,
                context.style == old(context).style,
                *final(context.frame) == *final(old(context).frame),
                *final(context.cursor) == *final(old(context).cursor),
                editor_cells(start, old(context).frame.size, old(context).clip, old(context).style, chars@, 0, area.x, area.y, area.x)
                    == editor_cells(cells_shown(context.frame.cells@), old(context).frame.size, old(context).clip, old(context).style, chars@, i as int, x, y, area.x),
            decreases chars@.len() - i,
        {
            let ch = chars[i];
            if ch == '\n' {
                x = area.x;
                y = y.saturating_add(1);
            } else {
                context.frame.put(context.clip, x, y, ch, context.style);
                let w: u16 = match char_width(ch) {
                    Some(w) => w as u16,
                    None => 0,
                };
                x = x.saturating_add(w);
            }
            i += 1;
        }
        let (row, column) = crate::editing::cursor_position(state.editor.as_str(), state.cursor);
        context.set_cursor(
            CursorAnchor {
                component: self.id,
                x: area.x.saturating_add(column as u16),
                y: area.y.saturating_add(row as u16),
                visible: true,
                ime: true,
            },
        );
    }
}

impl Component for EditorComponent {
    fn id(&self) -> (r: ComponentId)
        ensures
            r == self.id_view(),
    {
        self.id
    }

    fn render(&mut self, state: &AppState, context: &mut RenderContext<'_>, area: Rect)
        ensures
            final(self).id_view() == old(self).id_view(),
            cells_shown(final(context).frame.cells@) == editor_cells(
                cells_shown(old(context).frame.cells@),
                old(context).frame.size,
                old(context).clip,
                old(context).style,
                state.editor@,
                0,
                area.x,
                area.y,
                area.x,
            ),
            *final(context).cursor == Some(editor_cursor(old(self).id_view(), state.editor@, state.cursor, area)),
    {
        self.draw(state, context, area);
    }

    fn input(&mut self, state: &mut AppState, event: &InputEvent) -> (r: InputResult)
        ensures
            final(self).id_view() == old(self).id_view(),
            match event {
                InputEvent::Paste(t) | InputEvent::Text(t) => r == InputResult::Consumed && app_view(*final(state))
                    == (AppView {
                    editor: inserted_at(app_view(*old(state)).editor, old(state).cursor as int, t@),
                    cursor: (old(state).cursor + t@.len()) as usize,
                    ..app_view(*old(state))
                }),
                _ => r == InputResult::Bubble && app_view(*final(state)) == app_view(*old(state)),
            },
    {
        self.handle_input(state, event)
    }
}

/// The mounted components, drawn in order, and which one has focus.
pub struct ComponentRegistry {
    components: Vec<Box<dyn Component>>,
    focus: FocusManager,
}

impl Default for ComponentRegistry {
    /// The editor, mounted and focused.
    fn default() -> (r: Self)
        ensures
            r.focus_view().focused_view() == Some(ComponentId(1)),
            r.focus_view().mounted_view() == Set::<ComponentId>::empty().insert(ComponentId(1)),
    {
        let id = ComponentId(1);
        let mut focus = FocusManager::default();
        focus.mount(id);
        let focused = focus.focus(id);
        let mut components: Vec<Box<dyn Component>> = Vec::new();
        components.push(Box::new(EditorComponent::new(id)));
        ComponentRegistry { components, focus }
    }
}

impl ComponentRegistry {
    pub closed spec fn focus_view(&self) -> FocusManager {
        self.focus
    }

    pub fn focus(&self) -> (r: &FocusManager)
        ensures
            *r == self.focus_view(),
    {
        &self.focus
    }

    /// Input is not routed to components yet.
    pub fn dispatch(&mut self, state: &mut AppState, event: &InputEvent) -> (r: bool)
        ensures
            !r,
    {
        false
    }

    /// Tells every component to redraw.
    pub fn invalidate_all(&mut self, reason: crate::render::InvalidationReason)
        ensures
            final(self).focus_view() == old(self).focus_view(),
    {
        let mut i: usize = 0;
        while i < self.components.len()
            invariant
                self.focus == old(self).focus,
            decreases self.components@.len() - i,
        {
            self.components[i].invalidate(reason);
            i += 1;
        }
    }

    /// Draws every component into a blank frame of the given size, each over
    /// the whole frame and in the default style, and returns it with the
    /// cursor the last of them placed.
    pub fn render(&mut self, state: &AppState, size: Size) -> (r: (SemanticFrame, Option<CursorAnchor>))
        ensures
            frame_ok(r.0),
            r.0.size == size,
            final(self).focus_view() == old(self).focus_view(),
    {
        let mut frame = SemanticFrame::new(size);
        let mut cursor: Option<CursorAnchor> = None;
        let area = Rect { x: 0, y: 0, width: size.width, height: size.height };
        let mut i: usize = 0;
        while i < self.components.len()
            invariant
                frame_ok(frame),
                frame.size == size,
                self.focus == old(self).focus,
            decreases self.components@.len() - i,
        {
            let mut context = RenderContext {
                frame: &mut frame,
                clip: area,
                style: Style::default(),
                cursor: &mut cursor,
            };
            self.components[i].render(state, &mut context, area);
            i += 1;
        }
        (frame, cursor)
    }
}

impl Default for FocusManager {
    fn default() -> (r: Self)
        ensures
            r.focused_view() is None,
            r.mounted_view() == Set::<ComponentId>::empty(),
            r.history_view().len() == 0,
    {
        let r = FocusManager { focused: None, mounted: Vec::new(), history: Vec::new() };
        assert(r.mounted@.to_set() =~= Set::<ComponentId>::empty());
        r
    }
}

impl FocusManager {
    pub closed spec fn focused_view(&self) -> Option<ComponentId> {
        self.focused
    }

    pub closed spec fn mounted_view(&self) -> Set<ComponentId> {
        self.mounted@.to_set()
    }

    pub closed spec fn history_view(&self) -> Seq<ComponentId> {
        self.history@
    }

    fn is_mounted(&self, id: ComponentId) -> (r: bool)
        ensures
            r == self.mounted_view().contains(id),
    {
        let mut i: usize = 0;
        while i < self.mounted.len()
            invariant
                i <= self.mounted@.len(),
                forall|j: int| 0 <= j < i ==> self.mounted@[j] != id,
            decreases self.mounted@.len() - i,
        {
            if self.mounted[i].0 == id.0 {
                assert(self.mounted@.contains(id));
                return true;
            }
            i += 1;
        }
        assert(!self.mounted@.contains(id));
        false
    }

    /// The most recent component of the history that is still mounted.
    fn latest_mounted(&self) -> (r: Option<ComponentId>)
        ensures
            r == last_mounted(self.history@, self.mounted_view()),
    {
        let mut k = self.history.len();
        assert(self.history@.take(k as int) =~= self.history@);
        while k > 0
            invariant
                k <= self.history@.len(),
                last_mounted(self.history@, self.mounted_view()) == last_mounted(
                    self.history@.take(k as int),
                    self.mounted_view(),
                ),
            decreases k,
        {
            let c = self.history[k - 1];
            assert(self.history@.take(k as int).last() == c);
            assert(self.history@.take(k as int).drop_last() =~= self.history@.take(k - 1));
            if self.is_mounted(c) {
                return Some(c);
            }
            k -= 1;
        }
        assert(self.history@.take(0) =~= Seq::<ComponentId>::empty());
        None
    }

    pub fn mount(&mut self, id: ComponentId)
        ensures
            final(self).mounted_view() == old(self).mounted_view().insert(id),
            final(self).focused_view() == old(self).focused_view(),
            final(self).history_view() == old(self).history_view(),
    {
        if !self.is_mounted(id) {
            proof {
                self.mounted@.lemma_push_to_set_commute(id);
            }
            self.mounted.push(id);
        } else {
            assert(self.mounted@.to_set().insert(id) =~= self.mounted@.to_set());
        }
    }

    /// Unmount a component. If it had focus, focus returns to the most recent
    /// component in the history that is still mounted.
    pub fn remove(&mut self, id: ComponentId)
        ensures
            final(self).mounted_view() == old(self).mounted_view().remove(id),
            final(self).history_view() == without(old(self).history_view(), id),
            old(self).focused_view() == Some(id) ==> final(self).focused_view() == last_mounted(
                without(old(self).history_view(), id),
                old(self).mounted_view().remove(id),
            ),
            old(self).focused_view() != Some(id) ==> final(self).focused_view() == old(self).focused_view(),
    {
        let mounted = keep_others(&self.mounted, id);
        let history = keep_others(&self.history, id);
        proof {
            assert forall|c: ComponentId| #[trigger] mounted@.to_set().contains(c) == self.mounted@.to_set().remove(id).contains(c) by {
                lemma_without_contains(self.mounted@, id, c);
            }
            assert(mounted@.to_set() =~= self.mounted@.to_set().remove(id));
        }
        self.mounted = mounted;
        self.history = history;
        if self.focused == Some(id) {
            self.focused = self.latest_mounted();
        }
    }

    /// Give focus to a mounted component, remembering the one that had it.
    pub fn focus(&mut self, id: ComponentId) -> (r: bool)
        ensures
            r == old(self).mounted_view().contains(id),
            final(self).mounted_view() == old(self).mounted_view(),
            !r ==> final(self).focused_view() == old(self).focused_view() && final(self).history_view()
                == old(self).history_view(),
            r ==> final(self).focused_view() == Some(id),
            r ==> final(self).history_view() == (match old(self).focused_view() {
                Some(p) => if p != id {
                    old(self).history_view().push(p)
                } else {
                    old(self).history_view()
                },
                None => old(self).history_view(),
            }),
    {
        if !self.is_mounted(id) {
            return false;
        }
        if let Some(previous) = self.focused {
            if previous.0 != id.0 {
                self.history.push(previous);
            }
        }
        self.focused = Some(id);
        true
    }

    pub fn focused(&self) -> (r: Option<ComponentId>)
        ensures
            r == self.focused_view(),
    {
        self.focused
    }
}

/// Focus passing from a mounted component `a` to another component `b` and
/// then `b` being removed gives focus back to `a`: `focus(b)` pushes `a` onto
/// the history, and `remove(b)` picks the latest mounted entry of it.
pub proof fn law_remove_restores_previous_focus(
    history: Seq<ComponentId>,
    mounted: Set<ComponentId>,
    a: ComponentId,
    b: ComponentId,
)
    requires
        a != b,
        mounted.contains(a),
    ensures
        last_mounted(without(history.push(a), b), mounted.remove(b)) == Some(a),
{
    history.lemma_filter_push(a, other_than(b));
    assert(without(history.push(a), b) == without(history, b).push(a));
    assert(without(history, b).push(a).last() == a);
}

} // verus!
