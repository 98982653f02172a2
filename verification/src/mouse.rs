//! The mouse: a click places the cursor and focuses its window, a drag
//! selects, the wheel scrolls.

use vstd::prelude::*;
use crate::desk::doc_ok;
use crate::document::{
    clamped, line_content, line_count, line_len, min_int, placed, row_count, rows_apart, scrolled,
    visual_of, DocView, Document,
};
use crate::editor::{
    asking, doc_of, focused_rect_of, gutter_of, on_doc, terminal_focused_in, text_height_of,
    tree_width_of, windows_of, wrap_of, Editor, EditorView,
};
use crate::filetree::{moved, toggled, TreeView};
use crate::help::help_at;
use crate::layout::{ids, Rect};
use crate::motions::max_of;
use crate::picker::{one_row, row_moved};
use crate::picker_keys::{jumping, with_picker};
use crate::position::{
    capped_col, char_at_column, display_col_to_char, display_col_to_char_between, ints,
    next_boundary, next_grapheme_boundary, prev_boundary, prev_grapheme_boundary, row_char,
    wrap_offsets, wrapped_rows,
};
use crate::state::{Effect, EffectView, KeysView, Mode};
use crate::text::{line_start, lines_in, rope_len};
use crate::transaction::capped;
use crate::tree_keys::{listed, tree_focus, with_tree};
use crate::windows::focus_on;

verus! {

/// Rows per notch of the wheel.
pub const WHEEL_LINES: isize = 3;

#[derive(Clone, Copy, PartialEq, Eq, Structural, Debug)]
pub enum MouseKind {
    /// The left button went down, with or without shift.
    Down { shift: bool },
    /// The pointer moved with the left button down.
    Drag,
    /// The left button went up.
    Up,
    ScrollDown,
    ScrollUp,
    Other,
}

#[derive(Clone, Copy, PartialEq, Eq, Structural, Debug)]
pub struct MouseEvent {
    pub kind: MouseKind,
    pub column: u16,
    pub row: u16,
}

// ---- from the screen to the text --------------------------------------------------

/// The row so many rows below a row of a line, as (line, row); the last line
/// takes what lies below it.
pub open spec fn row_below(
    s: Seq<char>,
    line: int,
    sub: int,
    rows: int,
    wrap: Option<usize>,
    tab: usize,
) -> (int, int)
    decreases line_count(s) - line,
{
    let n = row_count(s, line, wrap, tab);
    let here = max_of(n - sub, 0);
    if rows < here || line >= line_count(s) - 1 {
        (line, min_int(sub + rows, n - 1))
    } else {
        row_below(s, line + 1, 0, rows - here, wrap, tab)
    }
}

/// The character of a line that stands in a column of one of its rows.
pub open spec fn char_in_row(
    s: Seq<char>,
    line: int,
    sub: int,
    col: int,
    view_col: int,
    wrap: Option<usize>,
    tab: usize,
) -> int {
    let l = line_content(s, line);
    let len = line_len(s, line);
    match wrap {
        None => min_int(char_at_column(l, min_int(col + view_col, usize::MAX as int), tab), len),
        Some(w) => {
            let rows = wrapped_rows(l, w as int, tab);
            let start = rows[sub];
            let end = if sub + 1 < rows.len() {
                rows[sub + 1]
            } else {
                len
            };
            let at = row_char(l, start, end, col, tab);
            min_int(
                if at == end && end < len {
                    let from = line_start(s, line);
                    max_of(prev_boundary(s, from + end) - from, start)
                } else {
                    at
                },
                len,
            )
        },
    }
}

/// The place in the text that a row and a column of a window show, counted
/// from the window's corner.
#[verifier::opaque]
pub open spec fn place_shown(
    d: DocView,
    rows: int,
    col: int,
    wrap: Option<usize>,
    tab: usize,
) -> int {
    let first = min_int(d.view_line as int, line_count(d.text) - 1);
    let (line, sub) = row_below(d.text, first, d.view_row as int, rows, wrap, tab);
    line_start(d.text, line) + char_in_row(
        d.text,
        line,
        sub,
        col,
        d.view_col as int,
        wrap,
        tab,
    )
}

impl Document {
    fn find_row(&self, first: usize, rows: usize, wrap: Option<usize>, tab: usize) -> (r: (
        usize,
        usize,
    ))
        requires
            first < line_count(self@.text),
        ensures
            (r.0 as int, r.1 as int) == row_below(
                self@.text,
                first as int,
                self@.view_row as int,
                rows as int,
                wrap,
                tab,
            ),
            r.0 < line_count(self@.text),
            r.1 < row_count(self@.text, r.0 as int, wrap, tab),
    {
        let count = self.line_count();
        let ghost s = self@.text;
        let mut line = first;
        let mut sub = self.view_row;
        let mut left = rows;
        loop
            invariant
                s == self@.text,
                count == line_count(s),
                count <= lines_in(s),
                line < count,
                row_below(s, line as int, sub as int, left as int, wrap, tab) == row_below(
                    s,
                    first as int,
                    self@.view_row as int,
                    rows as int,
                    wrap,
                    tab,
                ),
            decreases count - line,
        {
            let n = self.visual_rows(line, wrap, tab);
            let here: usize = if n > sub {
                n - sub
            } else {
                0
            };
            if left < here || line >= count - 1 {
                let to: usize = if sub <= n - 1 && left <= n - 1 - sub {
                    sub + left
                } else {
                    n - 1
                };
                return (line, to);
            }
            left = left - here;
            line += 1;
            sub = 0;
        }
    }

    fn find_char(
        &self,
        line: usize,
        sub: usize,
        col: usize,
        wrap: Option<usize>,
        tab: usize,
    ) -> (r: usize)
        requires
            line < lines_in(self@.text),
            sub < row_count(self@.text, line as int, wrap, tab),
        ensures
            r == char_in_row(
                self@.text,
                line as int,
                sub as int,
                col as int,
                self@.view_col as int,
                wrap,
                tab,
            ),
            r <= line_len(self@.text, line as int),
    {
        let l = self.line_content(line);
        let len = self.line_len(line);
        assert(l@.len() == len);
        match wrap {
            None => {
                let to = col.saturating_add(self.view_col);
                let at = display_col_to_char(l.as_slice(), to, tab);
                if at <= len {
                    at
                } else {
                    len
                }
            },
            Some(w) => {
                let rows = wrap_offsets(l.as_slice(), w, tab);
                let ghost starts = ints(rows@);
                assert(starts.len() == rows@.len());
                let start = rows[sub];
                assert(starts[sub as int] == start);
                let end = if rows.len() - sub > 1 {
                    assert(starts[sub + 1] == rows@[sub + 1]);
                    assert(rows@[sub as int] < rows@[sub + 1]);
                    rows[sub + 1]
                } else {
                    len
                };
                proof {
                    if sub > 0 {
                        assert(rows@[sub as int] < l@.len());
                    }
                }
                let at = display_col_to_char_between(l.as_slice(), start, end, col, tab);
                if at == end && end < len {
                    let from = self.line_start(line);
                    proof {
                        crate::document::lemma_line_parts(self@.text, line as int);
                    }
                    let whole = rope_len(&self.text);
                    let back = prev_grapheme_boundary(&self.text, from + end);
                    let off: usize = if back >= from {
                        back - from
                    } else {
                        0
                    };
                    if off >= start {
                        off
                    } else {
                        start
                    }
                } else {
                    at
                }
            },
        }
    }

    fn find_place(&self, rows: usize, col: usize, wrap: Option<usize>, tab: usize) -> (r: usize)
        ensures
            r == place_shown(self@, rows as int, col as int, wrap, tab),
            r <= self@.text.len(),
    {
        reveal(place_shown);
        let last = self.line_count() - 1;
        let first = if self.view_line <= last {
            self.view_line
        } else {
            last
        };
        let (line, sub) = self.find_row(first, rows, wrap, tab);
        let at = self.find_char(line, sub, col, wrap, tab);
        proof {
            crate::document::lemma_line_parts(self@.text, line as int);
        }
        let whole = rope_len(&self.text);
        self.line_start(line) + at
    }
}

/// The place in the text that a cell of the screen shows in the focused
/// window.
#[verifier::opaque]
pub open spec fn place_at(e: EditorView, x: u16, y: u16) -> Option<int> {
    let f = focused_rect_of(e);
    if y < f.1 || x < f.0 {
        None
    } else {
        Some(
            place_shown(
                doc_of(e),
                y - f.1,
                max_of(x - f.0 - gutter_of(e), 0),
                wrap_of(e),
                e.options.tab_width,
            ),
        )
    }
}

impl Editor {
    /// The place in the text that a cell of the screen shows in the focused
    /// window.
    pub fn position_at(&self, x: u16, y: u16) -> (r: Option<usize>)
        requires
            self.wf(),
        ensures
            match r {
                Some(p) => place_at(self@, x, y) == Some(p as int) && p <= doc_of(
                    self@,
                ).text.len(),
                None => place_at(self@, x, y) is None,
            },
    {
        reveal(place_at);
        let f = self.focused_rect();
        if y < f.1 || x < f.0 {
            return None;
        }
        let gutter = self.gutter_width();
        let over: usize = (x - f.0) as usize;
        let col: usize = if over >= gutter {
            over - gutter
        } else {
            0
        };
        let wrap = self.wrap_width();
        Some(self.doc().find_place((y - f.1) as usize, col, wrap, self.options.tab_width))
    }
}

// ---- windows under the pointer ----------------------------------------------------

pub open spec fn holds_cell(r: Rect, x: u16, y: u16) -> bool {
    r.0 <= x < r.0 + r.2 && r.1 <= y < r.1 + r.3
}

/// The first window from the `i`th on that shows a cell.
pub open spec fn window_under(wins: Seq<(usize, Rect)>, x: u16, y: u16, i: int) -> Option<usize>
    decreases wins.len() - i,
{
    if i < 0 || i >= wins.len() {
        None
    } else if holds_cell(wins[i].1, x, y) {
        Some(wins[i].0)
    } else {
        window_under(wins, x, y, i + 1)
    }
}

#[verifier::opaque]
pub open spec fn pointed_window(e: EditorView, x: u16, y: u16) -> Option<usize> {
    window_under(windows_of(e), x, y, 0)
}

/// A window focused by the mouse.
#[verifier::opaque]
pub open spec fn window_pointed(e: EditorView, id: usize) -> EditorView {
    tree_focus(
        if id == e.desk.focused {
            e
        } else {
            focus_on(e, id)
        },
        false,
    )
}

fn find_under(wins: &Vec<(usize, Rect)>, x: u16, y: u16) -> (r: Option<usize>)
    ensures
        r == window_under(wins@, x, y, 0),
        r matches Some(id) ==> exists|i: int| 0 <= i < wins@.len() && (#[trigger] wins@[i]).0 == id,
{
    let mut i: usize = 0;
    while i < wins.len()
        invariant
            i <= wins@.len(),
            window_under(wins@, x, y, 0) == window_under(wins@, x, y, i as int),
        decreases wins@.len() - i,
    {
        let (id, r) = wins[i];
        let (rx, ry, rw, rh) = r;
        if x >= rx && (x - rx) < rw && y >= ry && (y - ry) < rh {
            assert(wins@[i as int].0 == id);
            return Some(id);
        }
        i += 1;
    }
    None
}

impl Editor {
    fn window_at(&self, x: u16, y: u16) -> (r: Option<usize>)
        requires
            self.wf(),
        ensures
            r == pointed_window(self@, x, y),
            r matches Some(id) ==> ids(self@.desk.layout).contains(id),
    {
        reveal(pointed_window);
        let (wins, _) = self.window_rects();
        let r = find_under(&wins, x, y);
        proof {
            reveal(crate::editor::desk_sound);
            if let Some(id) = r {
                let i = choose|i: int| 0 <= i < wins@.len() && (#[trigger] wins@[i]).0 == id;
                crate::desk::lemma_rect_ids(self@.desk.layout, crate::editor::area_of(self@));
                assert(ids(self@.desk.layout)[i] == id);
            }
        }
        r
    }

    fn point_at_window(&mut self, id: usize)
        requires
            old(self).wf(),
            ids(old(self)@.desk.layout).contains(id),
        ensures
            final(self)@ == window_pointed(old(self)@, id),
            final(self).wf(),
    {
        reveal(window_pointed);
        if id != self.desk.focused {
            self.focus_window(id);
        }
        self.set_tree_focus(false);
    }
}

// ---- a click ----------------------------------------------------------------------

/// One cursor where the pointer is.
#[verifier::opaque]
pub open spec fn clicked(d: DocView, pos: int, insert: bool, extend: bool) -> DocView {
    let at = clamped(d.text, pos, insert) as usize;
    DocView {
        extra: Seq::empty(),
        cursor: at,
        anchor: if extend {
            d.anchor
        } else {
            at
        },
        goal_col: None,
        ..d
    }
}

impl Document {
    fn click(&mut self, pos: usize, insert: bool, extend: bool)
        requires
            doc_ok(old(self)@),
            pos <= old(self)@.text.len(),
        ensures
            final(self)@ == clicked(old(self)@, pos as int, insert, extend),
            doc_ok(final(self)@),
    {
        reveal(clicked);
        self.drop_extra();
        self.cursor = pos;
        self.clamp_cursor(insert);
        if !extend {
            self.anchor = self.cursor;
        }
        self.goal_col = None;
    }
}

/// A row of the sidebar clicked: selected, and opened.
#[verifier::opaque]
pub open spec fn tree_clicked(e: EditorView, y: u16) -> EditorView {
    let height = max_of(e.size.1 - 2, 0);
    match e.sidebar.tree {
        None => e,
        Some(t) => {
            let start = t.selected - min_int(max_of(height - 1, 0), t.selected as int);
            let at = start + y;
            if y >= height || at >= t.rows.len() {
                e
            } else {
                let s = TreeView { selected: at as usize, ..t };
                if t.rows[at].is_dir {
                    listed(tree_focus(with_tree(e, toggled(s)), true))
                } else {
                    jumping(tree_focus(with_tree(e, s), false), t.rows[at].path, 0, 0)
                }
            }
        },
    }
}

pub open spec fn dragging(e: EditorView, on: bool) -> EditorView {
    EditorView { mouse_drag: on, ..e }
}

pub open spec fn drag_begun(e: EditorView) -> EditorView {
    EditorView { keys: KeysView { extend: false, ..e.keys }, mouse_drag: true, ..e }
}

#[verifier::opaque]
pub open spec fn cursor_clicked(e: EditorView, pos: int, extend: bool) -> EditorView {
    let m = crate::completion::with_menu(e, None);
    drag_begun(on_doc(m, clicked(doc_of(m), pos, e.keys.mode == Mode::Insert, extend)))
}

/// A click in the text: its window focused, the cursor under the pointer.
#[verifier::opaque]
pub open spec fn text_clicked(e: EditorView, x: u16, y: u16, extend: bool) -> EditorView {
    if terminal_focused_in(e) {
        e
    } else {
        match place_at(e, x, y) {
            None => e,
            Some(pos) => cursor_clicked(e, pos, extend),
        }
    }
}

/// A click.
#[verifier::opaque]
pub open spec fn mouse_clicked(e: EditorView, x: u16, y: u16, extend: bool) -> EditorView {
    if x < tree_width_of(e) {
        tree_clicked(e, y)
    } else {
        match pointed_window(e, x, y) {
            None => e,
            Some(id) => if e.panes.preview == Some(id) {
                e
            } else {
                text_clicked(window_pointed(e, id), x, y, extend)
            },
        }
    }
}

impl Editor {
    fn set_drag(&mut self, on: bool)
        requires
            old(self).wf(),
        ensures
            final(self)@ == dragging(old(self)@, on),
            final(self).wf(),
    {
        self.mouse_drag = on;
    }

    fn row_clicked(&self, y: u16) -> (r: Option<(usize, bool, String)>)
        ensures
            ({
                let height = max_of(self@.size.1 - 2, 0);
                match self@.sidebar.tree {
                    None => r is None,
                    Some(t) => {
                        let start = t.selected - min_int(max_of(height - 1, 0), t.selected as int);
                        let at = start + y;
                        if y >= height || at >= t.rows.len() {
                            r is None
                        } else {
                            r matches Some(row) && row.0 == at && row.1 == t.rows[at].is_dir
                                && row.2@ == t.rows[at].path
                        }
                    },
                }
            }),
    {
        let height: usize = if self.size.1 >= 2 {
            (self.size.1 - 2) as usize
        } else {
            0
        };
        if y as usize >= height {
            return None;
        }
        match &self.sidebar.tree {
            None => None,
            Some(t) => {
                let back: usize = if height - 1 <= t.selected {
                    height - 1
                } else {
                    t.selected
                };
                let start: usize = t.selected - back;
                let n = t.rows.len();
                if start >= n || y as usize >= n - start {
                    return None;
                }
                let at: usize = start + y as usize;
                assert(t@.rows[at as int] == t.rows@[at as int]@);
                Some((at, t.rows[at].is_dir, t.rows[at].path.as_str().to_owned()))
            },
        }
    }

    fn select_row(&mut self, at: usize, toggle: bool)
        requires
            old(self).wf(),
            old(self)@.sidebar.tree is Some,
        ensures
            final(self)@ == ({
                let t = old(self)@.sidebar.tree->0;
                let s = TreeView { selected: at, ..t };
                with_tree(
                    old(self)@,
                    if toggle {
                        toggled(s)
                    } else {
                        s
                    },
                )
            }),
            final(self).wf(),
    {
        match self.sidebar.tree.take() {
            Some(t) => {
                let mut t = t;
                t.selected = at;
                if toggle {
                    t.toggle_selected();
                }
                self.sidebar.tree = Some(t);
            },
            None => {},
        }
    }

    fn tree_click(&mut self, y: u16)
        requires
            old(self).wf(),
        ensures
            final(self)@ == tree_clicked(old(self)@, y),
            final(self).wf(),
    {
        reveal(tree_clicked);
        if let Some((at, is_dir, path)) = self.row_clicked(y) {
            if is_dir {
                self.select_row(at, true);
                self.set_tree_focus(true);
                self.ask(Effect::ListTree);
                return ;
            }
            self.select_row(at, false);
            self.set_tree_focus(false);
            self.ask_jump(path, 0, 0);
            return ;
        }
    }

    fn click_text(&mut self, x: u16, y: u16, extend: bool)
        requires
            old(self).wf(),
        ensures
            final(self)@ == text_clicked(old(self)@, x, y, extend),
            final(self).wf(),
    {
        reveal(text_clicked);
        if self.terminal_focused() {
            return ;
        }
        if let Some(pos) = self.position_at(x, y) {
            self.click_cursor(pos, extend);
            return ;
        }
    }

    fn begin_drag(&mut self)
        requires
            old(self).wf(),
        ensures
            final(self)@ == drag_begun(old(self)@),
            final(self).wf(),
    {
        self.keys.extend = false;
        self.mouse_drag = true;
    }

    fn click_front(&mut self, pos: usize, insert: bool, extend: bool)
        requires
            old(self).wf(),
            pos <= doc_of(old(self)@).text.len(),
        ensures
            final(self)@ == on_doc(
                old(self)@,
                clicked(doc_of(old(self)@), pos as int, insert, extend),
            ),
            final(self).wf(),
    {
        self.doc_mut().click(pos, insert, extend);
    }

    fn click_cursor(&mut self, pos: usize, extend: bool)
        requires
            old(self).wf(),
            pos <= doc_of(old(self)@).text.len(),
        ensures
            final(self)@ == cursor_clicked(old(self)@, pos as int, extend),
            final(self).wf(),
    {
        reveal(cursor_clicked);
        let insert = self.keys.mode == Mode::Insert;
        self.put_menu(None);
        self.click_front(pos, insert, extend);
        self.begin_drag();
    }

    fn mouse_click(&mut self, x: u16, y: u16, extend: bool)
        requires
            old(self).wf(),
        ensures
            final(self)@ == mouse_clicked(old(self)@, x, y, extend),
            final(self).wf(),
    {
        reveal(mouse_clicked);
        if x < self.tree_width() {
            self.tree_click(y);
            return ;
        }
        if let Some(id) = self.window_at(x, y) {
            let previewed = match self.panes.preview {
                Some(p) => p == id,
                None => false,
            };
            if previewed {
                return ;
            }
            self.point_at_window(id);
            self.click_text(x, y, extend);
            return ;
        }
    }
}

// ---- a drag -----------------------------------------------------------------------

/// The selection stretched to the pointer, taking in the character under it
/// where it goes forward.
#[verifier::opaque]
pub open spec fn dragged(d: DocView, pos: int) -> DocView {
    DocView {
        cursor: (if pos >= d.anchor {
            next_boundary(d.text, pos)
        } else {
            pos
        }) as usize,
        goal_col: None,
        ..d
    }
}

pub open spec fn kept_within(n: u16, low: u16, len: u16) -> u16 {
    let high = low + max_of(len - 1, 0);
    if n < low {
        low
    } else if n > high {
        high as u16
    } else {
        n
    }
}

/// A drag, kept within the window it began in.
#[verifier::opaque]
pub open spec fn mouse_dragged(e: EditorView, x: u16, y: u16) -> EditorView {
    let f = focused_rect_of(e);
    if !e.mouse_drag || terminal_focused_in(e) {
        e
    } else {
        match place_at(e, kept_within(x, f.0, f.2), kept_within(y, f.1, f.3)) {
            Some(pos) => on_doc(e, dragged(doc_of(e), pos)),
            None => e,
        }
    }
}

fn keep_within(n: u16, low: u16, len: u16) -> (r: u16)
    ensures
        r == kept_within(n, low, len),
{
    let high: u32 = low as u32 + if len > 0 {
        len as u32 - 1
    } else {
        0
    };
    if n < low {
        low
    } else if n as u32 > high {
        high as u16
    } else {
        n
    }
}

impl Document {
    fn drag(&mut self, pos: usize)
        requires
            doc_ok(old(self)@),
            pos <= old(self)@.text.len(),
        ensures
            final(self)@ == dragged(old(self)@, pos as int),
            doc_ok(final(self)@),
    {
        reveal(dragged);
        let ghost d = self@;
        self.cursor = if pos >= self.anchor {
            next_grapheme_boundary(&self.text, pos)
        } else {
            pos
        };
        self.goal_col = None;
        assert(self@.extra == d.extra);
        assert(placed(self@));
    }
}

impl Editor {
    fn mouse_drag_to(&mut self, x: u16, y: u16)
        requires
            old(self).wf(),
        ensures
            final(self)@ == mouse_dragged(old(self)@, x, y),
            final(self).wf(),
    {
        reveal(mouse_dragged);
        if !self.mouse_drag || self.terminal_focused() {
            return ;
        }
        let f = self.focused_rect();
        let cx = keep_within(x, f.0, f.2);
        let cy = keep_within(y, f.1, f.3);
        if let Some(pos) = self.position_at(cx, cy) {
            self.doc_mut().drag(pos);
        }
    }
}

// ---- the wheel --------------------------------------------------------------------

/// The view scrolled by rows, from a row that there is.
#[verifier::opaque]
pub open spec fn view_scrolled(d: DocView, n: int, wrap: Option<usize>, tab: usize) -> DocView {
    let l = min_int(d.view_line as int, line_count(d.text) - 1);
    let r = min_int(d.view_row as int, row_count(d.text, l, wrap, tab) - 1);
    let v = scrolled(d.text, (l, r), n, wrap, tab);
    DocView { view_line: v.0 as usize, view_row: v.1 as usize, ..d }
}

/// The row of the window that the cursor has to go to so that it stays on the
/// screen; nothing where it is well inside.
#[verifier::opaque]
pub open spec fn row_to_keep(
    d: DocView,
    height: int,
    margin: int,
    wrap: Option<usize>,
    tab: usize,
) -> Option<int> {
    let (line, row, _) = visual_of(d.text, d.cursor as int, wrap, tab);
    let below = capped(
        rows_apart(
            d.text,
            wrap,
            tab,
            (d.view_line, d.view_row),
            (line as usize, row as usize),
        ),
    );
    if line < d.view_line || (line == d.view_line && row < d.view_row) || below < margin {
        if margin < height {
            Some(margin)
        } else {
            None
        }
    } else if below + margin + 1 > height {
        Some(max_of(height - (margin + 1), 0))
    } else {
        None
    }
}

/// The column that a scrolled cursor keeps to.
#[verifier::opaque]
pub open spec fn column_kept(d: DocView, wrap: Option<usize>, tab: usize) -> usize {
    match d.goal_col {
        Some(g) => g,
        None => capped_col(visual_of(d.text, d.cursor as int, wrap, tab).2) as usize,
    }
}

#[verifier::opaque]
pub open spec fn carried_to(d: DocView, pos: int, insert: bool, goal: usize) -> DocView {
    let at = clamped(d.text, pos, insert) as usize;
    DocView { cursor: at, anchor: at, goal_col: Some(goal), ..d }
}

/// The cursor brought along with a view that was scrolled.
#[verifier::opaque]
pub open spec fn cursor_brought(e: EditorView) -> EditorView {
    let d = doc_of(e);
    let height = text_height_of(e) as int;
    let margin = min_int(e.options.scrolloff as int, (height - 1) / 2);
    let tab = e.options.tab_width;
    if height == 0 {
        e
    } else {
        match row_to_keep(d, height, margin, wrap_of(e), tab) {
            None => e,
        Some(row) => {
            let goal = column_kept(d, wrap_of(e), tab);
            let f = focused_rect_of(e);
            let over = min_int(gutter_of(e) + goal, max_of(f.2 - 1, 0));
            let pos = place_shown(
                d,
                row,
                max_of(over - gutter_of(e), 0),
                wrap_of(e),
                tab,
            );
            on_doc(e, carried_to(d, pos, e.keys.mode == Mode::Insert, goal))
        },
        }
    }
}

#[verifier::opaque]
pub open spec fn lines_scrolled(e: EditorView, n: int) -> EditorView {
    if text_height_of(e) == 0 {
        e
    } else {
        cursor_brought(on_doc(e, view_scrolled(doc_of(e), n, wrap_of(e), e.options.tab_width)))
    }
}

/// The rows of the tree that one turn of the wheel crosses.
pub open spec fn wheel_rows(down: bool) -> int {
    if down {
        WHEEL_LINES as int
    } else {
        -WHEEL_LINES
    }
}

/// The wheel turned over a cell.
#[verifier::opaque]
pub open spec fn wheel_turned(e: EditorView, x: u16, y: u16, down: bool) -> EditorView {
    let n = wheel_rows(down);
    if x < tree_width_of(e) {
        match e.sidebar.tree {
            Some(t) => with_tree(e, moved(t, wheel_rows(down))),
            None => e,
        }
    } else {
        match pointed_window(e, x, y) {
            None => e,
            Some(id) => if e.panes.preview == Some(id) {
                e
            } else if e.shell.win == Some(id) {
                asking(e, EffectView::ShellScroll((-n) as isize))
            } else {
                lines_scrolled(window_pointed(e, id), n)
            },
        }
    }
}

impl Document {
    fn scroll_from(&mut self, n: isize, wrap: Option<usize>, tab: usize)
        requires
            doc_ok(old(self)@),
        ensures
            final(self)@ == view_scrolled(old(self)@, n as int, wrap, tab),
            doc_ok(final(self)@),
    {
        reveal(view_scrolled);
        let ghost d = self@;
        let last = self.line_count() - 1;
        if self.view_line > last {
            self.view_line = last;
        }
        let rows = self.visual_rows(self.view_line, wrap, tab);
        if self.view_row > rows - 1 {
            self.view_row = rows - 1;
        }
        assert(self@.extra == d.extra);
        assert(placed(self@));
        self.scroll_rows(wrap, tab, n);
    }

    fn row_kept(&self, height: usize, margin: usize, wrap: Option<usize>, tab: usize) -> (r: Option<
        usize,
    >)
        requires
            height <= 0xffff,
            margin <= 0xffff,
        ensures
            match r {
                Some(n) => row_to_keep(self@, height as int, margin as int, wrap, tab) == Some(
                    n as int,
                ),
                None => row_to_keep(self@, height as int, margin as int, wrap, tab) is None,
            },
    {
        reveal(row_to_keep);
        let (line, row, _) = self.cursor_visual(wrap, tab);
        let below = self.rows_forward(wrap, tab, (self.view_line, self.view_row), (line, row));
        if line < self.view_line || (line == self.view_line && row < self.view_row) || below
            < margin {
            if margin < height {
                return Some(margin);
            }
            return None;
        }
        if below as i128 + margin as i128 + 1 > height as i128 {
            return Some(
                if height > margin + 1 {
                    height - (margin + 1)
                } else {
                    0
                },
            );
        }
        None
    }

    fn kept_column(&self, wrap: Option<usize>, tab: usize) -> (r: usize)
        ensures
            r == column_kept(self@, wrap, tab),
    {
        reveal(column_kept);
        match self.goal_col {
            Some(g) => g,
            None => {
                let (_, _, c) = self.cursor_visual(wrap, tab);
                c
            },
        }
    }

    fn carry_to(&mut self, pos: usize, insert: bool, goal: usize)
        requires
            doc_ok(old(self)@),
            pos <= old(self)@.text.len(),
        ensures
            final(self)@ == carried_to(old(self)@, pos as int, insert, goal),
            doc_ok(final(self)@),
    {
        reveal(carried_to);
        let ghost d = self@;
        self.cursor = pos;
        self.clamp_cursor(insert);
        self.anchor = self.cursor;
        self.goal_col = Some(goal);
        assert(self@.extra == d.extra);
        assert(placed(self@));
    }
}

impl Editor {
    fn kept_row(&self, height: usize, margin: usize) -> (r: Option<(usize, usize)>)
        requires
            self.wf(),
            height <= 0xffff,
            margin <= 0xffff,
        ensures
            match r {
                Some((row, goal)) => row_to_keep(
                    doc_of(self@),
                    height as int,
                    margin as int,
                    wrap_of(self@),
                    self@.options.tab_width,
                ) == Some(row as int) && goal == column_kept(
                    doc_of(self@),
                    wrap_of(self@),
                    self@.options.tab_width,
                ),
                None => row_to_keep(
                    doc_of(self@),
                    height as int,
                    margin as int,
                    wrap_of(self@),
                    self@.options.tab_width,
                ) is None,
            },
    {
        let wrap = self.wrap_width();
        let tab = self.options.tab_width;
        match self.doc().row_kept(height, margin, wrap, tab) {
            Some(row) => Some((row, self.doc().kept_column(wrap, tab))),
            None => None,
        }
    }

    fn place_in_front(&self, row: usize, col: usize) -> (r: usize)
        requires
            self.wf(),
        ensures
            r == place_shown(
                doc_of(self@),
                row as int,
                col as int,
                wrap_of(self@),
                self@.options.tab_width,
            ),
            r <= doc_of(self@).text.len(),
    {
        let wrap = self.wrap_width();
        self.doc().find_place(row, col, wrap, self.options.tab_width)
    }

    fn bring_cursor(&mut self)
        requires
            old(self).wf(),
        ensures
            final(self)@ == cursor_brought(old(self)@),
            final(self).wf(),
    {
        reveal(cursor_brought);
        let height = self.text_height();
        if height == 0 {
            return ;
        }
        let half: usize = (height - 1) / 2;
        let margin = if self.options.scrolloff <= half {
            self.options.scrolloff
        } else {
            half
        };
        if let Some((row, goal)) = self.kept_row(height, margin) {
            let f = self.focused_rect();
            let gutter = self.gutter_width();
            let most: usize = if f.2 > 0 {
                (f.2 - 1) as usize
            } else {
                0
            };
            let wanted = gutter.saturating_add(goal);
            let over: usize = if wanted <= most {
                wanted
            } else {
                most
            };
            let col: usize = if over >= gutter {
                over - gutter
            } else {
                0
            };
            let pos = self.place_in_front(row, col);
            let insert = self.keys.mode == Mode::Insert;
            self.doc_mut().carry_to(pos, insert, goal);
        }
    }

    /// Scroll the focused window's view, with the cursor brought along as far
    /// as that takes.
    pub fn scroll_lines(&mut self, n: isize)
        requires
            old(self).wf(),
        ensures
            final(self)@ == lines_scrolled(old(self)@, n as int),
            final(self).wf(),
    {
        reveal(lines_scrolled);
        if self.text_height() == 0 {
            return ;
        }
        let wrap = self.wrap_width();
        let tab = self.options.tab_width;
        self.doc_mut().scroll_from(n, wrap, tab);
        self.bring_cursor();
    }

    fn wheel_tree(&mut self, down: bool)
        requires
            old(self).wf(),
        ensures
            final(self)@ == (match old(self)@.sidebar.tree {
                Some(t) => with_tree(old(self)@, moved(t, wheel_rows(down))),
                None => old(self)@,
            }),
            final(self).wf(),
    {
        match self.sidebar.tree.take() {
            Some(t) => {
                let mut t = t;
                t.move_selection(
                    if down {
                        3
                    } else {
                        -3
                    },
                );
                self.sidebar.tree = Some(t);
            },
            None => {},
        }
    }

    fn mouse_scroll(&mut self, x: u16, y: u16, down: bool)
        requires
            old(self).wf(),
        ensures
            final(self)@ == wheel_turned(old(self)@, x, y, down),
            final(self).wf(),
    {
        reveal(wheel_turned);
        let n: isize = if down {
            WHEEL_LINES
        } else {
            -WHEEL_LINES
        };
        if x < self.tree_width() {
            self.wheel_tree(down);
            return ;
        }
        if let Some(id) = self.window_at(x, y) {
            let previewed = match self.panes.preview {
                Some(p) => p == id,
                None => false,
            };
            if previewed {
                return ;
            }
            let shell = match self.shell.win {
                Some(w) => w == id,
                None => false,
            };
            if shell {
                self.ask(Effect::ShellScroll(-n));
                return ;
            }
            self.point_at_window(id);
            self.scroll_lines(n);
            return ;
        }
    }
}

// ---- all of it --------------------------------------------------------------------

pub open spec fn wheel_of(k: MouseKind) -> Option<bool> {
    match k {
        MouseKind::ScrollDown => Some(true),
        MouseKind::ScrollUp => Some(false),
        _ => None,
    }
}

/// What the mouse does where the text has it.
#[verifier::opaque]
pub open spec fn moused_text(e: EditorView, ev: MouseEvent) -> EditorView {
    let h = crate::input::hover_at(e, None);
    match ev.kind {
        MouseKind::Down { shift } => mouse_clicked(h, ev.column, ev.row, shift),
        MouseKind::Drag => mouse_dragged(h, ev.column, ev.row),
        MouseKind::Up => dragging(h, false),
        MouseKind::ScrollDown => wheel_turned(h, ev.column, ev.row, true),
        MouseKind::ScrollUp => wheel_turned(h, ev.column, ev.row, false),
        MouseKind::Other => h,
    }
}

/// What the mouse does: panes over the text have it first, and there only the
/// wheel works.
#[verifier::opaque]
pub open spec fn moused(e: EditorView, ev: MouseEvent) -> EditorView {
    match e.panes.help_scroll {
        Some(at) => match wheel_of(ev.kind) {
            Some(down) => help_at(
                e,
                Some(
                    (if down {
                        min_int(at + 3, usize::MAX as int)
                    } else {
                        max_of(at - 3, 0)
                    }) as usize,
                ),
            ),
            None => e,
        },
        None => if e.keys.mode == Mode::Picker {
            match (wheel_of(ev.kind), e.panes.picker) {
                (Some(down), Some(p)) => with_picker(e, Some(row_moved(p, one_row(down)))),
                _ => e,
            }
        } else if e.keys.mode == Mode::Command || e.keys.mode == Mode::Search || e.sidebar.input
            is Some {
            e
        } else {
            moused_text(e, ev)
        },
    }
}

fn read_wheel(k: MouseKind) -> (r: Option<bool>)
    ensures
        r == wheel_of(k),
{
    match k {
        MouseKind::ScrollDown => Some(true),
        MouseKind::ScrollUp => Some(false),
        _ => None,
    }
}

impl Editor {
    fn wheel_picker(&mut self, down: bool)
        requires
            old(self).wf(),
        ensures
            final(self)@ == (match old(self)@.panes.picker {
                Some(p) => with_picker(old(self)@, Some(row_moved(p, one_row(down)))),
                None => old(self)@,
            }),
            final(self).wf(),
    {
        match self.panes.picker.take() {
            Some(p) => {
                let mut p = p;
                p.move_selection(
                    if down {
                        1
                    } else {
                        -1
                    },
                );
                self.panes.picker = Some(p);
            },
            None => {},
        }
    }

    fn mouse_on_text(&mut self, ev: MouseEvent)
        requires
            old(self).wf(),
        ensures
            final(self)@ == moused_text(old(self)@, ev),
            final(self).wf(),
    {
        reveal(moused_text);
        self.set_hover(None);
        match ev.kind {
            MouseKind::Down { shift } => {
                self.mouse_click(ev.column, ev.row, shift);
                return ;
            },
            MouseKind::Drag => {
                self.mouse_drag_to(ev.column, ev.row);
                return ;
            },
            MouseKind::Up => {
                self.set_drag(false);
                return ;
            },
            MouseKind::ScrollDown => {
                self.mouse_scroll(ev.column, ev.row, true);
                return ;
            },
            MouseKind::ScrollUp => {
                self.mouse_scroll(ev.column, ev.row, false);
                return ;
            },
            MouseKind::Other => {},
        }
    }

    /// Take in what the mouse did.
    pub fn handle_mouse(&mut self, ev: MouseEvent)
        requires
            old(self).wf(),
        ensures
            final(self)@ == moused(old(self)@, ev),
            final(self).wf(),
    {
        reveal(moused);
        let wheel = read_wheel(ev.kind);
        if let Some(at) = self.panes.help_scroll {
            if let Some(down) = wheel {
                let to: usize = if down {
                    at.saturating_add(3)
                } else if at > 3 {
                    at - 3
                } else {
                    0
                };
                self.set_help(Some(to));
                return ;
            }
            return ;
        }
        if self.keys.mode == Mode::Picker {
            if let Some(down) = wheel {
                self.wheel_picker(down);
                return ;
            }
            return ;
        }
        if self.keys.mode == Mode::Command || self.keys.mode == Mode::Search
            || self.sidebar.input.is_some() {
            return ;
        }
        self.mouse_on_text(ev);
    }
}

} // verus!
