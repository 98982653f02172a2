//! What of the text is on the screen, and where the cursor stands on it.

use vstd::prelude::*;
use crate::desk::doc_ok;
use crate::document::{
    lemma_line_count, line_content, line_count, min_int, placed, row_count, rows_apart, rows_before,
    rows_between, scrolled, true_to_edits, visual_of, DocView, Document,
};
use crate::editor::{
    doc_of, focused_rect_of, gutter_of, inclusive_in, on_doc, picker_rect_of, prompt_rect_of,
    splash_shows, terminal_focused_in, text_height_of, text_width_of, wrap_of, Editor, EditorView,
};
use crate::layout::Rect;
use crate::motions::{max_of, shown_cursor};
use crate::position::{
    capped_col, char_to_display_col, cluster_lengths, display_col, lemma_column_grows, wrapped_rows,
};
use crate::state::{Mode, TreeInput, TreeInputView};
use crate::strings::{chars_of, decimal, push_lit, push_number, string_of};
use crate::text::{lemma_line_bounds, line_of, line_start, lines_in};
use crate::transaction::capped;

verus! {

// ---- scrolling --------------------------------------------------------------------

/// The viewport that shows the cursor where long lines run on: by lines, and
/// sideways.
pub open spec fn view_unwrapped(
    d: DocView,
    height: int,
    width: int,
    margin: int,
    tab: usize,
) -> DocView {
    let (line, _, c) = visual_of(d.text, d.cursor as int, None, tab);
    let col = capped_col(c);
    let a = if line < d.view_line + margin {
        max_of(line - margin, 0)
    } else {
        d.view_line as int
    };
    let b = if line + margin >= a + height {
        max_of(line + margin + 1 - height, 0)
    } else {
        a
    };
    let x = if col < d.view_col {
        col
    } else {
        d.view_col as int
    };
    let y = if col >= x + width {
        col - width + 1
    } else {
        x
    };
    DocView {
        view_line: min_int(b, line_count(d.text) - 1) as usize,
        view_row: 0,
        view_col: y as usize,
        ..d
    }
}

/// Where the viewport is before it follows a cursor: on a row that there is,
/// and near it.
pub open spec fn view_near(
    d: DocView,
    line: int,
    height: int,
    wrap: Option<usize>,
    tab: usize,
) -> (int, int) {
    let l = min_int(d.view_line as int, line_count(d.text) - 1);
    let r = min_int(d.view_row as int, row_count(d.text, l, wrap, tab) - 1);
    if line >= l + height || line + height < l {
        (max_of(line - height / 2, 0), 0)
    } else {
        (l, r)
    }
}

pub open spec fn capped_step(n: int) -> int {
    min_int(n, isize::MAX as int)
}

/// The viewport that shows the cursor where long lines are wrapped: by rows.
pub open spec fn view_wrapped(
    d: DocView,
    height: int,
    margin: int,
    wrap: Option<usize>,
    tab: usize,
) -> DocView {
    let (line, row, _) = visual_of(d.text, d.cursor as int, wrap, tab);
    let top = view_near(d, line, height, wrap, tab);
    let v = if line < top.0 || (line == top.0 && row < top.1) {
        scrolled(d.text, (line, row), -margin, wrap, tab)
    } else {
        let over = capped(
            rows_apart(
                d.text,
                wrap,
                tab,
                (top.0 as usize, top.1 as usize),
                (line as usize, row as usize),
            ),
        ) + margin + 1 - height;
        if over > 0 {
            scrolled(d.text, top, capped_step(over), wrap, tab)
        } else {
            top
        }
    };
    DocView { view_line: v.0 as usize, view_row: v.1 as usize, view_col: 0, ..d }
}

/// The viewport that shows the cursor, with some lines around it.
#[verifier::opaque]
pub open spec fn view_following(
    d: DocView,
    height: usize,
    width: usize,
    margin: usize,
    wrap: Option<usize>,
    tab: usize,
) -> DocView {
    if height == 0 || width == 0 {
        d
    } else {
        let m = min_int(margin as int, (height - 1) / 2);
        match wrap {
            None => view_unwrapped(d, height as int, width as int, m, tab),
            Some(_) => view_wrapped(d, height as int, m, wrap, tab),
        }
    }
}

impl Document {
    fn follow_unwrapped(&mut self, height: usize, width: usize, margin: usize, tab: usize)
        requires
            doc_ok(old(self)@),
            height <= 0xffff,
            width <= 0xffff,
            margin <= 0xffff,
            width > 0,
        ensures
            final(self)@ == view_unwrapped(
                old(self)@,
                height as int,
                width as int,
                margin as int,
                tab,
            ),
            doc_ok(final(self)@),
    {
        let ghost d = self@;
        let (line, _, col) = self.cursor_visual(None, tab);
        let line: i128 = line as i128;
        let m: i128 = margin as i128;
        let h: i128 = height as i128;
        let w: i128 = width as i128;
        let vl: i128 = self.view_line as i128;
        let vc: i128 = self.view_col as i128;
        let c: i128 = col as i128;
        let a: i128 = if line < vl + m {
            if line > m {
                line - m
            } else {
                0
            }
        } else {
            vl
        };
        let b: i128 = if line + m >= a + h {
            if line + m + 1 > h {
                line + m + 1 - h
            } else {
                0
            }
        } else {
            a
        };
        let last: i128 = self.line_count() as i128 - 1;
        let to: i128 = if b <= last {
            b
        } else {
            last
        };
        let x: i128 = if c < vc {
            c
        } else {
            vc
        };
        let y: i128 = if c >= x + w {
            c - w + 1
        } else {
            x
        };
        self.view_row = 0;
        self.view_line = to as usize;
        self.view_col = y as usize;
        assert(self@.extra == d.extra);
        assert(placed(self@));
    }

    fn near(&self, line: usize, height: usize, wrap: Option<usize>, tab: usize) -> (r: (
        usize,
        usize,
    ))
        requires
            height <= 0xffff,
            line < lines_in(self@.text),
        ensures
            (r.0 as int, r.1 as int) == view_near(self@, line as int, height as int, wrap, tab),
            r.0 < lines_in(self@.text),
            r.1 < usize::MAX,
    {
        let last = self.line_count() - 1;
        let l = if self.view_line <= last {
            self.view_line
        } else {
            last
        };
        let rows = self.visual_rows(l, wrap, tab);
        let r = if self.view_row <= rows - 1 {
            self.view_row
        } else {
            rows - 1
        };
        let a: i128 = line as i128;
        let b: i128 = l as i128;
        let h: i128 = height as i128;
        if a >= b + h || a + h < b {
            let half: usize = height / 2;
            (
                if line > half {
                    line - half
                } else {
                    0
                },
                0,
            )
        } else {
            (l, r)
        }
    }

    fn put_view(&mut self, v: (usize, usize))
        requires
            doc_ok(old(self)@),
        ensures
            final(self)@ == (DocView {
                view_line: v.0,
                view_row: v.1,
                view_col: 0,
                ..old(self)@
            }),
            doc_ok(final(self)@),
    {
        let ghost d = self@;
        self.view_line = v.0;
        self.view_row = v.1;
        self.view_col = 0;
        assert(self@.extra == d.extra);
    }

    pub(crate) fn scroll_rows(&mut self, wrap: Option<usize>, tab: usize, n: isize)
        requires
            doc_ok(old(self)@),
            old(self)@.view_line < lines_in(old(self)@.text),
            old(self)@.view_row < usize::MAX,
        ensures
            ({
                let v = scrolled(
                    old(self)@.text,
                    (old(self)@.view_line as int, old(self)@.view_row as int),
                    n as int,
                    wrap,
                    tab,
                );
                final(self)@ == (DocView {
                    view_line: v.0 as usize,
                    view_row: v.1 as usize,
                    ..old(self)@
                })
            }),
            doc_ok(final(self)@),
            true_to_edits(old(self)@) ==> true_to_edits(final(self)@),
    {
        let ghost d = self@;
        self.scroll_view(wrap, tab, n);
        assert(self@.extra == d.extra);
    }

    fn follow_wrapped(&mut self, height: usize, margin: usize, wrap: Option<usize>, tab: usize)
        requires
            doc_ok(old(self)@),
            0 < height <= 0xffff,
            margin <= 0xffff,
        ensures
            final(self)@ == view_wrapped(old(self)@, height as int, margin as int, wrap, tab),
            doc_ok(final(self)@),
    {
        let (line, row, _) = self.cursor_visual(wrap, tab);
        let rows = self.visual_rows(line, wrap, tab);
        let top = self.near(line, height, wrap, tab);
        if line < top.0 || (line == top.0 && row < top.1) {
            self.put_view((line, row));
            self.scroll_rows(wrap, tab, -(margin as isize));
            return ;
        }
        let apart = self.rows_forward(wrap, tab, top, (line, row));
        let over: i128 = apart as i128 + margin as i128 + 1 - height as i128;
        self.put_view(top);
        if over > 0 {
            let n: isize = if over <= isize::MAX as i128 {
                over as isize
            } else {
                isize::MAX
            };
            self.scroll_rows(wrap, tab, n);
        }
    }

    fn follow_cursor(
        &mut self,
        height: usize,
        width: usize,
        margin: usize,
        wrap: Option<usize>,
        tab: usize,
    )
        requires
            doc_ok(old(self)@),
            height <= 0xffff,
            width <= 0xffff,
        ensures
            final(self)@ == view_following(old(self)@, height, width, margin, wrap, tab),
            doc_ok(final(self)@),
    {
        reveal(view_following);
        if height == 0 || width == 0 {
            return ;
        }
        let half: usize = (height - 1) / 2;
        let m = if margin <= half {
            margin
        } else {
            half
        };
        match wrap {
            None => {
                self.follow_unwrapped(height, width, m, tab);
                return ;
            },
            Some(_) => {
                self.follow_wrapped(height, m, wrap, tab);
                return ;
            },
        }
    }
}

pub open spec fn cursor_followed(e: EditorView) -> EditorView {
    on_doc(
        e,
        view_following(
            doc_of(e),
            text_height_of(e),
            text_width_of(e),
            e.options.scrolloff,
            wrap_of(e),
            e.options.tab_width,
        ),
    )
}

impl Editor {
    /// Scroll so that the cursor is on the screen, with some lines around it.
    pub fn ensure_cursor_visible(&mut self)
        requires
            old(self).wf(),
        ensures
            final(self)@ == cursor_followed(old(self)@),
            final(self).wf(),
    {
        let height = self.text_height();
        let width = self.text_width();
        let margin = self.options.scrolloff;
        let wrap = self.wrap_width();
        let tab = self.options.tab_width;
        proof {
            reveal(text_width_of);
        }
        self.doc_mut().follow_cursor(height, width, margin, wrap, tab);
    }
}

// ---- the cursor on the screen -----------------------------------------------------

/// A column of a floating prompt, kept off its border.
pub open spec fn in_prompt(x: u16, y: u16, w: u16, col: int) -> (int, int) {
    (x + min_int(col, max_of(w - 2, 0)), y + 1)
}

/// Where the text's cursor stands in the focused window.
#[verifier::opaque]
pub open spec fn text_cursor_of(
    d: DocView,
    rect: Rect,
    gutter: int,
    wrap: Option<usize>,
    tab: usize,
    inclusive: bool,
) -> Option<(int, int)> {
    let at = shown_cursor(d, inclusive);
    let (line, row, c) = visual_of(d.text, at, wrap, tab);
    let col = capped_col(c);
    let r = capped(
        rows_apart(
            d.text,
            wrap,
            tab,
            (d.view_line, d.view_row),
            (line as usize, row as usize),
        ),
    );
    if line < d.view_line || line > d.view_line + rect.3 {
        None
    } else if (line == d.view_line && row < d.view_row) || col < d.view_col {
        None
    } else if r >= rect.3 || gutter + (col - d.view_col) >= rect.2 {
        None
    } else {
        Some((rect.0 + gutter + (col - d.view_col), rect.1 + r))
    }
}

/// Where the cursor stands on the screen, as (column, row). `shell` is the
/// shell's own cursor as (row, column), where it shows one.
#[verifier::opaque]
pub open spec fn cursor_on_screen(e: EditorView, shell: Option<(usize, usize)>) -> Option<
    (int, int),
> {
    let typed = match e.sidebar.input {
        Some(TreeInputView::Create { dir, name }) => Some(name.len()),
        Some(TreeInputView::Rename { path, name }) => Some(name.len()),
        _ => None,
    };
    let p = prompt_rect_of(e);
    let f = focused_rect_of(e);
    if e.panes.help_scroll is Some || splash_shows(e) {
        None
    } else if typed is Some {
        Some(in_prompt(p.0, p.1, p.2, (2 + typed->0) as int))
    } else if e.sidebar.focused {
        None
    } else if e.keys.mode == Mode::Picker {
        match e.panes.picker {
            Some(picker) => {
                let r = picker_rect_of(e);
                Some(in_prompt(r.0, r.1, r.2, (4 + picker.query.len()) as int))
            },
            None => None,
        }
    } else if e.keys.mode == Mode::Command || e.keys.mode == Mode::Search {
        Some(in_prompt(p.0, p.1, p.2, (3 + e.lines.command_line.len()) as int))
    } else if terminal_focused_in(e) {
        match shell {
            Some((row, col)) => if row >= f.3 || col >= f.2 {
                None
            } else {
                Some((f.0 + col, f.1 + row))
            },
            None => None,
        }
    } else {
        text_cursor_of(
            doc_of(e),
            f,
            gutter_of(e) as int,
            wrap_of(e),
            e.options.tab_width,
            inclusive_in(e),
        )
    }
}

pub open spec fn screen_place(p: Option<(u32, u32)>) -> Option<(int, int)> {
    match p {
        Some((x, y)) => Some((x as int, y as int)),
        None => None,
    }
}

/// A place as the screen counts, which is no larger than its numbers.
pub open spec fn capped_place(p: Option<(int, int)>) -> Option<(u16, u16)> {
    match p {
        Some((x, y)) => Some((min_int(x, 0xffff) as u16, min_int(y, 0xffff) as u16)),
        None => None,
    }
}

fn prompt_place(x: u16, y: u16, w: u16, lead: usize, typed: usize) -> (r: (u32, u32))
    requires
        lead <= 4,
    ensures
        (r.0 as int, r.1 as int) == in_prompt(x, y, w, lead + typed),
{
    let most: usize = if w >= 2 {
        (w - 2) as usize
    } else {
        0
    };
    let col: usize = if typed <= most && lead + typed <= most {
        lead + typed
    } else {
        most
    };
    (x as u32 + col as u32, y as u32 + 1)
}

impl Document {
    fn cursor_in(
        &self,
        rect: Rect,
        gutter: usize,
        wrap: Option<usize>,
        tab: usize,
        inclusive: bool,
    ) -> (r: Option<(u32, u32)>)
        ensures
            screen_place(r) == text_cursor_of(self@, rect, gutter as int, wrap, tab, inclusive),
    {
        reveal(text_cursor_of);
        let at = self.shown_cursor(inclusive);
        let (line, row, col) = self.position_visual(at, wrap, tab);
        if line < self.view_line || line - self.view_line > rect.3 as usize {
            return None;
        }
        if (line == self.view_line && row < self.view_row) || col < self.view_col {
            return None;
        }
        let r = self.rows_forward(wrap, tab, (self.view_line, self.view_row), (line, row));
        if r >= rect.3 as usize {
            return None;
        }
        let off = col - self.view_col;
        if gutter >= rect.2 as usize || off >= rect.2 as usize - gutter {
            return None;
        }
        Some((rect.0 as u32 + gutter as u32 + off as u32, rect.1 as u32 + r as u32))
    }
}

impl Editor {
    fn tree_name_len(&self) -> (r: Option<usize>)
        ensures
            match (r, self@.sidebar.input) {
                (Some(n), Some(TreeInputView::Create { dir, name })) => n == name.len(),
                (Some(n), Some(TreeInputView::Rename { path, name })) => n == name.len(),
                (Some(_), _) => false,
                (None, Some(TreeInputView::Create { dir, name })) => false,
                (None, Some(TreeInputView::Rename { path, name })) => false,
                (None, _) => true,
            },
    {
        match &self.sidebar.input {
            Some(TreeInput::Create { dir, name }) => Some(chars_of(name.as_str()).len()),
            Some(TreeInput::Rename { path, name }) => Some(chars_of(name.as_str()).len()),
            _ => None,
        }
    }

    /// Where the cursor stands on the screen, as (column, row); nothing where
    /// it is not on it. `shell` is the shell's own cursor as (row, column),
    /// where it shows one.
    pub fn screen_cursor(&self, shell: Option<(usize, usize)>) -> (r: Option<(u16, u16)>)
        requires
            self.wf(),
        ensures
            r == capped_place(cursor_on_screen(self@, shell)),
    {
        match self.find_cursor(shell) {
            Some((x, y)) => {
                let cx: u16 = if x <= 0xffff {
                    x as u16
                } else {
                    0xffff
                };
                let cy: u16 = if y <= 0xffff {
                    y as u16
                } else {
                    0xffff
                };
                Some((cx, cy))
            },
            None => None,
        }
    }

    fn find_cursor(&self, shell: Option<(usize, usize)>) -> (r: Option<(u32, u32)>)
        requires
            self.wf(),
        ensures
            screen_place(r) == cursor_on_screen(self@, shell),
    {
        reveal(cursor_on_screen);
        if self.panes.help_scroll.is_some() || self.show_splash() {
            return None;
        }
        if let Some(n) = self.tree_name_len() {
            let (x, y, w) = self.prompt_rect();
            return Some(prompt_place(x, y, w, 2, n));
        }
        if self.sidebar.focused {
            return None;
        }
        if self.keys.mode == Mode::Picker {
            return match &self.panes.picker {
                Some(p) => {
                    let (x, y, w, _) = self.picker_rect();
                    let n = chars_of(p.query.as_str()).len();
                    Some(prompt_place(x, y, w, 4, n))
                },
                None => None,
            };
        }
        if self.keys.mode == Mode::Command || self.keys.mode == Mode::Search {
            let (x, y, w) = self.prompt_rect();
            let n = chars_of(self.lines.command_line.as_str()).len();
            return Some(prompt_place(x, y, w, 3, n));
        }
        let f = self.focused_rect();
        if self.terminal_focused() {
            return match shell {
                Some((row, col)) => if row >= f.3 as usize || col >= f.2 as usize {
                    None
                } else {
                    Some((f.0 as u32 + col as u32, f.1 as u32 + row as u32))
                },
                None => None,
            };
        }
        let gutter = self.gutter_width();
        let wrap = self.wrap_width();
        self.doc().cursor_in(f, gutter, wrap, self.options.tab_width, self.inclusive())
    }
}

// ---- the cursor in words ----------------------------------------------------------

/// The cursor's line and column, both counted from one.
#[verifier::opaque]
pub open spec fn indicator_of(d: DocView, inclusive: bool, tab: usize) -> Seq<char> {
    let at = min_int(shown_cursor(d, inclusive), d.text.len() as int);
    let line = line_of(d.text, at) as int;
    let col = capped_col(
        display_col(line_content(d.text, line), at - line_start(d.text, line), tab),
    );
    decimal((line + 1) as nat) + ":"@ + decimal((col + 1) as nat)
}

impl Document {
    fn indicator(&self, inclusive: bool, tab: usize) -> (r: String)
        requires
            placed(self@),
        ensures
            r@ == indicator_of(self@, inclusive, tab),
    {
        reveal(indicator_of);
        let at = self.shown_cursor(inclusive);
        let line = self.line_at(at);
        let col: usize = at - self.line_start(line);
        let l = self.line_content(line);
        let shown = char_to_display_col(l.as_slice(), col, tab);
        let mut v: Vec<char> = Vec::new();
        push_after(&mut v, line);
        push_lit(&mut v, ":");
        push_after(&mut v, shown);
        assert(v@ =~= indicator_of(self@, inclusive, tab));
        string_of(&v)
    }
}

/// Append the number after `n`.
pub(crate) fn push_after(v: &mut Vec<char>, n: usize)
    ensures
        final(v)@ == old(v)@ + decimal((n + 1) as nat),
{
    if n < usize::MAX {
        push_number(v, (n + 1) as u64);
        return ;
    }
    push_number_wide(v, n);
}

fn push_number_wide(v: &mut Vec<char>, n: usize)
    requires
        n == usize::MAX,
    ensures
        final(v)@ == old(v)@ + decimal((n + 1) as nat),
{
    let wide: u128 = n as u128 + 1;
    let tens: u128 = wide / 10;
    let ghost had = v@;
    push_number(v, tens as u64);
    let digit: u8 = (wide % 10) as u8;
    v.push((48 + digit) as char);
    proof {
        let m = (n + 1) as nat;
        assert(m / 10 == tens as nat && m % 10 == digit as nat);
        assert(decimal(m) == decimal(m / 10).push(((48 + m % 10) as u8) as char));
    }
    assert(v@ =~= had + decimal((n + 1) as nat));
}

impl Editor {
    /// The cursor's place for the status line.
    pub fn cursor_indicator(&self) -> (r: String)
        requires
            self.wf(),
        ensures
            r@ == indicator_of(doc_of(self@), inclusive_in(self@), self@.options.tab_width),
    {
        self.doc().indicator(self.inclusive(), self.options.tab_width)
    }
}

// ---- the cursor is shown ----------------------------------------------------------

/// Whether a row of a line is there.
pub open spec fn is_row(s: Seq<char>, at: (int, int), wrap: Option<usize>, tab: usize) -> bool {
    0 <= at.0 < line_count(s) && 0 <= at.1 < row_count(s, at.0, wrap, tab)
}

/// The rows from one row forward to another.
spec fn rows_to(
    s: Seq<char>,
    wrap: Option<usize>,
    tab: usize,
    a: (int, int),
    b: (int, int),
) -> int {
    rows_between(s, a.0, b.0, wrap, tab) + b.1 - a.1
}

proof fn lemma_a_row_at_least(s: Seq<char>, line: int, wrap: Option<usize>, tab: usize)
    ensures
        row_count(s, line, wrap, tab) >= 1,
{
}

proof fn lemma_rows_front(s: Seq<char>, from: int, to: int, wrap: Option<usize>, tab: usize)
    requires
        from < to,
    ensures
        rows_between(s, from, to, wrap, tab) == row_count(s, from, wrap, tab) + rows_between(
            s,
            from + 1,
            to,
            wrap,
            tab,
        ),
    decreases to - from,
{
    if from + 1 < to {
        lemma_rows_front(s, from, to - 1, wrap, tab);
    } else {
        assert(rows_between(s, from, to - 1, wrap, tab) == 0);
    }
}

proof fn lemma_rows_grow(
    s: Seq<char>,
    a: int,
    b: int,
    c: int,
    d: int,
    wrap: Option<usize>,
    tab: usize,
)
    requires
        a <= b <= c <= d,
    ensures
        c - b <= rows_between(s, b, c, wrap, tab) <= rows_between(s, a, d, wrap, tab),
    decreases d - a,
{
    if c < d {
        lemma_a_row_at_least(s, d - 1, wrap, tab);
        lemma_rows_grow(s, a, b, c, d - 1, wrap, tab);
    } else if a < b {
        lemma_a_row_at_least(s, a, wrap, tab);
        lemma_rows_front(s, a, d, wrap, tab);
        lemma_rows_grow(s, a + 1, b, c, d, wrap, tab);
    } else if b < c {
        lemma_a_row_at_least(s, c - 1, wrap, tab);
        lemma_rows_grow(s, b, b, c - 1, c - 1, wrap, tab);
    }
}

proof fn lemma_stepped_down(
    s: Seq<char>,
    wrap: Option<usize>,
    tab: usize,
    at: (int, int),
    n: int,
    b: (int, int),
)
    requires
        is_row(s, at, wrap, tab),
        is_row(s, b, wrap, tab),
        at.0 <= b.0,
        0 <= n <= rows_to(s, wrap, tab, at, b),
    ensures
        is_row(s, scrolled(s, at, n, wrap, tab), wrap, tab),
        scrolled(s, at, n, wrap, tab).0 <= b.0,
        rows_to(s, wrap, tab, scrolled(s, at, n, wrap, tab), b) == rows_to(s, wrap, tab, at, b) - n,
    decreases n,
{
    if n > 0 {
        if at.1 + 1 < row_count(s, at.0, wrap, tab) {
            lemma_stepped_down(s, wrap, tab, (at.0, at.1 + 1), n - 1, b);
        } else {
            assert(at.0 < b.0) by {
                if at.0 == b.0 {
                    assert(rows_between(s, at.0, b.0, wrap, tab) == 0);
                }
            }
            lemma_a_row_at_least(s, at.0 + 1, wrap, tab);
            lemma_rows_front(s, at.0, b.0, wrap, tab);
            lemma_stepped_down(s, wrap, tab, (at.0 + 1, 0), n - 1, b);
        }
    }
}

proof fn lemma_stepped_up(
    s: Seq<char>,
    wrap: Option<usize>,
    tab: usize,
    at: (int, int),
    n: int,
    b: (int, int),
)
    requires
        is_row(s, at, wrap, tab),
        at.0 <= b.0,
        0 <= n,
    ensures
        is_row(s, scrolled(s, at, -n, wrap, tab), wrap, tab),
        scrolled(s, at, -n, wrap, tab).0 <= at.0,
        rows_to(s, wrap, tab, at, b) <= rows_to(s, wrap, tab, scrolled(s, at, -n, wrap, tab), b)
            <= rows_to(s, wrap, tab, at, b) + n,
    decreases n,
{
    if n > 0 {
        if at.1 > 0 {
            lemma_stepped_up(s, wrap, tab, (at.0, at.1 - 1), n - 1, b);
        } else if at.0 > 0 {
            let up = (at.0 - 1, row_count(s, at.0 - 1, wrap, tab) - 1);
            lemma_a_row_at_least(s, at.0 - 1, wrap, tab);
            lemma_rows_front(s, at.0 - 1, b.0, wrap, tab);
            lemma_stepped_up(s, wrap, tab, up, n - 1, b);
        }
    }
}

proof fn lemma_rows_before(rows: Seq<int>, col: int, n: nat)
    requires
        n <= rows.len(),
        rows.len() > 0 ==> rows[0] <= col,
    ensures
        rows_before(rows, col, n) <= n,
        n > 0 ==> rows_before(rows, col, n) >= 1,
    decreases n,
{
    if n > 1 {
        lemma_rows_before(rows, col, (n - 1) as nat);
    } else if n == 1 {
        assert(rows_before(rows, col, 0) == 0);
    }
}

proof fn lemma_line_within(s: Seq<char>, pos: int)
    requires
        0 <= pos,
    ensures
        line_of(s, pos) <= pos,
    decreases pos,
{
    if pos > 0 {
        lemma_line_within(s, pos - 1);
    }
}

/// Whether a window of so many rows shows a row of the text.
pub open spec fn row_shown(
    d: DocView,
    at: (int, int),
    height: int,
    wrap: Option<usize>,
    tab: usize,
) -> bool {
    &&& d.view_line < at.0 || (d.view_line == at.0 && d.view_row <= at.1)
    &&& rows_between(d.text, d.view_line as int, at.0, wrap, tab) + at.1 - d.view_row < height
}

proof fn lemma_unwrapped_shown(d: DocView, height: int, width: int, m: int, tab: usize)
    requires
        0 < height <= usize::MAX,
        0 < width <= usize::MAX,
        0 <= m <= (height - 1) / 2,
        d.text.len() < usize::MAX,
        visual_of(d.text, d.cursor as int, None, tab).0 < line_count(d.text),
    ensures
        ({
            let v = view_unwrapped(d, height, width, m, tab);
            let at = visual_of(d.text, d.cursor as int, None, tab);
            row_shown(v, (at.0, at.1), height, None, tab) && v.view_col <= capped_col(at.2)
                < v.view_col + width
        }),
{
    let at = visual_of(d.text, d.cursor as int, None, tab);
    let v = view_unwrapped(d, height, width, m, tab);
    let pos = min_int(d.cursor as int, d.text.len() as int);
    lemma_line_within(d.text, pos);
    let content = line_content(d.text, at.0);
    lemma_column_grows(
        content,
        cluster_lengths(content),
        0,
        0,
        0,
        pos - line_start(d.text, at.0),
        tab,
    );
    assert(v.view_line <= at.0 < v.view_line + height);
    lemma_single_rows(d.text, v.view_line as int, at.0, tab);
}

proof fn lemma_single_rows(s: Seq<char>, from: int, to: int, tab: usize)
    requires
        from <= to,
    ensures
        rows_between(s, from, to, None, tab) == to - from,
    decreases to - from,
{
    if from < to {
        lemma_single_rows(s, from, to - 1, tab);
    }
}

proof fn lemma_wrapped_shown(d: DocView, height: int, m: int, wrap: Option<usize>, tab: usize)
    requires
        wrap is Some,
        0 < height <= usize::MAX,
        0 <= m <= (height - 1) / 2,
        d.text.len() < usize::MAX,
        visual_of(d.text, d.cursor as int, wrap, tab).0 < line_count(d.text),
        rows_between(d.text, 0, line_count(d.text), wrap, tab) <= isize::MAX,
    ensures
        ({
            let v = view_wrapped(d, height, m, wrap, tab);
            let at = visual_of(d.text, d.cursor as int, wrap, tab);
            row_shown(v, (at.0, at.1), height, wrap, tab)
        }),
{
    let s = d.text;
    let (line, row, _) = visual_of(s, d.cursor as int, wrap, tab);
    let pos = min_int(d.cursor as int, s.len() as int);
    lemma_line_within(s, pos);
    lemma_line_bounds(s, pos);
    let rows = wrapped_rows(line_content(s, line), wrap->0 as int, tab);
    assert(rows[0] == 0);
    lemma_rows_before(rows, pos - line_start(s, line), rows.len());
    let at = (line, row);
    assert(is_row(s, at, wrap, tab));
    let last = line_count(s);
    lemma_line_count(s);
    let top = view_near(d, line, height, wrap, tab);
    lemma_a_row_at_least(s, top.0, wrap, tab);
    assert(is_row(s, top, wrap, tab));
    let v = if line < top.0 || (line == top.0 && row < top.1) {
        lemma_stepped_up(s, wrap, tab, at, m, at);
        assert(rows_between(s, line, line, wrap, tab) == 0);
        scrolled(s, at, -m, wrap, tab)
    } else {
        lemma_rows_grow(s, 0, top.0, line, last, wrap, tab);
        lemma_rows_grow(s, 0, top.0, line + 1, last, wrap, tab);
        if top.0 < line {
            lemma_rows_front(s, top.0, line, wrap, tab);
            lemma_rows_grow(s, top.0 + 1, top.0 + 1, line, line, wrap, tab);
        } else {
            assert(rows_between(s, line, line, wrap, tab) == 0);
        }
        let apart = rows_to(s, wrap, tab, top, at);
        assert(0 <= apart <= isize::MAX);
        let over = apart + m + 1 - height;
        if over > 0 {
            lemma_stepped_down(s, wrap, tab, top, over, at);
            scrolled(s, top, over, wrap, tab)
        } else {
            top
        }
    };
    assert(0 <= rows_to(s, wrap, tab, v, at) < height);
    assert(is_row(s, v, wrap, tab) && v.0 <= line);
    lemma_rows_grow(s, 0, v.0, v.0 + 1, last, wrap, tab);
    lemma_rows_front(s, v.0, v.0 + 1, wrap, tab);
    assert(rows_between(s, v.0 + 1, v.0 + 1, wrap, tab) == 0);
}

/// Once the viewport has followed the cursor, the cursor's row lies in the
/// window, and without wrapping its column too. Of a cursor behind the last
/// line break of the text nothing is said.
pub proof fn law_the_cursor_is_shown(
    d: DocView,
    height: usize,
    width: usize,
    margin: usize,
    wrap: Option<usize>,
    tab: usize,
)
    requires
        height > 0,
        width > 0,
        d.text.len() < usize::MAX,
        visual_of(d.text, d.cursor as int, wrap, tab).0 < line_count(d.text),
        rows_between(d.text, 0, line_count(d.text), wrap, tab) <= isize::MAX,
    ensures
        ({
            let v = view_following(d, height, width, margin, wrap, tab);
            let at = visual_of(d.text, d.cursor as int, wrap, tab);
            &&& v.cursor == d.cursor && v.text == d.text
            &&& row_shown(v, (at.0, at.1), height as int, wrap, tab)
            &&& wrap is None ==> v.view_col <= capped_col(at.2) < v.view_col + width
        }),
{
    reveal(view_following);
    let m = min_int(margin as int, (height - 1) / 2);
    match wrap {
        None => lemma_unwrapped_shown(d, height as int, width as int, m, tab),
        Some(_) => lemma_wrapped_shown(d, height as int, m, wrap, tab),
    }
}

} // verus!
