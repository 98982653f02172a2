//! The editor: its state as a whole, the screen's geometry, and the modes.

use vstd::prelude::*;
use crate::config::{Options, OptionsView};
use crate::desk::{cur, desk_wf, doc_ok, rect_in, with_doc, Desk, DeskView};
use crate::document::{
    clamped, committed, cursor_line, line_count, min_int, placed, true_to_edits, DocView, Document,
};
use crate::jumps::{jumps_wf, Jumps, JumpsView};
use crate::layout::{ids, rects_of, separators_of, Rect};
use crate::motions::max_of;
use crate::selections::Block;
use crate::registers::{Registers, RegistersView};
use crate::repeat::{Recorder, RecorderView};
use crate::state::{
    effect_views, hover_view, CharWait, Effect, EffectView, Keymaps, KeymapsView, Keys, KeysView,
    Lines, LinesView, Mode, Panes, PanesView, Servers, ServersView, Shell, ShellView, Sidebar,
    SidebarView, Tools, ToolsView,
};
use crate::strings::{decimal, push_number};
use crate::text::{line_start, rope_len};

verus! {

pub struct Editor {
    pub desk: Desk,
    pub keys: Keys,
    pub lines: Lines,
    pub registers: Registers,
    pub recorder: Recorder,
    pub jumps: Jumps,
    pub panes: Panes,
    pub sidebar: Sidebar,
    pub shell: Shell,
    pub servers: Servers,
    pub tools: Tools,
    pub options: Options,
    pub keymaps: Keymaps,
    /// The screen as (columns, rows).
    pub size: (u16, u16),
    /// Begun with no files: the empty buffer shows the splash screen.
    pub splash: bool,
    pub should_quit: bool,
    /// Leave without keeping anything, swap files included.
    pub quit_discarding: bool,
    /// A drag of the mouse is extending the selection.
    pub mouse_drag: bool,
    /// What is asked of the outside, in order.
    pub effects: Vec<Effect>,
}

pub struct EditorView {
    pub desk: DeskView,
    pub keys: KeysView,
    pub lines: LinesView,
    pub registers: RegistersView,
    pub recorder: RecorderView,
    pub jumps: JumpsView,
    pub panes: PanesView,
    pub sidebar: SidebarView,
    pub shell: ShellView,
    pub servers: ServersView,
    pub tools: ToolsView,
    pub options: OptionsView,
    pub keymaps: KeymapsView,
    pub size: (u16, u16),
    pub splash: bool,
    pub should_quit: bool,
    pub quit_discarding: bool,
    pub mouse_drag: bool,
    pub effects: Seq<EffectView>,
}

impl View for Editor {
    type V = EditorView;

    open spec fn view(&self) -> EditorView {
        EditorView {
            desk: self.desk@,
            keys: self.keys@,
            lines: self.lines@,
            registers: self.registers@,
            recorder: self.recorder@,
            jumps: self.jumps@,
            panes: self.panes@,
            sidebar: self.sidebar@,
            shell: self.shell@,
            servers: self.servers@,
            tools: self.tools@,
            options: self.options@,
            keymaps: self.keymaps@,
            size: self.size,
            splash: self.splash,
            should_quit: self.should_quit,
            quit_discarding: self.quit_discarding,
            mouse_drag: self.mouse_drag,
            effects: effect_views(self.effects@),
        }
    }
}

/// The desk in order.
#[verifier::opaque]
pub open spec fn desk_sound(v: DeskView) -> bool {
    desk_wf(v)
}

/// The keymaps in order.
#[verifier::opaque]
pub open spec fn keymaps_sound(k: Keymaps) -> bool {
    k.wf()
}

/// What every operation keeps: the desk in order, the jumplist within its
/// length, and a completion menu that offers something.
pub open spec fn editor_ok(e: EditorView) -> bool {
    &&& desk_sound(e.desk)
    &&& jumps_wf(e.jumps)
    &&& e.panes.completion matches Some(c) ==> c.items.len() > 0
}

impl Editor {
    pub open spec fn wf(&self) -> bool {
        editor_ok(self@) && keymaps_sound(self.keymaps)
    }
}

// ---- small changes ----------------------------------------------------------------

/// The document in front.
pub open spec fn doc_of(e: EditorView) -> DocView {
    cur(e.desk)
}

pub open spec fn on_doc(e: EditorView, d: DocView) -> EditorView {
    EditorView { desk: with_doc(e.desk, d), ..e }
}

pub open spec fn said(e: EditorView, text: Seq<char>) -> EditorView {
    EditorView { lines: LinesView { status: text, ..e.lines }, ..e }
}

pub open spec fn asking(e: EditorView, x: EffectView) -> EditorView {
    EditorView { effects: e.effects.push(x), ..e }
}

pub open spec fn selection_kept(e: EditorView) -> EditorView {
    EditorView { keys: KeysView { keep_selection: true, ..e.keys }, ..e }
}

pub open spec fn count_of(e: EditorView) -> usize {
    match e.keys.count {
        Some(n) => n,
        None => 1,
    }
}

pub open spec fn count_taken(e: EditorView) -> EditorView {
    EditorView { keys: KeysView { count: None, ..e.keys }, ..e }
}

pub open spec fn inserting(e: EditorView) -> bool {
    e.keys.mode == Mode::Insert
}

/// The document in front put back is no change.
pub proof fn lemma_on_doc_same(e: EditorView)
    requires
        desk_sound(e.desk),
    ensures
        on_doc(e, doc_of(e)) == e,
{
    reveal(desk_sound);
    assert(with_doc(e.desk, cur(e.desk)).docs =~= e.desk.docs);
}

impl Editor {
    pub fn doc(&self) -> (r: &Document)
        requires
            self.wf(),
        ensures
            r@ == doc_of(self@),
            doc_ok(r@),
    {
        reveal(desk_sound);
        self.desk.doc()
    }

    pub fn doc_mut(&mut self) -> (r: &mut Document)
        requires
            old(self).wf(),
        ensures
            r@ == doc_of(old(self)@),
            doc_ok(r@),
            final(self)@ == on_doc(old(self)@, final(r)@),
            doc_of(final(self)@) == final(r)@,
            doc_ok(final(r)@) ==> final(self).wf(),
    {
        reveal(desk_sound);
        self.desk.doc_mut()
    }

    pub fn set_status(&mut self, msg: &str)
        ensures
            final(self)@ == said(old(self)@, msg@),
            old(self).wf() ==> final(self).wf(),
    {
        self.lines.status = msg.to_owned();
    }

    pub fn ask(&mut self, x: Effect)
        ensures
            final(self)@ == asking(old(self)@, x@),
            old(self).wf() ==> final(self).wf(),
    {
        let ghost had = self.effects@;
        let ghost xv = x@;
        self.effects.push(x);
        assert(effect_views(self.effects@) =~= effect_views(had).push(xv));
    }

    pub fn take_count(&mut self) -> (r: usize)
        ensures
            r == count_of(old(self)@),
            final(self)@ == count_taken(old(self)@),
            old(self).wf() ==> final(self).wf(),
    {
        let n: usize = match self.keys.count {
            Some(n) => n,
            None => 1,
        };
        self.keys.count = None;
        n
    }
}

// ---- one field at a time ----------------------------------------------------------

impl Editor {
    pub(crate) fn keep(&mut self)
        requires
            old(self).wf(),
        ensures
            final(self)@ == (selection_kept(old(self)@)),
            final(self).wf(),
    {
        self.keys.keep_selection = true;
    }

    pub(crate) fn set_extend(&mut self, on: bool)
        requires
            old(self).wf(),
        ensures
            final(self)@ == (EditorView { keys: KeysView { extend: on, ..old(self)@.keys }, ..old(self)@ }),
            final(self).wf(),
    {
        self.keys.extend = on;
    }

    pub(crate) fn set_count(&mut self, n: Option<usize>)
        requires
            old(self).wf(),
        ensures
            final(self)@ == (EditorView { keys: KeysView { count: n, ..old(self)@.keys }, ..old(self)@ }),
            final(self).wf(),
    {
        self.keys.count = n;
    }

    pub(crate) fn set_block(&mut self, b: Option<Block>)
        requires
            old(self).wf(),
        ensures
            final(self)@ == (EditorView { keys: KeysView { block: b, ..old(self)@.keys }, ..old(self)@ }),
            final(self).wf(),
    {
        self.keys.block = b;
    }

    pub(crate) fn set_bare_mode(&mut self, mode: Mode)
        requires
            old(self).wf(),
        ensures
            final(self)@ == (EditorView { keys: KeysView { mode, ..old(self)@.keys }, ..old(self)@ }),
            final(self).wf(),
    {
        self.keys.mode = mode;
    }

    pub(crate) fn clear_pending(&mut self)
        requires
            old(self).wf(),
        ensures
            final(self)@ == (EditorView { keys: KeysView { pending: Seq::empty(), ..old(self)@.keys }, ..old(self)@ }),
            final(self).wf(),
    {
        self.keys.pending = Vec::new();
        assert(self.keys.pending@ =~= Seq::empty());
    }

    pub(crate) fn set_line(&mut self, text: String)
        requires
            old(self).wf(),
        ensures
            final(self)@ == (EditorView { lines: LinesView { command_line: text@, ..old(self)@.lines }, ..old(self)@ }),
            final(self).wf(),
    {
        self.lines.command_line = text;
    }

    pub(crate) fn set_suggest(&mut self, at: Option<usize>)
        requires
            old(self).wf(),
        ensures
            final(self)@ == (EditorView { lines: LinesView { command_suggest: at, ..old(self)@.lines }, ..old(self)@ }),
            final(self).wf(),
    {
        self.lines.command_suggest = at;
    }

    pub(crate) fn set_tree_focus(&mut self, on: bool)
        requires
            old(self).wf(),
        ensures
            final(self)@ == (EditorView { sidebar: SidebarView { focused: on, ..old(self)@.sidebar }, ..old(self)@ }),
            final(self).wf(),
    {
        self.sidebar.focused = on;
    }

    pub(crate) fn wait_char(&mut self, w: Option<CharWait>)
        requires
            old(self).wf(),
        ensures
            final(self)@ == (EditorView { keys: KeysView { awaiting_char: w, ..old(self)@.keys }, ..old(self)@ }),
            final(self).wf(),
    {
        self.keys.awaiting_char = w;
    }

    pub(crate) fn set_help(&mut self, scroll: Option<usize>)
        requires
            old(self).wf(),
        ensures
            final(self)@ == (EditorView { panes: PanesView { help_scroll: scroll, ..old(self)@.panes }, ..old(self)@ }),
            final(self).wf(),
    {
        self.panes.help_scroll = scroll;
    }

    pub(crate) fn set_hover(&mut self, h: Option<(Vec<String>, usize)>)
        requires
            old(self).wf(),
        ensures
            final(self)@ == (EditorView { panes: PanesView { hover: hover_view(h), ..old(self)@.panes }, ..old(self)@ }),
            final(self).wf(),
    {
        self.panes.hover = h;
    }

    pub(crate) fn freshen_register(&mut self)
        requires
            old(self).wf(),
        ensures
            final(self)@ == (EditorView { registers: RegistersView { fresh: true, ..old(self)@.registers }, ..old(self)@ }),
            final(self).wf(),
    {
        self.registers.fresh = true;
    }
}

// ---- geometry ---------------------------------------------------------------------

/// Width of the sidebar.
pub open spec fn tree_width_of(e: EditorView) -> u16 {
    if e.sidebar.tree is Some {
        min_int(30, (e.size.0 / 3) as int) as u16
    } else {
        0
    }
}

/// Where the windows are: all but the status and command lines and the
/// sidebar.
pub open spec fn area_of(e: EditorView) -> Rect {
    let w = tree_width_of(e);
    (w, 0, (e.size.0 - w) as u16, max_of(e.size.1 - 2, 0) as u16)
}

pub open spec fn windows_of(e: EditorView) -> Seq<(usize, Rect)> {
    rects_of(e.desk.layout, area_of(e))
}

#[verifier::opaque]
pub open spec fn focused_rect_of(e: EditorView) -> Rect {
    match rect_in(windows_of(e), e.desk.focused, 0) {
        Some(r) => r,
        None => (0, 0, e.size.0, max_of(e.size.1 - 2, 0) as u16),
    }
}

pub open spec fn text_height_of(e: EditorView) -> usize {
    focused_rect_of(e).3 as usize
}

/// Width of the line numbers with the space behind them.
#[verifier::opaque]
pub open spec fn gutter_of(e: EditorView) -> usize {
    let digits = decimal(line_count(doc_of(e).text) as nat).len();
    (max_of(digits as int, 3) + 1) as usize
}

#[verifier::opaque]
pub open spec fn text_width_of(e: EditorView) -> usize {
    max_of(focused_rect_of(e).2 - gutter_of(e), 0) as usize
}

/// The width to wrap at; nothing where long lines are not wrapped.
pub open spec fn wrap_of(e: EditorView) -> Option<usize> {
    if e.options.soft_wrap && text_width_of(e) > 0 {
        Some(text_width_of(e))
    } else {
        None
    }
}

pub open spec fn clamp_int(n: int, low: int, high: int) -> int {
    if n < low {
        low
    } else if n > high {
        high
    } else {
        n
    }
}

/// The help window: centred, most of the screen.
pub open spec fn help_rect_of(e: EditorView) -> Rect {
    let w = min_int(clamp_int(e.size.0 * 3 / 4, 30, 90), e.size.0 as int);
    let h = max_of(max_of(e.size.1 - 6, 0), 3);
    (((e.size.0 - w) / 2) as u16, 2, w as u16, h as u16)
}

/// The prompt: (x, y, width), centred near the top.
pub open spec fn prompt_rect_of(e: EditorView) -> (u16, u16, u16) {
    let w = clamp_int(e.size.0 * 3 / 5, 20, 70);
    ((max_of(e.size.0 - w, 0) / 2) as u16, 1, w as u16)
}

/// The picker's window, centred near the top.
pub open spec fn picker_rect_of(e: EditorView) -> Rect {
    let w = clamp_int(e.size.0 * 3 / 4, 20, 80);
    let h = max_of(min_int(12, max_of(e.size.1 - 4, 0)), 2);
    ((max_of(e.size.0 - w, 0) / 2) as u16, 1, w as u16, h as u16)
}

pub open spec fn terminal_focused_in(e: EditorView) -> bool {
    e.shell.win == Some(e.desk.focused)
}

/// Whether the splash screen shows: until anything real happens.
pub open spec fn splash_shows(e: EditorView) -> bool {
    &&& e.splash
    &&& e.keys.mode == Mode::Normal
    &&& ids(e.desk.layout).len() == 1
    &&& doc_of(e).path is None
    &&& doc_of(e).text.len() == 0
}

/// Selections are shown with the cursor on their last character while one is
/// being stretched.
pub open spec fn inclusive_in(e: EditorView) -> bool {
    e.keys.extend || e.keys.block is Some
}

impl Editor {
    pub fn tree_width(&self) -> (r: u16)
        ensures
            r == tree_width_of(self@),
            r <= self.size.0,
    {
        if self.sidebar.tree.is_some() {
            let third: u16 = self.size.0 / 3;
            if third <= 30 {
                third
            } else {
                30
            }
        } else {
            0
        }
    }

    pub fn area(&self) -> (r: Rect)
        ensures
            r == area_of(self@),
    {
        let w = self.tree_width();
        (
            w,
            0,
            self.size.0 - w,
            if self.size.1 >= 2 {
                self.size.1 - 2
            } else {
                0
            },
        )
    }

    /// Every window's rectangle, and the separators between them.
    pub fn window_rects(&self) -> (r: (Vec<(usize, Rect)>, Vec<(Rect, bool)>))
        requires
            self.wf(),
        ensures
            r.0@ == windows_of(self@),
            r.1@ == separators_of(self@.desk.layout, area_of(self@)),
    {
        reveal(desk_sound);
        self.desk.rects(self.area())
    }

    pub fn focused_rect(&self) -> (r: Rect)
        requires
            self.wf(),
        ensures
            r == focused_rect_of(self@),
    {
        reveal(focused_rect_of);
        reveal(desk_sound);
        match self.desk.rect_of(self.area(), self.desk.focused) {
            Some(r) => r,
            None => (
                0,
                0,
                self.size.0,
                if self.size.1 >= 2 {
                    self.size.1 - 2
                } else {
                    0
                },
            ),
        }
    }

    /// Rows of text in the focused window.
    pub fn text_height(&self) -> (r: usize)
        requires
            self.wf(),
        ensures
            r == text_height_of(self@),
    {
        self.focused_rect().3 as usize
    }

    /// Width of the line numbers.
    pub fn gutter_width(&self) -> (r: usize)
        requires
            self.wf(),
        ensures
            r == gutter_of(self@),
            4 <= r,
    {
        reveal(gutter_of);
        let n = self.doc().line_count();
        let mut v: Vec<char> = Vec::new();
        push_number(&mut v, n as u64);
        let digits: usize = v.len();
        assert(v@ =~= decimal(n as nat));
        proof {
            lemma_decimal_short(n as nat);
        }
        if digits >= 3 {
            digits + 1
        } else {
            4
        }
    }

    pub fn text_width(&self) -> (r: usize)
        requires
            self.wf(),
        ensures
            r == text_width_of(self@),
    {
        reveal(text_width_of);
        let w: usize = self.focused_rect().2 as usize;
        let g = self.gutter_width();
        if w >= g {
            w - g
        } else {
            0
        }
    }

    /// The width to wrap at.
    pub fn wrap_width(&self) -> (r: Option<usize>)
        requires
            self.wf(),
        ensures
            r == wrap_of(self@),
    {
        if !self.options.soft_wrap {
            return None;
        }
        let w = self.text_width();
        if w > 0 {
            Some(w)
        } else {
            None
        }
    }

    pub fn help_rect(&self) -> (r: Rect)
        ensures
            r == help_rect_of(self@),
    {
        let cols: u32 = self.size.0 as u32;
        let w3: u32 = cols * 3 / 4;
        let w: u32 = if w3 < 30 {
            30
        } else if w3 > 90 {
            90
        } else {
            w3
        };
        let w: u16 = if w <= cols {
            w as u16
        } else {
            self.size.0
        };
        let h: u16 = if self.size.1 >= 9 {
            self.size.1 - 6
        } else {
            3
        };
        ((self.size.0 - w) / 2, 2, w, h)
    }

    pub fn prompt_rect(&self) -> (r: (u16, u16, u16))
        ensures
            r == prompt_rect_of(self@),
            r.2 >= 20,
    {
        let w5: u32 = self.size.0 as u32 * 3 / 5;
        let w: u16 = if w5 < 20 {
            20
        } else if w5 > 70 {
            70
        } else {
            w5 as u16
        };
        let x: u16 = if self.size.0 >= w {
            (self.size.0 - w) / 2
        } else {
            0
        };
        (x, 1, w)
    }

    pub fn picker_rect(&self) -> (r: Rect)
        ensures
            r == picker_rect_of(self@),
            r.2 >= 20,
    {
        let w4: u32 = self.size.0 as u32 * 3 / 4;
        let w: u16 = if w4 < 20 {
            20
        } else if w4 > 80 {
            80
        } else {
            w4 as u16
        };
        let x: u16 = if self.size.0 >= w {
            (self.size.0 - w) / 2
        } else {
            0
        };
        let h: u16 = if self.size.1 >= 16 {
            12
        } else if self.size.1 >= 6 {
            self.size.1 - 4
        } else {
            2
        };
        (x, 1, w, h)
    }

    pub fn terminal_focused(&self) -> (r: bool)
        ensures
            r == terminal_focused_in(self@),
    {
        match self.shell.win {
            Some(w) => w == self.desk.focused,
            None => false,
        }
    }

    pub fn show_splash(&self) -> (r: bool)
        requires
            self.wf(),
        ensures
            r == splash_shows(self@),
    {
        self.splash && self.keys.mode == Mode::Normal && self.desk.window_count() == 1
            && self.doc().path.is_none() && rope_len(&self.doc().text) == 0
    }

    /// Are selections shown with the cursor on their last character?
    pub fn inclusive(&self) -> (r: bool)
        ensures
            r == inclusive_in(self@),
    {
        self.keys.extend || self.keys.block.is_some()
    }

    pub fn window_count(&self) -> (r: usize)
        ensures
            r == ids(self@.desk.layout).len(),
    {
        self.desk.window_count()
    }
}

/// The digits of a number that a machine holds are few.
proof fn lemma_decimal_short(n: nat)
    requires
        n <= u64::MAX,
    ensures
        1 <= decimal(n).len() <= 20,
{
    reveal_with_fuel(decimal, 21);
}

// ---- modes ------------------------------------------------------------------------

/// A document as insert mode leaves it: the burst is one undo step, and the
/// cursor steps back off the insertion point.
#[verifier::opaque]
pub open spec fn insert_left(d: DocView) -> DocView {
    let c = committed(d);
    let start = line_start(c.text, cursor_line(c.text, c.cursor as int));
    let at = if c.cursor > start {
        c.cursor - 1
    } else {
        c.cursor as int
    };
    DocView { cursor: clamped(c.text, at, false) as usize, ..c }
}

pub open spec fn in_mode(e: EditorView, mode: Mode) -> EditorView {
    let left = if e.keys.mode == Mode::Insert && mode != Mode::Insert {
        EditorView {
            panes: PanesView { signature: None, ..e.panes },
            ..on_doc(e, insert_left(doc_of(e)))
        }
    } else {
        e
    };
    EditorView { keys: KeysView { mode, pending: Seq::empty(), ..left.keys }, ..left }
}

impl Document {
    /// Leave insert mode.
    pub fn leave_insert(&mut self)
        ensures
            final(self)@ == insert_left(old(self)@),
            old(self).wf() ==> final(self).wf(),
            placed(old(self)@) ==> placed(final(self)@),
            true_to_edits(old(self)@) ==> true_to_edits(final(self)@),
    {
        reveal(insert_left);
        self.commit_undo_group();
        let start = self.line_start(self.cursor_line());
        if self.cursor > start {
            self.cursor -= 1;
        }
        self.clamp_cursor(false);
    }
}

impl Editor {
    pub fn set_mode(&mut self, mode: Mode)
        requires
            old(self).wf(),
        ensures
            final(self)@ == in_mode(old(self)@, mode),
            final(self).wf(),
            final(self)@.desk.docs.len() == old(self)@.desk.docs.len(),
    {
        if self.keys.mode == Mode::Insert && mode != Mode::Insert {
            self.panes.signature = None;
            reveal(desk_sound);
            self.doc_mut().leave_insert();
        }
        self.keys.mode = mode;
        self.keys.pending = Vec::new();
        assert(self.keys.pending@ =~= Seq::empty());
    }
}

} // verus!
