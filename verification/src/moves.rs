//! The commands that move and select.

use ropey::Rope;
use vstd::prelude::*;
use crate::commands::Command;
use crate::desk::doc_ok;
use crate::document::{
    cluster_start, committed, cursor_line, lemma_clamped, lemma_cluster_start, lemma_cursor_line,
    line_count, min_int, off_clusters, placed, true_to_edits, DocView, Document,
};
use crate::editor::{
    count_of, count_taken, doc_of, in_mode, insert_left, inserting, on_doc, said, selection_kept,
    lemma_on_doc_same, text_height_of, Editor, EditorView,
};
use crate::jumps::jump_pushed;
use crate::motions::{
    as_shown, at_first_nonblank, cursor_added, at_line, at_line_end, at_line_start, cursors_added,
    included, lemma_word_steps, line_selected, max_of, moved_left, moved_right, moved_vertically,
    through, times, to_next_word, to_prev_word, to_word_end,
    word_end_selected, word_next_selected, word_prev_selected,
};
use crate::position::{next_grapheme_boundary, prev_boundary, prev_grapheme_boundary};
use crate::objects::{find_matching, matching_bracket};
use crate::selections::{
    align_outcome, aligned, all_trimmed, block_selected, corner_of, rotated, selections_of,
    split_by_lines, with_selections, Aligned, Block,
};
use crate::state::{KeysView, LinesView, Mode, SelectPrompt};
use crate::strings::{chars_of, decimal, push_lit, push_number, string_of};
use crate::text::{lemma_line_start, line_start, rope_chars, rope_string};

verus! {

// ---- motions ----------------------------------------------------------------------

/// The commands that only move the cursor.
pub open spec fn is_motion(c: Command) -> bool {
    match c {
        Command::MoveLeft | Command::MoveRight | Command::MoveUp | Command::MoveDown
        | Command::MoveLineStart | Command::MoveLineFirstNonblank | Command::MoveLineEnd
        | Command::GotoFileStart | Command::GotoFileEnd | Command::GotoMatchingBracket
        | Command::HalfPageDown | Command::HalfPageUp | Command::PageDown | Command::PageUp => true,
        _ => false,
    }
}

/// The motions that a count repeats, or gives a line to.
pub open spec fn motion_counts(c: Command) -> bool {
    match c {
        Command::MoveLeft | Command::MoveRight | Command::MoveUp | Command::MoveDown
        | Command::GotoFileStart | Command::GotoFileEnd => true,
        _ => false,
    }
}

fn counts(c: Command) -> (r: bool)
    ensures
        r == motion_counts(c),
{
    match c {
        Command::MoveLeft | Command::MoveRight | Command::MoveUp | Command::MoveDown
        | Command::GotoFileStart | Command::GotoFileEnd => true,
        _ => false,
    }
}

fn is_far(c: Command) -> (r: bool)
    ensures
        r == (c is GotoFileStart || c is GotoFileEnd),
{
    match c {
        Command::GotoFileStart | Command::GotoFileEnd => true,
        _ => false,
    }
}

/// The line that a count names, from one on, or another where there is none.
pub open spec fn line_named(count: Option<usize>, default: int) -> int {
    match count {
        Some(n) => max_of(n - 1, 0),
        None => default,
    }
}

pub open spec fn at_bracket(d: DocView) -> DocView {
    match matching_bracket(d.text, d.cursor as int) {
        Some(p) => DocView { cursor: p as usize, goal_col: None, ..d },
        None => d,
    }
}

pub open spec fn rows_of(page: usize, half: bool) -> usize {
    max_of(
        if half {
            page as int / 2
        } else {
            page as int
        },
        1,
    ) as usize
}

/// Where a motion takes the cursor of a document, before it is kept out of
/// clusters. `page` is the rows of text that the window shows.
#[verifier::opaque]
pub open spec fn bare_motion(
    d: DocView,
    c: Command,
    count: Option<usize>,
    past_end: bool,
    tab: usize,
    page: usize,
) -> DocView {
    let n = match count {
        Some(n) => n,
        None => 1,
    };
    match c {
        Command::MoveLeft => moved_left(d, n, past_end),
        Command::MoveRight => moved_right(d, n, past_end),
        Command::MoveUp => moved_vertically(d, true, n, past_end, tab),
        Command::MoveDown => moved_vertically(d, false, n, past_end, tab),
        Command::MoveLineStart => at_line_start(d),
        Command::MoveLineFirstNonblank => at_first_nonblank(d),
        Command::MoveLineEnd => at_line_end(d, past_end),
        Command::GotoFileStart => at_line(d, line_named(count, 0)),
        Command::GotoFileEnd => at_line(d, line_named(count, line_count(d.text) - 1)),
        Command::GotoMatchingBracket => at_bracket(d),
        Command::HalfPageDown => moved_vertically(d, false, rows_of(page, true), past_end, tab),
        Command::HalfPageUp => moved_vertically(d, true, rows_of(page, true), past_end, tab),
        Command::PageDown => moved_vertically(d, false, rows_of(page, false), past_end, tab),
        Command::PageUp => moved_vertically(d, true, rows_of(page, false), past_end, tab),
        _ => d,
    }
}

/// Where a motion takes the cursor of a document: to the start of a cluster.
#[verifier::opaque]
pub open spec fn motion(
    d: DocView,
    c: Command,
    count: Option<usize>,
    past_end: bool,
    tab: usize,
    page: usize,
) -> DocView {
    let m = bare_motion(d, c, count, past_end, tab, page);
    DocView { cursor: cluster_start(m.text, m.cursor as int) as usize, ..m }
}

/// A motion lands inside no cluster: wherever it takes the cursor, a cluster
/// of the line starts there, or the line ends.
pub proof fn law_motions_stay_out_of_clusters(
    d: DocView,
    c: Command,
    count: Option<usize>,
    past_end: bool,
    tab: usize,
    page: usize,
)
    ensures
        off_clusters(
            motion(d, c, count, past_end, tab, page).text,
            motion(d, c, count, past_end, tab, page).cursor as int,
        ),
{
    reveal(motion);
    let m = bare_motion(d, c, count, past_end, tab, page);
    lemma_cluster_start(m.text, m.cursor as int);
}

/// The motions that select words land inside no cluster either.
pub proof fn law_words_stay_out_of_clusters(d: DocView, count: usize, extend: bool)
    requires
        placed(d),
        d.text.len() <= usize::MAX,
    ensures
        off_clusters(d.text, word_next_selected(d, count, extend).cursor as int),
        off_clusters(d.text, word_prev_selected(d, count, extend).cursor as int),
        off_clusters(d.text, word_end_selected(d, count, extend).cursor as int),
{
    lemma_word_steps(d.text, d.cursor as int, count as nat);
    lemma_cluster_start(d.text, times(to_next_word(d.text), d.cursor as int, count as nat));
    lemma_cluster_start(d.text, times(to_prev_word(d.text), d.cursor as int, count as nat));
    let e = times(to_word_end(d.text), d.cursor as int, count as nat) + 1;
    lemma_cluster_start(d.text, min_int(e, d.text.len() as int));
}

/// Leaving insert mode leaves the cursor inside no cluster.
pub proof fn law_leaving_insert_stays_out_of_clusters(d: DocView)
    ensures
        off_clusters(insert_left(d).text, insert_left(d).cursor as int),
        insert_left(d).text == d.text,
{
    reveal(insert_left);
    let c = committed(d);
    let start = line_start(c.text, cursor_line(c.text, c.cursor as int));
    let at = if c.cursor > start {
        c.cursor - 1
    } else {
        c.cursor as int
    };
    lemma_cursor_line(c.text, c.cursor as int);
    lemma_line_start(c.text, cursor_line(c.text, c.cursor as int));
    lemma_clamped(c.text, at);
}

/// A motion that stretches the selection goes from where the cursor is shown,
/// and takes in the character that it lands on.
#[verifier::opaque]
pub open spec fn stretched(
    d: DocView,
    c: Command,
    count: Option<usize>,
    past_end: bool,
    tab: usize,
    page: usize,
    stretch: bool,
) -> DocView {
    if stretch {
        included(motion(as_shown(d), c, count, past_end, tab, page))
    } else {
        motion(d, c, count, past_end, tab, page)
    }
}

impl Document {
    fn go_by(
        &mut self,
        c: Command,
        count: Option<usize>,
        past_end: bool,
        tab: usize,
        page: usize,
    )
        requires
            doc_ok(old(self)@),
        ensures
            final(self)@ == bare_motion(old(self)@, c, count, past_end, tab, page),
            doc_ok(final(self)@),
    {
        reveal(bare_motion);
        let n: usize = match count {
            Some(n) => n,
            None => 1,
        };
        let half: usize = if page / 2 >= 1 {
            page / 2
        } else {
            1
        };
        let whole: usize = if page >= 1 {
            page
        } else {
            1
        };
        match c {
            Command::MoveLeft => self.move_left(n, past_end),
            Command::MoveRight => self.move_right(n, past_end),
            Command::MoveUp => self.move_vertical(true, n, past_end, tab),
            Command::MoveDown => self.move_vertical(false, n, past_end, tab),
            Command::MoveLineStart => self.move_line_start(),
            Command::MoveLineFirstNonblank => self.move_line_first_nonblank(),
            Command::MoveLineEnd => self.move_line_end(past_end),
            Command::GotoFileStart => {
                let line: usize = match count {
                    Some(n) => if n >= 1 {
                        n - 1
                    } else {
                        0
                    },
                    None => 0,
                };
                self.goto_line(line)
            },
            Command::GotoFileEnd => {
                let line: usize = match count {
                    Some(n) => if n >= 1 {
                        n - 1
                    } else {
                        0
                    },
                    None => self.line_count() - 1,
                };
                self.goto_line(line)
            },
            Command::GotoMatchingBracket => {
                let whole_text = rope_string(&self.text);
                let v = chars_of(whole_text.as_str());
                if let Some(p) = find_matching(&v, self.cursor) {
                    self.cursor = p;
                    self.goal_col = None;
                }
            },
            Command::HalfPageDown => self.move_vertical(false, half, past_end, tab),
            Command::HalfPageUp => self.move_vertical(true, half, past_end, tab),
            Command::PageDown => self.move_vertical(false, whole, past_end, tab),
            Command::PageUp => self.move_vertical(true, whole, past_end, tab),
            _ => {},
        }
    }

    /// Carry out a motion.
    pub fn move_by(
        &mut self,
        c: Command,
        count: Option<usize>,
        past_end: bool,
        tab: usize,
        page: usize,
    )
        requires
            doc_ok(old(self)@),
        ensures
            final(self)@ == motion(old(self)@, c, count, past_end, tab, page),
            doc_ok(final(self)@),
    {
        reveal(motion);
        self.go_by(c, count, past_end, tab, page);
        let ghost d = self@;
        self.to_cluster_start();
        assert(self@.extra == d.extra);
    }

    /// Carry out a motion, stretching the selection where that is wanted.
    pub fn stretch_by(
        &mut self,
        c: Command,
        count: Option<usize>,
        past_end: bool,
        tab: usize,
        page: usize,
        stretch: bool,
    )
        requires
            doc_ok(old(self)@),
        ensures
            final(self)@ == stretched(old(self)@, c, count, past_end, tab, page, stretch),
            doc_ok(final(self)@),
    {
        reveal(stretched);
        if stretch {
            self.show_ends();
        }
        self.move_by(c, count, past_end, tab, page);
        if stretch {
            self.include_ends();
        }
    }
}

/// The place that the cursor is about to leave noted in the jumplist.
pub open spec fn jump_noted(e: EditorView) -> EditorView {
    EditorView { jumps: jump_pushed(e.jumps, (e.desk.current, doc_of(e).cursor)), ..e }
}

#[verifier::opaque]
pub open spec fn motion_here(e: EditorView, c: Command) -> EditorView {
    let m = on_doc(
        e,
        stretched(
            doc_of(e),
            c,
            e.keys.count,
            inserting(e),
            e.options.tab_width,
            text_height_of(e),
            e.keys.extend && e.keys.mode == Mode::Normal,
        ),
    );
    if motion_counts(c) {
        count_taken(m)
    } else {
        m
    }
}

pub open spec fn motion_run(e: EditorView, c: Command) -> EditorView {
    if c is GotoFileStart || c is GotoFileEnd {
        motion_here(jump_noted(e), c)
    } else {
        motion_here(e, c)
    }
}

impl Editor {
    /// Note the place that the cursor is about to leave.
    pub fn push_jump(&mut self)
        requires
            old(self).wf(),
        ensures
            final(self)@ == jump_noted(old(self)@),
            final(self).wf(),
    {
        let at = (self.desk.current, self.doc().cursor);
        self.jumps.push(at);
    }

    pub(crate) fn run_motion(&mut self, c: Command)
        requires
            old(self).wf(),
        ensures
            final(self)@ == motion_run(old(self)@, c),
            final(self).wf(),
    {
        if is_far(c) {
            self.push_jump();
        }
        self.run_motion_here(c);
    }

    fn run_motion_here(&mut self, c: Command)
        requires
            old(self).wf(),
        ensures
            final(self)@ == motion_here(old(self)@, c),
            final(self).wf(),
    {
        reveal(motion_here);
        let past_end = self.keys.mode == Mode::Insert;
        let tab = self.options.tab_width;
        let page = self.text_height();
        let count = self.keys.count;
        let stretch = self.keys.extend && self.keys.mode == Mode::Normal;
        self.doc_mut().stretch_by(c, count, past_end, tab, page, stretch);
        if counts(c) {
            self.set_count(None);
        }
    }
}

// ---- selecting --------------------------------------------------------------------

/// A selection with the character at its cursor taken in, where it was empty.
pub open spec fn sel_opened(s: Seq<char>, sel: (usize, usize)) -> (usize, usize) {
    if sel.0 == sel.1 {
        let t = through(s, sel.0 as int, sel.1 as int);
        (t.0 as usize, t.1 as usize)
    } else {
        sel
    }
}

/// A bare cursor where a stretched selection shows it.
pub open spec fn sel_closed(s: Seq<char>, sel: (usize, usize)) -> (usize, usize) {
    let at = if sel.0 < sel.1 {
        prev_boundary(s, min_int(sel.1 as int, s.len() as int)) as usize
    } else {
        sel.1
    };
    (at, at)
}

pub open spec fn every_sel(
    d: DocView,
    f: spec_fn((usize, usize)) -> (usize, usize),
) -> DocView {
    let p = f((d.anchor, d.cursor));
    DocView {
        anchor: p.0,
        cursor: p.1,
        extra: Seq::new(d.extra.len(), |i: int| f(d.extra[i])),
        ..d
    }
}

/// Every bare cursor with its character selected, to be stretched.
#[verifier::opaque]
pub open spec fn all_opened(d: DocView) -> DocView {
    every_sel(d, |sel: (usize, usize)| sel_opened(d.text, sel))
}

/// Every selection collapsed to where its cursor is shown.
#[verifier::opaque]
pub open spec fn all_closed(d: DocView) -> DocView {
    every_sel(d, |sel: (usize, usize)| sel_closed(d.text, sel))
}

fn open_sel(text: &Rope, sel: (usize, usize)) -> (r: (usize, usize))
    requires
        sel.0 <= rope_chars(*text).len(),
        sel.1 <= rope_chars(*text).len(),
    ensures
        r == sel_opened(rope_chars(*text), sel),
        r.0 <= rope_chars(*text).len(),
        r.1 <= rope_chars(*text).len(),
{
    if sel.0 == sel.1 {
        (sel.0, next_grapheme_boundary(text, sel.1))
    } else {
        sel
    }
}

fn close_sel(text: &Rope, sel: (usize, usize)) -> (r: (usize, usize))
    requires
        sel.0 <= rope_chars(*text).len(),
        sel.1 <= rope_chars(*text).len(),
    ensures
        r == sel_closed(rope_chars(*text), sel),
        r.0 <= rope_chars(*text).len(),
        r.1 <= rope_chars(*text).len(),
{
    let at = if sel.0 < sel.1 {
        prev_grapheme_boundary(text, sel.1)
    } else {
        sel.1
    };
    (at, at)
}

impl Document {
    pub fn open_all(&mut self)
        requires
            doc_ok(old(self)@),
        ensures
            final(self)@ == all_opened(old(self)@),
            doc_ok(final(self)@),
            true_to_edits(old(self)@) ==> true_to_edits(final(self)@),
    {
        reveal(all_opened);
        let ghost d = self@;
        let p = open_sel(&self.text, (self.anchor, self.cursor));
        let mut out: Vec<(usize, usize)> = Vec::new();
        let mut i: usize = 0;
        while i < self.extra.len()
            invariant
                self@ == d,
                doc_ok(d),
                i <= d.extra.len(),
                out@.len() == i,
                forall|k: int| 0 <= k < i ==> out@[k] == sel_opened(d.text, d.extra[k]),
                forall|k: int| 0 <= k < i ==> (#[trigger] out@[k]).0 <= d.text.len() && out@[k].1 <= d.text.len(),
            decreases d.extra.len() - i,
        {
            let sel = self.extra[i];
            assert(sel == d.extra[i as int]);
            let o = open_sel(&self.text, sel);
            out.push(o);
            i += 1;
        }
        self.anchor = p.0;
        self.cursor = p.1;
        self.extra = out;
        assert(self@.extra =~= all_opened(d).extra);
    }

    pub fn close_all(&mut self)
        requires
            doc_ok(old(self)@),
        ensures
            final(self)@ == all_closed(old(self)@),
            doc_ok(final(self)@),
            true_to_edits(old(self)@) ==> true_to_edits(final(self)@),
    {
        reveal(all_closed);
        let ghost d = self@;
        let p = close_sel(&self.text, (self.anchor, self.cursor));
        let mut out: Vec<(usize, usize)> = Vec::new();
        let mut i: usize = 0;
        while i < self.extra.len()
            invariant
                self@ == d,
                doc_ok(d),
                i <= d.extra.len(),
                out@.len() == i,
                forall|k: int| 0 <= k < i ==> out@[k] == sel_closed(d.text, d.extra[k]),
                forall|k: int| 0 <= k < i ==> (#[trigger] out@[k]).0 <= d.text.len() && out@[k].1 <= d.text.len(),
            decreases d.extra.len() - i,
        {
            let sel = self.extra[i];
            assert(sel == d.extra[i as int]);
            let o = close_sel(&self.text, sel);
            out.push(o);
            i += 1;
        }
        self.anchor = p.0;
        self.cursor = p.1;
        self.extra = out;
        assert(self@.extra =~= all_closed(d).extra);
    }

    /// Keep only the primary selection.
    pub fn drop_extra(&mut self)
        requires
            doc_ok(old(self)@),
        ensures
            final(self)@ == alone(old(self)@),
            doc_ok(final(self)@),
            true_to_edits(old(self)@) ==> true_to_edits(final(self)@),
    {
        self.extra = Vec::new();
        assert(self.extra@ =~= Seq::empty());
    }
}

pub open spec fn alone(d: DocView) -> DocView {
    DocView { extra: Seq::empty(), ..d }
}

/// The commands that select from where the cursors are.
pub open spec fn is_selecting(c: Command) -> bool {
    match c {
        Command::SelectWordNext | Command::SelectWordPrev | Command::SelectWordEnd
        | Command::SelectLine | Command::AddCursorBelow | Command::AddCursorAbove => true,
        _ => false,
    }
}

#[verifier::opaque]
pub open spec fn selected(d: DocView, c: Command, n: usize, extend: bool, tab: usize) -> DocView {
    match c {
        Command::SelectWordNext => word_next_selected(d, n, extend),
        Command::SelectWordPrev => word_prev_selected(d, n, extend),
        Command::SelectWordEnd => word_end_selected(d, n, extend),
        Command::SelectLine => line_selected(d, n, extend),
        Command::AddCursorBelow => cursors_added(d, true, n as nat, tab),
        Command::AddCursorAbove => cursors_added(d, false, n as nat, tab),
        _ => d,
    }
}

impl Document {
    /// Carry out a command that selects.
    pub fn select_by(&mut self, c: Command, n: usize, extend: bool, tab: usize)
        requires
            doc_ok(old(self)@),
        ensures
            final(self)@ == selected(old(self)@, c, n, extend, tab),
            doc_ok(final(self)@),
            true_to_edits(old(self)@) ==> true_to_edits(final(self)@),
    {
        reveal(line_selected);
        reveal(selected);
        let ghost d = self@;
        match c {
            Command::SelectWordNext => self.select_word_next(n, extend),
            Command::SelectWordPrev => self.select_word_prev(n, extend),
            Command::SelectWordEnd => self.select_word_end(n, extend),
            Command::SelectLine => self.select_line(n, extend),
            Command::AddCursorBelow => self.add_cursor(true, n, tab),
            Command::AddCursorAbove => self.add_cursor(false, n, tab),
            _ => {},
        }
        proof {
            lemma_cursors_added_rest(d, true, n as nat, tab);
            lemma_cursors_added_rest(d, false, n as nat, tab);
        }
    }
}

proof fn lemma_cursors_added_rest(d: DocView, down: bool, n: nat, tab: usize)
    ensures
        cursors_added(d, down, n, tab).text == d.text,
        cursors_added(d, down, n, tab).history == d.history,
        cursors_added(d, down, n, tab).redo_stack == d.redo_stack,
    decreases n,
{
    if n > 0 {
        if let Some(x) = cursor_added(d, down, tab) {
            lemma_cursors_added_rest(x, down, (n - 1) as nat, tab);
        }
    }
}

pub open spec fn selecting_run(e: EditorView, c: Command) -> EditorView {
    on_doc(
        selection_kept(count_taken(e)),
        selected(doc_of(e), c, count_of(e), e.keys.extend, e.options.tab_width),
    )
}

/// How many selections there are now, in words.
pub open spec fn selections_text(n: nat, exact: bool) -> Seq<char> {
    if exact && n == 1 {
        decimal(n) + " selection"@
    } else {
        decimal(n) + " selections"@
    }
}

pub fn say_selections(n: usize, exact: bool) -> (r: String)
    ensures
        r@ == selections_text(n as nat, exact),
{
    let mut v: Vec<char> = Vec::new();
    push_number(&mut v, n as u64);
    push_lit(
        &mut v,
        if exact && n == 1 {
            " selection"
        } else {
            " selections"
        },
    );
    assert(v@ =~= selections_text(n as nat, exact));
    string_of(&v)
}

pub open spec fn lines_split(e: EditorView) -> EditorView {
    let d = doc_of(e);
    let out = split_by_lines(d.text, selections_of(d), selections_of(d).len());
    if out.len() == 0 {
        selection_kept(said(e, "nothing selected to split"@))
    } else {
        said(
            selection_kept(on_doc(e, with_selections(d, out, 0))),
            selections_text(out.len(), false),
        )
    }
}

/// A search prompt made ready: whose it is, whether it selects every match,
/// and the selection to go back to.
pub open spec fn prompt_ready(
    e: EditorView,
    kind: Option<SelectPrompt>,
    all: bool,
    origin: (usize, usize),
) -> EditorView {
    EditorView {
        keys: KeysView {
            keep_selection: true,
            select_prompt: kind,
            search_select: all,
            search_origin: origin,
            ..e.keys
        },
        lines: LinesView { command_line: Seq::empty(), ..e.lines },
        ..e
    }
}

/// The prompt for a pattern that acts on the selections.
pub open spec fn select_prompted(e: EditorView, kind: SelectPrompt) -> EditorView {
    in_mode(
        prompt_ready(e, Some(kind), true, (doc_of(e).anchor, doc_of(e).cursor)),
        Mode::Search,
    )
}

pub open spec fn align_run(e: EditorView) -> EditorView {
    let k = selection_kept(e);
    match align_outcome(doc_of(e)) {
        Aligned::Alone => said(k, "align needs more than one selection"@),
        Aligned::Shared => said(k, "align needs one selection per line"@),
        Aligned::Done => on_doc(k, aligned(doc_of(e), e.options.tab_width)),
    }
}

pub open spec fn trim_run(e: EditorView) -> EditorView {
    let d = doc_of(e);
    selection_kept(on_doc(e, with_selections(d, all_trimmed(d.text, selections_of(d)), 0)))
}

pub open spec fn extend_toggled(e: EditorView) -> EditorView {
    let k = EditorView {
        keys: KeysView { keep_selection: true, extend: !e.keys.extend, ..e.keys },
        ..e
    };
    on_doc(
        k,
        if e.keys.extend {
            all_closed(doc_of(e))
        } else {
            all_opened(doc_of(e))
        },
    )
}

/// A rectangle of the character under the cursor.
#[verifier::opaque]
pub open spec fn block_begun(d: DocView, tab: usize) -> Block {
    let at = corner_of(DocView { goal_col: None, ..d }, tab);
    Block { origin: at, corner: at }
}

impl Document {
    pub fn begin_block(&self, tab: usize) -> (r: Block)
        ensures
            r == block_begun(self@, tab),
    {
        reveal(block_begun);
        let at = self.cursor_display(tab);
        Block { origin: at, corner: at }
    }

    pub(crate) fn start_block(&mut self, b: Block, tab: usize)
        requires
            doc_ok(old(self)@),
        ensures
            final(self)@ == block_started(old(self)@, b, tab),
            doc_ok(final(self)@),
            true_to_edits(old(self)@) ==> true_to_edits(final(self)@),
    {
        reveal(block_started);
        self.drop_extra();
        self.block_select(b, tab);
    }
}

#[verifier::opaque]
pub open spec fn block_started(d: DocView, b: Block, tab: usize) -> DocView {
    block_selected(alone(d), b, tab)
}

pub open spec fn block_marked(e: EditorView, b: Option<Block>) -> EditorView {
    EditorView {
        keys: KeysView {
            keep_selection: true,
            extend: e.keys.extend && b is None,
            block: b,
            ..e.keys
        },
        ..e
    }
}

/// A rectangle of one character begun at the cursor, or the rectangle ended.
pub open spec fn block_toggled(e: EditorView) -> EditorView {
    if e.keys.block is Some {
        block_marked(e, None)
    } else {
        let b = block_begun(doc_of(e), e.options.tab_width);
        on_doc(
            block_marked(e, Some(b)),
            block_started(doc_of(e), b, e.options.tab_width),
        )
    }
}

impl Editor {
    pub(crate) fn run_selecting(&mut self, c: Command)
        requires
            old(self).wf(),
        ensures
            final(self)@ == selecting_run(old(self)@, c),
            final(self).wf(),
    {
        let n = self.take_count();
        self.keep();
        let extend = self.keys.extend;
        let tab = self.options.tab_width;
        self.doc_mut().select_by(c, n, extend, tab);
    }

    /// One selection for each line of every selection.
    pub fn split_selection_lines(&mut self)
        requires
            old(self).wf(),
        ensures
            final(self)@ == lines_split(old(self)@),
            final(self).wf(),
    {
        let out = self.doc().split_lines();
        self.keep();
        if out.len() == 0 {
            self.set_status("nothing selected to split");
            return ;
        }
        let n = out.len();
        self.doc_mut().set_selections(out, 0);
        let text = say_selections(n, false);
        self.set_status(text.as_str());
    }

    pub(crate) fn prepare_prompt(
        &mut self,
        kind: Option<SelectPrompt>,
        all: bool,
        origin: (usize, usize),
    )
        requires
            old(self).wf(),
        ensures
            final(self)@ == prompt_ready(old(self)@, kind, all, origin),
            final(self).wf(),
    {
        self.keys.keep_selection = true;
        self.keys.select_prompt = kind;
        self.keys.search_select = all;
        self.keys.search_origin = origin;
        self.lines.command_line = String::new();
        assert(self.lines.command_line@ =~= Seq::empty());
    }

    /// Ask for a pattern that acts on the selections.
    pub fn open_select_prompt(&mut self, kind: SelectPrompt)
        requires
            old(self).wf(),
        ensures
            final(self)@ == select_prompted(old(self)@, kind),
            final(self).wf(),
    {
        let origin = (self.doc().anchor, self.doc().cursor);
        self.prepare_prompt(Some(kind), true, origin);
        self.set_mode(Mode::Search);
    }

    /// Pad the selections into one column.
    pub fn align_selections(&mut self)
        requires
            old(self).wf(),
        ensures
            final(self)@ == align_run(old(self)@),
            final(self).wf(),
    {
        self.keep();
        let tab = self.options.tab_width;
        proof {
            lemma_on_doc_same(self@);
        }
        let r = self.doc_mut().align_selections(tab);
        match r {
            Aligned::Alone => self.set_status("align needs more than one selection"),
            Aligned::Shared => self.set_status("align needs one selection per line"),
            Aligned::Done => {},
        }
    }

    /// Make the next selection in the text the primary one, or the one before.
    pub fn rotate_selections(&mut self, forward: bool)
        requires
            old(self).wf(),
        ensures
            final(self)@ == on_doc(selection_kept(old(self)@), rotated(doc_of(old(self)@), forward)),
            final(self).wf(),
    {
        self.keep();
        self.doc_mut().rotate_selections(forward);
    }

    /// Leave out the white space at the ends of every selection.
    pub fn trim_selections(&mut self)
        requires
            old(self).wf(),
        ensures
            final(self)@ == trim_run(old(self)@),
            final(self).wf(),
    {
        let out = self.doc().trim_all();
        self.doc_mut().set_selections(out, 0);
        self.keep();
    }

    pub(crate) fn toggle_extend(&mut self)
        requires
            old(self).wf(),
        ensures
            final(self)@ == extend_toggled(old(self)@),
            final(self).wf(),
    {
        let on = self.keys.extend;
        self.keep();
        self.set_extend(!on);
        if on {
            self.doc_mut().close_all();
        } else {
            self.doc_mut().open_all();
        }
    }

    fn mark_block(&mut self, b: Option<Block>)
        requires
            old(self).wf(),
        ensures
            final(self)@ == block_marked(old(self)@, b),
            final(self).wf(),
    {
        self.keys.keep_selection = true;
        self.keys.extend = self.keys.extend && b.is_none();
        self.keys.block = b;
    }

    /// Begin a rectangle at the cursor, or end it.
    pub fn toggle_block(&mut self)
        requires
            old(self).wf(),
        ensures
            final(self)@ == block_toggled(old(self)@),
            final(self).wf(),
    {
        if self.keys.block.is_some() {
            self.mark_block(None);
            return ;
        }
        let tab = self.options.tab_width;
        let b = self.doc().begin_block(tab);
        self.mark_block(Some(b));
        self.doc_mut().start_block(b, tab);
    }

    pub(crate) fn drop_extra_cursors(&mut self)
        requires
            old(self).wf(),
        ensures
            final(self)@ == on_doc(selection_kept(old(self)@), alone(doc_of(old(self)@))),
            final(self).wf(),
    {
        self.keep();
        self.doc_mut().drop_extra();
    }
}

} // verus!
