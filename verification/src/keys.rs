//! One key: what takes it, what it begins, and the command that it ends in.

use vstd::prelude::*;
use crate::commands::Command;
use crate::desk::doc_ok;
use crate::dispatch::ran;
use crate::document::{committed, deduped, true_to_edits, DocView, Document};
use crate::editor::{doc_of, on_doc, Editor, EditorView};
use crate::motions::collapsed;
use crate::moves::is_motion;
use crate::registers::RegistersView;
use crate::selections::{block_ended, block_selected, corner_of, on_corner, Block, BlockEnd};
use crate::state::{KeysView, Mode};
use crate::waits::last_ran;

verus! {

// ---- a command at every cursor ----------------------------------------------------

/// The commands that run once for each cursor.
pub open spec fn runs_at_each(c: Command) -> bool {
    match c {
        Command::MoveLeft | Command::MoveRight | Command::MoveUp | Command::MoveDown
        | Command::MoveLineStart | Command::MoveLineFirstNonblank | Command::MoveLineEnd
        | Command::GotoFileStart | Command::GotoFileEnd | Command::SelectWordNext
        | Command::SelectWordPrev | Command::SelectWordEnd | Command::SelectLine
        | Command::ExpandSelection | Command::DeleteSelection | Command::ChangeSelection
        | Command::Copy | Command::PasteAfter | Command::PasteBefore | Command::DeleteBackward
        | Command::DeleteForward | Command::InsertAtLineStart | Command::Append
        | Command::AppendAtLineEnd => true,
        _ => false,
    }
}

pub fn per_cursor(c: Command) -> (r: bool)
    ensures
        r == runs_at_each(c),
{
    match c {
        Command::MoveLeft | Command::MoveRight | Command::MoveUp | Command::MoveDown
        | Command::MoveLineStart | Command::MoveLineFirstNonblank | Command::MoveLineEnd
        | Command::GotoFileStart | Command::GotoFileEnd | Command::SelectWordNext
        | Command::SelectWordPrev | Command::SelectWordEnd | Command::SelectLine
        | Command::ExpandSelection | Command::DeleteSelection | Command::ChangeSelection
        | Command::Copy | Command::PasteAfter | Command::PasteBefore | Command::DeleteBackward
        | Command::DeleteForward | Command::InsertAtLineStart | Command::Append
        | Command::AppendAtLineEnd => true,
        _ => false,
    }
}

/// The `i`th other selection and the primary one in each other's place.
#[verifier::opaque]
pub open spec fn traded(d: DocView, i: int) -> DocView {
    if 0 <= i < d.extra.len() {
        DocView {
            anchor: d.extra[i].0,
            cursor: d.extra[i].1,
            extra: d.extra.update(i, (d.anchor, d.cursor)),
            ..d
        }
    } else {
        d
    }
}

impl Document {
    fn trade(&mut self, i: usize)
        requires
            doc_ok(old(self)@),
        ensures
            final(self)@ == traded(old(self)@, i as int),
            doc_ok(final(self)@),
    {
        reveal(traded);
        let ghost d = self@;
        if i < self.extra.len() {
            let other = self.extra[i];
            let mine = (self.anchor, self.cursor);
            assert(d.extra[i as int] == other);
            self.extra.set(i, mine);
            self.anchor = other.0;
            self.cursor = other.1;
            assert(self@.extra == d.extra.update(i as int, mine));
            assert forall|k: int| 0 <= k < self@.extra.len() implies (#[trigger] self@.extra[k]).0
                <= self@.text.len() && self@.extra[k].1 <= self@.text.len() by {
                if k != i {
                    assert(self@.extra[k] == d.extra[k]);
                }
            }
        }
    }
}

pub open spec fn counted(e: EditorView, count: Option<usize>) -> EditorView {
    EditorView { keys: KeysView { count, ..e.keys }, ..e }
}

/// A command run in the place of the `i`th other selection.
#[verifier::opaque]
pub open spec fn ran_at(e: EditorView, c: Command, count: Option<usize>, i: int) -> EditorView {
    let t = on_doc(e, traded(doc_of(e), i));
    let r = ran(counted(t, count), c);
    on_doc(r, traded(doc_of(r), i))
}

/// A command run at the other selections from the `i`th to the `n`th.
pub open spec fn ran_from(
    e: EditorView,
    c: Command,
    count: Option<usize>,
    i: int,
    n: int,
) -> EditorView
    decreases n - i,
{
    if i >= n {
        e
    } else {
        ran_from(ran_at(e, c, count, i), c, count, i + 1, n)
    }
}

/// A command run at every selection, the primary one last.
#[verifier::opaque]
pub open spec fn ran_at_each(e: EditorView, c: Command) -> EditorView {
    let count = e.keys.count;
    ran(counted(ran_from(e, c, count, 0, doc_of(e).extra.len() as int), count), c)
}

impl Editor {
    fn trade(&mut self, i: usize)
        requires
            old(self).wf(),
        ensures
            final(self)@ == on_doc(old(self)@, traded(doc_of(old(self)@), i as int)),
            final(self).wf(),
    {
        self.doc_mut().trade(i);
    }

    fn run_at(&mut self, c: Command, count: Option<usize>, i: usize)
        requires
            old(self).wf(),
        ensures
            final(self)@ == ran_at(old(self)@, c, count, i as int),
            final(self).wf(),
    {
        reveal(ran_at);
        self.trade(i);
        self.set_count(count);
        self.run_once(c);
        self.trade(i);
    }

    fn extra_count(&self) -> (n: usize)
        requires
            self.wf(),
        ensures
            n == doc_of(self@).extra.len(),
    {
        self.doc().extra.len()
    }

    /// Run a command once for each selection.
    pub(crate) fn dispatch_per_cursor(&mut self, c: Command)
        requires
            old(self).wf(),
        ensures
            final(self)@ == ran_at_each(old(self)@, c),
            final(self).wf(),
    {
        reveal(ran_at_each);
        let count = self.keys.count;
        let n = self.extra_count();
        let ghost e = self@;
        let mut i: usize = 0;
        while i < n
            invariant
                i <= n,
                self.wf(),
                ran_from(self@, c, count, i as int, n as int) == ran_from(
                    e,
                    c,
                    count,
                    0,
                    n as int,
                ),
            decreases n - i,
        {
            self.run_at(c, count, i);
            i += 1;
        }
        self.set_count(count);
        self.run_once(c);
    }
}

// ---- rectangles -------------------------------------------------------------------

pub open spec fn block_end_of(c: Command) -> BlockEnd {
    match c {
        Command::InsertMode => BlockEnd::Insert,
        Command::Append => BlockEnd::Append,
        Command::DeleteSelection | Command::ChangeSelection => BlockEnd::Cut,
        _ => BlockEnd::Other,
    }
}

fn ends_block(c: Command) -> (r: BlockEnd)
    ensures
        r == block_end_of(c),
{
    match c {
        Command::InsertMode => BlockEnd::Insert,
        Command::Append => BlockEnd::Append,
        Command::DeleteSelection | Command::ChangeSelection => BlockEnd::Cut,
        _ => BlockEnd::Other,
    }
}

fn moves(c: Command) -> (r: bool)
    ensures
        r == is_motion(c),
{
    match c {
        Command::MoveLeft | Command::MoveRight | Command::MoveUp | Command::MoveDown
        | Command::MoveLineStart | Command::MoveLineFirstNonblank | Command::MoveLineEnd
        | Command::GotoFileStart | Command::GotoFileEnd | Command::GotoMatchingBracket
        | Command::HalfPageDown | Command::HalfPageUp | Command::PageDown | Command::PageUp => true,
        _ => false,
    }
}

pub open spec fn stretches(e: EditorView, c: Command) -> bool {
    e.keys.block is Some && is_motion(c)
}

#[verifier::opaque]
pub open spec fn corner_taken(d: DocView, corner: (usize, usize), tab: usize) -> DocView {
    on_corner(d, corner, tab)
}

#[verifier::opaque]
pub open spec fn block_left(d: DocView, end: BlockEnd) -> DocView {
    block_ended(d, end)
}

#[verifier::opaque]
pub open spec fn block_now(d: DocView, b: Block, tab: usize) -> Block {
    Block { origin: b.origin, corner: corner_of(d, tab) }
}

#[verifier::opaque]
pub open spec fn block_drawn(d: DocView, b: Block, tab: usize) -> DocView {
    block_selected(d, b, tab)
}

impl Document {
    fn take_corner(&mut self, corner: (usize, usize), tab: usize)
        requires
            doc_ok(old(self)@),
        ensures
            final(self)@ == corner_taken(old(self)@, corner, tab),
            doc_ok(final(self)@),
    {
        reveal(corner_taken);
        self.go_to_corner(corner, tab);
    }

    fn leave_block(&mut self, end: BlockEnd)
        requires
            doc_ok(old(self)@),
        ensures
            final(self)@ == block_left(old(self)@, end),
            doc_ok(final(self)@),
    {
        reveal(block_left);
        self.end_block(end);
    }

    fn block_here(&self, b: Block, tab: usize) -> (r: Block)
        ensures
            r == block_now(self@, b, tab),
    {
        reveal(block_now);
        let corner = self.corner(tab);
        Block { origin: b.origin, corner }
    }

    fn draw_block(&mut self, b: Block, tab: usize)
        requires
            doc_ok(old(self)@),
        ensures
            final(self)@ == block_drawn(old(self)@, b, tab),
            doc_ok(final(self)@),
    {
        reveal(block_drawn);
        self.block_select(b, tab);
    }
}

pub open spec fn with_block(e: EditorView, b: Option<Block>) -> EditorView {
    EditorView { keys: KeysView { block: b, ..e.keys }, ..e }
}

/// The rectangle before a command: a motion moves its corner, alone; any other
/// runs on the selections that it left.
#[verifier::opaque]
pub open spec fn block_before(e: EditorView, c: Command) -> EditorView {
    match e.keys.block {
        Some(b) => if is_motion(c) {
            on_doc(e, corner_taken(doc_of(e), b.corner, e.options.tab_width))
        } else if c == Command::BlockMode {
            e
        } else {
            let n = with_block(e, None);
            on_doc(n, block_left(doc_of(n), block_end_of(c)))
        },
        None => e,
    }
}

/// The rectangle after a motion: to where the corner is now.
#[verifier::opaque]
pub open spec fn block_after(e: EditorView) -> EditorView {
    match e.keys.block {
        Some(b) => {
            let now = block_now(doc_of(e), b, e.options.tab_width);
            let w = with_block(e, Some(now));
            EditorView {
                keys: KeysView { keep_selection: true, ..w.keys },
                ..on_doc(w, block_drawn(doc_of(w), now, e.options.tab_width))
            }
        },
        None => e,
    }
}

impl Editor {
    fn before_command(&mut self, c: Command)
        requires
            old(self).wf(),
        ensures
            final(self)@ == block_before(old(self)@, c),
            final(self).wf(),
    {
        reveal(block_before);
        let tab = self.options.tab_width;
        if let Some(b) = self.keys.block {
            if moves(c) {
                self.doc_mut().take_corner(b.corner, tab);
                return ;
            }
            if c == Command::BlockMode {
                return ;
            }
            self.set_block(None);
            self.doc_mut().leave_block(ends_block(c));
            return ;
        }
    }

    fn front_block(&self, b: Block) -> (r: Block)
        requires
            self.wf(),
        ensures
            r == block_now(doc_of(self@), b, self@.options.tab_width),
    {
        self.doc().block_here(b, self.options.tab_width)
    }

    fn after_motion(&mut self)
        requires
            old(self).wf(),
        ensures
            final(self)@ == block_after(old(self)@),
            final(self).wf(),
    {
        reveal(block_after);
        let tab = self.options.tab_width;
        if let Some(b) = self.keys.block {
            let now = self.front_block(b);
            self.set_block(Some(now));
            self.doc_mut().draw_block(now, tab);
            self.keep();
            return ;
        }
    }
}

// ---- a command in its place -------------------------------------------------------

/// What every command begins with: nothing half typed, no selection to keep,
/// a fresh register.
pub open spec fn command_begun(e: EditorView) -> EditorView {
    EditorView {
        keys: KeysView { pending: Seq::empty(), keep_selection: false, ..e.keys },
        registers: RegistersView { fresh: true, ..e.registers },
        ..e
    }
}

#[verifier::opaque]
pub open spec fn ran_where(e: EditorView, c: Command) -> EditorView {
    if doc_of(e).extra.len() > 0 && runs_at_each(c) {
        ran_at_each(e, c)
    } else {
        ran(e, c)
    }
}

#[verifier::opaque]
pub open spec fn settled(d: DocView, collapse: bool) -> DocView {
    deduped(
        if collapse {
            collapsed(d)
        } else {
            d
        },
    )
}

#[verifier::opaque]
pub open spec fn step_closed(d: DocView) -> DocView {
    committed(d)
}

impl Document {
    fn settle(&mut self, collapse: bool)
        requires
            doc_ok(old(self)@),
        ensures
            final(self)@ == settled(old(self)@, collapse),
            doc_ok(final(self)@),
    {
        reveal(settled);
        if collapse {
            self.collapse();
            assert(crate::document::doc_wf(self@));
        }
        self.dedupe_cursors();
    }

    pub(crate) fn close_step(&mut self)
        requires
            doc_ok(old(self)@),
        ensures
            final(self)@ == step_closed(old(self)@),
            doc_ok(final(self)@),
            true_to_edits(old(self)@) ==> true_to_edits(final(self)@),
    {
        reveal(step_closed);
        let ghost d = self@;
        self.commit_undo_group();
        assert(self@.extra == d.extra);
    }
}

/// Whether the selection goes once a command is over.
pub open spec fn collapses(e: EditorView) -> bool {
    !e.keys.keep_selection && !(e.keys.extend && e.keys.mode == Mode::Normal)
}

pub open spec fn prefixes_dropped(e: EditorView) -> EditorView {
    EditorView {
        keys: KeysView { count: None, ..e.keys },
        registers: RegistersView { active: None, ..e.registers },
        ..e
    }
}

/// What every command ends with.
#[verifier::opaque]
pub open spec fn command_over(e: EditorView, c: Command, stretching: bool) -> EditorView {
    let l = last_ran(e, c);
    let s = on_doc(l, settled(doc_of(l), collapses(l)));
    let b = if stretching {
        block_after(s)
    } else {
        s
    };
    prefixes_dropped(
        if b.keys.mode == Mode::Normal {
            on_doc(b, step_closed(doc_of(b)))
        } else {
            b
        },
    )
}

/// A bound command run in its place.
#[verifier::opaque]
pub open spec fn dispatched(e: EditorView, c: Command) -> EditorView {
    let b = command_begun(e);
    command_over(ran_where(block_before(b, c), c), c, stretches(b, c))
}

impl Editor {
    fn begin_command(&mut self)
        requires
            old(self).wf(),
        ensures
            final(self)@ == command_begun(old(self)@),
            final(self).wf(),
    {
        self.keys.pending = Vec::new();
        assert(self.keys.pending@ =~= Seq::empty());
        self.keys.keep_selection = false;
        self.registers.fresh = true;
    }

    fn run_where(&mut self, c: Command)
        requires
            old(self).wf(),
        ensures
            final(self)@ == ran_where(old(self)@, c),
            final(self).wf(),
    {
        reveal(ran_where);
        if per_cursor(c) && self.extra_count() > 0 {
            self.dispatch_per_cursor(c);
            return ;
        }
        self.run_once(c);
    }

    pub(crate) fn drop_prefixes(&mut self)
        requires
            old(self).wf(),
        ensures
            final(self)@ == prefixes_dropped(old(self)@),
            final(self).wf(),
    {
        self.keys.count = None;
        self.registers.active = None;
    }

    fn close_undo_step(&mut self)
        requires
            old(self).wf(),
        ensures
            final(self)@ == (if old(self)@.keys.mode == Mode::Normal {
                on_doc(old(self)@, step_closed(doc_of(old(self)@)))
            } else {
                old(self)@
            }),
            final(self).wf(),
    {
        if self.keys.mode == Mode::Normal {
            self.doc_mut().close_step();
        }
    }

    fn settle_selections(&mut self)
        requires
            old(self).wf(),
        ensures
            final(self)@ == on_doc(
                old(self)@,
                settled(doc_of(old(self)@), collapses(old(self)@)),
            ),
            final(self).wf(),
    {
        let collapse = !self.keys.keep_selection && !(self.keys.extend && self.keys.mode
            == Mode::Normal);
        self.doc_mut().settle(collapse);
    }

    pub(crate) fn end_command(&mut self, c: Command, stretching: bool)
        requires
            old(self).wf(),
        ensures
            final(self)@ == command_over(old(self)@, c, stretching),
            final(self).wf(),
    {
        reveal(command_over);
        self.set_last_command(c);
        self.settle_selections();
        if stretching {
            self.after_motion();
        }
        self.close_undo_step();
        self.drop_prefixes();
    }

    /// Run a bound command in its place.
    pub fn dispatch(&mut self, c: Command)
        requires
            old(self).wf(),
        ensures
            final(self)@ == dispatched(old(self)@, c),
            final(self).wf(),
    {
        reveal(dispatched);
        self.begin_command();
        let stretching = self.keys.block.is_some() && moves(c);
        self.before_command(c);
        self.run_where(c);
        self.end_command(c, stretching);
    }
}

} // verus!
