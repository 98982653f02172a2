//! The commands that edit, and those that change the mode.

use vstd::prelude::*;
use crate::commands::Command;
use crate::desk::doc_ok;
use crate::document::{
    clamped, cursor_line, line_end, line_len, min_int, placed, range_deleted, redone, true_to_edits,
    undone, DocView, Document,
};
use crate::editor::{
    asking, count_of, count_taken, doc_of, in_mode, on_doc, said, selection_kept, Editor,
    EditorView,
};
use crate::edits::{
    chars_deleted, cut, deleted_backward, deleted_forward, deletion, joined_lines, line_deletion,
    line_rest_deleted, newline_inserted, opened_above, opened_below, pasted, tab_inserted,
};
use crate::motions::{at_first_nonblank, line_selected, range_of, shown_cursor};
use crate::moves::{alone, prompt_ready};
use crate::position::{next_boundary, next_grapheme_boundary};
use crate::registers::{register_pushed, register_text};
use crate::search::{find_next, find_prev, matches_of, next_match, prev_match};
use crate::state::{Effect, EffectView, KeysView, LinesView, Mode};
use crate::strings::{decimal, push_lit, push_number, string_of, with_text};
use crate::text::rope_len;

verus! {

// ---- registers --------------------------------------------------------------------

/// Text captured: into the register, and from the unnamed one to the system
/// clipboard.
#[verifier::opaque]
pub open spec fn captured_in(e: EditorView, s: Seq<char>) -> EditorView {
    let r = EditorView { registers: register_pushed(e.registers, s), ..e };
    if e.registers.active is None {
        asking(r, EffectView::Clipboard(register_text(r.registers)))
    } else {
        r
    }
}

pub open spec fn unextended(e: EditorView) -> EditorView {
    EditorView { keys: KeysView { extend: false, ..e.keys }, ..e }
}

impl Editor {
    /// Add captured text to the register.
    pub(crate) fn push_register(&mut self, s: &str)
        requires
            old(self).wf(),
        ensures
            final(self)@ == captured_in(old(self)@, s@),
            final(self).wf(),
            final(self)@.desk == old(self)@.desk,
            final(self)@.keys == old(self)@.keys,
    {
        reveal(captured_in);
        let named = self.registers.active.is_some();
        self.registers.push(s);
        if !named {
            let text = self.registers.text();
            self.ask(Effect::Clipboard(text));
        }
    }
}

// ---- edits of the selection -------------------------------------------------------

pub open spec fn text_in(d: DocView, r: (usize, usize)) -> Seq<char> {
    d.text.subrange(r.0 as int, r.1 as int)
}

/// The selection, or so many characters, cut into the register.
pub open spec fn delete_run(e: EditorView) -> EditorView {
    let d = doc_of(e);
    let t = count_taken(e);
    let r = deletion(d, count_of(e));
    if r.0 >= r.1 {
        t
    } else {
        on_doc(unextended(captured_in(t, text_in(d, r))), cut(d, r.0, r.1))
    }
}

pub open spec fn change_run(e: EditorView) -> EditorView {
    let d = doc_of(e);
    let u = unextended(e);
    let r = range_of(d);
    in_mode(
        if r.0 < r.1 {
            on_doc(captured_in(u, text_in(d, r)), range_deleted(d, r.0, r.1))
        } else {
            u
        },
        Mode::Insert,
    )
}

#[verifier::opaque]
pub open spec fn copied_text(n: nat) -> Seq<char> {
    "copied "@ + decimal(n) + " chars"@
}

fn say_copied(n: usize) -> (r: String)
    ensures
        r@ == copied_text(n as nat),
{
    reveal(copied_text);
    let mut v: Vec<char> = Vec::new();
    push_lit(&mut v, "copied ");
    push_number(&mut v, n as u64);
    push_lit(&mut v, " chars");
    assert(v@ =~= copied_text(n as nat));
    string_of(&v)
}

pub open spec fn copy_run(e: EditorView) -> EditorView {
    let d = doc_of(e);
    let u = unextended(e);
    let r = range_of(d);
    if r.0 >= r.1 {
        u
    } else {
        said(
            on_doc(
                captured_in(u, text_in(d, r)),
                DocView { cursor: r.0, goal_col: None, ..d },
            ),
            copied_text((r.1 - r.0) as nat),
        )
    }
}

/// The lines from the cursor's on copied, with the cursor left where it was.
pub open spec fn copy_line_run(e: EditorView) -> EditorView {
    let d = doc_of(e);
    let l = copy_run(
        on_doc(
            selection_kept(count_taken(e)),
            line_selected(d, count_of(e), e.keys.extend),
        ),
    );
    let at = min_int(d.cursor as int, doc_of(l).text.len() as int) as usize;
    on_doc(l, DocView { cursor: at, anchor: at, ..doc_of(l) })
}

pub open spec fn delete_line_run(e: EditorView) -> EditorView {
    let d = doc_of(e);
    let t = count_taken(e);
    let r = line_deletion(d, count_of(e));
    if r.0 >= r.1 {
        t
    } else {
        on_doc(captured_in(t, text_in(d, r)), cut(d, r.0, r.1))
    }
}

pub open spec fn paste_run(e: EditorView, after: bool) -> EditorView {
    let reg = register_text(e.registers);
    if reg.len() == 0 {
        e
    } else {
        on_doc(e, pasted(doc_of(e), reg, after))
    }
}

impl Editor {
    pub(crate) fn delete_selection(&mut self)
        requires
            old(self).wf(),
        ensures
            final(self)@ == delete_run(old(self)@),
            final(self).wf(),
    {
        let n = self.take_count();
        let (from, to) = self.doc().deletion(n);
        if from >= to {
            return ;
        }
        let text = self.doc().text_of(from, to);
        self.push_register(text.as_str());
        self.set_extend(false);
        self.doc_mut().cut(from, to);
    }

    pub(crate) fn change_selection(&mut self)
        requires
            old(self).wf(),
        ensures
            final(self)@ == change_run(old(self)@),
            final(self).wf(),
    {
        self.set_extend(false);
        let (from, to) = self.doc().selection_range();
        if from < to {
            let text = self.doc().text_of(from, to);
            self.push_register(text.as_str());
            self.doc_mut().delete_range(from, to);
        }
        self.set_mode(Mode::Insert);
    }

    pub(crate) fn copy_selection(&mut self)
        requires
            old(self).wf(),
        ensures
            final(self)@ == copy_run(old(self)@),
            final(self).wf(),
    {
        self.set_extend(false);
        let (from, to) = self.doc().selection_range();
        if from >= to {
            return ;
        }
        let text = self.doc().text_of(from, to);
        self.push_register(text.as_str());
        self.doc_mut().put_cursor(from);
        let msg = say_copied(to - from);
        self.set_status(msg.as_str());
    }

    pub(crate) fn copy_line(&mut self)
        requires
            old(self).wf(),
        ensures
            final(self)@ == copy_line_run(old(self)@),
            final(self).wf(),
    {
        let at = self.doc().cursor;
        let n = self.take_count();
        self.keep();
        let extend = self.keys.extend;
        self.doc_mut().select_lines(n, extend);
        self.copy_selection();
        self.doc_mut().put_bare(at);
    }

    pub(crate) fn delete_line(&mut self)
        requires
            old(self).wf(),
        ensures
            final(self)@ == delete_line_run(old(self)@),
            final(self).wf(),
    {
        let n = self.take_count();
        let (from, to) = self.doc().line_deletion(n);
        if from >= to {
            return ;
        }
        let text = self.doc().text_of(from, to);
        self.push_register(text.as_str());
        self.doc_mut().cut(from, to);
    }

    pub(crate) fn paste(&mut self, after: bool)
        requires
            old(self).wf(),
        ensures
            final(self)@ == paste_run(old(self)@, after),
            final(self).wf(),
    {
        let reg = self.registers.text();
        if reg.as_str().is_empty() {
            return ;
        }
        self.doc_mut().paste(reg.as_str(), after);
    }
}

impl Document {
    pub(crate) fn put_cursor(&mut self, at: usize)
        requires
            doc_ok(old(self)@),
            at <= old(self)@.text.len(),
        ensures
            final(self)@ == (DocView { cursor: at, goal_col: None, ..old(self)@ }),
            doc_ok(final(self)@),
            true_to_edits(old(self)@) ==> true_to_edits(final(self)@),
    {
        self.cursor = at;
        self.goal_col = None;
    }

    /// A bare cursor at a place, or at the end where that lies behind it.
    pub(crate) fn put_bare(&mut self, at: usize)
        requires
            doc_ok(old(self)@),
        ensures
            final(self)@ == ({
                let p = min_int(at as int, old(self)@.text.len() as int) as usize;
                DocView { cursor: p, anchor: p, ..old(self)@ }
            }),
            doc_ok(final(self)@),
            true_to_edits(old(self)@) ==> true_to_edits(final(self)@),
    {
        let len = rope_len(&self.text);
        let p = if at <= len {
            at
        } else {
            len
        };
        self.cursor = p;
        self.anchor = p;
    }

    fn select_lines(&mut self, n: usize, extend: bool)
        requires
            doc_ok(old(self)@),
        ensures
            final(self)@ == line_selected(old(self)@, n, extend),
            doc_ok(final(self)@),
    {
        reveal(line_selected);
        self.select_line(n, extend);
    }
}

// ---- other edits ------------------------------------------------------------------

/// The commands that edit at the cursor and do nothing else.
pub open spec fn is_plain_edit(c: Command) -> bool {
    match c {
        Command::DeleteToLineEnd | Command::JoinLines | Command::InsertNewline
        | Command::InsertTab | Command::DeleteBackward | Command::DeleteForward => true,
        _ => false,
    }
}

#[verifier::opaque]
pub open spec fn plain_edited(d: DocView, c: Command, tab: usize, autoclose: bool) -> DocView {
    match c {
        Command::DeleteToLineEnd => line_rest_deleted(d),
        Command::JoinLines => joined_lines(d),
        Command::InsertNewline => newline_inserted(d, tab),
        Command::InsertTab => tab_inserted(d, tab),
        Command::DeleteBackward => deleted_backward(d, autoclose),
        Command::DeleteForward => deleted_forward(d),
        _ => d,
    }
}

impl Document {
    pub fn edit_by(&mut self, c: Command, tab: usize, autoclose: bool)
        requires
            doc_ok(old(self)@),
        ensures
            final(self)@ == plain_edited(old(self)@, c, tab, autoclose),
            doc_ok(final(self)@),
            true_to_edits(old(self)@) ==> true_to_edits(final(self)@),
    {
        reveal(plain_edited);
        match c {
            Command::DeleteToLineEnd => self.delete_to_line_end(),
            Command::JoinLines => self.join_lines(),
            Command::InsertNewline => self.insert_newline(tab),
            Command::InsertTab => self.insert_tab(tab),
            Command::DeleteBackward => self.delete_backward(autoclose),
            Command::DeleteForward => self.delete_forward(),
            _ => {},
        }
    }
}

pub open spec fn plain_edit_run(e: EditorView, c: Command) -> EditorView {
    on_doc(e, plain_edited(doc_of(e), c, e.options.tab_width, e.options.autoclose))
}

pub open spec fn delete_char_run(e: EditorView) -> EditorView {
    on_doc(count_taken(e), chars_deleted(doc_of(e), count_of(e)))
}

/// A document one change back, the cursor on a character.
#[verifier::opaque]
pub open spec fn stepped_undo(d: DocView, redo: bool) -> DocView {
    let u = if redo {
        redone(d)
    } else {
        undone(d)
    };
    DocView { cursor: clamped(u.text, u.cursor as int, false) as usize, ..u }
}

pub open spec fn undo_run(e: EditorView, redo: bool) -> EditorView {
    let d = doc_of(e);
    let none = if redo {
        d.redo_stack.len() == 0
    } else {
        d.history.len() == 0
    };
    let u = on_doc(e, stepped_undo(d, redo));
    if none {
        said(
            u,
            if redo {
                "Already at newest change"@
            } else {
                "Already at oldest change"@
            },
        )
    } else {
        u
    }
}

impl Document {
    fn step_undo(&mut self, redo: bool) -> (done: bool)
        requires
            doc_ok(old(self)@),
        ensures
            done == (if redo {
                old(self)@.redo_stack.len() > 0
            } else {
                old(self)@.history.len() > 0
            }),
            final(self)@ == stepped_undo(old(self)@, redo),
            doc_ok(final(self)@),
    {
        reveal(stepped_undo);
        let done = if redo {
            self.redo()
        } else {
            self.undo()
        };
        self.clamp_cursor(false);
        done
    }
}

impl Editor {
    pub(crate) fn run_plain_edit(&mut self, c: Command)
        requires
            old(self).wf(),
        ensures
            final(self)@ == plain_edit_run(old(self)@, c),
            final(self).wf(),
    {
        let tab = self.options.tab_width;
        let autoclose = self.options.autoclose;
        self.doc_mut().edit_by(c, tab, autoclose);
    }

    pub(crate) fn delete_char(&mut self)
        requires
            old(self).wf(),
        ensures
            final(self)@ == delete_char_run(old(self)@),
            final(self).wf(),
    {
        let n = self.take_count();
        self.doc_mut().delete_chars(n);
    }

    pub(crate) fn undo_or_redo(&mut self, redo: bool)
        requires
            old(self).wf(),
        ensures
            final(self)@ == undo_run(old(self)@, redo),
            final(self).wf(),
    {
        let done = self.doc_mut().step_undo(redo);
        if !done {
            self.set_status(
                if redo {
                    "Already at newest change"
                } else {
                    "Already at oldest change"
                },
            );
        }
    }
}

// ---- entering insert mode ---------------------------------------------------------

/// The commands that lead to insert mode.
pub open spec fn is_entering(c: Command) -> bool {
    match c {
        Command::InsertMode | Command::InsertAtLineStart | Command::Append
        | Command::AppendAtLineEnd | Command::OpenBelow | Command::OpenAbove => true,
        _ => false,
    }
}

/// The document as insert mode is entered.
#[verifier::opaque]
pub open spec fn entered(d: DocView, c: Command) -> DocView {
    let line = cursor_line(d.text, d.cursor as int);
    match c {
        Command::InsertAtLineStart => at_first_nonblank(d),
        Command::Append => DocView {
            cursor: clamped(
                d.text,
                if line_len(d.text, line) > 0 {
                    next_boundary(d.text, d.cursor as int)
                } else {
                    d.cursor as int
                },
                true,
            ) as usize,
            ..d
        },
        Command::AppendAtLineEnd => DocView { cursor: line_end(d.text, line) as usize, ..d },
        Command::OpenBelow => opened_below(d),
        Command::OpenAbove => opened_above(d),
        _ => d,
    }
}

impl Document {
    fn enter_by(&mut self, c: Command)
        requires
            doc_ok(old(self)@),
        ensures
            final(self)@ == entered(old(self)@, c),
            doc_ok(final(self)@),
    {
        reveal(entered);
        match c {
            Command::InsertAtLineStart => self.move_line_first_nonblank(),
            Command::Append => {
                let line = self.cursor_line();
                if self.line_len(line) > 0 {
                    self.cursor = next_grapheme_boundary(&self.text, self.cursor);
                }
                self.clamp_cursor(true);
            },
            Command::AppendAtLineEnd => {
                let line = self.cursor_line();
                self.cursor = self.line_end(line);
            },
            Command::OpenBelow => self.open_below(),
            Command::OpenAbove => self.open_above(),
            _ => {},
        }
    }
}

pub open spec fn entering_run(e: EditorView, c: Command) -> EditorView {
    let m = in_mode(e, Mode::Insert);
    on_doc(m, entered(doc_of(m), c))
}

/// Back in normal mode. Where it is already, only one bare cursor stays, and a
/// selection being stretched leaves it where it is shown.
pub open spec fn normal_run(e: EditorView) -> EditorView {
    let d = doc_of(e);
    let a = if e.keys.mode == Mode::Normal {
        if e.keys.extend {
            on_doc(e, DocView { cursor: shown_cursor(d, true) as usize, ..alone(d) })
        } else {
            on_doc(e, alone(d))
        }
    } else {
        e
    };
    in_mode(unextended(a), Mode::Normal)
}

pub open spec fn command_line_opened(e: EditorView) -> EditorView {
    in_mode(
        EditorView { lines: LinesView { command_line: Seq::empty(), ..e.lines }, ..e },
        Mode::Command,
    )
}

impl Editor {
    pub(crate) fn run_entering(&mut self, c: Command)
        requires
            old(self).wf(),
        ensures
            final(self)@ == entering_run(old(self)@, c),
            final(self).wf(),
    {
        self.set_mode(Mode::Insert);
        self.doc_mut().enter_by(c);
    }

    pub(crate) fn normal_mode(&mut self)
        requires
            old(self).wf(),
        ensures
            final(self)@ == normal_run(old(self)@),
            final(self).wf(),
    {
        if self.keys.mode == Mode::Normal {
            let extend = self.keys.extend;
            self.doc_mut().dismiss(extend);
        }
        self.set_extend(false);
        self.set_mode(Mode::Normal);
    }

    pub(crate) fn command_mode(&mut self)
        requires
            old(self).wf(),
        ensures
            final(self)@ == command_line_opened(old(self)@),
            final(self).wf(),
    {
        let blank = String::new();
        assert(blank@ =~= Seq::empty());
        self.set_line(blank);
        self.set_mode(Mode::Command);
    }
}

impl Document {
    fn dismiss(&mut self, extend: bool)
        requires
            doc_ok(old(self)@),
        ensures
            final(self)@ == (if extend {
                DocView { cursor: shown_cursor(old(self)@, true) as usize, ..alone(old(self)@) }
            } else {
                alone(old(self)@)
            }),
            doc_ok(final(self)@),
    {
        let ghost d = self@;
        if extend {
            let at = self.shown_cursor(true);
            self.cursor = at;
            assert(self@.extra == d.extra);
            assert(placed(self@));
            self.drop_extra();
            return ;
        }
        self.drop_extra();
    }
}

// ---- searching --------------------------------------------------------------------

/// The prompt for a search; with `all`, for every match.
pub open spec fn search_prompted(e: EditorView, all: bool) -> EditorView {
    in_mode(
        prompt_ready(e, e.keys.select_prompt, all, (doc_of(e).anchor, doc_of(e).cursor)),
        Mode::Search,
    )
}

/// The match that a step of the search goes to.
#[verifier::opaque]
pub open spec fn match_stepped(d: DocView, pattern: Seq<char>, forward: bool) -> Option<(usize, usize)> {
    let all = matches_of(d.text, pattern);
    if forward {
        next_match(all, d.cursor)
    } else {
        prev_match(all, min_int(d.anchor as int, d.cursor as int) as usize)
    }
}

pub open spec fn search_stepped(e: EditorView, forward: bool) -> EditorView {
    let d = doc_of(e);
    if e.lines.last_search.len() == 0 {
        said(e, "no previous search"@)
    } else {
        let k = selection_kept(e);
        match match_stepped(d, e.lines.last_search, forward) {
            Some((p, q)) => on_doc(k, DocView { anchor: p, cursor: q, goal_col: None, ..d }),
            None => said(k, "no match: "@ + e.lines.last_search),
        }
    }
}

impl Document {
    pub(crate) fn step_match(&self, pattern: &str, forward: bool) -> (r: Option<(usize, usize)>)
        requires
            doc_ok(self@),
        ensures
            r == match_stepped(self@, pattern@, forward),
            r matches Some((p, q)) ==> p <= q <= self@.text.len(),
    {
        reveal(match_stepped);
        let all = crate::search::matches(&self.text, pattern);
        if forward {
            find_next(&all, self.cursor)
        } else {
            let before = if self.anchor <= self.cursor {
                self.anchor
            } else {
                self.cursor
            };
            find_prev(&all, before)
        }
    }

    /// Select a range that lies in the text.
    pub(crate) fn select_range(&mut self, p: usize, q: usize)
        requires
            doc_ok(old(self)@),
            p <= old(self)@.text.len(),
            q <= old(self)@.text.len(),
        ensures
            final(self)@ == (DocView { anchor: p, cursor: q, goal_col: None, ..old(self)@ }),
            doc_ok(final(self)@),
            true_to_edits(old(self)@) ==> true_to_edits(final(self)@),
    {
        self.anchor = p;
        self.cursor = q;
        self.goal_col = None;
    }
}

impl Editor {
    pub(crate) fn open_search_prompt(&mut self, all: bool)
        requires
            old(self).wf(),
        ensures
            final(self)@ == search_prompted(old(self)@, all),
            final(self).wf(),
    {
        let origin = (self.doc().anchor, self.doc().cursor);
        let kind = self.keys.select_prompt;
        self.prepare_prompt(kind, all, origin);
        self.set_mode(Mode::Search);
    }

    pub(crate) fn search_step(&mut self, forward: bool)
        requires
            old(self).wf(),
        ensures
            final(self)@ == search_stepped(old(self)@, forward),
            final(self).wf(),
    {
        if self.lines.last_search.as_str().is_empty() {
            self.set_status("no previous search");
            return ;
        }
        self.keep();
        let hit = self.doc().step_match(self.lines.last_search.as_str(), forward);
        if let Some((p, q)) = hit {
            self.doc_mut().select_range(p, q);
            return ;
        }
        let msg = with_text("no match: ", self.lines.last_search.as_str());
        self.set_status(msg.as_str());
    }
}

} // verus!
