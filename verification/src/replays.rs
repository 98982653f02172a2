//! Keys and pasted text as they are recorded, and playing them back.

use vstd::prelude::*;
use crate::commands::Command;
use crate::desk::doc_ok;
use crate::document::{committed, inserted, min_int, placed, DocView, Document};
use crate::editor::{
    asking, doc_of, on_doc, terminal_focused_in, Editor, EditorView,
};
use crate::edits::spliced;
use crate::input::keyed;
use crate::keymap::Key;
use crate::keys::command_over;
use crate::motions::max_of;
use crate::position::{ceil_boundary, floor_boundary, grapheme_ceil, grapheme_floor, prev_boundary, prev_grapheme_boundary};
use crate::prompts::{previewed, with_line};
use crate::repeat::{
    finished, pass_ended, recorded, replaying, stepped, Input, InputView, Rest, Step, StepView,
};
use crate::state::{Effect, EffectView, Mode};
use crate::strings::{chars_of, lines, lines_of, push_all, replace_all, replaced_from, string_of};
use crate::suggest::with_suggest;
use crate::text::rope_len;
use crate::typing::completed;
use crate::waits::last_ran;

verus! {

// ---- pasted text ------------------------------------------------------------------

/// Text with every line ended by a newline.
#[verifier::opaque]
pub open spec fn with_newlines(s: Seq<char>) -> Seq<char> {
    replaced_from(replaced_from(s, seq!['\r', '\n'], seq!['\n'], 0), seq!['\r'], seq!['\n'], 0)
}

fn fix_newlines(text: &str) -> (r: String)
    ensures
        r@ == with_newlines(text@),
{
    reveal(with_newlines);
    let v = chars_of(text);
    let crlf: [char; 2] = ['\r', '\n'];
    let cr: [char; 1] = ['\r'];
    let lf: [char; 1] = ['\n'];
    assert(crlf@ =~= seq!['\r', '\n']);
    assert(cr@ =~= seq!['\r']);
    assert(lf@ =~= seq!['\n']);
    let a = replace_all(&v, &crlf, &lf);
    let b = replace_all(&a, &cr, &lf);
    string_of(&b)
}

pub open spec fn first_line(s: Seq<char>) -> Seq<char> {
    if lines(s).len() > 0 {
        lines(s)[0]
    } else {
        Seq::empty()
    }
}

/// Pasted text in a document: over the selection in normal mode, at every
/// cursor otherwise.
#[verifier::opaque]
pub open spec fn text_pasted(d: DocView, text: Seq<char>, normal: bool) -> DocView {
    let p = if normal && d.anchor != d.cursor {
        let from = floor_boundary(d.text, min_int(d.anchor as int, d.cursor as int));
        let to = ceil_boundary(d.text, max_of(d.anchor as int, d.cursor as int));
        spliced(d, from, to, text, from + text.len())
    } else {
        inserted(d, text)
    };
    if normal {
        let at = if text.len() > 0 {
            prev_boundary(p.text, p.cursor as int) as usize
        } else {
            p.cursor
        };
        committed(DocView { cursor: at, anchor: at, ..p })
    } else {
        p
    }
}

impl Document {
    fn paste_over(&mut self, text: &str)
        requires
            doc_ok(old(self)@),
        ensures
            final(self)@ == ({
                let d = old(self)@;
                let from = floor_boundary(d.text, min_int(d.anchor as int, d.cursor as int));
                let to = ceil_boundary(d.text, max_of(d.anchor as int, d.cursor as int));
                spliced(d, from, to, text@, from + text@.len())
            }),
            doc_ok(final(self)@),
    {
        let (low, high) = if self.anchor <= self.cursor {
            (self.anchor, self.cursor)
        } else {
            (self.cursor, self.anchor)
        };
        let from = grapheme_floor(&self.text, low);
        let to = grapheme_ceil(&self.text, high);
        let added = chars_of(text);
        let n: usize = added.len();
        let end: usize = from.saturating_add(n);
        self.splice(from, to, text, end);
        let len = rope_len(&self.text);
    }

    fn paste_text(&mut self, text: &str, normal: bool)
        requires
            doc_ok(old(self)@),
        ensures
            final(self)@ == text_pasted(old(self)@, text@, normal),
            doc_ok(final(self)@),
    {
        reveal(text_pasted);
        if normal && self.anchor != self.cursor {
            self.paste_over(text);
        } else {
            self.insert_at_cursor(text);
        }
        if normal {
            let ghost p = self@;
            if !text.is_empty() {
                self.cursor = prev_grapheme_boundary(&self.text, self.cursor);
            }
            self.anchor = self.cursor;
            assert(self@.extra == p.extra);
            assert(placed(self@));
            self.commit_undo_group();
            assert(self@.extra == p.extra);
        }
    }
}

/// Pasted text where it goes: on the line that is typed, to the shell, or into
/// the document.
#[verifier::opaque]
pub open spec fn pasted_in(e: EditorView, raw: Seq<char>) -> EditorView {
    let text = with_newlines(raw);
    if e.keys.mode == Mode::Command || e.keys.mode == Mode::Search {
        let l = with_line(
            with_suggest(e, None),
            e.lines.command_line + first_line(text),
        );
        if e.keys.mode == Mode::Search {
            previewed(l)
        } else {
            l
        }
    } else if e.keys.mode == Mode::Picker {
        e
    } else if e.keys.mode == Mode::Terminal {
        if e.shell.running {
            asking(e, EffectView::ShellText(text))
        } else {
            e
        }
    } else if e.sidebar.focused || e.panes.help_scroll is Some {
        e
    } else {
        let normal = e.keys.mode == Mode::Normal;
        let x = if normal && doc_of(e).anchor != doc_of(e).cursor {
            crate::acts::unextended(e)
        } else {
            e
        };
        on_doc(x, text_pasted(doc_of(x), text, normal))
    }
}

fn take_first_line(text: &str) -> (r: Vec<char>)
    ensures
        r@ == first_line(text@),
{
    let v = chars_of(text);
    let all = lines_of(&v);
    let ghost views = lines(text@);
    assert(crate::strings::slices(all@) == views);
    if all.len() > 0 {
        assert(views[0] == all@[0]@);
        crate::strings::copy_chars(all[0])
    } else {
        let none: Vec<char> = Vec::new();
        assert(none@ =~= Seq::empty());
        none
    }
}

impl Editor {
    fn paste_on_line(&mut self, text: &str)
        requires
            old(self).wf(),
        ensures
            final(self)@ == with_line(
                with_suggest(old(self)@, None),
                old(self)@.lines.command_line + first_line(text@),
            ),
            final(self).wf(),
    {
        let first = take_first_line(text);
        let mut v = chars_of(self.line().as_str());
        push_all(&mut v, &first);
        let line = string_of(&v);
        self.set_suggest(None);
        self.set_line(line);
    }

    fn paste_in_front(&mut self, text: &str)
        requires
            old(self).wf(),
        ensures
            final(self)@ == ({
                let e = old(self)@;
                let normal = e.keys.mode == Mode::Normal;
                let x = if normal && doc_of(e).anchor != doc_of(e).cursor {
                    crate::acts::unextended(e)
                } else {
                    e
                };
                on_doc(x, text_pasted(doc_of(x), text@, normal))
            }),
            final(self).wf(),
    {
        let normal = self.keys.mode == Mode::Normal;
        if normal && self.has_selection() {
            self.set_extend(false);
        }
        self.doc_mut().paste_text(text, normal);
    }

    fn has_selection(&self) -> (r: bool)
        requires
            self.wf(),
        ensures
            r == (doc_of(self@).anchor != doc_of(self@).cursor),
    {
        self.doc().anchor != self.doc().cursor
    }

    fn handle_paste_inner(&mut self, raw: &str)
        requires
            old(self).wf(),
        ensures
            final(self)@ == pasted_in(old(self)@, raw@),
            final(self).wf(),
    {
        reveal(pasted_in);
        let text = fix_newlines(raw);
        let mode = self.keys.mode;
        if mode == Mode::Command || mode == Mode::Search {
            self.paste_on_line(text.as_str());
            if mode == Mode::Search {
                self.update_search_preview();
            }
            return ;
        }
        if mode == Mode::Picker {
            return ;
        }
        if mode == Mode::Terminal {
            if self.shell.running {
                self.ask(Effect::ShellText(text));
            }
            return ;
        }
        if self.sidebar.focused || self.panes.help_scroll.is_some() {
            return ;
        }
        self.paste_in_front(text.as_str());
    }
}

// ---- recording --------------------------------------------------------------------

/// A prompt, a picker or another pane takes the keys.
#[verifier::opaque]
pub open spec fn is_prompting(e: EditorView) -> bool {
    ||| e.keys.mode == Mode::Command
    ||| e.keys.mode == Mode::Search
    ||| e.keys.mode == Mode::Picker
    ||| e.sidebar.focused
    ||| terminal_focused_in(e)
    ||| e.panes.help_scroll is Some
}

/// Nothing is half typed.
#[verifier::opaque]
pub open spec fn is_at_rest(e: EditorView) -> bool {
    &&& e.keys.mode == Mode::Normal
    &&& e.keys.pending.len() == 0
    &&& e.keys.count is None
    &&& !e.keys.awaiting_register
    &&& e.registers.active is None
    &&& !e.keys.awaiting_surround
    &&& e.keys.awaiting_char is None
    &&& e.keys.pending_line_op is None
}

/// Something is selected.
#[verifier::opaque]
pub open spec fn is_selected(d: DocView) -> bool {
    d.anchor != d.cursor || exists|i: int|
        0 <= i < d.extra.len() && (#[trigger] d.extra[i]).0 != d.extra[i].1
}

pub open spec fn rest_of(e: EditorView) -> Rest {
    Rest {
        prompting: is_prompting(e),
        at_rest: is_at_rest(e),
        current: e.desk.current,
        revision: doc_of(e).revision,
        selected: is_selected(doc_of(e)),
        extend: e.keys.extend,
    }
}

pub open spec fn record_finished(e: EditorView) -> EditorView {
    EditorView { recorder: finished(e.recorder, rest_of(e)), ..e }
}

pub open spec fn record_begun(e: EditorView, input: InputView) -> EditorView {
    EditorView {
        recorder: recorded(e.recorder, input, e.desk.current, doc_of(e).revision),
        ..e
    }
}

/// An input has been handled: where it began no replay, what was recorded may
/// be a change that is over.
#[verifier::opaque]
pub open spec fn input_over(e: EditorView) -> EditorView {
    if replaying(e.recorder) {
        e
    } else {
        record_finished(e)
    }
}

/// A key handled and recorded.
#[verifier::opaque]
pub open spec fn key_handled(e: EditorView, key: Key) -> EditorView {
    if replaying(e.recorder) {
        keyed(e, key)
    } else {
        input_over(keyed(record_begun(e, InputView::Key(key)), key))
    }
}

/// Pasted text handled and recorded.
#[verifier::opaque]
pub open spec fn paste_handled(e: EditorView, text: Seq<char>) -> EditorView {
    if replaying(e.recorder) {
        pasted_in(e, text)
    } else {
        input_over(pasted_in(record_begun(e, InputView::Paste(text)), text))
    }
}

impl Document {
    fn has_selected(&self) -> (r: bool)
        ensures
            r == is_selected(self@),
    {
        reveal(is_selected);
        if self.anchor != self.cursor {
            return true;
        }
        self.others_selected()
    }

    fn others_selected(&self) -> (r: bool)
        ensures
            r == (exists|i: int|
                0 <= i < self@.extra.len() && (#[trigger] self@.extra[i]).0 != self@.extra[i].1),
    {
        let mut i: usize = 0;
        while i < self.extra.len()
            invariant
                i <= self.extra@.len(),
                forall|k: int| 0 <= k < i ==> (#[trigger] self.extra@[k]).0 == self.extra@[k].1,
            decreases self.extra@.len() - i,
        {
            let s = self.extra[i];
            if s.0 != s.1 {
                assert(self@.extra[i as int].0 != self@.extra[i as int].1);
                return true;
            }
            i += 1;
        }
        false
    }
}

impl Editor {
    fn at_rest(&self) -> (r: bool)
        ensures
            r == is_at_rest(self@),
    {
        reveal(is_at_rest);
        self.keys.mode == Mode::Normal && self.keys.pending.len() == 0 && self.keys.count.is_none()
            && !self.keys.awaiting_register && self.registers.active.is_none()
            && !self.keys.awaiting_surround && self.keys.awaiting_char.is_none()
            && self.keys.pending_line_op.is_none()
    }

    fn prompting(&self) -> (r: bool)
        ensures
            r == is_prompting(self@),
    {
        reveal(is_prompting);
        self.keys.mode == Mode::Command || self.keys.mode == Mode::Search || self.keys.mode
            == Mode::Picker || self.sidebar.focused || self.terminal_focused()
            || self.panes.help_scroll.is_some()
    }

    fn rest(&self) -> (r: Rest)
        requires
            self.wf(),
        ensures
            r == rest_of(self@),
    {
        Rest {
            prompting: self.prompting(),
            at_rest: self.at_rest(),
            current: self.desk.current,
            revision: self.doc().revision,
            selected: self.doc().has_selected(),
            extend: self.keys.extend,
        }
    }

    fn finish_change_record(&mut self)
        requires
            old(self).wf(),
        ensures
            final(self)@ == record_finished(old(self)@),
            final(self).wf(),
    {
        let rest = self.rest();
        self.recorder.finish(rest);
    }

    fn end_input(&mut self)
        requires
            old(self).wf(),
        ensures
            final(self)@ == input_over(old(self)@),
            final(self).wf(),
    {
        reveal(input_over);
        if self.is_replaying() {
            return ;
        }
        self.finish_change_record();
    }

    /// One key: handled, and recorded unless it is itself part of a replay.
    pub fn handle_key(&mut self, key: Key)
        requires
            old(self).wf(),
        ensures
            final(self)@ == key_handled(old(self)@, key),
            final(self).wf(),
    {
        reveal(key_handled);
        if self.is_replaying() {
            self.handle_key_inner(key);
            return ;
        }
        self.record_input(Input::Key(key));
        self.handle_key_inner(key);
        self.end_input();
    }

    /// Text pasted as a whole: it goes in as it is.
    pub fn handle_paste(&mut self, text: &str)
        requires
            old(self).wf(),
        ensures
            final(self)@ == paste_handled(old(self)@, text@),
            final(self).wf(),
    {
        reveal(paste_handled);
        if self.is_replaying() {
            self.handle_paste_inner(text);
            return ;
        }
        self.record_input(Input::Paste(text.to_owned()));
        self.handle_paste_inner(text);
        self.end_input();
    }
}

// ---- playing back -----------------------------------------------------------------

/// An input played back.
#[verifier::opaque]
pub open spec fn input_played(e: EditorView, input: InputView) -> EditorView {
    let p = match input {
        InputView::Key(key) => keyed(e, key),
        InputView::Paste(text) => pasted_in(e, text),
        InputView::Complete(del, text) => on_doc(e, completed(doc_of(e), del as nat, text)),
    };
    if p.should_quit {
        EditorView { recorder: pass_ended(p.recorder), ..p }
    } else {
        p
    }
}

/// A replay over: the command that began it ends now.
#[verifier::opaque]
pub open spec fn replay_over(e: EditorView, c: Command) -> EditorView {
    let k = crate::editor::selection_kept(e);
    input_over(
        if c == Command::RepeatLastChange {
            command_over(k, c, false)
        } else {
            last_ran(e, c)
        },
    )
}

/// One step of what is being played back.
#[verifier::opaque]
pub open spec fn replay_stepped(e: EditorView) -> EditorView {
    let s = stepped(e.recorder);
    let n = EditorView { recorder: s.0, ..e };
    match s.1 {
        StepView::Nothing => e,
        StepView::Input(input) => input_played(n, input),
        StepView::Over(c) => replay_over(n, c),
    }
}

impl Editor {
    fn stop_pass_if_quitting(&mut self)
        requires
            old(self).wf(),
        ensures
            final(self)@ == (if old(self)@.should_quit {
                EditorView { recorder: pass_ended(old(self)@.recorder), ..old(self)@ }
            } else {
                old(self)@
            }),
            final(self).wf(),
    {
        if self.should_quit {
            self.recorder.end_pass();
        }
    }

    fn play_input(&mut self, input: Input)
        requires
            old(self).wf(),
        ensures
            final(self)@ == input_played(old(self)@, input@),
            final(self).wf(),
    {
        reveal(input_played);
        match input {
            Input::Key(key) => {
                self.handle_key_inner(key);
                self.stop_pass_if_quitting();
                return ;
            },
            Input::Paste(text) => {
                self.handle_paste_inner(text.as_str());
                self.stop_pass_if_quitting();
                return ;
            },
            Input::Complete(del, text) => {
                self.doc_mut().complete(del, text.as_str());
                self.stop_pass_if_quitting();
                return ;
            },
        }
    }

    fn end_replay(&mut self, c: Command)
        requires
            old(self).wf(),
        ensures
            final(self)@ == replay_over(old(self)@, c),
            final(self).wf(),
    {
        reveal(replay_over);
        if c == Command::RepeatLastChange {
            self.keep();
            self.end_command(c, false);
            self.end_input();
            return ;
        }
        self.set_last_command(c);
        self.end_input();
    }

    fn take_step(&mut self) -> (r: Step)
        requires
            old(self).wf(),
        ensures
            r@ == stepped(old(self)@.recorder).1,
            final(self)@ == (EditorView {
                recorder: stepped(old(self)@.recorder).0,
                ..old(self)@
            }),
            final(self).wf(),
    {
        self.recorder.next_step()
    }

    /// Go on with what is being played back. False where there is nothing.
    pub fn replay_next(&mut self) -> (more: bool)
        requires
            old(self).wf(),
        ensures
            more == replaying(old(self)@.recorder),
            final(self)@ == replay_stepped(old(self)@),
            final(self).wf(),
    {
        reveal(replay_stepped);
        if !self.is_replaying() {
            return false;
        }
        match self.take_step() {
            Step::Nothing => {
                return true;
            },
            Step::Input(input) => {
                self.play_input(input);
                return true;
            },
            Step::Over(c) => {
                self.end_replay(c);
                return true;
            },
        }
    }
}

} // verus!
