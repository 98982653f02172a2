//! What the character after a key that waits for one does: objects, pairs and
//! macros.

use vstd::prelude::*;
use crate::commands::Command;
use crate::desk::doc_ok;
use crate::document::{true_to_edits, DocView, Document};
use crate::editor::{asking, doc_of, on_doc, said, lemma_on_doc_same, Editor, EditorView};
use crate::objects::{pair_for, pair_of};
use crate::repeat::{replay_begun, RecorderView, MAX_REPLAY_DEPTH};
use crate::run::waiting;
use crate::state::{CharWait, Effect, EffectView};
use crate::strings::{
    char_string, debug_char, push_lit, quote_char, string_of, text_between, with_text,
};
use crate::surround::{objects_selected, surround_edited, surrounded};

verus! {

// ---- objects ----------------------------------------------------------------------

/// The objects that the syntax of the text decides.
pub open spec fn is_syntax_object(c: char) -> bool {
    c == 'f' || c == 't' || c == 'a' || c == 'c'
}

#[verifier::opaque]
pub open spec fn objects_found(d: DocView, c: char, inside: bool) -> Option<DocView> {
    objects_selected(d, c, inside)
}

#[verifier::opaque]
pub open spec fn nothing_text(c: char, inside: bool) -> Seq<char> {
    "nothing to select "@ + (if inside {
        "inside "@
    } else {
        "around "@
    }) + debug_char(c) + " here"@
}

/// The object that a character names selected at every cursor.
#[verifier::opaque]
pub open spec fn object_picked(e: EditorView, c: char, inside: bool) -> EditorView {
    if is_syntax_object(c) {
        asking(e, EffectView::SyntaxObject { name: c, inside })
    } else {
        match objects_found(doc_of(e), c, inside) {
            Some(d) => on_doc(e, d),
            None => said(e, nothing_text(c, inside)),
        }
    }
}

fn say_nothing(c: char, inside: bool) -> (r: String)
    ensures
        r@ == nothing_text(c, inside),
{
    reveal(nothing_text);
    let q = quote_char(c);
    let mut v: Vec<char> = Vec::new();
    push_lit(&mut v, "nothing to select ");
    push_lit(
        &mut v,
        if inside {
            "inside "
        } else {
            "around "
        },
    );
    push_lit(&mut v, q.as_str());
    push_lit(&mut v, " here");
    assert(v@ =~= nothing_text(c, inside));
    string_of(&v)
}

impl Document {
    fn pick_objects(&mut self, c: char, inside: bool) -> (found: bool)
        requires
            doc_ok(old(self)@),
        ensures
            found == (objects_found(old(self)@, c, inside) is Some),
            final(self)@ == (if found {
                objects_found(old(self)@, c, inside)->0
            } else {
                old(self)@
            }),
            doc_ok(final(self)@),
    {
        reveal(objects_found);
        self.select_objects(c, inside)
    }
}

impl Editor {
    fn pick_front_objects(&mut self, c: char, inside: bool) -> (found: bool)
        requires
            old(self).wf(),
        ensures
            found == (objects_found(doc_of(old(self)@), c, inside) is Some),
            final(self)@ == (if found {
                on_doc(old(self)@, objects_found(doc_of(old(self)@), c, inside)->0)
            } else {
                old(self)@
            }),
            final(self).wf(),
    {
        proof {
            lemma_on_doc_same(self@);
        }
        self.doc_mut().pick_objects(c, inside)
    }

    fn select_object(&mut self, c: char, inside: bool)
        requires
            old(self).wf(),
        ensures
            final(self)@ == object_picked(old(self)@, c, inside),
            final(self).wf(),
    {
        reveal(object_picked);
        if c == 'f' || c == 't' || c == 'a' || c == 'c' {
            self.ask(Effect::SyntaxObject { name: c, inside });
            return ;
        }
        if self.pick_front_objects(c, inside) {
            return ;
        }
        self.no_object(c, inside);
    }

    /// There is no such object around any selection.
    pub fn no_object(&mut self, c: char, inside: bool)
        requires
            old(self).wf(),
        ensures
            final(self)@ == said(old(self)@, nothing_text(c, inside)),
            final(self).wf(),
    {
        let m = say_nothing(c, inside);
        self.set_status(m.as_str());
    }
}

// ---- pairs ------------------------------------------------------------------------

#[verifier::opaque]
pub open spec fn pair_changed(
    d: DocView,
    pair: (char, char),
    new: Option<(char, char)>,
) -> Option<DocView> {
    surround_edited(d, pair.0, pair.1, new)
}

pub open spec fn new_pair(new: Option<char>) -> Option<(char, char)> {
    match new {
        Some(n) => match pair_of(n) {
            Some(p) => Some(p),
            None => Some((n, n)),
        },
        None => None,
    }
}

pub open spec fn pair_text(p: (char, char)) -> Seq<char> {
    seq![p.0, p.1]
}

#[verifier::opaque]
pub open spec fn changed_text(pair: (char, char), new: Option<(char, char)>) -> Seq<char> {
    match new {
        Some(n) => pair_text(pair) + " → "@ + pair_text(n),
        None => "removed "@ + pair_text(pair),
    }
}

/// The pair around every cursor deleted or replaced.
#[verifier::opaque]
pub open spec fn pair_edited(e: EditorView, c: char, new: Option<char>) -> EditorView {
    match pair_of(c) {
        None => said(e, debug_char(c) + " isn't a pair — try ( [ { < \" ' `"@),
        Some(pair) => match pair_changed(doc_of(e), pair, new_pair(new)) {
            None => said(e, "no surrounding "@ + pair_text(pair) + " here"@),
            Some(d) => said(on_doc(e, d), changed_text(pair, new_pair(new))),
        },
    }
}

fn say_pair(p: (char, char)) -> (r: String)
    ensures
        r@ == pair_text(p),
{
    let mut v: Vec<char> = Vec::new();
    v.push(p.0);
    v.push(p.1);
    assert(v@ =~= pair_text(p));
    string_of(&v)
}

fn say_changed(pair: (char, char), new: Option<(char, char)>) -> (r: String)
    ensures
        r@ == changed_text(pair, new),
{
    reveal(changed_text);
    let p = say_pair(pair);
    match new {
        Some(n) => {
            let q = say_pair(n);
            text_between(p.as_str(), " → ", q.as_str())
        },
        None => with_text("removed ", p.as_str()),
    }
}

impl Document {
    fn change_pair(&mut self, pair: (char, char), new: Option<(char, char)>) -> (found: bool)
        requires
            doc_ok(old(self)@),
        ensures
            found == (pair_changed(old(self)@, pair, new) is Some),
            final(self)@ == (if found {
                pair_changed(old(self)@, pair, new)->0
            } else {
                old(self)@
            }),
            doc_ok(final(self)@),
    {
        reveal(pair_changed);
        self.surround_edit(pair.0, pair.1, new)
    }

    pub(crate) fn wrap_in(&mut self, c: char)
        requires
            doc_ok(old(self)@),
        ensures
            final(self)@ == wrapped_in(old(self)@, c),
            doc_ok(final(self)@),
            true_to_edits(old(self)@) ==> true_to_edits(final(self)@),
    {
        reveal(wrapped_in);
        self.surround_with(c);
    }
}

#[verifier::opaque]
pub open spec fn wrapped_in(d: DocView, c: char) -> DocView {
    surrounded(d, c)
}

impl Editor {
    fn change_front_pair(&mut self, pair: (char, char), new: Option<(char, char)>) -> (found: bool)
        requires
            old(self).wf(),
        ensures
            found == (pair_changed(doc_of(old(self)@), pair, new) is Some),
            final(self)@ == (if found {
                on_doc(old(self)@, pair_changed(doc_of(old(self)@), pair, new)->0)
            } else {
                old(self)@
            }),
            final(self).wf(),
    {
        proof {
            lemma_on_doc_same(self@);
        }
        self.doc_mut().change_pair(pair, new)
    }

    fn surround_edit(&mut self, c: char, new: Option<char>)
        requires
            old(self).wf(),
        ensures
            final(self)@ == pair_edited(old(self)@, c, new),
            final(self).wf(),
    {
        reveal(pair_edited);
        let pair = match pair_for(c) {
            Some(p) => p,
            None => {
                let q = quote_char(c);
                let m = with_text(q.as_str(), " isn't a pair — try ( [ { < \" ' `");
                self.set_status(m.as_str());
                return ;
            },
        };
        let replacement = match new {
            Some(n) => match pair_for(n) {
                Some(p) => Some(p),
                None => Some((n, n)),
            },
            None => None,
        };
        if self.change_front_pair(pair, replacement) {
            let m = say_changed(pair, replacement);
            self.set_status(m.as_str());
            return ;
        }
        let p = say_pair(pair);
        let m = text_between("no surrounding ", p.as_str(), " here");
        self.set_status(m.as_str());
    }
}

// ---- macros -----------------------------------------------------------------------

pub open spec fn last_ran(e: EditorView, c: Command) -> EditorView {
    EditorView { recorder: RecorderView { last_command: Some(c), ..e.recorder }, ..e }
}

/// A macro that is there begun, so many times.
#[verifier::opaque]
pub open spec fn macro_started(e: EditorView, r: char, count: usize) -> EditorView {
    let l = EditorView { recorder: RecorderView { last_macro: Some(r), ..e.recorder }, ..e };
    if l.recorder.frames.len() < MAX_REPLAY_DEPTH {
        EditorView {
            recorder: replay_begun(l.recorder, l.recorder.macros[r], count, Command::MacroPlay),
            ..l
        }
    } else {
        said(l, "macro nested too deep — stopped"@)
    }
}

/// The macro in a register begun, so many times; `@` is the last one played.
#[verifier::opaque]
pub open spec fn macro_begun(e: EditorView, name: char, count: usize) -> EditorView {
    let reg = if name == '@' {
        e.recorder.last_macro
    } else {
        Some(name)
    };
    match reg {
        None => said(e, "no macro played yet"@),
        Some(r) => if e.recorder.macro_rec matches Some(m) && m.0 == r {
            said(e, "@"@ + seq![r] + " is still being recorded"@)
        } else if !e.recorder.macros.dom().contains(r) {
            said(e, "no macro in register "@ + seq![r])
        } else {
            macro_started(e, r, count)
        },
    }
}

impl Editor {
    pub(crate) fn set_last_command(&mut self, c: Command)
        requires
            old(self).wf(),
        ensures
            final(self)@ == last_ran(old(self)@, c),
            final(self).wf(),
    {
        self.recorder.last_command = Some(c);
    }

    fn start_recording(&mut self, reg: char)
        requires
            old(self).wf(),
        ensures
            final(self)@ == (EditorView {
                recorder: RecorderView {
                    macro_rec: Some((reg, Seq::empty())),
                    ..old(self)@.recorder
                },
                ..old(self)@
            }),
            final(self).wf(),
    {
        self.recorder.start_macro(reg);
    }

    fn set_last_macro(&mut self, reg: char)
        requires
            old(self).wf(),
        ensures
            final(self)@ == (EditorView {
                recorder: RecorderView { last_macro: Some(reg), ..old(self)@.recorder },
                ..old(self)@
            }),
            final(self).wf(),
    {
        self.recorder.last_macro = Some(reg);
    }

    fn begin_macro(&mut self, reg: char, count: usize) -> (begun: bool)
        requires
            old(self).wf(),
            old(self)@.recorder.macros.dom().contains(reg),
        ensures
            begun == (old(self)@.recorder.frames.len() < MAX_REPLAY_DEPTH),
            final(self)@ == (if begun {
                EditorView {
                    recorder: replay_begun(
                        old(self)@.recorder,
                        old(self)@.recorder.macros[reg],
                        count,
                        Command::MacroPlay,
                    ),
                    ..old(self)@
                }
            } else {
                old(self)@
            }),
            final(self).wf(),
    {
        self.recorder.replay_macro(reg, count, Command::MacroPlay)
    }

    fn being_recorded(&self, reg: char) -> (r: bool)
        ensures
            r == (self@.recorder.macro_rec matches Some(m) && m.0 == reg),
    {
        match &self.recorder.macro_rec {
            Some(m) => m.0 == reg,
            None => false,
        }
    }

    fn has_macro(&self, reg: char) -> (r: bool)
        ensures
            r == self@.recorder.macros.dom().contains(reg),
    {
        self.recorder.has_macro(reg)
    }

    fn play_macro(&mut self, name: char, count: usize)
        requires
            old(self).wf(),
        ensures
            final(self)@ == macro_begun(old(self)@, name, count),
            final(self).wf(),
    {
        reveal(macro_begun);
        let reg = if name == '@' {
            self.recorder.last_macro
        } else {
            Some(name)
        };
        let reg = match reg {
            Some(r) => r,
            None => {
                self.set_status("no macro played yet");
                return ;
            },
        };
        let t = char_string(reg);
        if self.being_recorded(reg) {
            let m = text_between("@", t.as_str(), " is still being recorded");
            self.set_status(m.as_str());
            return ;
        }
        if !self.has_macro(reg) {
            let m = with_text("no macro in register ", t.as_str());
            self.set_status(m.as_str());
            return ;
        }
        self.start_macro(reg, count);
    }

    fn start_macro(&mut self, reg: char, count: usize)
        requires
            old(self).wf(),
            old(self)@.recorder.macros.dom().contains(reg),
        ensures
            final(self)@ == macro_started(old(self)@, reg, count),
            final(self).wf(),
    {
        reveal(macro_started);
        self.set_last_macro(reg);
        if !self.begin_macro(reg, count) {
            self.set_status("macro nested too deep — stopped");
        }
    }
}

// ---- all of them ------------------------------------------------------------------

#[verifier::opaque]
pub open spec fn recording_begun(e: EditorView, reg: char) -> EditorView {
    let r = EditorView {
        recorder: RecorderView { macro_rec: Some((reg, Seq::empty())), ..e.recorder },
        ..e
    };
    last_ran(said(r, "recording @"@ + seq![reg] + " — q stops"@), Command::MacroRecord)
}

/// What the character after a key that waits for one does.
#[verifier::opaque]
pub open spec fn char_waited(e: EditorView, wait: CharWait, c: char) -> EditorView {
    match wait {
        CharWait::Inside => object_picked(e, c, true),
        CharWait::Around => object_picked(e, c, false),
        CharWait::SurroundDelete => pair_edited(e, c, None),
        CharWait::SurroundReplace(old) => match old {
            None => said(
                waiting(e, CharWait::SurroundReplace(Some(c))),
                "replace "@ + seq![c] + " with…"@,
            ),
            Some(o) => pair_edited(e, o, Some(c)),
        },
        CharWait::MacroRecord => recording_begun(e, c),
        CharWait::MacroPlay(count) => last_ran(macro_begun(e, c, count), Command::MacroPlay),
    }
}

impl Editor {
    fn begin_recording(&mut self, reg: char)
        requires
            old(self).wf(),
        ensures
            final(self)@ == recording_begun(old(self)@, reg),
            final(self).wf(),
    {
        reveal(recording_begun);
        let t = char_string(reg);
        let m = text_between("recording @", t.as_str(), " — q stops");
        self.start_recording(reg);
        self.set_status(m.as_str());
        self.set_last_command(Command::MacroRecord);
    }

    pub(crate) fn char_wait(&mut self, wait: CharWait, c: char)
        requires
            old(self).wf(),
        ensures
            final(self)@ == char_waited(old(self)@, wait, c),
            final(self).wf(),
    {
        reveal(char_waited);
        match wait {
            CharWait::Inside => {
                self.select_object(c, true);
                return ;
            },
            CharWait::Around => {
                self.select_object(c, false);
                return ;
            },
            CharWait::SurroundDelete => {
                self.surround_edit(c, None);
                return ;
            },
            CharWait::SurroundReplace(None) => {
                let t = char_string(c);
                let m = text_between("replace ", t.as_str(), " with…");
                self.wait_char(Some(CharWait::SurroundReplace(Some(c))));
                self.set_status(m.as_str());
                return ;
            },
            CharWait::SurroundReplace(Some(old)) => {
                self.surround_edit(old, Some(c));
                return ;
            },
            CharWait::MacroRecord => {
                self.begin_recording(c);
                return ;
            },
            CharWait::MacroPlay(count) => {
                self.play_macro(c, count);
                self.set_last_command(Command::MacroPlay);
                return ;
            },
        }
    }
}

} // verus!
