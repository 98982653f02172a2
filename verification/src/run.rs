//! The commands as a whole: what each does to the editor.

use vstd::prelude::*;
use crate::commands::Command;
use crate::desk::{doc_ok, in_front, turned, Dir};
use crate::document::{clamped, min_int, true_to_edits, DocView, Document};
use crate::editor::{
    asking, count_of, count_taken, desk_sound, doc_of, in_mode, on_doc, said, selection_kept, Editor,
    EditorView,
};
use crate::jumps::{stepped_back, stepped_forward};
use crate::repeat::{macro_stopped, replay_begun, MAX_REPLAY_DEPTH};
use crate::state::{CharWait, Effect, EffectView, KeysView, LinesView, Mode, SidebarView};
use crate::strings::{decimal, push_lit, push_number, string_of, with_text};
use crate::windows::{focus_towards, focused_closed, off_terminal, window_towards};
use crate::workspace::name_at;
use crate::config::OptionsView;
use crate::layout::ids;

verus! {

// ---- windows, buffers and the sidebar ---------------------------------------------

/// The window to the left, or the sidebar where there is none.
pub open spec fn left_focused(e: EditorView) -> EditorView {
    if window_towards(e, Dir::Left) is Some {
        focus_towards(e, Dir::Left)
    } else if e.sidebar.tree is Some {
        EditorView { sidebar: SidebarView { focused: true, ..e.sidebar }, ..e }
    } else {
        e
    }
}

/// The sidebar shown and focused, focused, or closed.
pub open spec fn tree_toggled(e: EditorView) -> EditorView {
    if e.sidebar.tree is None {
        asking(
            EditorView { sidebar: SidebarView { focused: true, ..e.sidebar }, ..e },
            EffectView::OpenTree,
        )
    } else if !e.sidebar.focused {
        EditorView { sidebar: SidebarView { focused: true, ..e.sidebar }, ..e }
    } else {
        EditorView { sidebar: SidebarView { tree: None, focused: false, ..e.sidebar }, ..e }
    }
}

pub open spec fn hidden_toggled(e: EditorView) -> EditorView {
    let t = EditorView {
        options: OptionsView { show_hidden: !e.options.show_hidden, ..e.options },
        ..e
    };
    said(
        if e.sidebar.tree is Some {
            asking(t, EffectView::ListTree)
        } else {
            t
        },
        if e.options.show_hidden {
            "dotfiles hidden"@
        } else {
            "dotfiles shown"@
        },
    )
}

pub open spec fn wrap_toggled(e: EditorView) -> EditorView {
    said(
        EditorView { options: OptionsView { soft_wrap: !e.options.soft_wrap, ..e.options }, ..e },
        if e.options.soft_wrap {
            "soft wrap off"@
        } else {
            "soft wrap on"@
        },
    )
}

/// The window closed, or with the last one the editor, unless that would lose
/// changes.
pub open spec fn quit_run(e: EditorView) -> EditorView {
    if ids(e.desk.layout).len() > 1 {
        focused_closed(e)
    } else if doc_of(e).modified {
        said(e, "Unsaved changes — use :q! to discard, or :w to write"@)
    } else {
        EditorView { should_quit: true, ..e }
    }
}

impl Editor {
    pub(crate) fn focus_left(&mut self)
        requires
            old(self).wf(),
        ensures
            final(self)@ == left_focused(old(self)@),
            final(self).wf(),
    {
        let had = self.sidebar.tree.is_some();
        if self.focus_window_dir(Dir::Left) {
            return ;
        }
        proof {
            reveal(focus_towards);
        }
        if had {
            self.set_tree_focus(true);
        }
    }

    pub(crate) fn drop_tree(&mut self)
        requires
            old(self).wf(),
        ensures
            final(self)@ == (EditorView {
                sidebar: SidebarView { tree: None, focused: false, ..old(self)@.sidebar },
                ..old(self)@
            }),
            final(self).wf(),
    {
        self.sidebar.tree = None;
        self.sidebar.focused = false;
    }

    /// Show and focus the sidebar, focus it, or close it.
    pub fn tree_toggle(&mut self)
        requires
            old(self).wf(),
        ensures
            final(self)@ == tree_toggled(old(self)@),
            final(self).wf(),
    {
        if self.sidebar.tree.is_none() {
            self.set_tree_focus(true);
            self.ask(Effect::OpenTree);
            return ;
        }
        if !self.sidebar.focused {
            self.set_tree_focus(true);
            return ;
        }
        self.drop_tree();
    }

    fn set_hidden(&mut self, on: bool)
        requires
            old(self).wf(),
        ensures
            final(self)@ == (EditorView {
                options: OptionsView { show_hidden: on, ..old(self)@.options },
                ..old(self)@
            }),
            final(self).wf(),
    {
        self.options.show_hidden = on;
    }

    fn set_wrap(&mut self, on: bool)
        requires
            old(self).wf(),
        ensures
            final(self)@ == (EditorView {
                options: OptionsView { soft_wrap: on, ..old(self)@.options },
                ..old(self)@
            }),
            final(self).wf(),
    {
        self.options.soft_wrap = on;
    }

    /// Show or hide dotfiles.
    pub(crate) fn toggle_hidden(&mut self)
        requires
            old(self).wf(),
        ensures
            final(self)@ == hidden_toggled(old(self)@),
            final(self).wf(),
    {
        let shown = self.options.show_hidden;
        let has_tree = self.sidebar.tree.is_some();
        self.set_hidden(!shown);
        if has_tree {
            self.ask(Effect::ListTree);
        }
        if shown {
            self.set_status("dotfiles hidden");
            return ;
        }
        self.set_status("dotfiles shown");
    }

    pub(crate) fn toggle_wrap(&mut self)
        requires
            old(self).wf(),
        ensures
            final(self)@ == wrap_toggled(old(self)@),
            final(self).wf(),
    {
        let on = self.options.soft_wrap;
        self.set_wrap(!on);
        if on {
            self.set_status("soft wrap off");
            return ;
        }
        self.set_status("soft wrap on");
    }

    pub(crate) fn turn_buffer(&mut self, forward: bool)
        requires
            old(self).wf(),
        ensures
            final(self)@ == (EditorView {
                desk: turned(old(self)@.desk, forward),
                ..old(self)@
            }),
            final(self).wf(),
    {
        reveal(desk_sound);
        self.desk.turn(forward);
    }

    pub(crate) fn leave(&mut self)
        requires
            old(self).wf(),
        ensures
            final(self)@ == (EditorView { should_quit: true, ..old(self)@ }),
            final(self).wf(),
    {
        self.should_quit = true;
    }

    pub(crate) fn quit(&mut self)
        requires
            old(self).wf(),
        ensures
            final(self)@ == quit_run(old(self)@),
            final(self).wf(),
    {
        if self.window_count() > 1 {
            self.close_focused_window();
            return ;
        }
        if self.doc().modified {
            self.set_status("Unsaved changes — use :q! to discard, or :w to write");
            return ;
        }
        self.leave();
    }
}

// ---- jumps ------------------------------------------------------------------------

#[verifier::opaque]
pub open spec fn bare_at(d: DocView, pos: usize) -> DocView {
    let at = clamped(d.text, min_int(pos as int, d.text.len() as int), false) as usize;
    DocView {
        cursor: at,
        anchor: min_int(pos as int, d.text.len() as int) as usize,
        extra: Seq::empty(),
        goal_col: None,
        ..d
    }
}

impl Document {
    /// One bare cursor at a place.
    pub(crate) fn go_bare(&mut self, pos: usize)
        requires
            doc_ok(old(self)@),
        ensures
            final(self)@ == bare_at(old(self)@, pos),
            doc_ok(final(self)@),
            true_to_edits(old(self)@) ==> true_to_edits(final(self)@),
    {
        reveal(bare_at);
        self.put_bare(pos);
        self.drop_extra();
        self.clamp_cursor(false);
        self.goal_col = None;
    }
}

/// A place of the jumplist gone to; nothing where its buffer is not there.
pub open spec fn at_jump(e: EditorView, p: (usize, usize)) -> EditorView {
    if p.0 >= e.desk.docs.len() {
        e
    } else {
        let l = off_terminal(e);
        let f = EditorView { desk: in_front(l.desk, p.0), ..l };
        on_doc(f, bare_at(doc_of(f), p.1))
    }
}

pub open spec fn jumped_back(e: EditorView) -> EditorView {
    let s = stepped_back(e.jumps, (e.desk.current, doc_of(e).cursor));
    let j = EditorView { jumps: s.0, ..e };
    match s.1 {
        Some(p) => at_jump(j, p),
        None => said(j, "at the oldest jump"@),
    }
}

pub open spec fn jumped_forward(e: EditorView) -> EditorView {
    let s = stepped_forward(e.jumps);
    let j = EditorView { jumps: s.0, ..e };
    match s.1 {
        Some(p) => at_jump(j, p),
        None => said(j, "at the newest jump"@),
    }
}

impl Editor {
    /// Put a buffer in front.
    pub fn show_buffer(&mut self, i: usize)
        requires
            old(self).wf(),
            i < old(self)@.desk.docs.len(),
        ensures
            final(self)@ == (EditorView {
                desk: in_front(old(self)@.desk, i),
                ..old(self)@
            }),
            final(self).wf(),
    {
        reveal(desk_sound);
        self.desk.current = i;
    }

    pub(crate) fn buffers(&self) -> (n: usize)
        ensures
            n == self@.desk.docs.len(),
    {
        self.desk.documents.len()
    }

    pub(crate) fn goto_jump(&mut self, p: (usize, usize))
        requires
            old(self).wf(),
        ensures
            final(self)@ == at_jump(old(self)@, p),
            final(self).wf(),
    {
        if p.0 >= self.buffers() {
            return ;
        }
        self.leave_terminal_for_edit();
        self.show_buffer(p.0);
        self.doc_mut().go_bare(p.1);
    }

    fn step_back(&mut self) -> (r: Option<(usize, usize)>)
        requires
            old(self).wf(),
        ensures
            r == stepped_back(
                old(self)@.jumps,
                (old(self)@.desk.current, doc_of(old(self)@).cursor),
            ).1,
            final(self)@ == (EditorView {
                jumps: stepped_back(
                    old(self)@.jumps,
                    (old(self)@.desk.current, doc_of(old(self)@).cursor),
                ).0,
                ..old(self)@
            }),
            final(self).wf(),
    {
        let here = (self.desk.current, self.doc().cursor);
        self.jumps.back(here)
    }

    fn step_forward(&mut self) -> (r: Option<(usize, usize)>)
        requires
            old(self).wf(),
        ensures
            r == stepped_forward(old(self)@.jumps).1,
            final(self)@ == (EditorView {
                jumps: stepped_forward(old(self)@.jumps).0,
                ..old(self)@
            }),
            final(self).wf(),
    {
        self.jumps.forward()
    }

    /// Go back to the place that the last jump left.
    pub fn jump_back(&mut self)
        requires
            old(self).wf(),
        ensures
            final(self)@ == jumped_back(old(self)@),
            final(self).wf(),
    {
        match self.step_back() {
            Some(p) => self.goto_jump(p),
            None => self.set_status("at the oldest jump"),
        }
    }

    /// Go forward again.
    pub fn jump_forward(&mut self)
        requires
            old(self).wf(),
        ensures
            final(self)@ == jumped_forward(old(self)@),
            final(self).wf(),
    {
        match self.step_forward() {
            Some(p) => self.goto_jump(p),
            None => self.set_status("at the newest jump"),
        }
    }
}

// ---- replays ----------------------------------------------------------------------

/// The last change begun again, so many times.
pub open spec fn repeat_run(e: EditorView) -> EditorView {
    let t = count_taken(e);
    if e.recorder.last_change.len() == 0 {
        said(t, "nothing to repeat yet"@)
    } else if e.recorder.frames.len() < MAX_REPLAY_DEPTH {
        selection_kept(
            EditorView {
                recorder: replay_begun(
                    e.recorder,
                    e.recorder.last_change,
                    count_of(e),
                    Command::RepeatLastChange,
                ),
                ..t
            },
        )
    } else {
        selection_kept(said(t, "macro nested too deep — stopped"@))
    }
}

#[verifier::opaque]
pub open spec fn recorded_text(reg: char, n: nat) -> Seq<char> {
    "recorded @"@ + seq![reg] + " ("@ + decimal(n) + " inputs)"@
}

/// The recording stopped, or its register asked for.
pub open spec fn macro_record_run(e: EditorView) -> EditorView {
    let k = selection_kept(e);
    match e.recorder.macro_rec {
        Some((reg, _)) => said(
            EditorView { recorder: macro_stopped(e.recorder), ..k },
            recorded_text(reg, macro_stopped(e.recorder).macros[reg].len()),
        ),
        None => said(waiting(k, CharWait::MacroRecord), "record a macro into register…"@),
    }
}

pub open spec fn waiting(e: EditorView, w: CharWait) -> EditorView {
    EditorView { keys: KeysView { awaiting_char: Some(w), ..e.keys }, ..e }
}

impl Editor {
    fn begin_repeat(&mut self, n: usize) -> (begun: bool)
        requires
            old(self).wf(),
        ensures
            begun == (old(self)@.recorder.frames.len() < MAX_REPLAY_DEPTH),
            final(self)@ == (if begun {
                EditorView {
                    recorder: replay_begun(
                        old(self)@.recorder,
                        old(self)@.recorder.last_change,
                        n,
                        Command::RepeatLastChange,
                    ),
                    ..old(self)@
                }
            } else {
                old(self)@
            }),
            final(self).wf(),
    {
        self.recorder.replay_change(n, Command::RepeatLastChange)
    }

    fn has_change(&self) -> (r: bool)
        ensures
            r == (self@.recorder.last_change.len() > 0),
    {
        self.recorder.last_change.len() > 0
    }

    /// Run the last change again where the cursor is now.
    pub fn repeat_last_change(&mut self)
        requires
            old(self).wf(),
        ensures
            final(self)@ == repeat_run(old(self)@),
            final(self).wf(),
    {
        let n = self.take_count();
        if !self.has_change() {
            self.set_status("nothing to repeat yet");
            return ;
        }
        if !self.begin_repeat(n) {
            self.set_status("macro nested too deep — stopped");
        }
        self.keep();
    }

    fn end_recording(&mut self) -> (r: Option<(char, usize)>)
        requires
            old(self).wf(),
        ensures
            match r {
                Some((reg, n)) => old(self)@.recorder.macro_rec is Some && (
                old(self)@.recorder.macro_rec->0).0 == reg && n == macro_stopped(
                    old(self)@.recorder,
                ).macros[reg].len(),
                None => old(self)@.recorder.macro_rec is None,
            },
            r is Some ==> final(self)@ == (EditorView {
                recorder: macro_stopped(old(self)@.recorder),
                ..old(self)@
            }),
            r is None ==> final(self)@ == old(self)@,
            final(self).wf(),
    {
        let r = self.recorder.stop_macro();
        r
    }

    /// Stop recording a macro, or begin.
    pub fn macro_record(&mut self)
        requires
            old(self).wf(),
        ensures
            final(self)@ == macro_record_run(old(self)@),
            final(self).wf(),
    {
        match self.end_recording() {
            Some((reg, n)) => {
                let text = say_recorded(reg, n);
                self.keep();
                self.set_status(text.as_str());
                return ;
            },
            None => {},
        }
        self.keep_and_wait(CharWait::MacroRecord);
        self.set_status("record a macro into register…");
    }

    /// Ask which macro to play.
    pub fn macro_play(&mut self)
        requires
            old(self).wf(),
        ensures
            final(self)@ == waiting(
                selection_kept(count_taken(old(self)@)),
                CharWait::MacroPlay(count_of(old(self)@)),
            ),
            final(self).wf(),
    {
        let n = self.take_count();
        self.keep();
        self.wait_char(Some(CharWait::MacroPlay(n)));
    }

    pub(crate) fn keep_and_wait(&mut self, w: CharWait)
        requires
            old(self).wf(),
        ensures
            final(self)@ == waiting(selection_kept(old(self)@), w),
            final(self).wf(),
    {
        self.keep();
        self.wait_char(Some(w));
    }

    pub(crate) fn wait_surround(&mut self)
        requires
            old(self).wf(),
        ensures
            final(self)@ == (EditorView {
                keys: KeysView {
                    keep_selection: true,
                    awaiting_surround: true,
                    ..old(self)@.keys
                },
                ..old(self)@
            }),
            final(self).wf(),
    {
        self.keys.keep_selection = true;
        self.keys.awaiting_surround = true;
    }
}

fn say_recorded(reg: char, n: usize) -> (r: String)
    ensures
        r@ == recorded_text(reg, n as nat),
{
    reveal(recorded_text);
    let mut v: Vec<char> = Vec::new();
    push_lit(&mut v, "recorded @");
    v.push(reg);
    push_lit(&mut v, " (");
    push_number(&mut v, n as u64);
    push_lit(&mut v, " inputs)");
    assert(v@ =~= recorded_text(reg, n as nat));
    string_of(&v)
}

/// The prompt for a new name, filled with the one under the cursor.
pub open spec fn rename_prompted(e: EditorView) -> EditorView {
    let m = in_mode(e, Mode::Command);
    EditorView {
        lines: LinesView {
            command_line: "rename "@ + name_at(doc_of(e).text, doc_of(e).cursor as int),
            ..m.lines
        },
        ..m
    }
}

impl Editor {
    /// Prompt for a new name of what is under the cursor.
    pub fn prompt_rename(&mut self)
        requires
            old(self).wf(),
        ensures
            final(self)@ == rename_prompted(old(self)@),
            final(self).wf(),
    {
        let word = self.doc().word_at_cursor();
        let text = with_text("rename ", word.as_str());
        self.set_mode(Mode::Command);
        self.set_line(text);
    }
}

} // verus!
