//! Moving between the windows, splitting and closing them, and the windows of
//! the preview and of the shell.

use vstd::prelude::*;
use crate::desk::{neighbour, next_of, refocused, window_closed, window_removed, window_split, Dir};
use crate::editor::{
    area_of, asking, desk_sound, focused_rect_of, in_mode, said, terminal_focused_in, Editor,
    EditorView,
};
use crate::layout::ids;
use crate::state::{Effect, EffectView, KeysView, Mode, PanesView, ShellView};

verus! {

pub open spec fn shell_mode_left(e: EditorView) -> EditorView {
    if e.keys.mode == Mode::Terminal {
        EditorView {
            keys: KeysView { mode: Mode::Normal, pending: Seq::empty(), ..e.keys },
            ..e
        }
    } else {
        e
    }
}

pub open spec fn shell_mode_entered(e: EditorView) -> EditorView {
    let t = in_mode(e, Mode::Terminal);
    EditorView { keys: KeysView { extend: false, ..t.keys }, ..t }
}

/// The mode that goes with the focus: entering the shell's window puts one in
/// the shell, leaving it back in normal mode.
pub open spec fn focus_synced(e: EditorView) -> EditorView {
    let f = EditorView { shell: ShellView { pending: None, ..e.shell }, ..e };
    if !terminal_focused_in(f) {
        shell_mode_left(f)
    } else if f.keys.mode == Mode::Normal || f.keys.mode == Mode::Insert {
        shell_mode_entered(f)
    } else {
        f
    }
}

#[verifier::opaque]
pub open spec fn split_in(e: EditorView, vertical: bool) -> EditorView {
    focus_synced(EditorView { desk: window_split(e.desk, vertical), ..e })
}

#[verifier::opaque]
pub open spec fn focus_on(e: EditorView, id: usize) -> EditorView {
    focus_synced(EditorView { desk: refocused(e.desk, id), ..e })
}

/// The window to go to in a direction.
pub open spec fn window_towards(e: EditorView, dir: Dir) -> Option<usize> {
    neighbour(e.desk, area_of(e), focused_rect_of(e), e.panes.preview, dir)
}

#[verifier::opaque]
pub open spec fn focus_towards(e: EditorView, dir: Dir) -> EditorView {
    match window_towards(e, dir) {
        Some(id) => focus_on(e, id),
        None => e,
    }
}

#[verifier::opaque]
pub open spec fn focus_next_in(e: EditorView) -> EditorView {
    match next_of(e.desk, e.panes.preview) {
        Some(id) => focus_on(e, id),
        None => e,
    }
}

/// The preview's window taken away.
#[verifier::opaque]
pub open spec fn preview_closed(e: EditorView) -> EditorView {
    match e.panes.preview {
        None => e,
        Some(win) => EditorView {
            panes: PanesView { preview: None, ..e.panes },
            desk: window_removed(e.desk, win),
            ..e
        },
    }
}

/// The preview opened beside the buffer, which keeps the focus, or closed.
pub open spec fn preview_toggled(e: EditorView) -> EditorView {
    if e.panes.preview is Some {
        preview_closed(e)
    } else {
        let s = split_in(e, true);
        let back = if ids(s.desk.layout).contains(e.desk.focused) {
            EditorView { desk: refocused(s.desk, e.desk.focused), ..s }
        } else {
            s
        };
        said(
            EditorView { panes: PanesView { preview: Some(s.desk.focused), ..back.panes }, ..back },
            "markdown preview — :md closes it"@,
        )
    }
}

/// A window taken out, the focus first moved off it: to the one above, or the
/// next.
#[verifier::opaque]
pub open spec fn window_detached(e: EditorView, win: usize) -> EditorView {
    let off = if e.desk.focused == win {
        if window_towards(e, Dir::Up) is Some {
            focus_towards(e, Dir::Up)
        } else {
            focus_next_in(e)
        }
    } else {
        e
    };
    focus_synced(EditorView { desk: window_removed(off.desk, win), ..off })
}

/// The shell's window taken down; the shell keeps running.
#[verifier::opaque]
pub open spec fn shell_hidden(e: EditorView) -> EditorView {
    match e.shell.win {
        None => e,
        Some(win) => if ids(e.desk.layout).len() <= 1 {
            said(e, "the terminal is the last window — :q! quits, or exit the shell"@)
        } else {
            let d = window_detached(e, win);
            asking(
                EditorView { shell: ShellView { win: None, ..d.shell }, ..d },
                EffectView::CheckDisk,
            )
        },
    }
}

/// The shell shown in a window below, started where none is running.
#[verifier::opaque]
pub open spec fn shell_window(e: EditorView) -> EditorView {
    let s = split_in(e, false);
    let r = focused_rect_of(s);
    let shown = EditorView {
        shell: ShellView { running: true, win: Some(s.desk.focused), rows: r.3, ..s.shell },
        ..s
    };
    focus_synced(shown)
}

pub open spec fn shell_shown(e: EditorView) -> EditorView {
    let s = split_in(e, false);
    let r = focused_rect_of(s);
    said(
        asking(
            shell_window(e),
            if e.shell.running {
                EffectView::ResizeShell { width: r.2, height: r.3 }
            } else {
                EffectView::StartShell { width: r.2, height: r.3 }
            },
        ),
        "terminal — C-\\ C-n for normal mode, space t hides it, exit closes it"@,
    )
}

/// The shell opened, focused where it is open, or hidden where it is focused.
pub open spec fn shell_toggled(e: EditorView) -> EditorView {
    match e.shell.win {
        Some(win) => if win == e.desk.focused {
            shell_hidden(e)
        } else if ids(e.desk.layout).contains(win) {
            focus_on(e, win)
        } else {
            e
        },
        None => shell_shown(e),
    }
}

/// The shell's window taken down, unless it is the only one.
#[verifier::opaque]
pub open spec fn shell_detached(e: EditorView) -> EditorView {
    match e.shell.win {
        Some(win) => if ids(e.desk.layout).len() > 1 {
            window_detached(e, win)
        } else {
            e
        },
        None => e,
    }
}

/// The shell gone, with its window.
pub open spec fn shell_gone(e: EditorView) -> EditorView {
    let d = shell_detached(e);
    let g = EditorView { shell: ShellView { running: false, win: None, ..d.shell }, ..d };
    if g.keys.mode == Mode::Terminal {
        EditorView { keys: KeysView { mode: Mode::Normal, ..g.keys }, ..g }
    } else {
        g
    }
}

/// The first window from the `i`th on that is neither of two.
pub open spec fn other_window(all: Seq<usize>, a: usize, b: Option<usize>, i: int) -> Option<usize>
    decreases all.len() - i,
{
    if i < 0 || i >= all.len() {
        None
    } else if all[i] != a && Some(all[i]) != b {
        Some(all[i])
    } else {
        other_window(all, a, b, i + 1)
    }
}

/// A text window in front, for a file opened while the shell has the focus.
pub open spec fn off_terminal(e: EditorView) -> EditorView {
    if !terminal_focused_in(e) {
        e
    } else if ids(e.desk.layout).len() != 1 && window_towards(e, Dir::Up) is Some {
        focus_towards(e, Dir::Up)
    } else {
        match other_window(ids(e.desk.layout), e.desk.focused, e.panes.preview, 0) {
            Some(id) => focus_on(e, id),
            None => split_in(e, false),
        }
    }
}

/// The next window focused, and the one that was closed.
pub open spec fn closed_and_gone_on(e: EditorView) -> EditorView {
    let closing = e.desk.focused;
    let n = focus_next_in(e);
    if n.desk.focused == closing {
        n
    } else {
        EditorView { desk: window_closed(n.desk, closing), ..n }
    }
}

/// The focused window closed: the shell is only hidden, and the last text
/// window takes the preview down instead.
pub open spec fn focused_closed(e: EditorView) -> EditorView {
    if terminal_focused_in(e) {
        shell_hidden(e)
    } else if ids(e.desk.layout).len() == 2 && e.panes.preview is Some {
        preview_closed(e)
    } else if ids(e.desk.layout).len() <= 1 {
        e
    } else {
        closed_and_gone_on(e)
    }
}

impl Editor {
    pub(crate) fn sync_focus_mode(&mut self)
        requires
            old(self).wf(),
        ensures
            final(self)@ == focus_synced(old(self)@),
            final(self).wf(),
            final(self)@.desk.docs.len() == old(self)@.desk.docs.len(),
    {
        self.shell.pending = None;
        if !self.terminal_focused() {
            self.off_shell();
            return ;
        }
        if self.keys.mode == Mode::Normal || self.keys.mode == Mode::Insert {
            self.into_shell();
        }
    }

    pub(crate) fn off_shell(&mut self)
        requires
            old(self).wf(),
        ensures
            final(self)@ == shell_mode_left(old(self)@),
            final(self).wf(),
            final(self)@.desk.docs.len() == old(self)@.desk.docs.len(),
    {
        if self.keys.mode == Mode::Terminal {
            self.keys.mode = Mode::Normal;
            self.keys.pending = Vec::new();
            assert(self.keys.pending@ =~= Seq::empty());
        }
    }

    pub(crate) fn into_shell(&mut self)
        requires
            old(self).wf(),
        ensures
            final(self)@ == shell_mode_entered(old(self)@),
            final(self).wf(),
            final(self)@.desk.docs.len() == old(self)@.desk.docs.len(),
    {
        self.set_mode(Mode::Terminal);
        self.keys.extend = false;
    }

    pub fn split_window(&mut self, vertical: bool)
        requires
            old(self).wf(),
        ensures
            final(self)@ == split_in(old(self)@, vertical),
            final(self).wf(),
            final(self)@.desk.docs.len() == old(self)@.desk.docs.len(),
    {
        reveal(split_in);
        reveal(desk_sound);
        self.desk.split(vertical);
        self.sync_focus_mode();
    }

    /// Move the focus to a window.
    pub(crate) fn focus_window(&mut self, id: usize)
        requires
            old(self).wf(),
            ids(old(self)@.desk.layout).contains(id),
        ensures
            final(self)@ == focus_on(old(self)@, id),
            final(self).wf(),
            final(self)@.desk.docs.len() == old(self)@.desk.docs.len(),
    {
        reveal(focus_on);
        reveal(desk_sound);
        self.desk.refocus(id);
        self.sync_focus_mode();
    }

    pub(crate) fn towards(&self, dir: Dir) -> (r: Option<usize>)
        requires
            self.wf(),
        ensures
            r == window_towards(self@, dir),
            r is Some ==> ids(self@.desk.layout).contains(r->0),
    {
        reveal(desk_sound);
        self.desk.neighbour(self.area(), self.focused_rect(), self.panes.preview, dir)
    }

    /// Move the focus in a direction; false where there is no window.
    pub fn focus_window_dir(&mut self, dir: Dir) -> (moved: bool)
        requires
            old(self).wf(),
        ensures
            moved == (window_towards(old(self)@, dir) is Some),
            final(self)@ == focus_towards(old(self)@, dir),
            final(self).wf(),
            final(self)@.desk.docs.len() == old(self)@.desk.docs.len(),
    {
        reveal(focus_towards);
        match self.towards(dir) {
            Some(id) => {
                self.focus_window(id);
                true
            },
            None => false,
        }
    }

    pub fn focus_next_window(&mut self)
        requires
            old(self).wf(),
        ensures
            final(self)@ == focus_next_in(old(self)@),
            final(self).wf(),
    {
        reveal(focus_next_in);
        reveal(desk_sound);
        if let Some(id) = self.desk.next_window(self.panes.preview) {
            self.focus_window(id);
        }
    }

    pub(crate) fn close_preview(&mut self)
        requires
            old(self).wf(),
        ensures
            final(self)@ == preview_closed(old(self)@),
            final(self).wf(),
    {
        reveal(preview_closed);
        reveal(desk_sound);
        if let Some(win) = self.panes.preview {
            self.panes.preview = None;
            self.desk.remove(win);
        }
    }

    pub(crate) fn has_window(&self, id: usize) -> (r: bool)
        ensures
            r == ids(self@.desk.layout).contains(id),
    {
        proof {
            crate::layout::lemma_window_ids(self@.desk.layout, id);
        }
        self.desk.layout.find(id).is_some()
    }

    /// Open the markdown preview beside the buffer, or close it.
    pub fn toggle_preview(&mut self)
        requires
            old(self).wf(),
        ensures
            final(self)@ == preview_toggled(old(self)@),
            final(self).wf(),
    {
        reveal(desk_sound);
        if self.panes.preview.is_some() {
            self.close_preview();
            return ;
        }
        let source = self.desk.focused;
        self.split_window(true);
        let win = self.desk.focused;
        if self.has_window(source) {
            self.desk.refocus(source);
        }
        self.panes.preview = Some(win);
        self.set_status("markdown preview — :md closes it");
    }

    pub(crate) fn detach_window(&mut self, win: usize)
        requires
            old(self).wf(),
        ensures
            final(self)@ == window_detached(old(self)@, win),
            final(self).wf(),
    {
        reveal(window_detached);
        reveal(focus_towards);
        reveal(desk_sound);
        if self.desk.focused == win {
            if !self.focus_window_dir(Dir::Up) {
                self.focus_next_window();
            }
        }
        self.desk.remove(win);
        self.sync_focus_mode();
    }

    pub(crate) fn hide_terminal(&mut self)
        requires
            old(self).wf(),
        ensures
            final(self)@ == shell_hidden(old(self)@),
            final(self).wf(),
    {
        reveal(shell_hidden);
        if let Some(win) = self.shell.win {
            if self.window_count() <= 1 {
                self.set_status(
                    "the terminal is the last window — :q! quits, or exit the shell",
                );
                return ;
            }
            self.detach_window(win);
            self.shell.win = None;
            self.ask(Effect::CheckDisk);
        }
    }

    /// Show the shell in a window of its own.
    pub(crate) fn show_shell_window(&mut self) -> (size: (u16, u16))
        requires
            old(self).wf(),
        ensures
            final(self)@ == shell_window(old(self)@),
            size == (
                focused_rect_of(split_in(old(self)@, false)).2,
                focused_rect_of(split_in(old(self)@, false)).3,
            ),
            final(self).wf(),
    {
        reveal(shell_window);
        self.split_window(false);
        let r = self.focused_rect();
        self.shell.running = true;
        self.shell.win = Some(self.desk.focused);
        self.shell.rows = r.3;
        self.sync_focus_mode();
        (r.2, r.3)
    }

    pub(crate) fn show_terminal(&mut self)
        requires
            old(self).wf(),
        ensures
            final(self)@ == shell_shown(old(self)@),
            final(self).wf(),
    {
        let running = self.shell.running;
        let (width, height) = self.show_shell_window();
        if running {
            self.ask(Effect::ResizeShell { width, height });
        } else {
            self.ask(Effect::StartShell { width, height });
        }
        self.set_status(
            "terminal — C-\\ C-n for normal mode, space t hides it, exit closes it",
        );
    }

    pub fn toggle_terminal(&mut self)
        requires
            old(self).wf(),
        ensures
            final(self)@ == shell_toggled(old(self)@),
            final(self).wf(),
    {
        match self.shell.win {
            Some(win) => {
                if win == self.desk.focused {
                    self.hide_terminal();
                } else if self.has_window(win) {
                    self.focus_window(win);
                }
            },
            None => {
                self.show_terminal();
            },
        }
    }

    pub(crate) fn detach_shell(&mut self)
        requires
            old(self).wf(),
        ensures
            final(self)@ == shell_detached(old(self)@),
            final(self).wf(),
    {
        reveal(shell_detached);
        if let Some(win) = self.shell.win {
            if self.window_count() > 1 {
                self.detach_window(win);
                return ;
            }
        }
    }

    /// The shell has exited, or could not be started: drop its window.
    pub fn drop_terminal(&mut self)
        requires
            old(self).wf(),
        ensures
            final(self)@ == shell_gone(old(self)@),
            final(self).wf(),
    {
        self.detach_shell();
        self.shell.running = false;
        self.shell.win = None;
        if self.keys.mode == Mode::Terminal {
            self.keys.mode = Mode::Normal;
        }
    }

    /// Hang up on the shell and drop its window.
    pub fn close_terminal(&mut self)
        requires
            old(self).wf(),
        ensures
            final(self)@ == asking(shell_gone(old(self)@), EffectView::CloseShell),
            final(self).wf(),
    {
        self.drop_terminal();
        self.ask(Effect::CloseShell);
    }

    /// Put a text window in front.
    pub(crate) fn leave_terminal_for_edit(&mut self)
        requires
            old(self).wf(),
        ensures
            final(self)@ == off_terminal(old(self)@),
            final(self).wf(),
            final(self)@.desk.docs.len() == old(self)@.desk.docs.len(),
    {
        reveal(focus_towards);
        if !self.terminal_focused() {
            return ;
        }
        if self.window_count() != 1 {
            if self.focus_window_dir(Dir::Up) {
                return ;
            }
        }
        let mut all: Vec<usize> = Vec::new();
        self.desk.layout.leaf_ids(&mut all);
        assert(all@ =~= ids(self@.desk.layout));
        let ghost e = self@;
        let mut i: usize = 0;
        while i < all.len()
            invariant
                i <= all@.len(),
                all@ == ids(e.desk.layout),
                self@ == e,
                self.wf(),
                e == old(self)@,
                terminal_focused_in(e),
                ids(e.desk.layout).len() == 1 || window_towards(e, Dir::Up) is None,
                other_window(all@, e.desk.focused, e.panes.preview, 0) == other_window(
                    all@,
                    e.desk.focused,
                    e.panes.preview,
                    i as int,
                ),
            decreases all@.len() - i,
        {
            let id = all[i];
            let previewed = match self.panes.preview {
                Some(p) => p == id,
                None => false,
            };
            if id != self.desk.focused && !previewed {
                assert(ids(e.desk.layout).contains(id));
                self.focus_window(id);
                return ;
            }
            i += 1;
        }
        self.split_window(false);
    }

    pub(crate) fn close_and_go_on(&mut self)
        requires
            old(self).wf(),
        ensures
            final(self)@ == closed_and_gone_on(old(self)@),
            final(self).wf(),
    {
        reveal(desk_sound);
        let closing = self.desk.focused;
        self.focus_next_window();
        if self.desk.focused != closing {
            self.desk.close(closing);
        }
    }

    /// Close the focused window.
    pub fn close_focused_window(&mut self)
        requires
            old(self).wf(),
        ensures
            final(self)@ == focused_closed(old(self)@),
            final(self).wf(),
    {
        reveal(desk_sound);
        if self.terminal_focused() {
            self.hide_terminal();
            return ;
        }
        if self.window_count() == 2 && self.panes.preview.is_some() {
            self.close_preview();
            return ;
        }
        if self.window_count() <= 1 {
            return ;
        }
        self.close_and_go_on();
    }
}

} // verus!
