//! The shell's window: its keys, its normal mode, and its end.

use vstd::prelude::*;
use crate::acts::command_line_opened;
use crate::commands::Command;
use crate::dispatch::ran;
use crate::editor::{
    asking, count_of, count_taken, keymaps_sound, said, Editor, EditorView,
};
use crate::keymap::{looked_up, Key, KeyCode, KeymapResult, Trie};
use crate::prompts::{bare_mode, char_of_key, plain_char};
use crate::state::{Effect, EffectView, KeysView, Mode, ShellView};
use crate::strings::{
    char_is_digit, chars_of, decimal, digit_value, is_digit, push_lit, push_number, string_of,
    text_between, with_text,
};
use crate::tools::install_done;
use crate::windows::{focus_next_in, shell_gone};

verus! {

// ---- counts -----------------------------------------------------------------------

/// A digit that builds a count: a leading zero does not.
#[verifier::opaque]
pub open spec fn count_digit(e: EditorView, key: Key) -> Option<nat> {
    match plain_char(key) {
        Some(c) => if is_digit(c) && e.keys.pending.len() == 0 && !(c == '0' && e.keys.count
            is None) {
            Some(digit_value(c))
        } else {
            None
        },
        None => None,
    }
}

pub open spec fn capped_usize(n: int) -> usize {
    if n > usize::MAX {
        usize::MAX
    } else {
        n as usize
    }
}

/// A count with one more digit, as large as it can get.
#[verifier::opaque]
pub open spec fn count_grown(e: EditorView, digit: nat) -> EditorView {
    let before = match e.keys.count {
        Some(n) => n,
        None => 0,
    };
    EditorView {
        keys: KeysView {
            count: Some(capped_usize(capped_usize(before * 10) + digit as int)),
            ..e.keys
        },
        ..e
    }
}

impl Editor {
    pub(crate) fn digit_of(&self, key: Key) -> (r: Option<usize>)
        ensures
            match r {
                Some(d) => count_digit(self@, key) == Some(d as nat) && d <= 9,
                None => count_digit(self@, key) is None,
            },
    {
        reveal(count_digit);
        match char_of_key(key) {
            Some(c) => if char_is_digit(c) && self.keys.pending.len() == 0 && !(c == '0'
                && self.keys.count.is_none()) {
                Some((c as u32 - '0' as u32) as usize)
            } else {
                None
            },
            None => None,
        }
    }

    pub(crate) fn grow_count(&mut self, digit: usize)
        requires
            old(self).wf(),
        ensures
            final(self)@ == count_grown(old(self)@, digit as nat),
            final(self).wf(),
    {
        reveal(count_grown);
        let before: usize = match self.keys.count {
            Some(n) => n,
            None => 0,
        };
        let tens: usize = match before.checked_mul(10) {
            Some(t) => t,
            None => usize::MAX,
        };
        let n = tens.saturating_add(digit);
        self.keys.count = Some(n);
    }

    pub(crate) fn push_pending(&mut self, key: Key)
        requires
            old(self).wf(),
        ensures
            final(self)@ == pending_with(old(self)@, key),
            final(self).wf(),
    {
        self.keys.pending.push(key);
    }

    /// What the keys so far come to in normal mode.
    pub(crate) fn look_up_normal(&self) -> (r: KeymapResult)
        requires
            self.wf(),
        ensures
            r == came_to(self@.keymaps.normal, self@.keys.pending),
    {
        reveal(came_to);
        reveal(keymaps_sound);
        self.keymaps.normal.lookup(self.keys.pending.as_slice())
    }
}

pub open spec fn pending_with(e: EditorView, key: Key) -> EditorView {
    EditorView { keys: KeysView { pending: e.keys.pending.push(key), ..e.keys }, ..e }
}

pub open spec fn pending_cleared(e: EditorView) -> EditorView {
    EditorView { keys: KeysView { pending: Seq::empty(), ..e.keys }, ..e }
}

/// What keys come to in a keymap.
#[verifier::opaque]
pub open spec fn came_to(map: Trie, keys: Seq<Key>) -> KeymapResult {
    looked_up(map, keys)
}

// ---- normal mode over the shell ---------------------------------------------------

/// How far a command scrolls the shell's history, back where it is positive.
#[verifier::opaque]
pub open spec fn scroll_of(c: Command, count: int, rows: int) -> Option<int> {
    match c {
        Command::MoveUp => Some(count),
        Command::MoveDown => Some(-count),
        Command::HalfPageUp => Some(rows / 2 * count),
        Command::HalfPageDown => Some(-(rows / 2 * count)),
        Command::PageUp => Some(rows * count),
        Command::PageDown => Some(-(rows * count)),
        Command::GotoFileStart => Some(isize::MAX as int),
        Command::GotoFileEnd => Some(-(isize::MAX as int)),
        _ => None,
    }
}

pub open spec fn capped_isize(n: int) -> isize {
    if n > isize::MAX {
        isize::MAX
    } else if n < -isize::MAX {
        (-isize::MAX) as isize
    } else {
        n as isize
    }
}

/// The commands that go back to the shell.
pub open spec fn enters_shell(c: Command) -> bool {
    match c {
        Command::InsertMode | Command::Append | Command::InsertAtLineStart
        | Command::AppendAtLineEnd | Command::OpenBelow | Command::OpenAbove => true,
        _ => false,
    }
}

/// The commands that work over the shell as anywhere.
pub open spec fn runs_over_shell(c: Command) -> bool {
    match c {
        Command::Quit | Command::Terminal | Command::NormalMode | Command::FocusLeft
        | Command::FocusRight | Command::FocusUp | Command::FocusDown | Command::NextWindow
        | Command::SplitVertical | Command::SplitHorizontal | Command::CommandMode
        | Command::CommandPalette | Command::FindFiles | Command::GrepText | Command::RecentFiles
        | Command::FileExplorer | Command::TreeToggle | Command::ToggleHidden
        | Command::ThemePicker => true,
        _ => false,
    }
}

/// A command while the shell's window is in normal mode: motions scroll its
/// history.
#[verifier::opaque]
pub open spec fn shell_ran(e: EditorView, c: Command) -> EditorView {
    let t = count_taken(e);
    let rows: int = if e.shell.running {
        e.shell.rows as int
    } else {
        1
    };
    match scroll_of(c, count_of(e) as int, rows) {
        Some(n) => asking(t, EffectView::ShellScroll(capped_isize(n))),
        None => if enters_shell(c) {
            bare_mode(
                asking(t, EffectView::ShellScroll(capped_isize(-(isize::MAX as int)))),
                Mode::Terminal,
            )
        } else if runs_over_shell(c) {
            ran(t, c)
        } else {
            t
        },
    }
}

fn scroll_by(c: Command, count: usize, rows: u16) -> (r: Option<isize>)
    ensures
        match r {
            Some(n) => scroll_of(c, count as int, rows as int) is Some && n == capped_isize(
                scroll_of(c, count as int, rows as int)->0,
            ),
            None => scroll_of(c, count as int, rows as int) is None,
        },
{
    reveal(scroll_of);
    let n: i128 = count as i128;
    let whole: i128 = rows as i128;
    let half: i128 = whole / 2;
    proof {
        assert(0 <= whole * n <= 0x1_0000 * 0x1_0000_0000_0000_0000) by (nonlinear_arith)
            requires
                0 <= whole <= 0xffff,
                0 <= n <= 0xffff_ffff_ffff_ffff,
        ;
        assert(0 <= half * n <= 0x1_0000 * 0x1_0000_0000_0000_0000) by (nonlinear_arith)
            requires
                0 <= half <= 0xffff,
                0 <= n <= 0xffff_ffff_ffff_ffff,
        ;
    }
    let far: i128 = isize::MAX as i128;
    let by: i128 = match c {
        Command::MoveUp => n,
        Command::MoveDown => -n,
        Command::HalfPageUp => half * n,
        Command::HalfPageDown => -(half * n),
        Command::PageUp => whole * n,
        Command::PageDown => -(whole * n),
        Command::GotoFileStart => far,
        Command::GotoFileEnd => -far,
        _ => {
            return None;
        },
    };
    Some(
        if by > far {
            isize::MAX
        } else if by < -far {
            -isize::MAX
        } else {
            by as isize
        },
    )
}

fn is_entry(c: Command) -> (r: bool)
    ensures
        r == enters_shell(c),
{
    match c {
        Command::InsertMode | Command::Append | Command::InsertAtLineStart
        | Command::AppendAtLineEnd | Command::OpenBelow | Command::OpenAbove => true,
        _ => false,
    }
}

fn is_allowed(c: Command) -> (r: bool)
    ensures
        r == runs_over_shell(c),
{
    match c {
        Command::Quit | Command::Terminal | Command::NormalMode | Command::FocusLeft
        | Command::FocusRight | Command::FocusUp | Command::FocusDown | Command::NextWindow
        | Command::SplitVertical | Command::SplitHorizontal | Command::CommandMode
        | Command::CommandPalette | Command::FindFiles | Command::GrepText | Command::RecentFiles
        | Command::FileExplorer | Command::TreeToggle | Command::ToggleHidden
        | Command::ThemePicker => true,
        _ => false,
    }
}

/// The keys so far over the shell's window, looked up.
#[verifier::opaque]
pub open spec fn shell_looked_up(p: EditorView) -> EditorView {
    match came_to(p.keymaps.normal, p.keys.pending) {
        KeymapResult::Pending => p,
        KeymapResult::Matched(c) => count_taken(shell_ran(pending_cleared(p), c)),
        KeymapResult::NotFound => count_taken(pending_cleared(p)),
    }
}

/// A key while the shell's window is in normal mode.
#[verifier::opaque]
pub open spec fn shell_normal_keyed(e: EditorView, key: Key) -> EditorView {
    match count_digit(e, key) {
        Some(d) => count_grown(e, d),
        None => shell_looked_up(pending_with(e, key)),
    }
}

impl Editor {
    pub(crate) fn run_terminal_command(&mut self, c: Command)
        requires
            old(self).wf(),
        ensures
            final(self)@ == shell_ran(old(self)@, c),
            final(self).wf(),
    {
        reveal(shell_ran);
        let rows: u16 = if self.shell.running {
            self.shell.rows
        } else {
            1
        };
        let n = self.take_count();
        if let Some(by) = scroll_by(c, n, rows) {
            self.ask(Effect::ShellScroll(by));
            return ;
        }
        if is_entry(c) {
            self.ask(Effect::ShellScroll(-isize::MAX));
            self.set_bare_mode(Mode::Terminal);
            return ;
        }
        if is_allowed(c) {
            self.run_once(c);
        }
    }

    pub(crate) fn handle_terminal_normal_key(&mut self, key: Key)
        requires
            old(self).wf(),
        ensures
            final(self)@ == shell_normal_keyed(old(self)@, key),
            final(self).wf(),
    {
        reveal(shell_normal_keyed);
        if let Some(d) = self.digit_of(key) {
            self.grow_count(d);
            return ;
        }
        self.push_pending(key);
        self.look_up_over_shell();
    }

    fn run_found_over_shell(&mut self, c: Command)
        requires
            old(self).wf(),
        ensures
            final(self)@ == count_taken(shell_ran(pending_cleared(old(self)@), c)),
            final(self).wf(),
    {
        self.clear_pending();
        self.run_terminal_command(c);
        self.set_count(None);
    }

    pub(crate) fn forget_keys(&mut self)
        requires
            old(self).wf(),
        ensures
            final(self)@ == count_taken(pending_cleared(old(self)@)),
            final(self).wf(),
    {
        self.clear_pending();
        self.set_count(None);
    }

    fn look_up_over_shell(&mut self)
        requires
            old(self).wf(),
        ensures
            final(self)@ == shell_looked_up(old(self)@),
            final(self).wf(),
    {
        reveal(shell_looked_up);
        match self.look_up_normal() {
            KeymapResult::Pending => {
                return ;
            },
            KeymapResult::Matched(c) => {
                self.run_found_over_shell(c);
                return ;
            },
            KeymapResult::NotFound => {
                self.forget_keys();
                return ;
            },
        }
    }
}

// ---- keys for the shell -----------------------------------------------------------

pub open spec fn ctrl_key(c: char) -> Key {
    Key { code: KeyCode::Char(c), ctrl: true, alt: false }
}

/// The key that leads out of the shell; some terminals report it otherwise.
pub open spec fn leads_out(k: Key) -> bool {
    k == ctrl_key('\\') || k == ctrl_key('4')
}

pub open spec fn prefix_set(e: EditorView, k: Option<Key>) -> EditorView {
    EditorView { shell: ShellView { pending: k, ..e.shell }, ..e }
}

pub open spec fn left_to_normal(e: EditorView) -> EditorView {
    said(
        bare_mode(e, Mode::Normal),
        "normal mode — i returns to the shell, space t hides it"@,
    )
}

/// A key behind a prefix key.
#[verifier::opaque]
pub open spec fn shell_prefixed(e: EditorView, prefix: Key, key: Key) -> EditorView {
    if leads_out(prefix) {
        if key == ctrl_key('n') {
            left_to_normal(e)
        } else {
            asking(asking(e, EffectView::ShellKey(prefix)), EffectView::ShellKey(key))
        }
    } else if plain_char(key) == Some('N') {
        left_to_normal(e)
    } else if plain_char(key) == Some('.') {
        asking(e, EffectView::ShellKey(prefix))
    } else if plain_char(key) == Some(':') {
        command_line_opened(e)
    } else if key.code == KeyCode::Char('w') && key.ctrl {
        focus_next_in(e)
    } else {
        match came_to(e.keymaps.normal, seq![prefix, key]) {
            KeymapResult::Matched(c) => shell_ran(e, c),
            _ => e,
        }
    }
}

/// A key while the shell has the keyboard.
#[verifier::opaque]
pub open spec fn shell_keyed(e: EditorView, key: Key) -> EditorView {
    if !e.shell.running {
        bare_mode(e, Mode::Normal)
    } else {
        match e.shell.pending {
            Some(prefix) => shell_prefixed(prefix_set(e, None), prefix, key),
            None => if leads_out(key) || key == ctrl_key('w') {
                prefix_set(e, Some(key))
            } else {
                asking(e, EffectView::ShellKey(key))
            },
        }
    }
}

fn is_ctrl(k: Key, c: char) -> (r: bool)
    ensures
        r == (k == ctrl_key(c)),
{
    match k.code {
        KeyCode::Char(x) => x == c && k.ctrl && !k.alt,
        _ => false,
    }
}

impl Editor {
    fn set_prefix(&mut self, k: Option<Key>)
        requires
            old(self).wf(),
        ensures
            final(self)@ == prefix_set(old(self)@, k),
            final(self).wf(),
    {
        self.shell.pending = k;
    }

    fn leave_to_normal(&mut self)
        requires
            old(self).wf(),
        ensures
            final(self)@ == left_to_normal(old(self)@),
            final(self).wf(),
    {
        self.set_bare_mode(Mode::Normal);
        self.set_status("normal mode — i returns to the shell, space t hides it");
    }

    fn look_up_pair(&self, a: Key, b: Key) -> (r: KeymapResult)
        requires
            self.wf(),
        ensures
            r == came_to(self@.keymaps.normal, seq![a, b]),
    {
        reveal(came_to);
        reveal(keymaps_sound);
        let mut v: Vec<Key> = Vec::new();
        v.push(a);
        v.push(b);
        assert(v@ =~= seq![a, b]);
        self.keymaps.normal.lookup(v.as_slice())
    }

    fn key_behind_prefix(&mut self, prefix: Key, key: Key)
        requires
            old(self).wf(),
        ensures
            final(self)@ == shell_prefixed(old(self)@, prefix, key),
            final(self).wf(),
    {
        reveal(shell_prefixed);
        if is_ctrl(prefix, '\\') || is_ctrl(prefix, '4') {
            if is_ctrl(key, 'n') {
                self.leave_to_normal();
                return ;
            }
            self.ask(Effect::ShellKey(prefix));
            self.ask(Effect::ShellKey(key));
            return ;
        }
        if let Some(c) = char_of_key(key) {
            if c == 'N' {
                self.leave_to_normal();
                return ;
            }
            if c == '.' {
                self.ask(Effect::ShellKey(prefix));
                return ;
            }
            if c == ':' {
                self.command_mode();
                return ;
            }
        }
        if key.code == KeyCode::Char('w') && key.ctrl {
            self.focus_next_window();
            return ;
        }
        if let KeymapResult::Matched(c) = self.look_up_pair(prefix, key) {
            self.run_terminal_command(c);
        }
    }

    /// A key while the shell has the keyboard.
    pub(crate) fn handle_terminal_key(&mut self, key: Key)
        requires
            old(self).wf(),
        ensures
            final(self)@ == shell_keyed(old(self)@, key),
            final(self).wf(),
    {
        reveal(shell_keyed);
        if !self.shell.running {
            self.set_bare_mode(Mode::Normal);
            return ;
        }
        if let Some(prefix) = self.shell.pending {
            self.set_prefix(None);
            self.key_behind_prefix(prefix, key);
            return ;
        }
        if is_ctrl(key, '\\') || is_ctrl(key, '4') || is_ctrl(key, 'w') {
            self.set_prefix(Some(key));
            return ;
        }
        self.ask(Effect::ShellKey(key));
    }
}

// ---- its end ----------------------------------------------------------------------

#[verifier::opaque]
pub open spec fn exit_text(code: i32) -> Seq<char> {
    if code == 0 {
        "shell exited"@
    } else {
        "shell exited with status "@ + signed(code as int)
    }
}

pub open spec fn signed(n: int) -> Seq<char> {
    if n < 0 {
        seq!['-'] + decimal((-n) as nat)
    } else {
        decimal(n as nat)
    }
}

/// No program is awaited from the shell.
pub open spec fn install_dropped(e: EditorView) -> EditorView {
    EditorView { shell: ShellView { install: None, ..e.shell }, ..e }
}

/// The shell has ended; where it ran an installer, that has too. `there` says
/// whether the program can now be run.
#[verifier::opaque]
pub open spec fn shell_ended(e: EditorView, code: i32, there: bool) -> EditorView {
    let g = shell_gone(e);
    let t = install_dropped(g);
    match g.shell.install {
        Some((program, own)) => if !own {
            t
        } else if code != 0 {
            said(t, program + ": install failed — :install "@ + program + " to retry"@)
        } else if there {
            install_done(t, program)
        } else {
            said(t, program + ": installed, but not on PATH"@)
        },
        None => said(t, exit_text(code)),
    }
}

fn say_exit(code: i32) -> (r: String)
    ensures
        r@ == exit_text(code),
{
    reveal(exit_text);
    if code == 0 {
        return "shell exited".to_owned();
    }
    let mut v: Vec<char> = Vec::new();
    push_lit(&mut v, "shell exited with status ");
    if code < 0 {
        v.push('-');
        push_number(&mut v, (-(code as i64)) as u64);
    } else {
        push_number(&mut v, code as u64);
    }
    assert(v@ =~= exit_text(code));
    string_of(&v)
}

fn say_retry(program: &str) -> (r: String)
    ensures
        r@ == program@ + ": install failed — :install "@ + program@ + " to retry"@,
{
    let mut v = chars_of(program);
    push_lit(&mut v, ": install failed — :install ");
    push_lit(&mut v, program);
    push_lit(&mut v, " to retry");
    assert(v@ =~= program@ + ": install failed — :install "@ + program@ + " to retry"@);
    string_of(&v)
}

impl Editor {
    /// The shell has ended with a status. `there` says whether the program
    /// that it installed, if any, can be run.
    pub fn shell_exited(&mut self, code: i32, there: bool)
        requires
            old(self).wf(),
        ensures
            final(self)@ == shell_ended(old(self)@, code, there),
            final(self).wf(),
    {
        reveal(shell_ended);
        self.drop_terminal();
        match self.take_shell_install() {
            Some((program, own)) => {
                if !own {
                    return ;
                }
                if code != 0 {
                    let m = say_retry(program.as_str());
                    self.set_status(m.as_str());
                    return ;
                }
                if there {
                    self.finish_install(program.as_str());
                    return ;
                }
                let m = with_text(program.as_str(), ": installed, but not on PATH");
                self.set_status(m.as_str());
                return ;
            },
            None => {},
        }
        let m = say_exit(code);
        self.set_status(m.as_str());
    }

    /// The shell could not be started: what it was to install is not awaited.
    pub fn shell_failed(&mut self, program: &str, why: &str)
        requires
            old(self).wf(),
        ensures
            final(self)@ == said(
                install_dropped(shell_gone(old(self)@)),
                "Error: can't start "@ + program@ + (": "@ + why@),
            ),
            final(self).wf(),
    {
        let tail = with_text(": ", why);
        let m = text_between("Error: can't start ", program, tail.as_str());
        self.drop_terminal();
        let _ = self.take_shell_install();
        self.set_status(m.as_str());
    }
}

} // verus!
