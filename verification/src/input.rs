//! A key from outside: the panes that take it first, recording, and replays.

use vstd::prelude::*;
use crate::commands::Command;
use crate::dispatch::ran;
use crate::document::{min_int, DocView, Document};
use crate::editor::{
    count_of, doc_of, inserting, keymaps_sound, on_doc, said, terminal_focused_in, Editor,
    EditorView,
};
use crate::help::{help_keyed, line_op, line_op_of};
use crate::keymap::{Key, KeyCode, KeymapResult};
use crate::keys::{dispatched, prefixes_dropped, step_closed};
use crate::motions::max_of;
use crate::picker_keys::picker_keyed;
use crate::prompts::{char_of_key, plain_char, search_keyed};
use crate::registers::RegistersView;
use crate::shell::{
    came_to, count_digit, count_grown, pending_cleared, pending_with, shell_keyed,
    shell_normal_keyed,
};
use crate::state::{KeysView, Mode, PanesView, ToolsView};
use crate::strings::{string_of, push_lit, chars_of, texts};
use crate::suggest::command_keyed;
use crate::tools::install_begun;
use crate::tree_keys::tree_keyed;
use crate::typing::{completion_keyed, typed_in};
use crate::waits::{char_waited, wrapped_in};

verus! {

// ---- the keymap -------------------------------------------------------------------

/// A key that is bound to nothing: text, in insert mode.
#[verifier::opaque]
pub open spec fn unbound(e: EditorView, key: Key) -> EditorView {
    let t = match plain_char(key) {
        Some(c) => if inserting(e) && e.keys.pending.len() == 1 {
            typed_in(e, c)
        } else {
            e
        },
        None => e,
    };
    prefixes_dropped(pending_cleared(t))
}

/// The keys so far looked up in the keymap of the mode.
#[verifier::opaque]
pub open spec fn looked_up_keys(e: EditorView, key: Key) -> EditorView {
    match came_to(
        if inserting(e) {
            e.keymaps.insert
        } else {
            e.keymaps.normal
        },
        e.keys.pending,
    ) {
        KeymapResult::Pending => e,
        KeymapResult::Matched(c) => dispatched(e, c),
        KeymapResult::NotFound => unbound(e, key),
    }
}

impl Editor {
    fn take_unbound(&mut self, key: Key)
        requires
            old(self).wf(),
        ensures
            final(self)@ == unbound(old(self)@, key),
            final(self).wf(),
    {
        reveal(unbound);
        if let Some(c) = char_of_key(key) {
            if self.keys.mode == Mode::Insert && self.keys.pending.len() == 1 {
                self.insert_typed(c);
            }
        }
        self.clear_pending();
        self.drop_prefixes();
    }

    fn look_up(&self) -> (r: KeymapResult)
        requires
            self.wf(),
        ensures
            r == came_to(
                if inserting(self@) {
                    self@.keymaps.insert
                } else {
                    self@.keymaps.normal
                },
                self@.keys.pending,
            ),
    {
        reveal(came_to);
        reveal(keymaps_sound);
        if self.keys.mode == Mode::Insert {
            self.keymaps.insert.lookup(self.keys.pending.as_slice())
        } else {
            self.keymaps.normal.lookup(self.keys.pending.as_slice())
        }
    }

    fn look_up_keys(&mut self, key: Key)
        requires
            old(self).wf(),
        ensures
            final(self)@ == looked_up_keys(old(self)@, key),
            final(self).wf(),
    {
        reveal(looked_up_keys);
        match self.look_up() {
            KeymapResult::Pending => {
                return ;
            },
            KeymapResult::Matched(c) => {
                self.dispatch(c);
                return ;
            },
            KeymapResult::NotFound => {
                self.take_unbound(key);
                return ;
            },
        }
    }
}

// ---- what may stand before a command ----------------------------------------------

pub open spec fn register_named(e: EditorView, c: Option<char>) -> EditorView {
    EditorView {
        keys: KeysView { awaiting_register: false, ..e.keys },
        registers: RegistersView { active: c, ..e.registers },
        ..e
    }
}

/// The key of a doubled one that a first press arms: with nothing selected, and
/// a single cursor.
#[verifier::opaque]
pub open spec fn arms(e: EditorView, key: Key) -> Option<char> {
    match plain_char(key) {
        Some(c) => if e.keys.mode == Mode::Normal && !e.keys.extend && e.keys.pending.len() == 0
            && doc_of(e).anchor == doc_of(e).cursor && doc_of(e).extra.len() == 0 && line_op_of(c)
            is Some {
            Some(c)
        } else {
            None
        },
        None => None,
    }
}

pub open spec fn armed(e: EditorView, c: char) -> EditorView {
    EditorView {
        keys: KeysView { pending_line_op: Some((c, count_of(e))), count: None, ..e.keys },
        ..e
    }
}

/// A key that begins or goes on with a command.
#[verifier::opaque]
pub open spec fn prefix_keyed(e: EditorView, key: Key) -> EditorView {
    let fresh = e.keys.mode == Mode::Normal && e.keys.pending.len() == 0;
    if fresh && e.keys.awaiting_register {
        register_named(e, plain_char(key))
    } else if fresh && plain_char(key) == Some('"') {
        EditorView { keys: KeysView { awaiting_register: true, ..e.keys }, ..e }
    } else if e.keys.mode == Mode::Normal && count_digit(e, key) is Some {
        count_grown(e, count_digit(e, key)->0)
    } else {
        match arms(e, key) {
            Some(c) => armed(e, c),
            None => looked_up_keys(pending_with(e, key), key),
        }
    }
}

impl Editor {
    fn name_register(&mut self, c: Option<char>)
        requires
            old(self).wf(),
        ensures
            final(self)@ == register_named(old(self)@, c),
            final(self).wf(),
    {
        self.keys.awaiting_register = false;
        self.registers.active = c;
    }

    fn await_register(&mut self)
        requires
            old(self).wf(),
        ensures
            final(self)@ == (EditorView {
                keys: KeysView { awaiting_register: true, ..old(self)@.keys },
                ..old(self)@
            }),
            final(self).wf(),
    {
        self.keys.awaiting_register = true;
    }

    fn arming(&self, key: Key) -> (r: Option<char>)
        requires
            self.wf(),
        ensures
            r == arms(self@, key),
    {
        reveal(arms);
        match char_of_key(key) {
            Some(c) => {
                let d = self.doc();
                if self.keys.mode == Mode::Normal && !self.keys.extend && self.keys.pending.len()
                    == 0 && d.anchor == d.cursor && d.extra.len() == 0 && line_op(c).is_some() {
                    Some(c)
                } else {
                    None
                }
            },
            None => None,
        }
    }

    fn arm(&mut self, c: char)
        requires
            old(self).wf(),
        ensures
            final(self)@ == armed(old(self)@, c),
            final(self).wf(),
    {
        let n: usize = match self.keys.count {
            Some(n) => n,
            None => 1,
        };
        self.keys.pending_line_op = Some((c, n));
        self.keys.count = None;
    }

    fn is_fresh(&self) -> (r: bool)
        ensures
            r == (self@.keys.mode == Mode::Normal && self@.keys.pending.len() == 0),
    {
        self.keys.mode == Mode::Normal && self.keys.pending.len() == 0
    }

    fn key_prefix(&mut self, key: Key)
        requires
            old(self).wf(),
        ensures
            final(self)@ == prefix_keyed(old(self)@, key),
            final(self).wf(),
    {
        reveal(prefix_keyed);
        let fresh = self.is_fresh();
        let typed = char_of_key(key);
        if fresh && self.keys.awaiting_register {
            self.name_register(typed);
            return ;
        }
        if let Some(c) = typed {
            if fresh && c == '"' {
                self.await_register();
                return ;
            }
        }
        if self.keys.mode == Mode::Normal {
            if let Some(d) = self.digit_of(key) {
                self.grow_count(d);
                return ;
            }
        }
        if let Some(c) = self.arming(key) {
            self.arm(c);
            return ;
        }
        self.push_pending(key);
        self.look_up_keys(key);
    }
}

// ---- keys that are waited for -----------------------------------------------------

pub open spec fn silenced(e: EditorView) -> EditorView {
    said(e, Seq::empty())
}

/// A key that something waits for, or else one of a command.
#[verifier::opaque]
pub open spec fn waited_keyed(e: EditorView, key: Key) -> EditorView {
    if e.keys.awaiting_surround {
        let n = EditorView { keys: KeysView { awaiting_surround: false, ..e.keys }, ..e };
        match plain_char(key) {
            Some(c) => on_doc(n, wrapped_in(doc_of(n), c)),
            None => n,
        }
    } else {
        match e.keys.awaiting_char {
            Some(wait) => {
                let n = silenced(
                    EditorView { keys: KeysView { awaiting_char: None, ..e.keys }, ..e },
                );
                match plain_char(key) {
                    Some(c) => char_waited(n, wait, c),
                    None => n,
                }
            },
            None => prefix_keyed(e, key),
        }
    }
}

impl Editor {
    fn stop_awaiting_surround(&mut self)
        requires
            old(self).wf(),
        ensures
            final(self)@ == (EditorView {
                keys: KeysView { awaiting_surround: false, ..old(self)@.keys },
                ..old(self)@
            }),
            final(self).wf(),
    {
        self.keys.awaiting_surround = false;
    }

    pub(crate) fn clear_status(&mut self)
        requires
            old(self).wf(),
        ensures
            final(self)@ == silenced(old(self)@),
            final(self).wf(),
    {
        self.lines.status = String::new();
        assert(self.lines.status@ =~= Seq::empty());
    }

    fn wrap_front(&mut self, c: char)
        requires
            old(self).wf(),
        ensures
            final(self)@ == on_doc(old(self)@, wrapped_in(doc_of(old(self)@), c)),
            final(self).wf(),
    {
        self.doc_mut().wrap_in(c);
    }

    fn key_waited(&mut self, key: Key)
        requires
            old(self).wf(),
        ensures
            final(self)@ == waited_keyed(old(self)@, key),
            final(self).wf(),
    {
        reveal(waited_keyed);
        let typed = char_of_key(key);
        if self.keys.awaiting_surround {
            self.stop_awaiting_surround();
            if let Some(c) = typed {
                self.wrap_front(c);
                return ;
            }
            return ;
        }
        if let Some(wait) = self.keys.awaiting_char {
            self.wait_char(None);
            self.clear_status();
            if let Some(c) = typed {
                self.char_wait(wait, c);
                return ;
            }
            return ;
        }
        self.key_prefix(key);
    }
}

// ---- panes ------------------------------------------------------------------------

/// A key while the menu of completions is open, or else one that is waited
/// for.
#[verifier::opaque]
pub open spec fn menu_first(e: EditorView, key: Key) -> EditorView {
    if inserting(e) && e.panes.completion is Some {
        let k = completion_keyed(e, key);
        if k.1 {
            k.0
        } else {
            waited_keyed(k.0, key)
        }
    } else {
        waited_keyed(e, key)
    }
}

/// A key by the pane or the prompt that has the keyboard.
#[verifier::opaque]
pub open spec fn pane_keyed(e: EditorView, key: Key) -> EditorView {
    match e.panes.help_scroll {
        Some(at) => help_keyed(e, key, at),
        None => if e.keys.mode == Mode::Command {
            command_keyed(e, key)
        } else if e.keys.mode == Mode::Search {
            search_keyed(e, key)
        } else if e.keys.mode == Mode::Picker {
            picker_keyed(e, key)
        } else if e.sidebar.focused {
            tree_keyed(e, key)
        } else if terminal_focused_in(e) {
            shell_normal_keyed(e, key)
        } else {
            menu_first(e, key)
        },
    }
}

pub open spec fn disarmed(e: EditorView) -> EditorView {
    EditorView { keys: KeysView { pending_line_op: None, ..e.keys }, ..e }
}

#[verifier::opaque]
pub open spec fn bare_and_closed(d: DocView) -> DocView {
    step_closed(DocView { anchor: d.cursor, ..d })
}

/// A doubled key: its command on the line.
#[verifier::opaque]
pub open spec fn doubled(e: EditorView, c: Command, count: usize) -> EditorView {
    let f = EditorView {
        keys: KeysView { count: Some(count), ..e.keys },
        registers: RegistersView { fresh: true, ..e.registers },
        ..e
    };
    let r = ran(f, c);
    prefixes_dropped(on_doc(r, bare_and_closed(doc_of(r))))
}

/// A key behind one that may be doubled.
#[verifier::opaque]
pub open spec fn doubling_keyed(e: EditorView, key: Key) -> EditorView {
    match e.keys.pending_line_op {
        None => pane_keyed(e, key),
        Some((c, count)) => match line_op_of(c) {
            Some(op) => if e.keys.mode == Mode::Normal && plain_char(key) == Some(c) {
                doubled(disarmed(e), op, count)
            } else {
                pane_keyed(disarmed(e), key)
            },
            None => pane_keyed(disarmed(e), key),
        },
    }
}

impl Document {
    fn bare_and_close(&mut self)
        requires
            crate::desk::doc_ok(old(self)@),
        ensures
            final(self)@ == bare_and_closed(old(self)@),
            crate::desk::doc_ok(final(self)@),
    {
        reveal(bare_and_closed);
        let ghost d = self@;
        self.anchor = self.cursor;
        assert(self@.extra == d.extra);
        assert(crate::document::placed(self@));
        self.close_step();
    }
}

impl Editor {
    fn key_menu_first(&mut self, key: Key)
        requires
            old(self).wf(),
        ensures
            final(self)@ == menu_first(old(self)@, key),
            final(self).wf(),
    {
        reveal(menu_first);
        if self.keys.mode == Mode::Insert && self.panes.completion.is_some() {
            if self.handle_completion_key(key) {
                return ;
            }
            self.key_waited(key);
            return ;
        }
        self.key_waited(key);
    }

    fn key_pane(&mut self, key: Key)
        requires
            old(self).wf(),
        ensures
            final(self)@ == pane_keyed(old(self)@, key),
            final(self).wf(),
    {
        reveal(pane_keyed);
        if let Some(at) = self.panes.help_scroll {
            self.handle_help_key(key, at);
            return ;
        }
        if self.keys.mode == Mode::Command {
            self.handle_command_key(key);
            return ;
        }
        if self.keys.mode == Mode::Search {
            self.handle_search_key(key);
            return ;
        }
        if self.keys.mode == Mode::Picker {
            self.handle_picker_key(key);
            return ;
        }
        if self.sidebar.focused {
            self.handle_tree_key(key);
            return ;
        }
        if self.terminal_focused() {
            self.handle_terminal_normal_key(key);
            return ;
        }
        self.key_menu_first(key);
    }

    fn disarm(&mut self)
        requires
            old(self).wf(),
        ensures
            final(self)@ == disarmed(old(self)@),
            final(self).wf(),
    {
        self.keys.pending_line_op = None;
    }

    fn prepare_double(&mut self, count: usize)
        requires
            old(self).wf(),
        ensures
            final(self)@ == (EditorView {
                keys: KeysView { count: Some(count), ..old(self)@.keys },
                registers: RegistersView { fresh: true, ..old(self)@.registers },
                ..old(self)@
            }),
            final(self).wf(),
    {
        self.keys.count = Some(count);
        self.registers.fresh = true;
    }

    fn run_doubled(&mut self, c: Command, count: usize)
        requires
            old(self).wf(),
        ensures
            final(self)@ == doubled(old(self)@, c, count),
            final(self).wf(),
    {
        reveal(doubled);
        self.prepare_double(count);
        self.run_once(c);
        self.doc_mut().bare_and_close();
        self.drop_prefixes();
    }

    fn key_doubling(&mut self, key: Key)
        requires
            old(self).wf(),
        ensures
            final(self)@ == doubling_keyed(old(self)@, key),
            final(self).wf(),
    {
        reveal(doubling_keyed);
        if let Some((c, count)) = self.keys.pending_line_op {
            let normal = self.keys.mode == Mode::Normal;
            self.disarm();
            let again = match char_of_key(key) {
                Some(x) => x == c,
                None => false,
            };
            if let Some(op) = line_op(c) {
                if normal && again {
                    self.run_doubled(op, count);
                    return ;
                }
            }
            self.key_pane(key);
            return ;
        }
        self.key_pane(key);
    }
}

// ---- what takes a key first -------------------------------------------------------

pub open spec fn hover_at(
    e: EditorView,
    h: Option<(Seq<Seq<char>>, usize)>,
) -> EditorView {
    EditorView { panes: PanesView { hover: h, ..e.panes }, ..e }
}

/// What a key means to the hover popup.
#[derive(Clone, Copy, PartialEq, Eq, Structural)]
pub enum HoverKey {
    Down,
    Up,
    Close,
    Other,
}

pub open spec fn hover_key(key: Key) -> HoverKey {
    match key.code {
        KeyCode::Down => HoverKey::Down,
        KeyCode::Up => HoverKey::Up,
        KeyCode::Esc => HoverKey::Close,
        KeyCode::Char(c) => if c == 'j' {
            HoverKey::Down
        } else if c == 'k' {
            HoverKey::Up
        } else if c == 'q' || c == 'K' {
            HoverKey::Close
        } else {
            HoverKey::Other
        },
        _ => HoverKey::Other,
    }
}

fn read_hover_key(key: Key) -> (r: HoverKey)
    ensures
        r == hover_key(key),
{
    match key.code {
        KeyCode::Down => HoverKey::Down,
        KeyCode::Up => HoverKey::Up,
        KeyCode::Esc => HoverKey::Close,
        KeyCode::Char(c) => if c == 'j' {
            HoverKey::Down
        } else if c == 'k' {
            HoverKey::Up
        } else if c == 'q' || c == 'K' {
            HoverKey::Close
        } else {
            HoverKey::Other
        },
        _ => HoverKey::Other,
    }
}

pub open spec fn hover_scrolled(
    h: (Seq<Seq<char>>, usize),
    down: bool,
) -> (Seq<Seq<char>>, usize) {
    (
        h.0,
        (if down {
            min_int(h.1 + 1, max_of(h.0.len() - 1, 0))
        } else {
            max_of(h.1 - 1, 0)
        }) as usize,
    )
}

/// A key by the shell, or else one that may be a doubled one.
#[verifier::opaque]
pub open spec fn shell_first(e: EditorView, key: Key) -> EditorView {
    if e.keys.mode == Mode::Terminal {
        shell_keyed(e, key)
    } else {
        doubling_keyed(e, key)
    }
}

/// A key while the hover popup is open: it scrolls or closes; any other key
/// closes it too.
#[verifier::opaque]
pub open spec fn hover_first(e: EditorView, key: Key) -> EditorView {
    match e.panes.hover {
        Some(h) => match hover_key(key) {
            HoverKey::Down => hover_at(e, Some(hover_scrolled(h, true))),
            HoverKey::Up => hover_at(e, Some(hover_scrolled(h, false))),
            HoverKey::Close => hover_at(e, None),
            HoverKey::Other => shell_first(hover_at(e, None), key),
        },
        None => shell_first(e, key),
    }
}

#[verifier::opaque]
pub open spec fn declined_text(program: Seq<char>) -> Seq<char> {
    program + " not installed (:install "@ + program + " later)"@
}

/// A key as it comes in: the answer to an offer, where one is open.
#[verifier::opaque]
pub open spec fn keyed(e: EditorView, key: Key) -> EditorView {
    match e.tools.pending_install {
        Some((program, cmd)) => {
            let t = silenced(
                EditorView { tools: ToolsView { pending_install: None, ..e.tools }, ..e },
            );
            if key.code == KeyCode::Char('y') || key.code == KeyCode::Char('Y') {
                install_begun(t, program, cmd)
            } else {
                said(t, declined_text(program))
            }
        },
        None => hover_first(silenced(e), key),
    }
}

fn say_declined(program: &str) -> (r: String)
    ensures
        r@ == declined_text(program@),
{
    reveal(declined_text);
    let mut v = chars_of(program);
    push_lit(&mut v, " not installed (:install ");
    push_lit(&mut v, program);
    push_lit(&mut v, " later)");
    assert(v@ =~= declined_text(program@));
    string_of(&v)
}

impl Editor {
    fn key_shell_first(&mut self, key: Key)
        requires
            old(self).wf(),
        ensures
            final(self)@ == shell_first(old(self)@, key),
            final(self).wf(),
    {
        reveal(shell_first);
        if self.keys.mode == Mode::Terminal {
            self.handle_terminal_key(key);
            return ;
        }
        self.key_doubling(key);
    }

    fn scroll_hover(&mut self, down: bool)
        requires
            old(self).wf(),
            old(self)@.panes.hover is Some,
        ensures
            final(self)@ == hover_at(
                old(self)@,
                Some(hover_scrolled(old(self)@.panes.hover->0, down)),
            ),
            final(self).wf(),
    {
        match self.panes.hover.take() {
            Some((lines, at)) => {
                assert(texts(lines@).len() == lines@.len());
                let last: usize = if lines.len() > 0 {
                    lines.len() - 1
                } else {
                    0
                };
                let to: usize = if down {
                    if at < last {
                        at + 1
                    } else {
                        last
                    }
                } else if at > 0 {
                    at - 1
                } else {
                    0
                };
                self.panes.hover = Some((lines, to));
            },
            None => {},
        }
    }

    fn key_hover_first(&mut self, key: Key)
        requires
            old(self).wf(),
        ensures
            final(self)@ == hover_first(old(self)@, key),
            final(self).wf(),
    {
        reveal(hover_first);
        if self.panes.hover.is_some() {
            match read_hover_key(key) {
                HoverKey::Down => {
                    self.scroll_hover(true);
                    return ;
                },
                HoverKey::Up => {
                    self.scroll_hover(false);
                    return ;
                },
                HoverKey::Close => {
                    self.set_hover(None);
                    return ;
                },
                HoverKey::Other => {
                    self.set_hover(None);
                    self.key_shell_first(key);
                    return ;
                },
            }
        }
        self.key_shell_first(key);
    }

    fn answer_offer(&mut self, key: Key, program: String, cmd: String)
        requires
            old(self).wf(),
        ensures
            final(self)@ == (if key.code == KeyCode::Char('y') || key.code == KeyCode::Char('Y') {
                install_begun(silenced(old(self)@), program@, cmd@)
            } else {
                said(silenced(old(self)@), declined_text(program@))
            }),
            final(self).wf(),
    {
        self.clear_status();
        if key.code == KeyCode::Char('y') || key.code == KeyCode::Char('Y') {
            self.start_install(program.as_str(), cmd.as_str());
            return ;
        }
        let m = say_declined(program.as_str());
        self.set_status(m.as_str());
    }

    /// Handle a key, without recording it.
    pub fn handle_key_inner(&mut self, key: Key)
        requires
            old(self).wf(),
        ensures
            final(self)@ == keyed(old(self)@, key),
            final(self).wf(),
    {
        reveal(keyed);
        if self.tools.pending_install.is_some() {
            if let Some((program, cmd)) = self.take_offer() {
                self.answer_offer(key, program, cmd);
            }
            return ;
        }
        self.clear_status();
        self.key_hover_first(key);
    }
}

} // verus!
