//! The rows of the `:help` window, and its keys.

use vstd::prelude::*;
use crate::commands::{all_commands, commands, doc_of as command_doc, name_of, Command};
use crate::desk::Dir;
use crate::editor::{help_rect_of, Editor, EditorView};
use crate::keymap::{is_bound_in, is_shortest, Key, KeyCode, KeyTrie, Trie};
use crate::motions::max_of;
use crate::document::min_int;
use crate::run::left_focused;
use crate::state::PanesView;
use crate::windows::focus_towards;

verus! {

/// The command that a key runs on the line when pressed twice with nothing
/// selected.
pub open spec fn line_op_of(c: char) -> Option<Command> {
    if c == 'd' || c == 'x' {
        Some(Command::DeleteLine)
    } else if c == 'c' {
        Some(Command::CopyLine)
    } else {
        None
    }
}

pub fn line_op(c: char) -> (r: Option<Command>)
    ensures
        r == line_op_of(c),
{
    if c == 'd' || c == 'x' {
        Some(Command::DeleteLine)
    } else if c == 'c' {
        Some(Command::CopyLine)
    } else {
        None
    }
}

/// The doubled keys that run a command.
pub open spec fn line_op_keys_of(c: Command) -> Seq<char> {
    match c {
        Command::DeleteLine => "dd  xx"@,
        Command::CopyLine => "cc"@,
        _ => Seq::empty(),
    }
}

/// The doubled keys that run a command; empty where there are none.
pub fn line_op_keys(c: Command) -> (r: String)
    ensures
        r@ == line_op_keys_of(c),
{
    match c {
        Command::DeleteLine => "dd  xx".to_owned(),
        Command::CopyLine => "cc".to_owned(),
        _ => {
            let none = String::new();
            assert(none@ =~= Seq::empty());
            none
        },
    }
}

/// One row of the help window.
pub enum HelpLine {
    Header(&'static str),
    Entry { keys: String, name: String, doc: String },
}

pub enum HelpLineView {
    Header(Seq<char>),
    Entry { keys: Seq<char>, name: Seq<char>, doc: Seq<char> },
}

impl View for HelpLine {
    type V = HelpLineView;

    open spec fn view(&self) -> HelpLineView {
        match self {
            HelpLine::Header(t) => HelpLineView::Header(t@),
            HelpLine::Entry { keys, name, doc } => HelpLineView::Entry {
                keys: keys@,
                name: name@,
                doc: doc@,
            },
        }
    }
}

pub open spec fn ex_row(keys: Seq<char>, doc: Seq<char>) -> HelpLineView {
    HelpLineView::Entry { keys, name: Seq::empty(), doc }
}

/// The rows on the `:` commands.
pub open spec fn ex_rows() -> Seq<HelpLineView> {
    seq![
        HelpLineView::Header("Command line — press :"@),
        ex_row(":w [path]"@, "write the buffer (:write; to a path if given)"@),
        ex_row(":q  :q!"@, "close the window / quit without saving"@),
        ex_row(":wq  :x"@, "write, then quit"@),
        ex_row(":e <file>"@, "open a file (:edit)"@),
        ex_row(":fmt"@, "run the file's formatter over the buffer"@),
        ex_row(
            ":install <x>"@,
            "install the tool for a name or extension (:lsp-install <ext> for servers)"@,
        ),
        ex_row(":bn  :bp"@, "next / previous buffer"@),
        ex_row(":theme [name]"@, "list themes, or switch to one"@),
        ex_row(
            ":config  :config!"@,
            "edit crow.toml / reload it (restarts language servers if [lsp] changed)"@,
        ),
        ex_row(":<number>"@, "jump to that line"@),
        ex_row(":help  :h"@, "this window"@),
        ex_row(":<command>"@, "run any command below by name"@),
        HelpLineView::Header("Commands — also in the palette (<space> c)"@),
    ]
}

/// Whether a row is the one of a command: with the shortest keys that are
/// bound to it, or the doubled keys that run it.
pub open spec fn tells_of(row: HelpLineView, c: Command, map: Trie) -> bool {
    match row {
        HelpLineView::Header(_) => false,
        HelpLineView::Entry { keys, name, doc } => {
            &&& name == name_of(c)
            &&& doc == command_doc(c)
            &&& is_bound_in(map, name_of(c)) ==> is_shortest(map, Seq::empty(), name_of(c), keys)
            &&& !is_bound_in(map, name_of(c)) ==> keys == line_op_keys_of(c)
        },
    }
}

fn ex_entry(keys: &str, doc: &str) -> (r: HelpLine)
    ensures
        r@ == ex_row(keys@, doc@),
{
    let name = String::new();
    assert(name@ =~= Seq::empty());
    HelpLine::Entry { keys: keys.to_owned(), name, doc: doc.to_owned() }
}

pub open spec fn row_views(v: Seq<HelpLine>) -> Seq<HelpLineView> {
    Seq::new(v.len(), |i: int| v[i]@)
}

/// The rows of the help window: the `:` commands, then every command by name
/// with its keys.
pub fn help_lines(keymap: &KeyTrie) -> (r: Vec<HelpLine>)
    requires
        keymap.wf(),
    ensures
        r@.len() == ex_rows().len() + all_commands().len(),
        row_views(r@).take(ex_rows().len() as int) == ex_rows(),
        forall|i: int|
            0 <= i < all_commands().len() ==> tells_of(
                (#[trigger] r@[ex_rows().len() + i])@,
                all_commands()[i],
                keymap@,
            ),
{
    let mut out: Vec<HelpLine> = vec![
        HelpLine::Header("Command line — press :"),
        ex_entry(":w [path]", "write the buffer (:write; to a path if given)"),
        ex_entry(":q  :q!", "close the window / quit without saving"),
        ex_entry(":wq  :x", "write, then quit"),
        ex_entry(":e <file>", "open a file (:edit)"),
        ex_entry(":fmt", "run the file's formatter over the buffer"),
        ex_entry(
            ":install <x>",
            "install the tool for a name or extension (:lsp-install <ext> for servers)",
        ),
        ex_entry(":bn  :bp", "next / previous buffer"),
        ex_entry(":theme [name]", "list themes, or switch to one"),
        ex_entry(
            ":config  :config!",
            "edit crow.toml / reload it (restarts language servers if [lsp] changed)",
        ),
        ex_entry(":<number>", "jump to that line"),
        ex_entry(":help  :h", "this window"),
        ex_entry(":<command>", "run any command below by name"),
        HelpLine::Header("Commands — also in the palette (<space> c)"),
    ];
    let ghost head = row_views(out@);
    assert(head =~= ex_rows());
    let all = commands();
    let mut i: usize = 0;
    while i < all.len()
        invariant
            keymap.wf(),
            all@ == all_commands(),
            i <= all@.len(),
            head == ex_rows(),
            out@.len() == head.len() + i,
            row_views(out@).take(head.len() as int) == head,
            forall|k: int|
                0 <= k < i ==> tells_of(
                    (#[trigger] out@[head.len() + k])@,
                    all_commands()[k],
                    keymap@,
                ),
        decreases all@.len() - i,
    {
        let c = all[i];
        let ghost had = out@;
        let keys = match keymap.binding_of(c.name()) {
            Some(k) => k,
            None => line_op_keys(c),
        };
        let row = HelpLine::Entry { keys, name: c.name().to_owned(), doc: c.doc().to_owned() };
        assert(tells_of(row@, c, keymap@));
        out.push(row);
        assert(row_views(out@).take(head.len() as int) =~= row_views(had).take(head.len() as int));
        assert forall|k: int| 0 <= k < i + 1 implies tells_of(
            (#[trigger] out@[head.len() + k])@,
            all_commands()[k],
            keymap@,
        ) by {
            if k < i {
                assert(out@[head.len() + k] == had[head.len() + k]);
            }
        }
        i += 1;
    }
    out
}

// ---- its keys ---------------------------------------------------------------------

/// Rows that the help window shows: its height but for the box.
pub open spec fn help_rows(e: EditorView) -> int {
    max_of(help_rect_of(e).3 - 4, 1)
}

/// The furthest that the help window scrolls.
pub open spec fn help_end(e: EditorView) -> int {
    max_of(ex_rows().len() + all_commands().len() - help_rows(e), 0)
}

pub open spec fn scrolled_to(e: EditorView, n: int) -> EditorView {
    help_at(e, Some(min_int(max_of(n, 0), help_end(e)) as usize))
}

pub open spec fn help_at(e: EditorView, scroll: Option<usize>) -> EditorView {
    EditorView { panes: PanesView { help_scroll: scroll, ..e.panes }, ..e }
}

/// A key of the help window, scrolled to `at`.
#[verifier::opaque]
pub open spec fn help_keyed(e: EditorView, key: Key, at: usize) -> EditorView {
    match key.code {
        KeyCode::Esc => help_at(e, None),
        KeyCode::Left => if key.ctrl {
            left_focused(help_at(e, None))
        } else {
            e
        },
        KeyCode::Right => if key.ctrl {
            focus_towards(help_at(e, None), Dir::Right)
        } else {
            e
        },
        KeyCode::Up => scrolled_to(e, at - 1),
        KeyCode::Down => scrolled_to(e, at + 1),
        KeyCode::PageDown => scrolled_to(e, at + help_rows(e)),
        KeyCode::PageUp => scrolled_to(e, at - help_rows(e)),
        KeyCode::Char(c) => if c == 'q' {
            help_at(e, None)
        } else if c == 'h' && key.ctrl {
            left_focused(help_at(e, None))
        } else if c == 'l' && key.ctrl {
            focus_towards(help_at(e, None), Dir::Right)
        } else if c == 'k' {
            scrolled_to(e, at - 1)
        } else if c == 'j' {
            scrolled_to(e, at + 1)
        } else if c == 'd' && key.ctrl {
            scrolled_to(e, at + help_rows(e) / 2)
        } else if c == 'u' && key.ctrl {
            scrolled_to(e, at - help_rows(e) / 2)
        } else if c == 'g' {
            scrolled_to(e, 0)
        } else if c == 'G' {
            scrolled_to(e, help_end(e))
        } else {
            e
        },
        _ => e,
    }
}

/// What a key of the help window asks for.
enum HelpMove {
    Close,
    CloseLeft,
    CloseRight,
    To(i128),
    Stay,
}

impl Editor {
    fn scroll_help(&mut self, n: i128)
        requires
            old(self).wf(),
        ensures
            final(self)@ == scrolled_to(old(self)@, n as int),
            final(self).wf(),
    {
        let h: i128 = self.help_rect().3 as i128;
        let rows: i128 = if h - 4 > 1 {
            h - 4
        } else {
            1
        };
        let all = help_line_count();
        let end: i128 = if all as i128 - rows > 0 {
            all as i128 - rows
        } else {
            0
        };
        let at: i128 = if n < 0 {
            0
        } else {
            n
        };
        let at: usize = if at <= end {
            at as usize
        } else {
            end as usize
        };
        self.set_help(Some(at));
    }

    fn help_move(&self, key: Key, at: usize) -> (r: HelpMove)
        ensures
            match r {
                HelpMove::Close => help_keyed(self@, key, at) == help_at(self@, None),
                HelpMove::CloseLeft => help_keyed(self@, key, at) == left_focused(
                    help_at(self@, None),
                ),
                HelpMove::CloseRight => help_keyed(self@, key, at) == focus_towards(
                    help_at(self@, None),
                    Dir::Right,
                ),
                HelpMove::To(n) => help_keyed(self@, key, at) == scrolled_to(self@, n as int),
                HelpMove::Stay => help_keyed(self@, key, at) == self@,
            },
    {
        reveal(help_keyed);
        let h: i128 = self.help_rect().3 as i128;
        let rows: i128 = if h - 4 > 1 {
            h - 4
        } else {
            1
        };
        let at: i128 = at as i128;
        match key.code {
            KeyCode::Esc => HelpMove::Close,
            KeyCode::Left => if key.ctrl {
                HelpMove::CloseLeft
            } else {
                HelpMove::Stay
            },
            KeyCode::Right => if key.ctrl {
                HelpMove::CloseRight
            } else {
                HelpMove::Stay
            },
            KeyCode::Up => HelpMove::To(at - 1),
            KeyCode::Down => HelpMove::To(at + 1),
            KeyCode::PageDown => HelpMove::To(at + rows),
            KeyCode::PageUp => HelpMove::To(at - rows),
            KeyCode::Char(c) => if c == 'q' {
                HelpMove::Close
            } else if c == 'h' && key.ctrl {
                HelpMove::CloseLeft
            } else if c == 'l' && key.ctrl {
                HelpMove::CloseRight
            } else if c == 'k' {
                HelpMove::To(at - 1)
            } else if c == 'j' {
                HelpMove::To(at + 1)
            } else if c == 'd' && key.ctrl {
                HelpMove::To(at + rows / 2)
            } else if c == 'u' && key.ctrl {
                HelpMove::To(at - rows / 2)
            } else if c == 'g' {
                HelpMove::To(0)
            } else if c == 'G' {
                let all = help_line_count();
                HelpMove::To(
                    if all as i128 - rows > 0 {
                        all as i128 - rows
                    } else {
                        0
                    },
                )
            } else {
                HelpMove::Stay
            },
            _ => HelpMove::Stay,
        }
    }

    /// A key while the help window is open: scroll or close.
    pub(crate) fn handle_help_key(&mut self, key: Key, at: usize)
        requires
            old(self).wf(),
        ensures
            final(self)@ == help_keyed(old(self)@, key, at),
            final(self).wf(),
    {
        match self.help_move(key, at) {
            HelpMove::Close => {
                self.set_help(None);
                return ;
            },
            HelpMove::CloseLeft => {
                self.set_help(None);
                self.focus_left();
                return ;
            },
            HelpMove::CloseRight => {
                self.set_help(None);
                let _moved = self.focus_window_dir(Dir::Right);
                return ;
            },
            HelpMove::To(n) => {
                self.scroll_help(n);
                return ;
            },
            HelpMove::Stay => {},
        }
    }
}

fn help_line_count() -> (r: usize)
    ensures
        r == ex_rows().len() + all_commands().len(),
{
    let all = commands();
    assert(ex_rows().len() == 14);
    all.len() + 14
}

} // verus!
