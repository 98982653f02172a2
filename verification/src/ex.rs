//! The `:` commands: reading a line, carrying it out, and the prompt it is
//! typed at.

use vstd::prelude::*;
use crate::commands::{find, found, Command};
use crate::config::{is_theme, theme_known, OptionsView};
use crate::desk::doc_ok;
use crate::dispatch::ran;
use crate::document::{clamped, swap_gone, true_to_edits, DocView, Document};
use crate::editor::{asking, doc_of, on_doc, said, Editor, EditorView};
use crate::help::help_at;
use crate::motions::{at_line, max_of};
use crate::moves::jump_noted;
use crate::registers::RegistersView;
use crate::state::{Effect, EffectView, Opening};
use crate::strings::{
    chars_of, debug_text, opt_text, parse_number, quote_text, read_usize, same, string_of,
    text_between, trim, trimmed, with_text, words, words_of,
};
use crate::substitute::{parse_substitute, substituted, substitution};
use crate::tools::busy_installing;

verus! {

// ---- reading a line ---------------------------------------------------------------

/// A `:` command that was read.
pub enum Ex {
    Write { force: bool, path: Option<String> },
    WriteAll,
    WriteQuit { force: bool },
    QuitDiscarding,
    Edit(Option<String>),
    Reload,
    Rename(Option<String>),
    Recover,
    DropSwap,
    Help,
    Theme(Option<String>),
    Install { name: Option<String>, lsp_only: bool },
    Config,
    LoadConfig,
    Line(usize),
    Run(Command),
    Unknown(String),
}

pub enum ExView {
    Write { force: bool, path: Option<Seq<char>> },
    WriteAll,
    WriteQuit { force: bool },
    QuitDiscarding,
    Edit(Option<Seq<char>>),
    Reload,
    Rename(Option<Seq<char>>),
    Recover,
    DropSwap,
    Help,
    Theme(Option<Seq<char>>),
    Install { name: Option<Seq<char>>, lsp_only: bool },
    Config,
    LoadConfig,
    Line(nat),
    Run(Command),
    Unknown(Seq<char>),
}

impl View for Ex {
    type V = ExView;

    open spec fn view(&self) -> ExView {
        match self {
            Ex::Write { force, path } => ExView::Write { force: *force, path: opt_text(*path) },
            Ex::WriteAll => ExView::WriteAll,
            Ex::WriteQuit { force } => ExView::WriteQuit { force: *force },
            Ex::QuitDiscarding => ExView::QuitDiscarding,
            Ex::Edit(p) => ExView::Edit(opt_text(*p)),
            Ex::Reload => ExView::Reload,
            Ex::Rename(n) => ExView::Rename(opt_text(*n)),
            Ex::Recover => ExView::Recover,
            Ex::DropSwap => ExView::DropSwap,
            Ex::Help => ExView::Help,
            Ex::Theme(n) => ExView::Theme(opt_text(*n)),
            Ex::Install { name, lsp_only } => ExView::Install {
                name: opt_text(*name),
                lsp_only: *lsp_only,
            },
            Ex::Config => ExView::Config,
            Ex::LoadConfig => ExView::LoadConfig,
            Ex::Line(n) => ExView::Line(*n as nat),
            Ex::Run(c) => ExView::Run(*c),
            Ex::Unknown(t) => ExView::Unknown(t@),
        }
    }
}

/// The commands that write or leave.
#[verifier::opaque]
pub open spec fn ex_file(cmd: Seq<char>, arg: Option<Seq<char>>) -> Option<ExView> {
    if cmd == "w"@ || cmd == "write"@ {
        Some(ExView::Write { force: false, path: arg })
    } else if cmd == "w!"@ || cmd == "write!"@ {
        Some(ExView::Write { force: true, path: arg })
    } else if cmd == "wa"@ || cmd == "wall"@ {
        Some(ExView::WriteAll)
    } else if cmd == "q"@ || cmd == "quit"@ {
        Some(ExView::Run(Command::Quit))
    } else if cmd == "q!"@ || cmd == "quit!"@ {
        Some(ExView::QuitDiscarding)
    } else if cmd == "wq"@ || cmd == "x"@ {
        Some(ExView::WriteQuit { force: false })
    } else if cmd == "wq!"@ || cmd == "x!"@ {
        Some(ExView::WriteQuit { force: true })
    } else if cmd == "e"@ || cmd == "edit"@ {
        Some(ExView::Edit(arg))
    } else if cmd == "e!"@ || cmd == "edit!"@ {
        Some(ExView::Reload)
    } else if cmd == "recover"@ {
        Some(ExView::Recover)
    } else if cmd == "recover!"@ {
        Some(ExView::DropSwap)
    } else {
        None
    }
}

/// The other commands that have a name of their own here.
#[verifier::opaque]
pub open spec fn ex_other(cmd: Seq<char>, arg: Option<Seq<char>>) -> Option<ExView> {
    if cmd == "rename"@ {
        Some(ExView::Rename(arg))
    } else if cmd == "help"@ || cmd == "h"@ {
        Some(ExView::Help)
    } else if cmd == "md"@ || cmd == "preview"@ {
        Some(ExView::Run(Command::MarkdownPreview))
    } else if cmd == "term"@ || cmd == "terminal"@ {
        Some(ExView::Run(Command::Terminal))
    } else if cmd == "wrap"@ {
        Some(ExView::Run(Command::ToggleWrap))
    } else if cmd == "fmt"@ || cmd == "format"@ {
        Some(ExView::Run(Command::FormatBuffer))
    } else if cmd == "bn"@ {
        Some(ExView::Run(Command::NextBuffer))
    } else if cmd == "bp"@ {
        Some(ExView::Run(Command::PrevBuffer))
    } else if cmd == "theme"@ {
        Some(ExView::Theme(arg))
    } else if cmd == "install"@ {
        Some(ExView::Install { name: arg, lsp_only: false })
    } else if cmd == "lsp-install"@ {
        Some(ExView::Install { name: arg, lsp_only: true })
    } else if cmd == "config"@ {
        Some(ExView::Config)
    } else if cmd == "config!"@ {
        Some(ExView::LoadConfig)
    } else {
        None
    }
}

/// What a line asks for, by its first word and the one behind it: a command of
/// the prompt, a line to go to, or any command by its name.
#[verifier::opaque]
pub open spec fn ex_of(cmd: Seq<char>, arg: Option<Seq<char>>) -> ExView {
    match ex_file(cmd, arg) {
        Some(x) => x,
        None => match ex_other(cmd, arg) {
            Some(x) => x,
            None => match parse_number(cmd, usize::MAX as nat) {
                Some(n) => ExView::Line(n),
                None => match found(cmd) {
                    Some(c) => ExView::Run(c),
                    None => ExView::Unknown(cmd),
                },
            },
        },
    }
}

fn copy_arg(arg: &Option<String>) -> (r: Option<String>)
    ensures
        opt_text(r) == opt_text(*arg),
{
    match arg {
        Some(s) => Some(s.as_str().to_owned()),
        None => None,
    }
}

fn read_ex_file(cmd: &str, arg: &Option<String>) -> (r: Option<Ex>)
    ensures
        match r {
            Some(x) => ex_file(cmd@, opt_text(*arg)) == Some(x@),
            None => ex_file(cmd@, opt_text(*arg)) is None,
        },
{
    reveal(ex_file);
    if same(cmd, "w") || same(cmd, "write") {
        Some(Ex::Write { force: false, path: copy_arg(arg) })
    } else if same(cmd, "w!") || same(cmd, "write!") {
        Some(Ex::Write { force: true, path: copy_arg(arg) })
    } else if same(cmd, "wa") || same(cmd, "wall") {
        Some(Ex::WriteAll)
    } else if same(cmd, "q") || same(cmd, "quit") {
        Some(Ex::Run(Command::Quit))
    } else if same(cmd, "q!") || same(cmd, "quit!") {
        Some(Ex::QuitDiscarding)
    } else if same(cmd, "wq") || same(cmd, "x") {
        Some(Ex::WriteQuit { force: false })
    } else if same(cmd, "wq!") || same(cmd, "x!") {
        Some(Ex::WriteQuit { force: true })
    } else if same(cmd, "e") || same(cmd, "edit") {
        Some(Ex::Edit(copy_arg(arg)))
    } else if same(cmd, "e!") || same(cmd, "edit!") {
        Some(Ex::Reload)
    } else if same(cmd, "recover") {
        Some(Ex::Recover)
    } else if same(cmd, "recover!") {
        Some(Ex::DropSwap)
    } else {
        None
    }
}

fn read_ex_other(cmd: &str, arg: &Option<String>) -> (r: Option<Ex>)
    ensures
        match r {
            Some(x) => ex_other(cmd@, opt_text(*arg)) == Some(x@),
            None => ex_other(cmd@, opt_text(*arg)) is None,
        },
{
    reveal(ex_other);
    if same(cmd, "rename") {
        Some(Ex::Rename(copy_arg(arg)))
    } else if same(cmd, "help") || same(cmd, "h") {
        Some(Ex::Help)
    } else if same(cmd, "md") || same(cmd, "preview") {
        Some(Ex::Run(Command::MarkdownPreview))
    } else if same(cmd, "term") || same(cmd, "terminal") {
        Some(Ex::Run(Command::Terminal))
    } else if same(cmd, "wrap") {
        Some(Ex::Run(Command::ToggleWrap))
    } else if same(cmd, "fmt") || same(cmd, "format") {
        Some(Ex::Run(Command::FormatBuffer))
    } else if same(cmd, "bn") {
        Some(Ex::Run(Command::NextBuffer))
    } else if same(cmd, "bp") {
        Some(Ex::Run(Command::PrevBuffer))
    } else if same(cmd, "theme") {
        Some(Ex::Theme(copy_arg(arg)))
    } else if same(cmd, "install") {
        Some(Ex::Install { name: copy_arg(arg), lsp_only: false })
    } else if same(cmd, "lsp-install") {
        Some(Ex::Install { name: copy_arg(arg), lsp_only: true })
    } else if same(cmd, "config") {
        Some(Ex::Config)
    } else if same(cmd, "config!") {
        Some(Ex::LoadConfig)
    } else {
        None
    }
}

/// What a line asks for, by its first word and the one behind it.
pub fn read_ex(cmd: &str, arg: Option<String>) -> (r: Ex)
    ensures
        r@ == ex_of(cmd@, opt_text(arg)),
{
    reveal(ex_of);
    if let Some(x) = read_ex_file(cmd, &arg) {
        return x;
    }
    if let Some(x) = read_ex_other(cmd, &arg) {
        return x;
    }
    let chars = chars_of(cmd);
    if let Some(n) = read_usize(&chars) {
        return Ex::Line(n);
    }
    match find(cmd) {
        Some(c) => Ex::Run(c),
        None => Ex::Unknown(cmd.to_owned()),
    }
}

// ---- carrying it out --------------------------------------------------------------

/// The cursor on a line, counted from one.
#[verifier::opaque]
pub open spec fn on_line(d: DocView, n: nat) -> DocView {
    let a = at_line(d, max_of(n - 1, 0));
    DocView { cursor: clamped(a.text, a.cursor as int, false) as usize, ..a }
}

pub open spec fn themes_text() -> Seq<char> {
    "default, gruvbox, mono, tokyonight"@
}

pub open spec fn theme_set(e: EditorView, name: Seq<char>) -> EditorView {
    if is_theme(name) {
        let t = EditorView { options: OptionsView { theme: name, ..e.options }, ..e };
        said(asking(t, EffectView::Theme(name)), "theme: "@ + name)
    } else {
        said(
            e,
            "Unknown theme "@ + debug_text(name) + (". Available: "@ + themes_text()),
        )
    }
}

pub open spec fn install_asked(e: EditorView, name: Seq<char>, lsp_only: bool) -> EditorView {
    if busy_installing(e) {
        said(e, "an install is already running"@)
    } else {
        asking(e, EffectView::FindTool { name, lsp_only })
    }
}

/// What a command asks of the outside, or says where it lacks a part.
#[verifier::opaque]
pub open spec fn ex_asked(e: EditorView, x: ExView) -> EditorView {
    match x {
        ExView::Write { force, path } => match path {
            Some(p) => asking(e, EffectView::SaveAs { path: p, force }),
            None => asking(e, EffectView::Save { force, quit: false }),
        },
        ExView::WriteAll => asking(e, EffectView::WriteAll),
        ExView::WriteQuit { force } => asking(e, EffectView::Save { force, quit: true }),
        ExView::Edit(path) => match path {
            Some(p) => asking(e, EffectView::Open { path: p, what: Opening::Edit }),
            None => said(e, "Usage: :e <file>"@),
        },
        ExView::Reload => asking(e, EffectView::Reload),
        ExView::Rename(name) => match name {
            Some(n) => asking(e, EffectView::AskRename(n)),
            None => said(e, "Usage: :rename <new name>"@),
        },
        ExView::Recover => asking(e, EffectView::Recover),
        ExView::Config => asking(
            e,
            EffectView::Open { path: Seq::empty(), what: Opening::Config },
        ),
        ExView::LoadConfig => asking(e, EffectView::LoadConfig),
        _ => e,
    }
}

#[verifier::opaque]
pub open spec fn install_run(e: EditorView, name: Option<Seq<char>>, lsp_only: bool) -> EditorView {
    match name {
        Some(n) => install_asked(e, n, lsp_only),
        None => said(
            e,
            if lsp_only {
                "Usage: :lsp-install <extension>  e.g. :lsp-install rs"@
            } else {
                "Usage: :install <tool or extension>  e.g. :install prettier, :install yaml"@
            },
        ),
    }
}

#[verifier::opaque]
pub open spec fn theme_run(e: EditorView, name: Option<Seq<char>>) -> EditorView {
    match name {
        Some(n) => theme_set(e, n),
        None => said(e, "Themes: "@ + themes_text()),
    }
}

/// What a command of the prompt does.
#[verifier::opaque]
pub open spec fn ex_run(e: EditorView, x: ExView) -> EditorView {
    match x {
        ExView::QuitDiscarding => EditorView { quit_discarding: true, should_quit: true, ..e },
        ExView::DropSwap => said(
            asking(on_doc(e, swap_gone(doc_of(e))), EffectView::DropSwap),
            "swap file discarded"@,
        ),
        ExView::Help => help_at(e, Some(0)),
        ExView::Theme(name) => theme_run(e, name),
        ExView::Install { name, lsp_only } => install_run(e, name, lsp_only),
        ExView::Line(n) => on_doc(jump_noted(e), on_line(doc_of(e), n)),
        ExView::Run(c) => ran(e, c),
        ExView::Unknown(t) => said(e, "Not a command: "@ + t),
        _ => ex_asked(e, x),
    }
}

pub open spec fn register_freshened(e: EditorView) -> EditorView {
    EditorView { registers: RegistersView { fresh: true, ..e.registers }, ..e }
}

/// What a trimmed line that is not empty does.
#[verifier::opaque]
pub open spec fn ex_line_run(e: EditorView, line: Seq<char>) -> EditorView {
    match substitution(line) {
        Some(s) => substituted(e, s),
        None => {
            let w = words(line);
            ex_run(
                e,
                ex_of(
                    if w.len() > 0 {
                        w[0]
                    } else {
                        Seq::empty()
                    },
                    if w.len() > 1 {
                        Some(w[1])
                    } else {
                        None
                    },
                ),
            )
        },
    }
}

/// A line of the prompt carried out.
pub open spec fn executed(e: EditorView, line: Seq<char>) -> EditorView {
    let f = register_freshened(e);
    if trim(line).len() == 0 {
        f
    } else {
        ex_line_run(f, trim(line))
    }
}

impl Document {
    fn go_to_line(&mut self, n: usize)
        requires
            doc_ok(old(self)@),
        ensures
            final(self)@ == on_line(old(self)@, n as nat),
            doc_ok(final(self)@),
    {
        reveal(on_line);
        self.goto_line(
            if n > 0 {
                n - 1
            } else {
                0
            },
        );
        self.clamp_cursor(false);
    }

    pub(crate) fn forget_swap(&mut self)
        requires
            doc_ok(old(self)@),
        ensures
            final(self)@ == swap_gone(old(self)@),
            doc_ok(final(self)@),
            true_to_edits(old(self)@) ==> true_to_edits(final(self)@),
    {
        let ghost d = self@;
        self.remove_swap();
        assert(self@.extra == d.extra);
    }
}

impl Editor {
    fn discard_and_quit(&mut self)
        requires
            old(self).wf(),
        ensures
            final(self)@ == (EditorView {
                quit_discarding: true,
                should_quit: true,
                ..old(self)@
            }),
            final(self).wf(),
    {
        self.quit_discarding = true;
        self.should_quit = true;
    }

    pub(crate) fn put_theme(&mut self, name: String)
        requires
            old(self).wf(),
        ensures
            final(self)@ == (EditorView {
                options: OptionsView { theme: name@, ..old(self)@.options },
                ..old(self)@
            }),
            final(self).wf(),
    {
        self.options.theme = name;
    }

    fn set_theme(&mut self, name: &str)
        requires
            old(self).wf(),
        ensures
            final(self)@ == theme_set(old(self)@, name@),
            final(self).wf(),
    {
        if theme_known(name) {
            let m = with_text("theme: ", name);
            self.put_theme(name.to_owned());
            self.ask(Effect::Theme(name.to_owned()));
            self.set_status(m.as_str());
            return ;
        }
        let q = quote_text(name);
        let tail = with_text(". Available: ", "default, gruvbox, mono, tokyonight");
        let m = text_between("Unknown theme ", q.as_str(), tail.as_str());
        self.set_status(m.as_str());
    }

    fn ask_install(&mut self, name: String, lsp_only: bool)
        requires
            old(self).wf(),
        ensures
            final(self)@ == install_asked(old(self)@, name@, lsp_only),
            final(self).wf(),
    {
        if self.install_running() {
            self.set_status("an install is already running");
            return ;
        }
        self.ask(Effect::FindTool { name, lsp_only });
    }

    fn go_line(&mut self, n: usize)
        requires
            old(self).wf(),
        ensures
            final(self)@ == on_doc(jump_noted(old(self)@), on_line(doc_of(old(self)@), n as nat)),
            final(self).wf(),
    {
        self.push_jump();
        self.doc_mut().go_to_line(n);
    }

    fn drop_swap(&mut self)
        requires
            old(self).wf(),
        ensures
            final(self)@ == said(
                asking(
                    on_doc(old(self)@, swap_gone(doc_of(old(self)@))),
                    EffectView::DropSwap,
                ),
                "swap file discarded"@,
            ),
            final(self).wf(),
    {
        self.doc_mut().forget_swap();
        self.ask(Effect::DropSwap);
        self.set_status("swap file discarded");
    }

    fn ask_ex(&mut self, x: Ex)
        requires
            old(self).wf(),
        ensures
            final(self)@ == ex_asked(old(self)@, x@),
            final(self).wf(),
    {
        reveal(ex_asked);
        let ask = match x {
            Ex::Write { force, path: Some(path) } => Effect::SaveAs { path, force },
            Ex::Write { force, path: None } => Effect::Save { force, quit: false },
            Ex::WriteAll => Effect::WriteAll,
            Ex::WriteQuit { force } => Effect::Save { force, quit: true },
            Ex::Edit(Some(path)) => Effect::Open { path, what: Opening::Edit },
            Ex::Edit(None) => {
                self.set_status("Usage: :e <file>");
                return ;
            },
            Ex::Reload => Effect::Reload,
            Ex::Rename(Some(name)) => Effect::AskRename(name),
            Ex::Rename(None) => {
                self.set_status("Usage: :rename <new name>");
                return ;
            },
            Ex::Recover => Effect::Recover,
            Ex::Config => {
                let path = String::new();
                assert(path@ =~= Seq::empty());
                Effect::Open { path, what: Opening::Config }
            },
            Ex::LoadConfig => Effect::LoadConfig,
            _ => {
                return ;
            },
        };
        self.ask(ask);
    }

    fn run_theme(&mut self, name: Option<String>)
        requires
            old(self).wf(),
        ensures
            final(self)@ == theme_run(old(self)@, opt_text(name)),
            final(self).wf(),
    {
        reveal(theme_run);
        match name {
            Some(name) => {
                self.set_theme(name.as_str());
                return ;
            },
            None => {},
        }
        let m = with_text("Themes: ", "default, gruvbox, mono, tokyonight");
        self.set_status(m.as_str());
    }

    fn run_install(&mut self, name: Option<String>, lsp_only: bool)
        requires
            old(self).wf(),
        ensures
            final(self)@ == install_run(old(self)@, opt_text(name), lsp_only),
            final(self).wf(),
    {
        reveal(install_run);
        match name {
            Some(name) => {
                self.ask_install(name, lsp_only);
                return ;
            },
            None => {},
        }
        if lsp_only {
            self.set_status("Usage: :lsp-install <extension>  e.g. :lsp-install rs");
            return ;
        }
        self.set_status(
            "Usage: :install <tool or extension>  e.g. :install prettier, :install yaml",
        );
    }

    fn run_ex(&mut self, x: Ex)
        requires
            old(self).wf(),
        ensures
            final(self)@ == ex_run(old(self)@, x@),
            final(self).wf(),
    {
        reveal(ex_run);
        match x {
            Ex::QuitDiscarding => {
                self.discard_and_quit();
                return ;
            },
            Ex::DropSwap => {
                self.drop_swap();
                return ;
            },
            Ex::Help => {
                self.set_help(Some(0));
                return ;
            },
            Ex::Theme(name) => {
                self.run_theme(name);
                return ;
            },
            Ex::Install { name, lsp_only } => {
                self.run_install(name, lsp_only);
                return ;
            },
            Ex::Line(n) => {
                self.go_line(n);
                return ;
            },
            Ex::Run(c) => {
                self.run_once(c);
                return ;
            },
            Ex::Unknown(t) => {
                let m = with_text("Not a command: ", t.as_str());
                self.set_status(m.as_str());
                return ;
            },
            _ => {},
        }
        self.ask_ex(x);
    }

    fn run_ex_line(&mut self, line: &[char])
        requires
            old(self).wf(),
        ensures
            final(self)@ == ex_line_run(old(self)@, line@),
            final(self).wf(),
    {
        reveal(ex_line_run);
        let text = string_of(line);
        if let Some(s) = parse_substitute(text.as_str()) {
            self.substitute(s);
            return ;
        }
        let w = words_of(line);
        let ghost all = words(line@);
        assert(crate::strings::slices(w@) == all);
        let cmd = if w.len() > 0 {
            assert(all[0] == w@[0]@);
            string_of(w[0])
        } else {
            let none = String::new();
            assert(none@ =~= Seq::empty());
            none
        };
        let arg = if w.len() > 1 {
            assert(all[1] == w@[1]@);
            Some(string_of(w[1]))
        } else {
            None
        };
        let x = read_ex(cmd.as_str(), arg);
        self.run_ex(x);
    }

    /// Carry out a line of the prompt.
    pub fn execute_command(&mut self, line: &str)
        requires
            old(self).wf(),
        ensures
            final(self)@ == executed(old(self)@, line@),
            final(self).wf(),
    {
        self.freshen_register();
        let chars = chars_of(line);
        let t = trimmed(&chars);
        if t.len() == 0 {
            return ;
        }
        self.run_ex_line(t);
    }
}

} // verus!
