//! Installing tools: finding which program is meant, offering, running the
//! installer, and going on when it is done.

use vstd::prelude::*;
use crate::config::{
    builtin_lsp, builtin_lsp_of, formatter, formatter_of, install_of, installer, lookup, lookup_from,
    manager_of, Machine,
};
use crate::document::{extension, extension_of};
use crate::editor::{asking, doc_of, said, Editor, EditorView};
use crate::state::{
    clip_view, offer_view, Effect, EffectView, ServersView, ShellView, ToolsView,
};
use crate::strings::{
    chars_of, debug_text, has_prefix, opt_text, push_lit, quote_text, starts_with, string_of,
    text_between, texts, with_text, words, words_of,
};
use crate::windows::{shell_toggled, shell_window, split_in};
use crate::editor::{focused_rect_of, terminal_focused_in};

verus! {

// ---- which program ----------------------------------------------------------------

/// The first word of a command line.
pub open spec fn first_word(line: Seq<char>) -> Option<Seq<char>> {
    if words(line).len() > 0 {
        Some(words(line)[0])
    } else {
        None
    }
}

pub fn program_of(line: &str) -> (r: Option<String>)
    ensures
        opt_text(r) == first_word(line@),
{
    let v = chars_of(line);
    let w = words_of(&v);
    if w.len() > 0 {
        assert(crate::strings::slices(w@)[0] == w@[0]@);
        Some(string_of(w[0]))
    } else {
        None
    }
}

pub open spec fn then_word(line: Option<Seq<char>>) -> Option<Seq<char>> {
    match line {
        Some(l) => first_word(l),
        None => None,
    }
}

/// The language server for an extension, as configured or built in.
#[verifier::opaque]
pub open spec fn server_program(table: Seq<(Seq<char>, Seq<char>)>, ext: Seq<char>) -> Option<
    Seq<char>,
> {
    match lookup_from(table, ext, 0) {
        Some(c) => first_word(c),
        None => then_word(builtin_lsp_of(ext)),
    }
}

/// The program that a name means: itself, where it can be installed; else the
/// formatter or the language server of the extension it is.
#[verifier::opaque]
pub open spec fn tool_named(
    table: Seq<(Seq<char>, Seq<char>)>,
    fmt: Seq<(Seq<char>, Seq<char>)>,
    name: Seq<char>,
    lsp_only: bool,
    machine: Machine,
) -> Option<Seq<char>> {
    if install_of(name, manager_of(machine), machine) is Some {
        Some(name)
    } else if lsp_only {
        server_program(table, name)
    } else {
        match then_word(formatter_of(fmt, name)) {
            Some(p) => Some(p),
            None => server_program(table, name),
        }
    }
}

fn server_named(table: &Vec<(String, String)>, ext: &str) -> (r: Option<String>)
    ensures
        opt_text(r) == server_program(crate::strings::text_pairs(table@), ext@),
{
    reveal(server_program);
    match lookup(table, ext) {
        Some(c) => program_of(c.as_str()),
        None => match builtin_lsp(ext) {
            Some(c) => program_of(c),
            None => None,
        },
    }
}

impl Editor {
    /// The program that a name means.
    pub fn tool_for(&self, name: &str, lsp_only: bool, machine: &Machine) -> (r: Option<String>)
        ensures
            opt_text(r) == tool_named(
                self@.servers.table,
                self@.options.fmt,
                name@,
                lsp_only,
                *machine,
            ),
    {
        reveal(tool_named);
        if installer(name, machine).is_some() {
            return Some(name.to_owned());
        }
        if lsp_only {
            return server_named(&self.servers.table, name);
        }
        match formatter(&self.options, name) {
            Some(c) => match program_of(c.as_str()) {
                Some(p) => Some(p),
                None => server_named(&self.servers.table, name),
            },
            None => server_named(&self.servers.table, name),
        }
    }
}

// ---- running an installer ---------------------------------------------------------

pub open spec fn busy_installing(e: EditorView) -> bool {
    e.tools.installing is Some || (e.shell.install matches Some(i) && i.1)
}

#[verifier::opaque]
pub open spec fn installing_text(program: Seq<char>, cmd: Seq<char>) -> Seq<char> {
    "installing "@ + program + "… (`"@ + cmd + "`)"@
}

/// What is run in a shell of its own: the installer, and where it fails a
/// message that waits to be read.
#[verifier::opaque]
pub open spec fn install_script(program: Seq<char>, cmd: Seq<char>) -> Seq<char> {
    cmd + " || { printf '\\n"@ + program
        + ": install failed — press Enter to close\\n'; read _; exit 1; }"@
}

pub open spec fn shell_installing(e: EditorView, program: Seq<char>, own: bool) -> EditorView {
    EditorView { shell: ShellView { install: Some((program, own)), ..e.shell }, ..e }
}

/// An installer that asks for a password run in the terminal: typed into the
/// open shell, or in a shell of its own.
#[verifier::opaque]
pub open spec fn shell_install_begun(
    e: EditorView,
    program: Seq<char>,
    cmd: Seq<char>,
) -> EditorView {
    if e.shell.running {
        let t = if terminal_focused_in(e) {
            e
        } else {
            shell_toggled(e)
        };
        said(
            shell_installing(asking(t, EffectView::ShellText(cmd + "\n"@)), program, false),
            "installing "@ + program + " in the terminal…"@,
        )
    } else {
        let r = focused_rect_of(split_in(e, false));
        said(
            shell_installing(
                asking(
                    shell_window(e),
                    EffectView::RunInShell {
                        script: install_script(program, cmd),
                        width: r.2,
                        height: r.3,
                    },
                ),
                program,
                true,
            ),
            installing_text(program, cmd),
        )
    }
}

/// An installer started: in front of the user where it needs root, else in the
/// background.
#[verifier::opaque]
pub open spec fn install_begun(e: EditorView, program: Seq<char>, cmd: Seq<char>) -> EditorView {
    if starts_with(cmd, "sudo "@) {
        shell_install_begun(e, program, cmd)
    } else {
        let a = asking(e, EffectView::Install { program, cmd });
        said(
            EditorView { tools: ToolsView { installing: Some(program), ..a.tools }, ..a },
            installing_text(program, cmd),
        )
    }
}

fn say_installing(program: &str, cmd: &str) -> (r: String)
    ensures
        r@ == installing_text(program@, cmd@),
{
    reveal(installing_text);
    let mut v: Vec<char> = Vec::new();
    push_lit(&mut v, "installing ");
    push_lit(&mut v, program);
    push_lit(&mut v, "… (`");
    push_lit(&mut v, cmd);
    push_lit(&mut v, "`)");
    assert(v@ =~= installing_text(program@, cmd@));
    string_of(&v)
}

fn script_for(program: &str, cmd: &str) -> (r: String)
    ensures
        r@ == install_script(program@, cmd@),
{
    reveal(install_script);
    let mut v = chars_of(cmd);
    push_lit(&mut v, " || { printf '\\n");
    push_lit(&mut v, program);
    push_lit(&mut v, ": install failed — press Enter to close\\n'; read _; exit 1; }");
    assert(v@ =~= install_script(program@, cmd@));
    string_of(&v)
}

impl Editor {
    /// Whether an install is under way that another would collide with.
    pub fn install_running(&self) -> (r: bool)
        ensures
            r == busy_installing(self@),
    {
        self.tools.installing.is_some() || match &self.shell.install {
            Some(i) => i.1,
            None => false,
        }
    }

    fn mark_shell_install(&mut self, program: String, own: bool)
        requires
            old(self).wf(),
        ensures
            final(self)@ == shell_installing(old(self)@, program@, own),
            final(self).wf(),
    {
        self.shell.install = Some((program, own));
    }

    fn mark_installing(&mut self, program: Option<String>)
        requires
            old(self).wf(),
        ensures
            final(self)@ == (EditorView {
                tools: ToolsView { installing: opt_text(program), ..old(self)@.tools },
                ..old(self)@
            }),
            final(self).wf(),
    {
        self.tools.installing = program;
    }

    pub fn start_install_in_terminal(&mut self, program: &str, cmd: &str)
        requires
            old(self).wf(),
        ensures
            final(self)@ == shell_install_begun(old(self)@, program@, cmd@),
            final(self).wf(),
    {
        reveal(shell_install_begun);
        if self.shell.running {
            let line = with_text(cmd, "\n");
            let m = text_between("installing ", program, " in the terminal…");
            if !self.terminal_focused() {
                self.toggle_terminal();
            }
            self.ask(Effect::ShellText(line));
            self.mark_shell_install(program.to_owned(), false);
            self.set_status(m.as_str());
            return ;
        }
        let m = say_installing(program, cmd);
        let script = script_for(program, cmd);
        let (width, height) = self.show_shell_window();
        self.ask(Effect::RunInShell { script, width, height });
        self.mark_shell_install(program.to_owned(), true);
        self.set_status(m.as_str());
    }

    /// Start an installer.
    pub fn start_install(&mut self, program: &str, cmd: &str)
        requires
            old(self).wf(),
        ensures
            final(self)@ == install_begun(old(self)@, program@, cmd@),
            final(self).wf(),
    {
        reveal(install_begun);
        let c = chars_of(cmd);
        if has_prefix(&c, "sudo ") {
            self.start_install_in_terminal(program, cmd);
            return ;
        }
        let m = say_installing(program, cmd);
        self.ask(Effect::Install { program: program.to_owned(), cmd: cmd.to_owned() });
        self.mark_installing(Some(program.to_owned()));
        self.set_status(m.as_str());
    }
}

// ---- what becomes of a request ----------------------------------------------------

/// The program that a request came to installed; `have` says whether it is
/// there already.
pub open spec fn install_answered(
    e: EditorView,
    name: Seq<char>,
    program: Option<Seq<char>>,
    have: bool,
    cmd: Option<Seq<char>>,
) -> EditorView {
    if busy_installing(e) {
        said(e, "an install is already running"@)
    } else {
        match program {
            None => said(
                e,
                "nothing known for "@ + debug_text(name)
                    + " — use a tool name or a file extension"@,
            ),
            Some(p) => if have {
                said(e, p + " is already installed"@)
            } else {
                match cmd {
                    Some(c) => install_begun(e, p, c),
                    None => said(e, "don't know how to install "@ + p),
                }
            },
        }
    }
}

#[verifier::opaque]
pub open spec fn offer_text(program: Seq<char>, cmd: Seq<char>) -> Seq<char> {
    program + " not installed — run `"@ + cmd + "`? (y/N)"@
}

/// A missing program's installer offered: the next key answers.
pub open spec fn install_offered(e: EditorView, program: Seq<char>, cmd: Seq<char>) -> EditorView {
    let s = said(e, offer_text(program, cmd));
    EditorView { tools: ToolsView { pending_install: Some((program, cmd)), ..s.tools }, ..s }
}

/// Whether a program formats the buffer in front.
#[verifier::opaque]
pub open spec fn formats_front(e: EditorView, program: Seq<char>) -> bool {
    match doc_of(e).path {
        Some(p) => match extension_of(p) {
            Some(x) => then_word(formatter_of(e.options.fmt, x)) == Some(program),
            None => false,
        },
        None => false,
    }
}

/// A program installed: servers that failed may be tried again, and a buffer
/// that was waiting for it is formatted.
#[verifier::opaque]
pub open spec fn install_done(e: EditorView, program: Seq<char>) -> EditorView {
    let c = EditorView { servers: ServersView { failed: Seq::empty(), ..e.servers }, ..e };
    let s = said(c, program + " installed"@);
    if formats_front(e, program) {
        asking(s, EffectView::Format)
    } else {
        s
    }
}

/// An installer in the background has ended.
pub open spec fn install_ended(e: EditorView, failure: Option<Seq<char>>) -> EditorView {
    let t = EditorView { tools: ToolsView { installing: None, ..e.tools }, ..e };
    match e.tools.installing {
        None => e,
        Some(program) => match failure {
            None => install_done(t, program),
            Some(why) => said(t, program + ": install failed — "@ + why),
        },
    }
}

/// The program being installed in the user's own shell looked for.
pub open spec fn shell_install_seen(e: EditorView, there: bool) -> EditorView {
    match e.shell.install {
        Some((program, own)) => if !own && there {
            install_done(
                EditorView { shell: ShellView { install: None, ..e.shell }, ..e },
                program,
            )
        } else {
            e
        },
        None => e,
    }
}

impl Editor {
    /// Install the program that `tool_for` found for a name. `have` says
    /// whether it is on PATH already, `cmd` how it is installed.
    pub fn install_named(
        &mut self,
        name: &str,
        program: Option<String>,
        have: bool,
        cmd: Option<String>,
    )
        requires
            old(self).wf(),
        ensures
            final(self)@ == install_answered(
                old(self)@,
                name@,
                opt_text(program),
                have,
                opt_text(cmd),
            ),
            final(self).wf(),
    {
        if self.install_running() {
            self.set_status("an install is already running");
            return ;
        }
        let p = match program {
            Some(p) => p,
            None => {
                let q = quote_text(name);
                let m = text_between(
                    "nothing known for ",
                    q.as_str(),
                    " — use a tool name or a file extension",
                );
                self.set_status(m.as_str());
                return ;
            },
        };
        if have {
            let m = with_text(p.as_str(), " is already installed");
            self.set_status(m.as_str());
            return ;
        }
        match cmd {
            Some(c) => {
                self.start_install(p.as_str(), c.as_str());
                return ;
            },
            None => {},
        }
        let m = with_text("don't know how to install ", p.as_str());
        self.set_status(m.as_str());
    }

    fn mark_offer(&mut self, offer: Option<(String, String)>)
        requires
            old(self).wf(),
        ensures
            final(self)@ == (EditorView {
                tools: ToolsView { pending_install: offer_view(offer), ..old(self)@.tools },
                ..old(self)@
            }),
            final(self).wf(),
    {
        self.tools.pending_install = offer;
    }

    /// Offer to install a missing program. False where that is not known how,
    /// or an install is under way.
    pub fn offer_install(&mut self, program: &str, cmd: Option<String>) -> (r: bool)
        requires
            old(self).wf(),
        ensures
            r == (cmd is Some && !busy_installing(old(self)@)),
            final(self)@ == (if r {
                install_offered(old(self)@, program@, cmd->0@)
            } else {
                old(self)@
            }),
            final(self).wf(),
    {
        if self.install_running() {
            return false;
        }
        match cmd {
            Some(c) => {
                let m = say_offer(program, c.as_str());
                self.set_status(m.as_str());
                self.mark_offer(Some((program.to_owned(), c)));
                true
            },
            None => false,
        }
    }

    /// Take the offer that is waiting for its answer.
    pub(crate) fn take_offer(&mut self) -> (r: Option<(String, String)>)
        requires
            old(self).wf(),
        ensures
            offer_view(r) == old(self)@.tools.pending_install,
            final(self)@ == (EditorView {
                tools: ToolsView { pending_install: None, ..old(self)@.tools },
                ..old(self)@
            }),
            final(self).wf(),
    {
        self.tools.pending_install.take()
    }

    fn formats_this(&self, program: &str) -> (r: bool)
        requires
            self.wf(),
        ensures
            r == formats_front(self@, program@),
    {
        reveal(formats_front);
        let ext = match &self.doc().path {
            Some(p) => extension(p.as_str()),
            None => None,
        };
        match ext {
            Some(x) => match formatter(&self.options, x.as_str()) {
                Some(c) => match program_of(c.as_str()) {
                    Some(p) => crate::strings::same(p.as_str(), program),
                    None => false,
                },
                None => false,
            },
            None => false,
        }
    }

    fn forgive_servers(&mut self)
        requires
            old(self).wf(),
        ensures
            final(self)@ == (EditorView {
                servers: ServersView { failed: Seq::empty(), ..old(self)@.servers },
                ..old(self)@
            }),
            final(self).wf(),
    {
        self.servers.failed = Vec::new();
        assert(texts(self.servers.failed@) =~= Seq::empty());
    }

    pub(crate) fn finish_install(&mut self, program: &str)
        requires
            old(self).wf(),
        ensures
            final(self)@ == install_done(old(self)@, program@),
            final(self).wf(),
    {
        reveal(install_done);
        let again = self.formats_this(program);
        let m = with_text(program, " installed");
        self.forgive_servers();
        self.set_status(m.as_str());
        if again {
            self.ask(Effect::Format);
        }
    }

    fn take_installing(&mut self) -> (r: Option<String>)
        requires
            old(self).wf(),
        ensures
            opt_text(r) == old(self)@.tools.installing,
            final(self)@ == (EditorView {
                tools: ToolsView { installing: None, ..old(self)@.tools },
                ..old(self)@
            }),
            final(self).wf(),
    {
        self.tools.installing.take()
    }

    /// An installer in the background has ended, or failed with a reason.
    pub fn install_over(&mut self, failure: Option<String>)
        requires
            old(self).wf(),
        ensures
            final(self)@ == install_ended(old(self)@, opt_text(failure)),
            final(self).wf(),
    {
        let program = match self.take_installing() {
            Some(p) => p,
            None => {
                return ;
            },
        };
        match failure {
            None => {
                self.finish_install(program.as_str());
                return ;
            },
            Some(why) => {
                let m = text_between(program.as_str(), ": install failed — ", why.as_str());
                self.set_status(m.as_str());
                return ;
            },
        }
    }

    pub(crate) fn take_shell_install(&mut self) -> (r: Option<(String, bool)>)
        requires
            old(self).wf(),
        ensures
            clip_view(r) == old(self)@.shell.install,
            final(self)@ == (EditorView {
                shell: ShellView { install: None, ..old(self)@.shell },
                ..old(self)@
            }),
            final(self).wf(),
    {
        self.shell.install.take()
    }

    /// The program that is being installed in the user's own shell, if any.
    pub fn awaited_program(&self) -> (r: Option<&String>)
        ensures
            match r {
                Some(p) => self@.shell.install == Some((p@, false)),
                None => !(self@.shell.install matches Some(i) && !i.1),
            },
    {
        match &self.shell.install {
            Some(i) => if i.1 {
                None
            } else {
                Some(&i.0)
            },
            None => None,
        }
    }

    /// Whether the program being installed in the user's own shell is there.
    pub fn look_for_program(&mut self, there: bool) -> (changed: bool)
        requires
            old(self).wf(),
        ensures
            changed == (there && (old(self)@.shell.install matches Some(i) && !i.1)),
            final(self)@ == shell_install_seen(old(self)@, there),
            final(self).wf(),
    {
        if !there || self.awaited_program().is_none() {
            return false;
        }
        match self.take_shell_install() {
            Some((program, _)) => {
                self.finish_install(program.as_str());
                true
            },
            None => false,
        }
    }
}

fn say_offer(program: &str, cmd: &str) -> (r: String)
    ensures
        r@ == offer_text(program@, cmd@),
{
    reveal(offer_text);
    let mut v = chars_of(program);
    push_lit(&mut v, " not installed — run `");
    push_lit(&mut v, cmd);
    push_lit(&mut v, "`? (y/N)");
    assert(v@ =~= offer_text(program@, cmd@));
    string_of(&v)
}

} // verus!
