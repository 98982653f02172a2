//! The `:` prompt: its suggestions and its keys.

use vstd::prelude::*;
use crate::commands::{all_commands, commands, name_of};
use crate::editor::{Editor, EditorView};
use crate::ex::{ex_file, ex_of, ex_other, executed, ExView};
use crate::keymap::{Key, KeyCode};
use crate::picker::{fuzzy_score, score_of};
use crate::prompts::{
    bare_mode, char_of_key, plain_char, with_char, with_line, without_last_char,
};
use crate::state::{LinesView, Mode};
use crate::strings::{
    all_digits, char_is_digit, chars_of, comes_before, has_char, text_before, texts,
};
use crate::document::min_int;

verus! {

pub const MOST_SUGGESTED: usize = 8;

/// The commands of the prompt, each by its first name.
pub open spec fn builtins() -> Seq<Seq<char>> {
    seq![
        "w"@,
        "q"@,
        "q!"@,
        "wq"@,
        "e"@,
        "help"@,
        "md"@,
        "term"@,
        "wrap"@,
        "fmt"@,
        "bn"@,
        "bp"@,
        "theme"@,
        "install"@,
        "lsp-install"@,
        "config"@,
        "config!"@,
        "wa"@,
        "e!"@,
        "rename"@,
        "recover"@,
        "recover!"@,
    ]
}

pub fn builtin_names() -> (r: Vec<&'static str>)
    ensures
        r@.len() == builtins().len(),
        forall|i: int| 0 <= i < r@.len() ==> (#[trigger] r@[i])@ == builtins()[i],
{
    vec![
        "w",
        "q",
        "q!",
        "wq",
        "e",
        "help",
        "md",
        "term",
        "wrap",
        "fmt",
        "bn",
        "bp",
        "theme",
        "install",
        "lsp-install",
        "config",
        "config!",
        "wa",
        "e!",
        "rename",
        "recover",
        "recover!",
    ]
}

/// Every name that is suggested from: the prompt's own, then the commands'.
pub open spec fn all_names() -> Seq<Seq<char>> {
    builtins() + Seq::new(all_commands().len(), |i: int| name_of(all_commands()[i]))
}

/// Whether a name is suggested before another: it matches better, or as well
/// and comes first in order.
pub open spec fn suits_better(query: Seq<char>, a: Seq<char>, b: Seq<char>) -> bool {
    let x = score_of(query, a)->0;
    let y = score_of(query, b)->0;
    x > y || (x == y && text_before(a, b, 0))
}

pub open spec fn with_suggestion(
    list: Seq<Seq<char>>,
    query: Seq<char>,
    name: Seq<char>,
    i: int,
) -> Seq<Seq<char>>
    decreases list.len() - i,
{
    if i < 0 || i >= list.len() {
        list.push(name)
    } else if suits_better(query, name, list[i]) {
        list.insert(i, name)
    } else {
        with_suggestion(list, query, name, i + 1)
    }
}

/// The first `n` names that match, best first.
pub open spec fn suggested_upto(query: Seq<char>, names: Seq<Seq<char>>, n: nat) -> Seq<Seq<char>>
    decreases n,
{
    if n == 0 || n > names.len() {
        Seq::empty()
    } else {
        let before = suggested_upto(query, names, (n - 1) as nat);
        if score_of(query, names[n - 1]) is Some {
            with_suggestion(before, query, names[n - 1], 0)
        } else {
            before
        }
    }
}

/// What is suggested for a line: nothing once an argument is begun, or for a
/// number.
#[verifier::opaque]
pub open spec fn suggestions_for(line: Seq<char>) -> Seq<Seq<char>> {
    if line.len() == 0 || line.contains(' ') || all_digits(line) {
        Seq::empty()
    } else {
        let all = suggested_upto(line, all_names(), all_names().len());
        all.take(min_int(all.len() as int, MOST_SUGGESTED as int))
    }
}

fn put_suggestion(list: &mut Vec<String>, query: &str, name: &str, score: i128)
    requires
        score_of(query@, name@) == Some(score as int),
        forall|k: int| 0 <= k < old(list)@.len() ==> score_of(query@, (#[trigger] old(list)@[k])@) is Some,
    ensures
        texts(final(list)@) == with_suggestion(texts(old(list)@), query@, name@, 0),
        forall|k: int|
            0 <= k < final(list)@.len() ==> score_of(query@, (#[trigger] final(list)@[k])@) is Some,
{
    let ghost had = list@;
    let ghost all = texts(list@);
    let mut i: usize = 0;
    let mut found = false;
    while i < list.len() && !found
        invariant
            list@ == had,
            all == texts(had),
            i <= had.len(),
            score_of(query@, name@) == Some(score as int),
            forall|k: int| 0 <= k < had.len() ==> score_of(query@, (#[trigger] had[k])@) is Some,
            found ==> i < had.len() && suits_better(query@, name@, all[i as int]),
            with_suggestion(all, query@, name@, 0) == with_suggestion(all, query@, name@, i as int),
        decreases had.len() - i + (if found { 0int } else { 1int }),
    {
        assert(all[i as int] == had[i as int]@);
        let better = match fuzzy_score(query, list[i].as_str()) {
            Some(s) => score > s || (score == s && comes_before(name, list[i].as_str())),
            None => false,
        };
        if better {
            found = true;
        } else {
            i += 1;
        }
    }
    let ghost at = i as int;
    let s = name.to_owned();
    list.insert(i, s);
    assert(list@ == had.insert(at, s));
    proof {
        if at < had.len() as int {
            assert(texts(list@) =~= all.insert(at, name@));
        } else {
            assert(texts(list@) =~= all.push(name@));
        }
    }
    assert forall|k: int| 0 <= k < list@.len() implies score_of(query@, (#[trigger] list@[k])@) is Some by {
        if k < at {
            assert(list@[k] == had[k]);
        } else if k > at {
            assert(list@[k] == had[k - 1]);
        }
    }
}

fn all_digits_in(v: &[char]) -> (r: bool)
    ensures
        r == all_digits(v@),
{
    let mut i: usize = 0;
    while i < v.len()
        invariant
            i <= v@.len(),
            forall|k: int| 0 <= k < i ==> crate::strings::is_digit(v@[k]),
        decreases v@.len() - i,
    {
        if !char_is_digit(v[i]) {
            return false;
        }
        i += 1;
    }
    true
}

fn every_name() -> (r: Vec<&'static str>)
    ensures
        r@.len() == all_names().len(),
        forall|i: int| 0 <= i < r@.len() ==> (#[trigger] r@[i])@ == all_names()[i],
{
    let mut out = builtin_names();
    let all = commands();
    let ghost head = builtins().len() as int;
    let mut i: usize = 0;
    while i < all.len()
        invariant
            all@ == all_commands(),
            i <= all@.len(),
            head == builtins().len(),
            out@.len() == head + i,
            forall|k: int| 0 <= k < out@.len() ==> (#[trigger] out@[k])@ == all_names()[k],
        decreases all@.len() - i,
    {
        let ghost had = out@;
        out.push(all[i].name());
        assert forall|k: int| 0 <= k < out@.len() implies (#[trigger] out@[k])@ == all_names()[k] by {
            if k < had.len() {
                assert(out@[k] == had[k]);
            }
        }
        i += 1;
    }
    out
}

/// What is suggested for a line.
pub fn suggest(line: &str) -> (r: Vec<String>)
    ensures
        texts(r@) == suggestions_for(line@),
        texts(r@).len() == r@.len(),
{
    reveal(suggestions_for);
    let v = chars_of(line);
    let mut out: Vec<String> = Vec::new();
    assert(texts(out@) =~= Seq::empty());
    if v.len() == 0 || has_char(&v, ' ') || all_digits_in(&v) {
        return out;
    }
    let names = every_name();
    let ghost all = all_names();
    let mut i: usize = 0;
    while i < names.len()
        invariant
            i <= names@.len(),
            all == all_names(),
            names@.len() == all.len(),
            forall|k: int| 0 <= k < names@.len() ==> (#[trigger] names@[k])@ == all[k],
            texts(out@) == suggested_upto(line@, all, i as nat),
            forall|k: int| 0 <= k < out@.len() ==> score_of(line@, (#[trigger] out@[k])@) is Some,
        decreases names@.len() - i,
    {
        assert(names@[i as int]@ == all[i as int]);
        if let Some(s) = fuzzy_score(line, names[i]) {
            put_suggestion(&mut out, line, names[i], s);
        }
        i += 1;
    }
    let ghost full = texts(out@);
    while out.len() > MOST_SUGGESTED
        invariant
            texts(out@).len() == out@.len(),
            out@.len() <= full.len(),
            full.len() > MOST_SUGGESTED ==> out@.len() >= MOST_SUGGESTED,
            full.len() <= MOST_SUGGESTED ==> out@.len() == full.len(),
            texts(out@) == full.take(out@.len() as int),
        decreases out@.len(),
    {
        let ghost had = out@;
        let _last = out.pop();
        assert(texts(out@) =~= texts(had).take(out@.len() as int));
        assert(texts(out@) =~= full.take(out@.len() as int));
    }
    out
}

// ---- keys -------------------------------------------------------------------------

pub open spec fn with_suggest(e: EditorView, at: Option<usize>) -> EditorView {
    EditorView { lines: LinesView { command_suggest: at, ..e.lines }, ..e }
}

/// The prompt's line carried out.
#[verifier::opaque]
pub open spec fn line_entered(e: EditorView) -> EditorView {
    executed(
        bare_mode(with_line(with_suggest(e, None), Seq::empty()), Mode::Normal),
        e.lines.command_line,
    )
}

/// A tab: the first one highlights, the next one takes what is highlighted.
#[verifier::opaque]
pub open spec fn line_tabbed(e: EditorView) -> EditorView {
    let list = suggestions_for(e.lines.command_line);
    match e.lines.command_suggest {
        Some(i) => with_suggest(
            if i < list.len() {
                with_line(e, list[i as int].push(' '))
            } else {
                e
            },
            None,
        ),
        None => if list.len() > 0 {
            with_suggest(e, Some(0))
        } else {
            e
        },
    }
}

/// The highlight moved, round the end.
#[verifier::opaque]
pub open spec fn suggestion_moved(e: EditorView, down: bool) -> EditorView {
    let n = suggestions_for(e.lines.command_line).len() as int;
    if n == 0 {
        e
    } else {
        with_suggest(
            e,
            Some(
                (match e.lines.command_suggest {
                    None => if down {
                        0
                    } else {
                        n - 1
                    },
                    Some(i) => if down {
                        if i + 1 < n {
                            i + 1
                        } else {
                            0
                        }
                    } else if 0 < i <= n {
                        i - 1
                    } else {
                        n - 1
                    },
                }) as usize,
            ),
        )
    }
}

/// The last character of the line taken back; where there is none, the prompt
/// is left.
#[verifier::opaque]
pub open spec fn line_shortened(e: EditorView) -> EditorView {
    let s = with_suggest(e, None);
    if e.lines.command_line.len() == 0 {
        bare_mode(s, Mode::Normal)
    } else {
        with_line(s, e.lines.command_line.drop_last())
    }
}

/// A key of the `:` prompt.
#[verifier::opaque]
pub open spec fn command_keyed(e: EditorView, key: Key) -> EditorView {
    match key.code {
        KeyCode::Esc => bare_mode(with_suggest(with_line(e, Seq::empty()), None), Mode::Normal),
        KeyCode::Enter => line_entered(e),
        KeyCode::Tab => line_tabbed(e),
        KeyCode::Down => suggestion_moved(e, true),
        KeyCode::Up => suggestion_moved(e, false),
        KeyCode::Backspace => line_shortened(e),
        _ => match plain_char(key) {
            Some(c) => with_line(with_suggest(e, None), e.lines.command_line.push(c)),
            None => e,
        },
    }
}

impl Editor {
    /// What is suggested for the command being typed.
    pub fn command_suggestions(&self) -> (r: Vec<String>)
        ensures
            texts(r@) == suggestions_for(self@.lines.command_line),
            texts(r@).len() == r@.len(),
    {
        suggest(self.lines.command_line.as_str())
    }

    fn enter_line(&mut self)
        requires
            old(self).wf(),
        ensures
            final(self)@ == line_entered(old(self)@),
            final(self).wf(),
    {
        reveal(line_entered);
        let line = self.line();
        self.set_suggest(None);
        self.clear_line();
        self.set_bare_mode(Mode::Normal);
        self.execute_command(line.as_str());
    }

    fn tab_line(&mut self)
        requires
            old(self).wf(),
        ensures
            final(self)@ == line_tabbed(old(self)@),
            final(self).wf(),
    {
        reveal(line_tabbed);
        let list = self.command_suggestions();
        let ghost views = texts(list@);
        match self.lines.command_suggest {
            Some(i) => {
                if i < list.len() {
                    assert(views[i as int] == list@[i as int]@);
                    let t = with_char(list[i].as_str(), ' ');
                    self.set_line(t);
                }
                self.set_suggest(None);
                return ;
            },
            None => {},
        }
        if list.len() > 0 {
            self.set_suggest(Some(0));
        }
    }

    fn move_suggestion(&mut self, down: bool)
        requires
            old(self).wf(),
        ensures
            final(self)@ == suggestion_moved(old(self)@, down),
            final(self).wf(),
    {
        reveal(suggestion_moved);
        let n = self.command_suggestions().len();
        if n == 0 {
            return ;
        }
        let at: usize = match self.lines.command_suggest {
            None => if down {
                0
            } else {
                n - 1
            },
            Some(i) => if down {
                if i < n && n - i > 1 {
                    i + 1
                } else {
                    0
                }
            } else if 0 < i && i <= n {
                i - 1
            } else {
                n - 1
            },
        };
        self.set_suggest(Some(at));
    }

    fn shorten_line(&mut self)
        requires
            old(self).wf(),
        ensures
            final(self)@ == line_shortened(old(self)@),
            final(self).wf(),
    {
        reveal(line_shortened);
        let line = self.line();
        self.set_suggest(None);
        match without_last_char(line.as_str()) {
            Some(t) => {
                self.set_line(t);
                return ;
            },
            None => {},
        }
        self.set_bare_mode(Mode::Normal);
    }

    fn leave_line(&mut self)
        requires
            old(self).wf(),
        ensures
            final(self)@ == bare_mode(
                with_suggest(with_line(old(self)@, Seq::empty()), None),
                Mode::Normal,
            ),
            final(self).wf(),
    {
        self.clear_line();
        self.set_suggest(None);
        self.set_bare_mode(Mode::Normal);
    }

    fn type_on_line(&mut self, c: char)
        requires
            old(self).wf(),
        ensures
            final(self)@ == with_line(
                with_suggest(old(self)@, None),
                old(self)@.lines.command_line.push(c),
            ),
            final(self).wf(),
    {
        let t = with_char(self.line().as_str(), c);
        self.set_suggest(None);
        self.set_line(t);
    }

    /// A key while a `:` command is typed.
    pub(crate) fn handle_command_key(&mut self, key: Key)
        requires
            old(self).wf(),
        ensures
            final(self)@ == command_keyed(old(self)@, key),
            final(self).wf(),
    {
        reveal(command_keyed);
        match key.code {
            KeyCode::Esc => {
                self.leave_line();
                return ;
            },
            KeyCode::Enter => {
                self.enter_line();
                return ;
            },
            KeyCode::Tab => {
                self.tab_line();
                return ;
            },
            KeyCode::Down => {
                self.move_suggestion(true);
                return ;
            },
            KeyCode::Up => {
                self.move_suggestion(false);
                return ;
            },
            KeyCode::Backspace => {
                self.shorten_line();
                return ;
            },
            _ => {},
        }
        if let Some(c) = char_of_key(key) {
            self.type_on_line(c);
        }
    }
}

// ---- laws ---------------------------------------------------------------------

/// The first name of the command of the prompt that a word stands for.
#[verifier::opaque]
pub open spec fn first_name(cmd: Seq<char>) -> Option<Seq<char>> {
    if cmd == "w"@ || cmd == "write"@ || cmd == "w!"@ || cmd == "write!"@ {
        Some("w"@)
    } else if cmd == "wa"@ || cmd == "wall"@ {
        Some("wa"@)
    } else if cmd == "q"@ || cmd == "quit"@ {
        Some("q"@)
    } else if cmd == "q!"@ || cmd == "quit!"@ {
        Some("q!"@)
    } else if cmd == "wq"@ || cmd == "x"@ || cmd == "wq!"@ || cmd == "x!"@ {
        Some("wq"@)
    } else if cmd == "e"@ || cmd == "edit"@ {
        Some("e"@)
    } else if cmd == "e!"@ || cmd == "edit!"@ {
        Some("e!"@)
    } else if cmd == "recover"@ {
        Some("recover"@)
    } else if cmd == "recover!"@ {
        Some("recover!"@)
    } else if cmd == "rename"@ {
        Some("rename"@)
    } else if cmd == "help"@ || cmd == "h"@ {
        Some("help"@)
    } else if cmd == "md"@ || cmd == "preview"@ {
        Some("md"@)
    } else if cmd == "term"@ || cmd == "terminal"@ {
        Some("term"@)
    } else if cmd == "wrap"@ {
        Some("wrap"@)
    } else if cmd == "fmt"@ || cmd == "format"@ {
        Some("fmt"@)
    } else if cmd == "bn"@ {
        Some("bn"@)
    } else if cmd == "bp"@ {
        Some("bp"@)
    } else if cmd == "theme"@ {
        Some("theme"@)
    } else if cmd == "install"@ {
        Some("install"@)
    } else if cmd == "lsp-install"@ {
        Some("lsp-install"@)
    } else if cmd == "config"@ {
        Some("config"@)
    } else if cmd == "config!"@ {
        Some("config!"@)
    } else {
        None
    }
}

/// What the prompt itself makes of a word, and none of the commands by name.
pub open spec fn own_ex(cmd: Seq<char>, arg: Option<Seq<char>>) -> Option<ExView> {
    match ex_file(cmd, arg) {
        Some(x) => Some(x),
        None => ex_other(cmd, arg),
    }
}

/// What is asked for, whether or not it is forced.
pub open spec fn unforced(x: ExView) -> ExView {
    match x {
        ExView::Write { force, path } => ExView::Write { force: false, path },
        ExView::WriteQuit { force } => ExView::WriteQuit { force: false },
        other => other,
    }
}

/// What tells the words of the prompt apart.
proof fn lemma_words()
    ensures
        "w"@.len() == 1 && "w"@[0] == 'w',
        "write"@.len() == 5 && "write"@[0] == 'w' && "write"@[1] == 'r',
        "w!"@.len() == 2 && "w!"@[0] == 'w' && "w!"@[1] == '!',
        "write!"@.len() == 6 && "write!"@[0] == 'w' && "write!"@[1] == 'r',
        "wa"@.len() == 2 && "wa"@[0] == 'w' && "wa"@[1] == 'a',
        "wall"@.len() == 4 && "wall"@[0] == 'w' && "wall"@[1] == 'a',
        "q"@.len() == 1 && "q"@[0] == 'q',
        "quit"@.len() == 4 && "quit"@[0] == 'q' && "quit"@[1] == 'u',
        "q!"@.len() == 2 && "q!"@[0] == 'q' && "q!"@[1] == '!',
        "quit!"@.len() == 5 && "quit!"@[0] == 'q' && "quit!"@[1] == 'u',
        "wq"@.len() == 2 && "wq"@[0] == 'w' && "wq"@[1] == 'q',
        "x"@.len() == 1 && "x"@[0] == 'x',
        "wq!"@.len() == 3 && "wq!"@[0] == 'w' && "wq!"@[1] == 'q',
        "x!"@.len() == 2 && "x!"@[0] == 'x' && "x!"@[1] == '!',
        "e"@.len() == 1 && "e"@[0] == 'e',
        "edit"@.len() == 4 && "edit"@[0] == 'e' && "edit"@[1] == 'd',
        "e!"@.len() == 2 && "e!"@[0] == 'e' && "e!"@[1] == '!',
        "edit!"@.len() == 5 && "edit!"@[0] == 'e' && "edit!"@[1] == 'd',
        "recover"@.len() == 7 && "recover"@[0] == 'r' && "recover"@[1] == 'e',
        "recover!"@.len() == 8 && "recover!"@[0] == 'r' && "recover!"@[1] == 'e',
        "rename"@.len() == 6 && "rename"@[0] == 'r' && "rename"@[1] == 'e',
        "help"@.len() == 4 && "help"@[0] == 'h' && "help"@[1] == 'e',
        "h"@.len() == 1 && "h"@[0] == 'h',
        "md"@.len() == 2 && "md"@[0] == 'm' && "md"@[1] == 'd',
        "preview"@.len() == 7 && "preview"@[0] == 'p' && "preview"@[1] == 'r',
        "term"@.len() == 4 && "term"@[0] == 't' && "term"@[1] == 'e',
        "terminal"@.len() == 8 && "terminal"@[0] == 't' && "terminal"@[1] == 'e',
        "wrap"@.len() == 4 && "wrap"@[0] == 'w' && "wrap"@[1] == 'r',
        "fmt"@.len() == 3 && "fmt"@[0] == 'f' && "fmt"@[1] == 'm',
        "format"@.len() == 6 && "format"@[0] == 'f' && "format"@[1] == 'o',
        "bn"@.len() == 2 && "bn"@[0] == 'b' && "bn"@[1] == 'n',
        "bp"@.len() == 2 && "bp"@[0] == 'b' && "bp"@[1] == 'p',
        "theme"@.len() == 5 && "theme"@[0] == 't' && "theme"@[1] == 'h',
        "install"@.len() == 7 && "install"@[0] == 'i' && "install"@[1] == 'n',
        "lsp-install"@.len() == 11 && "lsp-install"@[0] == 'l' && "lsp-install"@[1] == 's',
        "config"@.len() == 6 && "config"@[0] == 'c' && "config"@[1] == 'o',
        "config!"@.len() == 7 && "config!"@[0] == 'c' && "config!"@[1] == 'o',
{
    reveal_strlit("w");
    reveal_strlit("write");
    reveal_strlit("w!");
    reveal_strlit("write!");
    reveal_strlit("wa");
    reveal_strlit("wall");
    reveal_strlit("q");
    reveal_strlit("quit");
    reveal_strlit("q!");
    reveal_strlit("quit!");
    reveal_strlit("wq");
    reveal_strlit("x");
    reveal_strlit("wq!");
    reveal_strlit("x!");
    reveal_strlit("e");
    reveal_strlit("edit");
    reveal_strlit("e!");
    reveal_strlit("edit!");
    reveal_strlit("recover");
    reveal_strlit("recover!");
    reveal_strlit("rename");
    reveal_strlit("help");
    reveal_strlit("h");
    reveal_strlit("md");
    reveal_strlit("preview");
    reveal_strlit("term");
    reveal_strlit("terminal");
    reveal_strlit("wrap");
    reveal_strlit("fmt");
    reveal_strlit("format");
    reveal_strlit("bn");
    reveal_strlit("bp");
    reveal_strlit("theme");
    reveal_strlit("install");
    reveal_strlit("lsp-install");
    reveal_strlit("config");
    reveal_strlit("config!");
}

proof fn lemma_suggested_are_run(arg: Option<Seq<char>>)
    ensures
        forall|i: int|
            0 <= i < builtins().len() ==> own_ex(#[trigger] builtins()[i], arg) is Some
                && first_name(builtins()[i]) == Some(builtins()[i]),
{
    reveal(ex_file);
    reveal(ex_other);
    reveal(first_name);
    lemma_words();
    let b = builtins();
    assert(first_name("w"@) == Some("w"@));
    assert(b[0] == "w"@);
    assert(first_name("q"@) == Some("q"@));
    assert(b[1] == "q"@);
    assert(first_name("q!"@) == Some("q!"@));
    assert(b[2] == "q!"@);
    assert(first_name("wq"@) == Some("wq"@));
    assert(b[3] == "wq"@);
    assert(first_name("e"@) == Some("e"@));
    assert(b[4] == "e"@);
    assert(first_name("help"@) == Some("help"@));
    assert(b[5] == "help"@);
    assert(first_name("md"@) == Some("md"@));
    assert(b[6] == "md"@);
    assert(first_name("term"@) == Some("term"@));
    assert(b[7] == "term"@);
    assert(first_name("wrap"@) == Some("wrap"@));
    assert(b[8] == "wrap"@);
    assert(first_name("fmt"@) == Some("fmt"@));
    assert(b[9] == "fmt"@);
    assert(first_name("bn"@) == Some("bn"@));
    assert(b[10] == "bn"@);
    assert(first_name("bp"@) == Some("bp"@));
    assert(b[11] == "bp"@);
    assert(first_name("theme"@) == Some("theme"@));
    assert(b[12] == "theme"@);
    assert(first_name("install"@) == Some("install"@));
    assert(b[13] == "install"@);
    assert(first_name("lsp-install"@) == Some("lsp-install"@));
    assert(b[14] == "lsp-install"@);
    assert(first_name("config"@) == Some("config"@));
    assert(b[15] == "config"@);
    assert(first_name("config!"@) == Some("config!"@));
    assert(b[16] == "config!"@);
    assert(first_name("wa"@) == Some("wa"@));
    assert(b[17] == "wa"@);
    assert(first_name("e!"@) == Some("e!"@));
    assert(b[18] == "e!"@);
    assert(first_name("rename"@) == Some("rename"@));
    assert(b[19] == "rename"@);
    assert(first_name("recover"@) == Some("recover"@));
    assert(b[20] == "recover"@);
    assert(first_name("recover!"@) == Some("recover!"@));
    assert(b[21] == "recover!"@);
}

proof fn lemma_run_are_suggested(cmd: Seq<char>, arg: Option<Seq<char>>)
    ensures
        own_ex(cmd, arg) is Some <==> first_name(cmd) is Some,
        match first_name(cmd) {
            Some(n) => builtins().contains(n) && unforced(own_ex(cmd, arg)->0) == unforced(
                own_ex(n, arg)->0,
            ),
            None => true,
        },
{
    reveal(ex_file);
    reveal(ex_other);
    reveal(first_name);
    lemma_words();
    let b = builtins();
    assert(b[0] == "w"@);
    assert(b[1] == "q"@);
    assert(b[2] == "q!"@);
    assert(b[3] == "wq"@);
    assert(b[4] == "e"@);
    assert(b[5] == "help"@);
    assert(b[6] == "md"@);
    assert(b[7] == "term"@);
    assert(b[8] == "wrap"@);
    assert(b[9] == "fmt"@);
    assert(b[10] == "bn"@);
    assert(b[11] == "bp"@);
    assert(b[12] == "theme"@);
    assert(b[13] == "install"@);
    assert(b[14] == "lsp-install"@);
    assert(b[15] == "config"@);
    assert(b[16] == "config!"@);
    assert(b[17] == "wa"@);
    assert(b[18] == "e!"@);
    assert(b[19] == "rename"@);
    assert(b[20] == "recover"@);
    assert(b[21] == "recover!"@);
}

/// The suggested names are the prompt's own commands, each by its first name:
/// the prompt runs every one of them, and a word that the prompt runs asks for
/// what a suggested name asks for, if perhaps with force.
pub proof fn law_suggested_names_are_run(cmd: Seq<char>, arg: Option<Seq<char>>)
    ensures
        forall|i: int| 0 <= i < builtins().len() ==> own_ex(#[trigger] builtins()[i], arg) is Some,
        forall|i: int|
            0 <= i < builtins().len() ==> first_name(#[trigger] builtins()[i]) == Some(
                builtins()[i],
            ),
        own_ex(cmd, arg) is Some <==> first_name(cmd) is Some,
        match first_name(cmd) {
            Some(n) => builtins().contains(n) && unforced(own_ex(cmd, arg)->0) == unforced(
                own_ex(n, arg)->0,
            ),
            None => true,
        },
        own_ex(cmd, arg) is Some ==> ex_of(cmd, arg) == own_ex(cmd, arg)->0,
{
    lemma_suggested_are_run(arg);
    lemma_run_are_suggested(cmd, arg);
    reveal(ex_of);
}

} // verus!
