//! Keys and keymaps.
//!
//! `Key` is the editor's own type: the keymap does not change shape if the
//! terminal backend does, and bindings can be parsed from strings.
//!
//! Bindings live in a trie mapping key *sequences* to commands. That is what
//! makes `dd`, `gg`, counts like `3w`, and user rebinding possible.

use vstd::prelude::*;
use crate::commands::{find, found, name_of, Command};
use crate::strings::{
    chars_of, decimal, drop_set, has_char, has_prefix, lower_chars, parse_number, pieces, push_lit,
    push_number, read_u64, same_chars, skip_set, slices, spells, split_at_char, starts_with, string_of,
    strip_prefix, trim_end_set, trim_left_of, trim_right_of, trim_start_set, without_prefix,
    ascii_lower_all, same, text_pairs,
};
use vstd::utf8::encode_utf8;
use vstd::string::StringSliceAdditionalSpecFns;

verus! {

#[derive(Debug, Clone, Copy, PartialEq, Eq, Structural, Hash)]
pub enum KeyCode {
    Char(char),
    Enter,
    Esc,
    Backspace,
    Tab,
    BackTab,
    Delete,
    Insert,
    Left,
    Right,
    Up,
    Down,
    Home,
    End,
    PageUp,
    PageDown,
    F(u8),
}

#[derive(Debug, Clone, Copy, PartialEq, Eq, Structural, Hash)]
pub struct Key {
    pub code: KeyCode,
    pub ctrl: bool,
    pub alt: bool,
}

/// What stands before a key's name: `Ctrl-` or `C-`, `Alt-` or `A-`, as often
/// as they come, and what is left.
pub open spec fn modifiers(s: Seq<char>, ctrl: bool, alt: bool) -> (bool, bool, Seq<char>)
    decreases s.len(),
{
    if starts_with(s, "Ctrl-"@) && "Ctrl-"@.len() == 5 {
        modifiers(s.skip(5), true, alt)
    } else if starts_with(s, "C-"@) && "C-"@.len() == 2 {
        modifiers(s.skip(2), true, alt)
    } else if starts_with(s, "Alt-"@) && "Alt-"@.len() == 4 {
        modifiers(s.skip(4), ctrl, true)
    } else if starts_with(s, "A-"@) && "A-"@.len() == 2 {
        modifiers(s.skip(2), ctrl, true)
    } else {
        (ctrl, alt, s)
    }
}

/// The key of a name, in small letters and without angle brackets.
pub open spec fn named_code(name: Seq<char>) -> Option<KeyCode> {
    if name == "esc"@ {
        Some(KeyCode::Esc)
    } else if name == "enter"@ || name == "cr"@ || name == "return"@ {
        Some(KeyCode::Enter)
    } else if name == "bs"@ || name == "backspace"@ {
        Some(KeyCode::Backspace)
    } else if name == "tab"@ {
        Some(KeyCode::Tab)
    } else if name == "backtab"@ {
        Some(KeyCode::BackTab)
    } else if name == "del"@ || name == "delete"@ {
        Some(KeyCode::Delete)
    } else if name == "left"@ {
        Some(KeyCode::Left)
    } else if name == "right"@ {
        Some(KeyCode::Right)
    } else if name == "up"@ {
        Some(KeyCode::Up)
    } else if name == "down"@ {
        Some(KeyCode::Down)
    } else if name == "home"@ {
        Some(KeyCode::Home)
    } else if name == "end"@ {
        Some(KeyCode::End)
    } else if name == "pageup"@ {
        Some(KeyCode::PageUp)
    } else if name == "pagedown"@ {
        Some(KeyCode::PageDown)
    } else if name == "space"@ {
        Some(KeyCode::Char(' '))
    } else {
        match without_prefix(name, "f"@) {
            Some(digits) => match parse_number(digits, u8::MAX as nat) {
                Some(n) => Some(KeyCode::F(n as u8)),
                None => None,
            },
            None => None,
        }
    }
}

fn code_named(name: &[char]) -> (r: Option<KeyCode>)
    ensures
        r == named_code(name@),
{
    if spells(name, "esc") {
        Some(KeyCode::Esc)
    } else if spells(name, "enter") || spells(name, "cr") || spells(name, "return") {
        Some(KeyCode::Enter)
    } else if spells(name, "bs") || spells(name, "backspace") {
        Some(KeyCode::Backspace)
    } else if spells(name, "tab") {
        Some(KeyCode::Tab)
    } else if spells(name, "backtab") {
        Some(KeyCode::BackTab)
    } else if spells(name, "del") || spells(name, "delete") {
        Some(KeyCode::Delete)
    } else if spells(name, "left") {
        Some(KeyCode::Left)
    } else if spells(name, "right") {
        Some(KeyCode::Right)
    } else if spells(name, "up") {
        Some(KeyCode::Up)
    } else if spells(name, "down") {
        Some(KeyCode::Down)
    } else if spells(name, "home") {
        Some(KeyCode::Home)
    } else if spells(name, "end") {
        Some(KeyCode::End)
    } else if spells(name, "pageup") {
        Some(KeyCode::PageUp)
    } else if spells(name, "pagedown") {
        Some(KeyCode::PageDown)
    } else if spells(name, "space") {
        Some(KeyCode::Char(' '))
    } else {
        match strip_prefix(name, "f") {
            Some(digits) => match read_u64(digits, 255) {
                Some(n) => Some(KeyCode::F(n as u8)),
                None => None,
            },
            None => None,
        }
    }
}

/// The key that a config file writes as `s`: one character, or a name, which
/// may stand in angle brackets, after any modifiers.
pub open spec fn parsed_key(s: Seq<char>) -> Option<Key> {
    let (ctrl, alt, rest) = modifiers(s, false, false);
    let code = if rest.len() == 1 {
        Some(KeyCode::Char(rest[0]))
    } else {
        named_code(ascii_lower_all(trim_end_set(trim_start_set(rest, '<', '<'), '>', '>')))
    };
    match code {
        Some(code) => Some(Key { code, ctrl, alt }),
        None => None,
    }
}

/// How a key appears in the pending-keys indicator.
pub open spec fn code_display(code: KeyCode) -> Seq<char> {
    match code {
        KeyCode::Char(c) => if c == ' ' {
            "<space>"@
        } else {
            seq![c]
        },
        KeyCode::Esc => "<esc>"@,
        KeyCode::Enter => "<enter>"@,
        KeyCode::Backspace => "backspace"@,
        KeyCode::Tab => "tab"@,
        KeyCode::BackTab => "backtab"@,
        KeyCode::Delete => "delete"@,
        KeyCode::Insert => "insert"@,
        KeyCode::Left => "left"@,
        KeyCode::Right => "right"@,
        KeyCode::Up => "up"@,
        KeyCode::Down => "down"@,
        KeyCode::Home => "home"@,
        KeyCode::End => "end"@,
        KeyCode::PageUp => "pageup"@,
        KeyCode::PageDown => "pagedown"@,
        KeyCode::F(n) => "f("@ + decimal(n as nat) + ")"@,
    }
}

pub open spec fn key_display(k: Key) -> Seq<char> {
    (if k.ctrl {
        "Ctrl-"@
    } else {
        Seq::empty()
    }) + (if k.alt {
        "Alt-"@
    } else {
        Seq::empty()
    }) + code_display(k.code)
}

impl Key {
    pub fn new(code: KeyCode) -> (r: Self)
        ensures
            r == (Key { code, ctrl: false, alt: false }),
    {
        Key { code, ctrl: false, alt: false }
    }

    pub fn char(c: char) -> (r: Self)
        ensures
            r == (Key { code: KeyCode::Char(c), ctrl: false, alt: false }),
    {
        Key::new(KeyCode::Char(c))
    }

    /// The key of a terminal event, or `None` for events we ignore: only a
    /// press counts (release events also arrive from some terminals, and every
    /// keystroke would otherwise register twice), and only of a key we know.
    pub fn from_event(press: bool, code: Option<KeyCode>, ctrl: bool, alt: bool) -> (r: Option<Self>)
        ensures
            r == (if press && code is Some {
                Some(Key { code: code->0, ctrl, alt })
            } else {
                None
            }),
    {
        if !press {
            return None;
        }
        match code {
            Some(code) => Some(Key { code, ctrl, alt }),
            None => None,
        }
    }

    /// Parse a binding written the way a config file would write it:
    /// `j`, `C-d`, `A-x`, `<esc>`, `<enter>`, `C-<pageup>`.
    pub fn parse(s: &str) -> (r: Option<Self>)
        ensures
            r == parsed_key(s@),
    {
        let chars = chars_of(s);
        let mut rest: &[char] = chars.as_slice();
        let mut ctrl = false;
        let mut alt = false;
        proof {
            reveal_strlit("Ctrl-");
            reveal_strlit("C-");
            reveal_strlit("Alt-");
            reveal_strlit("A-");
        }
        let mut more = true;
        while more
            invariant
                "Ctrl-"@.len() == 5,
                "C-"@.len() == 2,
                "Alt-"@.len() == 4,
                "A-"@.len() == 2,
                modifiers(s@, false, false) == modifiers(rest@, ctrl, alt),
                !more ==> modifiers(rest@, ctrl, alt) == (ctrl, alt, rest@),
            decreases rest@.len(), more as int,
        {
            if let Some(tail) = strip_prefix(rest, "Ctrl-") {
                ctrl = true;
                rest = tail;
            } else if let Some(tail) = strip_prefix(rest, "C-") {
                ctrl = true;
                rest = tail;
            } else if let Some(tail) = strip_prefix(rest, "Alt-") {
                alt = true;
                rest = tail;
            } else if let Some(tail) = strip_prefix(rest, "A-") {
                alt = true;
                rest = tail;
            } else {
                more = false;
            }
        }
        let code = if rest.len() == 1 {
            Some(KeyCode::Char(rest[0]))
        } else {
            let name = lower_chars(trim_right_of(trim_left_of(rest, '<', '<'), '>', '>'));
            code_named(name.as_slice())
        };
        match code {
            Some(code) => Some(Key { code, ctrl, alt }),
            None => None,
        }
    }

    fn push_display(&self, out: &mut Vec<char>)
        ensures
            final(out)@ == old(out)@ + key_display(*self),
    {
        let ghost had = out@;
        if self.ctrl {
            push_lit(out, "Ctrl-");
        }
        if self.alt {
            push_lit(out, "Alt-");
        }
        match self.code {
            KeyCode::Char(c) => if c == ' ' {
                push_lit(out, "<space>");
            } else {
                out.push(c);
            },
            KeyCode::Esc => push_lit(out, "<esc>"),
            KeyCode::Enter => push_lit(out, "<enter>"),
            KeyCode::Backspace => push_lit(out, "backspace"),
            KeyCode::Tab => push_lit(out, "tab"),
            KeyCode::BackTab => push_lit(out, "backtab"),
            KeyCode::Delete => push_lit(out, "delete"),
            KeyCode::Insert => push_lit(out, "insert"),
            KeyCode::Left => push_lit(out, "left"),
            KeyCode::Right => push_lit(out, "right"),
            KeyCode::Up => push_lit(out, "up"),
            KeyCode::Down => push_lit(out, "down"),
            KeyCode::Home => push_lit(out, "home"),
            KeyCode::End => push_lit(out, "end"),
            KeyCode::PageUp => push_lit(out, "pageup"),
            KeyCode::PageDown => push_lit(out, "pagedown"),
            KeyCode::F(n) => {
                push_lit(out, "f(");
                push_number(out, n as u64);
                push_lit(out, ")");
            },
        }
        assert(out@ =~= had + key_display(*self));
    }

    /// How this key should appear in the pending-keys indicator.
    pub fn display(&self) -> (r: String)
        ensures
            r@ == key_display(*self),
    {
        let mut out: Vec<char> = Vec::new();
        self.push_display(&mut out);
        assert(out@ =~= key_display(*self));
        string_of(out.as_slice())
    }
}

proof fn lemma_starts_otherwise(s: Seq<char>, p: Seq<char>)
    requires
        p.len() > 0,
        s.len() < p.len() || s[0] != p[0],
    ensures
        !starts_with(s, p),
{
    if starts_with(s, p) {
        assert(s.subrange(0, p.len() as int)[0] == s[0]);
    }
}

/// A text that starts with a modifier is that modifier and the rest.
proof fn lemma_modifiers_of_rest(d: Seq<char>, ctrl: bool, alt: bool)
    requires
        d.len() == 1 || (d.len() > 1 && d[0] != 'C' && d[0] != 'A'),
    ensures
        modifiers(d, ctrl, alt) == (ctrl, alt, d),
        modifiers("Alt-"@ + d, ctrl, alt) == (ctrl, true, d),
        modifiers("Ctrl-"@ + d, ctrl, alt) == (true, alt, d),
        modifiers("Ctrl-"@ + ("Alt-"@ + d), ctrl, alt) == (true, true, d),
{
    reveal_strlit("Ctrl-");
    reveal_strlit("C-");
    reveal_strlit("Alt-");
    reveal_strlit("A-");
    assert("Ctrl-"@[0] == 'C' && "C-"@[0] == 'C' && "Alt-"@[0] == 'A' && "A-"@[0] == 'A');
    lemma_starts_otherwise(d, "Ctrl-"@);
    lemma_starts_otherwise(d, "C-"@);
    lemma_starts_otherwise(d, "Alt-"@);
    lemma_starts_otherwise(d, "A-"@);
    assert(modifiers(d, ctrl, alt) == (ctrl, alt, d));
    assert(modifiers(d, ctrl, true) == (ctrl, true, d));
    assert(modifiers(d, true, alt) == (true, alt, d));
    assert(modifiers(d, true, true) == (true, true, d));
    let a = "Alt-"@ + d;
    assert(a[0] == 'A');
    lemma_starts_otherwise(a, "Ctrl-"@);
    lemma_starts_otherwise(a, "C-"@);
    assert(a.subrange(0, 4) =~= "Alt-"@);
    assert(starts_with(a, "Alt-"@));
    assert(a.skip(4) =~= d);
    assert(modifiers(a, ctrl, alt) == modifiers(d, ctrl, true));
    assert(modifiers(a, true, alt) == modifiers(d, true, true));
    let c = "Ctrl-"@ + d;
    assert(c.subrange(0, 5) =~= "Ctrl-"@);
    assert(starts_with(c, "Ctrl-"@));
    assert(c.skip(5) =~= d);
    let b = "Ctrl-"@ + a;
    assert(b.subrange(0, 5) =~= "Ctrl-"@);
    assert(starts_with(b, "Ctrl-"@));
    assert(b.skip(5) =~= a);
}

spec fn small_upto(s: Seq<char>, n: nat) -> bool
    decreases n,
{
    n == 0 || ('a' <= s[n - 1] <= 'z' && small_upto(s, (n - 1) as nat))
}

proof fn lemma_small(s: Seq<char>, n: nat)
    requires
        small_upto(s, n),
    ensures
        forall|i: int| 0 <= i < n ==> 'a' <= #[trigger] s[i] <= 'z',
    decreases n,
{
    if n > 0 {
        lemma_small(s, (n - 1) as nat);
    }
}

spec fn small_letters(s: Seq<char>) -> bool {
    s.len() > 0 && small_upto(s, s.len())
}

proof fn lemma_bare_name(s: Seq<char>)
    requires
        small_letters(s),
    ensures
        ascii_lower_all(trim_end_set(trim_start_set(s, '<', '<'), '>', '>')) == s,
{
    lemma_small(s, s.len());
    assert('a' <= s[0] <= 'z');
    assert(skip_set(s, '<', '<', 0) == 0);
    assert(s.skip(0) =~= s);
    assert('a' <= s[s.len() - 1] <= 'z');
    assert(drop_set(s, '>', '>', s.len() as int) == s.len());
    assert(s.take(s.len() as int) =~= s);
    assert(ascii_lower_all(s) =~= s);
}

proof fn lemma_bracketed_name(s: Seq<char>, inner: Seq<char>)
    requires
        small_letters(inner),
        s == seq!['<'] + inner + seq!['>'],
    ensures
        ascii_lower_all(trim_end_set(trim_start_set(s, '<', '<'), '>', '>')) == inner,
{
    let n = inner.len() as int;
    lemma_small(inner, inner.len());
    assert('a' <= inner[0] <= 'z');
    assert(s[0] == '<' && s[1] == inner[0]);
    reveal_with_fuel(skip_set, 3);
    assert(skip_set(s, '<', '<', 0) == 1);
    let t = s.skip(1);
    assert(t =~= inner + seq!['>']);
    assert('a' <= inner[n - 1] <= 'z');
    assert(t[n] == '>' && t[n - 1] == inner[n - 1]);
    reveal_with_fuel(drop_set, 3);
    assert(drop_set(t, '>', '>', n + 1) == n);
    assert(t.take(n) =~= inner);
    assert(ascii_lower_all(inner) =~= inner);
}

/// The names of the keys are told apart.
proof fn lemma_names()
    ensures
        named_code("esc"@) == Some(KeyCode::Esc),
        named_code("enter"@) == Some(KeyCode::Enter),
        named_code("backspace"@) == Some(KeyCode::Backspace),
        named_code("tab"@) == Some(KeyCode::Tab),
        named_code("backtab"@) == Some(KeyCode::BackTab),
        named_code("delete"@) == Some(KeyCode::Delete),
        named_code("left"@) == Some(KeyCode::Left),
        named_code("right"@) == Some(KeyCode::Right),
        named_code("up"@) == Some(KeyCode::Up),
        named_code("down"@) == Some(KeyCode::Down),
        named_code("home"@) == Some(KeyCode::Home),
        named_code("end"@) == Some(KeyCode::End),
        named_code("pageup"@) == Some(KeyCode::PageUp),
        named_code("pagedown"@) == Some(KeyCode::PageDown),
        named_code("space"@) == Some(KeyCode::Char(' ')),
{
    reveal_strlit("esc");
    reveal_strlit("enter");
    reveal_strlit("cr");
    reveal_strlit("return");
    reveal_strlit("bs");
    reveal_strlit("backspace");
    reveal_strlit("tab");
    reveal_strlit("backtab");
    reveal_strlit("del");
    reveal_strlit("delete");
    reveal_strlit("left");
    reveal_strlit("right");
    reveal_strlit("up");
    reveal_strlit("down");
    reveal_strlit("home");
    reveal_strlit("end");
    reveal_strlit("pageup");
    reveal_strlit("pagedown");
    reveal_strlit("space");
    assert("esc"@[1] == 's' && "end"@[1] == 'n' && "esc"@[0] == 'e' && "end"@[0] == 'e');
    assert("tab"@[0] == 't' && "del"@[0] == 'd');
    assert("enter"@[0] == 'e' && "right"@[0] == 'r' && "space"@[0] == 's');
    assert("cr"@[0] == 'c' && "bs"@[0] == 'b' && "up"@[0] == 'u');
    assert("return"@[0] == 'r' && "delete"@[0] == 'd' && "pageup"@[0] == 'p');
    assert("left"@[0] == 'l' && "down"@[0] == 'd' && "home"@[0] == 'h');
    assert("backtab"@.len() == 7 && "tab"@.len() == 3 && "backspace"@.len() == 9);
    assert("backtab"@ != "tab"@ && "backtab"@ != "backspace"@ && "backtab"@ != "esc"@);
    assert("backtab"@ != "enter"@ && "backtab"@ != "cr"@ && "backtab"@ != "return"@);
    assert("backtab"@ != "bs"@);
}

/// The names in the display are what the names of the keys are read from.
proof fn lemma_display_reads(code: KeyCode)
    requires
        !(code is F),
        code != KeyCode::Insert,
    ensures
        ({
            let d = code_display(code);
            &&& d.len() == 1 || (d.len() > 1 && d[0] != 'C' && d[0] != 'A')
            &&& (if d.len() == 1 {
                Some(KeyCode::Char(d[0]))
            } else {
                named_code(ascii_lower_all(trim_end_set(trim_start_set(d, '<', '<'), '>', '>')))
            }) == Some(code)
        }),
{
    lemma_names();
    reveal_with_fuel(small_upto, 10);
    match code {
        KeyCode::Char(c) => {
            if c == ' ' {
                reveal_strlit("<space>");
                reveal_strlit("space");
                assert("<space>"@ =~= seq!['<'] + "space"@ + seq!['>']);
                lemma_bracketed_name("<space>"@, "space"@);
            }
        },
        KeyCode::Esc => {
            reveal_strlit("<esc>");
            reveal_strlit("esc");
            assert("<esc>"@ =~= seq!['<'] + "esc"@ + seq!['>']);
            lemma_bracketed_name("<esc>"@, "esc"@);
        },
        KeyCode::Enter => {
            reveal_strlit("<enter>");
            reveal_strlit("enter");
            assert("<enter>"@ =~= seq!['<'] + "enter"@ + seq!['>']);
            lemma_bracketed_name("<enter>"@, "enter"@);
        },
        KeyCode::Backspace => {
            reveal_strlit("backspace");
            lemma_bare_name("backspace"@);
        },
        KeyCode::Tab => {
            reveal_strlit("tab");
            lemma_bare_name("tab"@);
        },
        KeyCode::BackTab => {
            reveal_strlit("backtab");
            lemma_bare_name("backtab"@);
        },
        KeyCode::Delete => {
            reveal_strlit("delete");
            lemma_bare_name("delete"@);
        },
        KeyCode::Left => {
            reveal_strlit("left");
            lemma_bare_name("left"@);
        },
        KeyCode::Right => {
            reveal_strlit("right");
            lemma_bare_name("right"@);
        },
        KeyCode::Up => {
            reveal_strlit("up");
            lemma_bare_name("up"@);
        },
        KeyCode::Down => {
            reveal_strlit("down");
            lemma_bare_name("down"@);
        },
        KeyCode::Home => {
            reveal_strlit("home");
            lemma_bare_name("home"@);
        },
        KeyCode::End => {
            reveal_strlit("end");
            lemma_bare_name("end"@);
        },
        KeyCode::PageUp => {
            reveal_strlit("pageup");
            lemma_bare_name("pageup"@);
        },
        KeyCode::PageDown => {
            reveal_strlit("pagedown");
            lemma_bare_name("pagedown"@);
        },
        _ => {},
    }
}

/// A key reads back as it is displayed. The insert key and the function keys
/// are displayed by names that no key is read from.
pub proof fn law_a_displayed_key_reads_back(k: Key)
    requires
        !(k.code is F),
        k.code != KeyCode::Insert,
    ensures
        parsed_key(key_display(k)) == Some(k),
{
    let d = code_display(k.code);
    lemma_display_reads(k.code);
    lemma_modifiers_of_rest(d, false, false);
    if k.ctrl && k.alt {
        assert(key_display(k) =~= "Ctrl-"@ + ("Alt-"@ + d));
    } else if k.ctrl {
        assert(key_display(k) =~= "Ctrl-"@ + d);
    } else if k.alt {
        assert(key_display(k) =~= "Alt-"@ + d);
    } else {
        assert(key_display(k) =~= d);
    }
}

// ---- the trie ---------------------------------------------------------------

/// A trie of bindings, as a mathematical tree.
pub enum Trie {
    Leaf(Command),
    Node(Map<Key, Trie>),
}

pub enum KeyTrie {
    Leaf(Command),
    /// Each key once.
    Node(Vec<(Key, KeyTrie)>),
}

/// Result of feeding a key sequence to a keymap.
#[derive(Clone, Copy, PartialEq, Eq, Structural, Debug)]
pub enum KeymapResult {
    /// A prefix of one or more bindings. Wait for more keys.
    Pending,
    Matched(Command),
    NotFound,
}

/// The tree that a trie is.
pub open spec fn trie_of(t: KeyTrie) -> Trie
    decreases t, 0nat,
    via trie_of_decreases
{
    match t {
        KeyTrie::Leaf(c) => Trie::Leaf(c),
        KeyTrie::Node(entries) => Trie::Node(node_upto(entries, entries@.len())),
    }
}

/// The children that the first `n` entries of a node are.
pub open spec fn node_upto(entries: Vec<(Key, KeyTrie)>, n: nat) -> Map<Key, Trie>
    decreases entries, n,
    via node_upto_decreases
{
    if n == 0 || n > entries@.len() {
        Map::empty()
    } else {
        node_upto(entries, (n - 1) as nat).insert(entries@[n - 1].0, trie_of(entries@[n - 1].1))
    }
}

#[via_fn]
proof fn trie_of_decreases(t: KeyTrie) {
    match t {
        KeyTrie::Node(entries) => {
            assert(decreases_to!(t => entries));
        },
        _ => {},
    }
}

#[via_fn]
proof fn node_upto_decreases(entries: Vec<(Key, KeyTrie)>, n: nat) {
    broadcast use vstd::std_specs::vec::axiom_vec_index_decreases;

    if !(n == 0 || n > entries@.len()) {
        assert(decreases_to!(entries => entries@[n - 1]));
        assert(decreases_to!(entries@[n - 1] => entries@[n - 1].1));
    }
}

/// Whether the keys of each node differ.
pub open spec fn trie_wf(t: KeyTrie) -> bool
    decreases t,
    via trie_wf_decreases
{
    match t {
        KeyTrie::Leaf(_) => true,
        KeyTrie::Node(entries) => {
            &&& forall|i: int, j: int|
                0 <= i < j < entries@.len() ==> (#[trigger] entries@[i]).0 != (
                #[trigger] entries@[j]).0
            &&& forall|i: int|
                #![trigger entries@[i]]
                0 <= i < entries@.len() ==> trie_wf(entries@[i].1)
        },
    }
}

#[via_fn]
proof fn trie_wf_decreases(t: KeyTrie) {
    broadcast use vstd::std_specs::vec::axiom_vec_index_decreases;

    match t {
        KeyTrie::Node(entries) => {
            assert forall|i: int| 0 <= i < entries@.len() implies #[trigger] decreases_to!(
                t => entries@[i].1) by {
                assert(decreases_to!(t => entries));
                assert(decreases_to!(entries => entries@[i]));
                assert(decreases_to!(entries@[i] => entries@[i].1));
            }
        },
        _ => {},
    }
}

/// The children of a tree; a leaf has none.
pub open spec fn children(t: Trie) -> Map<Key, Trie> {
    match t {
        Trie::Leaf(_) => Map::empty(),
        Trie::Node(m) => m,
    }
}

pub open spec fn empty_trie() -> Trie {
    Trie::Node(Map::empty())
}

/// A tree with one more binding. It replaces what the sequence was bound to;
/// a binding of a shorter sequence that it goes through is dropped.
pub open spec fn bound(t: Trie, keys: Seq<Key>, c: Command) -> Trie
    decreases keys.len(),
{
    if keys.len() == 0 {
        Trie::Leaf(c)
    } else {
        let m = children(t);
        let below = if m.contains_key(keys[0]) {
            m[keys[0]]
        } else {
            empty_trie()
        };
        Trie::Node(m.insert(keys[0], bound(below, keys.drop_first(), c)))
    }
}

/// Where a key sequence leads in a tree.
pub open spec fn reached(t: Trie, keys: Seq<Key>) -> Option<Trie>
    decreases keys.len(),
{
    if keys.len() == 0 {
        Some(t)
    } else if t is Node && t->Node_0.contains_key(keys[0]) {
        reached(t->Node_0[keys[0]], keys.drop_first())
    } else {
        None
    }
}

/// What a key sequence comes to.
pub open spec fn looked_up(t: Trie, keys: Seq<Key>) -> KeymapResult {
    match reached(t, keys) {
        Some(Trie::Leaf(c)) => KeymapResult::Matched(c),
        Some(Trie::Node(m)) => if m == Map::<Key, Trie>::empty() {
            KeymapResult::NotFound
        } else {
            KeymapResult::Pending
        },
        None => KeymapResult::NotFound,
    }
}

/// A bound sequence comes to its command, whatever was bound before.
pub proof fn law_bound_is_found(t: Trie, keys: Seq<Key>, c: Command)
    ensures
        looked_up(bound(t, keys, c), keys) == KeymapResult::Matched(c),
    decreases keys.len(),
{
    if keys.len() > 0 {
        let m = children(t);
        let below = if m.contains_key(keys[0]) {
            m[keys[0]]
        } else {
            empty_trie()
        };
        law_bound_is_found(below, keys.drop_first(), c);
    }
}

/// The sequences start alike up to where the shorter ends.
pub open spec fn one_starts_the_other(a: Seq<Key>, b: Seq<Key>) -> bool {
    forall|i: int| 0 <= i < a.len() && i < b.len() ==> a[i] == b[i]
}

/// A proper start of a bound sequence waits for more keys.
pub proof fn law_prefix_is_pending(t: Trie, keys: Seq<Key>, c: Command, n: int)
    requires
        0 <= n < keys.len(),
    ensures
        looked_up(bound(t, keys, c), keys.take(n)) == KeymapResult::Pending,
    decreases keys.len(),
{
    let m = children(t);
    let below = if m.contains_key(keys[0]) {
        m[keys[0]]
    } else {
        empty_trie()
    };
    let ghost now = bound(t, keys, c)->Node_0;
    assert(now.contains_key(keys[0]));
    if n > 0 {
        law_prefix_is_pending(below, keys.drop_first(), c, n - 1);
        assert(keys.take(n).drop_first() =~= keys.drop_first().take(n - 1));
    }
}

/// A binding leaves alone every sequence that neither starts it nor is
/// started by it.
pub proof fn law_other_bindings_stay(t: Trie, keys: Seq<Key>, c: Command, other: Seq<Key>)
    requires
        !one_starts_the_other(keys, other),
    ensures
        looked_up(bound(t, keys, c), other) == looked_up(t, other),
    decreases keys.len(),
{
    assert(keys.len() > 0 && other.len() > 0);
    let m = children(t);
    if keys[0] == other[0] {
        let below = if m.contains_key(keys[0]) {
            m[keys[0]]
        } else {
            empty_trie()
        };
        let rest = keys.drop_first();
        let orest = other.drop_first();
        assert(!one_starts_the_other(rest, orest)) by {
            let i = choose|i: int| 0 <= i < keys.len() && i < other.len() && keys[i] != other[i];
            assert(rest[i - 1] != orest[i - 1]);
        }
        law_other_bindings_stay(below, rest, c, orest);
        if !m.contains_key(keys[0]) {
            assert(looked_up(below, orest) == KeymapResult::NotFound);
        }
    }
}

proof fn lemma_node_upto(entries: Vec<(Key, KeyTrie)>, n: nat)
    requires
        n <= entries@.len(),
        forall|i: int, j: int|
            0 <= i < j < entries@.len() ==> (#[trigger] entries@[i]).0 != (
            #[trigger] entries@[j]).0,
    ensures
        forall|k: Key| #[trigger]
            node_upto(entries, n).contains_key(k) <==> exists|i: int|
                0 <= i < n && (#[trigger] entries@[i]).0 == k,
        forall|i: int|
            0 <= i < n ==> node_upto(entries, n)[(#[trigger] entries@[i]).0] == trie_of(
                entries@[i].1,
            ),
    decreases n,
{
    if n > 0 {
        lemma_node_upto(entries, (n - 1) as nat);
        assert(entries@[n - 1] == entries@[n - 1]);
    }
}

/// Two nodes with the same keys and children are the same tree.
proof fn lemma_same_node(a: Vec<(Key, KeyTrie)>, b: Vec<(Key, KeyTrie)>, n: nat)
    requires
        n <= a@.len(),
        n <= b@.len(),
        forall|i: int| 0 <= i < n ==> (#[trigger] a@[i]).0 == b@[i].0,
        forall|i: int| 0 <= i < n ==> trie_of((#[trigger] a@[i]).1) == trie_of(b@[i].1),
    ensures
        node_upto(a, n) == node_upto(b, n),
    decreases n,
{
    if n > 0 {
        lemma_same_node(a, b, (n - 1) as nat);
        assert(a@[n - 1].0 == b@[n - 1].0);
    }
}

impl View for KeyTrie {
    type V = Trie;

    open spec fn view(&self) -> Trie {
        trie_of(*self)
    }
}

/// The entry of a key, if a node has one.
fn entry_of(entries: &Vec<(Key, KeyTrie)>, key: Key) -> (r: Option<usize>)
    ensures
        match r {
            Some(i) => i < entries@.len() && entries@[i as int].0 == key,
            None => forall|i: int| 0 <= i < entries@.len() ==> (#[trigger] entries@[i]).0 != key,
        },
{
    let mut i: usize = 0;
    while i < entries.len()
        invariant
            i <= entries@.len(),
            forall|k: int| 0 <= k < i ==> (#[trigger] entries@[k]).0 != key,
        decreases entries@.len() - i,
    {
        if entries[i].0 == key {
            return Some(i);
        }
        i += 1;
    }
    None
}

impl KeyTrie {
    pub open spec fn wf(&self) -> bool {
        trie_wf(*self)
    }

    pub fn new() -> (r: Self)
        ensures
            r@ == empty_trie(),
            r.wf(),
    {
        KeyTrie::Node(Vec::new())
    }

    /// Bind a key sequence to a command. Later bindings replace earlier ones.
    /// Binding through an existing leaf (say `d` then `dd`) turns the leaf
    /// into a node; the shorter binding is dropped.
    pub fn bind(&mut self, keys: &[Key], command: Command)
        requires
            old(self).wf(),
        ensures
            final(self)@ == bound(old(self)@, keys@, command),
            final(self).wf(),
        decreases keys@.len(),
    {
        let mut own = KeyTrie::new();
        std::mem::swap(self, &mut own);
        *self = own.bound_to(keys, command);
    }

    /// The trie with one more binding.
    fn bound_to(self, keys: &[Key], command: Command) -> (r: KeyTrie)
        requires
            self.wf(),
        ensures
            r@ == bound(self@, keys@, command),
            r.wf(),
        decreases keys@.len(),
    {
        if keys.len() == 0 {
            return KeyTrie::Leaf(command);
        }
        let key = keys[0];
        let rest = vstd::slice::slice_subrange(keys, 1, keys.len());
        assert(rest@ =~= keys@.drop_first());
        let ghost before = self@;
        let mut entries: Vec<(Key, KeyTrie)> = match self {
            KeyTrie::Leaf(_) => Vec::new(),
            KeyTrie::Node(entries) => entries,
        };
        let ghost had = entries;
        proof {
            assert(children(before) == node_upto(had, had@.len()));
            lemma_node_upto(had, had@.len());
        }
        match entry_of(&entries, key) {
            Some(i) => {
                let (k, child) = entries.swap_remove(i);
                assert(had@[i as int] == (k, child));
                let below = child.bound_to(rest, command);
                entries.push((key, below));
                proof {
                    let m = node_upto(had, had@.len());
                    let n = had@.len();
                    assert(m[key] == trie_of(child));
                    assert forall|a: int, b: int| 0 <= a < b < entries@.len() implies (
                    #[trigger] entries@[a]).0 != (#[trigger] entries@[b]).0 by {
                        let sa = if a == i {
                            n - 1
                        } else {
                            a
                        };
                        let sb = if b == i {
                            n - 1
                        } else {
                            b
                        };
                        if b == n - 1 {
                            assert(entries@[a] == had@[sa]);
                            assert(had@[sa].0 != had@[i as int].0);
                        } else {
                            assert(entries@[a] == had@[sa] && entries@[b] == had@[sb]);
                            assert(had@[sa].0 != had@[sb].0);
                        }
                    }
                    assert forall|a: int| 0 <= a < entries@.len() implies trie_wf(
                        (#[trigger] entries@[a]).1,
                    ) by {
                        if a < n - 1 {
                            let sa = if a == i {
                                n - 1
                            } else {
                                a
                            };
                            assert(entries@[a] == had@[sa]);
                        }
                    }
                    lemma_node_upto(entries, n);
                    let now = node_upto(entries, n);
                    assert(now =~= m.insert(key, trie_of(below))) by {
                        assert forall|q: Key| now.contains_key(q) == m.insert(
                            key,
                            trie_of(below),
                        ).contains_key(q) by {
                            if q != key {
                                if m.contains_key(q) {
                                    let j = choose|j: int|
                                        0 <= j < n && (#[trigger] had@[j]).0 == q;
                                    let p = if j == n - 1 {
                                        i as int
                                    } else {
                                        j
                                    };
                                    assert(entries@[p] == had@[j]);
                                }
                                if now.contains_key(q) {
                                    let j = choose|j: int|
                                        0 <= j < n && (#[trigger] entries@[j]).0 == q;
                                    let p = if j == i {
                                        n - 1
                                    } else {
                                        j
                                    };
                                    assert(entries@[j] == had@[p]);
                                }
                            } else {
                                assert(entries@[n - 1].0 == key);
                            }
                        }
                        assert forall|q: Key| #[trigger] now.contains_key(q) implies now[q]
                            == m.insert(key, trie_of(below))[q] by {
                            if q != key {
                                let j = choose|j: int|
                                    0 <= j < n && (#[trigger] entries@[j]).0 == q;
                                let p = if j == i {
                                    n - 1
                                } else {
                                    j
                                };
                                assert(entries@[j] == had@[p]);
                                assert(now[entries@[j].0] == trie_of(entries@[j].1));
                                assert(m[had@[p].0] == trie_of(had@[p].1));
                            } else {
                                assert(now[entries@[n - 1].0] == trie_of(below));
                            }
                        }
                    }
                }
            },
            None => {
                let below = KeyTrie::new().bound_to(rest, command);
                entries.push((key, below));
                proof {
                    let n = had@.len();
                    assert forall|a: int, b: int| 0 <= a < b < entries@.len() implies (
                    #[trigger] entries@[a]).0 != (#[trigger] entries@[b]).0 by {
                        assert(entries@[a] == had@[a]);
                    }
                    lemma_same_node(entries, had, n);
                }
            },
        }
        KeyTrie::Node(entries)
    }

    /// What a key sequence comes to.
    pub fn lookup(&self, keys: &[Key]) -> (r: KeymapResult)
        requires
            self.wf(),
        ensures
            r == looked_up(self@, keys@),
    {
        match self.node_at(keys) {
            Some(node) => match node {
                KeyTrie::Leaf(c) => KeymapResult::Matched(*c),
                KeyTrie::Node(entries) => {
                    proof {
                        lemma_node_upto(*entries, entries@.len());
                    }
                    if entries.len() == 0 {
                        KeymapResult::NotFound
                    } else {
                        assert(node_upto(*entries, entries@.len()).contains_key(entries@[0].0));
                        KeymapResult::Pending
                    }
                },
            },
            None => KeymapResult::NotFound,
        }
    }

    /// Where a key sequence leads.
    fn node_at(&self, keys: &[Key]) -> (r: Option<&KeyTrie>)
        requires
            self.wf(),
        ensures
            match r {
                Some(node) => reached(self@, keys@) == Some(node@) && node.wf(),
                None => reached(self@, keys@) is None,
            },
    {
        let mut node = self;
        let mut i: usize = 0;
        assert(keys@.skip(0) =~= keys@);
        while i < keys.len()
            invariant
                i <= keys@.len(),
                node.wf(),
                reached(self@, keys@) == reached(node@, keys@.skip(i as int)),
            decreases keys@.len() - i,
        {
            let ghost rest = keys@.skip(i as int);
            assert(rest.drop_first() =~= keys@.skip(i + 1));
            match node {
                KeyTrie::Leaf(_) => {
                    return None;
                },
                KeyTrie::Node(entries) => {
                    proof {
                        lemma_node_upto(*entries, entries@.len());
                    }
                    match entry_of(entries, keys[i]) {
                        Some(k) => {
                            assert(node@->Node_0[entries@[k as int].0] == trie_of(
                                entries@[k as int].1,
                            ));
                            node = &entries[k].1;
                        },
                        None => {
                            return None;
                        },
                    }
                },
            }
            i += 1;
        }
        Some(node)
    }

    /// Bind a sequence written as a string, e.g. `"dd"` or `"C-w v"`.
    ///
    /// Space-separated tokens are parsed individually; a single token with no
    /// modifiers is treated as a sequence of character keys, so `"dd"` means
    /// `d` then `d`. A name that is no command, or a token that is no key,
    /// binds nothing.
    pub fn bind_str(&mut self, sequence: &str, command_name: &str)
        requires
            old(self).wf(),
        ensures
            final(self)@ == bound_str(old(self)@, sequence@, command_name@),
            final(self).wf(),
    {
        let command = match find(command_name) {
            Some(c) => c,
            None => {
                return ;
            },
        };
        match keys_of(sequence) {
            Some(keys) => self.bind(keys.as_slice(), command),
            None => {},
        }
    }
}

/// The keys that type the first `n` of these characters.
pub open spec fn char_keys(token: Seq<char>, n: nat) -> Seq<Key>
    decreases n,
{
    if n == 0 || n > token.len() {
        Seq::empty()
    } else {
        char_keys(token, (n - 1) as nat).push(
            Key { code: KeyCode::Char(token[n - 1]), ctrl: false, alt: false },
        )
    }
}

/// The keys of one token of a sequence, after `done`.
pub open spec fn token_keys(done: Seq<Key>, token: Seq<char>) -> Option<Seq<Key>> {
    if token.len() == 0 {
        Some(done)
    } else if encode_utf8(token).len() > 1 && !token.contains('-') && !starts_with(token, "<"@) {
        Some(done + char_keys(token, token.len()))
    } else {
        match parsed_key(token) {
            Some(key) => Some(done.push(key)),
            None => None,
        }
    }
}

/// The keys of the first `n` tokens of a sequence.
pub open spec fn keys_upto(tokens: Seq<Seq<char>>, n: nat) -> Option<Seq<Key>>
    decreases n,
{
    if n == 0 || n > tokens.len() {
        Some(Seq::empty())
    } else {
        match keys_upto(tokens, (n - 1) as nat) {
            Some(done) => token_keys(done, tokens[n - 1]),
            None => None,
        }
    }
}

/// The keys that a sequence written as a string names.
pub open spec fn sequence_keys(sequence: Seq<char>) -> Option<Seq<Key>> {
    keys_upto(pieces(sequence, ' '), pieces(sequence, ' ').len())
}

/// A tree with the binding that two strings name.
pub open spec fn bound_str(t: Trie, sequence: Seq<char>, name: Seq<char>) -> Trie {
    match (found(name), sequence_keys(sequence)) {
        (Some(c), Some(keys)) => bound(t, keys, c),
        _ => t,
    }
}

proof fn lemma_no_keys(tokens: Seq<Seq<char>>, n: nat, m: nat)
    requires
        0 < n <= m <= tokens.len(),
        keys_upto(tokens, n) is None,
    ensures
        keys_upto(tokens, m) is None,
    decreases m,
{
    if n < m {
        lemma_no_keys(tokens, n, (m - 1) as nat);
    }
}

/// The keys that a sequence written as a string names.
pub fn keys_of(sequence: &str) -> (r: Option<Vec<Key>>)
    ensures
        match r {
            Some(keys) => sequence_keys(sequence@) == Some(keys@),
            None => sequence_keys(sequence@) is None,
        },
{
    let chars = chars_of(sequence);
    let tokens = split_at_char(chars.as_slice(), ' ');
    let ghost all = slices(tokens@);
    let mut keys: Vec<Key> = Vec::new();
    let mut i: usize = 0;
    while i < tokens.len()
        invariant
            i <= tokens@.len(),
            all == slices(tokens@),
            all == pieces(sequence@, ' '),
            keys_upto(all, i as nat) == Some(keys@),
        decreases tokens@.len() - i,
    {
        let token = tokens[i];
        assert(all[i as int] == token@);
        let ghost done = keys@;
        if token.len() > 0 {
            let text = string_of(token);
            if text.as_str().as_bytes().len() > 1 && !has_char(token, '-') && !has_prefix(token, "<") {
                let mut k: usize = 0;
                while k < token.len()
                    invariant
                        k <= token@.len(),
                        keys@ =~= done + char_keys(token@, k as nat),
                    decreases token@.len() - k,
                {
                    keys.push(Key::char(token[k]));
                    k += 1;
                }
            } else {
                match Key::parse(text.as_str()) {
                    Some(key) => keys.push(key),
                    None => {
                        proof {
                            lemma_no_keys(all, (i + 1) as nat, all.len());
                        }
                        return None;
                    },
                }
            }
        }
        i += 1;
    }
    Some(keys)
}

impl Default for KeyTrie {
    fn default() -> (r: Self)
        ensures
            r@ == empty_trie(),
            r.wf(),
    {
        KeyTrie::new()
    }
}

// ---- what is bound ----------------------------------------------------------

/// Whether `a` comes before `b`, the two being alike up to `i`: by their
/// characters, a start of a text before the text.
pub open spec fn before_from(a: Seq<char>, b: Seq<char>, i: int) -> bool
    decreases b.len() - i,
{
    if i < 0 || i >= b.len() {
        false
    } else if i >= a.len() {
        true
    } else if a[i] != b[i] {
        a[i] < b[i]
    } else {
        before_from(a, b, i + 1)
    }
}

pub open spec fn text_before(a: Seq<char>, b: Seq<char>) -> bool {
    before_from(a, b, 0)
}

fn comes_before(a: &[char], b: &[char]) -> (r: bool)
    ensures
        r == text_before(a@, b@),
{
    let mut i: usize = 0;
    while i < b.len()
        invariant
            i <= b@.len(),
            text_before(a@, b@) == before_from(a@, b@, i as int),
        decreases b@.len() - i,
    {
        if i >= a.len() {
            return true;
        }
        if a[i] != b[i] {
            return a[i] < b[i];
        }
        i += 1;
    }
    false
}

proof fn lemma_before_both(a: Seq<char>, b: Seq<char>, i: int)
    requires
        0 <= i,
        i <= a.len(),
        i <= b.len(),
        forall|k: int| 0 <= k < i ==> a[k] == b[k],
    ensures
        !(before_from(a, b, i) && before_from(b, a, i)),
        !before_from(a, b, i) && !before_from(b, a, i) ==> a == b,
    decreases b.len() - i,
{
    if i < a.len() && i < b.len() && a[i] == b[i] {
        lemma_before_both(a, b, i + 1);
    } else if i >= a.len() && i >= b.len() {
        assert(a =~= b);
    }
}

proof fn lemma_before_chain(a: Seq<char>, b: Seq<char>, c: Seq<char>, i: int)
    requires
        0 <= i,
        before_from(a, b, i),
        before_from(b, c, i),
    ensures
        before_from(a, c, i),
    decreases c.len() - i,
{
    if i < a.len() && a[i] == b[i] && b[i] == c[i] {
        lemma_before_chain(a, b, c, i + 1);
    }
}

/// The shorter text first, by its bytes, and then by its characters.
pub open spec fn shorter(a: Seq<char>, b: Seq<char>) -> bool {
    encode_utf8(a).len() < encode_utf8(b).len() || (encode_utf8(a).len() == encode_utf8(b).len()
        && text_before(a, b))
}

/// How a key sequence is written, from the `i`th key on: the keys with spaces
/// between them.
pub open spec fn spelled(keys: Seq<Key>) -> Seq<char>
    decreases keys.len(),
{
    if keys.len() == 0 {
        Seq::empty()
    } else if keys.len() == 1 {
        key_display(keys[0])
    } else {
        spelled(keys.drop_last()) + " "@ + key_display(keys.last())
    }
}

/// Whether a sequence is bound to a command of this name.
pub open spec fn leads_to(t: Trie, keys: Seq<Key>, name: Seq<char>) -> bool {
    reached(t, keys) matches Some(Trie::Leaf(c)) && name_of(c) == name
}

/// Whether `s` writes the shortest of the sequences, behind `path`, that are
/// bound to `name`.
pub open spec fn is_shortest(t: Trie, path: Seq<Key>, name: Seq<char>, s: Seq<char>) -> bool {
    &&& exists|keys: Seq<Key>| #[trigger] leads_to(t, keys, name) && s == spelled(path + keys)
    &&& forall|keys: Seq<Key>| #[trigger]
        leads_to(t, keys, name) ==> !shorter(spelled(path + keys), s)
}

pub open spec fn is_bound_in(t: Trie, name: Seq<char>) -> bool {
    exists|keys: Seq<Key>| #[trigger] leads_to(t, keys, name)
}

fn is_shorter(a: &Vec<char>, b: &Vec<char>) -> (r: bool)
    ensures
        r == shorter(a@, b@),
{
    let sa = string_of(a.as_slice());
    let sb = string_of(b.as_slice());
    let la = sa.as_str().as_bytes().len();
    let lb = sb.as_str().as_bytes().len();
    la < lb || (la == lb && comes_before(a.as_slice(), b.as_slice()))
}

proof fn lemma_shorter(a: Seq<char>, b: Seq<char>, c: Seq<char>)
    ensures
        !shorter(a, a),
        shorter(a, b) && !shorter(c, b) ==> !shorter(c, a),
{
    lemma_before_both(a, a, 0);
    if shorter(a, b) && !shorter(c, b) && shorter(c, a) {
        if encode_utf8(a).len() == encode_utf8(b).len() && encode_utf8(c).len() == encode_utf8(
            a,
        ).len() {
            lemma_before_chain(c, a, b, 0);
        }
    }
}

impl KeyTrie {
    /// The shortest key sequence bound to `name` below this node, `path`
    /// leading to it.
    fn shortest(&self, name: &str, path: &Vec<Key>, text: &Vec<char>) -> (r: Option<Vec<char>>)
        requires
            self.wf(),
            text@ == spelled(path@),
        ensures
            match r {
                Some(s) => is_shortest(self@, path@, name@, s@),
                None => !is_bound_in(self@, name@),
            },
        decreases self,
    {
        match self {
            KeyTrie::Leaf(c) => {
                proof {
                    assert forall|keys: Seq<Key>| #[trigger]
                        leads_to(self@, keys, name@) implies keys =~= Seq::<Key>::empty() by {
                    }
                    assert(path@ + Seq::<Key>::empty() =~= path@);
                    assert(reached(self@, Seq::<Key>::empty()) == Some(self@));
                    lemma_shorter(text@, text@, text@);
                }
                if same(c.name(), name) {
                    assert(leads_to(self@, Seq::<Key>::empty(), name@));
                    Some(crate::strings::copy_chars(text.as_slice()))
                } else {
                    None
                }
            },
            KeyTrie::Node(entries) => {
                broadcast use vstd::std_specs::vec::axiom_vec_index_decreases;

                let mut best: Option<Vec<char>> = None;
                let mut i: usize = 0;
                proof {
                    lemma_node_upto(*entries, entries@.len());
                }
                while i < entries.len()
                    invariant
                        i <= entries@.len(),
                        *self == KeyTrie::Node(*entries),
                        trie_wf(KeyTrie::Node(*entries)),
                        text@ == spelled(path@),
                        match best {
                            Some(s) => {
                                &&& exists|k: int, keys: Seq<Key>|
                                    0 <= k < i && #[trigger] leads_to(
                                        trie_of(entries@[k].1),
                                        keys,
                                        name@,
                                    ) && s@ == spelled(path@.push(entries@[k].0) + keys)
                                &&& forall|k: int, keys: Seq<Key>|
                                    0 <= k < i && #[trigger] leads_to(
                                        trie_of(entries@[k].1),
                                        keys,
                                        name@,
                                    ) ==> !shorter(spelled(path@.push(entries@[k].0) + keys), s@)
                            },
                            None => forall|k: int, keys: Seq<Key>|
                                0 <= k < i ==> !(#[trigger] leads_to(
                                    trie_of(entries@[k].1),
                                    keys,
                                    name@,
                                )),
                        },
                    decreases entries@.len() - i,
                {
                    let key = entries[i].0;
                    let mut below: Vec<Key> = Vec::new();
                    let mut k: usize = 0;
                    while k < path.len()
                        invariant
                            k <= path@.len(),
                            below@ =~= path@.take(k as int),
                        decreases path@.len() - k,
                    {
                        below.push(path[k]);
                        k += 1;
                    }
                    below.push(key);
                    assert(below@ =~= path@.push(key));
                    let mut spelt = crate::strings::copy_chars(text.as_slice());
                    if path.len() > 0 {
                        spelt.push(' ');
                    }
                    key.push_display(&mut spelt);
                    proof {
                        reveal_strlit(" ");
                        assert(" "@ =~= seq![' ']);
                        assert(below@.drop_last() =~= path@);
                        if path@.len() > 0 {
                            assert(spelt@ =~= spelled(path@) + " "@ + key_display(key));
                        } else {
                            assert(spelled(path@) =~= Seq::<char>::empty());
                            assert(spelt@ =~= key_display(key));
                        }
                        let t = KeyTrie::Node(*entries);
                        assert(*self == t);
                        assert(t->Node_0 == *entries);
                        assert(decreases_to!(t => t->Node_0));
                        assert(decreases_to!(*entries => entries@[i as int]));
                        assert(decreases_to!(entries@[i as int] => entries@[i as int].1));
                        assert(trie_wf(entries@[i as int].1));
                    }
                    let found = entries[i].1.shortest(name, &below, &spelt);
                    let ghost had = best;
                    match found {
                        Some(s) => {
                            let better = match &best {
                                Some(b) => is_shorter(&s, b),
                                None => true,
                            };
                            proof {
                                let ks = choose|ks: Seq<Key>| #[trigger]
                                    leads_to(entries@[i as int].1@, ks, name@) && s@ == spelled(
                                        below@ + ks,
                                    );
                                assert(leads_to(trie_of(entries@[i as int].1), ks, name@));
                                if better {
                                    if let Some(b) = had {
                                        assert forall|k: int, keys: Seq<Key>|
                                            0 <= k < i && #[trigger] leads_to(
                                                trie_of(entries@[k].1),
                                                keys,
                                                name@,
                                            ) implies !shorter(
                                            spelled(path@.push(entries@[k].0) + keys),
                                            s@,
                                        ) by {
                                            lemma_shorter(
                                                s@,
                                                b@,
                                                spelled(path@.push(entries@[k].0) + keys),
                                            );
                                        }
                                    }
                                } else {
                                    let b = had->0;
                                    assert forall|keys: Seq<Key>| #[trigger]
                                        leads_to(
                                            trie_of(entries@[i as int].1),
                                            keys,
                                            name@,
                                        ) implies !shorter(
                                        spelled(path@.push(entries@[i as int].0) + keys),
                                        b@,
                                    ) by {
                                        let x = spelled(path@.push(entries@[i as int].0) + keys);
                                        if shorter(x, b@) {
                                            lemma_shorter_total(x, s@, b@);
                                        }
                                    }
                                }
                            }
                            if better {
                                best = Some(s);
                            }
                        },
                        None => {},
                    }
                    i += 1;
                }
                proof {
                    let m = node_upto(*entries, entries@.len());
                    // A binding of the node is one of an entry, behind its key.
                    assert forall|keys: Seq<Key>| #[trigger]
                        leads_to(self@, keys, name@) implies exists|k: int|
                        0 <= k < entries@.len() && keys.len() > 0 && keys[0] == (
                        #[trigger] entries@[k]).0 && leads_to(
                            trie_of(entries@[k].1),
                            keys.drop_first(),
                            name@,
                        ) && path@ + keys == path@.push(entries@[k].0) + keys.drop_first() by {
                        assert(keys.len() > 0);
                        assert(m.contains_key(keys[0]));
                        let k = choose|k: int|
                            0 <= k < entries@.len() && (#[trigger] entries@[k]).0 == keys[0];
                        assert(m[entries@[k].0] == trie_of(entries@[k].1));
                        assert(path@ + keys =~= path@.push(entries@[k].0) + keys.drop_first());
                    }
                    if best is Some {
                        let s = best->0;
                        let (k, ks) = choose|k: int, ks: Seq<Key>|
                            0 <= k < entries@.len() && #[trigger] leads_to(
                                trie_of(entries@[k].1),
                                ks,
                                name@,
                            ) && s@ == spelled(path@.push(entries@[k].0) + ks);
                        let keys = seq![entries@[k].0] + ks;
                        assert(keys.drop_first() =~= ks);
                        assert(m[entries@[k].0] == trie_of(entries@[k].1));
                        assert(m.contains_key(entries@[k].0));
                        assert(leads_to(self@, keys, name@));
                        assert(path@ + keys =~= path@.push(entries@[k].0) + ks);
                    }
                }
                best
            },
        }
    }

    /// The shortest key sequence bound to `name`, e.g. `"<space> f"`.
    pub fn binding_of(&self, name: &str) -> (r: Option<String>)
        requires
            self.wf(),
        ensures
            match r {
                Some(s) => is_shortest(self@, Seq::empty(), name@, s@),
                None => !is_bound_in(self@, name@),
            },
    {
        let path: Vec<Key> = Vec::new();
        let text: Vec<char> = Vec::new();
        assert(text@ =~= spelled(path@));
        assert(path@ =~= Seq::<Key>::empty());
        match self.shortest(name, &path, &text) {
            Some(s) => Some(string_of(s.as_slice())),
            None => None,
        }
    }
}

/// What is shorter than a text is shorter than what is not.
proof fn lemma_shorter_total(x: Seq<char>, s: Seq<char>, b: Seq<char>)
    requires
        shorter(x, b),
        !shorter(s, b),
    ensures
        shorter(x, s),
{
    lemma_before_both(x, s, 0);
    lemma_before_both(s, b, 0);
    let lx = encode_utf8(x).len();
    let ls = encode_utf8(s).len();
    let lb = encode_utf8(b).len();
    if lx == ls && ls == lb {
        if !text_before(x, s) && s != x {
            assert(text_before(s, x));
            lemma_before_chain(s, x, b, 0);
        }
    }
}

// ---- what can follow --------------------------------------------------------

/// One row of the continuations window: a key, and what it leads to.
pub open spec fn row_of(key: Key, t: Trie) -> (Seq<char>, Seq<char>) {
    (
        key_display(key),
        match t {
            Trie::Leaf(c) => name_of(c),
            Trie::Node(_) => "…"@,
        },
    )
}

pub open spec fn rows_of(m: Map<Key, Trie>, keys: Seq<Key>) -> Seq<(Seq<char>, Seq<char>)> {
    keys.map_values(|k: Key| row_of(k, m[k]))
}

/// Whether one row comes before another, by the key and then the target.
pub open spec fn row_before(a: (Seq<char>, Seq<char>), b: (Seq<char>, Seq<char>)) -> bool {
    text_before(a.0, b.0) || (a.0 == b.0 && text_before(a.1, b.1))
}

pub open spec fn rows_sorted(rows: Seq<(Seq<char>, Seq<char>)>) -> bool {
    forall|i: int, j: int| 0 <= i < j < rows.len() ==> !row_before(#[trigger] rows[j], #[trigger] rows[i])
}

/// Whether `rows` are the rows of the children `m`, each once, sorted.
pub open spec fn are_rows(m: Map<Key, Trie>, rows: Seq<(Seq<char>, Seq<char>)>) -> bool {
    rows_sorted(rows) && exists|keys: Seq<Key>|
        keys.no_duplicates() && (forall|k: Key| keys.contains(k) <==> m.contains_key(k))
            && #[trigger] rows_of(m, keys).to_multiset() == rows.to_multiset()
}

fn is_row_before(a: &(Vec<char>, Vec<char>), b: &(Vec<char>, Vec<char>)) -> (r: bool)
    ensures
        r == row_before((a.0@, a.1@), (b.0@, b.1@)),
{
    comes_before(a.0.as_slice(), b.0.as_slice()) || (same_chars(a.0.as_slice(), b.0.as_slice())
        && comes_before(a.1.as_slice(), b.1.as_slice()))
}

pub open spec fn row_views(v: Seq<(Vec<char>, Vec<char>)>) -> Seq<(Seq<char>, Seq<char>)> {
    Seq::new(v.len(), |i: int| (v[i].0@, v[i].1@))
}

proof fn lemma_row_before(
    a: (Seq<char>, Seq<char>),
    b: (Seq<char>, Seq<char>),
    c: (Seq<char>, Seq<char>),
)
    ensures
        !(row_before(a, b) && row_before(b, a)),
        row_before(a, b) && !row_before(c, b) ==> !row_before(c, a),
        !row_before(a, b) && row_before(c, b) ==> !row_before(a, c),
{
    lemma_before_both(a.0, b.0, 0);
    lemma_before_both(a.1, b.1, 0);
    lemma_before_both(a.0, c.0, 0);
    lemma_before_both(a.1, c.1, 0);
    lemma_before_both(b.0, c.0, 0);
    lemma_before_both(b.1, c.1, 0);
    if text_before(c.0, a.0) && text_before(a.0, b.0) {
        lemma_before_chain(c.0, a.0, b.0, 0);
    }
    if text_before(c.1, a.1) && text_before(a.1, b.1) {
        lemma_before_chain(c.1, a.1, b.1, 0);
    }
    if text_before(a.0, c.0) && text_before(c.0, b.0) {
        lemma_before_chain(a.0, c.0, b.0, 0);
    }
    if text_before(a.1, c.1) && text_before(c.1, b.1) {
        lemma_before_chain(a.1, c.1, b.1, 0);
    }
}

/// Put a row into a sorted list.
fn put_row(rows: &mut Vec<(Vec<char>, Vec<char>)>, row: (Vec<char>, Vec<char>))
    requires
        rows_sorted(row_views(old(rows)@)),
    ensures
        rows_sorted(row_views(final(rows)@)),
        row_views(final(rows)@).to_multiset() == row_views(old(rows)@).to_multiset().insert(
            (row.0@, row.1@),
        ),
{
    let ghost had = row_views(rows@);
    let ghost x = (row.0@, row.1@);
    let mut i: usize = 0;
    while i < rows.len() && !is_row_before(&row, &rows[i])
        invariant
            i <= rows@.len(),
            had == row_views(rows@),
            x == (row.0@, row.1@),
            forall|k: int| 0 <= k < i ==> !row_before(x, #[trigger] had[k]),
        decreases rows@.len() - i,
    {
        assert(had[i as int] == (rows@[i as int].0@, rows@[i as int].1@));
        i += 1;
    }
    let ghost before = i < rows@.len();
    proof {
        if before {
            assert(had[i as int] == (rows@[i as int].0@, rows@[i as int].1@));
            assert(row_before(x, had[i as int]));
        }
    }
    rows.insert(i, row);
    proof {
        let now = row_views(rows@);
        assert(now =~= had.insert(i as int, x));
        vstd::seq_lib::to_multiset_insert(had, i as int, x);
        assert forall|a: int, b: int| 0 <= a < b < now.len() implies !row_before(
            #[trigger] now[b],
            #[trigger] now[a],
        ) by {
            let oa = if a < i {
                a
            } else {
                a - 1
            };
            let ob = if b < i {
                b
            } else {
                b - 1
            };
            if a != i && b != i {
                assert(now[a] == had[oa] && now[b] == had[ob]);
            } else if b == i {
                assert(now[a] == had[a]);
            } else {
                assert(now[b] == had[ob]);
                lemma_row_before(x, had[i as int], had[ob]);
                if ob > i {
                    assert(!row_before(had[ob], had[i as int]));
                } else {
                    lemma_row_before(x, had[ob], x);
                }
            }
        }
    }
}

impl KeyTrie {
    /// The keys available after `prefix`: (key, command name), with `…` for
    /// deeper groups. Sorted by key for a stable display.
    pub fn continuations(&self, prefix: &[Key]) -> (out: Vec<(String, String)>)
        requires
            self.wf(),
        ensures
            match reached(self@, prefix@) {
                Some(Trie::Node(m)) => are_rows(m, text_pairs(out@)),
                _ => out@.len() == 0,
            },
    {
        let mut out: Vec<(String, String)> = Vec::new();
        let entries = match self.node_at(prefix) {
            Some(KeyTrie::Node(entries)) => entries,
            _ => {
                return out;
            },
        };
        let ghost m = node_upto(*entries, entries@.len());
        proof {
            lemma_node_upto(*entries, entries@.len());
        }
        let mut rows: Vec<(Vec<char>, Vec<char>)> = Vec::new();
        let ghost mut keys: Seq<Key> = Seq::empty();
        let mut i: usize = 0;
        proof {
            assert(row_views(rows@) =~= Seq::empty());
            assert(rows_of(m, keys) =~= Seq::empty());
        }
        while i < entries.len()
            invariant
                i <= entries@.len(),
                m == node_upto(*entries, entries@.len()),
                trie_wf(KeyTrie::Node(*entries)),
                forall|k: int|
                    0 <= k < entries@.len() ==> m[(#[trigger] entries@[k]).0] == trie_of(
                        entries@[k].1,
                    ),
                keys.len() == i,
                forall|k: int| 0 <= k < i ==> #[trigger] keys[k] == entries@[k].0,
                rows_sorted(row_views(rows@)),
                row_views(rows@).to_multiset() == rows_of(m, keys).to_multiset(),
            decreases entries@.len() - i,
        {
            let key = entries[i].0;
            let mut shown: Vec<char> = Vec::new();
            key.push_display(&mut shown);
            let mut target: Vec<char> = Vec::new();
            match &entries[i].1 {
                KeyTrie::Leaf(c) => push_lit(&mut target, c.name()),
                KeyTrie::Node(_) => push_lit(&mut target, "…"),
            }
            proof {
                assert(m[entries@[i as int].0] == trie_of(entries@[i as int].1));
                assert(shown@ =~= key_display(key));
                let row = row_of(key, m[key]);
                assert(target@ =~= row.1);
                assert(rows_of(m, keys.push(key)) =~= rows_of(m, keys).push(row));
                vstd::seq_lib::to_multiset_build(rows_of(m, keys), row);
                keys = keys.push(key);
            }
            put_row(&mut rows, (shown, target));
            i += 1;
        }
        proof {
            assert(keys.no_duplicates()) by {
                assert forall|a: int, b: int| 0 <= a < b < keys.len() implies keys[a] != keys[b] by {
                    assert(entries@[a].0 != entries@[b].0);
                }
            }
            assert forall|k: Key| keys.contains(k) <==> m.contains_key(k) by {
                if m.contains_key(k) {
                    let j = choose|j: int| 0 <= j < entries@.len() && (#[trigger] entries@[j]).0 == k;
                    assert(keys[j] == k);
                }
                if keys.contains(k) {
                    let j = choose|j: int| 0 <= j < keys.len() && keys[j] == k;
                    assert(entries@[j].0 == k);
                }
            }
        }
        let mut k: usize = 0;
        while k < rows.len()
            invariant
                k <= rows@.len(),
                text_pairs(out@) =~= row_views(rows@).take(k as int),
            decreases rows@.len() - k,
        {
            let a = string_of(rows[k].0.as_slice());
            let b = string_of(rows[k].1.as_slice());
            let ghost had = out@;
            out.push((a, b));
            assert(text_pairs(out@) =~= text_pairs(had).push((a@, b@)));
            k += 1;
        }
        assert(row_views(rows@).take(k as int) =~= row_views(rows@));
        out
    }
}

} // verus!
