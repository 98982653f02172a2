//! Typing in insert mode: the keys of the completion menu, accepting from it,
//! and one typed character.

use vstd::prelude::*;
use crate::completion::{autocompleted, prefix_of, with_menu};
use crate::desk::doc_ok;
use crate::document::{inserted, range_deleted, true_to_edits, DocView, Document};
use crate::editor::{asking, doc_of, on_doc, Editor, EditorView};
use crate::edits::{typed, typed_kind, word_char, Typed};
use crate::keymap::{Key, KeyCode};
use crate::lsp::Tag;
use crate::motions::max_of;
use crate::prompts::{char_of_key, plain_char};
use crate::repeat::{opt_input, recorded, replaying, unrecorded, Input, InputView, RecorderView};
use crate::servers::{completion_wanted, front_client, front_server, signature_wanted};
use crate::state::{
    completion_view, Completion, CompletionView, Effect, EffectView, PanesView, ServersView,
};
use crate::strings::{
    char_is_alphanumeric, char_string, chars_of, has_prefix, has_suffix, ends_with, is_digit, lowercase, same,
    starts_with, string_of, text_pairs,
};
use crate::text::rope_char;

verus! {

// ---- the menu ---------------------------------------------------------------------

/// The highlight moved to the next item, or the one before, round the end.
pub open spec fn menu_stepped(c: CompletionView, down: bool) -> CompletionView {
    let n = c.items.len() as int;
    CompletionView {
        selected: (if down {
            if c.selected + 1 < n {
                c.selected + 1
            } else {
                0
            }
        } else if 0 < c.selected <= n {
            c.selected - 1
        } else {
            n - 1
        }) as usize,
        navigated: true,
        ..c
    }
}

/// The menu stepped into: the first step only highlights.
pub open spec fn menu_tabbed(c: CompletionView, down: bool) -> CompletionView {
    if c.navigated {
        menu_stepped(c, down)
    } else {
        CompletionView { navigated: true, ..c }
    }
}

/// The first `n` items whose label begins with a text in lower case.
pub open spec fn beginning_with(
    items: Seq<(Seq<char>, Seq<char>)>,
    low: Seq<char>,
    n: nat,
) -> Seq<(Seq<char>, Seq<char>)>
    decreases n,
{
    if n == 0 || n > items.len() {
        Seq::empty()
    } else if starts_with(lowercase(items[n - 1].0), low) {
        beginning_with(items, low, (n - 1) as nat).push(items[n - 1])
    } else {
        beginning_with(items, low, (n - 1) as nat)
    }
}

/// The menu narrowed by a typed character.
#[verifier::opaque]
pub open spec fn menu_narrowed(c: CompletionView, ch: char) -> CompletionView {
    let prefix = c.prefix.push(ch);
    CompletionView {
        items: beginning_with(c.items, lowercase(prefix), c.items.len()),
        selected: 0,
        prefix,
        ..c
    }
}

/// The items whose label begins with a text in lower case.
pub(crate) fn keep_beginning(items: &Vec<(String, String)>, low: &str) -> (r: Vec<
    (String, String),
>)
    ensures
        text_pairs(r@) == beginning_with(text_pairs(items@), low@, items@.len()),
        text_pairs(r@).len() == r@.len(),
{
    let ghost all = text_pairs(items@);
    let mut out: Vec<(String, String)> = Vec::new();
    let mut i: usize = 0;
    assert(text_pairs(out@) =~= Seq::empty());
    while i < items.len()
        invariant
            i <= items@.len(),
            all == text_pairs(items@),
            text_pairs(out@) == beginning_with(all, low@, i as nat),
        decreases items@.len() - i,
    {
        assert(all[i as int] == (items@[i as int].0@, items@[i as int].1@));
        let l = items[i].0.as_str().to_lowercase();
        let lc = chars_of(l.as_str());
        if has_prefix(&lc, low) {
            let ghost had = out@;
            let a = items[i].0.as_str().to_owned();
            let b = items[i].1.as_str().to_owned();
            out.push((a, b));
            assert(text_pairs(out@) =~= text_pairs(had).push(all[i as int]));
        }
        i += 1;
    }
    out
}

impl Completion {
    pub fn step(&mut self, down: bool)
        requires
            old(self)@.items.len() > 0,
        ensures
            final(self)@ == menu_stepped(old(self)@, down),
    {
        let n = self.items.len();
        assert(self@.items.len() == n);
        if down {
            self.selected = if self.selected < n && n - self.selected > 1 {
                self.selected + 1
            } else {
                0
            };
        } else {
            self.selected = if 0 < self.selected && self.selected <= n {
                self.selected - 1
            } else {
                n - 1
            };
        }
        self.navigated = true;
    }

    pub fn tab(&mut self, down: bool)
        requires
            old(self)@.items.len() > 0,
        ensures
            final(self)@ == menu_tabbed(old(self)@, down),
    {
        if self.navigated {
            self.step(down);
        } else {
            self.navigated = true;
        }
    }

    pub fn narrow(&mut self, c: char)
        ensures
            final(self)@ == menu_narrowed(old(self)@, c),
    {
        reveal(menu_narrowed);
        let mut v = chars_of(self.prefix.as_str());
        v.push(c);
        let prefix = string_of(&v);
        assert(prefix@ =~= old(self)@.prefix.push(c));
        let low = prefix.as_str().to_lowercase();
        self.items = keep_beginning(&self.items, low.as_str());
        self.prefix = prefix;
        self.selected = 0;
    }
}

// ---- accepting --------------------------------------------------------------------

/// What accepting an item puts in: how much of what is typed it replaces, and
/// the text.
#[verifier::opaque]
pub open spec fn accepted_text(c: CompletionView) -> Option<(nat, Seq<char>)> {
    if c.selected >= c.items.len() {
        None
    } else {
        let text = c.items[c.selected as int].1;
        if starts_with(lowercase(text), lowercase(c.prefix)) {
            Some(
                (
                    0,
                    if c.prefix.len() <= text.len() {
                        text.skip(c.prefix.len() as int)
                    } else {
                        Seq::empty()
                    },
                ),
            )
        } else {
            Some((c.prefix.len(), text))
        }
    }
}

pub open spec fn enters_dir(c: CompletionView) -> bool {
    c.selected < c.items.len() && ends_with(c.items[c.selected as int].1, "/"@)
}

/// A text put in at every cursor, over so much of what stands before the
/// primary one.
#[verifier::opaque]
pub open spec fn completed(d: DocView, del: nat, text: Seq<char>) -> DocView {
    let cut = if del == 0 {
        d
    } else {
        range_deleted(d, max_of(d.cursor - del, 0) as usize, d.cursor)
    };
    inserted(cut, text)
}

impl Completion {
    fn accept(&self) -> (r: Option<(usize, String)>)
        ensures
            match r {
                Some((n, t)) => accepted_text(self@) == Some((n as nat, t@)),
                None => accepted_text(self@) is None,
            },
    {
        reveal(accepted_text);
        if self.selected >= self.items.len() {
            return None;
        }
        let ghost items = self@.items;
        assert(items[self.selected as int] == (
            self.items@[self.selected as int].0@,
            self.items@[self.selected as int].1@,
        ));
        let text = self.items[self.selected].1.as_str();
        let low = text.to_lowercase();
        let lc = chars_of(low.as_str());
        let plow = self.prefix.as_str().to_lowercase();
        let p = chars_of(self.prefix.as_str());
        let t = chars_of(text);
        if has_prefix(&lc, plow.as_str()) {
            if p.len() <= t.len() {
                let rest = string_of(vstd::slice::slice_subrange(t.as_slice(), p.len(), t.len()));
                assert(rest@ =~= t@.skip(p@.len() as int));
                Some((0, rest))
            } else {
                let none = String::new();
                assert(none@ =~= Seq::empty());
                Some((0, none))
            }
        } else {
            Some((p.len(), text.to_owned()))
        }
    }

    fn on_directory(&self) -> (r: bool)
        ensures
            r == enters_dir(self@),
    {
        if self.selected >= self.items.len() {
            return false;
        }
        assert(self@.items[self.selected as int].1 == self.items@[self.selected as int].1@);
        let t = chars_of(self.items[self.selected].1.as_str());
        has_suffix(&t, "/")
    }
}

impl Document {
    /// Put a text in at every cursor, over so much before the primary one.
    pub(crate) fn complete(&mut self, del: usize, text: &str)
        requires
            doc_ok(old(self)@),
        ensures
            final(self)@ == completed(old(self)@, del as nat, text@),
            doc_ok(final(self)@),
            true_to_edits(old(self)@) ==> true_to_edits(final(self)@),
    {
        reveal(completed);
        if del > 0 {
            let c = self.cursor;
            let from = if c >= del {
                c - del
            } else {
                0
            };
            self.delete_range(from, c);
        }
        self.insert_at_cursor(text);
    }
}

/// The highlighted item put in.
#[verifier::opaque]
pub open spec fn menu_accepted(e: EditorView, c: CompletionView) -> EditorView {
    let n = with_menu(e, None);
    match accepted_text(c) {
        None => n,
        Some((del, text)) => {
            let d = on_doc(n, completed(doc_of(n), del, text));
            let r = EditorView {
                recorder: RecorderView {
                    completion_effect: Some(InputView::Complete(del as usize, text)),
                    ..d.recorder
                },
                ..d
            };
            if enters_dir(c) {
                autocompleted(r)
            } else {
                r
            }
        },
    }
}

impl Editor {
    fn mark_accepted(&mut self, del: usize, text: String)
        requires
            old(self).wf(),
        ensures
            final(self)@ == (EditorView {
                recorder: RecorderView {
                    completion_effect: Some(InputView::Complete(del, text@)),
                    ..old(self)@.recorder
                },
                ..old(self)@
            }),
            final(self).wf(),
    {
        self.recorder.completion_effect = Some(Input::Complete(del, text));
    }

    fn accept_from(&mut self, c: &Completion)
        requires
            old(self).wf(),
        ensures
            final(self)@ == menu_accepted(old(self)@, c@),
            final(self).wf(),
    {
        reveal(menu_accepted);
        self.put_menu(None);
        match c.accept() {
            None => {},
            Some((del, text)) => {
                self.doc_mut().complete(del, text.as_str());
                self.mark_accepted(del, text);
                if c.on_directory() {
                    self.maybe_autocomplete();
                }
            },
        }
    }

    pub(crate) fn take_menu(&mut self) -> (r: Option<Completion>)
        requires
            old(self).wf(),
        ensures
            completion_view(r) == old(self)@.panes.completion,
            final(self)@ == with_menu(old(self)@, None),
            final(self).wf(),
    {
        self.panes.completion.take()
    }
}

// ---- its keys ---------------------------------------------------------------------

/// What a key means to the menu.
#[derive(Clone, Copy, PartialEq, Eq, Structural)]
pub enum MenuKey {
    /// Closes it, and is handled as if it were not there.
    Close,
    Accept,
    Tab(bool),
    Step(bool),
    /// A slash: the next directory.
    Slash,
    /// Narrows it.
    Narrow(char),
}

pub open spec fn menu_key(key: Key, navigated: bool) -> MenuKey {
    match key.code {
        KeyCode::Enter => if navigated {
            MenuKey::Accept
        } else {
            MenuKey::Close
        },
        KeyCode::Tab => MenuKey::Tab(true),
        KeyCode::BackTab => MenuKey::Tab(false),
        KeyCode::Down => MenuKey::Step(true),
        KeyCode::Up => MenuKey::Step(false),
        KeyCode::Char(c) => if key.ctrl && c == 'n' {
            MenuKey::Step(true)
        } else if key.ctrl && c == 'p' {
            MenuKey::Step(false)
        } else if key.ctrl || key.alt {
            MenuKey::Close
        } else if c == '/' {
            MenuKey::Slash
        } else if word_char(c) {
            MenuKey::Narrow(c)
        } else {
            MenuKey::Close
        },
        _ => MenuKey::Close,
    }
}

fn read_menu_key(key: Key, navigated: bool) -> (r: MenuKey)
    ensures
        r == menu_key(key, navigated),
{
    match key.code {
        KeyCode::Enter => if navigated {
            MenuKey::Accept
        } else {
            MenuKey::Close
        },
        KeyCode::Tab => MenuKey::Tab(true),
        KeyCode::BackTab => MenuKey::Tab(false),
        KeyCode::Down => MenuKey::Step(true),
        KeyCode::Up => MenuKey::Step(false),
        KeyCode::Char(c) => if key.ctrl && c == 'n' {
            MenuKey::Step(true)
        } else if key.ctrl && c == 'p' {
            MenuKey::Step(false)
        } else if key.ctrl || key.alt {
            MenuKey::Close
        } else if c == '/' {
            MenuKey::Slash
        } else if char_is_alphanumeric(c) || c == '_' {
            MenuKey::Narrow(c)
        } else {
            MenuKey::Close
        },
        _ => MenuKey::Close,
    }
}

#[verifier::opaque]
pub open spec fn text_typed(d: DocView, text: Seq<char>) -> DocView {
    inserted(d, text)
}

impl Document {
    fn put_text(&mut self, text: &str)
        requires
            doc_ok(old(self)@),
        ensures
            final(self)@ == text_typed(old(self)@, text@),
            doc_ok(final(self)@),
    {
        reveal(text_typed);
        self.insert_at_cursor(text);
    }
}

/// What a key does to the menu and the text; the second part says whether it
/// was consumed.
#[verifier::opaque]
pub open spec fn menu_keyed(e: EditorView, c: CompletionView, key: Key) -> (EditorView, bool) {
    match menu_key(key, c.navigated) {
        MenuKey::Close => (with_menu(e, None), false),
        MenuKey::Accept => (menu_accepted(e, c), true),
        MenuKey::Tab(down) => (with_menu(e, Some(menu_tabbed(c, down))), true),
        MenuKey::Step(down) => (with_menu(e, Some(menu_stepped(c, down))), true),
        MenuKey::Slash => {
            let n = with_menu(e, None);
            (autocompleted(on_doc(n, text_typed(doc_of(n), "/"@))), true)
        },
        MenuKey::Narrow(ch) => {
            let m = menu_narrowed(c, ch);
            let n = with_menu(
                e,
                if m.items.len() == 0 {
                    None
                } else {
                    Some(m)
                },
            );
            (on_doc(n, text_typed(doc_of(n), seq![ch])), true)
        },
    }
}

impl Editor {
    fn narrow_menu(&mut self, c: Completion, ch: char)
        requires
            old(self).wf(),
        ensures
            final(self)@ == ({
                let m = menu_narrowed(c@, ch);
                let n = with_menu(
                    old(self)@,
                    if m.items.len() == 0 {
                        None
                    } else {
                        Some(m)
                    },
                );
                on_doc(n, text_typed(doc_of(n), seq![ch]))
            }),
            final(self).wf(),
    {
        let mut c = c;
        c.narrow(ch);
        assert(c@.items.len() == c.items@.len());
        let text = char_string(ch);
        if c.items.len() == 0 {
            self.put_menu(None);
        } else {
            self.put_menu(Some(c));
        }
        self.doc_mut().put_text(text.as_str());
    }

    fn key_on_menu(&mut self, c: Completion, key: Key) -> (consumed: bool)
        requires
            old(self).wf(),
            c@.items.len() > 0,
        ensures
            consumed == menu_keyed(old(self)@, c@, key).1,
            final(self)@ == menu_keyed(old(self)@, c@, key).0,
            final(self).wf(),
    {
        reveal(menu_keyed);
        match read_menu_key(key, c.navigated) {
            MenuKey::Close => {
                self.put_menu(None);
                return false;
            },
            MenuKey::Accept => {
                self.accept_from(&c);
                return true;
            },
            MenuKey::Tab(down) => {
                let mut c = c;
                c.tab(down);
                self.put_menu(Some(c));
                return true;
            },
            MenuKey::Step(down) => {
                let mut c = c;
                c.step(down);
                self.put_menu(Some(c));
                return true;
            },
            MenuKey::Slash => {
                self.put_menu(None);
                self.doc_mut().put_text("/");
                self.maybe_autocomplete();
                return true;
            },
            MenuKey::Narrow(ch) => {
                self.narrow_menu(c, ch);
                return true;
            },
        }
    }
}

// ---- documentation on demand ------------------------------------------------------

pub open spec fn has_docs(docs: Seq<(Seq<char>, Seq<char>)>, label: Seq<char>) -> bool {
    exists|i: int| 0 <= i < docs.len() && (#[trigger] docs[i]).0 == label
}

/// The label whose documentation is still to be asked for.
#[verifier::opaque]
pub open spec fn docs_wanted(c: Option<CompletionView>) -> Option<Seq<char>> {
    match c {
        Some(m) => if m.navigated && m.selected < m.items.len() && !has_docs(
            m.docs,
            m.items[m.selected as int].0,
        ) {
            Some(m.items[m.selected as int].0)
        } else {
            None
        },
        None => None,
    }
}

pub open spec fn docs_noted(e: EditorView, label: Seq<char>, info: Seq<char>) -> EditorView {
    match e.panes.completion {
        Some(m) => with_menu(e, Some(CompletionView { docs: m.docs.push((label, info)), ..m })),
        None => e,
    }
}

/// The documentation of the highlighted item asked for, once.
#[verifier::opaque]
pub open spec fn docs_asked(e: EditorView) -> EditorView {
    match docs_wanted(e.panes.completion) {
        Some(label) => if front_client(e) is Some {
            asking(docs_noted(e, label, Seq::empty()), EffectView::AskDocs(label))
        } else {
            e
        },
        None => e,
    }
}

impl Completion {
    fn wants_docs(&self) -> (r: Option<String>)
        ensures
            crate::strings::opt_text(r) == docs_wanted(Some(self@)),
    {
        reveal(docs_wanted);
        if !self.navigated || self.selected >= self.items.len() {
            return None;
        }
        let ghost at = self.selected as int;
        assert(self@.items[at].0 == self.items@[at].0@);
        let label = self.items[self.selected].0.as_str();
        if self.knows(label) {
            return None;
        }
        Some(label.to_owned())
    }

    fn knows(&self, label: &str) -> (r: bool)
        ensures
            r == has_docs(self@.docs, label@),
    {
        let mut i: usize = 0;
        while i < self.docs.len()
            invariant
                i <= self.docs@.len(),
                forall|k: int| 0 <= k < i ==> (#[trigger] self@.docs[k]).0 != label@,
            decreases self.docs@.len() - i,
        {
            assert(self@.docs[i as int].0 == self.docs@[i as int].0@);
            if same(self.docs[i].0.as_str(), label) {
                return true;
            }
            i += 1;
        }
        false
    }
}

impl Editor {
    fn wanted_docs(&self) -> (r: Option<String>)
        ensures
            crate::strings::opt_text(r) == docs_wanted(self@.panes.completion),
    {
        match &self.panes.completion {
            Some(c) => c.wants_docs(),
            None => {
                reveal(docs_wanted);
                None
            },
        }
    }

    pub(crate) fn note_docs(&mut self, label: String, info: String)
        requires
            old(self).wf(),
        ensures
            final(self)@ == docs_noted(old(self)@, label@, info@),
            final(self).wf(),
    {
        match self.take_menu() {
            Some(c) => {
                let mut c = c;
                let ghost had = c.docs@;
                let ghost l = label@;
                let ghost x = info@;
                c.docs.push((label, info));
                assert(text_pairs(c.docs@) =~= text_pairs(had).push((l, x)));
                self.put_menu(Some(c));
                return ;
            },
            None => {},
        }
    }

    pub(crate) fn maybe_resolve_completion(&mut self)
        requires
            old(self).wf(),
        ensures
            final(self)@ == docs_asked(old(self)@),
            final(self).wf(),
    {
        reveal(docs_asked);
        if let Some(label) = self.wanted_docs() {
            if self.lsp_active() {
                let blank = String::new();
                assert(blank@ =~= Seq::empty());
                self.note_docs(label.as_str().to_owned(), blank);
                self.ask(Effect::AskDocs(label));
                return ;
            }
        }
    }
}

// ---- a key of the menu, as it is recorded -----------------------------------------

/// Whether a key types a character through the menu.
pub open spec fn types_through(key: Key) -> bool {
    match plain_char(key) {
        Some(c) => word_char(c) || c == '/',
        None => false,
    }
}

/// A key that only moved in the menu taken out of the recording; what it
/// accepted is recorded in its place.
#[verifier::opaque]
pub open spec fn menu_recorded(e: EditorView, key: Key) -> EditorView {
    if types_through(key) {
        e
    } else {
        let u = EditorView { recorder: unrecorded(e.recorder), ..e };
        match u.recorder.completion_effect {
            None => u,
            Some(input) => {
                let t = EditorView {
                    recorder: RecorderView { completion_effect: None, ..u.recorder },
                    ..u
                };
                if replaying(t.recorder) {
                    t
                } else {
                    EditorView {
                        recorder: recorded(
                            t.recorder,
                            input,
                            t.desk.current,
                            doc_of(t).revision,
                        ),
                        ..t
                    }
                }
            },
        }
    }
}

/// A key while the menu is open, and whether it was consumed.
#[verifier::opaque]
pub open spec fn completion_keyed(e: EditorView, key: Key) -> (EditorView, bool) {
    match e.panes.completion {
        None => (e, false),
        Some(c) => {
            let k = menu_keyed(with_menu(e, None), c, key);
            if k.1 {
                (menu_recorded(docs_asked(k.0), key), true)
            } else {
                k
            }
        },
    }
}

impl Editor {
    fn unrecord(&mut self)
        requires
            old(self).wf(),
        ensures
            final(self)@ == (EditorView {
                recorder: unrecorded(old(self)@.recorder),
                ..old(self)@
            }),
            final(self).wf(),
    {
        self.recorder.unrecord_last();
    }

    fn take_effect(&mut self) -> (r: Option<Input>)
        requires
            old(self).wf(),
        ensures
            opt_input(r) == old(self)@.recorder.completion_effect,
            final(self)@ == (EditorView {
                recorder: RecorderView { completion_effect: None, ..old(self)@.recorder },
                ..old(self)@
            }),
            final(self).wf(),
    {
        self.recorder.completion_effect.take()
    }

    pub(crate) fn record_input(&mut self, input: Input)
        requires
            old(self).wf(),
        ensures
            final(self)@ == (EditorView {
                recorder: recorded(
                    old(self)@.recorder,
                    input@,
                    old(self)@.desk.current,
                    doc_of(old(self)@).revision,
                ),
                ..old(self)@
            }),
            final(self).wf(),
    {
        let revision = self.doc().revision;
        let current = self.desk.current;
        self.recorder.record(input, current, revision);
    }

    pub(crate) fn is_replaying(&self) -> (r: bool)
        ensures
            r == replaying(self@.recorder),
    {
        self.recorder.replaying()
    }

    fn record_menu_key(&mut self, key: Key)
        requires
            old(self).wf(),
        ensures
            final(self)@ == menu_recorded(old(self)@, key),
            final(self).wf(),
    {
        reveal(menu_recorded);
        if let Some(c) = char_of_key(key) {
            if char_is_alphanumeric(c) || c == '_' || c == '/' {
                return ;
            }
        }
        self.unrecord();
        if let Some(input) = self.take_effect() {
            if !self.is_replaying() {
                self.record_input(input);
                return ;
            }
        }
    }

    /// A key while the completion menu is open; false where it is to be
    /// handled as if the menu were not there.
    pub(crate) fn handle_completion_key(&mut self, key: Key) -> (consumed: bool)
        requires
            old(self).wf(),
        ensures
            consumed == completion_keyed(old(self)@, key).1,
            final(self)@ == completion_keyed(old(self)@, key).0,
            final(self).wf(),
    {
        reveal(completion_keyed);
        let c = match self.take_menu() {
            Some(c) => c,
            None => {
                return false;
            },
        };
        let consumed = self.key_on_menu(c, key);
        if !consumed {
            return false;
        }
        self.maybe_resolve_completion();
        self.record_menu_key(key);
        true
    }
}

// ---- one typed character ----------------------------------------------------------

#[verifier::opaque]
pub open spec fn char_typed(d: DocView, c: char, tab: usize, autoclose: bool) -> DocView {
    typed(d, c, tab, autoclose)
}

#[verifier::opaque]
pub open spec fn char_typed_kind(d: DocView, c: char, tab: usize, autoclose: bool) -> Typed {
    typed_kind(d, c, tab, autoclose)
}

/// The character before the cursor.
#[verifier::opaque]
pub open spec fn char_before(d: DocView) -> Option<char> {
    if 0 < d.cursor <= d.text.len() {
        Some(d.text[d.cursor - 1])
    } else {
        None
    }
}

impl Document {
    fn take_char(&mut self, c: char, tab: usize, autoclose: bool) -> (kind: Typed)
        requires
            doc_ok(old(self)@),
        ensures
            kind == char_typed_kind(old(self)@, c, tab, autoclose),
            final(self)@ == char_typed(old(self)@, c, tab, autoclose),
            doc_ok(final(self)@),
    {
        reveal(char_typed);
        reveal(char_typed_kind);
        self.type_char(c, tab, autoclose)
    }

    fn previous_char(&self) -> (r: Option<char>)
        requires
            doc_ok(self@),
        ensures
            r == char_before(self@),
    {
        reveal(char_before);
        if self.cursor > 0 {
            Some(rope_char(&self.text, self.cursor - 1))
        } else {
            None
        }
    }
}

pub open spec fn signature_owed(e: EditorView) -> EditorView {
    EditorView { servers: ServersView { signature_pending: true, ..e.servers }, ..e }
}

pub open spec fn completion_owed(e: EditorView, tag: Tag) -> EditorView {
    EditorView { servers: ServersView { completion_pending: Some(tag), ..e.servers }, ..e }
}

/// The signature of a call put away at its end, or asked for where the server
/// wants that.
#[verifier::opaque]
pub open spec fn signature_kept(e: EditorView, c: char) -> EditorView {
    if c == ')' {
        EditorView { panes: PanesView { signature: None, ..e.panes }, ..e }
    } else if !replaying(e.recorder) && signature_wanted(e, c) {
        signature_owed(e)
    } else {
        e
    }
}

/// A character of a name: words are offered, and the server is asked too once
/// two characters are typed.
#[verifier::opaque]
pub open spec fn name_offered(e: EditorView) -> EditorView {
    let a = autocompleted(e);
    if a.servers.completion_pending is None && !replaying(a.recorder) && prefix_of(
        doc_of(a),
    ).len() >= 2 && front_server(a) is Some {
        completion_owed(a, Tag::CompletionTyped)
    } else {
        a
    }
}

/// Whether a character asks for the members of what stands before it.
#[verifier::opaque]
pub open spec fn asks_members(e: EditorView, c: char, prev: Option<char>) -> bool {
    &&& (c == '.' && !(prev matches Some(p) && is_digit(p))) || (c != '.' && completion_wanted(
        e,
        c,
    )) || (c == ':' && prev == Some(':'))
    &&& front_server(e) is Some
    &&& !replaying(e.recorder)
}

#[verifier::opaque]
pub open spec fn members_asked(e: EditorView, c: char, prev: Option<char>) -> EditorView {
    if asks_members(e, c, prev) {
        completion_owed(with_menu(e, None), Tag::Completion)
    } else {
        e
    }
}

/// A character typed in insert mode.
#[verifier::opaque]
pub open spec fn typed_in(e: EditorView, c: char) -> EditorView {
    let s = signature_kept(e, c);
    let prev = char_before(doc_of(s));
    let (tab, autoclose) = (s.options.tab_width, s.options.autoclose);
    let t = on_doc(s, char_typed(doc_of(s), c, tab, autoclose));
    if char_typed_kind(doc_of(s), c, tab, autoclose) != Typed::Plain {
        t
    } else if word_char(c) || c == '/' {
        members_asked(name_offered(t), c, prev)
    } else {
        members_asked(t, c, prev)
    }
}

impl Editor {
    pub(crate) fn drop_signature(&mut self)
        requires
            old(self).wf(),
        ensures
            final(self)@ == (EditorView {
                panes: PanesView { signature: None, ..old(self)@.panes },
                ..old(self)@
            }),
            final(self).wf(),
    {
        self.panes.signature = None;
    }

    fn owe_signature(&mut self)
        requires
            old(self).wf(),
        ensures
            final(self)@ == signature_owed(old(self)@),
            final(self).wf(),
    {
        self.servers.signature_pending = true;
    }

    fn owe_completion(&mut self, tag: Tag)
        requires
            old(self).wf(),
        ensures
            final(self)@ == completion_owed(old(self)@, tag),
            final(self).wf(),
    {
        self.servers.completion_pending = Some(tag);
    }

    fn keep_signature(&mut self, c: char)
        requires
            old(self).wf(),
        ensures
            final(self)@ == signature_kept(old(self)@, c),
            final(self).wf(),
    {
        reveal(signature_kept);
        if c == ')' {
            self.drop_signature();
            return ;
        }
        if !self.is_replaying() && self.wants_signature(c) {
            self.owe_signature();
        }
    }

    fn prefix_long(&self) -> (r: bool)
        requires
            self.wf(),
        ensures
            r == (prefix_of(doc_of(self@)).len() >= 2),
    {
        let p = self.doc().word_prefix();
        let c = chars_of(p.as_str());
        c.len() >= 2
    }

    fn offer_name(&mut self)
        requires
            old(self).wf(),
        ensures
            final(self)@ == name_offered(old(self)@),
            final(self).wf(),
    {
        reveal(name_offered);
        self.maybe_autocomplete();
        if self.servers.completion_pending.is_none() && !self.is_replaying() && self.prefix_long()
            && self.current_server_command().is_some() {
            self.owe_completion(Tag::CompletionTyped);
        }
    }

    fn wants_members(&self, c: char, prev: Option<char>) -> (r: bool)
        requires
            self.wf(),
        ensures
            r == asks_members(self@, c, prev),
    {
        reveal(asks_members);
        let after_digit = match prev {
            Some(p) => '0' <= p && p <= '9',
            None => false,
        };
        let after_colon = match prev {
            Some(p) => p == ':',
            None => false,
        };
        let asks = (c == '.' && !after_digit) || (c != '.' && self.wants_completion(c)) || (c
            == ':' && after_colon);
        asks && self.current_server_command().is_some() && !self.is_replaying()
    }

    fn ask_members(&mut self, c: char, prev: Option<char>)
        requires
            old(self).wf(),
        ensures
            final(self)@ == members_asked(old(self)@, c, prev),
            final(self).wf(),
    {
        reveal(members_asked);
        if self.wants_members(c, prev) {
            self.put_menu(None);
            self.owe_completion(Tag::Completion);
        }
    }

    fn front_previous(&self) -> (r: Option<char>)
        requires
            self.wf(),
        ensures
            r == char_before(doc_of(self@)),
    {
        self.doc().previous_char()
    }

    /// Type one character in insert mode.
    pub fn insert_typed(&mut self, c: char)
        requires
            old(self).wf(),
        ensures
            final(self)@ == typed_in(old(self)@, c),
            final(self).wf(),
    {
        reveal(typed_in);
        self.keep_signature(c);
        let prev = self.front_previous();
        let tab = self.options.tab_width;
        let autoclose = self.options.autoclose;
        let kind = self.doc_mut().take_char(c, tab, autoclose);
        if kind != Typed::Plain {
            return ;
        }
        if char_is_alphanumeric(c) || c == '_' || c == '/' {
            self.offer_name();
            self.ask_members(c, prev);
            return ;
        }
        self.ask_members(c, prev);
    }
}

} // verus!
