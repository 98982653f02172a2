//! The completion menu: what it offers, its keys, and accepting.

use vstd::prelude::*;
use crate::document::{cursor_line, min_int, DocView, Document};
use crate::editor::{asking, doc_of, Editor, EditorView};
use crate::edits::word_char;
use crate::repeat::replaying;
use crate::state::{
    completion_view, Completion, CompletionView, Effect, EffectView, Mode, PanesView,
};
use crate::strings::{
    alphanumeric, char_is_alphanumeric, chars_of, has_prefix, last_before, lowercase, put_name, same,
    starts_with, string_of, text_pairs, texts, with_name,
};
use crate::text::{line_start, line_text, rope_string};

verus! {

pub const MOST_OFFERED: usize = 50;

// ---- what stands before the cursor ------------------------------------------------

/// Where the word that ends at `i` starts.
pub open spec fn word_back(l: Seq<char>, i: int) -> int
    decreases i,
{
    if 0 < i <= l.len() && word_char(l[i - 1]) {
        word_back(l, i - 1)
    } else {
        i
    }
}

/// The part of a name just before the cursor.
#[verifier::opaque]
pub open spec fn prefix_of(d: DocView) -> Seq<char> {
    let line = cursor_line(d.text, d.cursor as int);
    let l = line_text(d.text, line);
    let col = d.cursor - line_start(d.text, line);
    let end = min_int(col, l.len() as int);
    l.subrange(word_back(l, end), end)
}

pub open spec fn path_char(c: char) -> bool {
    alphanumeric(c) || c == '_' || c == '-' || c == '.' || c == '/' || c == '~'
}

pub open spec fn path_back(l: Seq<char>, i: int) -> int
    decreases i,
{
    if 0 < i <= l.len() && path_char(l[i - 1]) {
        path_back(l, i - 1)
    } else {
        i
    }
}

/// Whether a text reads as the beginning of a path: a bare slash does not.
pub open spec fn looks_like_path(t: Seq<char>) -> bool {
    ||| starts_with(t, "./"@)
    ||| starts_with(t, "../"@)
    ||| starts_with(t, "~/"@)
    ||| (starts_with(t, "/"@) && t.len() > 1)
}

/// The directory and the beginning of a name in it that stand before the
/// cursor.
#[verifier::opaque]
pub open spec fn path_asked(d: DocView) -> Option<(Seq<char>, Seq<char>)> {
    let line = cursor_line(d.text, d.cursor as int);
    let l = line_text(d.text, line);
    let col = d.cursor - line_start(d.text, line);
    let end = min_int(col, l.len() as int);
    let t = l.subrange(path_back(l, end), end);
    let k = last_before(t, '/', t.len() as int);
    if looks_like_path(t) && 0 <= k < t.len() {
        Some((t.take(k), t.skip(k + 1)))
    } else {
        None
    }
}

fn is_path_char(c: char) -> (r: bool)
    ensures
        r == path_char(c),
{
    char_is_alphanumeric(c) || c == '_' || c == '-' || c == '.' || c == '/' || c == '~'
}

proof fn lemma_word_back(l: Seq<char>, i: int)
    requires
        0 <= i <= l.len(),
    ensures
        0 <= word_back(l, i) <= i,
        0 <= path_back(l, i) <= i,
    decreases i,
{
    if 0 < i {
        lemma_word_back(l, i - 1);
    }
}

impl Document {
    fn before_cursor(&self) -> (r: (Vec<char>, usize))
        ensures
            ({
                let line = cursor_line(self@.text, self@.cursor as int);
                let l = line_text(self@.text, line);
                r.0@ == l && r.1 == min_int(self@.cursor - line_start(self@.text, line), l.len() as int)
            }),
            r.1 <= r.0@.len(),
    {
        let (line, col) = self.cursor_line_col();
        let l = self.line(line);
        let end = if col <= l.len() {
            col
        } else {
            l.len()
        };
        (l, end)
    }

    /// The part of a name just before the cursor.
    pub fn word_prefix(&self) -> (r: String)
        ensures
            r@ == prefix_of(self@),
    {
        reveal(prefix_of);
        let (l, end) = self.before_cursor();
        let mut start = end;
        while start > 0 && (char_is_alphanumeric(l[start - 1]) || l[start - 1] == '_')
            invariant
                start <= end <= l@.len(),
                word_back(l@, end as int) == word_back(l@, start as int),
            decreases start,
        {
            start -= 1;
        }
        string_of(vstd::slice::slice_subrange(l.as_slice(), start, end))
    }

    fn path_prefix(&self) -> (r: Option<(String, String)>)
        ensures
            match r {
                Some((d, p)) => path_asked(self@) == Some((d@, p@)),
                None => path_asked(self@) is None,
            },
    {
        reveal(path_asked);
        let (l, end) = self.before_cursor();
        let mut start = end;
        while start > 0 && is_path_char(l[start - 1])
            invariant
                start <= end <= l@.len(),
                path_back(l@, end as int) == path_back(l@, start as int),
            decreases start,
        {
            start -= 1;
        }
        let t = vstd::slice::slice_subrange(l.as_slice(), start, end);
        let looks = has_prefix(t, "./") || has_prefix(t, "../") || has_prefix(t, "~/") || (
        has_prefix(t, "/") && t.len() > 1);
        if !looks {
            return None;
        }
        match crate::strings::find_last(t, '/') {
            Some(k) => {
                let dir = string_of(vstd::slice::slice_subrange(t, 0, k));
                let prefix = string_of(vstd::slice::slice_subrange(t, k + 1, t.len()));
                assert(dir@ =~= t@.take(k as int));
                assert(prefix@ =~= t@.skip(k + 1));
                Some((dir, prefix))
            },
            None => None,
        }
    }
}

// ---- what is offered --------------------------------------------------------------

/// A menu of items for what is typed.
pub open spec fn menu(
    items: Seq<(Seq<char>, Seq<char>)>,
    prefix: Seq<char>,
    navigated: bool,
    docs: Seq<(Seq<char>, Seq<char>)>,
) -> CompletionView {
    CompletionView { items, selected: 0, prefix, navigated, docs }
}

pub open spec fn with_menu(e: EditorView, c: Option<CompletionView>) -> EditorView {
    EditorView { panes: PanesView { completion: c, ..e.panes }, ..e }
}

/// Whether a word is offered for a prefix.
pub open spec fn offers(word: Seq<char>, prefix: Seq<char>) -> bool {
    &&& word.len() >= 3
    &&& starts_with(lowercase(word), lowercase(prefix))
    &&& word != prefix
}

pub open spec fn with_word(names: Seq<Seq<char>>, word: Seq<char>, prefix: Seq<char>) -> Seq<
    Seq<char>,
> {
    if offers(word, prefix) && !names.contains(word) {
        with_name(names, word, 0)
    } else {
        names
    }
}

/// The words of a text from `i` on that are offered, put in order behind those
/// known; `word` is the one being read.
pub open spec fn words_in(
    s: Seq<char>,
    i: int,
    word: Seq<char>,
    prefix: Seq<char>,
    names: Seq<Seq<char>>,
) -> Seq<Seq<char>>
    decreases s.len() - i,
{
    if i < 0 || i >= s.len() {
        with_word(names, word, prefix)
    } else if word_char(s[i]) {
        words_in(s, i + 1, word.push(s[i]), prefix, names)
    } else {
        words_in(s, i + 1, Seq::empty(), prefix, with_word(names, word, prefix))
    }
}

/// The words of the documents from the `i`th on; enough of them end the
/// search.
pub open spec fn words_of_docs(
    docs: Seq<DocView>,
    i: int,
    prefix: Seq<char>,
    names: Seq<Seq<char>>,
) -> Seq<Seq<char>>
    decreases docs.len() - i,
{
    if i < 0 || i >= docs.len() {
        names
    } else {
        let n = words_in(docs[i].text, 0, Seq::empty(), prefix, names);
        if n.len() >= MOST_OFFERED {
            n
        } else {
            words_of_docs(docs, i + 1, prefix, n)
        }
    }
}

/// The first names of a list, each as an item.
pub open spec fn as_items(names: Seq<Seq<char>>) -> Seq<(Seq<char>, Seq<char>)> {
    Seq::new(
        min_int(names.len() as int, MOST_OFFERED as int) as nat,
        |i: int| (names[i], names[i]),
    )
}

/// The words of the open buffers that begin with what is typed.
#[verifier::opaque]
pub open spec fn buffer_words_of(docs: Seq<DocView>, prefix: Seq<char>) -> Seq<
    (Seq<char>, Seq<char>),
> {
    as_items(words_of_docs(docs, 0, prefix, Seq::empty()))
}

fn has_name(names: &Vec<String>, name: &str) -> (r: bool)
    ensures
        r == texts(names@).contains(name@),
{
    let ghost all = texts(names@);
    let mut i: usize = 0;
    while i < names.len()
        invariant
            i <= names@.len(),
            all == texts(names@),
            forall|k: int| 0 <= k < i ==> all[k] != name@,
        decreases names@.len() - i,
    {
        assert(all[i as int] == names@[i as int]@);
        if same(names[i].as_str(), name) {
            return true;
        }
        i += 1;
    }
    false
}

fn put_word(names: &mut Vec<String>, word: &[char], prefix: &str)
    ensures
        texts(final(names)@) == with_word(texts(old(names)@), word@, prefix@),
{
    if word.len() < 3 {
        return ;
    }
    let w = string_of(word);
    let low = w.as_str().to_lowercase();
    let lc = chars_of(low.as_str());
    let plow = prefix.to_lowercase();
    if has_prefix(&lc, plow.as_str()) && !same(w.as_str(), prefix) && !has_name(
        names,
        w.as_str(),
    ) {
        put_name(names, w);
    }
}

fn gather_words(s: &[char], prefix: &str, names: &mut Vec<String>)
    ensures
        texts(final(names)@) == words_in(s@, 0, Seq::empty(), prefix@, texts(old(names)@)),
{
    let mut word: Vec<char> = Vec::new();
    let mut i: usize = 0;
    assert(word@ =~= Seq::empty());
    while i < s.len()
        invariant
            i <= s@.len(),
            words_in(s@, i as int, word@, prefix@, texts(names@)) == words_in(
                s@,
                0,
                Seq::empty(),
                prefix@,
                texts(old(names)@),
            ),
        decreases s@.len() - i,
    {
        let c = s[i];
        if char_is_alphanumeric(c) || c == '_' {
            word.push(c);
        } else {
            put_word(names, &word, prefix);
            word = Vec::new();
            assert(word@ =~= Seq::empty());
        }
        i += 1;
    }
    put_word(names, &word, prefix);
}

fn items_from(names: &Vec<String>) -> (r: Vec<(String, String)>)
    ensures
        text_pairs(r@) == as_items(texts(names@)),
        r@.len() == min_int(names@.len() as int, MOST_OFFERED as int),
{
    let ghost all = texts(names@);
    let most: usize = if names.len() <= MOST_OFFERED {
        names.len()
    } else {
        MOST_OFFERED
    };
    let mut out: Vec<(String, String)> = Vec::new();
    let mut i: usize = 0;
    while i < most
        invariant
            i <= most <= names@.len(),
            all == texts(names@),
            out@.len() == i,
            forall|k: int| 0 <= k < i ==> #[trigger] text_pairs(out@)[k] == (all[k], all[k]),
        decreases most - i,
    {
        let ghost had = out@;
        let a = names[i].as_str().to_owned();
        let b = names[i].as_str().to_owned();
        out.push((a, b));
        assert forall|k: int| 0 <= k < i + 1 implies #[trigger] text_pairs(out@)[k] == (
            all[k],
            all[k],
        ) by {
            if k < i {
                assert(text_pairs(had)[k] == (all[k], all[k]));
            }
        }
        i += 1;
    }
    assert(text_pairs(out@) =~= as_items(all));
    out
}

impl Editor {
    /// The words of the open buffers that begin with what is typed, in order.
    pub fn buffer_words(&self, prefix: &str) -> (r: Vec<(String, String)>)
        ensures
            text_pairs(r@) == buffer_words_of(self@.desk.docs, prefix@),
    {
        reveal(buffer_words_of);
        let ghost docs = self@.desk.docs;
        let mut names: Vec<String> = Vec::new();
        let mut i: usize = 0;
        assert(texts(names@) =~= Seq::empty());
        while i < self.desk.documents.len()
            invariant
                i <= docs.len(),
                docs == self@.desk.docs,
                docs.len() == self.desk.documents@.len(),
                words_of_docs(docs, i as int, prefix@, texts(names@)) == words_of_docs(
                    docs,
                    0,
                    prefix@,
                    Seq::empty(),
                ),
            decreases docs.len() - i,
        {
            let text = rope_string(&self.desk.documents[i].text);
            let s = chars_of(text.as_str());
            assert(docs[i as int] == self.desk.documents@[i as int]@);
            assert(s@ == docs[i as int].text);
            let ghost had = texts(names@);
            gather_words(&s, prefix, &mut names);
            assert(texts(names@).len() == names@.len());
            if names.len() >= MOST_OFFERED {
                reveal(buffer_words_of);
                assert(words_of_docs(docs, i as int, prefix@, had) == texts(names@));
                return items_from(&names);
            }
            i += 1;
        }
        items_from(&names)
    }
}

/// The menu of buffer words, where two characters of a name are typed.
#[verifier::opaque]
pub open spec fn words_offered(e: EditorView) -> EditorView {
    let prefix = prefix_of(doc_of(e));
    let items = buffer_words_of(e.desk.docs, prefix);
    if prefix.len() < 2 || items.len() == 0 {
        e
    } else {
        with_menu(e, Some(menu(items, prefix, false, Seq::empty())))
    }
}

/// What is offered as a name is typed: the files of a directory, or words of
/// the buffers.
#[verifier::opaque]
pub open spec fn autocompleted(e: EditorView) -> EditorView {
    if e.panes.completion is Some || replaying(e.recorder) {
        e
    } else {
        match path_asked(doc_of(e)) {
            Some((dir, prefix)) => asking(e, EffectView::CompletePath { dir, prefix }),
            None => words_offered(e),
        }
    }
}

/// A directory's entry as it is offered: a dotfile only where a dot is typed.
pub open spec fn entry_offered(entry: (Seq<char>, bool), prefix: Seq<char>) -> Option<Seq<char>> {
    let name = entry.0;
    if starts_with(name, "."@) && !starts_with(prefix, "."@) {
        None
    } else if !starts_with(lowercase(name), lowercase(prefix)) || name == prefix {
        None
    } else if entry.1 {
        Some(name.push('/'))
    } else {
        Some(name)
    }
}

/// The entries of a directory that are offered, in order.
pub open spec fn entries_offered(
    entries: Seq<(Seq<char>, bool)>,
    prefix: Seq<char>,
    n: nat,
) -> Seq<Seq<char>>
    decreases n,
{
    if n == 0 || n > entries.len() {
        Seq::empty()
    } else {
        let before = entries_offered(entries, prefix, (n - 1) as nat);
        match entry_offered(entries[n - 1], prefix) {
            Some(name) => with_name(before, name, 0),
            None => before,
        }
    }
}

pub open spec fn entry_views(v: Seq<(String, bool)>) -> Seq<(Seq<char>, bool)> {
    Seq::new(v.len(), |i: int| (v[i].0@, v[i].1))
}

/// The files of a directory offered, or the words of the buffers where there
/// is nothing to offer.
#[verifier::opaque]
pub open spec fn path_completed(
    e: EditorView,
    prefix: Seq<char>,
    entries: Seq<(Seq<char>, bool)>,
) -> EditorView {
    let items = as_items(entries_offered(entries, prefix, entries.len()));
    if e.panes.completion is Some || e.keys.mode != Mode::Insert {
        e
    } else if items.len() == 0 {
        words_offered(e)
    } else {
        with_menu(e, Some(menu(items, prefix, false, Seq::empty())))
    }
}

fn offer_entry(name: &str, dir: bool, prefix: &str) -> (r: Option<String>)
    ensures
        crate::strings::opt_text(r) == entry_offered((name@, dir), prefix@),
{
    let n = chars_of(name);
    let p = chars_of(prefix);
    if has_prefix(&n, ".") && !has_prefix(&p, ".") {
        return None;
    }
    let low = name.to_lowercase();
    let lc = chars_of(low.as_str());
    let plow = prefix.to_lowercase();
    if !has_prefix(&lc, plow.as_str()) || same(name, prefix) {
        return None;
    }
    let mut v = n;
    if dir {
        v.push('/');
    }
    Some(string_of(&v))
}

fn offer_entries(entries: &Vec<(String, bool)>, prefix: &str) -> (r: Vec<(String, String)>)
    ensures
        text_pairs(r@) == as_items(
            entries_offered(entry_views(entries@), prefix@, entries@.len()),
        ),
{
    let ghost all = entry_views(entries@);
    let mut names: Vec<String> = Vec::new();
    let mut i: usize = 0;
    assert(texts(names@) =~= Seq::empty());
    while i < entries.len()
        invariant
            i <= entries@.len(),
            all == entry_views(entries@),
            texts(names@) == entries_offered(all, prefix@, i as nat),
        decreases entries@.len() - i,
    {
        assert(all[i as int] == (entries@[i as int].0@, entries@[i as int].1));
        if let Some(name) = offer_entry(entries[i].0.as_str(), entries[i].1, prefix) {
            put_name(&mut names, name);
        }
        i += 1;
    }
    items_from(&names)
}

impl Editor {
    pub(crate) fn put_menu(&mut self, c: Option<Completion>)
        requires
            old(self).wf(),
            c matches Some(m) ==> m@.items.len() > 0,
        ensures
            final(self)@ == with_menu(old(self)@, completion_view(c)),
            final(self).wf(),
    {
        self.panes.completion = c;
    }

    fn front_prefix(&self) -> (r: String)
        requires
            self.wf(),
        ensures
            r@ == prefix_of(doc_of(self@)),
    {
        self.doc().word_prefix()
    }

    fn front_path(&self) -> (r: Option<(String, String)>)
        requires
            self.wf(),
        ensures
            match r {
                Some((d, p)) => path_asked(doc_of(self@)) == Some((d@, p@)),
                None => path_asked(doc_of(self@)) is None,
            },
    {
        self.doc().path_prefix()
    }

    fn offer_items(&mut self, items: Vec<(String, String)>, prefix: String)
        requires
            old(self).wf(),
            items@.len() > 0,
        ensures
            final(self)@ == with_menu(
                old(self)@,
                Some(menu(text_pairs(items@), prefix@, false, Seq::empty())),
            ),
            final(self).wf(),
    {
        let docs: Vec<(String, String)> = Vec::new();
        assert(text_pairs(docs@) =~= Seq::empty());
        let c = Completion { items, selected: 0, prefix, navigated: false, docs };
        self.put_menu(Some(c));
    }

    fn offer_words(&mut self)
        requires
            old(self).wf(),
        ensures
            final(self)@ == words_offered(old(self)@),
            final(self).wf(),
    {
        reveal(words_offered);
        let prefix = self.front_prefix();
        let pc = chars_of(prefix.as_str());
        if pc.len() < 2 {
            return ;
        }
        let items = self.buffer_words(prefix.as_str());
        assert(text_pairs(items@).len() == items@.len());
        if items.len() == 0 {
            return ;
        }
        self.offer_items(items, prefix);
    }

    /// Offer what is being typed.
    pub(crate) fn maybe_autocomplete(&mut self)
        requires
            old(self).wf(),
        ensures
            final(self)@ == autocompleted(old(self)@),
            final(self).wf(),
    {
        reveal(autocompleted);
        if self.panes.completion.is_some() || self.recorder.replaying() {
            return ;
        }
        if let Some((dir, prefix)) = self.front_path() {
            self.ask(Effect::CompletePath { dir, prefix });
            return ;
        }
        self.offer_words();
    }

    /// The entries of the directory being typed, each with whether it is a
    /// directory itself.
    pub fn complete_path(&mut self, prefix: &str, entries: &Vec<(String, bool)>)
        requires
            old(self).wf(),
        ensures
            final(self)@ == path_completed(old(self)@, prefix@, entry_views(entries@)),
            final(self).wf(),
    {
        reveal(path_completed);
        if self.panes.completion.is_some() || self.keys.mode != Mode::Insert {
            return ;
        }
        let items = offer_entries(entries, prefix);
        assert(text_pairs(items@).len() == items@.len());
        if items.len() == 0 {
            self.offer_words();
            return ;
        }
        self.offer_items(items, prefix.to_owned());
    }
}

} // verus!
