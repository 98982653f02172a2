//! The search prompt: what is shown while a pattern is typed, and what happens
//! when it is entered.

use vstd::prelude::*;
use crate::desk::doc_ok;
use crate::document::{min_int, true_to_edits, DocView, Document};
use crate::editor::{doc_of, on_doc, said, selection_kept, Editor, EditorView};
use crate::jumps::jump_pushed;
use crate::keymap::{Key, KeyCode};
use crate::moves::{say_selections, selections_text};
use crate::search::{find_next, keep_within, matches_of, next_match, within_upto};
use crate::selections::{kept, selections_of, sels_in, split_by_matches, with_selections};
use crate::state::{KeysView, LinesView, Mode, SelectPrompt};
use crate::strings::{chars_of, decimal, push_lit, push_number, string_of, with_text};
use crate::text::rope_len;

verus! {

// ---- one line of text -------------------------------------------------------------

pub open spec fn with_line(e: EditorView, text: Seq<char>) -> EditorView {
    EditorView { lines: LinesView { command_line: text, ..e.lines }, ..e }
}

pub open spec fn bare_mode(e: EditorView, mode: Mode) -> EditorView {
    EditorView { keys: KeysView { mode, ..e.keys }, ..e }
}

/// A key that stands for its character.
pub open spec fn plain_char(k: Key) -> Option<char> {
    match k.code {
        KeyCode::Char(c) => if k.ctrl || k.alt {
            None
        } else {
            Some(c)
        },
        _ => None,
    }
}

pub fn char_of_key(k: Key) -> (r: Option<char>)
    ensures
        r == plain_char(k),
{
    match k.code {
        KeyCode::Char(c) => if k.ctrl || k.alt {
            None
        } else {
            Some(c)
        },
        _ => None,
    }
}

pub fn without_last_char(s: &str) -> (r: Option<String>)
    ensures
        match r {
            Some(t) => s@.len() > 0 && t@ == s@.drop_last(),
            None => s@.len() == 0,
        },
{
    let mut v = chars_of(s);
    match v.pop() {
        Some(_) => {
            assert(v@ =~= s@.drop_last());
            Some(string_of(&v))
        },
        None => None,
    }
}

pub fn with_char(s: &str, c: char) -> (r: String)
    ensures
        r@ == s@.push(c),
{
    let mut v = chars_of(s);
    v.push(c);
    string_of(&v)
}

// ---- the selection while a pattern is typed ---------------------------------------

/// The primary selection put at a place, within the text.
#[verifier::opaque]
pub open spec fn selection_at(d: DocView, sel: (usize, usize)) -> DocView {
    let len = d.text.len() as int;
    DocView {
        anchor: min_int(sel.0 as int, len) as usize,
        cursor: min_int(sel.1 as int, len) as usize,
        ..d
    }
}

/// The first match from a place on, round the end.
#[verifier::opaque]
pub open spec fn match_from(d: DocView, pattern: Seq<char>, from: usize) -> Option<(usize, usize)> {
    next_match(matches_of(d.text, pattern), from)
}

pub open spec fn origin_restored(e: EditorView) -> EditorView {
    on_doc(e, selection_at(doc_of(e), e.keys.search_origin))
}

/// The first match from where the search began shown, as it is typed.
pub open spec fn previewed(e: EditorView) -> EditorView {
    if e.keys.search_select {
        e
    } else {
        match match_from(doc_of(e), e.lines.command_line, e.keys.search_origin.1) {
            Some(m) => on_doc(e, selection_at(doc_of(e), m)),
            None => origin_restored(e),
        }
    }
}

impl Document {
    pub(crate) fn put_selection(&mut self, sel: (usize, usize))
        requires
            doc_ok(old(self)@),
        ensures
            final(self)@ == selection_at(old(self)@, sel),
            doc_ok(final(self)@),
            true_to_edits(old(self)@) ==> true_to_edits(final(self)@),
    {
        reveal(selection_at);
        let len = rope_len(&self.text);
        self.anchor = if sel.0 <= len {
            sel.0
        } else {
            len
        };
        self.cursor = if sel.1 <= len {
            sel.1
        } else {
            len
        };
    }

    fn first_match(&self, pattern: &str, from: usize) -> (r: Option<(usize, usize)>)
        ensures
            r == match_from(self@, pattern@, from),
    {
        reveal(match_from);
        let all = crate::search::matches(&self.text, pattern);
        find_next(&all, from)
    }
}

impl Editor {
    pub(crate) fn restore_search_origin(&mut self)
        requires
            old(self).wf(),
        ensures
            final(self)@ == origin_restored(old(self)@),
            final(self).wf(),
    {
        let o = self.keys.search_origin;
        self.doc_mut().put_selection(o);
    }

    fn typed_match(&self) -> (r: Option<(usize, usize)>)
        requires
            self.wf(),
        ensures
            r == match_from(doc_of(self@), self@.lines.command_line, self@.keys.search_origin.1),
    {
        self.doc().first_match(self.lines.command_line.as_str(), self.keys.search_origin.1)
    }

    /// Show the first match of what is typed.
    pub(crate) fn update_search_preview(&mut self)
        requires
            old(self).wf(),
        ensures
            final(self)@ == previewed(old(self)@),
            final(self).wf(),
    {
        if self.keys.search_select {
            return ;
        }
        if let Some(m) = self.typed_match() {
            self.doc_mut().put_selection(m);
            return ;
        }
        self.restore_search_origin();
    }
}

// ---- every match ------------------------------------------------------------------

/// The matches in the primary selection, or in the whole text where nothing is
/// selected.
#[verifier::opaque]
pub open spec fn matches_in(d: DocView, pattern: Seq<char>) -> Seq<(usize, usize)> {
    let all = matches_of(d.text, pattern);
    if d.anchor == d.cursor {
        within_upto(all, 0, d.text.len() as usize, all.len())
    } else {
        within_upto(
            all,
            min_int(d.anchor as int, d.cursor as int) as usize,
            if d.anchor <= d.cursor {
                d.cursor
            } else {
                d.anchor
            },
            all.len(),
        )
    }
}

#[verifier::opaque]
pub open spec fn ranges_selected(d: DocView, v: Seq<(usize, usize)>) -> DocView {
    DocView { anchor: v[0].0, cursor: v[0].1, extra: v.skip(1), ..d }
}

#[verifier::opaque]
pub open spec fn matches_text(n: nat) -> Seq<char> {
    decimal(n) + " matches"@
}

/// A selection on every match.
pub open spec fn all_matches_selected(e: EditorView) -> EditorView {
    let d = doc_of(e);
    let v = matches_in(d, e.lines.last_search);
    if e.lines.last_search.len() == 0 {
        e
    } else if v.len() == 0 {
        said(origin_restored(e), "no match: "@ + e.lines.last_search)
    } else {
        said(on_doc(e, ranges_selected(d, v)), matches_text(v.len()))
    }
}

impl Document {
    fn find_matches_in(&self, pattern: &str) -> (r: Vec<(usize, usize)>)
        requires
            doc_ok(self@),
        ensures
            r@ == matches_in(self@, pattern@),
            sels_in(r@, self@.text.len() as int),
    {
        reveal(matches_in);
        let all = crate::search::matches(&self.text, pattern);
        let (from, to) = if self.anchor == self.cursor {
            (0, rope_len(&self.text))
        } else if self.anchor <= self.cursor {
            (self.anchor, self.cursor)
        } else {
            (self.cursor, self.anchor)
        };
        let r = keep_within(&all, from, to);
        assert forall|k: int| 0 <= k < r@.len() implies (#[trigger] r@[k]).0 <= self@.text.len()
            && r@[k].1 <= self@.text.len() by {
            assert(all@.contains(r@[k]));
        }
        r
    }

    fn select_ranges(&mut self, v: &Vec<(usize, usize)>)
        requires
            doc_ok(old(self)@),
            v@.len() > 0,
            sels_in(v@, old(self)@.text.len() as int),
        ensures
            final(self)@ == ranges_selected(old(self)@, v@),
            doc_ok(final(self)@),
    {
        reveal(ranges_selected);
        let ghost d = self@;
        let mut rest: Vec<(usize, usize)> = Vec::new();
        let mut i: usize = 1;
        while i < v.len()
            invariant
                1 <= i <= v@.len(),
                sels_in(v@, d.text.len() as int),
                rest@ == v@.subrange(1, i as int),
            decreases v@.len() - i,
        {
            let s = v[i];
            rest.push(s);
            assert(rest@ =~= v@.subrange(1, i + 1));
            i += 1;
        }
        assert(v@.subrange(1, v@.len() as int) =~= v@.skip(1));
        self.anchor = v[0].0;
        self.cursor = v[0].1;
        self.extra = rest;
        assert(self@.extra == v@.skip(1));
        assert forall|k: int| 0 <= k < self@.extra.len() implies (#[trigger] self@.extra[k]).0
            <= self@.text.len() && self@.extra[k].1 <= self@.text.len() by {
            assert(self@.extra[k] == v@[k + 1]);
        }
    }
}

fn say_matches(n: usize) -> (r: String)
    ensures
        r@ == matches_text(n as nat),
{
    reveal(matches_text);
    let mut v: Vec<char> = Vec::new();
    push_number(&mut v, n as u64);
    push_lit(&mut v, " matches");
    assert(v@ =~= matches_text(n as nat));
    string_of(&v)
}

impl Editor {
    fn find_all_matches(&self) -> (r: Vec<(usize, usize)>)
        requires
            self.wf(),
        ensures
            r@ == matches_in(doc_of(self@), self@.lines.last_search),
            sels_in(r@, doc_of(self@).text.len() as int),
    {
        self.doc().find_matches_in(self.lines.last_search.as_str())
    }

    fn searched(&self) -> (r: String)
        ensures
            r@ == self@.lines.last_search,
    {
        self.lines.last_search.as_str().to_owned()
    }

    /// Select every match of the last search.
    pub(crate) fn select_all_matches(&mut self)
        requires
            old(self).wf(),
        ensures
            final(self)@ == all_matches_selected(old(self)@),
            final(self).wf(),
    {
        let pattern = self.searched();
        if pattern.as_str().is_empty() {
            return ;
        }
        let v = self.find_all_matches();
        if v.len() == 0 {
            self.restore_search_origin();
            let m = with_text("no match: ", pattern.as_str());
            self.set_status(m.as_str());
            return ;
        }
        let m = say_matches(v.len());
        self.doc_mut().select_ranges(&v);
        self.set_status(m.as_str());
    }
}

// ---- a pattern for the selections -------------------------------------------------

/// The selections that a pattern leaves.
#[verifier::opaque]
pub open spec fn selections_left(d: DocView, kind: SelectPrompt, pattern: Seq<char>) -> Seq<
    (usize, usize),
> {
    let ms = matches_of(d.text, pattern);
    let sels = selections_of(d);
    match kind {
        SelectPrompt::Split => split_by_matches(ms, sels, sels.len()),
        SelectPrompt::Keep => kept(ms, sels, true, sels.len()),
        SelectPrompt::Remove => kept(ms, sels, false, sels.len()),
    }
}

#[verifier::opaque]
pub open spec fn nothing_left_text(kind: SelectPrompt, pattern: Seq<char>) -> Seq<char> {
    match kind {
        SelectPrompt::Split => "nothing left after splitting"@,
        SelectPrompt::Keep => "no selection matches "@ + pattern,
        SelectPrompt::Remove => "every selection matches "@ + pattern,
    }
}

#[verifier::opaque]
pub open spec fn selections_set(d: DocView, v: Seq<(usize, usize)>) -> DocView {
    with_selections(d, v, 0)
}

/// A pattern applied to the selections.
pub open spec fn select_prompt_applied(
    e: EditorView,
    kind: SelectPrompt,
    pattern: Seq<char>,
) -> EditorView {
    let v = selections_left(doc_of(e), kind, pattern);
    if pattern.len() == 0 {
        e
    } else if v.len() == 0 {
        selection_kept(said(e, nothing_left_text(kind, pattern)))
    } else {
        said(
            selection_kept(on_doc(e, selections_set(doc_of(e), v))),
            selections_text(v.len(), true),
        )
    }
}

impl Document {
    fn leave_selections(&self, kind: SelectPrompt, pattern: &str) -> (r: Vec<(usize, usize)>)
        requires
            doc_ok(self@),
        ensures
            r@ == selections_left(self@, kind, pattern@),
            sels_in(r@, self@.text.len() as int),
    {
        reveal(selections_left);
        let ms = crate::search::matches(&self.text, pattern);
        match kind {
            SelectPrompt::Split => self.split_matches(&ms),
            SelectPrompt::Keep => self.keep_matching(&ms, true),
            SelectPrompt::Remove => self.keep_matching(&ms, false),
        }
    }

    fn put_selections(&mut self, v: Vec<(usize, usize)>)
        requires
            doc_ok(old(self)@),
            sels_in(v@, old(self)@.text.len() as int),
        ensures
            final(self)@ == selections_set(old(self)@, v@),
            doc_ok(final(self)@),
    {
        reveal(selections_set);
        self.set_selections(v, 0);
    }
}

fn say_nothing_left(kind: SelectPrompt, pattern: &str) -> (r: String)
    ensures
        r@ == nothing_left_text(kind, pattern@),
{
    reveal(nothing_left_text);
    match kind {
        SelectPrompt::Split => "nothing left after splitting".to_owned(),
        SelectPrompt::Keep => with_text("no selection matches ", pattern),
        SelectPrompt::Remove => with_text("every selection matches ", pattern),
    }
}

impl Editor {
    fn find_left(&self, kind: SelectPrompt, pattern: &str) -> (r: Vec<(usize, usize)>)
        requires
            self.wf(),
        ensures
            r@ == selections_left(doc_of(self@), kind, pattern@),
            sels_in(r@, doc_of(self@).text.len() as int),
    {
        self.doc().leave_selections(kind, pattern)
    }

    /// Apply a pattern to the selections.
    pub(crate) fn apply_select_prompt(&mut self, kind: SelectPrompt, pattern: &str)
        requires
            old(self).wf(),
        ensures
            final(self)@ == select_prompt_applied(old(self)@, kind, pattern@),
            final(self).wf(),
    {
        if pattern.is_empty() {
            return ;
        }
        let v = self.find_left(kind, pattern);
        if v.len() == 0 {
            let m = say_nothing_left(kind, pattern);
            self.set_status(m.as_str());
            self.keep();
            return ;
        }
        let m = say_selections(v.len(), true);
        self.doc_mut().put_selections(v);
        self.keep();
        self.set_status(m.as_str());
    }
}

// ---- the keys of the prompt -------------------------------------------------------

pub open spec fn select_prompt_dropped(e: EditorView) -> EditorView {
    EditorView { keys: KeysView { select_prompt: None, ..e.keys }, ..e }
}

/// The prompt given up.
pub open spec fn search_left(e: EditorView) -> EditorView {
    bare_mode(origin_restored(select_prompt_dropped(e)), Mode::Normal)
}

/// Whether the search has moved the selection.
pub open spec fn moved_off(e: EditorView) -> bool {
    (doc_of(e).anchor, doc_of(e).cursor) != e.keys.search_origin
}

/// A pattern as the last search; an empty one leaves that.
#[verifier::opaque]
pub open spec fn search_named(e: EditorView, query: Seq<char>) -> EditorView {
    if query.len() == 0 {
        e
    } else {
        EditorView { lines: LinesView { last_search: query, ..e.lines }, ..e }
    }
}

/// A search over: on every match, or on the one shown, with the place it left
/// noted as a jump.
#[verifier::opaque]
pub open spec fn search_settled(e: EditorView) -> EditorView {
    if e.keys.search_select {
        all_matches_selected(e)
    } else if moved_off(e) {
        EditorView {
            jumps: jump_pushed(e.jumps, (e.desk.current, e.keys.search_origin.1)),
            ..e
        }
    } else {
        e
    }
}

/// The pattern that was typed taken.
pub open spec fn search_entered(e: EditorView) -> EditorView {
    let query = e.lines.command_line;
    let n = bare_mode(with_line(e, Seq::empty()), Mode::Normal);
    match e.keys.select_prompt {
        Some(kind) => select_prompt_applied(
            origin_restored(select_prompt_dropped(n)),
            kind,
            query,
        ),
        None => search_settled(search_named(n, query)),
    }
}

/// A key of the search prompt.
#[verifier::opaque]
pub open spec fn search_keyed(e: EditorView, key: Key) -> EditorView {
    match key.code {
        KeyCode::Esc => search_left(with_line(e, Seq::empty())),
        KeyCode::Enter => search_entered(e),
        KeyCode::Backspace => if e.lines.command_line.len() == 0 {
            search_left(e)
        } else {
            previewed(with_line(e, e.lines.command_line.drop_last()))
        },
        _ => match plain_char(key) {
            Some(c) => previewed(with_line(e, e.lines.command_line.push(c))),
            None => e,
        },
    }
}

impl Editor {
    fn drop_select_prompt(&mut self)
        requires
            old(self).wf(),
        ensures
            final(self)@ == select_prompt_dropped(old(self)@),
            final(self).wf(),
    {
        self.keys.select_prompt = None;
    }

    fn leave_search(&mut self)
        requires
            old(self).wf(),
        ensures
            final(self)@ == search_left(old(self)@),
            final(self).wf(),
    {
        self.drop_select_prompt();
        self.restore_search_origin();
        self.set_bare_mode(Mode::Normal);
    }

    pub(crate) fn clear_line(&mut self)
        requires
            old(self).wf(),
        ensures
            final(self)@ == with_line(old(self)@, Seq::empty()),
            final(self).wf(),
    {
        let blank = String::new();
        assert(blank@ =~= Seq::empty());
        self.set_line(blank);
    }

    pub(crate) fn line(&self) -> (r: String)
        ensures
            r@ == self@.lines.command_line,
    {
        self.lines.command_line.as_str().to_owned()
    }

    fn has_moved_off(&self) -> (r: bool)
        requires
            self.wf(),
        ensures
            r == moved_off(self@),
    {
        let d = self.doc();
        d.anchor != self.keys.search_origin.0 || d.cursor != self.keys.search_origin.1
    }

    fn push_origin(&mut self)
        requires
            old(self).wf(),
        ensures
            final(self)@ == (EditorView {
                jumps: jump_pushed(
                    old(self)@.jumps,
                    (old(self)@.desk.current, old(self)@.keys.search_origin.1),
                ),
                ..old(self)@
            }),
            final(self).wf(),
    {
        let p = (self.desk.current, self.keys.search_origin.1);
        self.jumps.push(p);
    }

    fn enter_search(&mut self)
        requires
            old(self).wf(),
        ensures
            final(self)@ == search_entered(old(self)@),
            final(self).wf(),
    {
        let query = self.line();
        let kind = self.keys.select_prompt;
        self.clear_line();
        self.set_bare_mode(Mode::Normal);
        if let Some(kind) = kind {
            self.drop_select_prompt();
            self.restore_search_origin();
            self.apply_select_prompt(kind, query.as_str());
            return ;
        }
        self.name_search(query);
        self.settle_search();
    }

    fn name_search(&mut self, query: String)
        requires
            old(self).wf(),
        ensures
            final(self)@ == search_named(old(self)@, query@),
            final(self).wf(),
    {
        reveal(search_named);
        if !query.as_str().is_empty() {
            self.set_search(query);
        }
    }

    fn settle_search(&mut self)
        requires
            old(self).wf(),
        ensures
            final(self)@ == search_settled(old(self)@),
            final(self).wf(),
    {
        reveal(search_settled);
        if self.keys.search_select {
            self.select_all_matches();
            return ;
        }
        if self.has_moved_off() {
            self.push_origin();
        }
    }

    /// A key while a pattern is typed.
    pub(crate) fn handle_search_key(&mut self, key: Key)
        requires
            old(self).wf(),
        ensures
            final(self)@ == search_keyed(old(self)@, key),
            final(self).wf(),
    {
        reveal(search_keyed);
        match key.code {
            KeyCode::Esc => {
                self.clear_line();
                self.leave_search();
                return ;
            },
            KeyCode::Enter => {
                self.enter_search();
                return ;
            },
            KeyCode::Backspace => {
                match without_last_char(self.line().as_str()) {
                    None => {
                        self.leave_search();
                        return ;
                    },
                    Some(t) => {
                        self.set_line(t);
                        self.update_search_preview();
                        return ;
                    },
                }
            },
            _ => {},
        }
        if let Some(c) = char_of_key(key) {
            let t = with_char(self.line().as_str(), c);
            self.set_line(t);
            self.update_search_preview();
        }
    }
}

} // verus!
