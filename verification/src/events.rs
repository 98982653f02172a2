//! What the language servers answer, shown.

use serde_json::Value;
use vstd::prelude::*;
use crate::completion::{menu, prefix_of, with_menu, MOST_OFFERED};
use crate::desk::doc_ok;
use crate::document::{
    clamped, cursor_line, line_count, min_int, placed, true_to_edits, DocView, Document,
};
use crate::editor::{doc_of, on_doc, said, Editor, EditorView};
use crate::files::{doc_at, on_doc_at};
use crate::input::hover_at;
use crate::json::{at, jsons, Json};
use crate::lsp_parse::{
    diagnostic_views, location_views, triple_views, Diagnostic, DiagnosticView, Location,
    LocationView,
};
use crate::moves::jump_noted;
use crate::picker::{new_picker, picker_opened};
use crate::picker_keys::jumping;
use crate::position::{utf16_char, utf16_to_char};
use crate::state::{
    file_diagnostics, item_views, Completion, Item, Mode, Picker, PickerKind, PickerKindView,
    ServersView,
};
use crate::strings::{
    chars_of, decimal, has_prefix, lines, lines_of, lowercase, push_lit, push_number, same, slices,
    starts_with, string_of, text_pairs, texts, trim, trimmed, with_text,
};
use crate::text::{line_start, line_text};
use crate::typing::docs_asked;
use crate::view::push_after;
use crate::workspace::{server_edited, server_edits};

verus! {

// ---- hover ------------------------------------------------------------------------

pub open spec fn first_of(v: Seq<Seq<char>>) -> Seq<char> {
    if v.len() > 0 {
        v[0]
    } else {
        Seq::empty()
    }
}

/// Documentation shown in a popup, or its first line on the status line where
/// one is not in normal mode.
#[verifier::opaque]
pub open spec fn hover_shown(e: EditorView, text: Seq<char>) -> EditorView {
    if e.keys.mode != Mode::Normal {
        said(e, first_of(lines(text)))
    } else {
        hover_at(e, Some((lines(text), 0)))
    }
}

fn own_lines(text: &str) -> (r: Vec<String>)
    ensures
        texts(r@) == lines(text@),
        texts(r@).len() == r@.len(),
{
    let v = chars_of(text);
    let all = lines_of(&v);
    let ghost views = lines(text@);
    let mut out: Vec<String> = Vec::new();
    let mut i: usize = 0;
    assert(texts(out@) =~= Seq::empty());
    assert(views.take(0) =~= Seq::empty());
    while i < all.len()
        invariant
            i <= all@.len(),
            slices(all@) == views,
            texts(out@) == views.take(i as int),
        decreases all@.len() - i,
    {
        let ghost had = out@;
        assert(views[i as int] == all@[i as int]@);
        let s = string_of(all[i]);
        out.push(s);
        assert(texts(out@) =~= texts(had).push(views[i as int]));
        assert(texts(out@) =~= views.take(i + 1));
        i += 1;
    }
    assert(views.take(views.len() as int) =~= views);
    out
}

impl Editor {
    /// Show documentation.
    pub fn open_hover(&mut self, text: &str)
        requires
            old(self).wf(),
        ensures
            final(self)@ == hover_shown(old(self)@, text@),
            final(self).wf(),
    {
        reveal(hover_shown);
        let v = own_lines(text);
        let ghost views = lines(text@);
        if self.keys.mode != Mode::Normal {
            if v.len() > 0 {
                assert(views[0] == v@[0]@);
                self.set_status(v[0].as_str());
                return ;
            }
            self.clear_status();
            return ;
        }
        self.set_hover(Some((v, 0)));
    }
}

// ---- completions ------------------------------------------------------------------

/// The first `n` completions that begin with what is typed.
pub open spec fn fitting(
    v: Seq<(Seq<char>, Seq<char>, Seq<char>)>,
    low: Seq<char>,
    n: nat,
) -> Seq<(Seq<char>, Seq<char>)>
    decreases n,
{
    if n == 0 || n > v.len() {
        Seq::empty()
    } else if starts_with(lowercase(v[n - 1].0), low) {
        fitting(v, low, (n - 1) as nat).push((v[n - 1].0, v[n - 1].1))
    } else {
        fitting(v, low, (n - 1) as nat)
    }
}

/// The documentation that came with those.
pub open spec fn fitting_docs(
    v: Seq<(Seq<char>, Seq<char>, Seq<char>)>,
    low: Seq<char>,
    n: nat,
) -> Seq<(Seq<char>, Seq<char>)>
    decreases n,
{
    if n == 0 || n > v.len() {
        Seq::empty()
    } else if starts_with(lowercase(v[n - 1].0), low) && v[n - 1].2.len() > 0 {
        fitting_docs(v, low, (n - 1) as nat).push((v[n - 1].0, v[n - 1].2))
    } else {
        fitting_docs(v, low, (n - 1) as nat)
    }
}

pub open spec fn first_fifty(v: Seq<(Seq<char>, Seq<char>)>) -> Seq<(Seq<char>, Seq<char>)> {
    v.take(min_int(v.len() as int, MOST_OFFERED as int))
}

/// A server's completions shown. Those that were asked for while typing leave
/// an open menu alone where they no longer fit, and say nothing.
#[verifier::opaque]
pub open spec fn completions_shown(
    e: EditorView,
    v: Seq<(Seq<char>, Seq<char>, Seq<char>)>,
    typed: bool,
) -> EditorView {
    let prefix = prefix_of(doc_of(e));
    let low = lowercase(prefix);
    let items = first_fifty(fitting(v, low, v.len()));
    if e.keys.mode != Mode::Insert {
        e
    } else if items.len() == 0 {
        if typed {
            e
        } else {
            with_menu(said(e, "no completions"@), None)
        }
    } else {
        docs_asked(
            with_menu(e, Some(menu(items, prefix, !typed, fitting_docs(v, low, v.len())))),
        )
    }
}

fn keep_fitting(v: &Vec<(String, String, String)>, low: &str) -> (r: (
    Vec<(String, String)>,
    Vec<(String, String)>,
))
    ensures
        text_pairs(r.0@) == first_fifty(fitting(triple_views(v@), low@, v@.len())),
        text_pairs(r.0@).len() == r.0@.len(),
        text_pairs(r.1@) == fitting_docs(triple_views(v@), low@, v@.len()),
{
    let ghost all = triple_views(v@);
    let mut items: Vec<(String, String)> = Vec::new();
    let mut docs: Vec<(String, String)> = Vec::new();
    let mut i: usize = 0;
    assert(text_pairs(items@) =~= Seq::empty());
    assert(text_pairs(docs@) =~= Seq::empty());
    while i < v.len()
        invariant
            i <= v@.len(),
            all == triple_views(v@),
            text_pairs(items@) == fitting(all, low@, i as nat),
            text_pairs(docs@) == fitting_docs(all, low@, i as nat),
        decreases v@.len() - i,
    {
        assert(all[i as int] == (v@[i as int].0@, v@[i as int].1@, v@[i as int].2@));
        let l = v[i].0.as_str().to_lowercase();
        let lc = chars_of(l.as_str());
        if has_prefix(&lc, low) {
            let ghost had = items@;
            let a = v[i].0.as_str().to_owned();
            let b = v[i].1.as_str().to_owned();
            items.push((a, b));
            assert(text_pairs(items@) =~= text_pairs(had).push((all[i as int].0, all[i as int].1)));
            if !v[i].2.as_str().is_empty() {
                let ghost had = docs@;
                let a = v[i].0.as_str().to_owned();
                let b = v[i].2.as_str().to_owned();
                docs.push((a, b));
                assert(text_pairs(docs@) =~= text_pairs(had).push(
                    (all[i as int].0, all[i as int].2),
                ));
            }
        }
        i += 1;
    }
    let ghost full = text_pairs(items@);
    assert(full.take(full.len() as int) =~= full);
    while items.len() > MOST_OFFERED
        invariant
            items@.len() <= full.len(),
            full.len() > MOST_OFFERED ==> items@.len() >= MOST_OFFERED,
            full.len() <= MOST_OFFERED ==> items@.len() == full.len(),
            text_pairs(items@) == full.take(items@.len() as int),
        decreases items@.len(),
    {
        let ghost had = items@;
        let _last = items.pop();
        assert(text_pairs(items@) =~= text_pairs(had).take(items@.len() as int));
        assert(text_pairs(items@) =~= full.take(items@.len() as int));
    }
    (items, docs)
}

impl Editor {
    fn typed_prefix(&self) -> (r: String)
        requires
            self.wf(),
        ensures
            r@ == prefix_of(doc_of(self@)),
    {
        self.doc().word_prefix()
    }

    /// Show a server's completions, each a label, a text and documentation;
    /// `typed` where they were asked for while a name was typed.
    pub fn show_completions(&mut self, v: Vec<(String, String, String)>, typed: bool)
        requires
            old(self).wf(),
        ensures
            final(self)@ == completions_shown(old(self)@, triple_views(v@), typed),
            final(self).wf(),
    {
        reveal(completions_shown);
        if self.keys.mode != Mode::Insert {
            return ;
        }
        let prefix = self.typed_prefix();
        let low = prefix.as_str().to_lowercase();
        let (items, docs) = keep_fitting(&v, low.as_str());
        if items.len() == 0 {
            if typed {
                return ;
            }
            self.set_status("no completions");
            self.put_menu(None);
            return ;
        }
        let c = Completion { items, selected: 0, prefix, navigated: !typed, docs };
        self.put_menu(Some(c));
        self.maybe_resolve_completion();
    }
}

// ---- places -----------------------------------------------------------------------

#[verifier::opaque]
pub open spec fn references_title(n: nat) -> Seq<char> {
    "references ("@ + decimal(n) + ")"@
}

/// The references shown: gone to where there is one, picked from where there
/// are more. `items` are the rows to pick from.
#[verifier::opaque]
pub open spec fn references_shown(
    e: EditorView,
    locs: Seq<LocationView>,
    items: Seq<(Seq<char>, Seq<char>)>,
) -> EditorView {
    if locs.len() == 0 {
        said(e, "no references found"@)
    } else if locs.len() == 1 {
        jumping(e, locs[0].path, locs[0].line, locs[0].col)
    } else {
        picker_opened(
            e,
            new_picker(
                references_title(locs.len()),
                PickerKindView::Locations { locs },
                items,
            ),
        )
    }
}

/// A row for a place: its file and line, and the text of that line.
pub fn location_item(path: &str, line: usize, text: &str) -> (r: Item)
    ensures
        r.label@ == path@ + ":"@ + decimal((line as int + 1) as nat),
        r.detail@ == trim(text@),
{
    let mut v = chars_of(path);
    push_lit(&mut v, ":");
    push_after(&mut v, line);
    assert(v@ =~= path@ + ":"@ + decimal((line as int + 1) as nat));
    let t = chars_of(text);
    let d = string_of(trimmed(&t));
    Item { label: string_of(&v), detail: d }
}

fn say_references(n: usize) -> (r: String)
    ensures
        r@ == references_title(n as nat),
{
    reveal(references_title);
    let mut v: Vec<char> = Vec::new();
    push_lit(&mut v, "references (");
    push_number(&mut v, n as u64);
    push_lit(&mut v, ")");
    assert(v@ =~= references_title(n as nat));
    string_of(&v)
}

impl Editor {
    /// Show references; `items` are the rows to pick from.
    pub fn show_references(&mut self, locs: Vec<Location>, items: Vec<Item>)
        requires
            old(self).wf(),
        ensures
            final(self)@ == references_shown(
                old(self)@,
                location_views(locs@),
                item_views(items@),
            ),
            final(self).wf(),
    {
        reveal(references_shown);
        if locs.len() == 0 {
            self.set_status("no references found");
            return ;
        }
        if locs.len() == 1 {
            let path = locs[0].path.as_str().to_owned();
            let line = locs[0].line;
            let col = locs[0].col;
            self.ask_jump(path, line, col);
            return ;
        }
        let title = say_references(locs.len());
        let p = Picker::new(title, PickerKind::Locations { locs }, items);
        self.open_picker(p);
    }
}

// ---- diagnostics ------------------------------------------------------------------

/// Where the diagnostics of a file are kept.
pub open spec fn diagnostics_place(
    v: Seq<(Seq<char>, Seq<DiagnosticView>)>,
    path: Seq<char>,
    i: int,
) -> Option<int>
    decreases v.len() - i,
{
    if i < 0 || i >= v.len() {
        None
    } else if v[i].0 == path {
        Some(i)
    } else {
        diagnostics_place(v, path, i + 1)
    }
}

/// The diagnostics of a file in place of those it had.
#[verifier::opaque]
pub open spec fn diagnostics_set(
    v: Seq<(Seq<char>, Seq<DiagnosticView>)>,
    path: Seq<char>,
    ds: Seq<DiagnosticView>,
) -> Seq<(Seq<char>, Seq<DiagnosticView>)> {
    match diagnostics_place(v, path, 0) {
        Some(i) => v.update(i, (path, ds)),
        None => v.push((path, ds)),
    }
}

fn find_diagnostics(v: &Vec<(String, Vec<Diagnostic>)>, path: &str) -> (r: Option<usize>)
    ensures
        match r {
            Some(i) => diagnostics_place(file_diagnostics(v@), path@, 0) == Some(i as int) && i
                < v@.len(),
            None => diagnostics_place(file_diagnostics(v@), path@, 0) is None,
        },
{
    let ghost all = file_diagnostics(v@);
    let mut i: usize = 0;
    while i < v.len()
        invariant
            i <= v@.len(),
            all == file_diagnostics(v@),
            diagnostics_place(all, path@, 0) == diagnostics_place(all, path@, i as int),
        decreases v@.len() - i,
    {
        assert(all[i as int].0 == v@[i as int].0@);
        if same(v[i].0.as_str(), path) {
            return Some(i);
        }
        i += 1;
    }
    None
}

impl Editor {
    /// Keep the diagnostics of a file.
    pub fn set_diagnostics(&mut self, path: String, ds: Vec<Diagnostic>)
        requires
            old(self).wf(),
        ensures
            final(self)@ == (EditorView {
                servers: ServersView {
                    diagnostics: diagnostics_set(
                        old(self)@.servers.diagnostics,
                        path@,
                        diagnostic_views(ds@),
                    ),
                    ..old(self)@.servers
                },
                ..old(self)@
            }),
            final(self).wf(),
    {
        reveal(diagnostics_set);
        let ghost had = self.servers.diagnostics@;
        let ghost entry = (path@, diagnostic_views(ds@));
        match find_diagnostics(&self.servers.diagnostics, path.as_str()) {
            Some(i) => {
                self.servers.diagnostics.set(i, (path, ds));
                assert(file_diagnostics(self.servers.diagnostics@) =~= file_diagnostics(had).update(
                    i as int,
                    entry,
                ));
            },
            None => {
                self.servers.diagnostics.push((path, ds));
                assert(file_diagnostics(self.servers.diagnostics@) =~= file_diagnostics(had).push(
                    entry,
                ));
            },
        }
    }
}

/// A diagnostic's place in a document: its line and its column by characters.
pub open spec fn diagnostic_place(d: DocView, x: DiagnosticView) -> (int, int) {
    (x.line as int, utf16_char(line_text(d.text, x.line as int), x.col as int))
}

pub open spec fn place_before(a: (int, int), b: (int, int)) -> bool {
    a.0 < b.0 || (a.0 == b.0 && a.1 < b.1)
}

/// The best of the first `n` diagnostics in a direction from a place: the
/// nearest one behind it, or before it.
pub open spec fn nearest(
    d: DocView,
    v: Seq<DiagnosticView>,
    here: (int, int),
    forward: bool,
    n: nat,
) -> Option<int>
    decreases n,
{
    if n == 0 || n > v.len() {
        None
    } else {
        let best = nearest(d, v, here, forward, (n - 1) as nat);
        let p = diagnostic_place(d, v[n - 1]);
        let fits = v[n - 1].line < line_count(d.text) && (if forward {
            place_before(here, p)
        } else {
            place_before(p, here)
        });
        if !fits {
            best
        } else {
            match best {
                None => Some(n - 1),
                Some(b) => {
                    let q = diagnostic_place(d, v[b]);
                    if (forward && place_before(p, q)) || (!forward && !place_before(p, q)) {
                        Some(n - 1)
                    } else {
                        best
                    }
                },
            }
        }
    }
}

/// The diagnostic that a step goes to, round the end.
#[verifier::opaque]
pub open spec fn diagnostic_stepped(d: DocView, v: Seq<DiagnosticView>, forward: bool) -> Option<
    int,
> {
    let line = cursor_line(d.text, d.cursor as int);
    let here = (line, d.cursor - line_start(d.text, line));
    match nearest(d, v, here, forward, v.len()) {
        Some(i) => Some(i),
        None => nearest(
            d,
            v,
            if forward {
                (-1, 0)
            } else {
                (line_count(d.text), 0)
            },
            forward,
            v.len(),
        ),
    }
}

#[verifier::opaque]
pub open spec fn on_diagnostic(d: DocView, x: DiagnosticView) -> DocView {
    let p = diagnostic_place(d, x);
    let at = line_start(d.text, p.0) + p.1;
    DocView {
        cursor: clamped(d.text, at, false) as usize,
        anchor: at as usize,
        goal_col: None,
        ..d
    }
}

/// The diagnostics of a file.
pub open spec fn diagnostics_of(v: Seq<(Seq<char>, Seq<DiagnosticView>)>, path: Seq<char>) -> Seq<
    DiagnosticView,
> {
    match diagnostics_place(v, path, 0) {
        Some(i) => v[i].1,
        None => Seq::empty(),
    }
}

/// The next diagnostic of the buffer in front, or the one before. `path` is
/// the file by the name that the servers use.
#[verifier::opaque]
pub open spec fn diagnostic_gone_to(e: EditorView, path: Seq<char>, forward: bool) -> EditorView {
    let v = diagnostics_of(e.servers.diagnostics, path);
    match diagnostic_stepped(doc_of(e), v, forward) {
        None => said(e, "no diagnostics in this buffer"@),
        Some(i) => said(
            on_doc(jump_noted(e), on_diagnostic(doc_of(e), v[i])),
            "● "@ + v[i].message,
        ),
    }
}

impl Document {
    fn place_of_diagnostic(&self, x: &Diagnostic) -> (r: (usize, usize))
        requires
            x@.line < line_count(self@.text),
        ensures
            (r.0 as int, r.1 as int) == diagnostic_place(self@, x@),
            r.0 == x@.line,
            r.1 <= line_text(self@.text, x@.line as int).len(),
    {
        let l = self.line(x.line);
        (x.line, utf16_to_char(l.as_slice(), x.col))
    }

    fn find_nearest(&self, v: &Vec<Diagnostic>, here: (i128, i128), forward: bool) -> (r: Option<
        usize,
    >)
        ensures
            match r {
                Some(i) => nearest(
                    self@,
                    diagnostic_views(v@),
                    (here.0 as int, here.1 as int),
                    forward,
                    v@.len(),
                ) == Some(i as int) && i < v@.len() && v@[i as int]@.line < line_count(self@.text),
                None => nearest(
                    self@,
                    diagnostic_views(v@),
                    (here.0 as int, here.1 as int),
                    forward,
                    v@.len(),
                ) is None,
            },
    {
        let ghost all = diagnostic_views(v@);
        let ghost h = (here.0 as int, here.1 as int);
        let count = self.line_count();
        let mut best: Option<usize> = None;
        let mut n: usize = 0;
        while n < v.len()
            invariant
                n <= v@.len(),
                all == diagnostic_views(v@),
                h == (here.0 as int, here.1 as int),
                count == line_count(self@.text),
                match best {
                    Some(i) => nearest(self@, all, h, forward, n as nat) == Some(i as int) && i
                        < v@.len() && v@[i as int]@.line < count,
                    None => nearest(self@, all, h, forward, n as nat) is None,
                },
            decreases v@.len() - n,
        {
            assert(all[n as int] == v@[n as int]@);
            if v[n].line < count {
                let (pl, pc) = self.place_of_diagnostic(&v[n]);
                let p: (i128, i128) = (pl as i128, pc as i128);
                let fits = if forward {
                    here.0 < p.0 || (here.0 == p.0 && here.1 < p.1)
                } else {
                    p.0 < here.0 || (p.0 == here.0 && p.1 < here.1)
                };
                if fits {
                    match best {
                        None => {
                            best = Some(n);
                        },
                        Some(b) => {
                            assert(all[b as int] == v@[b as int]@);
                            let (ql, qc) = self.place_of_diagnostic(&v[b]);
                            let before = pl < ql || (pl == ql && pc < qc);
                            if (forward && before) || (!forward && !before) {
                                best = Some(n);
                            }
                        },
                    }
                }
            }
            n += 1;
        }
        best
    }

    fn step_diagnostic(&self, v: &Vec<Diagnostic>, forward: bool) -> (r: Option<usize>)
        ensures
            match r {
                Some(i) => diagnostic_stepped(self@, diagnostic_views(v@), forward) == Some(
                    i as int,
                ) && i < v@.len() && v@[i as int]@.line < line_count(self@.text),
                None => diagnostic_stepped(self@, diagnostic_views(v@), forward) is None,
            },
    {
        reveal(diagnostic_stepped);
        let (line, col) = self.cursor_line_col();
        match self.find_nearest(v, (line as i128, col as i128), forward) {
            Some(i) => Some(i),
            None => {
                let end: i128 = self.line_count() as i128;
                self.find_nearest(
                    v,
                    if forward {
                        (-1, 0)
                    } else {
                        (end, 0)
                    },
                    forward,
                )
            },
        }
    }

    fn go_to_diagnostic(&mut self, x: &Diagnostic)
        requires
            doc_ok(old(self)@),
            x@.line < line_count(old(self)@.text),
        ensures
            final(self)@ == on_diagnostic(old(self)@, x@),
            doc_ok(final(self)@),
    {
        reveal(on_diagnostic);
        let ghost d = self@;
        let (l, c) = self.place_of_diagnostic(x);
        proof {
            crate::document::lemma_line_count(self@.text);
            crate::document::lemma_line_parts(self@.text, l as int);
        }
        let len = crate::text::rope_len(&self.text);
        let at = self.line_start(l) + c;
        self.cursor = at;
        self.anchor = at;
        self.goal_col = None;
        assert(self@.extra == d.extra);
        assert(placed(self@));
        self.clamp_cursor(false);
        assert(self@.extra == d.extra);
    }
}

impl Editor {
    pub(crate) fn take_diagnostics(&self, path: &str) -> (r: Option<&Vec<Diagnostic>>)
        ensures
            match r {
                Some(v) => diagnostics_of(self@.servers.diagnostics, path@) == diagnostic_views(
                    v@,
                ),
                None => diagnostics_of(self@.servers.diagnostics, path@).len() == 0,
            },
    {
        match find_diagnostics(&self.servers.diagnostics, path) {
            Some(i) => {
                assert(file_diagnostics(self.servers.diagnostics@)[i as int].1
                    == diagnostic_views(self.servers.diagnostics@[i as int].1@));
                Some(&self.servers.diagnostics[i].1)
            },
            None => None,
        }
    }

    fn find_step(&self, path: &str, forward: bool) -> (r: Option<Diagnostic>)
        requires
            self.wf(),
        ensures
            ({
                let v = diagnostics_of(self@.servers.diagnostics, path@);
                match (r, diagnostic_stepped(doc_of(self@), v, forward)) {
                    (Some(x), Some(i)) => x@ == v[i] && x@.line < line_count(doc_of(self@).text),
                    (None, None) => true,
                    _ => false,
                }
            }),
    {
        match self.take_diagnostics(path) {
            Some(v) => match self.doc().step_diagnostic(v, forward) {
                Some(i) => {
                    assert(diagnostic_views(v@)[i as int] == v@[i as int]@);
                    let x = &v[i];
                    Some(
                        Diagnostic {
                            line: x.line,
                            col: x.col,
                            severity: x.severity,
                            message: x.message.as_str().to_owned(),
                            raw: crate::json::copy(&x.raw),
                        },
                    )
                },
                None => None,
            },
            None => {
                proof {
                    reveal(diagnostic_stepped);
                }
                None
            },
        }
    }

    /// Go to the next diagnostic of the buffer in front, or the one before.
    pub fn goto_diagnostic(&mut self, path: &str, forward: bool)
        requires
            old(self).wf(),
        ensures
            final(self)@ == diagnostic_gone_to(old(self)@, path@, forward),
            final(self).wf(),
    {
        reveal(diagnostic_gone_to);
        match self.find_step(path, forward) {
            None => {
                self.set_status("no diagnostics in this buffer");
                return ;
            },
            Some(x) => {
                let m = with_text("● ", x.message.as_str());
                self.push_jump();
                self.doc_mut().go_to_diagnostic(&x);
                self.set_status(m.as_str());
                return ;
            },
        }
    }
}

// ---- formatting -------------------------------------------------------------------

/// A server's edits in a buffer, where there are any.
#[verifier::opaque]
pub open spec fn edited_by(d: DocView, edits: Seq<Json>) -> Option<DocView> {
    if server_edits(d.text, edits).len() > 0 {
        Some(server_edited(d, edits))
    } else {
        None
    }
}

/// A server's edits that format a buffer taken in, unless it has changed since
/// they were asked for.
#[verifier::opaque]
pub open spec fn format_answered(e: EditorView, edits: Seq<Json>) -> EditorView {
    let t = EditorView { servers: ServersView { pending_format: None, ..e.servers }, ..e };
    match e.servers.pending_format {
        None => e,
        Some((i, revision)) => if i >= e.desk.docs.len() || doc_at(e, i as int).revision
            != revision {
            said(t, "buffer changed while formatting — :fmt again"@)
        } else {
            match edited_by(doc_at(e, i as int), edits) {
                Some(d) => said(on_doc_at(t, i as int, d), "formatted (language server)"@),
                None => said(t, "already formatted"@),
            }
        },
    }
}

impl Document {
    /// Take in a server's edits; false where there was none.
    pub(crate) fn take_edits(&mut self, edits: &Vec<Value>) -> (changed: bool)
        requires
            doc_ok(old(self)@),
        ensures
            doc_ok(final(self)@),
            match edited_by(old(self)@, jsons(edits@)) {
                Some(d) => changed && final(self)@ == d,
                None => !changed && final(self)@ == old(self)@,
            },
            true_to_edits(old(self)@) ==> true_to_edits(final(self)@),
    {
        reveal(edited_by);
        self.apply_text_edits(edits)
    }
}

} // verus!
