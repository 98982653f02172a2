//! What the language servers answer, taken in: formatting, signatures,
//! symbols, code actions and edits of the project.

use serde_json::Value;
use vstd::prelude::*;
use crate::editor::{said, Editor, EditorView};
use crate::events::{
    completions_shown, diagnostics_set, edited_by, format_answered, hover_shown,
};
use crate::files::{doc_at, on_doc_at};
use crate::json::{as_text, at, field, json_of, jsons, text_of, Json};
use crate::lsp::{event_views, Event, EventView};
use crate::lsp_parse::{
    location_views, signature_view, symbol_views, Location, LocationView, Symbol, SymbolView,
};
use crate::picker::{new_picker, picker_opened, refilled};
use crate::picker_keys::{jumping, with_picker};
use crate::state::{
    item_views, Item, Mode, PanesView, Picker, PickerKind, PickerKindView, ServersView,
};
use crate::strings::{chars_of, decimal, push_lit, push_number, string_of, with_text};
use crate::typing::docs_noted;
use crate::view::push_after;

verus! {

// ---- formatting and signatures ----------------------------------------------------

impl Editor {
    fn take_pending_format(&mut self) -> (r: Option<(usize, u64)>)
        requires
            old(self).wf(),
        ensures
            r == old(self)@.servers.pending_format,
            final(self)@ == (EditorView {
                servers: ServersView { pending_format: None, ..old(self)@.servers },
                ..old(self)@
            }),
            final(self).wf(),
    {
        let r = self.servers.pending_format;
        self.servers.pending_format = None;
        r
    }

    /// The edits that format a buffer have come.
    pub fn finish_lsp_format(&mut self, edits: Vec<Value>)
        requires
            old(self).wf(),
        ensures
            final(self)@ == format_answered(old(self)@, jsons(edits@)),
            final(self).wf(),
    {
        reveal(format_answered);
        match self.take_pending_format() {
            None => return ,
            Some((i, revision)) => {
                if i >= self.desk.documents.len() || self.document(i).revision != revision {
                    self.set_status("buffer changed while formatting — :fmt again");
                    return ;
                }
                if self.apply_text_edits(i, &edits) {
                    self.set_status("formatted (language server)");
                    return ;
                }
                self.set_status("already formatted");
            },
        }
    }

    /// Apply a server's edits to a buffer, as one undo step; false where there
    /// was none to apply.
    pub fn apply_text_edits(&mut self, i: usize, edits: &Vec<Value>) -> (changed: bool)
        requires
            old(self).wf(),
            i < old(self)@.desk.docs.len(),
        ensures
            match edited_by(doc_at(old(self)@, i as int), jsons(edits@)) {
                Some(d) => changed && final(self)@ == on_doc_at(old(self)@, i as int, d),
                None => !changed && final(self)@ == old(self)@,
            },
            final(self).wf(),
    {
        let ghost e = self@;
        let r = self.document_mut(i).take_edits(edits);
        assert(!r ==> self@.desk.docs =~= e.desk.docs);
        r
    }

    /// Show the signature of the call being typed.
    pub fn show_signature(&mut self, sig: Option<(String, Option<(usize, usize)>)>)
        requires
            old(self).wf(),
        ensures
            final(self)@ == signature_shown(old(self)@, signature_view(sig)),
            final(self).wf(),
    {
        if self.keys.mode == Mode::Insert {
            self.panes.signature = sig;
        }
    }

    /// A completion's documentation has come.
    pub fn completion_resolved(&mut self, label: String, info: String)
        requires
            old(self).wf(),
        ensures
            final(self)@ == docs_answered(old(self)@, label@, info@),
            final(self).wf(),
    {
        if !info.as_str().is_empty() {
            self.note_docs(label, info);
        }
    }
}

/// A signature is shown where one is still typing.
pub open spec fn signature_shown(
    e: EditorView,
    sig: Option<(Seq<char>, Option<(usize, usize)>)>,
) -> EditorView {
    if e.keys.mode == Mode::Insert {
        EditorView { panes: PanesView { signature: sig, ..e.panes }, ..e }
    } else {
        e
    }
}

/// Documentation that says something is noted for its completion.
pub open spec fn docs_answered(e: EditorView, label: Seq<char>, info: Seq<char>) -> EditorView {
    if info.len() > 0 {
        docs_noted(e, label, info)
    } else {
        e
    }
}

// ---- symbols ----------------------------------------------------------------------

/// The symbols, those without a file in the file that was asked about.
pub open spec fn symbols_in(v: Seq<SymbolView>, path: Seq<char>) -> Seq<SymbolView> {
    Seq::new(
        v.len(),
        |i: int|
            if v[i].location.path.len() == 0 {
                SymbolView { location: LocationView { path, ..v[i].location }, ..v[i] }
            } else {
                v[i]
            },
    )
}

pub open spec fn indent(depth: nat) -> Seq<char> {
    Seq::new(2 * depth, |i: int| ' ')
}

/// How a symbol is listed.
pub open spec fn symbol_row(s: SymbolView, project: bool) -> (Seq<char>, Seq<char>) {
    (
        indent(s.depth as nat) + s.name,
        if s.container.len() == 0 || !project {
            s.kind + "  :"@ + decimal((s.location.line + 1) as nat)
        } else {
            s.kind + " in "@ + s.container
        },
    )
}

pub open spec fn symbol_rows(v: Seq<SymbolView>, project: bool) -> Seq<(Seq<char>, Seq<char>)> {
    Seq::new(v.len(), |i: int| symbol_row(v[i], project))
}

pub open spec fn symbol_places(v: Seq<SymbolView>) -> Seq<LocationView> {
    Seq::new(v.len(), |i: int| v[i].location)
}

/// The symbols of the project fill the picker that waits for them; those of a
/// file open one.
#[verifier::opaque]
pub open spec fn symbols_shown(e: EditorView, v: Seq<SymbolView>, project: bool) -> EditorView {
    if project {
        match e.panes.picker {
            Some(p) => if p.kind is WorkspaceSymbols {
                with_picker(
                    e,
                    Some(
                        refilled(
                            p,
                            PickerKindView::WorkspaceSymbols { locs: symbol_places(v) },
                            symbol_rows(v, true),
                        ),
                    ),
                )
            } else {
                e
            },
            None => e,
        }
    } else {
        match e.servers.symbols_path {
            None => e,
            Some(path) => file_symbols_shown(
                EditorView { servers: ServersView { symbols_path: None, ..e.servers }, ..e },
                symbols_in(v, path),
            ),
        }
    }
}

#[verifier::opaque]
pub open spec fn file_symbols_shown(e: EditorView, v: Seq<SymbolView>) -> EditorView {
    if v.len() == 0 {
        said(e, "no symbols in this buffer"@)
    } else {
        picker_opened(
            e,
            new_picker(
                "symbols"@,
                PickerKindView::Locations { locs: symbol_places(v) },
                symbol_rows(v, false),
            ),
        )
    }
}

fn push_indent(v: &mut Vec<char>, depth: usize)
    ensures
        final(v)@ == old(v)@ + indent(depth as nat),
{
    let ghost had = v@;
    let mut i: usize = 0;
    assert(had + indent(0) =~= had);
    while i < depth
        invariant
            i <= depth,
            v@ == had + indent(i as nat),
        decreases depth - i,
    {
        v.push(' ');
        v.push(' ');
        assert(v@ =~= had + indent((i + 1) as nat));
        i += 1;
    }
}

impl Symbol {
    /// How the symbol is listed.
    pub fn row(&self, project: bool) -> (r: Item)
        ensures
            (r.label@, r.detail@) == symbol_row(self@, project),
    {
        let mut l: Vec<char> = Vec::new();
        push_indent(&mut l, self.depth);
        push_lit(&mut l, self.name.as_str());
        assert(l@ =~= indent(self.depth as nat) + self.name@);
        let mut d = chars_of(self.kind);
        if self.container.as_str().is_empty() || !project {
            push_lit(&mut d, "  :");
            push_after(&mut d, self.location.line);
        } else {
            push_lit(&mut d, " in ");
            push_lit(&mut d, self.container.as_str());
        }
        let r = Item { label: string_of(&l), detail: string_of(&d) };
        assert(r.detail@ =~= symbol_row(self@, project).1);
        r
    }
}

fn rows_of(v: &Vec<Symbol>, project: bool) -> (r: Vec<Item>)
    ensures
        item_views(r@) == symbol_rows(symbol_views(v@), project),
{
    let ghost all = symbol_rows(symbol_views(v@), project);
    let mut out: Vec<Item> = Vec::new();
    let mut i: usize = 0;
    assert(item_views(out@) =~= all.take(0));
    while i < v.len()
        invariant
            i <= v@.len(),
            all == symbol_rows(symbol_views(v@), project),
            item_views(out@) == all.take(i as int),
        decreases v@.len() - i,
    {
        let ghost had = out@;
        let item = v[i].row(project);
        assert(all[i as int] == (item.label@, item.detail@));
        out.push(item);
        assert(item_views(out@) =~= item_views(had).push(all[i as int]));
        assert(item_views(out@) =~= all.take(i + 1));
        i += 1;
    }
    assert(all.take(all.len() as int) =~= all);
    out
}

fn places_of(v: &Vec<Symbol>) -> (r: Vec<Location>)
    ensures
        location_views(r@) == symbol_places(symbol_views(v@)),
{
    let ghost all = symbol_places(symbol_views(v@));
    let mut out: Vec<Location> = Vec::new();
    let mut i: usize = 0;
    assert(location_views(out@) =~= all.take(0));
    while i < v.len()
        invariant
            i <= v@.len(),
            all == symbol_places(symbol_views(v@)),
            location_views(out@) == all.take(i as int),
        decreases v@.len() - i,
    {
        let ghost had = out@;
        let l = &v[i].location;
        out.push(Location { path: l.path.as_str().to_owned(), line: l.line, col: l.col });
        assert(location_views(out@) =~= location_views(had).push(all[i as int]));
        assert(location_views(out@) =~= all.take(i + 1));
        i += 1;
    }
    assert(all.take(all.len() as int) =~= all);
    out
}

fn put_in_file(v: &mut Vec<Symbol>, path: &str)
    ensures
        symbol_views(final(v)@) == symbols_in(symbol_views(old(v)@), path@),
        final(v)@.len() == old(v)@.len(),
{
    let ghost all = symbol_views(v@);
    let ghost to = symbols_in(all, path@);
    let n = v.len();
    let mut i: usize = 0;
    assert(symbol_views(v@) =~= to.take(0) + all.skip(0));
    while i < n
        invariant
            i <= n,
            n == v@.len() == all.len(),
            to == symbols_in(all, path@),
            symbol_views(v@) == to.take(i as int) + all.skip(i as int),
        decreases n - i,
    {
        let ghost had = symbol_views(v@);
        assert(had[i as int] == all[i as int]);
        assert(had[i as int] == v@[i as int]@);
        if v[i].location.path.as_str().is_empty() {
            v[i].location.path = path.to_owned();
        }
        assert(symbol_views(v@) =~= had.update(i as int, to[i as int]));
        assert(symbol_views(v@) =~= to.take(i + 1) + all.skip(i + 1));
        i += 1;
    }
    assert(symbol_views(v@) =~= to);
}

impl Editor {
    fn take_symbols_path(&mut self) -> (r: Option<String>)
        requires
            old(self).wf(),
        ensures
            crate::strings::opt_text(r) == old(self)@.servers.symbols_path,
            final(self)@ == (EditorView {
                servers: ServersView { symbols_path: None, ..old(self)@.servers },
                ..old(self)@
            }),
            final(self).wf(),
    {
        let mut r: Option<String> = None;
        std::mem::swap(&mut r, &mut self.servers.symbols_path);
        r
    }

    fn waits_for_symbols(&self) -> (r: bool)
        requires
            self.wf(),
        ensures
            r == (self@.panes.picker is Some && self@.panes.picker->0.kind is WorkspaceSymbols),
    {
        match &self.panes.picker {
            Some(p) => match &p.kind {
                PickerKind::WorkspaceSymbols { .. } => true,
                _ => false,
            },
            None => false,
        }
    }

    fn show_file_symbols(&mut self, v: Vec<Symbol>)
        requires
            old(self).wf(),
        ensures
            final(self)@ == file_symbols_shown(old(self)@, symbol_views(v@)),
            final(self).wf(),
    {
        reveal(file_symbols_shown);
        if v.len() == 0 {
            self.set_status("no symbols in this buffer");
            return ;
        }
        let items = rows_of(&v, false);
        let locs = places_of(&v);
        let p = Picker::new("symbols".to_owned(), PickerKind::Locations { locs }, items);
        self.open_picker(p);
    }

    /// Show the symbols that a server has listed: those of the project, or
    /// those of a file.
    pub fn show_symbols(&mut self, v: Vec<Symbol>, project: bool)
        requires
            old(self).wf(),
        ensures
            final(self)@ == symbols_shown(old(self)@, symbol_views(v@), project),
            final(self).wf(),
    {
        reveal(symbols_shown);
        if project {
            if self.waits_for_symbols() {
                let items = rows_of(&v, true);
                let locs = places_of(&v);
                self.refill_picker(PickerKind::WorkspaceSymbols { locs }, items);
            }
            return ;
        }
        match self.take_symbols_path() {
            None => return ,
            Some(path) => {
                let mut v = v;
                put_in_file(&mut v, path.as_str());
                self.show_file_symbols(v);
            },
        }
    }
}

// ---- code actions -----------------------------------------------------------------

pub open spec fn text_or(j: Json, other: Seq<char>) -> Seq<char> {
    match text_of(j) {
        Some(t) => t,
        None => other,
    }
}

pub open spec fn action_rows(v: Seq<Json>) -> Seq<(Seq<char>, Seq<char>)> {
    Seq::new(
        v.len(),
        |i: int|
            (
                text_or(field(v[i], "title"@), "(untitled)"@),
                text_or(field(v[i], "kind"@), ""@),
            ),
    )
}

/// The code actions offered in a picker.
#[verifier::opaque]
pub open spec fn actions_shown(e: EditorView, v: Seq<Json>) -> EditorView {
    if v.len() == 0 {
        said(e, "no code actions here"@)
    } else {
        picker_opened(
            e,
            new_picker(
                "code actions"@,
                PickerKindView::CodeActions { actions: v },
                action_rows(v),
            ),
        )
    }
}

fn field_text(v: &Value, key: &str, other: &str) -> (r: String)
    ensures
        r@ == text_or(field(json_of(*v), key@), other@),
{
    match as_text(at(v, key)) {
        Some(t) => t.to_owned(),
        None => other.to_owned(),
    }
}

fn action_items(v: &Vec<Value>) -> (r: Vec<Item>)
    ensures
        item_views(r@) == action_rows(jsons(v@)),
{
    let ghost all = action_rows(jsons(v@));
    let mut out: Vec<Item> = Vec::new();
    let mut i: usize = 0;
    assert(item_views(out@) =~= all.take(0));
    while i < v.len()
        invariant
            i <= v@.len(),
            all == action_rows(jsons(v@)),
            item_views(out@) == all.take(i as int),
        decreases v@.len() - i,
    {
        let ghost had = out@;
        let label = field_text(&v[i], "title", "(untitled)");
        let detail = field_text(&v[i], "kind", "");
        out.push(Item { label, detail });
        assert(item_views(out@) =~= item_views(had).push(all[i as int]));
        assert(item_views(out@) =~= all.take(i + 1));
        i += 1;
    }
    assert(all.take(all.len() as int) =~= all);
    out
}

/// What to do with a picked code action.
pub enum ActionStep {
    /// It is a command: have the server run it.
    Run,
    /// Have the server fill it in first.
    Resolve,
    /// Apply what it holds.
    Apply,
}

pub open spec fn action_step(a: Json) -> ActionStep {
    let c = field(a, "command"@);
    if c is Text {
        ActionStep::Run
    } else if field(a, "edit"@) is Null && !(c is Object) {
        ActionStep::Resolve
    } else {
        ActionStep::Apply
    }
}

/// What to do with a picked code action.
pub fn next_step(action: &Value) -> (r: ActionStep)
    ensures
        r == action_step(json_of(*action)),
{
    let c = crate::json::kind(at(action, "command"));
    let e = crate::json::kind(at(action, "edit"));
    if c == crate::json::JsonKind::Text {
        return ActionStep::Run;
    }
    if e == crate::json::JsonKind::Null && c != crate::json::JsonKind::Object {
        return ActionStep::Resolve;
    }
    ActionStep::Apply
}

pub open spec fn files_text(n: nat) -> Seq<char> {
    decimal(n) + " file"@ + (if n == 1 {
        ""@
    } else {
        "s"@
    }) + " changed"@
}

fn push_files(v: &mut Vec<char>, n: usize)
    ensures
        final(v)@ == old(v)@ + files_text(n as nat),
{
    let ghost had = v@;
    push_number(v, n as u64);
    push_lit(v, " file");
    if n != 1 {
        push_lit(v, "s");
    } else {
        push_lit(v, "");
    }
    push_lit(v, " changed");
    assert(v@ =~= had + files_text(n as nat));
}

/// A code action is done: how many files its edit touched, where it had one.
#[verifier::opaque]
pub open spec fn action_told(e: EditorView, a: Json, touched: Option<nat>) -> EditorView {
    let title = text_or(field(a, "title"@), "code action"@);
    match touched {
        Some(n) => said(e, title + " — "@ + files_text(n)),
        None => if field(a, "command"@) is Object {
            e
        } else {
            said(e, title + ": nothing to apply"@)
        },
    }
}

impl Editor {
    /// Offer the code actions.
    pub fn show_code_actions(&mut self, actions: Vec<Value>)
        requires
            old(self).wf(),
        ensures
            final(self)@ == actions_shown(old(self)@, jsons(actions@)),
            final(self).wf(),
    {
        reveal(actions_shown);
        if actions.len() == 0 {
            self.set_status("no code actions here");
            return ;
        }
        let items = action_items(&actions);
        let p = Picker::new("code actions".to_owned(), PickerKind::CodeActions { actions }, items);
        self.open_picker(p);
    }

    /// Say what a code action has done.
    pub fn tell_action(&mut self, action: &Value, touched: Option<usize>)
        requires
            old(self).wf(),
        ensures
            final(self)@ == action_told(
                old(self)@,
                json_of(*action),
                match touched {
                    Some(n) => Some(n as nat),
                    None => None,
                },
            ),
            final(self).wf(),
    {
        reveal(action_told);
        let title = field_text(action, "title", "code action");
        let mut v = chars_of(title.as_str());
        match touched {
            Some(n) => {
                push_lit(&mut v, " — ");
                push_files(&mut v, n);
                let m = string_of(&v);
                assert(m@ =~= title@ + " — "@ + files_text(n as nat));
                self.set_status(m.as_str());
                return ;
            },
            None => {
                if crate::json::kind(at(action, "command")) == crate::json::JsonKind::Object {
                    return ;
                }
                push_lit(&mut v, ": nothing to apply");
                let m = string_of(&v);
                self.set_status(m.as_str());
                return ;
            },
        }
    }

    /// Say how many files an edit of the project has touched.
    pub fn tell_edit(&mut self, touched: usize)
        requires
            old(self).wf(),
        ensures
            final(self)@ == said(
                old(self)@,
                files_text(touched as nat) + " — review, then :wa writes them"@,
            ),
            final(self).wf(),
    {
        let mut v: Vec<char> = Vec::new();
        push_files(&mut v, touched);
        push_lit(&mut v, " — review, then :wa writes them");
        let m = string_of(&v);
        assert(m@ =~= files_text(touched as nat) + " — review, then :wa writes them"@);
        self.set_status(m.as_str());
    }
}

// ---- edits of the project ----------------------------------------------------------

/// The edits of a file: the buffer that has it, where it could be opened, its
/// path and the edits.
pub open spec fn buffer_edit_views(v: Seq<(Option<usize>, String, Vec<Value>)>) -> Seq<
    (Option<usize>, Seq<char>, Seq<Json>),
> {
    Seq::new(v.len(), |i: int| (v[i].0, v[i].1@, jsons(v[i].2@)))
}

/// The editor after the edits of one file, and whether they changed it.
#[verifier::opaque]
pub open spec fn file_edited(
    e: EditorView,
    f: (Option<usize>, Seq<char>, Seq<Json>),
) -> (EditorView, bool) {
    match f.0 {
        Some(i) => if i < e.desk.docs.len() {
            match edited_by(doc_at(e, i as int), f.2) {
                Some(d) => (on_doc_at(e, i as int, d), true),
                None => (e, false),
            }
        } else {
            (e, false)
        },
        None => (said(e, "can't open "@ + f.1), false),
    }
}

/// The editor after the edits of the first `n` files, and how many of them
/// changed.
pub open spec fn files_edited(
    e: EditorView,
    v: Seq<(Option<usize>, Seq<char>, Seq<Json>)>,
    n: nat,
) -> (EditorView, nat)
    decreases n,
{
    if n == 0 || n > v.len() {
        (e, 0)
    } else {
        let (t, k) = files_edited(e, v, (n - 1) as nat);
        let (u, changed) = file_edited(t, v[n - 1]);
        (
            u,
            if changed {
                k + 1
            } else {
                k
            },
        )
    }
}

impl Editor {
    fn edit_file(&mut self, f: &(Option<usize>, String, Vec<Value>)) -> (changed: bool)
        requires
            old(self).wf(),
        ensures
            (final(self)@, changed) == file_edited(old(self)@, (f.0, f.1@, jsons(f.2@))),
            final(self).wf(),
    {
        reveal(file_edited);
        match f.0 {
            Some(i) => {
                if i >= self.desk.documents.len() {
                    return false;
                }
                self.apply_text_edits(i, &f.2)
            },
            None => {
                let m = with_text("can't open ", f.1.as_str());
                self.set_status(m.as_str());
                false
            },
        }
    }

    /// Apply the edits of a project, file by file, each as one undo step; the
    /// number of files that changed.
    pub fn apply_workspace_edit(&mut self, files: &Vec<(Option<usize>, String, Vec<Value>)>) -> (
        touched: usize)
        requires
            old(self).wf(),
        ensures
            (final(self)@, touched as nat) == files_edited(
                old(self)@,
                buffer_edit_views(files@),
                files@.len(),
            ),
            final(self).wf(),
    {
        let ghost e = self@;
        let ghost all = buffer_edit_views(files@);
        let mut touched: usize = 0;
        let mut n: usize = 0;
        while n < files.len()
            invariant
                self.wf(),
                n <= files@.len(),
                touched <= n,
                all == buffer_edit_views(files@),
                (self@, touched as nat) == files_edited(e, all, n as nat),
            decreases files@.len() - n,
        {
            assert(all[n as int] == (
                files@[n as int].0,
                files@[n as int].1@,
                jsons(files@[n as int].2@),
            ));
            if self.edit_file(&files[n]) {
                touched += 1;
            }
            n += 1;
        }
        touched
    }
}

// ---- events -----------------------------------------------------------------------

/// Whether an event needs files to be read or written.
pub open spec fn needs_files(ev: EventView) -> bool {
    ev is References || ev is ApplyEdit || ev is CodeActionResolved
}

/// The editor after a server's event.
pub open spec fn event_taken(e: EditorView, ev: EventView) -> EditorView {
    match ev {
        EventView::Definition(l) => jumping(e, l.path, l.line, l.col),
        EventView::Hover(t) => hover_shown(e, t),
        EventView::Signature(s) => signature_shown(e, s),
        EventView::Symbols(v, project) => symbols_shown(e, v, project),
        EventView::Formatting(v) => format_answered(e, v),
        EventView::CodeActions(v) => actions_shown(e, v),
        EventView::Diagnostics(path, ds) => EditorView {
            servers: ServersView {
                diagnostics: diagnostics_set(e.servers.diagnostics, path, ds),
                ..e.servers
            },
            ..e
        },
        EventView::Completions(v, typed) => completions_shown(e, v, typed),
        EventView::CompletionResolved(label, info) => docs_answered(e, label, info),
        EventView::Status(t) => said(e, t),
        _ => e,
    }
}

impl Editor {
    /// Take in a server's event. One that needs files to be read or written is
    /// handed back.
    pub fn take_event(&mut self, ev: Event) -> (r: Option<Event>)
        requires
            old(self).wf(),
        ensures
            final(self)@ == event_taken(old(self)@, ev@),
            match r {
                Some(back) => needs_files(ev@) && back == ev,
                None => !needs_files(ev@),
            },
            final(self).wf(),
    {
        match ev {
            Event::Definition(l) => {
                self.ask_jump(l.path, l.line, l.col);
                None
            },
            Event::Hover(t) => {
                self.open_hover(t.as_str());
                None
            },
            Event::Signature(s) => {
                self.show_signature(s);
                None
            },
            Event::Symbols(v, project) => {
                self.show_symbols(v, project);
                None
            },
            Event::Formatting(v) => {
                self.finish_lsp_format(v);
                None
            },
            Event::CodeActions(v) => {
                self.show_code_actions(v);
                None
            },
            Event::Diagnostics(path, ds) => {
                self.set_diagnostics(path, ds);
                None
            },
            Event::Completions(v, typed) => {
                self.show_completions(v, typed);
                None
            },
            Event::CompletionResolved(label, info) => {
                self.completion_resolved(label, info);
                None
            },
            Event::Status(t) => {
                self.set_status(t.as_str());
                None
            },
            Event::References(v) => Some(Event::References(v)),
            Event::ApplyEdit(v) => Some(Event::ApplyEdit(v)),
            Event::CodeActionResolved(v) => Some(Event::CodeActionResolved(v)),
        }
    }
}

/// How many events from `i` on come before one that needs files.
pub open spec fn events_free(v: Seq<EventView>, i: int) -> int
    decreases v.len() - i,
{
    if i < 0 || i >= v.len() || needs_files(v[i]) {
        i
    } else {
        events_free(v, i + 1)
    }
}

/// The editor after the first `n` events.
pub open spec fn events_taken(e: EditorView, v: Seq<EventView>, n: nat) -> EditorView
    decreases n,
{
    if n == 0 || n > v.len() {
        e
    } else {
        event_taken(events_taken(e, v, (n - 1) as nat), v[n - 1])
    }
}

impl Editor {
    /// Take in the servers' events in order, as far as no files are needed for
    /// them. The first that needs some is handed back; those behind it are
    /// left.
    pub fn lsp_tick(&mut self, events: &mut Vec<Event>) -> (r: Option<Event>)
        requires
            old(self).wf(),
        ensures
            ({
                let v = event_views(old(events)@);
                let n = events_free(v, 0);
                &&& final(self)@ == events_taken(old(self)@, v, n as nat)
                &&& match r {
                    Some(ev) => n < v.len() && ev@ == v[n] && event_views(final(events)@)
                        == v.skip(n + 1),
                    None => n == v.len() && final(events)@.len() == 0,
                }
            }),
            final(self).wf(),
    {
        let ghost e = self@;
        let ghost v = event_views(events@);
        let ghost mut n: int = 0;
        assert(v.skip(0) =~= v);
        while events.len() > 0
            invariant
                self.wf(),
                v == event_views(old(events)@),
                e == old(self)@,
                0 <= n <= v.len(),
                events_free(v, 0) == events_free(v, n),
                self@ == events_taken(e, v, n as nat),
                event_views(events@) == v.skip(n),
                events@.len() == v.len() - n,
            decreases events@.len(),
        {
            let ghost had = events@;
            let ev = events.remove(0);
            assert(event_views(had)[0] == ev@);
            assert(v.skip(n)[0] == v[n]);
            assert(event_views(events@) =~= event_views(had).skip(1));
            assert(v.skip(n).skip(1) =~= v.skip(n + 1));
            match self.take_event(ev) {
                Some(back) => {
                    assert(event_taken(events_taken(e, v, n as nat), v[n]) == events_taken(
                        e,
                        v,
                        n as nat,
                    ));
                    return Some(back);
                },
                None => {},
            }
            proof {
                n = n + 1;
            }
        }
        None
    }
}

} // verus!
