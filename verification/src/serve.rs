//! What the editor asks the language servers.

use serde_json::Value;
use vstd::prelude::*;
use crate::document::{cursor_line, lsp_at, min_int, DocView, Document};
use crate::editor::{doc_of, said, Editor, EditorView};
use crate::events::diagnostics_of;
use crate::json::{copy, json_of, jsons, Json};
use crate::lsp::{asks_at, is_request, names_document, position_params, requested, ClientView, Tag};
use crate::lsp_parse::{diagnostic_views, uri_from_path, uri_of, Diagnostic, DiagnosticView};
use crate::picker::{new_picker, picker_opened};
use crate::position::{capped_col, char_to_utf16};
use crate::requests::{
    action_params, asks_actions, asks_format, asks_references, asks_rename, asks_run, asks_symbols,
    document_params, format_params, query_params, references_params, rename_params, run_params,
};
use crate::servers::front_client;
use crate::state::{client_views, Item, Picker, PickerKind, PickerKindView, ServersView};
use crate::strings::text_between;
use crate::text::{line_start, line_text, lines_in, utf16_upto};

verus! {

// ---- sending ----------------------------------------------------------------------

pub open spec fn on_client(e: EditorView, i: int, c: ClientView) -> EditorView {
    EditorView {
        servers: ServersView { clients: e.servers.clients.update(i, c), ..e.servers },
        ..e
    }
}

/// A request has gone to a client, and nothing else is different.
#[verifier::opaque]
pub open spec fn request_sent(
    e: EditorView,
    i: int,
    method: Seq<char>,
    params: Json,
    tag: Tag,
    after: EditorView,
) -> bool {
    exists|m: Json| #[trigger]
        is_request(m, e.servers.clients[i].next_id.wrapping_add(1), method, params) && after
            == on_client(e, i, requested(e.servers.clients[i], method, params, tag, m))
}

/// A request has gone to the server of the buffer in front; where none runs,
/// that is said.
pub open spec fn asked_in_front(
    e: EditorView,
    method: Seq<char>,
    params: Json,
    tag: Tag,
    after: EditorView,
) -> bool {
    match front_client(e) {
        Some(i) => request_sent(e, i, method, params, tag, after),
        None => after == said(e, "language server not running"@),
    }
}

impl Editor {
    pub(crate) fn send_to(&mut self, i: usize, method: &str, params: Value, tag: Tag)
        requires
            old(self).wf(),
            i < old(self)@.servers.clients.len(),
        ensures
            request_sent(old(self)@, i as int, method@, json_of(params), tag, final(self)@),
            final(self).wf(),
    {
        reveal(request_sent);
        let ghost had = self.servers.clients@;
        assert(client_views(had)[i as int] == had[i as int]@);
        self.servers.clients[i].request(method, params, tag);
        assert(client_views(self.servers.clients@) =~= client_views(had).update(
            i as int,
            self.servers.clients@[i as int]@,
        ));
    }

    /// Ask the server of the buffer in front; false where none runs, which is
    /// said. The buffers and their servers are in step.
    pub fn lsp_request(&mut self, method: &str, params: Value, tag: Tag) -> (r: bool)
        requires
            old(self).wf(),
        ensures
            r == (front_client(old(self)@) is Some),
            asked_in_front(old(self)@, method@, json_of(params), tag, final(self)@),
            final(self).wf(),
    {
        match self.current_client() {
            Some(i) => {
                self.send_to(i, method, params, tag);
                true
            },
            None => {
                self.set_status("language server not running");
                false
            },
        }
    }
}

// ---- at the cursor ----------------------------------------------------------------

/// The cursor as a server names it: its line and UTF-16 column.
#[verifier::opaque]
pub open spec fn cursor_place(d: DocView) -> (usize, usize) {
    let line = cursor_line(d.text, d.cursor as int);
    let l = line_text(d.text, line);
    (
        line as usize,
        capped_col(
            utf16_upto(l, min_int(d.cursor - line_start(d.text, line), l.len() as int)) as int,
        ) as usize,
    )
}

/// A request about the place of the cursor; where the buffer has no file, or
/// no server runs, that is said.
pub open spec fn asked_at_cursor(
    e: EditorView,
    method: Seq<char>,
    tag: Tag,
    file: Seq<char>,
    after: EditorView,
) -> bool {
    if doc_of(e).path is None {
        after == said(e, "buffer has no file"@)
    } else {
        exists|p: Json| #[trigger]
            asks_at(p, uri_of(file), cursor_place(doc_of(e))) && asked_in_front(
                e,
                method,
                p,
                tag,
                after,
            )
    }
}

impl Document {
    /// The cursor as a server names it.
    pub fn cursor_place(&self) -> (r: (usize, usize))
        ensures
            r == cursor_place(self@),
    {
        reveal(cursor_place);
        let (line, col) = self.cursor_line_col();
        let l = self.line(line);
        (line, char_to_utf16(l.as_slice(), col))
    }
}

impl Editor {
    fn has_file(&self) -> (r: bool)
        requires
            self.wf(),
        ensures
            r == (doc_of(self@).path is Some),
    {
        self.doc().path.is_some()
    }

    fn place(&self) -> (r: (usize, usize))
        requires
            self.wf(),
        ensures
            r == cursor_place(doc_of(self@)),
    {
        self.doc().cursor_place()
    }

    /// Ask about the place of the cursor. `file` is the file of the buffer in
    /// front by its absolute name.
    pub fn lsp_position_request(&mut self, tag: Tag, method: &str, file: &str)
        requires
            old(self).wf(),
        ensures
            asked_at_cursor(old(self)@, method@, tag, file@, final(self)@),
            final(self).wf(),
    {
        if !self.has_file() {
            self.set_status("buffer has no file");
            return ;
        }
        let (line, col) = self.place();
        let uri = uri_from_path(file);
        let p = position_params(uri.as_str(), line, col);
        let ghost j = json_of(p);
        let _sent = self.lsp_request(method, p, tag);
        assert(asks_at(j, uri_of(file@), cursor_place(doc_of(old(self)@))));
    }

    /// Ask for the definition of what is under the cursor.
    pub fn goto_definition(&mut self, file: &str)
        requires
            old(self).wf(),
        ensures
            asked_at_cursor(
                old(self)@,
                "textDocument/definition"@,
                Tag::Definition,
                file@,
                final(self)@,
            ),
            final(self).wf(),
    {
        self.lsp_position_request(Tag::Definition, "textDocument/definition", file);
    }

    /// Ask for the documentation of what is under the cursor.
    pub fn hover(&mut self, file: &str)
        requires
            old(self).wf(),
        ensures
            asked_at_cursor(old(self)@, "textDocument/hover"@, Tag::Hover, file@, final(self)@),
            final(self).wf(),
    {
        self.lsp_position_request(Tag::Hover, "textDocument/hover", file);
    }

    /// Ask for completions.
    pub fn complete(&mut self, file: &str)
        requires
            old(self).wf(),
        ensures
            asked_at_cursor(
                old(self)@,
                "textDocument/completion"@,
                Tag::Completion,
                file@,
                final(self)@,
            ),
            final(self).wf(),
    {
        self.lsp_position_request(Tag::Completion, "textDocument/completion", file);
    }
}

/// A request whose sending is announced.
pub open spec fn asked_and_told(
    e: EditorView,
    method: Seq<char>,
    params: Json,
    tag: Tag,
    told: Seq<char>,
    after: EditorView,
) -> bool {
    exists|mid: EditorView| #[trigger]
        asked_in_front(e, method, params, tag, mid) && after == (if front_client(e) is Some {
            said(mid, told)
        } else {
            mid
        })
}

pub open spec fn references_asked(e: EditorView, file: Seq<char>, after: EditorView) -> bool {
    if doc_of(e).path is None {
        after == said(e, "buffer has no file"@)
    } else {
        exists|p: Json| #[trigger]
            asks_references(p, uri_of(file), cursor_place(doc_of(e))) && asked_and_told(
                e,
                "textDocument/references"@,
                p,
                Tag::References,
                "finding references…"@,
                after,
            )
    }
}

pub open spec fn rename_asked(
    e: EditorView,
    name: Seq<char>,
    file: Seq<char>,
    after: EditorView,
) -> bool {
    if doc_of(e).path is None {
        after == said(e, "buffer has no file"@)
    } else {
        exists|p: Json| #[trigger]
            asks_rename(p, uri_of(file), cursor_place(doc_of(e)), name) && asked_and_told(
                e,
                "textDocument/rename"@,
                p,
                Tag::Rename,
                "renaming to "@ + name + "…"@,
                after,
            )
    }
}

impl Editor {
    fn ask_and_tell(&mut self, method: &str, params: Value, tag: Tag, told: &str)
        requires
            old(self).wf(),
        ensures
            asked_and_told(old(self)@, method@, json_of(params), tag, told@, final(self)@),
            final(self).wf(),
    {
        let ghost e = self@;
        let ghost j = json_of(params);
        let sent = self.lsp_request(method, params, tag);
        let ghost mid = self@;
        assert(asked_in_front(e, method@, j, tag, mid));
        if sent {
            self.set_status(told);
        }
    }

    /// Ask for the references to what is under the cursor.
    pub fn find_references(&mut self, file: &str)
        requires
            old(self).wf(),
        ensures
            references_asked(old(self)@, file@, final(self)@),
            final(self).wf(),
    {
        if !self.has_file() {
            self.set_status("buffer has no file");
            return ;
        }
        let (line, col) = self.place();
        let uri = uri_from_path(file);
        let p = references_params(uri.as_str(), line, col);
        let ghost j = json_of(p);
        self.ask_and_tell("textDocument/references", p, Tag::References, "finding references…");
        assert(asks_references(j, uri_of(file@), cursor_place(doc_of(old(self)@))));
    }

    /// Ask for another name of what is under the cursor.
    pub fn rename_symbol(&mut self, name: &str, file: &str)
        requires
            old(self).wf(),
        ensures
            rename_asked(old(self)@, name@, file@, final(self)@),
            final(self).wf(),
    {
        if !self.has_file() {
            self.set_status("buffer has no file");
            return ;
        }
        let (line, col) = self.place();
        let uri = uri_from_path(file);
        let p = rename_params(uri.as_str(), line, col, name);
        let ghost j = json_of(p);
        let told = text_between("renaming to ", name, "…");
        self.ask_and_tell("textDocument/rename", p, Tag::Rename, told.as_str());
        assert(asks_rename(j, uri_of(file@), cursor_place(doc_of(old(self)@)), name@));
    }
}

// ---- symbols ----------------------------------------------------------------------

pub open spec fn symbols_of_file(e: EditorView) -> EditorView {
    EditorView { servers: ServersView { symbols_path: doc_of(e).path, ..e.servers }, ..e }
}

/// The symbols of the file in front asked for; the answer does not say which
/// file that was, so it is noted.
pub open spec fn symbols_asked(e: EditorView, file: Seq<char>, after: EditorView) -> bool {
    if doc_of(e).path is None {
        after == said(e, "buffer has no file"@)
    } else {
        exists|p: Json| #[trigger]
            names_document(p, uri_of(file)) && asked_in_front(
                symbols_of_file(e),
                "textDocument/documentSymbol"@,
                p,
                Tag::Symbols,
                after,
            )
    }
}

/// The symbols of the project that match a query asked for.
pub open spec fn query_asked(e: EditorView, query: Seq<char>, after: EditorView) -> bool {
    exists|p: Json| #[trigger]
        asks_symbols(p, query) && asked_in_front(
            e,
            "workspace/symbol"@,
            p,
            Tag::WorkspaceSymbols,
            after,
        )
}

/// An empty picker that the server fills.
pub open spec fn symbol_picker() -> crate::state::PickerView {
    new_picker(
        "workspace symbols"@,
        PickerKindView::WorkspaceSymbols { locs: Seq::empty() },
        Seq::empty(),
    )
}

pub open spec fn project_symbols_asked(e: EditorView, after: EditorView) -> bool {
    if front_client(e) is None {
        after == said(e, "language server not running"@)
    } else {
        query_asked(picker_opened(e, symbol_picker()), Seq::empty(), after)
    }
}

impl Editor {
    fn note_symbols_path(&mut self)
        requires
            old(self).wf(),
        ensures
            final(self)@ == symbols_of_file(old(self)@),
            final(self).wf(),
    {
        let path: Option<String> = match &self.doc().path {
            Some(p) => Some(p.as_str().to_owned()),
            None => None,
        };
        self.servers.symbols_path = path;
    }

    /// Ask for the symbols of the file in front.
    pub fn document_symbols(&mut self, file: &str)
        requires
            old(self).wf(),
        ensures
            symbols_asked(old(self)@, file@, final(self)@),
            final(self).wf(),
    {
        if !self.has_file() {
            self.set_status("buffer has no file");
            return ;
        }
        self.note_symbols_path();
        let uri = uri_from_path(file);
        let p = document_params(uri.as_str());
        let ghost j = json_of(p);
        let _sent = self.lsp_request("textDocument/documentSymbol", p, Tag::Symbols);
        assert(names_document(j, uri_of(file@)));
    }

    /// Ask for the symbols of the project that match a query.
    pub fn ask_symbols(&mut self, query: &str)
        requires
            old(self).wf(),
        ensures
            query_asked(old(self)@, query@, final(self)@),
            final(self).wf(),
    {
        let p = query_params(query);
        let ghost j = json_of(p);
        let _sent = self.lsp_request("workspace/symbol", p, Tag::WorkspaceSymbols);
        assert(asks_symbols(j, query@));
    }

    fn open_symbol_picker(&mut self)
        requires
            old(self).wf(),
        ensures
            final(self)@ == picker_opened(old(self)@, symbol_picker()),
            final(self).wf(),
    {
        let locs: Vec<crate::lsp_parse::Location> = Vec::new();
        let items: Vec<Item> = Vec::new();
        assert(crate::lsp_parse::location_views(locs@) =~= Seq::empty());
        assert(crate::state::item_views(items@) =~= Seq::empty());
        let p = Picker::new(
            "workspace symbols".to_owned(),
            PickerKind::WorkspaceSymbols { locs },
            items,
        );
        self.open_picker(p);
    }

    /// A picker of the project's symbols, which the server fills as one types.
    pub fn workspace_symbols(&mut self)
        requires
            old(self).wf(),
        ensures
            project_symbols_asked(old(self)@, final(self)@),
            final(self).wf(),
    {
        if !self.lsp_active() {
            self.set_status("language server not running");
            return ;
        }
        self.open_symbol_picker();
        let none = String::new();
        assert(none@ =~= Seq::empty());
        self.ask_symbols(none.as_str());
    }
}

// ---- code actions -----------------------------------------------------------------

/// The ends of the selection, the lower first.
pub open spec fn selection_ends(d: DocView) -> (int, int) {
    let a = min_int(d.anchor as int, d.text.len() as int);
    let c = min_int(d.cursor as int, d.text.len() as int);
    if a < c {
        (a, c)
    } else {
        (c, a)
    }
}

/// What the server itself sent of the diagnostics that begin on these lines.
pub open spec fn raw_between(v: Seq<DiagnosticView>, from: int, to: int, n: nat) -> Seq<Json>
    decreases n,
{
    if n == 0 || n > v.len() {
        Seq::empty()
    } else if from <= v[n - 1].line <= to {
        raw_between(v, from, to, (n - 1) as nat).push(v[n - 1].raw)
    } else {
        raw_between(v, from, to, (n - 1) as nat)
    }
}

pub open spec fn actions_asked(e: EditorView, file: Seq<char>, after: EditorView) -> bool {
    let d = doc_of(e);
    let from = lsp_at(d.text, selection_ends(d).0);
    let to = lsp_at(d.text, selection_ends(d).1);
    let ds = diagnostics_of(e.servers.diagnostics, file);
    if d.path is None {
        after == said(e, "buffer has no file"@)
    } else {
        exists|p: Json| #[trigger]
            asks_actions(
                p,
                uri_of(file),
                from,
                to,
                raw_between(ds, from.0 as int, to.0 as int, ds.len()),
            ) && asked_in_front(e, "textDocument/codeAction"@, p, Tag::CodeAction, after)
    }
}

impl Document {
    fn selection_places(&self) -> (r: ((usize, usize), (usize, usize)))
        ensures
            r.0 == lsp_at(self@.text, selection_ends(self@).0),
            r.1 == lsp_at(self@.text, selection_ends(self@).1),
    {
        let len = crate::text::rope_len(&self.text);
        let a = if self.anchor < len {
            self.anchor
        } else {
            len
        };
        let c = if self.cursor < len {
            self.cursor
        } else {
            len
        };
        if a < c {
            (self.lsp_position(a), self.lsp_position(c))
        } else {
            (self.lsp_position(c), self.lsp_position(a))
        }
    }
}

fn collect_raw(v: &Vec<Diagnostic>, from: usize, to: usize) -> (r: Vec<Value>)
    ensures
        jsons(r@) == raw_between(diagnostic_views(v@), from as int, to as int, v@.len()),
{
    let ghost all = diagnostic_views(v@);
    let mut out: Vec<Value> = Vec::new();
    let mut n: usize = 0;
    assert(jsons(out@) =~= Seq::empty());
    while n < v.len()
        invariant
            n <= v@.len(),
            all == diagnostic_views(v@),
            jsons(out@) == raw_between(all, from as int, to as int, n as nat),
        decreases v@.len() - n,
    {
        assert(all[n as int] == v@[n as int]@);
        if from <= v[n].line && v[n].line <= to {
            let ghost had = out@;
            out.push(copy(&v[n].raw));
            assert(jsons(out@) =~= jsons(had).push(all[n as int].raw));
        }
        n += 1;
    }
    out
}

impl Editor {
    fn raw_diagnostics(&self, file: &str, from: usize, to: usize) -> (r: Vec<Value>)
        ensures
            jsons(r@) == raw_between(
                diagnostics_of(self@.servers.diagnostics, file@),
                from as int,
                to as int,
                diagnostics_of(self@.servers.diagnostics, file@).len(),
            ),
    {
        match self.take_diagnostics(file) {
            Some(v) => collect_raw(v, from, to),
            None => {
                let none: Vec<Value> = Vec::new();
                assert(jsons(none@) =~= Seq::empty());
                none
            },
        }
    }

    /// Ask what can be done about the selection and the diagnostics on its
    /// lines.
    pub fn code_actions(&mut self, file: &str)
        requires
            old(self).wf(),
        ensures
            actions_asked(old(self)@, file@, final(self)@),
            final(self).wf(),
    {
        if !self.has_file() {
            self.set_status("buffer has no file");
            return ;
        }
        let (from, to) = self.doc().selection_places();
        let raw = self.raw_diagnostics(file, from.0, to.0);
        let uri = uri_from_path(file);
        let ghost list = jsons(raw@);
        let p = action_params(uri.as_str(), from, to, raw);
        let ghost j = json_of(p);
        let _sent = self.lsp_request("textDocument/codeAction", p, Tag::CodeAction);
        assert(asks_actions(j, uri_of(file@), from, to, list));
    }

    /// Have the server fill in a code action.
    pub fn resolve_action(&mut self, action: Value)
        requires
            old(self).wf(),
        ensures
            asked_in_front(
                old(self)@,
                "codeAction/resolve"@,
                json_of(action),
                Tag::CodeActionResolve,
                final(self)@,
            ),
            final(self).wf(),
    {
        let _sent = self.lsp_request("codeAction/resolve", action, Tag::CodeActionResolve);
    }

    /// Have the server run a command.
    pub fn execute_lsp_command(&mut self, cmd: &Value)
        requires
            old(self).wf(),
        ensures
            exists|p: Json| #[trigger]
                asks_run(p, json_of(*cmd)) && asked_in_front(
                    old(self)@,
                    "workspace/executeCommand"@,
                    p,
                    Tag::ExecuteCommand,
                    final(self)@,
                ),
            final(self).wf(),
    {
        let p = run_params(cmd);
        let ghost j = json_of(p);
        let _sent = self.lsp_request("workspace/executeCommand", p, Tag::ExecuteCommand);
        assert(asks_run(j, json_of(*cmd)));
    }
}

// ---- formatting -------------------------------------------------------------------

/// Some line begins with a tab.
pub open spec fn indents_with_tabs(s: Seq<char>) -> bool {
    exists|l: int|
        0 <= l < lines_in(s) && #[trigger] line_text(s, l).len() > 0 && line_text(s, l)[0] == '\t'
}

pub open spec fn owing_format(e: EditorView, i: usize, revision: u64) -> EditorView {
    EditorView {
        servers: ServersView { pending_format: Some((i, revision)), ..e.servers },
        ..e
    }
}

/// A client is asked to format the buffer in front.
pub open spec fn format_sent(
    e: EditorView,
    i: int,
    file: Seq<char>,
    p: Json,
    mid: EditorView,
) -> bool {
    &&& asks_format(p, uri_of(file), e.options.tab_width, indents_with_tabs(doc_of(e).text))
    &&& request_sent(e, i, "textDocument/formatting"@, p, Tag::Formatting, mid)
}

/// A server's formatting of the buffer in front asked for, where it can.
pub open spec fn format_asked(
    e: EditorView,
    file: Seq<char>,
    after: EditorView,
    sent: bool,
) -> bool {
    match front_client(e) {
        None => !sent && after == e,
        Some(i) => if !e.servers.clients[i].formatting {
            !sent && after == e
        } else {
            sent && exists|p: Json, mid: EditorView| #[trigger]
                format_sent(e, i, file, p, mid) && after == owing_format(
                    mid,
                    e.desk.current,
                    doc_of(e).revision,
                )
        },
    }
}

impl Document {
    fn indents_with_tabs(&self) -> (r: bool)
        ensures
            r == indents_with_tabs(self@.text),
    {
        let n = crate::text::rope_lines(&self.text);
        let mut i: usize = 0;
        while i < n
            invariant
                i <= n,
                n == lines_in(self@.text),
                forall|l: int|
                    0 <= l < i ==> !(#[trigger] line_text(self@.text, l).len() > 0 && line_text(
                        self@.text,
                        l,
                    )[0] == '\t'),
            decreases n - i,
        {
            let l = self.line(i);
            if l.len() > 0 && l[0] == '\t' {
                assert(line_text(self@.text, i as int).len() > 0);
                return true;
            }
            i += 1;
        }
        false
    }
}

impl Editor {
    fn can_format(&self, i: usize) -> (r: bool)
        requires
            i < self@.servers.clients.len(),
        ensures
            r == self@.servers.clients[i as int].formatting,
    {
        assert(client_views(self.servers.clients@)[i as int]
            == self.servers.clients@[i as int]@);
        self.servers.clients[i].can_format()
    }

    fn owe_format(&mut self, i: usize, revision: u64)
        requires
            old(self).wf(),
        ensures
            final(self)@ == owing_format(old(self)@, i, revision),
            final(self).wf(),
    {
        self.servers.pending_format = Some((i, revision));
    }

    /// Ask the server to format the buffer in front; false where it cannot.
    pub fn lsp_format(&mut self, file: &str) -> (sent: bool)
        requires
            old(self).wf(),
        ensures
            format_asked(old(self)@, file@, final(self)@, sent),
            final(self).wf(),
    {
        let ghost e = self@;
        match self.current_client() {
            None => false,
            Some(i) => {
                if !self.can_format(i) {
                    return false;
                }
                let tabs = self.doc().indents_with_tabs();
                let revision = self.doc().revision;
                let front = self.desk.current;
                let uri = uri_from_path(file);
                let p = format_params(uri.as_str(), self.options.tab_width, tabs);
                let ghost j = json_of(p);
                self.send_to(i, "textDocument/formatting", p, Tag::Formatting);
                let ghost mid = self@;
                self.owe_format(front, revision);
                assert(front_client(e) == Some(i as int));
                assert(self@ == owing_format(mid, e.desk.current, doc_of(e).revision));
                assert(e.servers.clients[i as int].formatting);
                assert(format_sent(e, i as int, file@, j, mid));
                assert(format_asked(e, file@, self@, true));
                true
            },
        }
    }
}

} // verus!
