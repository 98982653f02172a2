//! A client of a language server: what it sends, what it does with the
//! answers, and what it keeps of both. The process, its pipes and the clock
//! are the caller's: messages to send lie in the outbox.

use serde_json::Value;
use vstd::prelude::*;
use crate::document::{lsp_views, LspChange, LspChangeView};
use crate::json::{
    array_of, as_array, as_bool, as_i64, as_text, as_u64, at, copy, field, from_array, from_bool,
    from_i64, from_text, from_u64, get, i64_of, int_json, is_object, json_of, json_read, jsons,
    kind, kind_of, member, null, number_json, object0, object1, object2, object3, object4,
    parse_json, text_of, u64_of, Json, JsonKind,
};
use crate::lsp_parse::{
    completions_of, deep, diagnostic_of, diagnostic_views, first_location, hover_of, hover_text,
    info_of, item_info, items_of, language_id, language_of, location_views, locations_of, looked_at,
    parse_completions, parse_diagnostic, parse_location, parse_locations, parse_signature,
    parse_symbols, path_from_uri, path_of, signature_of, signature_view, symbol_views, symbols_of,
    triple_views, Diagnostic, DiagnosticView, Location, LocationView, Symbol, SymbolView,
    COMPLETION_ITEMS,
};
use crate::strings::{chars_of, push_lit, same, string_of, trim, trimmed, words, words_of};

verus! {

/// What a request was made for.
#[derive(Clone, Copy, PartialEq, Eq, Structural, Debug)]
pub enum Tag {
    Initialize,
    Definition,
    Hover,
    Completion,
    CompletionTyped,
    Resolve,
    References,
    Rename,
    CodeAction,
    CodeActionResolve,
    Signature,
    Symbols,
    WorkspaceSymbols,
    Formatting,
    Shutdown,
    ExecuteCommand,
}

pub open spec fn tag_text(t: Tag) -> Seq<char> {
    match t {
        Tag::Initialize => "initialize"@,
        Tag::Definition => "definition"@,
        Tag::Hover => "hover"@,
        Tag::Completion => "completion"@,
        Tag::CompletionTyped => "completion_typed"@,
        Tag::Resolve => "resolve"@,
        Tag::References => "references"@,
        Tag::Rename => "rename"@,
        Tag::CodeAction => "code_action"@,
        Tag::CodeActionResolve => "code_action_resolve"@,
        Tag::Signature => "signature"@,
        Tag::Symbols => "symbols"@,
        Tag::WorkspaceSymbols => "workspace_symbols"@,
        Tag::Formatting => "formatting"@,
        Tag::Shutdown => "shutdown"@,
        Tag::ExecuteCommand => "execute"@,
    }
}

impl Tag {
    pub fn name(self) -> (r: &'static str)
        ensures
            r@ == tag_text(self),
    {
        match self {
            Tag::Initialize => "initialize",
            Tag::Definition => "definition",
            Tag::Hover => "hover",
            Tag::Completion => "completion",
            Tag::CompletionTyped => "completion_typed",
            Tag::Resolve => "resolve",
            Tag::References => "references",
            Tag::Rename => "rename",
            Tag::CodeAction => "code_action",
            Tag::CodeActionResolve => "code_action_resolve",
            Tag::Signature => "signature",
            Tag::Symbols => "symbols",
            Tag::WorkspaceSymbols => "workspace_symbols",
            Tag::Formatting => "formatting",
            Tag::Shutdown => "shutdown",
            Tag::ExecuteCommand => "execute",
        }
    }
}

/// What came of a server's message.
pub enum Event {
    /// A definition to jump to.
    Definition(Location),
    Hover(String),
    References(Vec<Location>),
    /// A workspace edit to apply.
    ApplyEdit(Value),
    /// The code actions for the range that was asked about.
    CodeActions(Vec<Value>),
    /// A code action ready to apply and run.
    CodeActionResolved(Value),
    /// The signature being typed, and where its active parameter stands.
    Signature(Option<(String, Option<(usize, usize)>)>),
    /// Symbols; true for those of the whole project.
    Symbols(Vec<Symbol>, bool),
    /// Edits that format the document that was asked about.
    Formatting(Vec<Value>),
    Diagnostics(String, Vec<Diagnostic>),
    /// Completions as (label, text to insert, documentation), and whether they
    /// answer the request made while an identifier was being typed.
    Completions(Vec<(String, String, String)>, bool),
    /// A completion's label and its documentation.
    CompletionResolved(String, String),
    Status(String),
}

pub enum EventView {
    Definition(LocationView),
    Hover(Seq<char>),
    References(Seq<LocationView>),
    ApplyEdit(Json),
    CodeActions(Seq<Json>),
    CodeActionResolved(Json),
    Signature(Option<(Seq<char>, Option<(usize, usize)>)>),
    Symbols(Seq<SymbolView>, bool),
    Formatting(Seq<Json>),
    Diagnostics(Seq<char>, Seq<DiagnosticView>),
    Completions(Seq<(Seq<char>, Seq<char>, Seq<char>)>, bool),
    CompletionResolved(Seq<char>, Seq<char>),
    Status(Seq<char>),
}

impl View for Event {
    type V = EventView;

    open spec fn view(&self) -> EventView {
        match self {
            Event::Definition(l) => EventView::Definition(l@),
            Event::Hover(t) => EventView::Hover(t@),
            Event::References(v) => EventView::References(location_views(v@)),
            Event::ApplyEdit(v) => EventView::ApplyEdit(json_of(*v)),
            Event::CodeActions(v) => EventView::CodeActions(jsons(v@)),
            Event::CodeActionResolved(v) => EventView::CodeActionResolved(json_of(*v)),
            Event::Signature(s) => EventView::Signature(signature_view(*s)),
            Event::Symbols(v, b) => EventView::Symbols(symbol_views(v@), *b),
            Event::Formatting(v) => EventView::Formatting(jsons(v@)),
            Event::Diagnostics(p, v) => EventView::Diagnostics(p@, diagnostic_views(v@)),
            Event::Completions(v, b) => EventView::Completions(triple_views(v@), *b),
            Event::CompletionResolved(a, b) => EventView::CompletionResolved(a@, b@),
            Event::Status(t) => EventView::Status(t@),
        }
    }
}

pub open spec fn event_views(v: Seq<Event>) -> Seq<EventView> {
    Seq::new(v.len(), |i: int| v[i]@)
}

// ---- messages -----------------------------------------------------------------

/// A request: it has a number, and an answer will.
pub open spec fn is_request(m: Json, id: i64, method: Seq<char>, params: Json) -> bool {
    is_object(
        m,
        seq![
            ("jsonrpc"@, Json::Text("2.0"@)),
            ("id"@, int_json(id)),
            ("method"@, Json::Text(method)),
            ("params"@, params),
        ],
    )
}

/// A notification: nothing answers it.
pub open spec fn is_notification(m: Json, method: Seq<char>, params: Json) -> bool {
    is_object(
        m,
        seq![("jsonrpc"@, Json::Text("2.0"@)), ("method"@, Json::Text(method)), ("params"@, params)],
    )
}

/// The answer to a request of the server.
pub open spec fn is_reply(m: Json, id: Json, result: Json) -> bool {
    is_object(m, seq![("jsonrpc"@, Json::Text("2.0"@)), ("id"@, id), ("result"@, result)])
}

proof fn lemma_keys()
    ensures
        "jsonrpc"@ != "id"@,
        "jsonrpc"@ != "method"@,
        "jsonrpc"@ != "params"@,
        "jsonrpc"@ != "result"@,
        "id"@ != "method"@,
        "id"@ != "params"@,
        "id"@ != "result"@,
        "method"@ != "params"@,
        "uri"@ != "version"@,
        "uri"@ != "languageId"@,
        "uri"@ != "text"@,
        "languageId"@ != "version"@,
        "languageId"@ != "text"@,
        "version"@ != "text"@,
        "line"@ != "character"@,
        "start"@ != "end"@,
        "range"@ != "text"@,
        "textDocument"@ != "contentChanges"@,
        "textDocument"@ != "position"@,
        "processId"@ != "rootUri"@,
        "processId"@ != "capabilities"@,
        "rootUri"@ != "capabilities"@,
{
    reveal_strlit("jsonrpc");
    reveal_strlit("id");
    reveal_strlit("method");
    reveal_strlit("params");
    reveal_strlit("result");
    reveal_strlit("uri");
    reveal_strlit("version");
    reveal_strlit("languageId");
    reveal_strlit("text");
    reveal_strlit("line");
    reveal_strlit("character");
    reveal_strlit("start");
    reveal_strlit("end");
    reveal_strlit("range");
    reveal_strlit("textDocument");
    reveal_strlit("contentChanges");
    reveal_strlit("position");
    reveal_strlit("processId");
    reveal_strlit("rootUri");
    reveal_strlit("capabilities");
    assert("jsonrpc"@.len() == 7);
    assert("id"@.len() == 2);
    assert("method"@.len() == 6);
    assert("params"@.len() == 6);
    assert("result"@.len() == 6);
    assert("uri"@.len() == 3);
    assert("version"@.len() == 7);
    assert("languageId"@.len() == 10);
    assert("text"@.len() == 4);
    assert("line"@.len() == 4);
    assert("character"@.len() == 9);
    assert("start"@.len() == 5);
    assert("end"@.len() == 3);
    assert("range"@.len() == 5);
    assert("textDocument"@.len() == 12);
    assert("contentChanges"@.len() == 14);
    assert("position"@.len() == 8);
    assert("processId"@.len() == 9);
    assert("rootUri"@.len() == 7);
    assert("capabilities"@.len() == 12);
    assert("method"@[0] != "params"@[0]);
}

fn request_message(id: i64, method: &str, params: Value) -> (r: Value)
    ensures
        is_request(json_of(r), id, method@, json_of(params)),
{
    proof {
        lemma_keys();
    }
    object4(
        "jsonrpc",
        from_text("2.0"),
        "id",
        from_i64(id),
        "method",
        from_text(method),
        "params",
        params,
    )
}

fn notification_message(method: &str, params: Value) -> (r: Value)
    ensures
        is_notification(json_of(r), method@, json_of(params)),
{
    proof {
        lemma_keys();
    }
    object3("jsonrpc", from_text("2.0"), "method", from_text(method), "params", params)
}

fn reply_message(id: Value, result: Value) -> (r: Value)
    ensures
        is_reply(json_of(r), json_of(id), json_of(result)),
{
    proof {
        lemma_keys();
    }
    object3("jsonrpc", from_text("2.0"), "id", id, "result", result)
}

// ---- the client -----------------------------------------------------------------

pub struct Client {
    /// The command line that the server was started from: its identity.
    pub command: String,
    /// Messages to send, in order.
    pub outbox: Vec<Value>,
    pub next_id: i64,
    /// Requests that have no answer yet.
    pub pending: Vec<(i64, Tag)>,
    pub ready: bool,
    /// Messages that wait for the handshake.
    pub queued: Vec<Value>,
    /// Of each file the version that the server has, and the revision of the
    /// buffer that it is.
    pub synced: Vec<(String, (i64, u64))>,
    /// The completions of the last answer, by label.
    pub completion_items: Vec<(String, Value)>,
    /// Characters that pop up the completion menu.
    pub triggers: Vec<char>,
    /// Characters that ask for signature help.
    pub signature_triggers: Vec<char>,
    /// How the server takes changes.
    pub sync_kind: u64,
    /// The server can format documents itself.
    pub formatting: bool,
    pub dead: bool,
}

pub struct ClientView {
    pub command: Seq<char>,
    pub outbox: Seq<Json>,
    pub next_id: i64,
    pub pending: Seq<(i64, Tag)>,
    pub ready: bool,
    pub queued: Seq<Json>,
    pub synced: Seq<(Seq<char>, (i64, u64))>,
    pub completion_items: Seq<(Seq<char>, Json)>,
    pub triggers: Seq<char>,
    pub signature_triggers: Seq<char>,
    pub sync_kind: u64,
    pub formatting: bool,
    pub dead: bool,
}

pub open spec fn synced_views(v: Seq<(String, (i64, u64))>) -> Seq<(Seq<char>, (i64, u64))> {
    Seq::new(v.len(), |i: int| (v[i].0@, v[i].1))
}

impl View for Client {
    type V = ClientView;

    open spec fn view(&self) -> ClientView {
        ClientView {
            command: self.command@,
            outbox: jsons(self.outbox@),
            next_id: self.next_id,
            pending: self.pending@,
            ready: self.ready,
            queued: jsons(self.queued@),
            synced: synced_views(self.synced@),
            completion_items: crate::json::json_entries(self.completion_items@),
            triggers: self.triggers@,
            signature_triggers: self.signature_triggers@,
            sync_kind: self.sync_kind,
            formatting: self.formatting,
            dead: self.dead,
        }
    }
}

pub open spec fn new_client(command: Seq<char>) -> ClientView {
    ClientView {
        command,
        outbox: Seq::empty(),
        next_id: 0,
        pending: Seq::empty(),
        ready: false,
        queued: Seq::empty(),
        synced: Seq::empty(),
        completion_items: Seq::empty(),
        triggers: Seq::empty(),
        signature_triggers: Seq::empty(),
        sync_kind: 1,
        formatting: false,
        dead: false,
    }
}

/// A message sent, or kept until the handshake is done.
pub open spec fn sent(c: ClientView, m: Json, now: bool) -> ClientView {
    if c.ready || now {
        ClientView { outbox: c.outbox.push(m), ..c }
    } else {
        ClientView { queued: c.queued.push(m), ..c }
    }
}

/// A client with one more request under way.
pub open spec fn asked(c: ClientView, tag: Tag) -> ClientView {
    let id = c.next_id.wrapping_add(1);
    ClientView { next_id: id, pending: c.pending.push((id, tag)), ..c }
}

pub open spec fn requested(c: ClientView, method: Seq<char>, params: Json, tag: Tag, m: Json) -> ClientView {
    sent(asked(c, tag), m, tag == Tag::Initialize)
}

/// What the first entry from `i` on of a file says.
pub open spec fn synced_from(v: Seq<(Seq<char>, (i64, u64))>, path: Seq<char>, i: int) -> Option<
    (i64, u64),
>
    decreases v.len() - i,
{
    if i < 0 || i >= v.len() {
        None
    } else if v[i].0 == path {
        Some(v[i].1)
    } else {
        synced_from(v, path, i + 1)
    }
}

pub open spec fn synced_place(v: Seq<(Seq<char>, (i64, u64))>, path: Seq<char>, i: int) -> int
    decreases v.len() - i,
{
    if i < 0 || i >= v.len() || v[i].0 == path {
        i
    } else {
        synced_place(v, path, i + 1)
    }
}

/// A file's entry set.
pub open spec fn synced_set(v: Seq<(Seq<char>, (i64, u64))>, path: Seq<char>, to: (i64, u64)) -> Seq<
    (Seq<char>, (i64, u64)),
> {
    let k = synced_place(v, path, 0);
    if k < v.len() {
        v.update(k, (path, to))
    } else {
        v.push((path, to))
    }
}

impl Client {
    pub fn new(command: &str) -> (r: Client)
        ensures
            r@ == new_client(command@),
    {
        let r = Client {
            command: command.to_owned(),
            outbox: Vec::new(),
            next_id: 0,
            pending: Vec::new(),
            ready: false,
            queued: Vec::new(),
            synced: Vec::new(),
            completion_items: Vec::new(),
            triggers: Vec::new(),
            signature_triggers: Vec::new(),
            sync_kind: 1,
            formatting: false,
            dead: false,
        };
        assert(r@.outbox =~= Seq::empty());
        assert(r@.pending =~= Seq::empty());
        assert(r@.queued =~= Seq::empty());
        assert(r@.synced =~= Seq::empty());
        assert(r@.completion_items =~= Seq::empty());
        assert(r@.triggers =~= Seq::empty());
        assert(r@.signature_triggers =~= Seq::empty());
        r
    }

    fn write(&mut self, m: Value)
        ensures
            final(self)@ == (ClientView { outbox: old(self)@.outbox.push(json_of(m)), ..old(self)@ }),
    {
        let ghost had = self.outbox@;
        self.outbox.push(m);
        assert(jsons(self.outbox@) =~= jsons(had).push(json_of(m)));
    }

    /// Send now if the handshake is done, otherwise queue.
    fn send(&mut self, m: Value)
        ensures
            final(self)@ == sent(old(self)@, json_of(m), false),
    {
        if self.ready {
            self.write(m);
        } else {
            let ghost had = self.queued@;
            self.queued.push(m);
            assert(jsons(self.queued@) =~= jsons(had).push(json_of(m)));
        }
    }

    /// Any request; what comes of the answer is chosen by `tag`.
    pub fn request(&mut self, method: &str, params: Value, tag: Tag)
        ensures
            exists|m: Json| #[trigger]
                is_request(m, old(self)@.next_id.wrapping_add(1), method@, json_of(params))
                    && final(self)@ == requested(old(self)@, method@, json_of(params), tag, m),
    {
        let ghost c = self@;
        self.next_id = self.next_id.wrapping_add(1);
        self.pending.push((self.next_id, tag));
        assert(self@ == asked(c, tag));
        let m = request_message(self.next_id, method, params);
        let ghost j = json_of(m);
        assert(is_request(j, c.next_id.wrapping_add(1), method@, json_of(params)));
        if tag == Tag::Initialize {
            self.write(m);
        } else {
            self.send(m);
        }
    }

    fn notify(&mut self, method: &str, params: Value)
        ensures
            exists|m: Json| #[trigger]
                is_notification(m, method@, json_of(params)) && final(self)@ == sent(
                    old(self)@,
                    m,
                    false,
                ),
    {
        let m = notification_message(method, params);
        assert(is_notification(json_of(m), method@, json_of(params)));
        self.send(m);
    }
}

// ---- documents ------------------------------------------------------------------

/// A place in a document.
pub open spec fn is_position(j: Json, at: (usize, usize)) -> bool {
    is_object(
        j,
        seq![("line"@, number_json(at.0 as u64)), ("character"@, number_json(at.1 as u64))],
    )
}

pub open spec fn is_range(j: Json, from: (usize, usize), to: (usize, usize)) -> bool {
    &&& is_object(j, seq![("start"@, field(j, "start"@)), ("end"@, field(j, "end"@))])
    &&& is_position(field(j, "start"@), from)
    &&& is_position(field(j, "end"@), to)
}

/// One edit as the server takes it.
pub open spec fn is_change(j: Json, c: LspChangeView) -> bool {
    &&& is_object(j, seq![("range"@, field(j, "range"@)), ("text"@, Json::Text(c.text))])
    &&& is_range(field(j, "range"@), c.start, c.end)
}

pub open spec fn are_changes(v: Seq<Json>, cs: Seq<LspChangeView>) -> bool {
    v.len() == cs.len() && forall|i: int| 0 <= i < v.len() ==> is_change(#[trigger] v[i], cs[i])
}

/// A document by its address alone.
pub open spec fn names_document(j: Json, uri: Seq<char>) -> bool {
    &&& is_object(j, seq![("textDocument"@, field(j, "textDocument"@))])
    &&& is_object(field(j, "textDocument"@), seq![("uri"@, Json::Text(uri))])
}

/// The parameters that open a document.
pub open spec fn opens_document(j: Json, uri: Seq<char>, language: Seq<char>, text: Seq<char>) -> bool {
    &&& is_object(j, seq![("textDocument"@, field(j, "textDocument"@))])
    &&& is_object(
        field(j, "textDocument"@),
        seq![
            ("uri"@, Json::Text(uri)),
            ("languageId"@, Json::Text(language)),
            ("version"@, int_json(1)),
            ("text"@, Json::Text(text)),
        ],
    )
}

/// The parameters that change a document.
pub open spec fn changes_document(j: Json, uri: Seq<char>, version: i64, changes: Json) -> bool {
    &&& is_object(
        j,
        seq![("textDocument"@, field(j, "textDocument"@)), ("contentChanges"@, changes)],
    )
    &&& is_object(
        field(j, "textDocument"@),
        seq![("uri"@, Json::Text(uri)), ("version"@, int_json(version))],
    )
}

/// The whole text as one change.
pub open spec fn whole_change(j: Json, text: Seq<char>) -> bool {
    j matches Json::Array(items) && items.len() == 1 && is_object(
        items[0],
        seq![("text"@, Json::Text(text))],
    )
}

pub open spec fn asks_at(j: Json, uri: Seq<char>, at: (usize, usize)) -> bool {
    &&& is_object(
        j,
        seq![
            ("textDocument"@, field(j, "textDocument"@)),
            ("position"@, field(j, "position"@)),
        ],
    )
    &&& is_object(field(j, "textDocument"@), seq![("uri"@, Json::Text(uri))])
    &&& is_position(field(j, "position"@), at)
}

/// The entry of a file after one more change.
pub open spec fn bumped(c: ClientView, path: Seq<char>, revision: u64) -> (i64, u64) {
    let old = match synced_from(c.synced, path, 0) {
        Some((v, _)) => v,
        None => 0,
    };
    (old.wrapping_add(1), revision)
}

pub(crate) fn position_json(at: (usize, usize)) -> (r: Value)
    ensures
        is_position(json_of(r), at),
{
    proof {
        lemma_keys();
    }
    object2("line", from_u64(at.0 as u64), "character", from_u64(at.1 as u64))
}

pub(crate) proof fn lemma_two(k1: Seq<char>, v1: Json, k2: Seq<char>, v2: Json, j: Json)
    requires
        k1 != k2,
        is_object(j, seq![(k1, v1), (k2, v2)]),
    ensures
        field(j, k1) == v1,
        field(j, k2) == v2,
{
    reveal_with_fuel(crate::json::entry_from, 3);
    let e = seq![(k1, v1), (k2, v2)];
    assert(member(j, k1) == crate::json::entry_from(e, k1, 0));
    assert(member(j, k2) == crate::json::entry_from(e, k2, 0));
}

pub(crate) proof fn lemma_one(k: Seq<char>, v: Json, j: Json)
    requires
        is_object(j, seq![(k, v)]),
    ensures
        field(j, k) == v,
{
    reveal_with_fuel(crate::json::entry_from, 2);
    let e = seq![(k, v)];
    assert(member(j, k) == crate::json::entry_from(e, k, 0));
}

pub(crate) fn range_json(from: (usize, usize), to: (usize, usize)) -> (r: Value)
    ensures
        is_range(json_of(r), from, to),
{
    proof {
        lemma_keys();
    }
    let a = position_json(from);
    let b = position_json(to);
    let ghost ja = json_of(a);
    let ghost jb = json_of(b);
    let r = object2("start", a, "end", b);
    proof {
        lemma_two("start"@, ja, "end"@, jb, json_of(r));
    }
    r
}

fn change_json(c: &LspChange) -> (r: Value)
    ensures
        is_change(json_of(r), c@),
{
    proof {
        lemma_keys();
    }
    let range = range_json(c.start, c.end);
    let ghost jr = json_of(range);
    let r = object2("range", range, "text", from_text(c.text.as_str()));
    proof {
        lemma_two("range"@, jr, "text"@, Json::Text(c.text@), json_of(r));
    }
    r
}

fn document_json(uri: &str) -> (r: Value)
    ensures
        names_document(json_of(r), uri@),
{
    let doc = object1("uri", from_text(uri));
    let ghost jd = json_of(doc);
    let r = object1("textDocument", doc);
    proof {
        lemma_one("textDocument"@, jd, json_of(r));
    }
    r
}

/// The parameters of a request at a place in a document.
pub fn position_params(uri: &str, line: usize, utf16_col: usize) -> (r: Value)
    ensures
        asks_at(json_of(r), uri@, (line, utf16_col)),
{
    proof {
        lemma_keys();
    }
    let doc = object1("uri", from_text(uri));
    let pos = position_json((line, utf16_col));
    let ghost jd = json_of(doc);
    let ghost jp = json_of(pos);
    let r = object2("textDocument", doc, "position", pos);
    proof {
        lemma_two("textDocument"@, jd, "position"@, jp, json_of(r));
    }
    r
}

fn changed_json(uri: &str, version: i64, changes: Value) -> (r: Value)
    ensures
        changes_document(json_of(r), uri@, version, json_of(changes)),
{
    proof {
        lemma_keys();
    }
    let doc = object2("uri", from_text(uri), "version", from_i64(version));
    let ghost jd = json_of(doc);
    let ghost jc = json_of(changes);
    let r = object2("textDocument", doc, "contentChanges", changes);
    proof {
        lemma_two("textDocument"@, jd, "contentChanges"@, jc, json_of(r));
    }
    r
}

impl Client {
    fn synced_index(&self, path: &str) -> (r: usize)
        ensures
            r == synced_place(self@.synced, path@, 0),
            r <= self.synced@.len(),
            r < self.synced@.len() ==> synced_from(self@.synced, path@, 0) == Some(
                self.synced@[r as int].1,
            ),
            r == self.synced@.len() ==> synced_from(self@.synced, path@, 0) is None,
    {
        let ghost all = self@.synced;
        let mut i: usize = 0;
        while i < self.synced.len()
            invariant
                i <= self.synced@.len(),
                all == synced_views(self.synced@),
                synced_place(all, path@, 0) == synced_place(all, path@, i as int),
                synced_from(all, path@, 0) == synced_from(all, path@, i as int),
            decreases self.synced@.len() - i,
        {
            assert(all[i as int] == (self.synced@[i as int].0@, self.synced@[i as int].1));
            if same(self.synced[i].0.as_str(), path) {
                return i;
            }
            i += 1;
        }
        i
    }

    /// The version that the server has of a file, and the buffer's revision
    /// that it is.
    pub fn synced(&self, path: &str) -> (r: Option<(i64, u64)>)
        ensures
            r == synced_from(self@.synced, path@, 0),
    {
        let k = self.synced_index(path);
        if k < self.synced.len() {
            Some(self.synced[k].1)
        } else {
            None
        }
    }

    fn set_synced(&mut self, path: &str, to: (i64, u64))
        ensures
            final(self)@ == (ClientView {
                synced: synced_set(old(self)@.synced, path@, to),
                ..old(self)@
            }),
    {
        let ghost had = self.synced@;
        let k = self.synced_index(path);
        if k < self.synced.len() {
            self.synced.set(k, (path.to_owned(), to));
            assert(synced_views(self.synced@) =~= synced_views(had).update(k as int, (path@, to)));
        } else {
            self.synced.push((path.to_owned(), to));
            assert(synced_views(self.synced@) =~= synced_views(had).push((path@, to)));
        }
    }

    /// Tell the server of a document, with its whole text.
    pub fn did_open(&mut self, path: &str, uri: &str, text: &str, revision: u64)
        ensures
            exists|m: Json, p: Json| #[trigger]
                is_notification(m, "textDocument/didOpen"@, p) && opens_document(
                    p,
                    uri@,
                    language_of(
                        match crate::document::extension_of(path@) {
                            Some(e) => e,
                            None => Seq::empty(),
                        },
                    ),
                    text@,
                ) && final(self)@ == sent(
                    (ClientView {
                        synced: synced_set(old(self)@.synced, path@, (1, revision)),
                        ..old(self)@
                    }),
                    m,
                    false,
                ),
    {
        proof {
            lemma_keys();
        }
        self.set_synced(path, (1, revision));
        let language = language_id(path);
        let doc = object4(
            "uri",
            from_text(uri),
            "languageId",
            from_text(language.as_str()),
            "version",
            from_i64(1),
            "text",
            from_text(text),
        );
        let ghost jd = json_of(doc);
        let p = object1("textDocument", doc);
        proof {
            lemma_one("textDocument"@, jd, json_of(p));
        }
        self.notify("textDocument/didOpen", p);
    }

    /// Tell the server of a document's new text, all of it.
    pub fn did_change(&mut self, path: &str, uri: &str, text: &str, revision: u64)
        ensures
            exists|m: Json, p: Json| #[trigger]
                is_notification(m, "textDocument/didChange"@, p) && changes_document(
                    p,
                    uri@,
                    bumped(old(self)@, path@, revision).0,
                    field(p, "contentChanges"@),
                ) && whole_change(field(p, "contentChanges"@), text@) && final(self)@ == sent(
                    (ClientView {
                        synced: synced_set(
                            old(self)@.synced,
                            path@,
                            bumped(old(self)@, path@, revision),
                        ),
                        ..old(self)@
                    }),
                    m,
                    false,
                ),
    {
        proof {
            lemma_keys();
        }
        let old_version: i64 = match self.synced(path) {
            Some((v, _)) => v,
            None => 0,
        };
        let version = old_version.wrapping_add(1);
        self.set_synced(path, (version, revision));
        let one = object1("text", from_text(text));
        let ghost j1 = json_of(one);
        let mut list: Vec<Value> = Vec::new();
        list.push(one);
        assert(jsons(list@)[0] == j1);
        let changes = from_array(list);
        let ghost jc = json_of(changes);
        let p = changed_json(uri, version, changes);
        proof {
            lemma_two(
                "textDocument"@,
                field(json_of(p), "textDocument"@),
                "contentChanges"@,
                jc,
                json_of(p),
            );
        }
        self.notify("textDocument/didChange", p);
    }

    /// Tell the server of the changed parts alone.
    pub fn did_change_incremental(
        &mut self,
        path: &str,
        uri: &str,
        changes: &Vec<LspChange>,
        revision: u64,
    )
        ensures
            exists|m: Json, p: Json| #[trigger]
                is_notification(m, "textDocument/didChange"@, p) && changes_document(
                    p,
                    uri@,
                    bumped(old(self)@, path@, revision).0,
                    field(p, "contentChanges"@),
                ) && (field(p, "contentChanges"@) matches Json::Array(items) && are_changes(
                    items,
                    lsp_views(changes@),
                )) && final(self)@ == sent(
                    (ClientView {
                        synced: synced_set(
                            old(self)@.synced,
                            path@,
                            bumped(old(self)@, path@, revision),
                        ),
                        ..old(self)@
                    }),
                    m,
                    false,
                ),
    {
        proof {
            lemma_keys();
        }
        let old_version: i64 = match self.synced(path) {
            Some((v, _)) => v,
            None => 0,
        };
        let version = old_version.wrapping_add(1);
        self.set_synced(path, (version, revision));
        let ghost mid = self@;
        let mut list: Vec<Value> = Vec::new();
        let mut i: usize = 0;
        while i < changes.len()
            invariant
                i <= changes@.len(),
                self@ == mid,
                list@.len() == i,
                forall|k: int|
                    0 <= k < i ==> is_change(#[trigger] json_of(list@[k]), changes@[k]@),
            decreases changes@.len() - i,
        {
            let c = change_json(&changes[i]);
            list.push(c);
            i += 1;
        }
        let ghost items = jsons(list@);
        assert(are_changes(items, lsp_views(changes@))) by {
            assert forall|k: int| 0 <= k < items.len() implies is_change(
                #[trigger] items[k],
                lsp_views(changes@)[k],
            ) by {
                assert(items[k] == json_of(list@[k]));
            }
        }
        let all = from_array(list);
        let ghost jc = json_of(all);
        let p = changed_json(uri, version, all);
        proof {
            lemma_two(
                "textDocument"@,
                field(json_of(p), "textDocument"@),
                "contentChanges"@,
                jc,
                json_of(p),
            );
        }
        self.notify("textDocument/didChange", p);
    }

    /// Whether the server takes changed parts.
    pub fn incremental(&self) -> (r: bool)
        ensures
            r == (self@.sync_kind == 2),
    {
        self.sync_kind == 2
    }

    /// Tell the server that a file it knows was written.
    pub fn did_save(&mut self, path: &str, uri: &str)
        ensures
            synced_from(old(self)@.synced, path@, 0) is None ==> final(self)@ == old(self)@,
            synced_from(old(self)@.synced, path@, 0) is Some ==> exists|m: Json, p: Json| #[trigger]
                is_notification(m, "textDocument/didSave"@, p) && names_document(p, uri@)
                    && final(self)@ == sent(old(self)@, m, false),
    {
        if self.synced(path).is_some() {
            let p = document_json(uri);
            self.notify("textDocument/didSave", p);
        }
    }

    /// Tell the server that a file it knows is no longer open.
    pub fn did_close(&mut self, path: &str, uri: &str)
        ensures
            synced_from(old(self)@.synced, path@, 0) is None ==> final(self)@ == old(self)@,
            synced_from(old(self)@.synced, path@, 0) is Some ==> exists|m: Json, p: Json| #[trigger]
                is_notification(m, "textDocument/didClose"@, p) && names_document(p, uri@)
                    && final(self)@ == sent(
                    (ClientView {
                        synced: old(self)@.synced.remove(
                            synced_place(old(self)@.synced, path@, 0),
                        ),
                        ..old(self)@
                    }),
                    m,
                    false,
                ),
    {
        let k = self.synced_index(path);
        if k < self.synced.len() {
            let ghost had = self.synced@;
            let gone = self.synced.remove(k);
            assert(synced_views(self.synced@) =~= synced_views(had).remove(k as int));
            let p = document_json(uri);
            self.notify("textDocument/didClose", p);
        }
    }

    /// A request at a place in a document.
    pub fn request_position(
        &mut self,
        tag: Tag,
        method: &str,
        uri: &str,
        line: usize,
        utf16_col: usize,
    )
        ensures
            exists|m: Json, p: Json| #[trigger]
                is_request(m, old(self)@.next_id.wrapping_add(1), method@, p) && asks_at(
                    p,
                    uri@,
                    (line, utf16_col),
                ) && final(self)@ == requested(old(self)@, method@, p, tag, m),
    {
        let p = position_params(uri, line, utf16_col);
        self.request(method, p, tag);
    }

    /// Whether typing a character asks for signature help.
    pub fn triggers_signature(&self, c: char) -> (r: bool)
        ensures
            r == self@.signature_triggers.contains(c),
    {
        holds_char(&self.signature_triggers, c)
    }

    /// Whether typing a character asks for completions.
    pub fn triggers_completion(&self, c: char) -> (r: bool)
        ensures
            r == self@.triggers.contains(c),
    {
        holds_char(&self.triggers, c)
    }

    pub fn can_format(&self) -> (r: bool)
        ensures
            r == self@.formatting,
    {
        self.formatting
    }

    pub fn is_dead(&self) -> (r: bool)
        ensures
            r == self@.dead,
    {
        self.dead
    }

    pub fn command(&self) -> (r: &str)
        ensures
            r@ == self@.command,
    {
        self.command.as_str()
    }
}

fn holds_char(v: &Vec<char>, c: char) -> (r: bool)
    ensures
        r == v@.contains(c),
{
    let mut i: usize = 0;
    while i < v.len()
        invariant
            i <= v@.len(),
            forall|k: int| 0 <= k < i ==> v@[k] != c,
        decreases v@.len() - i,
    {
        if v[i] == c {
            assert(v@[i as int] == c);
            return true;
        }
        i += 1;
    }
    false
}

// ---- the handshake and the end --------------------------------------------------

/// What this client can do, as it tells the server.
pub const CAPABILITIES: &'static str = "{\"workspace\":{\"applyEdit\":true,\"workspaceEdit\":{\"documentChanges\":true},\"symbol\":{},\"executeCommand\":{}},\"textDocument\":{\"synchronization\":{\"didSave\":true},\"publishDiagnostics\":{},\"hover\":{\"contentFormat\":[\"plaintext\",\"markdown\"]},\"completion\":{\"completionItem\":{\"documentationFormat\":[\"plaintext\",\"markdown\"],\"resolveSupport\":{\"properties\":[\"documentation\",\"detail\"]}}},\"references\":{},\"rename\":{},\"formatting\":{},\"documentSymbol\":{\"hierarchicalDocumentSymbolSupport\":true},\"signatureHelp\":{\"signatureInformation\":{\"parameterInformation\":{\"labelOffsetSupport\":true}}},\"codeAction\":{\"codeActionLiteralSupport\":{\"codeActionKind\":{\"valueSet\":[\"\",\"quickfix\",\"refactor\",\"refactor.extract\",\"refactor.inline\",\"refactor.rewrite\",\"source\",\"source.organizeImports\"]}},\"resolveSupport\":{\"properties\":[\"edit\"]}}}}";

pub open spec fn capabilities() -> Json {
    match json_read(CAPABILITIES@) {
        Some(j) => j,
        None => Json::Null,
    }
}

pub open spec fn introduces(p: Json, process: u64, root_uri: Seq<char>) -> bool {
    is_object(
        p,
        seq![
            ("processId"@, number_json(process)),
            ("rootUri"@, Json::Text(root_uri)),
            ("capabilities"@, capabilities()),
        ],
    )
}

/// The message that ends a server.
pub open spec fn is_exit(m: Json) -> bool {
    is_object(m, seq![("jsonrpc"@, Json::Text("2.0"@)), ("method"@, Json::Text("exit"@))])
}

/// The request to shut down, as the next one of a client.
pub open spec fn is_shutdown(m: Json, c: ClientView) -> bool {
    is_request(m, c.next_id.wrapping_add(1), "shutdown"@, Json::Null)
}

/// What the last completion from the `n`th back with a label came with.
pub open spec fn item_before(v: Seq<(Seq<char>, Json)>, label: Seq<char>, n: nat) -> Option<Json>
    decreases n,
{
    if n == 0 || n > v.len() {
        None
    } else if v[n - 1].0 == label {
        Some(v[n - 1].1)
    } else {
        item_before(v, label, (n - 1) as nat)
    }
}

impl Client {
    /// A client that has asked the server to begin.
    pub fn start(command: &str, process: u64, root_uri: &str) -> (r: Client)
        ensures
            exists|m: Json, p: Json| #[trigger]
                is_request(m, 1, "initialize"@, p) && introduces(p, process, root_uri@) && r@
                    == requested(new_client(command@), "initialize"@, p, Tag::Initialize, m),
    {
        proof {
            lemma_keys();
        }
        let mut client = Client::new(command);
        let caps = match parse_json(CAPABILITIES) {
            Some(v) => v,
            None => null(),
        };
        let p = object3(
            "processId",
            from_u64(process),
            "rootUri",
            from_text(root_uri),
            "capabilities",
            caps,
        );
        client.request("initialize", p, Tag::Initialize);
        client
    }

    /// Ask the server to fill in a completion of its last answer.
    pub fn resolve_completion(&mut self, label: &str)
        ensures
            match item_before(
                old(self)@.completion_items,
                label@,
                old(self)@.completion_items.len(),
            ) {
                None => final(self)@ == old(self)@,
                Some(item) => exists|m: Json| #[trigger]
                    is_request(
                        m,
                        old(self)@.next_id.wrapping_add(1),
                        "completionItem/resolve"@,
                        item,
                    ) && final(self)@ == requested(
                        old(self)@,
                        "completionItem/resolve"@,
                        item,
                        Tag::Resolve,
                        m,
                    ),
            },
    {
        let ghost all = self@.completion_items;
        let ghost c = self@;
        let mut n: usize = self.completion_items.len();
        while n > 0
            invariant
                n <= self.completion_items@.len(),
                *self == *old(self),
                self@ == c,
                all == c.completion_items,
                all.len() == self.completion_items@.len(),
                item_before(all, label@, all.len()) == item_before(all, label@, n as nat),
            decreases n,
        {
            assert(all[n - 1] == (
                self.completion_items@[n - 1].0@,
                json_of(self.completion_items@[n - 1].1),
            ));
            if same(self.completion_items[n - 1].0.as_str(), label) {
                let item = copy(&self.completion_items[n - 1].1);
                self.request("completionItem/resolve", item, Tag::Resolve);
                return ;
            }
            n -= 1;
        }
    }

    /// The goodbyes, once what was opened is closed: a server that is ready is
    /// asked to shut down, and any is told to exit.
    pub fn say_goodbye(&mut self)
        ensures
            old(self)@.ready ==> exists|ask: Json, exit: Json|
                #![trigger is_shutdown(ask, old(self)@), is_exit(exit)]
                is_shutdown(ask, old(self)@) && is_exit(exit) && final(self)@ == sent(
                    requested(old(self)@, "shutdown"@, Json::Null, Tag::Shutdown, ask),
                    exit,
                    true,
                ),
            !old(self)@.ready ==> exists|exit: Json| #[trigger]
                is_exit(exit) && final(self)@ == sent(old(self)@, exit, true),
    {
        proof {
            lemma_keys();
        }
        let ghost c = self@;
        let ghost mut ask = Json::Null;
        if self.ready {
            self.request("shutdown", null(), Tag::Shutdown);
            proof {
                ask = choose|m: Json| #[trigger]
                    is_request(m, c.next_id.wrapping_add(1), "shutdown"@, Json::Null) && self@
                        == requested(c, "shutdown"@, Json::Null, Tag::Shutdown, m);
                assert(is_shutdown(ask, c));
            }
        }
        let exit = object2("jsonrpc", from_text("2.0"), "method", from_text("exit"));
        assert(is_exit(json_of(exit)));
        self.write(exit);
    }

    /// The server is gone: what to say of it, the first time.
    pub fn exited(&mut self) -> (r: Option<String>)
        ensures
            final(self)@ == (ClientView { dead: true, ..old(self)@ }),
            match r {
                Some(t) => !old(self)@.dead && t@ == (if words(old(self)@.command).len() > 0 {
                    words(old(self)@.command)[0]
                } else {
                    "server"@
                }) + " exited"@,
                None => old(self)@.dead,
            },
    {
        if self.dead {
            return None;
        }
        self.dead = true;
        let c = chars_of(self.command.as_str());
        let ws = words_of(c.as_slice());
        assert(crate::strings::slices(ws@).len() == ws@.len());
        let mut out: Vec<char> = Vec::new();
        if ws.len() > 0 {
            assert(crate::strings::slices(ws@)[0] == ws@[0]@);
            crate::strings::push_all(&mut out, ws[0]);
        } else {
            push_lit(&mut out, "server");
        }
        push_lit(&mut out, " exited");
        Some(string_of(out.as_slice()))
    }
}

// ---- the server's messages --------------------------------------------------------

pub open spec fn method_of(j: Json) -> Option<Seq<char>> {
    match member(j, "method"@) {
        Some(m) => text_of(m),
        None => None,
    }
}

/// What the first request from `i` on with this number was made for.
pub open spec fn pending_from(v: Seq<(i64, Tag)>, id: i64, i: int) -> Option<int>
    decreases v.len() - i,
{
    if i < 0 || i >= v.len() {
        None
    } else if v[i].0 == id {
        Some(i)
    } else {
        pending_from(v, id, i + 1)
    }
}

/// The first characters of the texts of a list.
pub open spec fn first_chars(items: Seq<Json>, n: nat) -> Seq<char>
    decreases n,
{
    if n == 0 || n > items.len() {
        Seq::empty()
    } else {
        let head = first_chars(items, (n - 1) as nat);
        match text_of(items[n - 1]) {
            Some(t) => if t.len() > 0 {
                head.push(t[0])
            } else {
                head
            },
            None => head,
        }
    }
}

pub open spec fn chars_in(j: Json) -> Seq<char> {
    match array_of(j) {
        Some(items) => first_chars(items, items.len()),
        None => Seq::empty(),
    }
}

pub open spec fn sync_kind_of(caps: Json) -> u64 {
    let v = field(caps, "textDocumentSync"@);
    let n = if kind_of(v) == JsonKind::Number {
        u64_of(v)
    } else {
        u64_of(field(v, "change"@))
    };
    match n {
        Some(n) => n,
        None => 1,
    }
}

pub open spec fn formatting_of(caps: Json) -> bool {
    match field(caps, "documentFormattingProvider"@) {
        Json::Bool(b) => b,
        Json::Object(_) => true,
        _ => false,
    }
}

/// The client once the server has said what it can do.
pub open spec fn initialized(c: ClientView, result: Json) -> ClientView {
    let caps = field(result, "capabilities"@);
    let signature = field(caps, "signatureHelpProvider"@);
    ClientView {
        ready: true,
        triggers: chars_in(deep(caps, "completionProvider"@, "triggerCharacters"@)),
        signature_triggers: chars_in(field(signature, "triggerCharacters"@)) + chars_in(
            field(signature, "retriggerCharacters"@),
        ),
        sync_kind: sync_kind_of(caps),
        formatting: formatting_of(caps),
        ..c
    }
}

pub open spec fn raw_upto(items: Seq<Json>, n: nat) -> Seq<(Seq<char>, Json)>
    decreases n,
{
    if n == 0 || n > items.len() {
        Seq::empty()
    } else {
        let head = raw_upto(items, (n - 1) as nat);
        match text_of(field(items[n - 1], "label"@)) {
            Some(l) => head.push((trim(l), items[n - 1])),
            None => head,
        }
    }
}

/// The completions of an answer by label, as they came.
pub open spec fn raw_items_of(result: Json) -> Seq<(Seq<char>, Json)> {
    raw_upto(items_of(result), looked_at(items_of(result)))
}

/// Requests that were not the user's fail quietly.
pub open spec fn quiet(t: Tag) -> bool {
    t == Tag::CompletionTyped || t == Tag::Resolve || t == Tag::Signature || t == Tag::Shutdown
}

pub open spec fn items_or_none(j: Json) -> Seq<Json> {
    match array_of(j) {
        Some(items) => items,
        None => Seq::empty(),
    }
}

/// What comes of an answer.
pub open spec fn answer_events(tag: Tag, result: Json) -> Seq<EventView> {
    match tag {
        Tag::Definition => seq![
            match first_location(result) {
                Some(l) => EventView::Definition(l),
                None => EventView::Status("no definition found"@),
            },
        ],
        Tag::Hover => seq![
            match hover_of(result) {
                Some(t) => EventView::Hover(t),
                None => EventView::Status("no hover info"@),
            },
        ],
        Tag::Completion => seq![EventView::Completions(completions_of(result), false)],
        Tag::CompletionTyped => seq![EventView::Completions(completions_of(result), true)],
        Tag::Resolve => match text_of(field(result, "label"@)) {
            Some(l) => seq![EventView::CompletionResolved(trim(l), info_of(result))],
            None => Seq::empty(),
        },
        Tag::References => seq![EventView::References(locations_of(result))],
        Tag::Rename => seq![
            if result is Null {
                EventView::Status("nothing to rename here"@)
            } else {
                EventView::ApplyEdit(result)
            },
        ],
        Tag::CodeAction => seq![EventView::CodeActions(items_or_none(result))],
        Tag::CodeActionResolve => seq![EventView::CodeActionResolved(result)],
        Tag::Signature => seq![EventView::Signature(signature_of(result))],
        Tag::Symbols => seq![EventView::Symbols(symbols_of(result), false)],
        Tag::WorkspaceSymbols => seq![EventView::Symbols(symbols_of(result), true)],
        Tag::Formatting => seq![EventView::Formatting(items_or_none(result))],
        _ => Seq::empty(),
    }
}

pub open spec fn failure_events(tag: Tag, err: Json) -> Seq<EventView> {
    if quiet(tag) {
        Seq::empty()
    } else {
        seq![
            EventView::Status(
                tag_text(tag) + ": "@ + (match text_of(field(err, "message"@)) {
                    Some(t) => t,
                    None => "request failed"@,
                }),
            ),
        ]
    }
}

pub open spec fn diagnostics_upto(items: Seq<Json>, n: nat) -> Seq<DiagnosticView>
    decreases n,
{
    if n == 0 || n > items.len() {
        Seq::empty()
    } else {
        let head = diagnostics_upto(items, (n - 1) as nat);
        match diagnostic_of(items[n - 1]) {
            Some(d) => head.push(d),
            None => head,
        }
    }
}

pub open spec fn published(params: Json) -> Seq<EventView> {
    match text_of(field(params, "uri"@)) {
        None => Seq::empty(),
        Some(u) => match path_of(u) {
            None => Seq::empty(),
            Some(path) => {
                let items = items_or_none(field(params, "diagnostics"@));
                seq![EventView::Diagnostics(path, diagnostics_upto(items, items.len()))]
            },
        },
    }
}

/// What is answered to a request of the server: an empty default, so that it
/// never waits.
pub open spec fn is_answer(result: Json, method: Seq<char>, j: Json) -> bool {
    if method == "workspace/applyEdit"@ {
        is_object(result, seq![("applied"@, Json::Bool(true))])
    } else if method == "workspace/configuration"@ {
        result matches Json::Array(items) && items.len() == items_or_none(
            deep(j, "params"@, "items"@),
        ).len() && forall|i: int|
            0 <= i < items.len() ==> is_object(#[trigger] items[i], Seq::empty())
    } else {
        result is Null
    }
}

/// A message of the server handled: `after` is the client then, `events` what
/// came of it.
pub open spec fn handled(c: ClientView, j: Json, after: ClientView, events: Seq<EventView>) -> bool {
    match (method_of(j), member(j, "id"@)) {
        (Some(method), Some(id)) => {
            &&& events == (if method == "workspace/applyEdit"@ {
                seq![EventView::ApplyEdit(deep(j, "params"@, "edit"@))]
            } else {
                Seq::empty()
            })
            &&& exists|m: Json, result: Json| #[trigger]
                is_reply(m, id, result) && is_answer(result, method, j) && after == (ClientView {
                    outbox: c.outbox.push(m),
                    ..c
                })
        },
        (Some(method), None) => {
            &&& after == c
            &&& events == (if method == "textDocument/publishDiagnostics"@ {
                published(field(j, "params"@))
            } else {
                Seq::empty()
            })
        },
        (None, Some(id)) => match i64_of(id) {
            None => after == c && events == Seq::<EventView>::empty(),
            Some(n) => match pending_from(c.pending, n, 0) {
                None => after == c && events == Seq::<EventView>::empty(),
                Some(k) => answered(
                    ClientView { pending: c.pending.remove(k), ..c },
                    j,
                    c.pending[k].1,
                    after,
                    events,
                ),
            },
        },
        (None, None) => after == c && events == Seq::<EventView>::empty(),
    }
}

/// An answer to one of the client's requests handled.
pub open spec fn answered(
    c: ClientView,
    j: Json,
    tag: Tag,
    after: ClientView,
    events: Seq<EventView>,
) -> bool {
    let result = field(j, "result"@);
    match member(j, "error"@) {
        Some(err) => after == c && events == failure_events(tag, err),
        None => {
            &&& events == answer_events(tag, result)
            &&& if tag == Tag::Initialize {
                let i = initialized(c, result);
                exists|m: Json, p: Json| #[trigger]
                    is_notification(m, "initialized"@, p) && is_object(p, Seq::empty()) && after
                        == (ClientView {
                        outbox: i.outbox.push(m) + i.queued,
                        queued: Seq::empty(),
                        ..i
                    })
            } else if tag == Tag::Completion || tag == Tag::CompletionTyped {
                after == (ClientView { completion_items: raw_items_of(result), ..c })
            } else {
                after == c
            }
        },
    }
}

fn read_chars(v: &Value) -> (r: Vec<char>)
    ensures
        r@ == chars_in(json_of(*v)),
{
    let mut out: Vec<char> = Vec::new();
    if let Some(items) = as_array(v) {
        let ghost all = jsons(items@);
        let mut i: usize = 0;
        while i < items.len()
            invariant
                i <= items@.len(),
                all == jsons(items@),
                out@ == first_chars(all, i as nat),
            decreases items@.len() - i,
        {
            assert(all[i as int] == json_of(items@[i as int]));
            if let Some(t) = as_text(&items[i]) {
                let c = chars_of(t);
                if c.len() > 0 {
                    out.push(c[0]);
                }
            }
            i += 1;
        }
    }
    out
}

pub(crate) fn copy_items(v: &Value) -> (r: Vec<Value>)
    ensures
        jsons(r@) == items_or_none(json_of(*v)),
{
    let mut out: Vec<Value> = Vec::new();
    assert(jsons(out@) =~= Seq::empty());
    if let Some(items) = as_array(v) {
        let ghost all = jsons(items@);
        let mut i: usize = 0;
        while i < items.len()
            invariant
                i <= items@.len(),
                out@.len() == i,
                forall|k: int| 0 <= k < i ==> json_of(#[trigger] out@[k]) == json_of(items@[k]),
            decreases items@.len() - i,
        {
            out.push(copy(&items[i]));
            i += 1;
        }
        assert(jsons(out@) =~= all);
    }
    out
}

fn raw_items(result: &Value) -> (r: Vec<(String, Value)>)
    ensures
        crate::json::json_entries(r@) == raw_items_of(json_of(*result)),
{
    let none: Vec<Value> = Vec::new();
    let items = crate::lsp_parse::items_in(result, &none);
    let ghost all = jsons(items@);
    let n: usize = if items.len() <= COMPLETION_ITEMS {
        items.len()
    } else {
        COMPLETION_ITEMS
    };
    let mut out: Vec<(String, Value)> = Vec::new();
    let mut i: usize = 0;
    assert(crate::json::json_entries(out@) =~= Seq::empty());
    while i < n
        invariant
            i <= n <= items@.len(),
            all == jsons(items@),
            crate::json::json_entries(out@) == raw_upto(all, i as nat),
        decreases n - i,
    {
        let item = &items[i];
        assert(all[i as int] == json_of(*item));
        if let Some(l) = as_text(at(item, "label")) {
            let lc = chars_of(l);
            let label = string_of(trimmed(lc.as_slice()));
            let ghost had = out@;
            let ghost new = (label@, json_of(*item));
            out.push((label, copy(item)));
            assert(crate::json::json_entries(out@) =~= crate::json::json_entries(had).push(new));
        }
        i += 1;
    }
    out
}

fn read_diagnostics(v: &Value) -> (r: Vec<Diagnostic>)
    ensures
        diagnostic_views(r@) == diagnostics_upto(
            items_or_none(json_of(*v)),
            items_or_none(json_of(*v)).len(),
        ),
{
    let mut out: Vec<Diagnostic> = Vec::new();
    assert(diagnostic_views(out@) =~= Seq::empty());
    if let Some(items) = as_array(v) {
        let ghost all = jsons(items@);
        let mut i: usize = 0;
        while i < items.len()
            invariant
                i <= items@.len(),
                all == jsons(items@),
                diagnostic_views(out@) == diagnostics_upto(all, i as nat),
            decreases items@.len() - i,
        {
            assert(all[i as int] == json_of(items@[i as int]));
            if let Some(d) = parse_diagnostic(&items[i]) {
                let ghost had = out@;
                let ghost dv = d@;
                out.push(d);
                assert(diagnostic_views(out@) =~= diagnostic_views(had).push(dv));
            }
            i += 1;
        }
    }
    out
}

fn status_event(t: &str) -> (r: Event)
    ensures
        r@ == EventView::Status(t@),
{
    Event::Status(t.to_owned())
}

/// What comes of an answer, if anything.
fn answer_event(tag: Tag, result: &Value) -> (r: Option<Event>)
    ensures
        match r {
            Some(e) => answer_events(tag, json_of(*result)) == seq![e@],
            None => answer_events(tag, json_of(*result)) == Seq::<EventView>::empty(),
        },
{
    match tag {
        Tag::Definition => match parse_location(result) {
            Some(l) => Some(Event::Definition(l)),
            None => Some(status_event("no definition found")),
        },
        Tag::Hover => match hover_text(result) {
            Some(t) => Some(Event::Hover(t)),
            None => Some(status_event("no hover info")),
        },
        Tag::Completion => Some(Event::Completions(parse_completions(result), false)),
        Tag::CompletionTyped => Some(Event::Completions(parse_completions(result), true)),
        Tag::Resolve => match as_text(at(result, "label")) {
            Some(l) => {
                let c = chars_of(l);
                Some(
                    Event::CompletionResolved(
                        string_of(trimmed(c.as_slice())),
                        item_info(result),
                    ),
                )
            },
            None => None,
        },
        Tag::References => Some(Event::References(parse_locations(result))),
        Tag::Rename => {
            if kind(result) == JsonKind::Null {
                assert(json_of(*result) is Null);
                Some(status_event("nothing to rename here"))
            } else {
                Some(Event::ApplyEdit(copy(result)))
            }
        },
        Tag::CodeAction => Some(Event::CodeActions(copy_items(result))),
        Tag::CodeActionResolve => Some(Event::CodeActionResolved(copy(result))),
        Tag::Signature => Some(Event::Signature(parse_signature(result))),
        Tag::Symbols => Some(Event::Symbols(parse_symbols(result), false)),
        Tag::WorkspaceSymbols => Some(Event::Symbols(parse_symbols(result), true)),
        Tag::Formatting => Some(Event::Formatting(copy_items(result))),
        Tag::Initialize => None,
        Tag::Shutdown => None,
        Tag::ExecuteCommand => None,
    }
}

impl Client {
    fn take_pending(&mut self, id: i64) -> (r: Option<Tag>)
        ensures
            match pending_from(old(self)@.pending, id, 0) {
                Some(k) => 0 <= k < old(self)@.pending.len() && r == Some(
                    old(self)@.pending[k].1,
                ) && final(self)@ == (ClientView {
                    pending: old(self)@.pending.remove(k),
                    ..old(self)@
                }),
                None => r is None && final(self)@ == old(self)@,
            },
    {
        let mut i: usize = 0;
        while i < self.pending.len()
            invariant
                i <= self.pending@.len(),
                *self == *old(self),
                pending_from(self@.pending, id, 0) == pending_from(self@.pending, id, i as int),
            decreases self.pending@.len() - i,
        {
            if self.pending[i].0 == id {
                let (_, tag) = self.pending.remove(i);
                return Some(tag);
            }
            i += 1;
        }
        None
    }

    fn initialize(&mut self, result: &Value)
        ensures
            final(self)@ == initialized(old(self)@, json_of(*result)),
    {
        let caps = at(result, "capabilities");
        let signature = at(caps, "signatureHelpProvider");
        self.ready = true;
        self.triggers = read_chars(at(at(caps, "completionProvider"), "triggerCharacters"));
        let mut chars = read_chars(at(signature, "triggerCharacters"));
        let more = read_chars(at(signature, "retriggerCharacters"));
        crate::strings::push_all(&mut chars, more.as_slice());
        self.signature_triggers = chars;
        let sync = at(caps, "textDocumentSync");
        let n = if kind(sync) == JsonKind::Number {
            as_u64(sync)
        } else {
            as_u64(at(sync, "change"))
        };
        self.sync_kind = match n {
            Some(n) => n,
            None => 1,
        };
        let fmt = at(caps, "documentFormattingProvider");
        self.formatting = match as_bool(fmt) {
            Some(b) => b,
            None => kind(fmt) == JsonKind::Object,
        };
    }

    fn send_queued(&mut self)
        ensures
            final(self)@ == (ClientView {
                outbox: old(self)@.outbox + old(self)@.queued,
                queued: Seq::empty(),
                ..old(self)@
            }),
    {
        let ghost c = self@;
        let mut queued: Vec<Value> = Vec::new();
        core::mem::swap(&mut queued, &mut self.queued);
        assert(jsons(self.queued@) =~= Seq::empty());
        let ghost all = jsons(queued@);
        let mut i: usize = 0;
        assert(self@.outbox =~= c.outbox + all.take(0));
        while i < queued.len()
            invariant
                i <= queued@.len(),
                all == jsons(queued@),
                self@ == (ClientView {
                    outbox: c.outbox + all.take(i as int),
                    queued: Seq::empty(),
                    ..c
                }),
            decreases queued@.len() - i,
        {
            let m = copy(&queued[i]);
            assert(all[i as int] == json_of(m));
            self.write(m);
            assert(all.take(i + 1) =~= all.take(i as int).push(json_of(m)));
            assert(self@.outbox =~= c.outbox + all.take(i + 1));
            i += 1;
        }
        assert(all.take(all.len() as int) =~= all);
    }

    fn reply(&mut self, method: &str, msg: &Value, id: &Value)
        ensures
            exists|m: Json, result: Json| #[trigger]
                is_reply(m, json_of(*id), result) && is_answer(result, method@, json_of(*msg))
                    && final(self)@ == (ClientView {
                    outbox: old(self)@.outbox.push(m),
                    ..old(self)@
                }),
    {
        let result = if same(method, "workspace/applyEdit") {
            object1("applied", from_bool(true))
        } else if same(method, "workspace/configuration") {
            let mut list: Vec<Value> = Vec::new();
            let n: usize = match as_array(at(at(msg, "params"), "items")) {
                Some(items) => {
                    assert(jsons(items@).len() == items@.len());
                    items.len()
                },
                None => 0,
            };
            let mut i: usize = 0;
            while i < n
                invariant
                    i <= n,
                    list@.len() == i,
                    forall|k: int|
                        0 <= k < i ==> is_object(#[trigger] json_of(list@[k]), Seq::empty()),
                decreases n - i,
            {
                list.push(object0());
                i += 1;
            }
            let ghost items = jsons(list@);
            assert forall|k: int| 0 <= k < items.len() implies is_object(
                #[trigger] items[k],
                Seq::empty(),
            ) by {
                assert(items[k] == json_of(list@[k]));
            }
            from_array(list)
        } else {
            null()
        };
        let ghost jr = json_of(result);
        assert(is_answer(jr, method@, json_of(*msg)));
        let m = reply_message(copy(id), result);
        assert(is_reply(json_of(m), json_of(*id), jr));
        self.write(m);
    }

    fn answer(&mut self, msg: &Value, tag: Tag, events: &mut Vec<Event>)
        ensures
            exists|new: Seq<EventView>| #[trigger]
                answered(old(self)@, json_of(*msg), tag, final(self)@, new) && event_views(
                    final(events)@,
                ) == event_views(old(events)@) + new,
    {
        let ghost c = self@;
        let ghost j = json_of(*msg);
        let ghost start = events@;
        if let Some(err) = get(msg, "error") {
            let ghost je = json_of(*err);
            if !(tag == Tag::CompletionTyped || tag == Tag::Resolve || tag == Tag::Signature || tag
                == Tag::Shutdown) {
                let mut out: Vec<char> = Vec::new();
                push_lit(&mut out, tag.name());
                push_lit(&mut out, ": ");
                match as_text(at(err, "message")) {
                    Some(t) => push_lit(&mut out, t),
                    None => push_lit(&mut out, "request failed"),
                }
                let e = Event::Status(string_of(out.as_slice()));
                let ghost ev = e@;
                events.push(e);
                assert(event_views(events@) =~= event_views(start) + seq![ev]);
            } else {
                assert(event_views(events@) =~= event_views(start) + Seq::empty());
            }
            assert(answered(c, j, tag, self@, failure_events(tag, je)));
            return ;
        }
        let result = at(msg, "result");
        let ghost jr = json_of(*result);
        if tag == Tag::Initialize {
            self.initialize(result);
            let ghost i = self@;
            let p = object0();
            let ghost jp = json_of(p);
            let m = notification_message("initialized", p);
            let ghost jm = json_of(m);
            self.write(m);
            self.send_queued();
            assert(is_notification(jm, "initialized"@, jp) && is_object(jp, Seq::empty()));
            assert(self@ == (ClientView {
                outbox: i.outbox.push(jm) + i.queued,
                queued: Seq::empty(),
                ..i
            }));
            assert(event_views(events@) =~= event_views(start) + Seq::empty());
            assert(answered(c, j, tag, self@, answer_events(tag, jr)));
            return ;
        }
        if tag == Tag::Completion || tag == Tag::CompletionTyped {
            self.completion_items = raw_items(result);
        }
        match answer_event(tag, result) {
            Some(e) => {
                let ghost ev = e@;
                events.push(e);
                assert(event_views(events@) =~= event_views(start) + seq![ev]);
            },
            None => {
                assert(event_views(events@) =~= event_views(start) + Seq::empty());
            },
        }
        assert(answered(c, j, tag, self@, answer_events(tag, jr)));
    }

    /// Handle a message of the server; what comes of it goes to `events`.
    pub fn handle(&mut self, msg: &Value, events: &mut Vec<Event>)
        ensures
            exists|new: Seq<EventView>| #[trigger]
                handled(old(self)@, json_of(*msg), final(self)@, new) && event_views(
                    final(events)@,
                ) == event_views(old(events)@) + new,
    {
        let ghost c = self@;
        let ghost j = json_of(*msg);
        let ghost start = events@;
        let method = match get(msg, "method") {
            Some(m) => as_text(m),
            None => None,
        };
        let ghost none = Seq::<EventView>::empty();
        assert(event_views(start) + none =~= event_views(start));
        match (method, get(msg, "id")) {
            (Some(m), Some(id)) => {
                let ghost new = if m@ == "workspace/applyEdit"@ {
                    seq![EventView::ApplyEdit(deep(j, "params"@, "edit"@))]
                } else {
                    none
                };
                if same(m, "workspace/applyEdit") {
                    let e = Event::ApplyEdit(copy(at(at(msg, "params"), "edit")));
                    let ghost ev = e@;
                    events.push(e);
                    assert(event_views(events@) =~= event_views(start) + seq![ev]);
                }
                self.reply(m, msg, id);
                assert(handled(c, j, self@, new));
            },
            (Some(m), None) => {
                let ghost new = if m@ == "textDocument/publishDiagnostics"@ {
                    published(field(j, "params"@))
                } else {
                    none
                };
                if same(m, "textDocument/publishDiagnostics") {
                    let params = at(msg, "params");
                    if let Some(u) = as_text(at(params, "uri")) {
                        if let Some(path) = path_from_uri(u) {
                            let ds = read_diagnostics(at(params, "diagnostics"));
                            let e = Event::Diagnostics(path, ds);
                            let ghost ev = e@;
                            events.push(e);
                            assert(event_views(events@) =~= event_views(start) + seq![ev]);
                        }
                    }
                }
                assert(handled(c, j, self@, new));
            },
            (None, Some(id)) => {
                let tag = match as_i64(id) {
                    Some(n) => self.take_pending(n),
                    None => None,
                };
                match tag {
                    None => {
                        assert(handled(c, j, self@, none));
                    },
                    Some(tag) => {
                        let ghost mid = self@;
                        self.answer(msg, tag, events);
                        proof {
                            let new = choose|new: Seq<EventView>| #[trigger]
                                answered(mid, j, tag, self@, new) && event_views(events@)
                                    == event_views(start) + new;
                            assert(handled(c, j, self@, new));
                        }
                    },
                }
            },
            (None, None) => {
                assert(handled(c, j, self@, none));
            },
        }
    }
}

/// A message that waits for the handshake is sent once it is done, and in the
/// order in which it came.
pub proof fn law_queued_messages_follow_the_handshake(
    c: ClientView,
    j: Json,
    after: ClientView,
    events: Seq<EventView>,
)
    requires
        !c.ready,
        member(j, "error"@) is None,
        answered(c, j, Tag::Initialize, after, events),
    ensures
        after.ready,
        after.queued.len() == 0,
        after.outbox.len() == c.outbox.len() + 1 + c.queued.len(),
        after.outbox.take(c.outbox.len() as int) == c.outbox,
        after.outbox.skip(c.outbox.len() as int + 1) == c.queued,
{
    let i = initialized(c, field(j, "result"@));
    let (m, p) = choose|m: Json, p: Json| #[trigger]
        is_notification(m, "initialized"@, p) && is_object(p, Seq::empty()) && after
            == (ClientView { outbox: i.outbox.push(m) + i.queued, queued: Seq::empty(), ..i });
    assert(after.outbox.take(c.outbox.len() as int) =~= c.outbox);
    assert(after.outbox.skip(c.outbox.len() as int + 1) =~= c.queued);
}

} // verus!
