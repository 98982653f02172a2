//! Keeping the language servers in step with the buffers.

use vstd::prelude::*;
use crate::desk::doc_ok;
use crate::document::{extension_of, log_restarted, DocView, Document};
use crate::editor::{doc_of, said, Editor, EditorView};
use crate::files::{doc_at, on_doc_at};
use crate::json::{field, json_of, Json};
use crate::lsp::{
    are_changes, asks_at, bumped, changes_document, is_notification, is_request, names_document,
    opens_document, position_params, requested, sent, synced_from, synced_place, synced_set, whole_change, Client,
    ClientView, Tag,
};
use crate::lsp_parse::{language_of, uri_from_path, uri_of};
use crate::serve::{cursor_place, on_client, request_sent};
use crate::servers::{client_at, find_client, front_client, server_for, server_of};
use crate::state::{client_views, Mode, ServersView};
use crate::strings::{opt_text, quote_text, same, text_between, texts};
use crate::text::rope_string;
use crate::tools::{busy_installing, install_offered};

verus! {

// ---- one document -----------------------------------------------------------------

pub open spec fn language_at(path: Seq<char>) -> Seq<char> {
    language_of(
        match extension_of(path) {
            Some(e) => e,
            None => Seq::empty(),
        },
    )
}

/// The server has been told of a document.
pub open spec fn told_opened(
    c: ClientView,
    path: Seq<char>,
    uri: Seq<char>,
    d: DocView,
    after: ClientView,
) -> bool {
    exists|m: Json, p: Json| #[trigger]
        is_notification(m, "textDocument/didOpen"@, p) && opens_document(
            p,
            uri,
            language_at(path),
            d.text,
        ) && after == sent(
            (ClientView { synced: synced_set(c.synced, path, (1, d.revision)), ..c }),
            m,
            false,
        )
}

/// The server has been told what a document is now: by the edits alone, or by
/// its whole text.
pub open spec fn told_changed(
    c: ClientView,
    path: Seq<char>,
    uri: Seq<char>,
    d: DocView,
    by_edits: bool,
    after: ClientView,
) -> bool {
    exists|m: Json, p: Json| #[trigger]
        is_notification(m, "textDocument/didChange"@, p) && changes_document(
            p,
            uri,
            bumped(c, path, d.revision).0,
            field(p, "contentChanges"@),
        ) && (if by_edits {
            field(p, "contentChanges"@) matches Json::Array(items) && are_changes(
                items,
                d.lsp_log,
            )
        } else {
            whole_change(field(p, "contentChanges"@), d.text)
        }) && after == sent(
            (ClientView {
                synced: synced_set(c.synced, path, bumped(c, path, d.revision)),
                ..c
            }),
            m,
            false,
        )
}

/// The edits since a revision are known, and the server takes them.
pub open spec fn by_edits(c: ClientView, d: DocView, revision: u64) -> bool {
    c.sync_kind == 2 && !d.lsp_overflow && d.lsp_base == revision
}

/// A server told what it does not know yet of a document.
#[verifier::opaque]
pub open spec fn kept_up(
    c: ClientView,
    d: DocView,
    path: Seq<char>,
    uri: Seq<char>,
    c2: ClientView,
    d2: DocView,
) -> bool {
    match synced_from(c.synced, path, 0) {
        None => told_opened(c, path, uri, d, c2) && d2 == log_restarted(d),
        Some(had) => if had.1 == d.revision {
            c2 == c && d2 == d
        } else {
            told_changed(c, path, uri, d, by_edits(c, d, had.1), c2) && d2 == log_restarted(d)
        },
    }
}

impl Client {
    /// Tell the server what it does not know yet of a document.
    pub fn keep_up(&mut self, d: &mut Document, path: &str, uri: &str)
        requires
            doc_ok(old(d)@),
        ensures
            kept_up(old(self)@, old(d)@, path@, uri@, final(self)@, final(d)@),
            doc_ok(final(d)@),
    {
        reveal(kept_up);
        let ghost c = self@;
        let ghost dv = d@;
        match self.synced(path) {
            None => {
                let text = rope_string(&d.text);
                self.did_open(path, uri, text.as_str(), d.revision);
                assert(told_opened(c, path@, uri@, dv, self@));
                d.reset_lsp_log();
            },
            Some((_version, revision)) => {
                if revision == d.revision {
                    return ;
                }
                let now = d.revision;
                let known = d.take_lsp_changes(revision);
                let takes = self.incremental();
                match known {
                    Some(log) => {
                        if takes {
                            self.did_change_incremental(path, uri, &log, now);
                            assert(told_changed(c, path@, uri@, dv, true, self@));
                            return ;
                        }
                    },
                    None => {},
                }
                let text = rope_string(&d.text);
                self.did_change(path, uri, text.as_str(), now);
                assert(told_changed(c, path@, uri@, dv, false, self@));
            },
        }
    }
}

// ---- every document ---------------------------------------------------------------

/// The client that serves the buffer at `i`.
pub open spec fn client_of(e: EditorView, i: int) -> Option<int> {
    match server_of(e.servers.table, doc_at(e, i).path) {
        Some(command) => client_at(e.servers.clients, command, 0),
        None => None,
    }
}

/// The server of a buffer told what it does not know yet of it.
pub open spec fn buffer_told(e: EditorView, i: int, file: Seq<char>, after: EditorView) -> bool {
    match client_of(e, i) {
        None => after == e,
        Some(k) => exists|c2: ClientView, d2: DocView| #[trigger]
            kept_up(
                e.servers.clients[k],
                doc_at(e, i),
                doc_at(e, i).path->0,
                uri_of(file),
                c2,
                d2,
            ) && after == on_client(on_doc_at(e, i, d2), k, c2),
    }
}

/// The servers of all buffers told, one after the other. `steps` are the
/// states between.
pub open spec fn all_told(
    e: EditorView,
    files: Seq<Seq<char>>,
    steps: Seq<EditorView>,
    after: EditorView,
) -> bool {
    &&& steps.len() == e.desk.docs.len() + 1
    &&& steps[0] == e
    &&& steps.last() == after
    &&& forall|i: int|
        0 <= i < e.desk.docs.len() ==> buffer_told(#[trigger] steps[i], i, files[i], steps[i + 1])
}

impl Editor {
    fn client_for(&self, i: usize) -> (r: Option<usize>)
        requires
            self.wf(),
            i < self@.desk.docs.len(),
        ensures
            match r {
                Some(k) => client_of(self@, i as int) == Some(k as int) && k
                    < self@.servers.clients.len() && doc_at(self@, i as int).path is Some,
                None => client_of(self@, i as int) is None,
            },
    {
        reveal(server_of);
        match server_for(&self.servers.table, &self.document(i).path) {
            Some(command) => find_client(&self.servers.clients, command.as_str()),
            None => None,
        }
    }

    fn path_at(&self, i: usize) -> (r: String)
        requires
            self.wf(),
            i < self@.desk.docs.len(),
            doc_at(self@, i as int).path is Some,
        ensures
            r@ == doc_at(self@, i as int).path->0,
    {
        match &self.document(i).path {
            Some(p) => p.as_str().to_owned(),
            None => String::new(),
        }
    }

    fn sync_with(&mut self, i: usize, k: usize, path: &str, uri: &str)
        requires
            old(self).wf(),
            i < old(self)@.desk.docs.len(),
            k < old(self)@.servers.clients.len(),
        ensures
            exists|c2: ClientView, d2: DocView| #[trigger]
                kept_up(
                    old(self)@.servers.clients[k as int],
                    doc_at(old(self)@, i as int),
                    path@,
                    uri@,
                    c2,
                    d2,
                ) && final(self)@ == on_client(on_doc_at(old(self)@, i as int, d2), k as int, c2),
            final(self).wf(),
    {
        let mut clients: Vec<Client> = Vec::new();
        std::mem::swap(&mut clients, &mut self.servers.clients);
        let ghost had = clients@;
        assert(client_views(had)[k as int] == had[k as int]@);
        let d = self.document_mut(i);
        let c = &mut clients[k];
        let ghost c1 = c@;
        let ghost d1 = d@;
        c.keep_up(d, path, uri);
        let ghost c2 = c@;
        let ghost d2 = d@;
        assert(kept_up(c1, d1, path@, uri@, c2, d2));
        assert(client_views(clients@) =~= client_views(had).update(k as int, c2));
        std::mem::swap(&mut clients, &mut self.servers.clients);
    }

    fn sync_document(&mut self, i: usize, file: &str)
        requires
            old(self).wf(),
            i < old(self)@.desk.docs.len(),
        ensures
            buffer_told(old(self)@, i as int, file@, final(self)@),
            final(self)@.desk.docs.len() == old(self)@.desk.docs.len(),
            final(self).wf(),
    {
        match self.client_for(i) {
            None => return ,
            Some(k) => {
                let path = self.path_at(i);
                let uri = uri_from_path(file);
                self.sync_with(i, k, path.as_str(), uri.as_str());
            },
        }
    }

    /// Tell the servers what they do not know yet of the buffers. `files` are
    /// the files of the buffers by their absolute names.
    pub fn lsp_sync(&mut self, files: &Vec<String>)
        requires
            old(self).wf(),
            files@.len() == old(self)@.desk.docs.len(),
        ensures
            exists|steps: Seq<EditorView>| #[trigger]
                all_told(old(self)@, texts(files@), steps, final(self)@),
            final(self).wf(),
    {
        let ghost e = self@;
        let ghost names = texts(files@);
        let ghost mut steps: Seq<EditorView> = seq![e];
        let n = files.len();
        let mut i: usize = 0;
        while i < n
            invariant
                self.wf(),
                i <= n,
                n == files@.len() == e.desk.docs.len() == self@.desk.docs.len(),
                names == texts(files@),
                steps.len() == i + 1,
                steps[0] == e,
                steps.last() == self@,
                forall|j: int|
                    0 <= j < i ==> buffer_told(#[trigger] steps[j], j, names[j], steps[j + 1]),
            decreases n - i,
        {
            let ghost had = steps;
            self.sync_document(i, files[i].as_str());
            proof {
                steps = steps.push(self@);
                assert(names[i as int] == files@[i as int]@);
                assert forall|j: int| 0 <= j < i + 1 implies buffer_told(
                    #[trigger] steps[j],
                    j,
                    names[j],
                    steps[j + 1],
                ) by {
                    if j < i {
                        assert(steps[j] == had[j] && steps[j + 1] == had[j + 1]);
                    }
                }
            }
            i += 1;
        }
        assert(all_told(e, names, steps, self@));
    }
}

proof fn lemma_place_in_bounds(v: Seq<(Seq<char>, (i64, u64))>, path: Seq<char>, i: int)
    requires
        0 <= i <= v.len(),
    ensures
        i <= synced_place(v, path, i) <= v.len(),
        synced_place(v, path, i) < v.len() ==> v[synced_place(v, path, i)].0 == path,
        forall|j: int| i <= j < synced_place(v, path, i) ==> (#[trigger] v[j]).0 != path,
    decreases v.len() - i,
{
    if i < v.len() && v[i].0 != path {
        lemma_place_in_bounds(v, path, i + 1);
    }
}

proof fn lemma_found_at(
    v: Seq<(Seq<char>, (i64, u64))>,
    path: Seq<char>,
    to: (i64, u64),
    k: int,
    i: int,
)
    requires
        0 <= i <= k < v.len(),
        v[k] == (path, to),
        forall|j: int| i <= j < k ==> (#[trigger] v[j]).0 != path,
    ensures
        synced_from(v, path, i) == Some(to),
    decreases k - i,
{
    if i < k {
        lemma_found_at(v, path, to, k, i + 1);
    }
}

proof fn lemma_synced_set(v: Seq<(Seq<char>, (i64, u64))>, path: Seq<char>, to: (i64, u64))
    ensures
        synced_from(synced_set(v, path, to), path, 0) == Some(to),
{
    lemma_place_in_bounds(v, path, 0);
    let k = synced_place(v, path, 0);
    lemma_found_at(synced_set(v, path, to), path, to, k, 0);
}

/// Once the servers have been told, the server of a buffer has the revision
/// that the buffer has, under the path it has.
pub proof fn law_a_told_server_has_the_revision(
    e: EditorView,
    i: int,
    file: Seq<char>,
    after: EditorView,
)
    requires
        0 <= i < e.desk.docs.len(),
        client_of(e, i) is Some,
        0 <= client_of(e, i)->0 < e.servers.clients.len(),
        buffer_told(e, i, file, after),
    ensures
        ({
            let c = after.servers.clients[client_of(e, i)->0];
            let had = synced_from(c.synced, doc_at(e, i).path->0, 0);
            had is Some && (had->0).1 == doc_at(after, i).revision
        }),
{
    reveal(kept_up);
    let k = client_of(e, i)->0;
    let c = e.servers.clients[k];
    let d = doc_at(e, i);
    let path = d.path->0;
    let (c2, d2) = choose|c2: ClientView, d2: DocView| #[trigger]
        kept_up(c, d, path, uri_of(file), c2, d2) && after == on_client(on_doc_at(e, i, d2), k, c2);
    match synced_from(c.synced, path, 0) {
        None => {
            lemma_synced_set(c.synced, path, (1, d.revision));
        },
        Some(had) => {
            lemma_synced_set(c.synced, path, bumped(c, path, d.revision));
        },
    }
}

// ---- which servers run ------------------------------------------------------------

/// The first `n` buffers' servers that neither run nor have failed, each once.
pub open spec fn servers_missing(e: EditorView, n: nat) -> Seq<Seq<char>>
    decreases n,
{
    if n == 0 || n > e.desk.docs.len() {
        Seq::empty()
    } else {
        let rest = servers_missing(e, (n - 1) as nat);
        match server_of(e.servers.table, doc_at(e, n - 1).path) {
            Some(c) => if client_at(e.servers.clients, c, 0) is Some || e.servers.failed.contains(c)
                || rest.contains(c) {
                rest
            } else {
                rest.push(c)
            },
            None => rest,
        }
    }
}

pub(crate) fn listed(v: &Vec<String>, t: &str) -> (r: bool)
    ensures
        r == texts(v@).contains(t@),
{
    let ghost all = texts(v@);
    let mut i: usize = 0;
    while i < v.len()
        invariant
            i <= v@.len(),
            all == texts(v@),
            forall|j: int| 0 <= j < i ==> #[trigger] all[j] != t@,
        decreases v@.len() - i,
    {
        assert(all[i as int] == v@[i as int]@);
        if same(v[i].as_str(), t) {
            return true;
        }
        i += 1;
    }
    false
}

impl Editor {
    /// The servers to start: those of the open files that neither run nor have
    /// failed.
    pub fn servers_to_start(&self) -> (r: Vec<String>)
        requires
            self.wf(),
        ensures
            texts(r@) == servers_missing(self@, self@.desk.docs.len()),
    {
        let mut out: Vec<String> = Vec::new();
        let total = self.desk.documents.len();
        let mut n: usize = 0;
        assert(texts(out@) =~= Seq::empty());
        assert(total == self@.desk.docs.len());
        while n < total
            invariant
                self.wf(),
                n <= total,
                total == self@.desk.docs.len(),
                texts(out@) == servers_missing(self@, n as nat),
            decreases total - n,
        {
            match server_for(&self.servers.table, &self.document(n).path) {
                Some(c) => {
                    if find_client(&self.servers.clients, c.as_str()).is_none() && !listed(
                        &self.servers.failed,
                        c.as_str(),
                    ) && !listed(&out, c.as_str()) {
                        let ghost had = out@;
                        let ghost t = c@;
                        out.push(c);
                        assert(texts(out@) =~= texts(had).push(t));
                    }
                },
                None => {},
            }
            n += 1;
        }
        out
    }

    /// A server has been started.
    pub fn server_started(&mut self, c: Client)
        requires
            old(self).wf(),
        ensures
            final(self)@ == (EditorView {
                servers: ServersView {
                    clients: old(self)@.servers.clients.push(c@),
                    ..old(self)@.servers
                },
                ..old(self)@
            }),
            final(self).wf(),
    {
        let ghost had = self.servers.clients@;
        self.servers.clients.push(c);
        assert(client_views(self.servers.clients@) =~= client_views(had).push(c@));
    }

    fn note_failed(&mut self, command: &str)
        requires
            old(self).wf(),
        ensures
            final(self)@ == failed_noted(old(self)@, command@),
            final(self).wf(),
    {
        if listed(&self.servers.failed, command) {
            return ;
        }
        let ghost had = self.servers.failed@;
        self.servers.failed.push(command.to_owned());
        assert(texts(self.servers.failed@) =~= texts(had).push(command@));
    }

    /// A server could not be started: offer to install it, or say so.
    /// `program` is the command's program and `cmd` what installs it.
    pub fn server_missing(&mut self, command: &str, program: &str, cmd: Option<String>)
        requires
            old(self).wf(),
        ensures
            final(self)@ == start_failed(old(self)@, command@, program@, opt_text(cmd)),
            final(self).wf(),
    {
        reveal(start_failed);
        self.note_failed(command);
        if self.offer_install(program, cmd) {
            return ;
        }
        let q = quote_text(command);
        let m = text_between("could not start ", q.as_str(), " — no LSP");
        self.set_status(m.as_str());
    }

    /// Take out a client whose server has ended; its server is not started
    /// again.
    pub fn bury_client(&mut self, i: usize) -> (r: Client)
        requires
            old(self).wf(),
            i < old(self)@.servers.clients.len(),
        ensures
            r@ == old(self)@.servers.clients[i as int],
            final(self)@ == failed_noted(
                (EditorView {
                    servers: ServersView {
                        clients: old(self)@.servers.clients.remove(i as int),
                        ..old(self)@.servers
                    },
                    ..old(self)@
                }),
                old(self)@.servers.clients[i as int].command,
            ),
            final(self).wf(),
    {
        let ghost had = self.servers.clients@;
        let r = self.servers.clients.remove(i);
        assert(client_views(self.servers.clients@) =~= client_views(had).remove(i as int));
        self.note_failed(r.command());
        r
    }
}

pub open spec fn failed_noted(e: EditorView, command: Seq<char>) -> EditorView {
    if e.servers.failed.contains(command) {
        e
    } else {
        EditorView {
            servers: ServersView { failed: e.servers.failed.push(command), ..e.servers },
            ..e
        }
    }
}

#[verifier::opaque]
pub open spec fn start_failed(
    e: EditorView,
    command: Seq<char>,
    program: Seq<char>,
    cmd: Option<Seq<char>>,
) -> EditorView {
    let t = failed_noted(e, command);
    if cmd is Some && !busy_installing(t) {
        install_offered(t, program, cmd->0)
    } else {
        said(
            t,
            "could not start "@ + crate::strings::debug_text(command) + " — no LSP"@,
        )
    }
}

// ---- what is owed to the servers --------------------------------------------------

/// Whether the servers are told of changes now: once typing pauses, or where a
/// request that follows an edit is owed.
pub open spec fn sync_due(e: EditorView, idle: bool) -> bool {
    e.servers.completion_pending is Some || e.servers.signature_pending || idle
}

pub open spec fn signature_settled(e: EditorView) -> EditorView {
    EditorView { servers: ServersView { signature_pending: false, ..e.servers }, ..e }
}

pub open spec fn completion_settled(e: EditorView) -> EditorView {
    EditorView { servers: ServersView { completion_pending: None, ..e.servers }, ..e }
}

/// A request about the place of the cursor, where one is typing in a file that
/// a server serves.
pub open spec fn asked_while_typing(
    e: EditorView,
    method: Seq<char>,
    tag: Tag,
    file: Seq<char>,
    after: EditorView,
) -> bool {
    match front_client(e) {
        Some(k) => if e.keys.mode == Mode::Insert {
            exists|p: Json| #[trigger]
                asks_at(p, uri_of(file), cursor_place(doc_of(e))) && request_sent(
                    e,
                    k,
                    method,
                    p,
                    tag,
                    after,
                )
        } else {
            after == e
        },
        None => after == e,
    }
}

/// The owed signature request made.
pub open spec fn signature_paid(e: EditorView, file: Seq<char>, after: EditorView) -> bool {
    if e.servers.signature_pending {
        asked_while_typing(
            signature_settled(e),
            "textDocument/signatureHelp"@,
            Tag::Signature,
            file,
            after,
        )
    } else {
        after == e
    }
}

/// The owed completion request made.
pub open spec fn completion_paid(e: EditorView, file: Seq<char>, after: EditorView) -> bool {
    match e.servers.completion_pending {
        Some(tag) => asked_while_typing(
            completion_settled(e),
            "textDocument/completion"@,
            tag,
            file,
            after,
        ),
        None => after == e,
    }
}

impl Editor {
    /// Whether to bring the servers in step now; `idle` where typing pauses.
    pub fn wants_sync(&self, idle: bool) -> (r: bool)
        ensures
            r == sync_due(self@, idle),
    {
        self.servers.completion_pending.is_some() || self.servers.signature_pending || idle
    }

    fn ask_while_typing(&mut self, method: &str, tag: Tag, file: &str)
        requires
            old(self).wf(),
        ensures
            asked_while_typing(old(self)@, method@, tag, file@, final(self)@),
            final(self).wf(),
    {
        match self.current_client() {
            None => return ,
            Some(k) => {
                if self.keys.mode != Mode::Insert {
                    return ;
                }
                let (line, col) = self.doc().cursor_place();
                let uri = uri_from_path(file);
                let p = position_params(uri.as_str(), line, col);
                let ghost j = json_of(p);
                self.send_to(k, method, p, tag);
                assert(asks_at(j, uri_of(file@), cursor_place(doc_of(old(self)@))));
            },
        }
    }

    fn settle_signature(&mut self)
        requires
            old(self).wf(),
        ensures
            final(self)@ == signature_settled(old(self)@),
            final(self).wf(),
    {
        self.servers.signature_pending = false;
    }

    fn settle_completion(&mut self)
        requires
            old(self).wf(),
        ensures
            final(self)@ == completion_settled(old(self)@),
            final(self).wf(),
    {
        self.servers.completion_pending = None;
    }

    /// Make the signature request that is owed.
    pub fn request_signature(&mut self, file: &str)
        requires
            old(self).wf(),
        ensures
            signature_paid(old(self)@, file@, final(self)@),
            final(self).wf(),
    {
        if !self.servers.signature_pending {
            return ;
        }
        self.settle_signature();
        self.ask_while_typing("textDocument/signatureHelp", Tag::Signature, file);
    }

    /// Make the completion request that is owed.
    pub fn request_completion(&mut self, file: &str)
        requires
            old(self).wf(),
        ensures
            completion_paid(old(self)@, file@, final(self)@),
            final(self).wf(),
    {
        match self.servers.completion_pending {
            None => return ,
            Some(tag) => {
                self.settle_completion();
                self.ask_while_typing("textDocument/completion", tag, file);
            },
        }
    }
}

// ---- saving and completions -------------------------------------------------------

/// A client's server told that a document was written, where it knows it.
pub open spec fn told_saved(c: ClientView, path: Seq<char>, uri: Seq<char>, after: ClientView) -> bool {
    if synced_from(c.synced, path, 0) is None {
        after == c
    } else {
        exists|m: Json, p: Json| #[trigger]
            is_notification(m, "textDocument/didSave"@, p) && names_document(p, uri) && after
                == sent(c, m, false)
    }
}

/// A client asked for the documentation of a completion, where it has it.
pub open spec fn asked_docs(c: ClientView, label: Seq<char>, after: ClientView) -> bool {
    match crate::lsp::item_before(c.completion_items, label, c.completion_items.len()) {
        None => after == c,
        Some(item) => exists|m: Json| #[trigger]
            is_request(m, c.next_id.wrapping_add(1), "completionItem/resolve"@, item) && after
                == requested(c, "completionItem/resolve"@, item, Tag::Resolve, m),
    }
}

/// The server of the buffer in front told that it was written.
pub open spec fn front_saved(e: EditorView, file: Seq<char>, after: EditorView) -> bool {
    match front_client(e) {
        None => after == e,
        Some(k) => exists|c2: ClientView| #[trigger]
            told_saved(e.servers.clients[k], doc_of(e).path->0, uri_of(file), c2) && after
                == on_client(e, k, c2),
    }
}

/// The server of the buffer in front asked for the documentation of a
/// completion.
pub open spec fn front_docs_asked(e: EditorView, label: Seq<char>, after: EditorView) -> bool {
    match front_client(e) {
        None => after == e,
        Some(k) => exists|c2: ClientView| #[trigger]
            asked_docs(e.servers.clients[k], label, c2) && after == on_client(e, k, c2),
    }
}

impl Editor {
    /// Tell the server that the buffer in front was written. Only one that
    /// runs already: a save is no reason to start one.
    pub fn lsp_did_save(&mut self, file: &str)
        requires
            old(self).wf(),
        ensures
            front_saved(old(self)@, file@, final(self)@),
            final(self).wf(),
    {
        let ghost e = self@;
        match self.current_client() {
            None => return ,
            Some(k) => {
                let path = self.served_path();
                let uri = uri_from_path(file);
                let ghost had = self.servers.clients@;
                assert(client_views(had)[k as int] == had[k as int]@);
                self.servers.clients[k].did_save(path.as_str(), uri.as_str());
                let ghost c2 = self.servers.clients@[k as int]@;
                assert(told_saved(had[k as int]@, path@, uri@, c2));
                assert(client_views(self.servers.clients@) =~= client_views(had).update(
                    k as int,
                    c2,
                ));
                assert(self@ == on_client(e, k as int, c2));
                assert(told_saved(
                    e.servers.clients[k as int],
                    doc_of(e).path->0,
                    uri_of(file@),
                    c2,
                ));
                assert(front_saved(e, file@, self@));
            },
        }
    }

    fn served_path(&self) -> (r: String)
        requires
            self.wf(),
            front_client(self@) is Some,
        ensures
            doc_of(self@).path == Some(r@),
    {
        reveal(front_client);
        reveal(server_of);
        match &self.doc().path {
            Some(p) => p.as_str().to_owned(),
            None => String::new(),
        }
    }

    /// Ask for the documentation of a completion.
    pub fn ask_docs(&mut self, label: &str)
        requires
            old(self).wf(),
        ensures
            front_docs_asked(old(self)@, label@, final(self)@),
            final(self).wf(),
    {
        let ghost e = self@;
        match self.current_client() {
            None => return ,
            Some(k) => {
                let ghost had = self.servers.clients@;
                assert(client_views(had)[k as int] == had[k as int]@);
                self.servers.clients[k].resolve_completion(label);
                let ghost c2 = self.servers.clients@[k as int]@;
                assert(asked_docs(had[k as int]@, label@, c2));
                assert(client_views(self.servers.clients@) =~= client_views(had).update(
                    k as int,
                    c2,
                ));
                assert(self@ == on_client(e, k as int, c2));
                assert(front_docs_asked(e, label@, self@));
            },
        }
    }
}

} // verus!
