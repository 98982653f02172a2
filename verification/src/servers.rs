//! Which language server serves the buffer in front.

use vstd::prelude::*;
use crate::config::{builtin_lsp, builtin_lsp_of, lookup, lookup_from};
use crate::document::{extension, extension_of};
use crate::editor::{doc_of, Editor, EditorView};
use crate::lsp::{Client, ClientView};
use crate::state::client_views;
use crate::strings::{opt_text, same, text_pairs};

verus! {

/// The server command for a file, by its extension: as configured, or built
/// in.
#[verifier::opaque]
pub open spec fn server_of(table: Seq<(Seq<char>, Seq<char>)>, path: Option<Seq<char>>) -> Option<
    Seq<char>,
> {
    match path {
        Some(p) => match extension_of(p) {
            Some(x) => match lookup_from(table, x, 0) {
                Some(c) => Some(c),
                None => builtin_lsp_of(x),
            },
            None => None,
        },
        None => None,
    }
}

pub fn server_for(table: &Vec<(String, String)>, path: &Option<String>) -> (r: Option<String>)
    ensures
        opt_text(r) == server_of(text_pairs(table@), opt_text(*path)),
{
    reveal(server_of);
    let ext = match path {
        Some(p) => extension(p.as_str()),
        None => None,
    };
    match ext {
        Some(x) => match lookup(table, x.as_str()) {
            Some(c) => Some(c),
            None => match builtin_lsp(x.as_str()) {
                Some(c) => Some(c.to_owned()),
                None => None,
            },
        },
        None => None,
    }
}

/// The first client from the `i`th on that runs a command.
pub open spec fn client_at(v: Seq<ClientView>, command: Seq<char>, i: int) -> Option<int>
    decreases v.len() - i,
{
    if i < 0 || i >= v.len() {
        None
    } else if v[i].command == command {
        Some(i)
    } else {
        client_at(v, command, i + 1)
    }
}

pub fn find_client(v: &Vec<Client>, command: &str) -> (r: Option<usize>)
    ensures
        match r {
            Some(k) => client_at(client_views(v@), command@, 0) == Some(k as int) && k < v@.len(),
            None => client_at(client_views(v@), command@, 0) is None,
        },
{
    let ghost views = client_views(v@);
    let mut i: usize = 0;
    while i < v.len()
        invariant
            i <= v@.len(),
            views == client_views(v@),
            client_at(views, command@, 0) == client_at(views, command@, i as int),
        decreases v@.len() - i,
    {
        assert(views[i as int] == v@[i as int]@);
        if same(v[i].command(), command) {
            return Some(i);
        }
        i += 1;
    }
    None
}

pub open spec fn front_server(e: EditorView) -> Option<Seq<char>> {
    server_of(e.servers.table, doc_of(e).path)
}

/// The client that serves the buffer in front.
#[verifier::opaque]
pub open spec fn front_client(e: EditorView) -> Option<int> {
    match front_server(e) {
        Some(c) => client_at(e.servers.clients, c, 0),
        None => None,
    }
}

impl Editor {
    /// The server command for the buffer in front.
    pub fn current_server_command(&self) -> (r: Option<String>)
        requires
            self.wf(),
        ensures
            opt_text(r) == front_server(self@),
    {
        server_for(&self.servers.table, &self.doc().path)
    }

    /// The running client that serves the buffer in front.
    pub fn current_client(&self) -> (r: Option<usize>)
        requires
            self.wf(),
        ensures
            match r {
                Some(k) => front_client(self@) == Some(k as int) && k < self@.servers.clients.len(),
                None => front_client(self@) is None,
            },
    {
        reveal(front_client);
        match self.current_server_command() {
            Some(c) => find_client(&self.servers.clients, c.as_str()),
            None => None,
        }
    }

    /// Whether a language server is up for the buffer in front.
    pub fn lsp_active(&self) -> (r: bool)
        requires
            self.wf(),
        ensures
            r == (front_client(self@) is Some),
    {
        self.current_client().is_some()
    }

    /// Whether the server of the buffer in front wants to be asked for the
    /// signature after a character.
    pub(crate) fn wants_signature(&self, c: char) -> (r: bool)
        requires
            self.wf(),
        ensures
            r == signature_wanted(self@, c),
    {
        reveal(signature_wanted);
        match self.current_client() {
            Some(k) => {
                assert(client_views(self.servers.clients@)[k as int]
                    == self.servers.clients@[k as int]@);
                self.servers.clients[k].triggers_signature(c)
            },
            None => false,
        }
    }

    /// Whether the server of the buffer in front wants to be asked for
    /// completions after a character.
    pub(crate) fn wants_completion(&self, c: char) -> (r: bool)
        requires
            self.wf(),
        ensures
            r == completion_wanted(self@, c),
    {
        reveal(completion_wanted);
        match self.current_client() {
            Some(k) => {
                assert(client_views(self.servers.clients@)[k as int]
                    == self.servers.clients@[k as int]@);
                self.servers.clients[k].triggers_completion(c)
            },
            None => false,
        }
    }
}

#[verifier::opaque]
pub open spec fn signature_wanted(e: EditorView, c: char) -> bool {
    match front_client(e) {
        Some(k) => e.servers.clients[k].signature_triggers.contains(c),
        None => false,
    }
}

#[verifier::opaque]
pub open spec fn completion_wanted(e: EditorView, c: char) -> bool {
    match front_client(e) {
        Some(k) => e.servers.clients[k].triggers.contains(c),
        None => false,
    }
}

} // verus!
