//! The parameters of the requests that a language server is asked.

use serde_json::Value;
use vstd::prelude::*;
use crate::json::{
    at, copy, field, from_array, from_bool, from_text, from_u64, get, is_object, json_of, jsons,
    member, number_json, object1, object2, object3, Json,
};
use crate::lsp::{
    is_position, is_range, lemma_one, lemma_two, names_document, position_json, range_json,
};

verus! {

proof fn lemma_names()
    ensures
        "textDocument"@ != "position"@,
        "textDocument"@ != "context"@,
        "textDocument"@ != "newName"@,
        "textDocument"@ != "range"@,
        "textDocument"@ != "options"@,
        "position"@ != "context"@,
        "position"@ != "newName"@,
        "range"@ != "context"@,
        "tabSize"@ != "insertSpaces"@,
        "command"@ != "arguments"@,
{
    reveal_strlit("textDocument");
    reveal_strlit("position");
    reveal_strlit("context");
    reveal_strlit("newName");
    reveal_strlit("range");
    reveal_strlit("options");
    reveal_strlit("tabSize");
    reveal_strlit("insertSpaces");
    reveal_strlit("command");
    reveal_strlit("arguments");
    assert("textDocument"@.len() == 12);
    assert("position"@.len() == 8);
    assert("context"@.len() == 7);
    assert("newName"@.len() == 7);
    assert("range"@.len() == 5);
    assert("options"@.len() == 7);
    assert("tabSize"@.len() == 7);
    assert("insertSpaces"@.len() == 12);
    assert("command"@.len() == 7);
    assert("arguments"@.len() == 9);
}

proof fn lemma_three(
    k1: Seq<char>,
    v1: Json,
    k2: Seq<char>,
    v2: Json,
    k3: Seq<char>,
    v3: Json,
    j: Json,
)
    requires
        k1 != k2,
        k1 != k3,
        k2 != k3,
        is_object(j, seq![(k1, v1), (k2, v2), (k3, v3)]),
    ensures
        field(j, k1) == v1,
        field(j, k2) == v2,
        field(j, k3) == v3,
{
    reveal_with_fuel(crate::json::entry_from, 4);
    let e = seq![(k1, v1), (k2, v2), (k3, v3)];
    assert(member(j, k1) == crate::json::entry_from(e, k1, 0));
    assert(member(j, k2) == crate::json::entry_from(e, k2, 0));
    assert(member(j, k3) == crate::json::entry_from(e, k3, 0));
}

/// The parameters that name a document.
pub fn document_params(uri: &str) -> (r: Value)
    ensures
        names_document(json_of(r), uri@),
{
    let d = object1("uri", from_text(uri));
    let ghost jd = json_of(d);
    let r = object1("textDocument", d);
    proof {
        lemma_one("textDocument"@, jd, json_of(r));
    }
    r
}

/// The parameters that ask for the references to what is at a place, its
/// declaration among them.
pub open spec fn asks_references(j: Json, uri: Seq<char>, place: (usize, usize)) -> bool {
    &&& is_object(
        j,
        seq![
            ("textDocument"@, field(j, "textDocument"@)),
            ("position"@, field(j, "position"@)),
            ("context"@, field(j, "context"@)),
        ],
    )
    &&& is_object(field(j, "textDocument"@), seq![("uri"@, Json::Text(uri))])
    &&& is_position(field(j, "position"@), place)
    &&& is_object(field(j, "context"@), seq![("includeDeclaration"@, Json::Bool(true))])
}

pub fn references_params(uri: &str, line: usize, col: usize) -> (r: Value)
    ensures
        asks_references(json_of(r), uri@, (line, col)),
{
    proof {
        lemma_names();
    }
    let d = object1("uri", from_text(uri));
    let p = position_json((line, col));
    let c = object1("includeDeclaration", from_bool(true));
    let ghost jd = json_of(d);
    let ghost jp = json_of(p);
    let ghost jc = json_of(c);
    let r = object3("textDocument", d, "position", p, "context", c);
    proof {
        lemma_three("textDocument"@, jd, "position"@, jp, "context"@, jc, json_of(r));
    }
    r
}

/// The parameters that ask for another name of what is at a place.
pub open spec fn asks_rename(
    j: Json,
    uri: Seq<char>,
    place: (usize, usize),
    name: Seq<char>,
) -> bool {
    &&& is_object(
        j,
        seq![
            ("textDocument"@, field(j, "textDocument"@)),
            ("position"@, field(j, "position"@)),
            ("newName"@, Json::Text(name)),
        ],
    )
    &&& is_object(field(j, "textDocument"@), seq![("uri"@, Json::Text(uri))])
    &&& is_position(field(j, "position"@), place)
}

pub fn rename_params(uri: &str, line: usize, col: usize, name: &str) -> (r: Value)
    ensures
        asks_rename(json_of(r), uri@, (line, col), name@),
{
    proof {
        lemma_names();
    }
    let d = object1("uri", from_text(uri));
    let p = position_json((line, col));
    let n = from_text(name);
    let ghost jd = json_of(d);
    let ghost jp = json_of(p);
    let ghost jn = json_of(n);
    let r = object3("textDocument", d, "position", p, "newName", n);
    proof {
        lemma_three("textDocument"@, jd, "position"@, jp, "newName"@, jn, json_of(r));
    }
    r
}

/// The parameters that ask for the symbols of the project.
pub open spec fn asks_symbols(j: Json, query: Seq<char>) -> bool {
    is_object(j, seq![("query"@, Json::Text(query))])
}

pub fn query_params(query: &str) -> (r: Value)
    ensures
        asks_symbols(json_of(r), query@),
{
    object1("query", from_text(query))
}

/// The parameters that ask a server to format a document.
pub open spec fn asks_format(j: Json, uri: Seq<char>, tab: usize, tabs: bool) -> bool {
    &&& is_object(
        j,
        seq![
            ("textDocument"@, field(j, "textDocument"@)),
            ("options"@, field(j, "options"@)),
        ],
    )
    &&& is_object(field(j, "textDocument"@), seq![("uri"@, Json::Text(uri))])
    &&& is_object(
        field(j, "options"@),
        seq![("tabSize"@, number_json(tab as u64)), ("insertSpaces"@, Json::Bool(!tabs))],
    )
}

pub fn format_params(uri: &str, tab: usize, tabs: bool) -> (r: Value)
    ensures
        asks_format(json_of(r), uri@, tab, tabs),
{
    proof {
        lemma_names();
    }
    let d = object1("uri", from_text(uri));
    let o = object2("tabSize", from_u64(tab as u64), "insertSpaces", from_bool(!tabs));
    let ghost jd = json_of(d);
    let ghost jo = json_of(o);
    let r = object2("textDocument", d, "options", o);
    proof {
        lemma_two("textDocument"@, jd, "options"@, jo, json_of(r));
    }
    r
}

/// The parameters that ask what can be done about a stretch and its
/// diagnostics.
pub open spec fn asks_actions(
    j: Json,
    uri: Seq<char>,
    from: (usize, usize),
    to: (usize, usize),
    diagnostics: Seq<Json>,
) -> bool {
    &&& is_object(
        j,
        seq![
            ("textDocument"@, field(j, "textDocument"@)),
            ("range"@, field(j, "range"@)),
            ("context"@, field(j, "context"@)),
        ],
    )
    &&& is_object(field(j, "textDocument"@), seq![("uri"@, Json::Text(uri))])
    &&& is_range(field(j, "range"@), from, to)
    &&& is_object(field(j, "context"@), seq![("diagnostics"@, Json::Array(diagnostics))])
}

pub fn action_params(
    uri: &str,
    from: (usize, usize),
    to: (usize, usize),
    diagnostics: Vec<Value>,
) -> (r: Value)
    ensures
        asks_actions(json_of(r), uri@, from, to, jsons(diagnostics@)),
{
    proof {
        lemma_names();
    }
    let d = object1("uri", from_text(uri));
    let g = range_json(from, to);
    let c = object1("diagnostics", from_array(diagnostics));
    let ghost jd = json_of(d);
    let ghost jg = json_of(g);
    let ghost jc = json_of(c);
    let r = object3("textDocument", d, "range", g, "context", c);
    proof {
        lemma_three("textDocument"@, jd, "range"@, jg, "context"@, jc, json_of(r));
    }
    r
}

pub open spec fn arguments_of(cmd: Json) -> Json {
    match member(cmd, "arguments"@) {
        Some(a) => a,
        None => Json::Array(Seq::empty()),
    }
}

/// The parameters that have a server run a command.
pub open spec fn asks_run(j: Json, cmd: Json) -> bool {
    is_object(
        j,
        seq![("command"@, field(cmd, "command"@)), ("arguments"@, arguments_of(cmd))],
    )
}

pub fn run_params(cmd: &Value) -> (r: Value)
    ensures
        asks_run(json_of(r), json_of(*cmd)),
{
    proof {
        lemma_names();
    }
    let args = match get(cmd, "arguments") {
        Some(a) => copy(a),
        None => {
            let none: Vec<Value> = Vec::new();
            assert(jsons(none@) =~= Seq::empty());
            from_array(none)
        },
    };
    let c = copy(at(cmd, "command"));
    assert(json_of(args) == arguments_of(json_of(*cmd)));
    object2("command", c, "arguments", args)
}

} // verus!
