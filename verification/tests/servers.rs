//! What the language servers say.

use crow::lsp_parse::{
    frame, hover_text, parse_diagnostic, parse_location, parse_locations, parse_signature,
    parse_symbols, path_from_uri, read_message, uri_from_path,
};
use serde_json::Value;

fn json(text: &str) -> Value {
    serde_json::from_str(text).unwrap()
}

/// What rust-analyzer really sends for rustc's E0106: the suggestions
/// ride in `relatedInformation`, the compiler's rendering in `data`.
#[test]
fn a_compiler_diagnostic_keeps_its_suggestions() {
    let d = parse_diagnostic(&json(
        r#"{
        "range": {"start": {"line": 0, "character": 24}},
        "severity": 1,
        "message": "missing lifetime specifier\nexpected named lifetime parameter",
        "relatedInformation": [
            {"message": "consider using the `'static` lifetime: `'static `"},
            {"message": "instead, return an owned value: `String`"}
        ],
        "data": {"rendered": "error[E0106]: missing lifetime specifier\nhelp: consider\n\n"}
    }"#,
    ))
    .unwrap();
    assert_eq!(d.message, "missing lifetime specifier");
    assert_eq!(d.notes().len(), 2);
    assert!(d.detail().ends_with("help: consider"));
    assert!(!d.is_echo());

    // The help republished as a hint: no note of its own, and no
    // rendering, so the detail is assembled from the message.
    let echo = parse_diagnostic(&json(
        r#"{
        "range": {"start": {"line": 0, "character": 25}},
        "severity": 4,
        "message": "consider using the `'static` lifetime",
        "relatedInformation": [{"message": "original diagnostic"}]
    }"#,
    ))
    .unwrap();
    assert!(echo.is_echo());
    assert_eq!(echo.notes().len(), 0);
    assert_eq!(echo.detail(), "consider using the `'static` lifetime");
    // The error with a suggestion outranks a bare one and any hint.
    assert!(d.rank() < echo.rank());
}

#[test]
fn frames_parse() {
    let body = r#"{"jsonrpc":"2.0","method":"x"}"#;
    let framed = format!("Content-Length: {}\r\n\r\n{}", body.len(), body);
    let msg = read_message(&framed).unwrap();
    assert_eq!(msg["method"], "x");
    assert!(read_message("").is_none());
    assert_eq!(frame(body), framed);
}

#[test]
fn uri_roundtrips_spaces() {
    let path = "/tmp/a dir/file.rs";
    let uri = uri_from_path(path);
    assert!(uri.contains("%20"));
    assert_eq!(path_from_uri(&uri).unwrap(), path);
}

#[test]
fn locations_parse_in_all_shapes() {
    let loc = json(r#"{"uri": "file:///a.rs", "range": {"start": {"line": 3, "character": 7}}}"#);
    let l = parse_location(&loc).unwrap();
    assert_eq!((l.path.as_str(), l.line, l.col), ("/a.rs", 3, 7));
    let link = json(
        r#"[{"targetUri": "file:///b.rs",
        "targetSelectionRange": {"start": {"line": 1, "character": 2}}}]"#,
    );
    let l = parse_location(&link).unwrap();
    assert_eq!((l.path.as_str(), l.line, l.col), ("/b.rs", 1, 2));
}

#[test]
fn signature_help_finds_the_active_parameter() {
    let by_label = json(
        r#"{"signatures": [{"label": "fn f(a: i32, b: u8)",
        "parameters": [{"label": "a: i32"}, {"label": "b: u8"}]}], "activeParameter": 1}"#,
    );
    let (label, range) = parse_signature(&by_label).unwrap();
    assert_eq!(&label[range.unwrap().0..range.unwrap().1], "b: u8");
    let by_offset = json(
        r#"{"signatures": [{"label": "f(x, y)",
        "parameters": [{"label": [2, 3]}, {"label": [5, 6]}], "activeParameter": 0}]}"#,
    );
    assert_eq!(parse_signature(&by_offset).unwrap().1, Some((2, 3)));
    assert!(parse_signature(&Value::Null).is_none());
}

#[test]
fn symbols_flatten_with_depth_and_containers() {
    let tree = json(
        r#"[{"name": "Foo", "kind": 23,
        "range": {"start": {"line": 0, "character": 0}},
        "selectionRange": {"start": {"line": 0, "character": 7}},
        "children": [{"name": "bar", "kind": 6,
            "selectionRange": {"start": {"line": 2, "character": 4}}}]}]"#,
    );
    let syms = parse_symbols(&tree);
    assert_eq!(syms.len(), 2);
    assert_eq!(
        (syms[1].name.as_str(), syms[1].depth, syms[1].kind),
        ("bar", 1, "method")
    );
    assert_eq!(syms[1].container, "Foo");
    assert_eq!(syms[0].location.col, 7);
    let flat = json(
        r#"[{"name": "main", "kind": 12, "containerName": "crate",
        "location": {"uri": "file:///a.rs", "range": {"start": {"line": 3, "character": 0}}}}]"#,
    );
    let syms = parse_symbols(&flat);
    assert_eq!(syms[0].location.path, "/a.rs");
}

#[test]
fn locations_parse_as_a_list() {
    let locs = json(
        r#"[{"uri": "file:///a.rs", "range": {"start": {"line": 1, "character": 2}}},
        {"uri": "file:///b.rs", "range": {"start": {"line": 3, "character": 4}}}]"#,
    );
    assert_eq!(parse_locations(&locs).len(), 2);
    assert!(parse_locations(&Value::Null).is_empty());
}

#[test]
fn hover_skips_code_fences() {
    let h = json(
        r#"{"contents": {"kind": "markdown", "value": "```rust\nfn foo()\n```"}}"#,
    );
    assert_eq!(hover_text(&h).unwrap(), "fn foo()");
}
