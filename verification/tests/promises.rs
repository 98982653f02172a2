//! What the library promises, on values.

use crow::answers::{next_step, ActionStep};
use crow::commands::{commands, find};
use crow::config::{apply, Config, Options};
use crow::deps::{latest_request, line_dep, version_span, Kind};
use crow::desk::Dir;
use crow::document::{read_swap, Document, SaveError};
use crow::editor::Editor;
use crow::files::DiskNews;
use crow::filetree::{FileTree, Listing};
use crow::jumps::Jumps;
use crow::keymap::{Key, KeyCode, KeyTrie, KeymapResult};
use crow::lsp::{Client, Event, Tag};
use crow::lsp_parse::{
    frame, frame_message, path_from_uri, read_message, uri_from_path, Diagnostic, Location, Symbol,
};
use crow::marks::{Base, Gutter, MARK_GAP};
use crow::objects::find_matching;
use crow::palette::{explorer_rows, theme_rows};
use crow::paths::{is_same_path, is_under, join_path, path_below};
use crow::picker::fuzzy_score;
use crow::position::{char_to_display_col, char_to_utf16, next_grapheme_boundary, utf16_to_char};
use crow::state::{Effect, Item, Mode, Opening, Picker, PickerKind};
use crow::strip::cut_blanks;
use crow::suggest::builtin_names;
use crow::transaction::Transaction;
use crow::tree_files::{may_not_paste, rename_target};
use crow::workspace::read_workspace_edit;
use ropey::Rope;
use serde_json::Value;

fn editor_with(text: &str) -> Editor {
    let mut editor = Editor::new(vec![], (80, 24), &Config::default(), Options::default());
    editor.doc_mut().text = Rope::from_str(text);
    editor
}

fn editor_on(path: &str, text: &str) -> Editor {
    let doc = Document::opened(path.into(), text, Some(1));
    Editor::new(vec![doc], (80, 24), &Config::default(), Options::default())
}

fn press(editor: &mut Editor, keys: &str) {
    for token in keys.split(' ').filter(|t| !t.is_empty()) {
        if token.len() > 1 && !token.contains('-') && !token.starts_with('<') {
            for c in token.chars() {
                editor.handle_key(Key::char(c));
            }
        } else {
            editor.handle_key(Key::parse(token).unwrap());
        }
        while editor.replay_next() {}
    }
}

fn json(text: &str) -> Value {
    serde_json::from_str(text).unwrap()
}

fn text(editor: &Editor) -> String {
    editor.doc().text.to_string()
}

// ---- edits ------------------------------------------------------------------------

#[test]
fn an_inverse_takes_an_edit_back_and_its_inverse_makes_it_again() {
    let before = Rope::from_str("one two three");
    let tx = Transaction::change(
        &before,
        vec![(0, 3, Some("1".into())), (4, 7, None), (8, 8, Some("+".into()))],
    );
    let mut rope = before.clone();
    tx.apply(&mut rope);
    assert_eq!(rope.to_string(), "1  +three");
    let back = tx.invert(&before);
    let again = back.invert(&rope);
    back.apply(&mut rope);
    assert_eq!(rope.to_string(), "one two three");
    again.apply(&mut rope);
    assert_eq!(rope.to_string(), "1  +three");
}

#[test]
fn positions_ride_through_an_edit_in_order() {
    let rope = Rope::from_str("abcdef");
    let tx = Transaction::change(&rope, vec![(1, 3, Some("XYZ".into()))]);
    let at: Vec<usize> = (0..=6).map(|p| tx.map_pos(p, false)).collect();
    assert_eq!(at[0], 0);
    assert_eq!(at[5], 6);
    assert!(at.windows(2).all(|w| w[0] <= w[1]));
    assert_eq!(tx.input_len(), 6);
    assert!(!tx.is_empty());
    assert_eq!(tx.changes(&rope), vec![(1, 3, "XYZ".to_string())]);
}

#[test]
fn a_transaction_reads_back_from_its_json() {
    let rope = Rope::from_str("abcdef");
    let tx = Transaction::change(&rope, vec![(1, 3, Some("é\n".into()))]);
    let read = Transaction::from_json(&tx.to_json()).unwrap();
    let (mut a, mut b) = (rope.clone(), rope.clone());
    tx.apply(&mut a);
    read.apply(&mut b);
    assert_eq!(a.to_string(), "aé\ndef");
    assert_eq!(b.to_string(), "aé\ndef");
    assert!(Transaction::from_json(&json("[{\"no\": 1}]")).is_none());
}

#[test]
fn redo_undoes_undo() {
    let mut d = Document::empty();
    d.insert_at_cursor("abc");
    d.commit_undo_group();
    d.insert_at_cursor("def");
    d.undo();
    assert_eq!(d.text.to_string(), "abc");
    assert!(d.redo());
    assert_eq!(d.text.to_string(), "abcdef");
    assert!(!d.redo());
}

#[test]
fn the_undo_history_survives_closing_the_file() {
    let mut d = Document::opened("/t/f.txt".into(), "one\n", Some(1));
    d.insert_at_cursor("zero ");
    d.commit_undo_group();
    let saved = d.save_undo().unwrap();
    let mut reopened = Document::opened("/t/f.txt".into(), "zero one\n", Some(2));
    reopened.load_undo(&saved.to_string());
    assert!(reopened.undo());
    assert_eq!(reopened.text.to_string(), "one\n");
    // Only where the file is still the text that it was recorded against.
    let mut other = Document::opened("/t/f.txt".into(), "something else\n", Some(2));
    other.load_undo(&saved.to_string());
    assert!(!other.undo());
    other.load_undo("not json");
    assert!(!other.undo());
}

#[test]
fn a_swap_file_gives_its_text_back_to_its_own_file_only() {
    let mut d = Document::opened("/t/f.txt".into(), "one\n", Some(1));
    assert!(d.write_swap(true, "/t/f.txt").is_none(), "nothing unsaved");
    d.insert_at_cursor("zero ");
    assert!(d.write_swap(false, "/t/f.txt").is_none(), "switched off");
    let body = d.write_swap(true, "/t/f.txt").unwrap();
    assert_eq!(read_swap(&body, "/t/f.txt").as_deref(), Some("zero one\n"));
    assert!(read_swap(&body, "/t/g.txt").is_none());
    assert!(read_swap("something else", "/t/f.txt").is_none());
    assert!(d.write_swap(true, "/t/f.txt").is_none(), "nothing new");
}

#[test]
fn motions_change_no_text() {
    let mut editor = editor_with("one (two)\nthree\n\nfour five\n");
    let before = text(&editor);
    press(&mut editor, "w e b l j k $ 0 ^ G gg 3G % C-d C-u v j l w <esc>");
    assert_eq!(text(&editor), before);
}

#[test]
fn a_multi_cursor_insert_is_one_undo_step() {
    let mut editor = editor_with("a\nb\nc");
    press(&mut editor, "C C i x <esc> u");
    assert_eq!(text(&editor), "a\nb\nc");
}

#[test]
fn a_substitution_is_one_undo_step() {
    let mut editor = editor_with("a a\na");
    press(&mut editor, ":%s/a/b/g <enter>");
    assert_eq!(text(&editor), "b b\nb");
    press(&mut editor, "u");
    assert_eq!(text(&editor), "a a\na");
}

#[test]
fn blanks_at_the_ends_of_lines_are_cut_on_writing() {
    assert_eq!(cut_blanks("a  \n\tb\t\n  \nc d"), "a\n\tb\n\nc d");
    assert_eq!(cut_blanks("x \r\ny "), "x\r\ny");
    assert_eq!(cut_blanks(""), "");
    let mut editor = editor_on("/t/a.rs", "a  \nb\n");
    editor.strip_before_write(0);
    assert_eq!(text(&editor), "a\nb\n");
    press(&mut editor, "u");
    assert_eq!(text(&editor), "a  \nb\n");
    // Never in markdown, nor where it is switched off.
    let mut editor = editor_on("/t/a.md", "a  \nb\n");
    editor.strip_before_write(0);
    assert_eq!(text(&editor), "a  \nb\n");
    let mut editor = editor_on("/t/a.rs", "a  \nb\n");
    editor.options.strip_trailing_whitespace = false;
    editor.strip_before_write(0);
    assert_eq!(text(&editor), "a  \nb\n");
}

#[test]
fn selected_lines_are_commented_and_uncommented() {
    let mut editor = editor_on("/t/a.rs", "a\n  b\n\nc\n");
    press(&mut editor, "V V V V gc");
    assert_eq!(text(&editor), "// a\n  // b\n\n// c\n");
    press(&mut editor, "u");
    assert_eq!(text(&editor), "a\n  b\n\nc\n");
    press(&mut editor, "gg gc");
    assert_eq!(text(&editor), "// a\n  b\n\nc\n");
    press(&mut editor, "gc");
    assert_eq!(text(&editor), "a\n  b\n\nc\n");
    let mut editor = editor_with("a\n");
    press(&mut editor, "gc");
    assert_eq!(editor.lines.status, "no comment syntax for this buffer");
}

// ---- text -------------------------------------------------------------------------

#[test]
fn columns_go_by_what_is_drawn_and_by_utf16() {
    let line: Vec<char> = "漢x\ty😀z".chars().collect();
    assert_eq!(char_to_display_col(&line, 1, 4), 2);
    assert_eq!(char_to_display_col(&line, 2, 4), 3);
    assert_eq!(char_to_display_col(&line, 3, 4), 4);
    assert_eq!(char_to_utf16(&line, 5), 6);
    assert_eq!(utf16_to_char(&line, 6), 5);
    let rope = Rope::from_str("e\u{301}x");
    assert_eq!(next_grapheme_boundary(&rope, 0), 2);
}

#[test]
fn brackets_match_each_other() {
    let s: Vec<char> = "a(b[c]d)e".chars().collect();
    assert_eq!(find_matching(&s, 1), Some(7));
    assert_eq!(find_matching(&s, 7), Some(1));
    assert_eq!(find_matching(&s, 3), Some(5));
    assert_eq!(find_matching(&s, 0), None);
}

#[test]
fn a_pattern_that_does_not_compile_is_searched_as_it_is() {
    let rope = Rope::from_str("f(x) and (");
    assert_eq!(crow::search::matches(&rope, "("), vec![(1, 2), (9, 10)]);
    assert_eq!(crow::search::matches(&rope, "\\w+\\("), vec![(0, 2)]);
}

#[test]
fn fuzzy_matching_needs_the_characters_in_order() {
    assert!(fuzzy_score("fnd", "find_files").is_some());
    assert!(fuzzy_score("dnf", "find_files").is_none());
    assert!(fuzzy_score("find", "find_files") > fuzzy_score("fnd", "find_files"));
    assert_eq!(fuzzy_score("FIND", "find"), fuzzy_score("find", "find"));
}

#[test]
fn a_paragraph_is_what_stands_between_blank_lines() {
    let mut editor = editor_with("one\ntwo\n\n\nthree\n");
    editor.doc_mut().anchor = 5;
    editor.doc_mut().cursor = 5;
    press(&mut editor, "mip d");
    assert_eq!(text(&editor), "\n\nthree\n");
    let mut editor = editor_with("one\ntwo\n\n\nthree\n");
    press(&mut editor, "map d");
    assert_eq!(text(&editor), "three\n");
    let mut editor = editor_with("one\n\ntwo\n");
    editor.doc_mut().anchor = 4;
    editor.doc_mut().cursor = 4;
    press(&mut editor, "mip");
    assert_eq!(editor.lines.status, "nothing to select inside 'p' here");
}

// ---- names, paths and keys --------------------------------------------------------

#[test]
fn every_command_is_found_by_its_name() {
    for c in commands() {
        assert_eq!(find(c.name()), Some(c));
    }
    assert_eq!(find("no_such_command"), None);
}

#[test]
fn a_binding_is_found_its_beginning_waits_and_others_stay() {
    let mut map = KeyTrie::new();
    map.bind_str("gg", "goto_file_start");
    map.bind_str("gd", "goto_definition");
    let keys = |s: &str| s.chars().map(Key::char).collect::<Vec<Key>>();
    assert_eq!(map.lookup(&keys("g")), KeymapResult::Pending);
    assert_eq!(map.lookup(&keys("gg")), KeymapResult::Matched(find("goto_file_start").unwrap()));
    assert_eq!(map.lookup(&keys("gd")), KeymapResult::Matched(find("goto_definition").unwrap()));
    assert_eq!(map.lookup(&keys("gx")), KeymapResult::NotFound);
}

#[test]
fn a_file_address_names_its_file() {
    for path in ["/a b/ç%.rs", "/tmp/x", "/t/ü#?.txt"] {
        assert_eq!(path_from_uri(&uri_from_path(path)).as_deref(), Some(path));
    }
    assert_eq!(uri_from_path("/é"), "file:///%C3%A9");
    assert_eq!(path_from_uri("file:///%C3"), None);
    assert_eq!(path_from_uri("http://x"), None);
}

#[test]
fn what_is_joined_lies_under() {
    assert_eq!(join_path("/a", "b/c"), "/a/b/c");
    assert!(is_under("/a/b/c", "/a"));
    assert!(is_under("/a", "/a"));
    assert!(!is_under("/ab", "/a"));
    for (p, dir) in [
        ("/a//b/./c/", "/a/b"),
        ("/a/b", "/a//b/"),
        ("/a/b", "/"),
        ("a/b", "a/./"),
        ("./a/b", "./a"),
        ("/a", ""),
        ("/a", "a"),
        ("a", "./a"),
        ("/a/b", "/a/b/c"),
        ("/a/../b", "/a"),
    ] {
        let below = std::path::Path::new(p).strip_prefix(dir).ok();
        assert_eq!(is_under(p, dir), below.is_some(), "{p} {dir}");
        let shown = below.map(|b| b.to_string_lossy().into_owned());
        assert_eq!(path_below(p, dir), shown, "{p} {dir}");
    }
}

#[test]
fn going_back_and_forward_through_the_jumps() {
    let mut j = Jumps::new();
    j.push((0, 1));
    j.push((0, 5));
    assert_eq!(j.back((0, 9)), Some((0, 5)));
    assert_eq!(j.forward(), Some((0, 9)));
    assert_eq!(j.forward(), None);
}

// ---- windows ----------------------------------------------------------------------

#[test]
fn windows_do_not_overlap_and_splitting_adds_one() {
    let mut editor = editor_with("x\n");
    for (n, keys) in ["C-w v", "C-w s", "C-w v"].iter().enumerate() {
        press(&mut editor, keys);
        assert_eq!(editor.window_count(), n + 2);
    }
    let (wins, _) = editor.window_rects();
    for (i, (_, a)) in wins.iter().enumerate() {
        for (_, b) in wins.iter().skip(i + 1) {
            let apart = a.0 + a.2 <= b.0 || b.0 + b.2 <= a.0 || a.1 + a.3 <= b.1 || b.1 + b.3 <= a.1;
            assert!(apart, "{a:?} {b:?}");
        }
    }
    press(&mut editor, "C-w q");
    assert_eq!(editor.window_count(), 3);
}

#[test]
fn a_window_keeps_its_place_while_another_has_the_focus() {
    let mut editor = editor_with("a\nb\nc\n");
    press(&mut editor, "j C-w v");
    let second = editor.desk.focused;
    press(&mut editor, "j C-w w");
    assert_ne!(editor.desk.focused, second);
    assert_eq!(editor.doc().cursor_line(), 1);
    press(&mut editor, "C-w w");
    assert_eq!(editor.desk.focused, second);
    assert_eq!(editor.doc().cursor_line(), 2);
}

#[test]
fn the_preview_opens_beside_the_text_and_never_has_the_focus() {
    let mut editor = editor_with("# Title\n");
    editor.toggle_preview();
    assert_eq!(editor.window_count(), 2);
    let preview = editor.preview_win();
    assert!(preview.is_some());
    for dir in [Dir::Left, Dir::Right, Dir::Up, Dir::Down] {
        editor.focus_window_dir(dir);
        assert_ne!(Some(editor.desk.focused), preview);
    }
    editor.focus_next_window();
    assert_ne!(Some(editor.desk.focused), preview);
    editor.toggle_preview();
    assert_eq!(editor.window_count(), 1);
    assert!(editor.preview_win().is_none());
}

#[test]
fn keys_for_the_shell_go_to_the_shell() {
    let mut editor = editor_with("keep me\n");
    press(&mut editor, "<space> t");
    editor.effects.clear();
    press(&mut editor, "d d x");
    assert_eq!(text(&editor), "keep me\n");
    assert_eq!(editor.effects.len(), 3);
    assert!(editor.effects.iter().all(|e| matches!(e, Effect::ShellKey(_))));
    editor.shell_failed("zsh", "no such file");
    assert_eq!(editor.lines.status, "Error: can't start zsh: no such file");
    assert!(!editor.shell.running);
}

#[test]
fn the_lines_of_two_windows_on_a_buffer_are_wanted_together() {
    let lines: String = (0..100).map(|i| format!("{i}\n")).collect();
    let mut editor = editor_with(&lines);
    assert_eq!(editor.refresh_highlights(), vec![(0, (0, 22))]);
    editor.split_window(false);
    press(&mut editor, "G");
    editor.ensure_cursor_visible();
    let wanted = editor.refresh_highlights();
    assert_eq!(wanted.len(), 1);
    assert_eq!(wanted[0].0, 0);
    assert_eq!(wanted[0].1 .0, 0);
    assert!(wanted[0].1 .1 >= 100);
    editor.resize((80, 10));
    assert!(editor.needs_reparse() == editor.doc().syntax_dirty);
}

// ---- options ----------------------------------------------------------------------

#[test]
fn the_last_configuration_counts_and_switches_switch_back() {
    let one = Config {
        theme: "mono".into(),
        tab_width: 99,
        scrolloff: 99,
        fmt: vec![("py".into(), "blue -".into())],
        ..Config::default()
    };
    let mut options = Options::default();
    assert!(apply(&one, &mut options));
    assert_eq!((options.theme.as_str(), options.tab_width, options.scrolloff), ("mono", 16, 50));
    let other = Config { theme: "no such theme".into(), tab_width: 0, ..Config::default() };
    assert!(!apply(&other, &mut options));
    assert_eq!((options.theme.as_str(), options.tab_width), ("mono", 1));
    assert!(options.fmt.is_empty());

    let mut editor = editor_with("");
    let (hidden, wrap) = (editor.options.show_hidden, editor.options.soft_wrap);
    editor.run_once(find("toggle_hidden").unwrap());
    editor.run_once(find("toggle_wrap").unwrap());
    assert_eq!((editor.options.show_hidden, editor.options.soft_wrap), (!hidden, !wrap));
    editor.run_once(find("toggle_hidden").unwrap());
    editor.run_once(find("toggle_wrap").unwrap());
    assert_eq!((editor.options.show_hidden, editor.options.soft_wrap), (hidden, wrap));
}

#[test]
fn quitting_keeps_unsaved_changes() {
    let mut editor = editor_with("x");
    press(&mut editor, "i y <esc>");
    press(&mut editor, ":q <enter>");
    assert!(!editor.should_quit);
    assert!(editor.lines.status.contains("Unsaved changes"));
    press(&mut editor, ":q! <enter>");
    assert!(editor.should_quit);
}

#[test]
fn registers_are_apart_and_captures_of_one_command_gather() {
    let mut editor = editor_with("ab\ncd\n");
    press(&mut editor, "C V \"b c");
    assert_eq!(editor.registers.get('b').as_deref(), Some("cd\nab\n"));
    assert_eq!(editor.registers.get('z'), None);
    assert_eq!(editor.registers.unnamed, "");
}

// ---- saving -----------------------------------------------------------------------

#[test]
fn a_save_is_refused_for_each_reason() {
    let mut nameless = Document::empty();
    assert!(matches!(nameless.save(false, None), Err(SaveError::NoName)));
    let named = Document::opened("/t/f".into(), "", Some(1));
    assert!(matches!(named.save(false, Some(2)), Err(SaveError::Changed)));
    assert!(named.save(true, Some(2)).is_ok());
    assert!(named.save(false, None).is_ok(), "no file, nothing to lose");
    assert!(matches!(nameless.save_as("/t/g", false, true, false), Err(SaveError::Exists)));
    assert!(nameless.save_as("/t/g", false, true, true).is_ok());
    assert_eq!(nameless.path.as_deref(), Some("/t/g"));
    let texts = [SaveError::NoName, SaveError::Changed, SaveError::Exists].map(|e| e.text());
    assert_eq!(texts[0], "buffer has no filename");
    assert_eq!(texts[1], "file changed on disk since read — use :w! to overwrite");
    let mut editor = editor_on("/t/f", "");
    assert!(editor.may_save(false, Some(9)).is_err());
    editor.save_refused(SaveError::Changed, false);
    assert_eq!(editor.lines.status, format!("Error: {}", texts[1]));
    let mut failing = Document::opened("/t/f".into(), "", Some(1));
    failing.save_failed(Some(3));
    assert!(failing.save(false, Some(3)).is_ok());
}

#[test]
fn each_news_from_the_disk() {
    let mut editor = editor_on("/t/f", "x\n");
    assert!(matches!(editor.disk_news(0, Some(1)), DiskNews::Nothing));
    assert!(matches!(editor.disk_news(0, None), DiskNews::Nothing));
    assert!(matches!(editor.disk_news(0, Some(2)), DiskNews::Reload));
    press(&mut editor, "i y <esc>");
    assert!(matches!(editor.disk_news(0, Some(2)), DiskNews::Conflict));
    let note = editor.disk_conflict(0, Some(2));
    assert!(note.contains("changed on disk"));
    assert!(matches!(editor.disk_news(0, Some(2)), DiskNews::Known));
}

#[test]
fn pasting_and_renaming_are_refused_for_each_reason() {
    assert_eq!(
        may_not_paste("/a/x", "/b", "x", true, false).as_deref(),
        Some("Error: \"x\" already exists here")
    );
    assert_eq!(
        may_not_paste("/a", "/a/b", "a", false, true).as_deref(),
        Some("Error: can't paste a directory into itself")
    );
    assert_eq!(may_not_paste("/a/x", "/b", "x", false, false), None);
    assert_eq!(rename_target("/a/x", "y").as_deref(), Some("/a/y"));
    assert_eq!(rename_target("/a/x", "x"), None);
    assert_eq!(rename_target("/a/x", ""), None);
    let mut editor = editor_with("");
    editor.name_taken("a\"b");
    assert_eq!(editor.lines.status, "Error: \"a\\\"b\" already exists");
    editor.no_object('\'', true);
    assert_eq!(editor.lines.status, "nothing to select inside '\\'' here");
}

#[test]
fn buffers_follow_a_file_that_moves_and_come_back_with_it() {
    let mut editor = editor_on("/t/a", "x");
    editor.retarget_buffers("/t/a", "/t/b");
    assert_eq!(editor.doc().path.as_deref(), Some("/t/b"));
    editor.retarget_buffers("/t/other", "/t/c");
    assert_eq!(editor.doc().path.as_deref(), Some("/t/b"));
    editor.retarget_buffers("/t/b", "/t/a");
    assert_eq!(editor.doc().path.as_deref(), Some("/t/a"));
}

#[test]
fn a_directory_opened_and_closed_again() {
    let listings = vec![
        Listing { dir: "/t".into(), entries: vec![("d".into(), true), (".h".into(), false)] },
        Listing { dir: "/t/d".into(), entries: vec![("f".into(), false)] },
    ];
    let mut tree = FileTree::new("/t".into());
    tree.rebuild(&listings, false);
    assert_eq!(tree.rows.len(), 2, "dotfiles are hidden");
    tree.rebuild(&listings, true);
    assert_eq!(tree.rows.len(), 3);
    assert_eq!(tree.rows[0].path, "/t");
    tree.selected = 1;
    let closed = tree.expanded.clone();
    tree.toggle_selected();
    assert_eq!(tree.expanded, ["/t/d"]);
    tree.toggle_selected();
    assert_eq!(tree.expanded, closed);
}

// ---- language servers -------------------------------------------------------------

fn served_editor() -> Editor {
    let mut editor = editor_on("/t/a.rs", "let x = 1;\nx + y\n");
    let command = editor.servers_to_start();
    assert_eq!(command, ["rust-analyzer"]);
    editor.server_started(Client::start(&command[0], 7, "file:///t"));
    assert!(editor.servers_to_start().is_empty());
    editor
}

fn shake_hands(editor: &mut Editor) {
    let mut events = Vec::new();
    editor.servers.clients[0].handle(
        &json(r#"{"id": 1, "result": {"capabilities": {"textDocumentSync": 2,
            "documentFormattingProvider": true,
            "completionProvider": {"triggerCharacters": ["."]}}}}"#),
        &mut events,
    );
}

#[test]
fn what_waits_for_the_handshake_follows_it() {
    let mut editor = served_editor();
    editor.lsp_sync(&vec!["/t/a.rs".to_string()]);
    assert_eq!(editor.servers.clients[0].outbox.len(), 1);
    assert_eq!(editor.servers.clients[0].outbox[0]["method"], "initialize");
    shake_hands(&mut editor);
    let c = &editor.servers.clients[0];
    assert!(c.ready && c.queued.is_empty());
    let methods: Vec<&str> = c.outbox.iter().map(|m| m["method"].as_str().unwrap()).collect();
    assert_eq!(methods, ["initialize", "initialized", "textDocument/didOpen"]);
    assert_eq!(c.outbox[2]["params"]["textDocument"]["uri"], "file:///t/a.rs");
    assert_eq!(c.outbox[2]["params"]["textDocument"]["text"], "let x = 1;\nx + y\n");
    assert!(c.triggers_completion('.') && c.can_format() && c.incremental());
}

#[test]
fn a_server_that_was_told_has_the_revision() {
    let mut editor = served_editor();
    shake_hands(&mut editor);
    let files = vec!["/t/a.rs".to_string()];
    editor.lsp_sync(&files);
    press(&mut editor, "i q <esc>");
    editor.lsp_sync(&files);
    let c = &editor.servers.clients[0];
    assert_eq!(c.synced("/t/a.rs").unwrap().1, editor.doc().revision);
    let last = c.outbox.last().unwrap();
    assert_eq!(last["method"], "textDocument/didChange");
    assert_eq!(last["params"]["contentChanges"][0]["text"], "q");
    assert_eq!(last["params"]["contentChanges"][0]["range"]["start"]["character"], 0);
    let sent = c.outbox.len();
    editor.lsp_sync(&files);
    assert_eq!(editor.servers.clients[0].outbox.len(), sent, "nothing new to tell");
}

#[test]
fn requests_name_the_place_of_the_cursor() {
    let mut editor = served_editor();
    shake_hands(&mut editor);
    press(&mut editor, "j l l l l");
    editor.goto_definition("/t/a.rs");
    let last = editor.servers.clients[0].outbox.last().unwrap().clone();
    assert_eq!(last["method"], "textDocument/definition");
    assert_eq!(last["params"]["position"], json(r#"{"line": 1, "character": 4}"#));
    editor.find_references("/t/a.rs");
    assert_eq!(editor.lines.status, "finding references…");
    editor.rename_symbol("z", "/t/a.rs");
    assert_eq!(editor.lines.status, "renaming to z…");
    let last = editor.servers.clients[0].outbox.last().unwrap().clone();
    assert_eq!(last["params"]["newName"], "z");
    assert!(editor.lsp_format("/t/a.rs"));
    let last = editor.servers.clients[0].outbox.last().unwrap().clone();
    assert_eq!(last["params"]["options"], json(r#"{"tabSize": 4, "insertSpaces": true}"#));
    editor.lsp_did_save("/t/a.rs");
    editor.lsp_sync(&vec!["/t/a.rs".to_string()]);
    editor.lsp_did_save("/t/a.rs");
    let last = editor.servers.clients[0].outbox.last().unwrap().clone();
    assert_eq!(last["method"], "textDocument/didSave");

    let mut nameless = editor_with("x");
    nameless.hover("");
    assert_eq!(nameless.lines.status, "buffer has no file");
    let mut alone = editor_on("/t/a.rs", "x");
    alone.complete("/t/a.rs");
    assert_eq!(alone.lines.status, "language server not running");
    assert!(!alone.lsp_format("/t/a.rs"));
    alone.workspace_symbols();
    assert_eq!(alone.lines.status, "language server not running");
}

#[test]
fn a_server_that_cannot_start_is_not_tried_again() {
    let mut editor = editor_on("/t/a.rs", "x");
    editor.server_missing("rust-analyzer", "rust-analyzer", None);
    assert_eq!(editor.lines.status, "could not start \"rust-analyzer\" — no LSP");
    assert!(editor.servers_to_start().is_empty());
    let mut editor = served_editor();
    let gone = editor.bury_client(0);
    assert_eq!(gone.command(), "rust-analyzer");
    assert!(editor.servers_to_start().is_empty());
}

fn diagnostic(line: usize, col: usize, severity: u8, message: &str) -> Diagnostic {
    Diagnostic { line, col, severity, message: message.into(), raw: Value::Null }
}

#[test]
fn diagnostics_are_walked_round_the_end_and_listed_here_first() {
    let mut editor = editor_on("/t/b.rs", "one\ntwo\nthree\n");
    editor.goto_diagnostic("/t/b.rs", true);
    assert_eq!(editor.lines.status, "no diagnostics in this buffer");
    editor.diagnostics_picker(None, "/t");
    assert_eq!(editor.lines.status, "no diagnostics");
    editor.set_diagnostics(
        "/t/b.rs".into(),
        vec![diagnostic(2, 0, 1, "late"), diagnostic(0, 1, 2, "early")],
    );
    editor.set_diagnostics("/t/a-b/x.rs".into(), vec![diagnostic(4, 0, 1, "other")]);
    editor.set_diagnostics("/t/a/x.rs".into(), vec![diagnostic(4, 0, 1, "first")]);
    editor.goto_diagnostic("/t/b.rs", true);
    assert_eq!((editor.doc().cursor, editor.lines.status.as_str()), (1, "● early"));
    editor.goto_diagnostic("/t/b.rs", true);
    assert_eq!((editor.doc().cursor, editor.lines.status.as_str()), (8, "● late"));
    editor.goto_diagnostic("/t/b.rs", true);
    assert_eq!(editor.doc().cursor, 1);
    editor.goto_diagnostic("/t/b.rs", false);
    assert_eq!(editor.doc().cursor, 8);
    editor.diagnostic_detail("/t/b.rs");
    assert_eq!(editor.panes.hover.as_ref().unwrap().0, ["late"]);
    press(&mut editor, "<esc> k");
    editor.diagnostic_detail("/t/b.rs");
    assert_eq!(editor.lines.status, "no diagnostic on this line");

    editor.diagnostics_picker(Some("/t/b.rs".into()), "/t");
    let picker = editor.panes.picker.as_ref().unwrap();
    let rows: Vec<&str> = picker.items.iter().map(|i| i.label.as_str()).collect();
    assert_eq!(rows, ["● b.rs:3", "▲ b.rs:1", "● a/x.rs:5", "● a-b/x.rs:5"]);
}

#[test]
fn answers_are_shown() {
    let mut editor = editor_on("/t/a.rs", "abc\n");
    assert!(editor.take_event(Event::Status("hello".into())).is_none());
    assert_eq!(editor.lines.status, "hello");
    editor.take_event(Event::Hover("one\ntwo".into()));
    assert_eq!(editor.panes.hover.as_ref().unwrap().0, ["one", "two"]);
    press(&mut editor, "<esc>");
    assert!(editor.panes.hover.is_none());
    editor.take_event(Event::Signature(Some(("f(x)".into(), None))));
    assert!(editor.panes.signature.is_none(), "nobody is typing");
    editor.take_event(Event::Definition(Location { path: "/t/b.rs".into(), line: 3, col: 4 }));
    assert!(matches!(editor.effects.last(), Some(Effect::Open { path, .. }) if path == "/t/b.rs"));
    editor.effects.clear();

    editor.take_event(Event::Symbols(vec![], false));
    assert!(editor.panes.picker.is_none(), "no symbols were asked for");
    editor.servers.symbols_path = Some("/t/a.rs".into());
    let symbol = |name: &str, depth: usize, container: &str| Symbol {
        name: name.into(),
        kind: "method",
        depth,
        container: container.into(),
        location: Location { path: String::new(), line: 2, col: 0 },
    };
    editor.take_event(Event::Symbols(vec![symbol("f", 1, "S")], false));
    let picker = editor.panes.picker.as_ref().unwrap();
    assert_eq!((picker.items[0].label.as_str(), picker.items[0].detail.as_str()), ("  f", "method  :3"));
    match &picker.kind {
        PickerKind::Locations { locs } => assert_eq!(locs[0].path, "/t/a.rs"),
        _ => panic!("not a list of places"),
    }
    assert_eq!(symbol("f", 0, "S").row(true).detail, "method in S");
    press(&mut editor, "<esc>");
    assert_eq!(editor.keys.mode, Mode::Normal);

    editor.take_event(Event::CodeActions(vec![]));
    assert_eq!(editor.lines.status, "no code actions here");
    editor.take_event(Event::CodeActions(vec![json(r#"{"kind": "quickfix"}"#)]));
    let item = &editor.panes.picker.as_ref().unwrap().items[0];
    assert_eq!((item.label.as_str(), item.detail.as_str()), ("(untitled)", "quickfix"));
    press(&mut editor, "<esc>");

    let left = editor.take_event(Event::References(vec![]));
    assert!(matches!(left, Some(Event::References(_))));
    editor.show_references(vec![], vec![]);
    assert_eq!(editor.lines.status, "no references found");
    let place = |line: usize| Location { path: "/t/b.rs".into(), line, col: 0 };
    editor.show_references(vec![place(1)], vec![]);
    assert!(matches!(editor.effects.last(), Some(Effect::Open { .. })));
    let rows = vec![
        Item { label: "b.rs:2".into(), detail: String::new() },
        Item { label: "b.rs:3".into(), detail: String::new() },
    ];
    editor.show_references(vec![place(1), place(2)], rows);
    assert_eq!(editor.panes.picker.as_ref().unwrap().title, "references (2)");
}

#[test]
fn events_are_taken_in_order_up_to_one_that_needs_files() {
    let mut editor = editor_on("/t/a.rs", "abc\n");
    let mut events = vec![
        Event::Status("one".into()),
        Event::References(vec![]),
        Event::Status("two".into()),
    ];
    assert!(matches!(editor.lsp_tick(&mut events), Some(Event::References(_))));
    assert_eq!(editor.lines.status, "one");
    assert_eq!(events.len(), 1);
    assert!(editor.lsp_tick(&mut events).is_none());
    assert_eq!(editor.lines.status, "two");
    assert!(events.is_empty());
}

#[test]
fn a_code_action_takes_each_step() {
    let run = json(r#"{"title": "t", "command": "x"}"#);
    assert!(matches!(next_step(&run), ActionStep::Run));
    let resolve = json(r#"{"title": "t"}"#);
    assert!(matches!(next_step(&resolve), ActionStep::Resolve));
    let edit = json(r#"{"title": "t", "edit": {}}"#);
    assert!(matches!(next_step(&edit), ActionStep::Apply));
    let command = json(r#"{"title": "t", "command": {"command": "x"}}"#);
    assert!(matches!(next_step(&command), ActionStep::Apply));
    let mut editor = editor_with("");
    editor.tell_action(&edit, Some(1));
    assert_eq!(editor.lines.status, "t — 1 file changed");
    editor.tell_action(&json("{}"), None);
    assert_eq!(editor.lines.status, "code action: nothing to apply");
    editor.tell_edit(2);
    assert_eq!(editor.lines.status, "2 files changed — review, then :wa writes them");
}

#[test]
fn a_format_answer_comes_too_late_or_in_time() {
    let edit = r#"{"range": {"start": {"line": 0, "character": 0}, "end": {"line": 0, "character": 1}}, "newText": "X"}"#;
    let mut editor = editor_on("/t/a.rs", "abc\n");
    editor.finish_lsp_format(vec![json(edit)]);
    assert_eq!(text(&editor), "abc\n", "nothing was asked");
    editor.servers.pending_format = Some((0, editor.doc().revision));
    editor.finish_lsp_format(vec![json(edit)]);
    assert_eq!((text(&editor).as_str(), editor.lines.status.as_str()), ("Xbc\n", "formatted (language server)"));
    editor.servers.pending_format = Some((0, editor.doc().revision));
    editor.finish_lsp_format(vec![]);
    assert_eq!(editor.lines.status, "already formatted");
    editor.servers.pending_format = Some((0, 999));
    editor.finish_lsp_format(vec![json(edit)]);
    assert_eq!(editor.lines.status, "buffer changed while formatting — :fmt again");
    assert_eq!(text(&editor), "Xbc\n");
}

#[test]
fn a_typed_completion_request_is_made_after_its_edit() {
    let mut editor = served_editor();
    shake_hands(&mut editor);
    editor.servers.completion_pending = Some(Tag::CompletionTyped);
    assert!(editor.wants_sync(false));
    editor.request_completion("/t/a.rs");
    assert!(editor.servers.completion_pending.is_none());
    let sent = editor.servers.clients[0].outbox.len();
    press(&mut editor, "i");
    editor.servers.signature_pending = true;
    editor.request_signature("/t/a.rs");
    assert_eq!(editor.servers.clients[0].outbox.len(), sent + 1);
    let last = editor.servers.clients[0].outbox.last().unwrap();
    assert_eq!(last["method"], "textDocument/signatureHelp");
    assert!(!editor.wants_sync(false) && editor.wants_sync(true));
}

#[test]
fn manifests_are_looked_up_once() {
    let editor = editor_on("/t/Cargo.toml", "[dependencies]\n");
    let due = editor.deps_tick(&vec![]);
    assert_eq!(due.len(), 1);
    assert_eq!(due[0].0, 0);
    assert!(editor.deps_tick(&vec!["/t/Cargo.toml".to_string()]).is_empty());
    assert!(editor_on("/t/x.rs", "").deps_tick(&vec![]).is_empty());
}

// ---- requirements of Python projects ----------------------------------------------

fn requirement(line: &str) -> (String, Option<String>) {
    let all = crow::deps::parse(Kind::Requirements, line);
    assert_eq!(all.len(), 1, "{line}");
    all.into_iter().next().unwrap()
}

#[test]
fn a_digit_in_a_name_is_no_version() {
    assert_eq!(requirement("h2==4.1.0"), ("h2".into(), Some("4.1.0".into())));
    assert_eq!(requirement("h2"), ("h2".into(), None));
    assert_eq!(version_span(Kind::Pypi, "    \"h2<5\","), Some((8, 9)));
    assert_eq!(version_span(Kind::Requirements, "h2==4.1.0"), Some((4, 9)));
}

#[test]
fn extras_and_markers_are_no_versions() {
    assert_eq!(requirement("uvicorn[standard2]>=0.20"), ("uvicorn".into(), Some("0.20".into())));
    let marked = "tomli ; python_version < \"3.11\"";
    assert_eq!(requirement(marked), ("tomli".into(), None));
    let both = "httpx[http2]==0.27 ; python_version > \"3.8\"";
    assert_eq!(requirement(both), ("httpx".into(), Some("0.27".into())));
}

#[test]
fn a_key_or_an_item_names_the_package_of_a_line() {
    assert_eq!(line_dep(Kind::Pypi, "django = \"5.0\"").as_deref(), Some("django"));
    assert_eq!(line_dep(Kind::Pypi, "    \"h2<5\",").as_deref(), Some("h2"));
    assert_eq!(
        line_dep(Kind::Pypi, "dependencies = [\"flask>=2.0\"]").as_deref(),
        Some("flask")
    );
}

#[test]
fn each_registry_is_asked_in_its_own_way() {
    let asked = latest_request(Kind::Pypi, "Foo_Bar").unwrap();
    assert_eq!(asked.url, "https://pypi.org/simple/foo-bar/");
    assert_eq!(asked.headers, vec!["Accept: application/vnd.pypi.simple.v1+json"]);
    let asked = latest_request(Kind::Npm, "@a/b").unwrap();
    assert_eq!(asked.url, "https://registry.npmjs.org/@a%2Fb/latest");
    assert!(asked.headers.is_empty());
    assert!(latest_request(Kind::Cargo, "").is_none());
}

// ---- leaving with a write ---------------------------------------------------------

#[test]
fn a_refused_write_still_leaves_where_nothing_was_edited() {
    let mut editor = editor_on("/t/f", "x\n");
    editor.save_refused(SaveError::Changed, true);
    assert!(editor.should_quit);
    assert!(editor.lines.status.starts_with("Error: file changed on disk"));
    let mut nameless = editor_with("");
    nameless.save_refused(SaveError::NoName, true);
    assert!(nameless.should_quit);
}

#[test]
fn a_refused_write_stays_where_something_was_edited() {
    let mut editor = editor_on("/t/f", "x\n");
    press(&mut editor, "i y <esc>");
    editor.save_refused(SaveError::Changed, true);
    assert!(!editor.should_quit);
    editor.write_failed(Some(4), "disk full", true);
    assert!(!editor.should_quit);
    assert_eq!(editor.lines.status, "Error: disk full");
    assert!(editor.may_save(false, Some(4)).is_ok(), "the mark on disk is ours");
    assert!(editor.front_written(Some(5), None, true));
    assert!(editor.should_quit);
}

#[test]
fn what_a_file_command_did_is_said() {
    let mut editor = editor_on("/t/f", "x\n");
    editor.file_opened("notes.txt", Document::opened("notes.txt".into(), "n\n", None));
    assert_eq!(editor.lines.status, "\"notes.txt\"");
    assert_eq!(editor.desk.documents.len(), 2);
    assert_eq!(text(&editor), "n\n");
    editor.reloaded("n\n", Some(3));
    assert_eq!(editor.lines.status, "already the same as the file on disk");
    editor.reloaded("m\n", Some(4));
    assert_eq!(editor.lines.status, "reloaded from disk (u undoes)");
    assert_eq!(text(&editor), "m\n");
    press(&mut editor, "u");
    assert_eq!(text(&editor), "n\n");
    editor.written_as("other.txt", Some(5));
    assert_eq!(editor.lines.status, "\"other.txt\" written");
    assert!(!editor.doc().modified);
    editor.config_opened(Document::opened("crow.toml".into(), "", None));
    assert_eq!(editor.lines.status, "editing crow.toml — :config! to reload it");
    assert_eq!(editor.desk.documents.len(), 3);
}

#[test]
fn a_file_that_the_formatter_wrote_is_ours() {
    let mut editor = editor_on("/t/f.rs", "x\n");
    assert_eq!(editor.formatted("", true, Some(7)), "already formatted");
    assert!(editor.may_save(false, Some(7)).is_ok());
    assert_eq!(editor.formatted("y\n", false, Some(9)), "formatted");
    assert!(editor.may_save(false, Some(9)).is_err());
    assert_eq!(text(&editor), "y\n");
    press(&mut editor, "u");
    assert_eq!(text(&editor), "x\n");
}

// ---- writing of itself ------------------------------------------------------------

fn autosaving(after: &str) -> Editor {
    let config = crow::config::parse(&format!("[options]\nautosave = {after}\n"));
    let mut options = Options::default();
    apply(&config, &mut options);
    let doc = Document::opened("/t/f".into(), "x  \n", Some(1));
    Editor::new(vec![doc], (80, 24), &config, options)
}

#[test]
fn a_buffer_is_written_once_typing_has_paused() {
    let mut editor = autosaving("1000");
    assert!(!editor.autosaves(0, 5000, Some(1)), "nothing to write");
    press(&mut editor, "i y <esc>");
    assert!(!editor.autosaves(0, 999, Some(1)));
    assert!(!editor.autosaves(0, 1000, Some(2)), "changed on disk");
    assert!(editor.autosaves(0, 1000, Some(1)));
    let before = editor.lines.status.clone();
    assert!(editor.autosaved(0, Some(3)));
    assert_eq!(text(&editor), "yx  \n", "as typed");
    assert_eq!(editor.lines.status, before);
    assert!(!editor.autosaves(0, 1000, Some(3)));
}

#[test]
fn a_write_that_failed_is_not_tried_again_until_the_text_changes() {
    let mut editor = autosaving("1");
    press(&mut editor, "i y <esc>");
    assert!(editor.autosaves(0, 1, Some(1)));
    editor.autosave_lost(0, Some(1), "read-only");
    assert_eq!(editor.lines.status, "Error: read-only");
    assert!(!editor.autosaves(0, 1, Some(1)));
    press(&mut editor, "i z <esc>");
    assert!(editor.autosaves(0, 1, Some(1)));
}

#[test]
fn nothing_is_written_of_itself_unless_asked() {
    let mut editor = autosaving("soon");
    press(&mut editor, "i y <esc>");
    assert_eq!(editor.options.autosave, 0);
    assert!(!editor.autosaves(0, u64::MAX, Some(1)));
}

// ---- the rest ---------------------------------------------------------------------

#[test]
fn a_shell_that_does_not_start_installs_nothing() {
    let mut editor = editor_with("");
    editor.shell.install = Some(("ruff".into(), false));
    assert!(editor.awaited_program().is_some());
    editor.shell_failed("zsh", "no such file");
    assert!(editor.awaited_program().is_none());
    assert!(editor.shell.install.is_none());
}

#[test]
fn the_answer_to_a_command_is_called_execute() {
    assert_eq!(Tag::ExecuteCommand.name(), "execute");
}

#[test]
fn copying_a_line_replaces_the_register_and_leaves_the_cursor() {
    let mut editor = editor_with("abc\ndef");
    press(&mut editor, "cc");
    assert_eq!(editor.registers.unnamed, "abc\n");
    assert_eq!(editor.doc().cursor, 0);
    press(&mut editor, "j cc");
    assert_eq!(editor.registers.unnamed, "def");
    assert_eq!(editor.lines.status, "copied 3 chars");
}

fn two_directories() -> Vec<Listing> {
    vec![
        Listing {
            dir: "/r".into(),
            entries: vec![("a".into(), true), ("b".into(), true), ("f".into(), false)],
        },
        Listing { dir: "/r/a".into(), entries: vec![("x".into(), false), ("y".into(), false)] },
    ]
}

fn names_of(tree: &FileTree) -> Vec<String> {
    tree.rows.iter().map(|r| r.name.clone()).collect()
}

#[test]
fn the_selection_moves_by_rows_and_stops_at_the_ends() {
    let mut tree = FileTree::new("/r".into());
    tree.rebuild(&two_directories(), false);
    assert_eq!(names_of(&tree), ["r", "a", "b", "f"]);
    tree.move_selection(2);
    assert_eq!(tree.selected, 2);
    tree.move_selection(9);
    assert_eq!(tree.selected, 3);
    tree.move_selection(-2);
    assert_eq!(tree.selected, 1);
    tree.move_selection(isize::MIN);
    assert_eq!(tree.selected, 0);
    tree.move_selection(isize::MAX);
    assert_eq!(tree.selected, 3);
}

#[test]
fn a_directory_opened_and_closed_gives_the_rows_back() {
    let all = two_directories();
    let mut tree = FileTree::new("/r".into());
    tree.rebuild(&all, false);
    tree.move_selection(1);
    tree.toggle_selected();
    tree.rebuild(&all, false);
    assert_eq!(names_of(&tree), ["r", "a", "x", "y", "b", "f"]);
    assert!(tree.rows[1].expanded);
    assert_eq!(tree.selected, 1);
    tree.toggle_selected();
    tree.rebuild(&all, false);
    assert_eq!(names_of(&tree), ["r", "a", "b", "f"]);
    assert!(!tree.rows[1].expanded);
    tree.move_selection(2);
    tree.toggle_selected();
    tree.rebuild(&all, false);
    assert_eq!(names_of(&tree), ["r", "a", "b", "f"], "a file has nothing to open");
}

#[test]
fn an_edit_drops_what_could_be_redone() {
    let mut editor = editor_with("abc");
    press(&mut editor, "i x <esc> u");
    assert_eq!(text(&editor), "abc");
    press(&mut editor, "i y <esc>");
    assert!(!editor.doc_mut().redo());
    assert_eq!(text(&editor), "yabc");
}

#[test]
fn the_newest_entries_of_a_long_history_come_back() {
    let mut d = Document::opened("/t/f".into(), "", None);
    for i in 0..1003usize {
        d.apply(Transaction::insert(&d.text, i, "x"), i + 1);
        d.commit_undo_group();
    }
    let body = d.save_undo().unwrap().to_string();
    let mut again = Document::opened("/t/f".into(), &"x".repeat(1003), None);
    again.load_undo(&body);
    let mut undone = 0;
    while again.undo() {
        undone += 1;
    }
    assert_eq!(undone, 1000);
    assert_eq!(again.text.to_string(), "xxx");
    for _ in 0..1000 {
        assert!(again.redo());
    }
    assert!(!again.redo());
    assert_eq!(again.text.len_chars(), 1003);
}

#[test]
fn a_displayed_key_reads_back() {
    let codes = [
        KeyCode::Char('x'),
        KeyCode::Char('C'),
        KeyCode::Char('-'),
        KeyCode::Char(' '),
        KeyCode::Esc,
        KeyCode::Enter,
        KeyCode::Backspace,
        KeyCode::Tab,
        KeyCode::BackTab,
        KeyCode::Delete,
        KeyCode::Left,
        KeyCode::Right,
        KeyCode::Up,
        KeyCode::Down,
        KeyCode::Home,
        KeyCode::End,
        KeyCode::PageUp,
        KeyCode::PageDown,
    ];
    for code in codes {
        for (ctrl, alt) in [(false, false), (true, false), (false, true), (true, true)] {
            let key = Key { code, ctrl, alt };
            assert_eq!(Key::parse(&key.display()), Some(key));
        }
    }
    assert_eq!(Key { code: KeyCode::Char('x'), ctrl: true, alt: true }.display(), "Ctrl-Alt-x");
}

#[test]
fn the_names_of_two_manifests_add_up() {
    let a = "[dependencies]\nserde = \"1\"\r";
    let b = "  [dev-dependencies]\nropey.workspace = true\n";
    let both = crow::crates::dep_names(&format!("{a}\n{b}"));
    assert_eq!(both, ["serde", "ropey"]);
    assert_eq!(crow::crates::dep_names(a), ["serde"]);
    assert_eq!(crow::crates::dep_names(b), ["ropey"]);
}

#[test]
fn closing_the_window_that_a_split_made_gives_the_layout_back() {
    let mut editor = editor_with("one\n");
    press(&mut editor, "C-w v C-w s");
    let before = editor.window_rects();
    press(&mut editor, "C-w s");
    assert_eq!(editor.window_count(), 4);
    press(&mut editor, "C-w q");
    assert_eq!(editor.window_rects(), before);
}

#[test]
fn every_cell_is_in_one_window_or_separator() {
    let mut editor = editor_with("one\n");
    press(&mut editor, "C-w v C-w s C-w v");
    let (windows, seps) = editor.window_rects();
    let held = |r: (u16, u16, u16, u16), x: u16, y: u16| {
        r.0 <= x && x < r.0 + r.2 && r.1 <= y && y < r.1 + r.3
    };
    let area = windows.iter().map(|w| w.1.0 + w.1.2).max().unwrap();
    let bottom = windows.iter().map(|w| w.1.1 + w.1.3).max().unwrap();
    let left = windows.iter().map(|w| w.1.0).min().unwrap();
    let top = windows.iter().map(|w| w.1.1).min().unwrap();
    for x in left..area {
        for y in top..bottom {
            let n = windows.iter().filter(|w| held(w.1, x, y)).count();
            let m = seps.iter().filter(|s| held(s.0, x, y)).count();
            assert_eq!(n + m, 1, "{x} {y}");
        }
    }
}

#[test]
fn the_cursor_is_on_the_screen_wherever_it_goes() {
    let text: String = (0..200).map(|i| format!("{}\n", "word ".repeat(i % 40))).collect();
    let mut editor = editor_with(&text);
    let height = editor.text_height();
    for at in [0, 7000, 3000, text.len() - 2, 500] {
        editor.doc_mut().cursor = at;
        editor.doc_mut().anchor = at;
        editor.ensure_cursor_visible();
        let (wrap, tab) = (editor.wrap_width(), editor.options.tab_width);
        let d = editor.doc();
        let (line, row, _) = d.cursor_visual(wrap, tab);
        assert!((d.view_line, d.view_row) <= (line, row));
        let mut apart = row as isize - d.view_row as isize;
        for l in d.view_line..line {
            apart += d.visual_rows(l, wrap, tab) as isize;
        }
        assert!(apart < height as isize);
    }
}

#[test]
fn what_is_framed_reads_back() {
    for body in ["{\"a\":\"é — 🦀\"}", "[]", "7"] {
        let wire = frame(body);
        assert_eq!(read_message(&wire), Some(json(body)));
        assert_eq!(read_message(&format!("{wire}{wire}")), Some(json(body)));
    }
    assert_eq!(frame("\"é\""), "Content-Length: 4\r\n\r\n\"é\"");
    assert_eq!(read_message("Content-Length: 9\r\n\r\n[]"), None);
}

#[test]
fn utf16_columns_lead_back() {
    let line: Vec<char> = "a🦀é\tz".chars().collect();
    for i in 0..=line.len() {
        assert_eq!(utf16_to_char(&line, char_to_utf16(&line, i)), i);
    }
    assert_eq!(char_to_utf16(&line, 2), 3);
}

#[test]
fn undo_undoes_redo() {
    let mut editor = editor_with("abc");
    press(&mut editor, "i x <esc> a y <esc> u u");
    assert_eq!(text(&editor), "abc");
    assert!(editor.doc_mut().redo());
    let once = text(&editor);
    assert!(editor.doc_mut().redo());
    assert!(editor.doc_mut().undo());
    assert_eq!(text(&editor), once);
    assert!(editor.doc_mut().redo());
    assert!(!editor.doc_mut().redo());
}

#[test]
fn an_undo_file_of_another_text_is_left_alone() {
    let mut d = Document::opened("/t/f".into(), "abc", None);
    d.apply(Transaction::insert(&d.text, 0, "x"), 1);
    let body = d.save_undo().unwrap().to_string();
    let mut other = Document::opened("/t/f".into(), "xabd", None);
    other.load_undo(&body);
    assert!(!other.undo());
    let mut same = Document::opened("/t/f".into(), "xabc", None);
    same.load_undo(&body);
    assert!(same.undo());
    assert_eq!(same.text.to_string(), "abc");
}

#[test]
fn a_buffer_is_found_however_its_path_is_spelled() {
    let mut editor = editor_on("notes.txt", "n\n");
    editor.add_buffer(Document::opened("/t/other".into(), "o\n", None));
    let files = vec!["/t/notes.txt".to_string(), "/t/other".to_string()];
    assert_eq!(editor.open_buffer("./notes.txt", "/t/notes.txt", &files), Some(0));
    assert_eq!(editor.open_buffer("notes.txt", "elsewhere", &files), Some(0));
    assert_eq!(editor.open_buffer("/t/other", "/t/other", &files), Some(1));
    assert_eq!(editor.open_buffer("/t/third", "/t/third", &files), None);
}

// ---- clusters ---------------------------------------------------------------------

#[test]
fn the_cursor_stays_out_of_clusters() {
    for (line, starts) in [
        ("a👨‍👩‍👧", vec![0, 1]),
        ("ae\u{301}", vec![0, 1]),
        ("e\u{301}", vec![0]),
        ("👩🏽‍🚀x", vec![0, 4]),
    ] {
        let last = *starts.last().unwrap();
        let mut editor = editor_with(line);
        press(&mut editor, "$");
        assert_eq!(editor.doc().cursor, last, "the end of {line:?}");
        press(&mut editor, "a");
        assert_eq!(editor.doc().cursor, line.chars().count(), "behind {line:?}");
        press(&mut editor, "<esc> A");
        assert_eq!(editor.doc().cursor, line.chars().count());
        press(&mut editor, "<esc>");
        assert_eq!(editor.doc().cursor, last, "insert mode left behind {line:?}");
        for keys in ["0", "l", "h", "j", "k", "w", "b", "e", "G", "$", "^"] {
            press(&mut editor, keys);
            let at = editor.doc().cursor;
            let behind = at == line.chars().count();
            assert!(behind || starts.contains(&at), "{keys} in {line:?} led to {at}");
        }
    }
}

#[test]
fn a_delete_leaves_the_cursor_out_of_clusters() {
    let mut d = Document::opened("/t/f".into(), "👨‍👩‍👧x", None);
    d.cut(5, 6);
    assert_eq!(d.text.to_string(), "👨‍👩‍👧");
    assert_eq!(d.cursor, 0);
}

#[test]
fn words_go_by_their_letters_not_by_the_marks_on_them() {
    let plain = "ab cd";
    let marked = "a\u{301}b\u{308} c\u{301}d\u{308}";
    let starts = [0, 2, 4, 5, 7, 9];
    for keys in ["w", "w w", "e", "e e", "$ b", "$ b b"] {
        let (mut a, mut b) = (editor_with(plain), editor_with(marked));
        press(&mut a, keys);
        press(&mut b, keys);
        assert_eq!(b.doc().cursor, starts[a.doc().cursor], "after {keys}");
        assert_eq!(b.doc().anchor, starts[a.doc().anchor], "after {keys}");
    }
}

// ---- the tree ---------------------------------------------------------------------

fn tree_editor() -> Editor {
    let mut editor = editor_with("");
    press(&mut editor, "<space> e");
    editor.open_tree("/r".into());
    editor.list_tree(&two_directories());
    editor.effects.clear();
    editor
}

#[test]
fn closing_a_directory_lists_the_tree_again_and_going_up_does_not() {
    let mut editor = tree_editor();
    let lists = |e: &Editor| e.effects.iter().any(|x| matches!(x, Effect::ListTree));
    press(&mut editor, "j");
    press(&mut editor, "<enter>");
    assert!(lists(&editor), "opened");
    editor.list_tree(&two_directories());
    editor.effects.clear();
    press(&mut editor, "j");
    assert_eq!(editor.sidebar.tree.as_ref().unwrap().selected, 2);
    press(&mut editor, "h");
    assert_eq!(editor.sidebar.tree.as_ref().unwrap().selected, 1, "to the parent");
    assert!(!lists(&editor), "nothing has been closed");
    press(&mut editor, "h");
    assert!(lists(&editor), "closed");
    editor.list_tree(&two_directories());
    editor.effects.clear();
    press(&mut editor, "h");
    assert_eq!(editor.sidebar.tree.as_ref().unwrap().selected, 0);
    assert!(!lists(&editor));
    press(&mut editor, "h");
    assert!(lists(&editor), "the root is read anew");
}

#[test]
fn every_row_has_its_own_path() {
    let entries = |names: &[(&str, bool)]| {
        names.iter().map(|(n, d)| (n.to_string(), *d)).collect::<Vec<_>>()
    };
    let all = vec![
        Listing { dir: "/".into(), entries: entries(&[("a", true), ("ab", true), ("a b", false)]) },
        Listing { dir: "/a".into(), entries: entries(&[("b", true), ("a", false)]) },
        Listing { dir: "/a/b".into(), entries: entries(&[("a", false)]) },
        Listing { dir: "/ab".into(), entries: entries(&[("a", false)]) },
    ];
    let mut tree = FileTree::new("/".into());
    for _ in 0..3 {
        tree.rebuild(&all, true);
        let closed = tree.rows.iter().position(|r| r.is_dir && !r.expanded);
        if let Some(i) = closed {
            tree.selected = i;
            tree.toggle_selected();
        }
    }
    tree.rebuild(&all, true);
    let paths: Vec<&str> = tree.rows.iter().map(|r| r.path.as_str()).collect();
    assert_eq!(paths, ["/", "/a", "/a/b", "/a/b/a", "/a/a", "/ab", "/ab/a", "/a b"]);
}

// ---- paths ------------------------------------------------------------------------

#[test]
fn a_path_is_the_same_however_it_is_written() {
    for (a, b) in [
        ("/a/b", "/a//b"),
        ("/a/b", "/a/b/"),
        ("/a/b", "/a/./b"),
        ("/a/b", "//a/b/."),
        ("a/b", "a//./b"),
        ("/", "//"),
        ("./a", ".//a"),
    ] {
        assert!(is_same_path(a, b), "{a} {b}");
        assert_eq!(std::path::Path::new(a), std::path::Path::new(b));
    }
    for (a, b) in [("/a/b", "a/b"), ("./a", "a"), ("/a/../b", "/b"), ("/a", "/A"), ("", ".")] {
        assert!(!is_same_path(a, b), "{a} {b}");
        assert_ne!(std::path::Path::new(a), std::path::Path::new(b));
    }
}

#[test]
fn edits_of_one_file_are_one_set_however_its_path_is_written() {
    let one = |uri: &str, text: &str| {
        format!(
            r#"{{"textDocument": {{"uri": "{uri}", "version": 1}},
            "edits": [{{"range": {{"start": {{"line": 0, "character": 0}}, "end": {{"line": 0, "character": 0}}}}, "newText": "{text}"}}]}}"#
        )
    };
    let change = format!(
        r#"{{"documentChanges": [{}, {}, {}]}}"#,
        one("file:///a//b", "x"),
        one("file:///c", "z"),
        one("file:///a/b", "y")
    );
    let plan = read_workspace_edit(&json(&change));
    assert_eq!(plan.files.len(), 2);
    assert_eq!((plan.files[0].0.as_str(), plan.files[0].1.len()), ("/a//b", 2));
    assert_eq!(plan.files[0].1[1]["newText"], json("\"y\""));
    assert_eq!((plan.files[1].0.as_str(), plan.files[1].1.len()), ("/c", 1));
}

#[test]
fn a_buffer_is_found_however_its_path_is_written() {
    let editor = editor_on("/t/f.rs", "");
    let files = vec!["/t/f.rs".to_string()];
    assert_eq!(editor.open_buffer("/t//f.rs", "/t//f.rs", &files), Some(0));
    assert_eq!(editor.open_buffer("/t/g.rs", "/t/g.rs", &files), None);
}

// ---- every cursor -----------------------------------------------------------------

#[test]
fn an_edit_at_every_cursor_is_one_undo_step() {
    for keys in ["d", "S <esc>", "p", "P", "w d", "w S x <esc>"] {
        let mut editor = editor_with("one two\none two\none two\n");
        press(&mut editor, "w c");
        press(&mut editor, "C C");
        assert_eq!(editor.doc().extra.len(), 2);
        press(&mut editor, keys);
        assert_ne!(text(&editor), "one two\none two\none two\n", "{keys}");
        press(&mut editor, "u");
        assert_eq!(text(&editor), "one two\none two\none two\n", "{keys}");
    }
}

#[test]
fn a_playback_of_a_playback_ends() {
    let mut editor = editor_with("");
    press(&mut editor, "q a i x <esc> q");
    press(&mut editor, "q b @a @a q");
    press(&mut editor, "3 @b");
    assert!(!editor.replay_next());
    assert_eq!(text(&editor), "xxxxxxxxx");
}

// ---- the prompt -------------------------------------------------------------------

#[test]
fn every_suggested_name_is_a_command_of_the_prompt() {
    for name in builtin_names() {
        let mut editor = editor_on("/t/f.rs", "x\n");
        editor.execute_command(name);
        assert!(!editor.lines.status.starts_with("Not a command"), "{name}");
    }
    let mut editor = editor_with("");
    editor.execute_command("nonsense");
    assert_eq!(editor.lines.status, "Not a command: nonsense");
}

// ---- change markers ---------------------------------------------------------------

#[test]
fn a_file_is_asked_about_once_and_then_only_on_screen() {
    let docs = vec![
        Document::opened("/t/a".into(), "", None),
        Document::opened("/t/b".into(), "", None),
        Document::empty(),
    ];
    let mut editor = Editor::new(docs, (80, 24), &Config::default(), Options::default());
    let mut gutter = Gutter::new();
    assert_eq!(gutter.to_ask(&editor, false), [0, 1]);
    assert!(gutter.request(0, &editor, true));
    assert!(!gutter.request(1, &editor, false), "not on disk");
    assert!(!gutter.request(2, &editor, true), "no file");
    assert_eq!(gutter.marks[1].base, Base::NoRepo);
    assert!(gutter.to_ask(&editor, true).is_empty(), "one is awaited, one is not on screen");
    assert!(!gutter.answer(0, Base::Sealed, false), "about another file");
    assert_eq!(gutter.to_ask(&editor, false), [0]);
    assert!(gutter.request(0, &editor, true));
    assert!(gutter.answer(0, Base::Sealed, true));
    assert!(!gutter.answer(9, Base::Sealed, true));
    assert!(gutter.to_ask(&editor, false).is_empty());
    assert_eq!(gutter.to_ask(&editor, true), [0]);
    editor.options.vcs_gutter = false;
    assert!(gutter.to_ask(&editor, true).is_empty());
    assert!(!gutter.request(0, &editor, true));
}

#[test]
fn marks_are_made_once_for_a_revision() {
    let mut editor = editor_on("/t/a", "x\n");
    let mut gutter = Gutter::new();
    assert!(gutter.to_mark(&editor, MARK_GAP).is_empty(), "nothing is known yet");
    gutter.request(0, &editor, true);
    gutter.answer(0, Base::Sealed, true);
    assert!(gutter.to_mark(&editor, MARK_GAP - 1).is_empty(), "still typing");
    assert_eq!(gutter.to_mark(&editor, MARK_GAP), [0]);
    gutter.mark(0, editor.doc().revision);
    assert!(gutter.to_mark(&editor, MARK_GAP).is_empty());
    press(&mut editor, "i y <esc>");
    assert_eq!(gutter.to_mark(&editor, MARK_GAP), [0]);
    gutter.read_again(true);
    assert_eq!(gutter.marks[0].base, Base::Unknown);
    gutter.read_again(false);
    assert_eq!(gutter.marks[0].marked, None);
}

// ---- what is written --------------------------------------------------------------

#[test]
fn the_undo_file_brings_the_history_back() {
    let mut d = Document::opened("/t/f".into(), "a\n", None);
    assert!(d.undo_text().is_none());
    d.insert_at_cursor("é\"\u{1}");
    let t = d.undo_text().unwrap();
    let mut again = Document::opened("/t/f".into(), &d.text.to_string(), None);
    again.load_undo(&t);
    assert_eq!(again.history.len(), 1);
    assert!(again.undo());
    assert_eq!(again.text.to_string(), "a\n");
}

#[test]
fn a_written_message_reads_back() {
    for body in ["{\"id\":18446744073709551615,\"n\":-7,\"t\":\"é\\n\"}", "[[],{}]", "null"] {
        let v = json(body);
        assert_eq!(read_message(&frame_message(&v)), Some(v));
    }
    let deep = format!("{}{}", "[".repeat(127), "]".repeat(127));
    assert_eq!(read_message(&frame_message(&json(&deep))), Some(json(&deep)));
}

// ---- pickers ----------------------------------------------------------------------

#[test]
fn a_directory_is_listed_in_order() {
    let entries: Vec<(String, bool)> =
        [("b", false), ("a", true), ("a.txt", false)].map(|(n, d)| (n.to_string(), d)).into();
    let labels: Vec<String> = explorer_rows(&entries).into_iter().map(|r| r.label).collect();
    assert_eq!(labels, ["../", "a.txt", "a/", "b"]);
    let themes: Vec<String> = theme_rows().into_iter().map(|r| r.label).collect();
    assert_eq!(themes, ["default", "gruvbox", "mono", "tokyonight"]);
}

#[test]
fn a_recent_file_is_opened_by_its_name_there() {
    let mut editor = editor_with("");
    let rows = vec![Item { label: "~/f.rs".into(), detail: String::new() }];
    editor.open_picker(Picker::new("recent".into(), PickerKind::Recent, rows));
    press(&mut editor, "<enter>");
    let asked = editor.effects.iter().any(|x| match x {
        Effect::Open { path, what } => path == "~/f.rs" && *what == Opening::Recent,
        _ => false,
    });
    assert!(asked);
}
