//! Keys, and what they do to the text.

use crow::commands::find;
use crow::config::Config;
use crow::config::Options;
use crow::deps::Kind;
use crow::desk::Dir;
use crow::document::Document;
use crow::editor::Editor;
use crow::filetree::Listing;
use crow::help::{help_lines, HelpLine};
use crow::keymap::Key;
use crow::lsp_parse::uri_from_path;
use crow::motions::{next_word_start, prev_word_start, word_end};
use crow::mouse::{MouseEvent, MouseKind};
use crow::repeat::Input;
use crow::state::{DepInfo, Effect, Item, Mode, PickList, Picker, PickerKind, SelectPrompt};
use crow::substitute::parse_substitute;
use crow::workspace::read_workspace_edit;
use serde_json::Value;

fn new_editor(config: &Config) -> Editor {
    Editor::new(vec![], (80, 24), config, Options::default())
}

fn editor_with(text: &str) -> Editor {
    let mut editor = new_editor(&Config::default());
    editor.doc_mut().text = ropey::Rope::from_str(text);
    editor
}

/// Play what is being played back, and do what is asked.
fn settle(editor: &mut Editor) {
    loop {
        while editor.replay_next() {}
        let asked = std::mem::take(&mut editor.effects);
        if asked.is_empty() {
            return;
        }
        for effect in asked {
            match effect {
                Effect::Pick(PickList::Commands) => {
                    let p = Picker::commands(&editor.keymaps.normal);
                    editor.open_picker(p);
                }
                Effect::Pick(PickList::Files) => {
                    let kind = PickerKind::Files { root: "/work".into() };
                    editor.open_picker(Picker::new("files".into(), kind, vec![]));
                }
                Effect::Pick(PickList::Themes) => {
                    let kind = PickerKind::Theme { original: editor.options.theme.clone() };
                    let items = ["default", "gruvbox", "mono", "tokyonight"]
                        .iter()
                        .map(|n| Item { label: n.to_string(), detail: String::new() })
                        .collect();
                    editor.open_picker(Picker::new("themes".into(), kind, items));
                }
                Effect::OpenTree => editor.open_tree("/work".into()),
                Effect::ListTree => editor.list_tree(&vec![Listing {
                    dir: "/work".into(),
                    entries: vec![("src".into(), true), ("main.rs".into(), false)],
                }]),
                Effect::Format => {
                    if editor.format_plan("/tmp/copy").is_none() {
                        editor.no_formatter();
                    }
                }
                _ => {}
            }
        }
    }
}

fn press(editor: &mut Editor, keys: &str) {
    for token in keys.split(' ').filter(|t| !t.is_empty()) {
        if token.len() > 1 && !token.contains('-') && !token.starts_with('<') {
            for c in token.chars() {
                editor.handle_key(Key::char(c));
                settle(editor);
            }
        } else {
            editor.handle_key(Key::parse(token).unwrap());
            settle(editor);
        }
    }
}

fn run(editor: &mut Editor, name: &str) {
    editor.run_once(find(name).unwrap());
    settle(editor);
}

fn know(editor: &mut Editor, kind: Kind, name: &str, installed: &str, latest: &str) {
    editor.tools.dep_info.push(DepInfo {
        kind,
        name: name.into(),
        installed: Some(installed.into()),
        latest: Some(latest.into()),
    });
}

fn texts(editor: &Editor) -> Vec<String> {
    let doc = editor.doc();
    let mut v: Vec<String> = doc
        .selections()
        .iter()
        .map(|&(s, e)| doc.text.slice(s..e).to_string())
        .collect();
    v.sort();
    v
}

fn mouse(kind: MouseKind, column: u16, row: u16) -> MouseEvent {
    MouseEvent { kind, column, row }
}

fn json(text: &str) -> Value {
    serde_json::from_str(text).unwrap()
}

fn edit(from: (usize, usize), to: (usize, usize), text: &str) -> Value {
    json(&format!(
        r#"{{"range": {{"start": {{"line": {}, "character": {}}}, "end": {{"line": {}, "character": {}}}}}, "newText": "{}"}}"#,
        from.0, from.1, to.0, to.1, text
    ))
}

/// The absolute names of the buffers' files.
fn files_of(editor: &Editor) -> Vec<String> {
    (0..editor.desk.documents.len())
        .map(|i| editor.document(i).path.clone().unwrap_or_default())
        .collect()
}

#[test]
fn vertical_motion_follows_the_display_column_not_the_char_index() {
    // A tab is one character but four columns wide: `j` off a tab-indented
    // line has to land under where the cursor looked, not under char 2.
    let mut editor = editor_with("\tabc\nabcdefgh");
    editor.doc_mut().cursor = 2; // 'b', display column 5
    press(&mut editor, "j");
    assert_eq!(editor.doc().cursor_line_col(), (1, 5));
    press(&mut editor, "k");
    assert_eq!(editor.doc().cursor, 2);
}

#[test]
fn the_goal_column_survives_a_short_line_and_a_count() {
    // Crossing a short line clamps the cursor but must not forget where the
    // column was, or coming back lands in the wrong place.
    let mut editor = editor_with("abcdefgh\nxy\nabcdefgh\nq");
    press(&mut editor, "$ 3j");
    assert_eq!(editor.doc().cursor_line_col(), (3, 0));
    press(&mut editor, "3k");
    assert_eq!(editor.doc().cursor_line_col(), (0, 7));
}

#[test]
fn copy_gathers_every_cursor_and_rewinds_to_the_selection_start() {
    // The extra cursors run before the primary, and the register gets no
    // blank line between two line selections — that is what makes a
    // multi-cursor copy paste back as clean lines.
    let mut editor = editor_with("one\ntwo\nthree");
    press(&mut editor, "C V c");
    assert_eq!(editor.registers.unnamed, "two\none\n");
    assert_eq!(editor.doc().cursor, 0); // rewound, so `Vcp` duplicates
    assert!(!editor.keys.extend);
}

#[test]
fn dd_on_the_last_line_takes_the_newline_in_front_of_it() {
    // Every other line takes its trailing newline; the last one has none,
    // so it takes the preceding one instead or leaves a blank line behind.
    let mut editor = editor_with("one\ntwo");
    press(&mut editor, "j dd");
    assert_eq!(editor.doc().text.to_string(), "one");
    assert_eq!(editor.registers.unnamed, "\ntwo");
    press(&mut editor, "p");
    assert_eq!(editor.doc().text.to_string(), "one\ntwo"); // and it round-trips
                                                           // A count past the end of the buffer clamps rather than panicking.
    let mut editor = editor_with("a\nb\nc\n");
    press(&mut editor, "j 5dd");
    assert_eq!(editor.doc().text.to_string(), "a");
}

#[test]
fn help_shows_the_doubled_line_keys() {
    // They are armed by character, not bound in the trie, so the keys
    // column has to come from LINE_OPS or it renders blank.
    let editor = editor_with("");
    let lines = help_lines(&editor.keymaps.normal);
    let keys = |want: &str| {
        lines
            .iter()
            .find_map(|l| match l {
                HelpLine::Entry { keys, name, .. } if name == want => Some(keys.clone()),
                _ => None,
            })
            .unwrap()
    };
    assert_eq!(keys("delete_line"), "dd  xx");
    assert_eq!(keys("copy_line"), "cc");
    assert_eq!(keys("select_line"), "V");
    assert_eq!(keys("copy"), "c");
}

#[test]
fn xx_cuts_a_line_and_x_cuts_the_selection() {
    let mut editor = editor_with("one\ntwo\nthree");
    press(&mut editor, "xx");
    assert_eq!(editor.doc().text.to_string(), "two\nthree");
    assert_eq!(editor.registers.unnamed, "one\n");
    // A pending x that is not doubled cancels; the next key runs normally.
    press(&mut editor, "xj");
    assert_eq!(editor.doc().text.to_string(), "two\nthree");
    assert_eq!(editor.doc().cursor_line(), 1);
    // With a selection, a single x cuts it.
    press(&mut editor, "Vx");
    assert_eq!(editor.doc().text.to_string(), "two\n");
    assert_eq!(editor.registers.unnamed, "three");
}

#[test]
fn paste_puts_the_text_where_the_register_says() {
    // Linewise on the last line: the break goes in front of the pasted
    // text, because there is no trailing newline to paste behind.
    let mut editor = editor_with("ab");
    editor.registers.unnamed = "X\n".into();
    press(&mut editor, "p");
    assert_eq!(editor.doc().text.to_string(), "ab\nX");
    assert_eq!(editor.doc().cursor, 3);
    // Charwise after the last character of a line lands before the newline.
    let mut editor = editor_with("ab\ncd");
    editor.registers.unnamed = "XY".into();
    press(&mut editor, "$ p");
    assert_eq!(editor.doc().text.to_string(), "abXY\ncd");
    assert_eq!(editor.doc().cursor, 3); // on the last pasted char
}

#[test]
fn join_lines_eats_the_indent_and_stops_at_the_last_line() {
    let mut editor = editor_with("foo\n    bar\nbaz");
    press(&mut editor, "J");
    assert_eq!(editor.doc().text.to_string(), "foo bar\nbaz");
    assert_eq!(editor.doc().cursor, 3); // on the joining space
                                        // A blank line joins with nothing between, not with a stray space.
    let mut editor = editor_with("foo\n\nbar");
    press(&mut editor, "J");
    assert_eq!(editor.doc().text.to_string(), "foo\nbar");
    let mut editor = editor_with("only");
    press(&mut editor, "J");
    assert_eq!(editor.doc().text.to_string(), "only");
}

#[test]
fn dep_upgrade_rewrites_the_version_and_nothing_else() {
    // Each ecosystem writes its version differently, and only the digits
    // are ours to touch: go.mod keeps its `v`, npm keeps its caret, and a
    // Cargo inline table keeps everything but the number.
    let mut editor = editor_with("module x\n\nrequire golang.org/x/tools v0.29.0\n");
    editor.doc_mut().path = Some("go.mod".into());
    know(&mut editor, Kind::Go, "golang.org/x/tools", "0.29.0", "0.30.0");
    press(&mut editor, "jj");
    run(&mut editor, "dep_upgrade");
    assert_eq!(
        editor.doc().text.to_string(),
        "module x\n\nrequire golang.org/x/tools v0.30.0\n"
    );

    let mut editor =
        editor_with("{\n  \"dependencies\": {\n    \"react\": \"^18.2.0\"\n  }\n}\n");
    editor.doc_mut().path = Some("package.json".into());
    know(&mut editor, Kind::Npm, "react", "18.2.0", "19.0.0");
    press(&mut editor, "jj");
    run(&mut editor, "dep_upgrade");
    assert_eq!(
        editor.doc().text.to_string(),
        "{\n  \"dependencies\": {\n    \"react\": \"^19.0.0\"\n  }\n}\n"
    );

    let mut editor = editor_with(
        "[dependencies]\ncrossterm = { version = \"0.27.0\", features = [\"event-stream\"] }\n",
    );
    editor.doc_mut().path = Some("Cargo.toml".into());
    know(&mut editor, Kind::Cargo, "crossterm", "0.27.0", "0.29.0");
    press(&mut editor, "j");
    run(&mut editor, "dep_upgrade");
    assert_eq!(
        editor.doc().text.to_string(),
        "[dependencies]\ncrossterm = { version = \"0.29.0\", features = [\"event-stream\"] }\n"
    );
}

#[test]
fn dep_upgrade_refuses_without_touching_the_buffer() {
    // Every refusal is silent apart from the status line, so a wrong guard
    // would show up as a corrupted manifest rather than an error.
    let before = "[dependencies]\nropey = \"1.6.0\"\n";
    let mut editor = editor_with(before);
    run(&mut editor, "dep_upgrade");
    assert_eq!(editor.lines.status, "not a package manifest");

    editor.doc_mut().path = Some("Cargo.toml".into());
    run(&mut editor, "dep_upgrade");
    assert_eq!(editor.lines.status, "no dependency on this line"); // the [dependencies] header

    press(&mut editor, "j");
    run(&mut editor, "dep_upgrade");
    assert_eq!(editor.lines.status, "no version info for ropey (still fetching?)");

    know(&mut editor, Kind::Cargo, "ropey", "1.6.0", "1.6.0");
    run(&mut editor, "dep_upgrade");
    assert_eq!(editor.lines.status, "ropey is already 1.6.0");
    assert_eq!(editor.doc().text.to_string(), before);
}

#[test]
fn format_buffer_says_so_when_there_is_no_formatter() {
    // The two `None` paths: no file at all, and a file whose extension no
    // formatter claims. Neither is an error and neither touches the buffer.
    let mut editor = editor_with("x");
    run(&mut editor, "format_buffer");
    assert_eq!(
        editor.lines.status,
        "no formatter for this buffer (see [fmt] in crow.toml)"
    );
    editor.doc_mut().path = Some("notes.zzz".into());
    editor.set_status("");
    run(&mut editor, "format_buffer");
    assert_eq!(
        editor.lines.status,
        "no formatter for this buffer (see [fmt] in crow.toml)"
    );
    assert_eq!(editor.doc().text.to_string(), "x");
}

#[test]
fn bare_d_with_extra_cursors_deletes_a_char_each_instead_of_arming_dd() {
    let mut editor = editor_with("abc\ndef");
    press(&mut editor, "C d");
    assert_eq!(editor.doc().text.to_string(), "bc\nef");
    assert_eq!(editor.registers.unnamed, "d\na");
    assert!(editor.keys.pending_line_op.is_none());
    // The count stops at the end of each cursor's own line.
    let mut editor = editor_with("ab\ncd");
    press(&mut editor, "C 5d");
    assert_eq!(editor.doc().text.to_string(), "\n");
}

#[test]
fn word_motions_stop_at_punctuation_and_the_buffer_edges() {
    let mut doc = Document::empty();
    doc.text = ropey::Rope::from_str("foo.bar baz");
    assert_eq!(
        (
            next_word_start(&doc, 0),
            next_word_start(&doc, 3),
            next_word_start(&doc, 4)
        ),
        (3, 4, 8)
    );
    assert_eq!(
        (
            prev_word_start(&doc, 8),
            prev_word_start(&doc, 4),
            prev_word_start(&doc, 0)
        ),
        (4, 3, 0)
    );
    assert_eq!(
        (word_end(&doc, 0), word_end(&doc, 2), word_end(&doc, 10)),
        (2, 3, 10)
    );
    // `e` on the last word of the buffer still takes its final character.
    let mut editor = editor_with("foo");
    press(&mut editor, "ed");
    assert_eq!(editor.doc().text.to_string(), "");
}

#[test]
fn typing_in_insert_mode_inserts_text() {
    let mut editor = editor_with("");
    press(&mut editor, "i");
    press(&mut editor, "hello");
    assert_eq!(editor.doc().text.to_string(), "hello");
}

#[test]
fn paste_goes_in_verbatim_no_autoindent_no_autoclose() {
    // The ci.yml bug: pasted YAML must not pick up cumulative indent,
    // and pasted brackets must not auto-close.
    let mut editor = editor_with("    indented\n");
    press(&mut editor, "i");
    editor.doc_mut().cursor = 13; // after the indented line
    editor.handle_paste("on:\r\n  push:\r\n    branches: [main]\n");
    assert_eq!(
        editor.doc().text.to_string(),
        "    indented\non:\n  push:\n    branches: [main]\n"
    );
}

#[test]
fn escape_commits_one_undo_step() {
    let mut editor = editor_with("");
    press(&mut editor, "i");
    press(&mut editor, "hello");
    press(&mut editor, "<esc>");
    press(&mut editor, "u");
    assert_eq!(editor.doc().text.to_string(), "");
}

#[test]
fn count_prefix_repeats_a_command() {
    let mut editor = editor_with("abcdef");
    press(&mut editor, "v3ld");
    assert_eq!(editor.doc().text.to_string(), "ef");
}

#[test]
fn zero_is_a_motion_not_a_count() {
    let mut editor = editor_with("hello");
    press(&mut editor, "$");
    assert_eq!(editor.doc().cursor, 4);
    press(&mut editor, "0");
    assert_eq!(editor.doc().cursor, 0);
}

#[test]
fn zero_is_a_count_digit_after_another_digit() {
    let mut editor = editor_with("abcdefghijklm");
    press(&mut editor, "v10ld");
    assert_eq!(editor.doc().text.to_string(), "lm");
}

#[test]
fn select_line_then_d_deletes_the_line() {
    let mut editor = editor_with("one\ntwo\nthree");
    press(&mut editor, "Vd");
    assert_eq!(editor.doc().text.to_string(), "two\nthree");
}

#[test]
fn repeated_line_select_extends_the_selection() {
    let mut editor = editor_with("one\ntwo\nthree");
    press(&mut editor, "VVd");
    assert_eq!(editor.doc().text.to_string(), "three");
}

#[test]
fn w_selects_what_it_crosses() {
    let mut editor = editor_with("foo bar baz");
    press(&mut editor, "wd");
    assert_eq!(editor.doc().text.to_string(), "bar baz");
}

#[test]
fn motions_collapse_the_selection() {
    let mut editor = editor_with("foo bar");
    // w selects "foo ", h collapses onto the space; v selects it.
    press(&mut editor, "wh");
    press(&mut editor, "vd");
    assert_eq!(editor.doc().text.to_string(), "foobar");
}

#[test]
fn change_replaces_the_selection() {
    let mut editor = editor_with("foo bar");
    press(&mut editor, "wS");
    press(&mut editor, "x");
    assert_eq!(editor.doc().text.to_string(), "xbar");
}

#[test]
fn linewise_copy_then_paste_duplicates_the_line() {
    let mut editor = editor_with("one\ntwo");
    press(&mut editor, "Vcp");
    assert_eq!(editor.doc().text.to_string(), "one\none\ntwo");
}

#[test]
fn paste_replaces_a_characterwise_selection() {
    let mut editor = editor_with("abc");
    editor.registers.unnamed = "XY".into();
    press(&mut editor, "vlp");
    assert_eq!(editor.doc().text.to_string(), "XYc");
    assert_eq!(editor.doc().cursor, 1);
}

#[test]
fn delete_then_paste_moves_a_line() {
    let mut editor = editor_with("one\ntwo\nthree");
    press(&mut editor, "Vdjp");
    assert_eq!(editor.doc().text.to_string(), "two\nthree\none");
}

#[test]
fn multi_cursor_typing_inserts_at_every_cursor() {
    let mut editor = editor_with("one\ntwo\nthree");
    press(&mut editor, "C");
    press(&mut editor, "i");
    press(&mut editor, "x");
    assert_eq!(editor.doc().text.to_string(), "xone\nxtwo\nthree");
}

#[test]
fn multi_cursor_word_delete() {
    let mut editor = editor_with("foo bar\nfoo baz");
    press(&mut editor, "C");
    press(&mut editor, "wd");
    assert_eq!(editor.doc().text.to_string(), "bar\nbaz");
    // Both captures land in the register.
    assert_eq!(editor.registers.unnamed, "foo \nfoo ");
}

#[test]
fn multi_cursor_edit_is_one_undo_step() {
    let mut editor = editor_with("foo bar\nfoo baz");
    press(&mut editor, "C");
    press(&mut editor, "wd");
    press(&mut editor, "u");
    assert_eq!(editor.doc().text.to_string(), "foo bar\nfoo baz");
}

#[test]
fn colliding_cursors_merge() {
    let mut editor = editor_with("abc\ndef");
    press(&mut editor, "C");
    assert_eq!(editor.doc().extra.len(), 1);
    press(&mut editor, "gg");
    assert_eq!(editor.doc().extra.len(), 0);
}

#[test]
fn comma_drops_extra_cursors_and_esc_clears_in_normal_mode() {
    let mut editor = editor_with("abc\ndef\nghi");
    press(&mut editor, "CC");
    assert_eq!(editor.doc().extra.len(), 2);
    press(&mut editor, ",");
    assert_eq!(editor.doc().extra.len(), 0);

    press(&mut editor, "C");
    assert_eq!(editor.doc().extra.len(), 1);
    press(&mut editor, "<esc>");
    assert_eq!(editor.doc().extra.len(), 0);
}

#[test]
fn search_selects_the_match_so_edits_compose() {
    let mut editor = editor_with("one two three");
    press(&mut editor, "/two");
    press(&mut editor, "<enter>");
    press(&mut editor, "d");
    assert_eq!(editor.doc().text.to_string(), "one  three");
}

#[test]
fn n_walks_matches_and_wraps() {
    let mut editor = editor_with("foo x foo y foo");
    press(&mut editor, "/foo");
    press(&mut editor, "<enter>");
    assert_eq!(editor.doc().anchor, 0);
    press(&mut editor, "n");
    assert_eq!(editor.doc().anchor, 6);
    press(&mut editor, "n");
    assert_eq!(editor.doc().anchor, 12);
    press(&mut editor, "n");
    assert_eq!(editor.doc().anchor, 0);
    press(&mut editor, "N");
    assert_eq!(editor.doc().anchor, 12);
}

#[test]
fn esc_cancels_search_and_restores_the_cursor() {
    let mut editor = editor_with("abc def");
    press(&mut editor, "/def");
    assert_eq!(editor.doc().anchor, 4); // preview moved
    press(&mut editor, "<esc>");
    assert_eq!(editor.doc().cursor, 0);
    assert_eq!(editor.doc().anchor, 0);
}

#[test]
fn select_matches_is_search_as_multi_cursor() {
    let mut editor = editor_with("foo bar foo baz foo");
    press(&mut editor, "sfoo");
    press(&mut editor, "<enter>");
    assert_eq!(editor.doc().extra.len(), 2);
    // Interactive replace-all: change every match.
    press(&mut editor, "SX");
    press(&mut editor, "<esc>");
    assert_eq!(editor.doc().text.to_string(), "X bar X baz X");
}

#[test]
fn select_matches_is_scoped_by_the_selection() {
    let mut editor = editor_with("foo\nfoo\nfoo");
    press(&mut editor, "VV"); // select first two lines
    press(&mut editor, "sfoo");
    press(&mut editor, "<enter>");
    press(&mut editor, "d");
    assert_eq!(editor.doc().text.to_string(), "\n\nfoo");
}

#[test]
fn count_gg_and_g_jump_to_a_line() {
    let mut editor = editor_with("a\nb\nc\nd");
    press(&mut editor, "3gg");
    assert_eq!(editor.doc().cursor_line(), 2);
    press(&mut editor, "2G");
    assert_eq!(editor.doc().cursor_line(), 1);
    press(&mut editor, "99G");
    assert_eq!(editor.doc().cursor_line(), 3);
    press(&mut editor, "gg");
    assert_eq!(editor.doc().cursor_line(), 0);
}

#[test]
fn v_makes_motions_extend_the_selection() {
    let mut editor = editor_with("foo bar baz");
    press(&mut editor, "vwwd");
    assert_eq!(editor.doc().text.to_string(), "baz");
    // The delete dropped extend mode: l is a plain motion again, so vl
    // selects exactly one char.
    press(&mut editor, "lvd");
    assert_eq!(editor.doc().text.to_string(), "bz");
}

#[test]
fn v_immediately_selects_the_character_under_the_cursor() {
    let mut editor = editor_with("abc");
    press(&mut editor, "vd");
    assert_eq!(editor.doc().text.to_string(), "bc");
}

#[test]
fn characterwise_selection_is_inclusive_in_both_directions() {
    let mut editor = editor_with("abcd");
    press(&mut editor, "lvhd");
    assert_eq!(editor.doc().text.to_string(), "cd");

    let mut editor = editor_with("abcd");
    press(&mut editor, "vld");
    assert_eq!(editor.doc().text.to_string(), "cd");
}

#[test]
fn characterwise_selection_wraps_across_lines_in_both_directions() {
    let mut editor = editor_with("ab\ncd");
    press(&mut editor, "$vld");
    assert_eq!(editor.doc().text.to_string(), "ad");

    let mut editor = editor_with("ab\ncd");
    press(&mut editor, "jvhd");
    assert_eq!(editor.doc().text.to_string(), "ad");
}

#[test]
fn characterwise_selection_keeps_a_grapheme_whole() {
    let mut editor = editor_with("👨\u{200d}👩\u{200d}👧x");
    press(&mut editor, "vd");
    assert_eq!(editor.doc().text.to_string(), "x");
}

#[test]
fn plain_motions_extend_too_in_extend_mode() {
    let mut editor = editor_with("abcd");
    press(&mut editor, "vlld");
    assert_eq!(editor.doc().text.to_string(), "d");
}

#[test]
fn esc_leaves_extend_mode() {
    let mut editor = editor_with("abcd");
    press(&mut editor, "v");
    press(&mut editor, "<esc>");
    // With extend off, l collapses and w selects from there only.
    press(&mut editor, "lwd");
    assert_eq!(editor.doc().text.to_string(), "a");
}

#[test]
fn a_second_v_collapses_and_leaves_select_mode() {
    let mut editor = editor_with("abc");
    press(&mut editor, "vlv");
    assert!(!editor.keys.extend);
    assert_eq!(editor.doc().anchor, editor.doc().cursor);
    assert_eq!(editor.doc().cursor, 1);
}

#[test]
fn regex_search_matches_variable_lengths() {
    let mut editor = editor_with("id42 and id777 here");
    press(&mut editor, "sid");
    press(&mut editor, "<enter>");
    assert_eq!(editor.doc().extra.len(), 1);
    press(&mut editor, ",");
    press(&mut editor, "gg");
    press(&mut editor, "s");
    press(&mut editor, "id\\d+");
    press(&mut editor, "<enter>");
    press(&mut editor, "d");
    assert_eq!(editor.doc().text.to_string(), " and  here");
}

#[test]
fn named_registers_are_independent() {
    let mut editor = editor_with("foo bar");
    press(&mut editor, "w"); // select "foo "
    press(&mut editor, "\"ac"); // into register a; cursor back to 0
    press(&mut editor, "vd"); // select "f", delete: unnamed register = "f"
    assert_eq!(editor.doc().text.to_string(), "oo bar");
    assert_eq!(editor.registers.unnamed, "f");
    press(&mut editor, "\"aP");
    assert_eq!(editor.doc().text.to_string(), "foo oo bar");
    // The prefix applied to one command only; plain P uses unnamed again.
    press(&mut editor, "P");
    assert!(editor.doc().text.to_string().contains("foo"));
    assert_eq!(editor.registers.unnamed, "f");
}

#[test]
fn split_windows_have_independent_cursors() {
    let mut editor = editor_with("a\nb\nc\nd");
    press(&mut editor, "C-w v");
    assert_eq!(editor.window_count(), 2);
    press(&mut editor, "jj"); // move in the new window
    assert_eq!(editor.doc().cursor_line(), 2);
    press(&mut editor, "C-w w"); // back to the first window
    assert_eq!(editor.doc().cursor_line(), 0);
    press(&mut editor, "C-w w");
    assert_eq!(editor.doc().cursor_line(), 2);
}

#[test]
fn quit_closes_windows_before_the_editor() {
    let mut editor = editor_with("hello");
    press(&mut editor, "C-w s");
    assert_eq!(editor.window_count(), 2);
    press(&mut editor, ":q");
    press(&mut editor, "<enter>");
    assert_eq!(editor.window_count(), 1);
    assert!(!editor.should_quit);
    press(&mut editor, ":q");
    press(&mut editor, "<enter>");
    assert!(editor.should_quit);
}

#[test]
fn command_palette_runs_the_picked_command() {
    let mut editor = editor_with("hello");
    press(&mut editor, "<space> c");
    assert_eq!(editor.keys.mode, Mode::Picker);
    press(&mut editor, "quit");
    press(&mut editor, "<enter>");
    assert!(editor.should_quit);
}

/// The cursor has to land on the *visual* row its character wrapped onto,
/// not on its line's row — otherwise it drifts further off with every fold.
#[test]
fn soft_wrap_puts_the_cursor_on_its_wrapped_row() {
    let mut editor = editor_with(&format!("{}\nnext\n", "x".repeat(200)));
    // 80 columns less a 4-column gutter: rows start at chars 0, 76, 152.
    editor.doc_mut().cursor = 100;
    editor.ensure_cursor_visible();
    assert_eq!(editor.screen_cursor(None), Some((4 + 24, 1)));
    editor.doc_mut().cursor = 160;
    editor.ensure_cursor_visible();
    assert_eq!(editor.screen_cursor(None), Some((4 + 8, 2)));
}

/// Scrolling has to count rows, not lines: with every line folding in two,
/// a line-counting viewport thinks the cursor is on screen when it is a
/// screen and a half below it.
#[test]
fn scrolling_counts_wrapped_rows_not_lines() {
    let long = "y".repeat(100);
    let text = std::iter::repeat_n(long.as_str(), 30)
        .collect::<Vec<_>>()
        .join("\n");
    let mut editor = editor_with(&text);
    let at = editor.doc().line_start(20);
    editor.doc_mut().cursor = at;
    editor.ensure_cursor_visible();
    assert!(
        editor.doc().view_line > 8,
        "viewport still counting lines: {}",
        editor.doc().view_line
    );
    assert!(
        editor.screen_cursor(None).is_some(),
        "cursor scrolled off screen"
    );
}

/// A line taller than the whole window means the viewport has to be able
/// to start partway into a line, not just at one.
#[test]
fn the_viewport_can_park_inside_one_very_long_line() {
    let mut editor = editor_with(&"z".repeat(4000));
    editor.doc_mut().cursor = 3900;
    editor.ensure_cursor_visible();
    assert!(editor.doc().view_row > 0);
    assert!(editor.screen_cursor(None).is_some());
    editor.doc_mut().cursor = 0;
    editor.ensure_cursor_visible();
    assert_eq!((editor.doc().view_line, editor.doc().view_row), (0, 0));
}

/// Focus must never land in the preview — it has no cursor to put there.
#[test]
fn window_cycling_skips_the_preview() {
    let mut editor = editor_with("hi\n");
    press(&mut editor, "<space> m");
    let source = editor.desk.focused;
    editor.focus_next_window();
    assert_eq!(editor.desk.focused, source);
    assert!(!editor.focus_window_dir(Dir::Right));
}

#[test]
fn space_t_opens_a_shell_below_and_toggles_it_away_and_back() {
    let mut editor = editor_with("text\n");
    press(&mut editor, "<space> t");
    assert_eq!(editor.window_count(), 2);
    assert!(editor.terminal_focused());
    assert_eq!(editor.keys.mode, Mode::Terminal);
    let term_win = editor.desk.focused;
    let (wins, _) = editor.window_rects();
    let (_, (_, ty, ..)) = wins.iter().find(|(id, _)| *id == term_win).unwrap();
    assert!(*ty > 0, "the shell sits below the text");
    assert!(editor.screen_cursor(Some((0, 0))).is_some());

    // C-\\ C-n drops to normal mode in the same window; i goes back.
    press(&mut editor, "C-\\ C-n");
    assert_eq!(editor.keys.mode, Mode::Normal);
    assert!(editor.terminal_focused());
    press(&mut editor, "i");
    assert_eq!(editor.keys.mode, Mode::Terminal);

    // Hiding keeps the shell; showing brings it back into the shell.
    press(&mut editor, "C-w N");
    press(&mut editor, "<space> t");
    assert_eq!(editor.window_count(), 1);
    assert!(editor.shell.running);
    assert!(!editor.terminal_focused());
    assert_eq!(editor.keys.mode, Mode::Normal);
    press(&mut editor, "<space> t");
    assert_eq!(editor.window_count(), 2);
    assert_eq!(editor.keys.mode, Mode::Terminal);

    // Moving focus out and back in switches modes with it.
    press(&mut editor, "C-w j");
    assert!(!editor.terminal_focused());
    assert_eq!(editor.keys.mode, Mode::Normal);
    press(&mut editor, "<space> t");
    assert!(editor.terminal_focused());
    assert_eq!(editor.keys.mode, Mode::Terminal);

    // :q on the shell hides it rather than killing it; the buffer's
    // window is untouched.
    press(&mut editor, "C-w :");
    assert_eq!(editor.keys.mode, Mode::Command);
    press(&mut editor, "q <enter>");
    assert_eq!(editor.window_count(), 1);
    assert!(editor.shell.running);
    assert_eq!(editor.doc().text.to_string(), "text\n");
    editor.close_terminal();
    assert!(!editor.shell.running);
}

/// A root install runs in a terminal of its own, so sudo has somewhere
/// to ask; when it succeeds the terminal goes away and the tool counts
/// as installed.
#[test]
fn a_root_install_runs_in_its_own_terminal_and_closes_on_success() {
    let mut editor = editor_with("text\n");
    editor.start_install_in_terminal("true", "true");
    assert_eq!(editor.window_count(), 2);
    assert!(editor.terminal_focused(), "the password prompt needs focus");
    assert_eq!(editor.keys.mode, Mode::Terminal);
    assert!(editor.install_running());
    editor.shell_exited(0, true);
    assert_eq!(editor.lines.status, "true installed");
    assert!(!editor.shell.running);
    assert_eq!(editor.window_count(), 1);
    assert!(!editor.install_running());
}

/// A failed install holds its terminal until its shell ends, then reports the
/// failure.
#[test]
fn a_failed_root_install_waits_for_enter_then_reports() {
    let mut editor = editor_with("text\n");
    editor.start_install_in_terminal("crow-no-such-tool", "false");
    assert!(editor.shell.running);
    editor.shell_exited(1, false);
    assert!(!editor.shell.running);
    assert!(
        editor
            .lines
            .status
            .starts_with("crow-no-such-tool: install failed"),
        "{}",
        editor.lines.status
    );
}

/// With a shell already open the command is typed into it instead, and
/// the tool showing up on PATH is what marks the install done.
#[test]
fn a_root_install_uses_the_open_shell_and_watches_path() {
    let mut editor = editor_with("text\n");
    press(&mut editor, "<space> t");
    assert!(editor.focus_window_dir(Dir::Up));
    assert!(!editor.terminal_focused());
    editor.start_install_in_terminal("true", ": would be sudo");
    assert!(editor.terminal_focused(), "the password prompt needs focus");
    assert_eq!(editor.shell.install, Some(("true".to_string(), false)));
    assert!(
        !editor.install_running(),
        "the user's shell is not ours to wait on"
    );
    assert!(editor.look_for_program(true));
    assert_eq!(editor.lines.status, "true installed");
    assert!(editor.shell.running, "the user's shell stays");
    editor.close_terminal();
}

#[test]
fn editing_keys_in_the_terminal_never_touch_the_buffer() {
    let mut editor = editor_with("keep me\n");
    press(&mut editor, "<space> t");
    press(&mut editor, "C-\\ C-n");
    press(&mut editor, "dd");
    press(&mut editor, "x");
    press(&mut editor, "p");
    assert_eq!(editor.doc().text.to_string(), "keep me\n");
    assert_eq!(editor.keys.mode, Mode::Normal);
    editor.close_terminal();
}

#[test]
fn theme_picker_previews_live_and_esc_restores() {
    let mut editor = editor_with("hello");
    editor.options.theme = "default".to_string();
    press(&mut editor, "<space> T");
    editor.handle_key(Key::parse("<down>").unwrap()); // the second theme: live preview
    let preview = match editor.effects.last() {
        Some(Effect::Theme(name)) => name.clone(),
        _ => panic!("no theme was asked for"),
    };
    assert_ne!(preview, "default");
    editor.handle_key(Key::parse("<esc>").unwrap());
    assert!(matches!(editor.effects.last(), Some(Effect::Theme(name)) if name == "default"));
    assert_eq!(editor.keys.mode, Mode::Normal);
}

#[test]
fn completion_accepts_by_appending_the_suffix() {
    let mut editor = editor_with("");
    press(&mut editor, "i");
    press(&mut editor, "pri");
    editor.show_completions(
        vec![
            ("println!".into(), "println!".into(), String::new()),
            ("print!".into(), "print!".into(), String::new()),
        ],
        false,
    );
    assert_eq!(editor.panes.completion.as_ref().unwrap().items.len(), 2);
    press(&mut editor, "<enter>");
    assert_eq!(editor.doc().text.to_string(), "println!");
    assert!(editor.panes.completion.is_none());
}

#[test]
fn esc_closes_completion_and_leaves_insert_mode_in_one_press() {
    let mut editor = editor_with("");
    press(&mut editor, "i");
    press(&mut editor, "pri");
    editor.show_completions(
        vec![("println!".into(), "println!".into(), String::new())],
        false,
    );
    press(&mut editor, "<esc>");
    assert!(editor.panes.completion.is_none());
    assert_eq!(editor.keys.mode, Mode::Normal);
}

#[test]
fn h_wraps_onto_the_previous_line() {
    let mut editor = editor_with("ab\ncd\nef");
    press(&mut editor, "j");
    press(&mut editor, "0");
    assert_eq!(editor.doc().cursor, 3);
    // One h from the start of "cd" lands on the last char of "ab".
    press(&mut editor, "h");
    assert_eq!(editor.doc().cursor, 1);
    // Repeated h keeps wrapping through an empty line to the top.
    let mut editor = editor_with("ab\n\ncd");
    editor.doc_mut().cursor = 4;
    press(&mut editor, "h");
    assert_eq!(editor.doc().cursor, 3); // the empty line
    press(&mut editor, "h");
    assert_eq!(editor.doc().cursor, 1);
    press(&mut editor, "h");
    assert_eq!(editor.doc().cursor, 0);
    // At the very start there is nowhere left to go.
    press(&mut editor, "h");
    assert_eq!(editor.doc().cursor, 0);
}

#[test]
fn l_wraps_onto_the_next_line() {
    let mut editor = editor_with("ab\ncd\nef");
    // From the last char of "ab", l lands on the first char of "cd".
    editor.doc_mut().cursor = 1;
    press(&mut editor, "l");
    assert_eq!(editor.doc().cursor, 3);
    // Repeated l keeps wrapping through an empty line.
    let mut editor = editor_with("ab\n\ncd");
    editor.doc_mut().cursor = 1;
    press(&mut editor, "l");
    assert_eq!(editor.doc().cursor, 3); // the empty line
    press(&mut editor, "l");
    assert_eq!(editor.doc().cursor, 4);
    // On the last char of the last line there is nowhere right to go.
    press(&mut editor, "l");
    assert_eq!(editor.doc().cursor, 5);
    press(&mut editor, "l");
    assert_eq!(editor.doc().cursor, 5);
}

#[test]
fn percent_s_substitutes_in_the_whole_buffer_as_one_undo_step() {
    let mut editor = editor_with("foo bar\nfoo baz\nfoo");
    press(&mut editor, ":%s/foo/quux/g <enter>");
    assert_eq!(editor.doc().text.to_string(), "quux bar\nquux baz\nquux");
    assert_eq!(editor.lines.status, "3 substitutions");
    press(&mut editor, "u");
    assert_eq!(editor.doc().text.to_string(), "foo bar\nfoo baz\nfoo");
}

#[test]
fn s_without_percent_or_g_replaces_the_first_match_on_the_cursor_line() {
    let mut editor = editor_with("foo foo\nfoo foo");
    editor.doc_mut().cursor = 8; // line 1
    press(&mut editor, ":s/foo/bar <enter>");
    assert_eq!(editor.doc().text.to_string(), "foo foo\nbar foo");
    // With g, every match on the line goes.
    let mut editor = editor_with("foo foo");
    press(&mut editor, ":s/foo/bar/g <enter>");
    assert_eq!(editor.doc().text.to_string(), "bar bar");
}

#[test]
fn s_supports_capture_groups_and_reports_missing_patterns() {
    let mut editor = editor_with("ab");
    press(&mut editor, ":%s/(a)(b)/\\2\\1/ <enter>");
    assert_eq!(editor.doc().text.to_string(), "ba");
    let mut editor = editor_with("hello");
    press(&mut editor, ":%s/zzz/x/g <enter>");
    assert_eq!(editor.doc().text.to_string(), "hello");
    assert_eq!(editor.lines.status, "pattern not found: zzz");
}

#[test]
fn search_like_words_are_not_substitute_commands() {
    // ":s" must be followed by a delimiter; ":set" is not :s.
    assert!(parse_substitute("set number").is_none());
    assert!(parse_substitute("search").is_none());
    assert!(parse_substitute("s").is_none());
    let sub = parse_substitute("%s/a/b/g").unwrap();
    assert!(sub.whole_buffer && sub.global && !sub.insensitive);
    assert_eq!(sub.pattern, "a");
    assert_eq!(sub.replacement, "b");
    // A different delimiter works, and an escaped delimiter is literal.
    let sub = parse_substitute("s#a#b#").unwrap();
    assert!(!sub.whole_buffer && !sub.global);
    let sub = parse_substitute("s/a\\/b/c/").unwrap();
    assert_eq!(sub.pattern, "a/b");
}

#[test]
fn percent_jumps_between_matching_brackets() {
    let mut editor = editor_with("fn main() {\n    if x {\n    }\n}");
    press(&mut editor, "%"); // on the 'f': not a bracket, stays put
    assert_eq!(editor.doc().cursor, 0);
    editor.doc_mut().cursor = 10; // the '{'
    press(&mut editor, "%");
    assert_eq!(editor.doc().cursor, 29); // the final '}'
    press(&mut editor, "%");
    assert_eq!(editor.doc().cursor, 10);
}

#[test]
fn dd_deletes_lines_into_the_register() {
    let mut editor = editor_with("one\ntwo\nthree\nfour\n");
    press(&mut editor, "dd");
    assert_eq!(editor.doc().text.to_string(), "two\nthree\nfour\n");
    assert_eq!(editor.registers.unnamed, "one\n");
    // The register is linewise, so p pastes the line back below.
    press(&mut editor, "p");
    assert_eq!(editor.doc().text.to_string(), "two\none\nthree\nfour\n");
    // A count deletes that many lines; u undoes the whole delete.
    press(&mut editor, "gg 2dd");
    assert_eq!(editor.doc().text.to_string(), "three\nfour\n");
    press(&mut editor, "u");
    assert_eq!(editor.doc().text.to_string(), "two\none\nthree\nfour\n");
    // d followed by anything else cancels — nothing deleted.
    press(&mut editor, "dj");
    assert_eq!(editor.doc().text.to_string(), "two\none\nthree\nfour\n");
}

#[test]
fn hover_popup_scrolls_and_any_key_falls_through() {
    let mut editor = editor_with("hello\n");
    editor.open_hover("fn foo()\n\nDoes the thing.\n\nExample:\n    foo();");
    assert!(editor.panes.hover.is_some());
    press(&mut editor, "j");
    assert_eq!(editor.panes.hover.as_ref().unwrap().1, 1);
    press(&mut editor, "k");
    assert_eq!(editor.panes.hover.as_ref().unwrap().1, 0);
    press(&mut editor, "<esc>");
    assert!(editor.panes.hover.is_none());
    // Any non-scroll key closes the popup and still does its job.
    editor.open_hover("docs");
    press(&mut editor, "i");
    assert!(editor.panes.hover.is_none());
    assert_eq!(editor.keys.mode, Mode::Insert);
}

#[test]
fn dep_upgrade_rewrites_the_cursor_lines_version() {
    let mut editor = editor_with("[dependencies]\ncrossterm = \"0.27\"\n");
    editor.doc_mut().path = Some("Cargo.toml".into());
    know(&mut editor, Kind::Cargo, "crossterm", "0.27.0", "0.29.0");
    press(&mut editor, "j"); // onto the crossterm line
    run(&mut editor, "dep_upgrade");
    assert_eq!(
        editor.doc().text.to_string(),
        "[dependencies]\ncrossterm = \"0.29.0\"\n"
    );
}

#[test]
fn tab_and_shift_tab_cycle_the_completion_menu() {
    let mut editor = editor_with("");
    press(&mut editor, "i");
    press(&mut editor, "p");
    editor.show_completions(
        vec![
            ("print!".into(), "print!".into(), String::new()),
            ("push".into(), "push".into(), "Appends an element.".into()),
        ],
        false,
    );
    // An LSP menu starts navigated: Tab advances, S-Tab goes back.
    press(&mut editor, "<tab>");
    assert_eq!(editor.panes.completion.as_ref().unwrap().selected, 1);
    press(&mut editor, "<backtab>");
    assert_eq!(editor.panes.completion.as_ref().unwrap().selected, 0);
    press(&mut editor, "<tab> <enter>");
    assert_eq!(editor.doc().text.to_string(), "push");
}

#[test]
fn typing_narrows_the_completion_menu() {
    let mut editor = editor_with("");
    press(&mut editor, "i");
    press(&mut editor, "p");
    editor.show_completions(
        vec![
            ("print!".into(), "print!".into(), String::new()),
            ("push".into(), "push".into(), String::new()),
        ],
        false,
    );
    press(&mut editor, "u"); // types through the menu
    assert_eq!(editor.doc().text.to_string(), "pu");
    assert_eq!(editor.panes.completion.as_ref().unwrap().items.len(), 1);
    press(&mut editor, "<enter>");
    assert_eq!(editor.doc().text.to_string(), "push");
}

/// The list crow asks the server for while you type replaces the
/// buffer-word popup, so it has to keep that popup's manners.
#[test]
fn a_typed_completion_list_keeps_enter_as_enter() {
    let mut editor = editor_with("");
    press(&mut editor, "i");
    press(&mut editor, "pri");
    editor.show_completions(
        vec![("println".into(), "println".into(), String::new())],
        true,
    );
    assert_eq!(editor.panes.completion.as_ref().unwrap().items.len(), 1);
    press(&mut editor, "<enter>");
    assert_eq!(editor.doc().text.to_string(), "pri\n");
    assert!(editor.panes.completion.is_none());

    // And an answer that arrives too late to match what has been typed
    // since leaves the popup that is up alone instead of closing it.
    press(&mut editor, "pri");
    editor.show_completions(
        vec![("println".into(), "println".into(), String::new())],
        true,
    );
    editor.show_completions(vec![("zzz".into(), "zzz".into(), String::new())], true);
    assert!(
        editor.panes.completion.is_some(),
        "a stale typed list closed the popup"
    );
    assert_eq!(editor.lines.status, "");
}

#[test]
fn palette_rows_carry_the_shortest_binding() {
    let editor = editor_with("");
    let keymap = &editor.keymaps.normal;
    assert_eq!(
        keymap.binding_of("find_files").as_deref(),
        Some("<space> f")
    );
    assert_eq!(keymap.binding_of("save").as_deref(), Some("Ctrl-s")); // not <space> w
    assert_eq!(keymap.binding_of("format_buffer"), None); // `:fmt` only
    let picker = Picker::commands(keymap);
    let item = picker
        .items
        .iter()
        .find(|i| i.label == "find_files")
        .unwrap();
    assert!(item.detail.starts_with("<space> f  ·  "));
}

#[test]
fn leader_shows_continuations_and_space_s_v_splits() {
    let mut editor = editor_with("hello");
    press(&mut editor, "<space>");
    let entries = editor.keymaps.normal.continuations(&editor.keys.pending);
    assert!(entries.iter().any(|(k, n)| k == "e" && n == "tree_toggle"));
    assert!(
        entries.iter().any(|(k, n)| k == "s" && n == "…"),
        "s is a group"
    );
    assert!(entries.iter().any(|(k, n)| k == "w" && n == "save"));
    assert!(entries.iter().any(|(k, n)| k == "q" && n == "quit"));
    press(&mut editor, "s v");
    assert_eq!(editor.window_count(), 2);
    assert!(editor.keys.pending.is_empty());
}

#[test]
fn ctrl_h_closes_the_picker_and_moves_focus() {
    let mut editor = editor_with("hello");
    press(&mut editor, "C-t C-l"); // open the sidebar, back to the text
    press(&mut editor, "<space> f");
    assert_eq!(editor.keys.mode, Mode::Picker);
    press(&mut editor, "C-h");
    assert!(editor.panes.picker.is_none());
    assert!(
        editor.sidebar.focused,
        "C-h out of the picker crosses to the open sidebar"
    );
}

#[test]
fn command_bar_tab_completes_into_the_bar_and_enter_submits() {
    let mut editor = editor_with("hello");
    press(&mut editor, ":");
    press(&mut editor, "qui");
    let suggestions = editor.command_suggestions();
    assert_eq!(suggestions.first().map(String::as_str), Some("quit"));
    assert_eq!(
        editor.lines.command_suggest, None,
        "nothing highlighted until Tab"
    );
    press(&mut editor, "<tab>");
    assert_eq!(editor.lines.command_suggest, Some(0));
    assert!(!editor.should_quit, "highlighting never runs anything");
    press(&mut editor, "<tab>");
    assert_eq!(editor.lines.command_line, "quit ", "second Tab fills the bar");
    assert_eq!(editor.lines.command_suggest, None);
    press(&mut editor, "<enter>");
    assert!(editor.should_quit, "Enter submits what's in the bar");
}

#[test]
fn command_bar_completion_leaves_room_for_an_argument() {
    let mut editor = editor_with("hello");
    press(&mut editor, ":");
    for c in "lsp-inst".chars() {
        editor.handle_key(Key::char(c));
    }
    // Down cycles the highlight; Tab accepts it into the bar.
    press(&mut editor, "<down> <tab>");
    assert_eq!(editor.lines.command_line, "lsp-install ");
    assert_eq!(editor.keys.mode, Mode::Command, "still editing, not submitted");
    press(&mut editor, "rs");
    assert_eq!(editor.lines.command_line, "lsp-install rs");
}

#[test]
fn plain_enter_runs_the_typed_line_not_a_suggestion() {
    let mut editor = editor_with("hello");
    press(&mut editor, ":");
    press(&mut editor, "42 <enter>"); // line jump: digits never suggest
    assert!(!editor.should_quit);
    assert_eq!(editor.keys.mode, Mode::Normal);
}

#[test]
fn colon_help_opens_a_scrollable_window() {
    let mut editor = editor_with("hello");
    press(&mut editor, ": help <enter>");
    assert_eq!(editor.panes.help_scroll, Some(0));
    press(&mut editor, "j j k");
    assert_eq!(editor.panes.help_scroll, Some(1));
    press(&mut editor, "G");
    let bottom = editor.panes.help_scroll.unwrap();
    assert!(bottom > 1, "G jumps to the end");
    press(&mut editor, "j");
    assert_eq!(editor.panes.help_scroll, Some(bottom), "scroll clamps at the end");
    press(&mut editor, "<esc>");
    assert_eq!(editor.panes.help_scroll, None);
    assert_eq!(editor.keys.mode, Mode::Normal);

    // C-h closes the window in one press (no sidebar: focus stays put).
    press(&mut editor, ": help <enter>");
    press(&mut editor, "C-h");
    assert_eq!(editor.panes.help_scroll, None);
    assert!(editor.sidebar.tree.is_none() && !editor.sidebar.focused);
}

#[test]
fn ctrl_h_l_move_between_splits_before_the_tree() {
    let mut editor = editor_with("hello");
    editor.split_window(true);
    let (wins, _) = editor.window_rects();
    assert_eq!(wins.len(), 2);
    let rightmost = wins.iter().max_by_key(|&&(_, (x, ..))| x).unwrap().0;
    // Start from the rightmost window: C-h crosses the split first…
    editor.desk.focused = rightmost;
    press(&mut editor, "C-h");
    assert!(!editor.sidebar.focused, "split comes before the tree");
    assert_ne!(editor.desk.focused, rightmost);
    // …at the leftmost window it stops — never opening the sidebar…
    press(&mut editor, "C-h");
    assert!(editor.sidebar.tree.is_none() && !editor.sidebar.focused);
    // …but crosses into it when it's open.
    press(&mut editor, "C-t");
    press(&mut editor, "C-l"); // back to the editor
    assert!(!editor.sidebar.focused);
    press(&mut editor, "C-h");
    assert!(editor.sidebar.focused);
    press(&mut editor, "C-l");
    press(&mut editor, "C-l"); // and across to the right window
    assert_eq!(editor.desk.focused, rightmost);
}

#[test]
fn ctrl_j_k_move_between_stacked_splits() {
    let mut editor = editor_with("hello");
    press(&mut editor, "<space> s h"); // stacked split
    let (wins, _) = editor.window_rects();
    assert_eq!(wins.len(), 2);
    let top = wins.iter().min_by_key(|&&(_, (_, y, ..))| y).unwrap().0;
    let bottom = wins.iter().max_by_key(|&&(_, (_, y, ..))| y).unwrap().0;
    // j/k are flipped by request: C-k descends, C-j ascends.
    editor.desk.focused = top;
    press(&mut editor, "C-k");
    assert_eq!(editor.desk.focused, bottom);
    press(&mut editor, "C-j");
    assert_eq!(editor.desk.focused, top);
    press(&mut editor, "C-j"); // topmost already: stays put
    assert_eq!(editor.desk.focused, top);
    assert!(!editor.sidebar.focused);
}

#[test]
fn splash_shows_on_empty_start_and_leaves_when_work_begins() {
    let mut editor = new_editor(&Config::default());
    assert!(editor.show_splash());
    press(&mut editor, "<space>"); // a pending leader doesn't dismiss it
    assert!(editor.show_splash());
    press(&mut editor, "<esc>");
    press(&mut editor, "i");
    assert!(!editor.show_splash(), "insert mode hides it");
    press(&mut editor, "hi");
    press(&mut editor, "<esc>");
    assert!(!editor.show_splash(), "text in the buffer hides it");
}

#[test]
fn ctrl_t_toggles_the_tree_and_ctrl_h_l_only_navigate() {
    let mut editor = editor_with("hello");
    press(&mut editor, "C-h"); // navigation never opens the sidebar
    assert!(editor.sidebar.tree.is_none() && !editor.sidebar.focused);
    press(&mut editor, "C-t");
    assert!(editor.sidebar.tree.is_some() && editor.sidebar.focused);
    press(&mut editor, "C-l");
    assert!(!editor.sidebar.focused);
    assert!(editor.sidebar.tree.is_some(), "tree stays open, just unfocused");
    press(&mut editor, "C-h"); // open sidebar: C-h crosses into it
    assert!(editor.sidebar.focused);
    press(&mut editor, "C-t"); // toggle from inside closes it
    assert!(editor.sidebar.tree.is_none());
}

#[test]
fn typing_pops_intellisense_from_buffer_words() {
    let mut editor = editor_with("printer value");
    press(&mut editor, "A");
    press(&mut editor, "<space>");
    press(&mut editor, "pri"); // two identifier chars trigger the menu
    let completion = editor.panes.completion.as_ref().expect("menu popped");
    assert!(!completion.navigated);
    assert_eq!(completion.items[0].0, "printer");
    // Tab steps into the list, Enter accepts.
    press(&mut editor, "<tab> <enter>");
    assert_eq!(editor.doc().text.to_string(), "printer value printer");
}

#[test]
fn enter_stays_a_newline_when_the_menu_popped_itself() {
    let mut editor = editor_with("printer value");
    press(&mut editor, "A");
    press(&mut editor, "<space>");
    press(&mut editor, "pr");
    assert!(editor.panes.completion.is_some());
    press(&mut editor, "<enter>");
    assert!(editor.panes.completion.is_none());
    assert_eq!(editor.doc().text.to_string(), "printer value pr\n");
}

#[test]
fn tree_sidebar_toggles_focuses_and_opens_files() {
    let mut editor = editor_with("");
    press(&mut editor, "<space> e");
    assert!(editor.sidebar.tree.is_some() && editor.sidebar.focused);
    // Windows shift right to make room for the sidebar.
    let (wins, _) = editor.window_rects();
    assert_eq!(wins[0].1 .0, editor.tree_width());
    // The tree intercepts keys: `j` moves selection, not the cursor.
    press(&mut editor, "j");
    assert_eq!(editor.doc().cursor, 0);
    press(&mut editor, "<esc>");
    assert!(!editor.sidebar.focused && editor.sidebar.tree.is_some());
    press(&mut editor, "<space> e"); // refocus
    assert!(editor.sidebar.focused);
    // The same toggle closes it even though the tree has the keyboard.
    press(&mut editor, "<space> e");
    assert!(editor.sidebar.tree.is_none());
    assert_eq!(editor.window_rects().0[0].1 .0, 0);
    // And a plain open-then-toggle round trip closes it too.
    press(&mut editor, "<space> e");
    assert!(editor.sidebar.tree.is_some() && editor.sidebar.focused);
    press(&mut editor, "<space> e");
    assert!(editor.sidebar.tree.is_none());
}

#[test]
fn brackets_autoclose_step_over_and_backspace_as_pairs() {
    let mut editor = editor_with("");
    press(&mut editor, "i");
    press(&mut editor, "(x");
    assert_eq!(editor.doc().text.to_string(), "(x)");
    press(&mut editor, ")"); // retyping the closer steps over it
    assert_eq!(editor.doc().text.to_string(), "(x)");
    assert_eq!(editor.doc().cursor, 3);
    press(&mut editor, "[");
    press(&mut editor, "<bs>"); // backspace eats the empty pair
    assert_eq!(editor.doc().text.to_string(), "(x)");
}

#[test]
fn quotes_pair_except_after_word_chars() {
    let mut editor = editor_with("");
    press(&mut editor, "i");
    press(&mut editor, "\"hi");
    assert_eq!(editor.doc().text.to_string(), "\"hi\"");
    press(&mut editor, "\""); // step over
    press(&mut editor, "<space>");
    press(&mut editor, "don't");
    assert_eq!(editor.doc().text.to_string(), "\"hi\" don't");
}

#[test]
fn autoclose_still_fires_with_the_completion_popup_open() {
    // `main` in the buffer means typing `ma` opens the word popup; the
    // bracket that follows must still bring its closer instead of being
    // typed raw through the menu.
    let mut editor = editor_with(
        "mainly
",
    );
    press(&mut editor, "i");
    press(&mut editor, "ma");
    assert!(editor.panes.completion.is_some());
    press(&mut editor, "(");
    assert!(editor.panes.completion.is_none());
    assert_eq!(editor.doc().text.to_string(), "ma()mainly\n");

    // Same for quotes: one `"` makes the pair, it does not take three.
    let mut editor = editor_with("mainly\n");
    press(&mut editor, "i");
    press(&mut editor, "ma");
    press(&mut editor, "\"");
    assert_eq!(editor.doc().text.to_string(), "ma\"\"mainly\n");
}

#[test]
fn autoclose_works_at_every_cursor() {
    let mut editor = editor_with("a\nb");
    press(&mut editor, "C"); // cursor on both lines
    press(&mut editor, "i");
    press(&mut editor, "(");
    assert_eq!(editor.doc().text.to_string(), "()a\n()b");
    press(&mut editor, "x"); // typing lands inside both pairs
    assert_eq!(editor.doc().text.to_string(), "(x)a\n(x)b");
}

#[test]
fn extend_mode_selects_across_lines() {
    let mut editor = editor_with("abc\ndef\nghi");
    press(&mut editor, "vjd"); // grow the selection down a line, delete
    assert_eq!(editor.doc().text.to_string(), "ef\nghi");
    press(&mut editor, "vjd");
    assert_eq!(editor.doc().text.to_string(), "hi");
}

#[test]
fn config_keys_bind_registry_commands() {
    let mut config = Config::default();
    config.keys_normal.push(("Q".into(), "quit".into()));
    config
        .keys_normal
        .push(("Z".into(), "not_a_command".into()));
    let mut editor = new_editor(&config);
    assert!(editor.lines.status.contains("not_a_command")); // bad bind reported
    press(&mut editor, "Q");
    assert!(editor.should_quit);
}

#[test]
fn each_delete_is_its_own_undo_step() {
    let mut editor = editor_with("a\nb\nc\n");
    press(&mut editor, "dd dd");
    assert_eq!(editor.doc().text.to_string(), "c\n");
    press(&mut editor, "u");
    assert_eq!(editor.doc().text.to_string(), "b\nc\n");
}

#[test]
fn goal_column_survives_a_short_line() {
    let mut editor = editor_with("abcdefgh\nxy\nabcdefgh");
    press(&mut editor, "$");
    assert_eq!(editor.doc().cursor_line_col(), (0, 7));
    press(&mut editor, "j");
    assert_eq!(editor.doc().cursor_line_col(), (1, 1));
    press(&mut editor, "j");
    assert_eq!(editor.doc().cursor_line_col(), (2, 7));
}

#[test]
fn ex_command_jumps_to_line() {
    let mut editor = editor_with("a\nb\nc\nd");
    press(&mut editor, ":");
    press(&mut editor, "3");
    press(&mut editor, "<enter>");
    assert_eq!(editor.doc().cursor_line(), 2);
}

#[test]
fn open_below_preserves_indent() {
    let mut editor = editor_with("    hello");
    press(&mut editor, "o");
    press(&mut editor, "x");
    assert_eq!(editor.doc().text.to_string(), "    hello\n    x");
}

#[test]
fn newline_after_opener_indents_and_places_the_closer() {
    // Autoclose gives `{}`; Enter between them opens an indented block.
    let mut editor = editor_with("");
    press(&mut editor, "i");
    press(&mut editor, "{");
    press(&mut editor, "<enter>");
    press(&mut editor, "x");
    assert_eq!(editor.doc().text.to_string(), "{\n    x\n}");
}

#[test]
fn newline_after_opener_without_closer_just_indents() {
    let mut editor = editor_with("");
    press(&mut editor, "i");
    press(&mut editor, "( <enter>");
    // Autoclose put `)` after the cursor, so this is the block case…
    assert_eq!(editor.doc().text.to_string(), "(\n    \n)");
    // …and a tabbed file indents with a tab.
    let mut editor = editor_with("\tif x {");
    press(&mut editor, "A");
    press(&mut editor, "<enter>");
    press(&mut editor, "y");
    assert_eq!(editor.doc().text.to_string(), "\tif x {\n\t\ty");
}

#[test]
fn closer_on_a_blank_line_dedents() {
    let mut editor = editor_with("{\n        ");
    press(&mut editor, "j $ a");
    press(&mut editor, "}");
    assert_eq!(editor.doc().text.to_string(), "{\n    }");
}

#[test]
fn tab_indents_with_the_line_style() {
    let mut editor = editor_with("");
    press(&mut editor, "i");
    press(&mut editor, "<tab>");
    assert_eq!(editor.doc().text.to_string(), "    ");
    let mut editor = editor_with("\tx");
    press(&mut editor, "A");
    press(&mut editor, "<tab>");
    assert_eq!(editor.doc().text.to_string(), "\tx\t");
}

#[test]
fn ctrl_o_and_ctrl_i_walk_the_jumps() {
    let mut editor = editor_with("a\nb\nc\nd\ne\n");
    press(&mut editor, "j"); // line 1 — a motion, not a jump
    press(&mut editor, "G"); // jump to the end
    assert_eq!(editor.doc().cursor_line(), 4);
    press(&mut editor, "gg");
    assert_eq!(editor.doc().cursor_line(), 0);
    press(&mut editor, "C-o");
    assert_eq!(editor.doc().cursor_line(), 4);
    press(&mut editor, "C-o");
    assert_eq!(editor.doc().cursor_line(), 1);
    press(&mut editor, "C-o");
    assert!(editor.lines.status.contains("oldest"));
    press(&mut editor, "C-i");
    assert_eq!(editor.doc().cursor_line(), 4);
    press(&mut editor, "<tab>");
    assert_eq!(editor.doc().cursor_line(), 0);
    press(&mut editor, "<tab>");
    assert!(editor.lines.status.contains("newest"));
}

#[test]
fn a_new_jump_after_walking_back_drops_the_forward_ones() {
    let mut editor = editor_with("a\nb\nc\nd\n");
    press(&mut editor, "G gg C-o"); // back at the end
    press(&mut editor, ":2 <enter>");
    assert_eq!(editor.doc().cursor_line(), 1);
    press(&mut editor, "C-i");
    assert!(editor.lines.status.contains("newest"));
    press(&mut editor, "C-o");
    assert_eq!(editor.doc().cursor_line(), 3);
}

#[test]
fn mi_selects_inside_and_d_deletes_it() {
    let mut editor = editor_with("f(alpha, beta)\n");
    let doc = editor.doc_mut();
    (doc.anchor, doc.cursor) = (4, 4);
    press(&mut editor, "mi(");
    let doc = editor.doc();
    assert_eq!(
        doc.text.slice(doc.anchor..doc.cursor).to_string(),
        "alpha, beta"
    );
    press(&mut editor, "d");
    assert_eq!(editor.doc().text.to_string(), "f()\n");
}

#[test]
fn ma_works_at_every_cursor() {
    let mut editor = editor_with("[a] x\n[b] y\n");
    let doc = editor.doc_mut();
    (doc.anchor, doc.cursor) = (1, 1);
    press(&mut editor, "C");
    press(&mut editor, "ma[");
    press(&mut editor, "d");
    assert_eq!(editor.doc().text.to_string(), " x\n y\n");
}

#[test]
fn md_and_mr_edit_the_surrounding_pair() {
    let mut editor = editor_with("say(\"hi\")\n");
    let doc = editor.doc_mut();
    (doc.anchor, doc.cursor) = (6, 6);
    press(&mut editor, "mr\"'");
    assert_eq!(editor.doc().text.to_string(), "say('hi')\n");
    press(&mut editor, "md(");
    assert_eq!(editor.doc().text.to_string(), "say'hi'\n");
    press(&mut editor, "u");
    assert_eq!(editor.doc().text.to_string(), "say('hi')\n");
}

/// `md"` and `mr"` act on the string the cursor is in — never on the
/// next one along the line, and not at all when it is in none.
#[test]
fn surround_edits_only_ever_touch_the_pair_around_the_cursor() {
    let mut editor = editor_with("say(\"hi\") and \"bye\"\n");
    let doc = editor.doc_mut();
    (doc.anchor, doc.cursor) = (5, 7); // exactly `hi`, as ma" would leave it
    press(&mut editor, "md\"");
    assert_eq!(editor.doc().text.to_string(), "say(hi) and \"bye\"\n");

    // Outside every pair: nothing to delete, and it says so.
    let mut editor = editor_with("abc \"def\"\n");
    let doc = editor.doc_mut();
    (doc.anchor, doc.cursor) = (0, 0);
    press(&mut editor, "md\"");
    assert_eq!(editor.doc().text.to_string(), "abc \"def\"\n");
    assert!(editor.lines.status.contains("no surrounding"));
}

/// `miw` on a line ending has nothing to select; it must say so rather
/// than quietly replacing the selection with an empty one.
#[test]
fn a_word_object_on_a_line_ending_finds_nothing() {
    let mut editor = editor_with("ab\ncd\n");
    let doc = editor.doc_mut();
    (doc.anchor, doc.cursor) = (2, 2); // on the line ending itself
    press(&mut editor, "miw");
    let doc = editor.doc();
    assert_eq!((doc.anchor, doc.cursor), (2, 2), "the cursor is untouched");
    assert!(editor.lines.status.contains("nothing to select"));
}

#[test]
fn dot_repeats_a_text_object_edit_where_the_cursor_is_now() {
    let mut editor = editor_with("(one) (two)\n");
    let doc = editor.doc_mut();
    (doc.anchor, doc.cursor) = (1, 1);
    press(&mut editor, "mi( d");
    assert_eq!(editor.doc().text.to_string(), "() (two)\n");
    let doc = editor.doc_mut();
    (doc.anchor, doc.cursor) = (4, 4);
    press(&mut editor, ".");
    assert_eq!(editor.doc().text.to_string(), "() ()\n");
}

#[test]
fn dot_repeats_an_insert_session() {
    let mut editor = editor_with("a\nb\nc\n");
    press(&mut editor, "I - <space> <esc>");
    assert_eq!(editor.doc().text.to_string(), "- a\nb\nc\n");
    press(&mut editor, "j .");
    assert_eq!(editor.doc().text.to_string(), "- a\n- b\nc\n");
    press(&mut editor, "j 0 .");
    assert_eq!(editor.doc().text.to_string(), "- a\n- b\n- c\n");
}

#[test]
fn dot_repeats_a_line_delete_with_its_count_and_skips_motions() {
    let mut editor = editor_with("1\n2\n3\n4\n5\n6\n");
    press(&mut editor, "2dd");
    assert_eq!(editor.doc().text.to_string(), "3\n4\n5\n6\n");
    press(&mut editor, "j");
    press(&mut editor, ".");
    assert_eq!(editor.doc().text.to_string(), "3\n6\n");
}

#[test]
fn undo_is_not_what_dot_repeats() {
    let mut editor = editor_with("abc\n");
    press(&mut editor, "x"); // arms the line op…
    press(&mut editor, "<esc>"); // …which Esc cancels
    press(&mut editor, "A ! <esc>");
    press(&mut editor, "u");
    press(&mut editor, ".");
    assert_eq!(editor.doc().text.to_string(), "abc!\n");
}

#[test]
fn a_macro_records_and_replays_with_a_count() {
    let mut editor = editor_with("a\nb\nc\nd\n");
    press(&mut editor, "q a");
    assert!(editor.recorder.macro_rec.is_some());
    press(&mut editor, "A ; <esc> j");
    press(&mut editor, "q");
    assert!(editor.recorder.macro_rec.is_none());
    assert_eq!(editor.doc().text.to_string(), "a;\nb\nc\nd\n");
    press(&mut editor, "2@a");
    assert_eq!(editor.doc().text.to_string(), "a;\nb;\nc;\nd\n");
    press(&mut editor, "@@");
    assert_eq!(editor.doc().text.to_string(), "a;\nb;\nc;\nd;\n");
}

/// `.` repeats the last *change*, not the last macro: after `@a`, `.`
/// must redo the edit the macro's keys made where the cursor is now,
/// which for a one-edit macro looks the same — but a second `.` must not
/// walk the buffer the way replaying the macro again would.
#[test]
fn dot_after_a_macro_does_not_become_play_it_again() {
    let mut editor = editor_with("a\nb\nc\nd\n");
    press(&mut editor, "q a A ; <esc> j q"); // @a = append `;`, go down
    press(&mut editor, "@a");
    assert_eq!(editor.doc().text.to_string(), "a;\nb;\nc\nd\n");
    let after_macro = format!("{:?}", editor.recorder.last_change);
    press(&mut editor, ".");
    assert_eq!(
        format!("{:?}", editor.recorder.last_change),
        after_macro,
        "`.` did not adopt the macro as the change to repeat"
    );
    // The change `.` repeats is the one from before the macro ran.
    assert_eq!(editor.doc().text.to_string(), "a;\nb;\nc;\nd\n");
}

#[test]
fn a_macro_that_calls_itself_stops() {
    let mut editor = editor_with("x\n");
    press(&mut editor, "q a A y <esc> q");
    // Make @a call itself.
    let at = editor.recorder.macros.iter().position(|m| m.0 == 'a').unwrap();
    editor.recorder.macros[at].1.push(Input::Key(Key::char('@')));
    editor.recorder.macros[at].1.push(Input::Key(Key::char('a')));
    press(&mut editor, "@a");
    assert!(editor.lines.status.contains("too deep"));
}

/// `C-v` and motions draw a rectangle; what comes next runs on every
/// line of it, as one undo step.
#[test]
fn a_block_is_one_selection_per_line() {
    let mut editor = editor_with("abcdef\nabcdef\nabcdef\n");
    press(&mut editor, "l C-v j j l");
    assert_eq!(texts(&editor), ["bc", "bc", "bc"]);
    // Stretching back the other way shrinks it, and crosses the origin.
    press(&mut editor, "k h h");
    assert_eq!(texts(&editor), ["ab", "ab"]);
    press(&mut editor, "d");
    assert!(editor.keys.block.is_none(), "an edit is what the block was for");
    assert_eq!(editor.doc().text.to_string(), "cdef\ncdef\nabcdef\n");
    press(&mut editor, "u");
    assert_eq!(editor.doc().text.to_string(), "abcdef\nabcdef\nabcdef\n");
}

#[test]
fn a_block_inserts_and_appends_on_every_line() {
    let mut editor = editor_with("one\ntwo\nthree\n");
    press(&mut editor, "C-v j j i <space> <space> <esc>");
    assert_eq!(editor.doc().text.to_string(), "  one\n  two\n  three\n");
    press(&mut editor, "<esc> gg C-v j j a - <esc>");
    assert_eq!(editor.doc().text.to_string(), " - one\n - two\n - three\n");
}

/// The column is the rectangle's, not whatever a short line clamps the
/// cursor to on the way through; and a line the rectangle misses is left
/// alone — but an insert at column 0 still reaches an empty one.
#[test]
fn a_block_keeps_its_column_through_short_lines() {
    let mut editor = editor_with("abcdef\nab\n\nabcdef\n");
    press(&mut editor, "l l l C-v j j j");
    assert_eq!(texts(&editor), ["d", "d"]);
    press(&mut editor, "d");
    assert_eq!(editor.doc().text.to_string(), "abcef\nab\n\nabcef\n");

    let mut editor = editor_with("a\n\nb\n");
    press(&mut editor, "C-v j j d");
    assert_eq!(editor.doc().text.to_string(), "\n\n\n", "the empty line survives");
    let mut editor = editor_with("a\n\nb\n");
    press(&mut editor, "C-v j j i # <esc>");
    assert_eq!(editor.doc().text.to_string(), "#a\n#\n#b\n");
}

/// `I` and `A` go to each line's own start and end, however ragged.
#[test]
fn line_start_and_end_inserts_reach_every_cursor() {
    let mut editor = editor_with("  one\n    three\n");
    press(&mut editor, "C-v j I / / <space> <esc>");
    assert_eq!(editor.doc().text.to_string(), "  // one\n    // three\n");
    press(&mut editor, "<esc> gg C-v j A ; <esc>");
    assert_eq!(editor.doc().text.to_string(), "  // one;\n    // three;\n");
}

#[test]
fn leaving_a_block() {
    let mut editor = editor_with("abc\nabc\n");
    // C-v again keeps the cursors for plain multi-cursor work…
    press(&mut editor, "C-v j C-v");
    assert!(editor.keys.block.is_none());
    assert_eq!(editor.doc().extra.len(), 1);
    // …and Esc drops them.
    press(&mut editor, "C-v j <esc>");
    assert!(editor.keys.block.is_none());
    assert!(editor.doc().extra.is_empty());
}

#[test]
fn alt_s_splits_a_selection_into_lines() {
    let mut editor = editor_with("one\ntwo\nthree\n");
    press(&mut editor, "V V V");
    press(&mut editor, "A-s");
    assert_eq!(texts(&editor), vec!["one", "three", "two"]);
}

#[test]
fn split_keep_and_remove_by_pattern() {
    let mut editor = editor_with("a,b,c\n");
    let doc = editor.doc_mut();
    (doc.anchor, doc.cursor) = (0, 5);
    editor.open_select_prompt(SelectPrompt::Split);
    press(&mut editor, ", <enter>");
    assert_eq!(texts(&editor), vec!["a", "b", "c"]);
    editor.open_select_prompt(SelectPrompt::Remove);
    press(&mut editor, "b <enter>");
    assert_eq!(texts(&editor), vec!["a", "c"]);
    editor.open_select_prompt(SelectPrompt::Keep);
    press(&mut editor, "c <enter>");
    assert_eq!(texts(&editor), vec!["c"]);
}

#[test]
fn ampersand_aligns_selection_starts() {
    let mut editor = editor_with("x = 1\nlonger = 2\n");
    let doc = editor.doc_mut();
    (doc.anchor, doc.cursor) = (2, 2); // the `=` on line 0
    doc.extra = vec![(13, 13)]; // the `=` on line 1
    press(&mut editor, "&");
    assert_eq!(editor.doc().text.to_string(), "x      = 1\nlonger = 2\n");
}

#[test]
fn rotate_and_trim() {
    let mut editor = editor_with("  a  \n  b  \n");
    let doc = editor.doc_mut();
    (doc.anchor, doc.cursor) = (0, 5);
    doc.extra = vec![(6, 11)];
    press(&mut editor, "_");
    assert_eq!(texts(&editor), vec!["a", "b"]);
    let before = (editor.doc().anchor, editor.doc().cursor);
    press(&mut editor, ")");
    assert_ne!((editor.doc().anchor, editor.doc().cursor), before);
    press(&mut editor, "(");
    assert_eq!((editor.doc().anchor, editor.doc().cursor), before);
}

#[test]
fn click_places_the_cursor_and_drag_selects() {
    let mut editor = editor_with("hello world\nsecond line\n");
    let gutter = editor.gutter_width() as u16;
    editor.handle_mouse(mouse(
        MouseKind::Down { shift: false },
        gutter + 6,
        0,
    ));
    assert_eq!(editor.doc().cursor, 6);
    editor.handle_mouse(mouse(
        MouseKind::Drag,
        gutter + 5,
        1,
    ));
    editor.handle_mouse(mouse(MouseKind::Up, gutter + 5, 1));
    let doc = editor.doc();
    assert_eq!(
        doc.text.slice(doc.anchor..doc.cursor).to_string(),
        "world\nsecond"
    );
}

#[test]
fn clicking_past_a_line_end_lands_on_it() {
    let mut editor = editor_with("ab\nlonger line\n");
    let gutter = editor.gutter_width() as u16;
    editor.handle_mouse(mouse(
        MouseKind::Down { shift: false },
        gutter + 20,
        0,
    ));
    assert_eq!(editor.doc().cursor, 1, "normal mode sits on the last char");
}

/// One line taller than the window: the wheel has to move the view in
/// rows and bring the cursor with it, or `ensure_cursor_visible` pulls
/// the view straight back and the wheel does nothing at all.
#[test]
fn the_wheel_works_inside_one_very_long_wrapped_line() {
    let long: String = std::iter::repeat_n("word ", 900).collect();
    let mut editor = editor_with(&format!("{long}\nafter\n"));
    assert!(
        editor.doc().visual_rows(0, editor.wrap_width(), 4) > editor.text_height(),
        "the first line has to be taller than the window for this test"
    );
    for _ in 0..3 {
        editor.handle_mouse(mouse(MouseKind::ScrollDown, 10, 5));
        editor.ensure_cursor_visible(); // what the main loop does each frame
    }
    assert_eq!(editor.doc().view_line, 0);
    assert!(
        editor.doc().view_row >= 9,
        "the view stayed put: view_row {}",
        editor.doc().view_row
    );
}

/// A click on the status or command line is not a click on the row the
/// sidebar would have drawn there.
#[test]
fn clicks_below_the_sidebar_do_not_pick_a_row() {
    let mut editor = editor_with("x\n");
    editor.tree_toggle();
    let before = editor.sidebar.tree.as_ref().map(|t| t.selected);
    editor.handle_mouse(mouse(
        MouseKind::Down { shift: false },
        1,
        editor.size.1 - 1,
    ));
    assert_eq!(editor.sidebar.tree.as_ref().map(|t| t.selected), before);
}

#[test]
fn the_wheel_scrolls_and_keeps_the_cursor_on_screen() {
    let text: String = (0..100).map(|i| format!("line {i}\n")).collect();
    let mut editor = editor_with(&text);
    editor.handle_mouse(mouse(MouseKind::ScrollDown, 10, 5));
    editor.handle_mouse(mouse(MouseKind::ScrollDown, 10, 5));
    assert_eq!(editor.doc().view_line, 6);
    let so = editor.options.scrolloff;
    assert_eq!(editor.doc().cursor_line(), 6 + so);
}

#[test]
fn text_edits_apply_as_one_undo_step_and_keep_the_cursor() {
    let mut editor = editor_with("let foo = 1;\nfoo + foo\n");
    editor.doc_mut().cursor = 17; // the `+` on the second line
    let edits = vec![
        edit((1, 6), (1, 9), "bar"),
        edit((0, 4), (0, 7), "bar"),
        edit((1, 0), (1, 3), "bar"),
    ];
    assert!(editor.apply_text_edits(0, &edits));
    assert_eq!(editor.doc().text.to_string(), "let bar = 1;\nbar + bar\n");
    assert_eq!(editor.doc().cursor, 17);
    editor.doc_mut().undo();
    assert_eq!(editor.doc().text.to_string(), "let foo = 1;\nfoo + foo\n");
}

#[test]
fn overlapping_edits_are_dropped_not_applied() {
    let mut editor = editor_with("abcdef");
    let edits = vec![edit((0, 0), (0, 4), "X"), edit((0, 2), (0, 5), "Y")];
    assert!(editor.apply_text_edits(0, &edits));
    assert_eq!(editor.doc().text.to_string(), "Xef");
}

#[test]
fn a_workspace_edit_reaches_a_file_that_is_not_open() {
    let mut editor = editor_with("");
    let uri = uri_from_path("/t/other.rs");
    let change = format!(
        r#"{{"documentChanges": [{{"textDocument": {{"uri": "{uri}", "version": 1}},
        "edits": [{{"range": {{"start": {{"line": 0, "character": 3}}, "end": {{"line": 0, "character": 6}}}}, "newText": "new"}}]}}]}}"#
    );
    let plan = read_workspace_edit(&json(&change));
    assert!(plan.ops.is_empty());
    assert_eq!(plan.files.len(), 1);
    assert!(editor.open_buffer("/t/other.rs", "/t/other.rs", &files_of(&editor)).is_none());
    let opened = Document::opened("/t/other.rs".into(), "fn old() {}\n", Some(1));
    let at = editor.add_buffer(opened);
    let (path, edits) = plan.files.into_iter().next().unwrap();
    assert_eq!(editor.apply_workspace_edit(&vec![(Some(at), path, edits)]), 1);
    let idx = editor
        .open_buffer("/t/other.rs", "/t/other.rs", &files_of(&editor))
        .expect("opened as a buffer");
    assert_eq!(editor.document(idx).text.to_string(), "fn new() {}\n");
    assert!(
        editor.document(idx).modified,
        "left for the user to review and write"
    );
}

#[test]
fn word_at_cursor_finds_the_identifier() {
    let mut editor = editor_with("let some_name = 1;");
    editor.doc_mut().cursor = 7;
    assert_eq!(editor.doc().word_at_cursor(), "some_name");
    editor.doc_mut().cursor = 3; // the space after `let`
    assert_eq!(editor.doc().word_at_cursor(), "let");
}
