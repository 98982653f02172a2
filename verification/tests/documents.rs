//! Documents, keymaps and the file tree.

use crow::document::Document;
use crow::filetree::{FileTree, Listing};
use crow::keymap::{Key, KeyCode, KeyTrie, KeymapResult};
use ropey::Rope;

fn doc(s: &str) -> Document {
    Document {
        text: Rope::from_str(s),
        ..Document::empty()
    }
}

fn scratch() -> Vec<Listing> {
    vec![
        Listing {
            dir: "/t".into(),
            entries: vec![("b.txt".into(), false), ("sub".into(), true), ("a.txt".into(), false)],
        },
        Listing {
            dir: "/t/sub".into(),
            entries: vec![("inner.txt".into(), false)],
        },
    ]
}

fn scratch_tree() -> FileTree {
    let mut tree = FileTree::new("/t".into());
    tree.rebuild(&scratch(), false);
    tree
}

#[test]
fn editing_defers_the_reparse_until_it_is_settled() {
    let mut d = Document {
        path: Some("t.rs".into()),
        ..doc("")
    };
    assert!(!d.syntax_stale());
    d.insert_at_cursor("fn main() {}");
    // The edit only flagged the buffer; nothing has been parsed yet.
    assert!(d.syntax_stale());
    assert!(d.settle_syntax(), "settling is due");
    // Settling again with no edit is a no-op.
    assert!(!d.settle_syntax());
}

#[test]
fn trailing_newline_does_not_add_a_line() {
    assert_eq!(doc("a\nb\n").line_count(), 2);
    assert_eq!(doc("a\nb").line_count(), 2);
    assert_eq!(doc("").line_count(), 1);
}

#[test]
fn undo_groups_collapse_a_typing_burst() {
    let mut d = doc("");
    for c in "hello".chars() {
        d.insert_at_cursor(&c.to_string());
    }
    assert_eq!(d.text.to_string(), "hello");

    // One undo, because every keystroke shared a group.
    d.undo();
    assert_eq!(d.text.to_string(), "");
}

#[test]
fn committing_starts_a_new_undo_group() {
    let mut d = doc("");
    d.insert_at_cursor("abc");
    d.commit_undo_group();
    d.insert_at_cursor("def");
    assert_eq!(d.text.to_string(), "abcdef");

    d.undo();
    assert_eq!(d.text.to_string(), "abc");
    d.undo();
    assert_eq!(d.text.to_string(), "");
}

#[test]
fn redo_replays_a_whole_group() {
    let mut d = doc("");
    d.insert_at_cursor("abc");
    d.commit_undo_group();
    d.undo();
    assert_eq!(d.text.to_string(), "");
    d.redo();
    assert_eq!(d.text.to_string(), "abc");
}

#[test]
fn editing_after_undo_clears_redo() {
    let mut d = doc("");
    d.insert_at_cursor("abc");
    d.commit_undo_group();
    d.undo();
    d.insert_at_cursor("xyz");
    assert!(!d.redo());
    assert_eq!(d.text.to_string(), "xyz");
}

#[test]
fn undo_restores_cursor() {
    let mut d = doc("hello");
    d.cursor = 5;
    d.insert_at_cursor(" world");
    assert_eq!(d.cursor, 11);
    d.undo();
    assert_eq!(d.cursor, 5);
}

#[test]
fn save_refuses_a_file_that_changed_underneath_us() {
    // Unchanged file: the guard stays out of the way.
    let mut d = Document::opened("/t/f.txt".into(), "original\n", Some(7));
    d.insert_at_cursor("mine ");
    assert!(d.save(false, Some(7)).is_ok());
    d.save_done(Some(8));
    assert!(!d.modified);
    assert_eq!(d.text.to_string(), "mine original\n");

    // Somebody else writes it.
    d.insert_at_cursor("more ");
    assert!(d.save(false, Some(9)).is_err());
    assert!(d.modified, "a refused write must not look saved");

    // :w! goes through, and re-stamping means the next plain :w does too.
    assert!(d.save(true, Some(9)).is_ok());
    d.save_done(Some(10));
    assert_eq!(d.text.to_string(), "mine more original\n");
    assert!(d.save(false, Some(10)).is_ok());

    // A buffer for a file that does not exist yet writes without a fight.
    let mut n = Document::opened("/t/f.new".into(), "", None);
    n.insert_at_cursor("hello");
    assert!(n.save(false, None).is_ok());
}

#[test]
fn a_refused_save_as_leaves_the_buffer_on_its_own_file() {
    let mut d = Document::opened("/t/mine.txt".into(), "mine\n", Some(1));
    d.insert_at_cursor("edited ");

    // `:w theirs.txt` balks, and does not drag the buffer onto theirs.txt on
    // the way out.
    assert!(d.save_as("/t/theirs.txt", false, true, false).is_err());
    assert_eq!(d.path.as_deref(), Some("/t/mine.txt"));

    // So a plain `:w` still writes the file we were actually editing.
    assert!(d.save(false, Some(1)).is_ok());
    assert_eq!(d.text.to_string(), "edited mine\n");

    // The same file spelled differently is a save, not a save-as.
    assert!(d.save_as("/t/./mine.txt", true, true, false).is_ok());
    assert_eq!(d.path.as_deref(), Some("/t/mine.txt"));
}

/// `replace_all` has to find the smallest middle that differs — the
/// cursors outside it are the ones that stay put on a reload.
#[test]
fn replace_all_edits_only_the_stretch_that_differs() {
    let case = |before: &str, after: &str| {
        let mut d = doc(before);
        d.cursor = before.chars().count();
        d.anchor = d.cursor;
        let changed = d.replace_all(after);
        assert_eq!(d.text.to_string(), after, "{before:?} -> {after:?}");
        changed
    };
    assert!(case("one\ntwo\n", "one\nTWO\nthree\n"));
    assert!(case("", "new"));
    assert!(case("gone", ""));
    assert!(case("head tail", "head middle tail"));
    assert!(case("abab", "ab")); // the tail could be double-counted
    assert!(case("ab", "abab"));
    assert!(case("héllo wörld", "héllo wörld!")); // multi-byte chars
    assert!(!case("same\n", "same\n"), "no edit when they already agree");

    // The change covers the middle only: a cursor before it does not move.
    let mut d = doc("keep this: old\n");
    d.cursor = 4;
    d.anchor = 4;
    d.replace_all("keep this: new\n");
    assert_eq!(d.cursor, 4);
    assert_eq!(d.text.to_string(), "keep this: new\n");
    d.undo();
    assert_eq!(d.text.to_string(), "keep this: old\n");
}

#[test]
fn normal_mode_cursor_stops_before_line_end() {
    let mut d = doc("abc\ndef");
    d.cursor = 3;
    d.clamp_cursor(false);
    assert_eq!(d.cursor, 2);

    d.cursor = 3;
    d.clamp_cursor(true);
    assert_eq!(d.cursor, 3);
}

#[test]
fn parses_plain_and_modified_keys() {
    assert_eq!(Key::parse("j"), Some(Key::char('j')));
    assert_eq!(
        Key::parse("C-d"),
        Some(Key {
            code: KeyCode::Char('d'),
            ctrl: true,
            alt: false
        })
    );
    assert_eq!(Key::parse("Ctrl-d"), Key::parse("C-d"));
    assert_eq!(Key::parse("Alt-x"), Key::parse("A-x"));
    assert_eq!(Key::parse("<esc>"), Some(Key::new(KeyCode::Esc)));
    assert_eq!(
        Key::parse("A-x"),
        Some(Key {
            code: KeyCode::Char('x'),
            ctrl: false,
            alt: true
        })
    );
}

#[test]
fn multi_key_sequence_reports_pending_then_matches() {
    let mut map = KeyTrie::new();
    map.bind_str("dd", "delete_line");

    assert!(matches!(
        map.lookup(&[Key::char('d')]),
        KeymapResult::Pending
    ));
    assert!(matches!(
        map.lookup(&[Key::char('d'), Key::char('d')]),
        KeymapResult::Matched(_)
    ));
    assert!(matches!(
        map.lookup(&[Key::char('d'), Key::char('x')]),
        KeymapResult::NotFound
    ));
}

#[test]
fn unbound_key_is_not_found() {
    let map = KeyTrie::new();
    assert!(matches!(
        map.lookup(&[Key::char('q')]),
        KeymapResult::NotFound
    ));
}

#[test]
fn root_row_first_then_dirs_then_files_sorted() {
    let tree = scratch_tree();
    let names: Vec<&str> = tree.rows.iter().map(|r| r.name.as_str()).collect();
    assert_eq!(names[1..], ["sub", "a.txt", "b.txt"]);
    assert_eq!(tree.rows[0].path, tree.root);
    assert!(tree.rows[0].is_dir);
}

#[test]
fn expanding_inlines_children_and_collapsing_removes_them() {
    let mut tree = scratch_tree();
    tree.selected = 1; // "sub"
    tree.toggle_selected();
    tree.rebuild(&scratch(), false);
    let names: Vec<&str> = tree.rows.iter().map(|r| r.name.as_str()).collect();
    assert_eq!(names[1..], ["sub", "inner.txt", "a.txt", "b.txt"]);
    assert_eq!(tree.rows[2].depth, 2);
    tree.toggle_selected();
    tree.rebuild(&scratch(), false);
    assert_eq!(tree.rows.len(), 4);
}

#[test]
fn toggling_the_root_row_never_collapses_the_tree() {
    let mut tree = scratch_tree();
    tree.selected = 0;
    tree.toggle_selected();
    tree.rebuild(&scratch(), false);
    assert_eq!(tree.rows.len(), 4); // still all visible
}
