//! What the editor asks of the outside, answered from a disk in memory.

use crow::config::{Config, Options};
use crow::document::{read_swap, Document, SaveAs};
use crow::editor::Editor;
use crow::files::DiskNews;
use crow::filetree::{FileTree, Listing};
use crow::keymap::Key;
use crow::paths::{join_path, parent};
use crow::state::{Effect, Mode, Opening, TreeInput};
use crow::tree_files::{may_not_paste, rename_target};
use crow::watch::Reading;
use std::collections::BTreeMap;

/// Files by path, directories with `None`, and the stamps of the files.
struct Disk {
    files: BTreeMap<String, Option<String>>,
    stamps: BTreeMap<String, u64>,
    clock: u64,
    swaps: BTreeMap<String, String>,
}

impl Disk {
    fn new() -> Disk {
        let mut d = Disk {
            files: BTreeMap::new(),
            stamps: BTreeMap::new(),
            clock: 10,
            swaps: BTreeMap::new(),
        };
        d.files.insert("/t".into(), None);
        d
    }

    fn write(&mut self, path: &str, text: &str) {
        self.clock += 1;
        self.files.insert(path.into(), Some(text.into()));
        self.stamps.insert(path.into(), self.clock);
    }

    fn make_dirs(&mut self, path: &str) {
        let mut at = path.trim_end_matches('/').to_string();
        while !at.is_empty() {
            self.files.entry(at.clone()).or_insert(None);
            at = match at.rfind('/') {
                Some(i) => at[..i].to_string(),
                None => String::new(),
            };
        }
    }

    fn text(&self, path: &str) -> Option<String> {
        self.files.get(path).cloned().flatten()
    }

    fn is_file(&self, path: &str) -> bool {
        self.text(path).is_some()
    }

    fn is_dir(&self, path: &str) -> bool {
        self.files.get(path) == Some(&None)
    }

    fn stamp(&self, path: &str) -> Option<u64> {
        self.stamps.get(path).copied()
    }

    fn remove(&mut self, path: &str) {
        let under = format!("{path}/");
        self.files.retain(|p, _| p != path && !p.starts_with(&under));
    }

    fn copy(&mut self, from: &str, to: &str) {
        let under = format!("{from}/");
        let all: Vec<(String, Option<String>)> = self
            .files
            .iter()
            .filter(|(p, _)| *p == from || p.starts_with(&under))
            .map(|(p, t)| (format!("{to}{}", &p[from.len()..]), t.clone()))
            .collect();
        self.files.extend(all);
    }

    fn list(&self, dir: &str) -> Listing {
        let under = format!("{}/", dir.trim_end_matches('/'));
        let entries = self
            .files
            .iter()
            .filter(|(p, _)| p.starts_with(&under) && !p[under.len()..].contains('/'))
            .map(|(p, t)| (p[under.len()..].to_string(), t.is_none()))
            .collect();
        Listing { dir: dir.into(), entries }
    }

    fn open(&self, path: &str) -> Document {
        let text = self.text(path).unwrap_or_default();
        let mut d = Document::opened(path.into(), &text, self.stamp(path));
        if let Some(raw) = self.swaps.get(path) {
            d.swap_found = read_swap(raw, path).is_some_and(|t| t != text);
        }
        d
    }

    fn write_swap(&mut self, d: &mut Document) -> bool {
        let path = d.path.clone().unwrap();
        match d.write_swap(true, &path) {
            Some(body) => {
                self.swaps.insert(path, body);
                true
            }
            None => false,
        }
    }

    fn read_swap(&self, d: &Document) -> Option<String> {
        let path = d.path.clone()?;
        read_swap(self.swaps.get(&path)?, &path)
    }
}

fn editor_with(text: &str) -> Editor {
    let mut editor = Editor::new(vec![], (80, 24), &Config::default(), Options::default());
    editor.doc_mut().text = ropey::Rope::from_str(text);
    editor
}

fn show(editor: &mut Editor, disk: &Disk, path: &str, line: usize, col: usize) {
    let files: Vec<String> = (0..editor.desk.documents.len())
        .map(|i| editor.document(i).path.clone().unwrap_or_default())
        .collect();
    let at = match editor.open_buffer(path, path, &files) {
        Some(i) => i,
        None => editor.add_buffer(disk.open(path)),
    };
    editor.jump_to(at, line, col);
}

fn list(editor: &mut Editor, disk: &Disk, select: Option<&str>) {
    let listings: Vec<Listing> = match &editor.sidebar.tree {
        Some(t) => t.wanted().iter().map(|d| disk.list(d)).collect(),
        None => return,
    };
    editor.list_tree(&listings);
    if let Some(path) = select {
        editor.select_in_tree(path);
    }
}

/// Bring a file's row into view and highlight it.
fn point(editor: &mut Editor, disk: &Disk, path: &str) {
    editor.sidebar.tree.as_mut().unwrap().reveal_path(path);
    list(editor, disk, Some(path));
}

fn save_front(editor: &mut Editor, disk: &mut Disk, force: bool, quit: bool) {
    let path = editor.doc().path.clone().unwrap();
    match editor.may_save(force, disk.stamp(&path)) {
        Ok(()) => {
            disk.write(&path, &editor.doc().text.to_string());
            if editor.front_written(disk.stamp(&path), None, quit) {
                disk.swaps.remove(&path);
            }
        }
        Err(why) => editor.save_refused(why, quit),
    }
}

fn check_disk(editor: &mut Editor, disk: &Disk) -> bool {
    let seen: Vec<(Option<u64>, Reading)> = (0..editor.desk.documents.len())
        .map(|i| {
            let path = editor.document(i).path.clone().unwrap_or_default();
            let now = disk.stamp(&path);
            let read = match editor.disk_news(i, now) {
                DiskNews::Reload => match disk.text(&path) {
                    Some(text) => Reading::Text(text),
                    None => Reading::Failed("not a file".into()),
                },
                _ => Reading::Unread,
            };
            (now, read)
        })
        .collect();
    editor.check_disk(&seen)
}

fn perform(editor: &mut Editor, disk: &mut Disk, effect: Effect) {
    match effect {
        Effect::ListTree => list(editor, disk, None),
        Effect::TreeCreate { dir, name } => {
            let target = join_path(&dir, &name);
            if name.ends_with('/') {
                disk.make_dirs(&target);
            } else {
                disk.make_dirs(&parent(&target).unwrap());
                disk.write(&target, "");
            }
            editor.tree_created(&target, &name);
            list(editor, disk, Some(target.trim_end_matches('/')));
            editor.effects.clear();
        }
        Effect::TreeRename { path, name } => {
            if let Some(target) = rename_target(&path, &name) {
                if disk.files.contains_key(&target) {
                    editor.name_taken(&name);
                    return;
                }
                disk.copy(&path, &target);
                disk.remove(&path);
                editor.tree_renamed(&path, &target, &name);
                list(editor, disk, Some(&target));
                editor.effects.clear();
            }
        }
        Effect::TreeDelete { path } => {
            disk.remove(&path);
            editor.tree_deleted(&path);
        }
        Effect::TreePaste { path, cut, dir } => {
            let name = path.rsplit('/').next().unwrap().to_string();
            let target = join_path(&dir, &name);
            let there = disk.files.contains_key(&target);
            if let Some(why) = may_not_paste(&path, &dir, &name, there, disk.is_dir(&path)) {
                editor.set_status(&why);
                return;
            }
            disk.copy(&path, &target);
            if cut {
                disk.remove(&path);
            }
            editor.tree_pasted(&path, &target, &name, cut);
            list(editor, disk, Some(&target));
            editor.effects.clear();
        }
        Effect::Open { path, what } => match what {
            Opening::Jump { line, col } => show(editor, disk, &path, line, col),
            Opening::Recent => show(editor, disk, &path, 0, 0),
            Opening::Edit => editor.file_opened(&path, disk.open(&path)),
            Opening::Config => editor.config_opened(disk.open(&path)),
        },
        Effect::Save { force, quit } => save_front(editor, disk, force, quit),
        Effect::WriteAll => {
            let mut n = 0;
            for i in 0..editor.desk.documents.len() {
                if editor.needs_writing(i) {
                    let path = editor.document(i).path.clone().unwrap();
                    disk.write(&path, &editor.document(i).text.to_string());
                    let stamp = disk.stamp(&path);
                    editor.document_mut(i).save_done(stamp);
                    n += 1;
                }
            }
            editor.all_written(n, &vec![]);
        }
        Effect::Reload => {
            let path = editor.doc().path.clone().unwrap();
            let text = disk.text(&path).unwrap();
            editor.reloaded(&text, disk.stamp(&path));
        }
        Effect::Recover => {
            let text = disk.read_swap(editor.doc());
            editor.recover_swap(text);
        }
        Effect::CompletePath { dir, prefix } => {
            let entries = disk.list(&dir).entries;
            editor.complete_path(&prefix, &entries);
        }
        _ => {}
    }
}

fn settle(editor: &mut Editor, disk: &mut Disk) {
    loop {
        while editor.replay_next() {}
        let asked = std::mem::take(&mut editor.effects);
        if asked.is_empty() {
            return;
        }
        for effect in asked {
            perform(editor, disk, effect);
        }
    }
}

fn key(editor: &mut Editor, disk: &mut Disk, k: Key) {
    editor.handle_key(k);
    settle(editor, disk);
}

fn press(editor: &mut Editor, disk: &mut Disk, keys: &str) {
    for token in keys.split(' ').filter(|t| !t.is_empty()) {
        if token.len() > 1 && !token.contains('-') && !token.starts_with('<') {
            for c in token.chars() {
                key(editor, disk, Key::char(c));
            }
        } else {
            key(editor, disk, Key::parse(token).unwrap());
        }
    }
}

#[test]
fn opening_a_file_from_the_terminal_lands_in_a_text_window() {
    let mut disk = Disk::new();
    disk.write("/t/f.txt", "opened\n");
    let mut editor = editor_with("");
    press(&mut editor, &mut disk, "<space> t");
    press(&mut editor, &mut disk, "C-w :");
    for c in "e /t/f.txt".chars() {
        key(&mut editor, &mut disk, Key::char(c));
    }
    press(&mut editor, &mut disk, "<enter>");
    assert!(!editor.terminal_focused());
    assert_eq!(editor.keys.mode, Mode::Normal);
    assert_eq!(editor.doc().text.to_string(), "opened\n");
    editor.close_terminal();
}

#[test]
fn typing_a_path_pops_directory_completions() {
    let mut disk = Disk::new();
    disk.make_dirs("/t/d/sub");
    disk.write("/t/d/notes.txt", "");
    let mut editor = editor_with("");
    press(&mut editor, &mut disk, "i");
    for c in "/t/d/".chars() {
        key(&mut editor, &mut disk, Key::char(c));
    }
    let completion = editor.panes.completion.as_ref().expect("path menu popped");
    assert!(completion.items.iter().any(|(label, _)| label == "sub/"));
    assert!(completion
        .items
        .iter()
        .any(|(label, _)| label == "notes.txt"));
    press(&mut editor, &mut disk, "n");
    press(&mut editor, &mut disk, "<tab> <enter>");
    assert!(editor.doc().text.to_string().ends_with("/notes.txt"));
}

fn tree_editor(disk: &Disk) -> Editor {
    let mut editor = editor_with("");
    editor.sidebar.tree = Some(FileTree::new("/t".into()));
    editor.sidebar.focused = true;
    list(&mut editor, disk, None);
    editor
}

#[test]
fn tree_a_creates_and_d_deletes_files() {
    let mut disk = Disk::new();
    let mut editor = tree_editor(&disk);

    // a, type a name, Enter -> the file exists and is selected.
    press(&mut editor, &mut disk, "a");
    assert!(editor.sidebar.input.is_some());
    press(&mut editor, &mut disk, "notes.txt");
    press(&mut editor, &mut disk, "<enter>");
    assert!(disk.is_file("/t/notes.txt"));
    let tree = editor.sidebar.tree.as_ref().unwrap();
    assert_eq!(tree.selected_row().unwrap().name, "notes.txt");

    // Nested path: intermediate directories appear too.
    press(&mut editor, &mut disk, "a");
    press(&mut editor, &mut disk, "sub/deep.txt");
    press(&mut editor, &mut disk, "<enter>");
    assert!(disk.is_file("/t/sub/deep.txt"));

    // r renames, prefilled with the old name; buffers follow.
    point(&mut editor, &disk, "/t/notes.txt");
    press(&mut editor, &mut disk, "r");
    assert!(matches!(
        editor.sidebar.input,
        Some(TreeInput::Rename { .. })
    ));
    press(&mut editor, &mut disk, "<bs> <bs> <bs>"); // "notes.txt" -> "notes."
    press(&mut editor, &mut disk, "md");
    press(&mut editor, &mut disk, "<enter>"); // -> "notes.md"
    assert!(disk.is_file("/t/notes.md"));
    assert!(!disk.is_file("/t/notes.txt"));
    disk.copy("/t/notes.md", "/t/notes.txt");
    disk.remove("/t/notes.md");
    list(&mut editor, &disk, None);

    // d + n leaves the file alone; d + y removes it.
    point(&mut editor, &disk, "/t/notes.txt");
    press(&mut editor, &mut disk, "d");
    press(&mut editor, &mut disk, "n");
    assert!(disk.is_file("/t/notes.txt"));
    press(&mut editor, &mut disk, "d");
    press(&mut editor, &mut disk, "y");
    assert!(!disk.is_file("/t/notes.txt"));
}

#[test]
fn tree_cut_copy_paste_move_files() {
    let mut disk = Disk::new();
    disk.make_dirs("/t/sub");
    disk.write("/t/a.txt", "hi");
    let mut editor = tree_editor(&disk);

    // Copy a.txt into sub/: original stays.
    point(&mut editor, &disk, "/t/a.txt");
    press(&mut editor, &mut disk, "c");
    point(&mut editor, &disk, "/t/sub");
    press(&mut editor, &mut disk, "p");
    assert!(disk.is_file("/t/a.txt"));
    assert!(disk.is_file("/t/sub/a.txt"));
    // Copy clipboard survives; pasting where it exists errors, not clobbers.
    press(&mut editor, &mut disk, "p");
    assert!(editor.lines.status.contains("already exists"));

    // Cut sub/a.txt back to the root as a move (pasting beside b.txt).
    disk.remove("/t/a.txt");
    disk.write("/t/b.txt", "");
    point(&mut editor, &disk, "/t/sub/a.txt");
    press(&mut editor, &mut disk, "x");
    point(&mut editor, &disk, "/t/b.txt");
    press(&mut editor, &mut disk, "p");
    assert!(disk.is_file("/t/a.txt"));
    assert!(!disk.is_file("/t/sub/a.txt"));
    // Cut clipboard is spent.
    press(&mut editor, &mut disk, "p");
    assert!(editor.lines.status.contains("nothing"));

    // The root header row is a valid paste target.
    disk.write("/t/sub/c.txt", "");
    point(&mut editor, &disk, "/t/sub/c.txt");
    press(&mut editor, &mut disk, "x");
    editor.sidebar.tree.as_mut().unwrap().selected = 0; // the root row
    press(&mut editor, &mut disk, "p");
    assert!(disk.is_file("/t/c.txt"));
    assert!(!disk.is_file("/t/sub/c.txt"));
}

#[test]
fn an_unmodified_buffer_follows_its_file_and_a_modified_one_is_flagged() {
    let mut disk = Disk::new();
    disk.write("/t/w.txt", "one\ntwo\n");
    let mut editor = editor_with("");
    show(&mut editor, &disk, "/t/w.txt", 1, 0);
    disk.write("/t/w.txt", "one\nTWO\nthree\n");
    assert!(check_disk(&mut editor, &disk));
    assert_eq!(editor.doc().text.to_string(), "one\nTWO\nthree\n");
    assert!(!editor.doc().modified);
    assert_eq!(
        editor.doc().cursor_line(),
        1,
        "the cursor stays on its line"
    );
    press(&mut editor, &mut disk, "u");
    assert_eq!(
        editor.doc().text.to_string(),
        "one\ntwo\n",
        "a reload is undoable"
    );

    // Now with edits of our own: no reload, one warning.
    press(&mut editor, &mut disk, "A ! <esc>");
    disk.write("/t/w.txt", "theirs\n");
    assert!(check_disk(&mut editor, &disk));
    assert!(editor.lines.status.contains("changed on disk"));
    assert!(editor.doc().text.to_string().contains('!'));
    assert!(
        !check_disk(&mut editor, &disk),
        "flagged once, not every second"
    );
    press(&mut editor, &mut disk, ": e! <enter>");
    assert_eq!(editor.doc().text.to_string(), "theirs\n");
}

#[test]
fn swap_files_are_written_found_and_recovered() {
    let mut disk = Disk::new();
    disk.write("/t/s.txt", "saved\n");
    {
        let mut editor = editor_with("");
        show(&mut editor, &disk, "/t/s.txt", 0, 0);
        press(&mut editor, &mut disk, "A <space> unsaved <esc>");
        assert!(disk.write_swap(editor.doc_mut()));
        // A crash: no cleanup, the swap file stays.
    }
    let mut editor = editor_with("");
    show(&mut editor, &disk, "/t/s.txt", 0, 0);
    assert!(editor.doc().swap_found);
    assert!(editor.swap_notice());
    assert!(editor.lines.status.contains(":recover"));
    press(&mut editor, &mut disk, ": recover <enter>");
    assert_eq!(editor.doc().text.to_string(), "saved unsaved\n");
    assert!(editor.doc().modified);
    press(&mut editor, &mut disk, ": w <enter>");
    assert!(
        disk.read_swap(editor.doc()).is_none(),
        "writing clears the swap file"
    );
}

/// The recovery window has to survive both of the things that happen
/// next: typing, and quitting.
#[test]
fn an_unrecovered_swap_file_survives_editing_and_quitting() {
    let mut disk = Disk::new();
    disk.write("/t/k.txt", "saved\n");
    {
        let mut editor = editor_with("");
        show(&mut editor, &disk, "/t/k.txt", 0, 0);
        press(&mut editor, &mut disk, "A <space> precious <esc>");
        assert!(disk.write_swap(editor.doc_mut()));
    } // a crash: no cleanup

    let mut editor = editor_with("");
    show(&mut editor, &disk, "/t/k.txt", 0, 0);
    assert!(editor.doc().swap_found);
    // Typing before recovering must not overwrite what is there.
    press(&mut editor, &mut disk, "A x <esc>");
    assert!(!disk.write_swap(editor.doc_mut()));
    editor.swap_notice();
    assert_eq!(
        disk.read_swap(editor.doc()).as_deref(),
        Some("saved precious\n"),
        "the earlier session's text is still there to recover"
    );
    // Nor may quitting take it, even with nothing of our own unsaved.
    press(&mut editor, &mut disk, ": w <enter>");
    let front = editor.desk.current;
    assert!(!editor.drops_swap(front), "quitting keeps it");
    assert!(disk.read_swap(editor.doc()).is_some());

    // `:recover` and `:recover!` are the two ways it goes away.
    let text = disk.read_swap(editor.doc());
    editor.recover_swap(text);
    assert!(!editor.doc().swap_found);
    assert!(
        disk.write_swap(editor.doc_mut()),
        "now our own text is saved aside"
    );
}

/// `:w other.txt` leaves the file it came from; its swap file must not
/// stay behind offering that text for the old file.
#[test]
fn saving_under_a_new_name_takes_the_old_swap_file_with_it() {
    let mut disk = Disk::new();
    disk.write("/t/old.txt", "old\n");
    let mut editor = editor_with("");
    show(&mut editor, &disk, "/t/old.txt", 0, 0);
    press(&mut editor, &mut disk, "I X <esc>");
    assert!(disk.write_swap(editor.doc_mut()));
    let had = !editor.doc().swap_found;
    let moved = editor.doc_mut().save_as("/t/new.txt", false, false, false);
    assert!(matches!(moved, Ok(SaveAs::Moved)));
    assert!(had, "the old file's swap is our own, and goes");
    disk.swaps.remove("/t/old.txt");
    save_front(&mut editor, &mut disk, false, false);
    assert_eq!(disk.text("/t/new.txt").unwrap(), "Xold\n");

    let reopened = disk.open("/t/old.txt");
    assert!(!reopened.swap_found, "no stale swap for the file we left");
    assert!(disk.read_swap(&reopened).is_none());
}

#[test]
fn write_all_writes_every_modified_buffer() {
    let mut disk = Disk::new();
    disk.write("/t/a.txt", "a\n");
    disk.write("/t/b.txt", "b\n");
    let mut editor = editor_with("");
    show(&mut editor, &disk, "/t/a.txt", 0, 0);
    press(&mut editor, &mut disk, "A 1 <esc>");
    show(&mut editor, &disk, "/t/b.txt", 0, 0);
    press(&mut editor, &mut disk, "A 2 <esc>");
    press(&mut editor, &mut disk, ": wa <enter>");
    assert_eq!(disk.text("/t/a.txt").unwrap(), "a1\n");
    assert_eq!(disk.text("/t/b.txt").unwrap(), "b2\n");
    assert!(editor.lines.status.contains("2 buffers written"));
}

#[test]
fn a_file_that_cannot_be_read_again_is_mentioned_once() {
    let mut disk = Disk::new();
    disk.write("/t/f.txt", "x\n");
    let mut editor = editor_with("");
    show(&mut editor, &disk, "/t/f.txt", 0, 0);
    disk.write("/t/f.txt", "y\n");
    disk.files.insert("/t/f.txt".into(), None);
    assert!(check_disk(&mut editor, &disk));
    assert_eq!(editor.lines.status, "f.txt: not a file");
    assert!(!check_disk(&mut editor, &disk));
    assert_eq!(editor.doc().text.to_string(), "x\n");
}
