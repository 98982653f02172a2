//! Buffers and their files: what becomes of the editor once a file has been
//! opened, written, read again or formatted.

use vstd::prelude::*;
use crate::desk::{doc_ok, doc_views, in_front, lemma_doc_update, DeskView};
use crate::document::{
    clamped, doc_name, line_count, min_int, placed, replaced, save_allowed, save_error_text, saved,
    true_to_edits, DocView, Document, SaveError,
};
use crate::editor::{desk_sound, doc_of, on_doc, said, Editor, EditorView};
use crate::moves::jump_noted;
use crate::position::{utf16_char, utf16_to_char};
use crate::paths::{is_same_path, same_path};
use crate::strings::{
    decimal, join_texts, joined, lines, opt_text, push_lit, push_number, string_of,
    text_between, texts, with_text,
};
use crate::text::{line_start, line_text, rope_len};
use crate::windows::off_terminal;

verus! {

// ---- any buffer -------------------------------------------------------------------

pub open spec fn doc_at(e: EditorView, i: int) -> DocView {
    e.desk.docs[i]
}

pub open spec fn on_doc_at(e: EditorView, i: int, d: DocView) -> EditorView {
    EditorView { desk: DeskView { docs: e.desk.docs.update(i, d), ..e.desk }, ..e }
}

impl Editor {
    /// A buffer by its place, to change.
    pub fn document_mut(&mut self, i: usize) -> (r: &mut Document)
        requires
            old(self).wf(),
            i < old(self)@.desk.docs.len(),
        ensures
            r@ == doc_at(old(self)@, i as int),
            doc_ok(r@),
            final(self)@ == on_doc_at(old(self)@, i as int, final(r)@),
            doc_ok(final(r)@) ==> final(self).wf(),
    {
        broadcast use lemma_doc_update;

        reveal(desk_sound);
        &mut self.desk.documents[i]
    }

    /// A buffer by its place.
    pub fn document(&self, i: usize) -> (r: &Document)
        requires
            self.wf(),
            i < self@.desk.docs.len(),
        ensures
            r@ == doc_at(self@, i as int),
            doc_ok(r@),
    {
        reveal(desk_sound);
        &self.desk.documents[i]
    }
}

// ---- opening ----------------------------------------------------------------------

/// The first buffer from the `i`th on that shows a file: it has the path, or
/// its own file, by its absolute name, is the file of that name.
pub open spec fn buffer_from(
    docs: Seq<DocView>,
    files: Seq<Seq<char>>,
    path: Seq<char>,
    file: Seq<char>,
    i: int,
) -> Option<int>
    decreases docs.len() - i,
{
    if i < 0 || i >= docs.len() {
        None
    } else if docs[i].path is Some && (same_path(docs[i].path->0, path) || same_path(files[i], file)) {
        Some(i)
    } else {
        buffer_from(docs, files, path, file, i + 1)
    }
}

/// A buffer added behind the others.
pub open spec fn buffer_added(e: EditorView, d: DocView) -> EditorView {
    EditorView { desk: DeskView { docs: e.desk.docs.push(d), ..e.desk }, ..e }
}

/// A new buffer in front, with a text window to show it.
#[verifier::opaque]
pub open spec fn buffer_opened(e: EditorView, d: DocView, note: Seq<char>) -> EditorView {
    let a = buffer_added(off_terminal(e), d);
    said(
        EditorView { desk: in_front(a.desk, (a.desk.docs.len() - 1) as usize), ..a },
        note,
    )
}

/// A bare cursor at a line and a UTF-16 column.
#[verifier::opaque]
pub open spec fn at_place(d: DocView, line: usize, col: usize) -> DocView {
    let l = min_int(line as int, line_count(d.text) - 1);
    let at = line_start(d.text, l) + utf16_char(line_text(d.text, l), col as int);
    DocView {
        cursor: clamped(d.text, at, false) as usize,
        anchor: at as usize,
        goal_col: None,
        ..d
    }
}

/// A buffer shown at a line and a UTF-16 column, and the place left noted.
#[verifier::opaque]
pub open spec fn jumped_to(e: EditorView, i: usize, line: usize, col: usize) -> EditorView {
    if i >= e.desk.docs.len() {
        e
    } else {
        let l = off_terminal(jump_noted(e));
        let f = EditorView { desk: in_front(l.desk, i), ..l };
        on_doc(f, at_place(doc_of(f), line, col))
    }
}

impl Document {
    fn go_to_place(&mut self, line: usize, col: usize)
        requires
            doc_ok(old(self)@),
        ensures
            final(self)@ == at_place(old(self)@, line, col),
            doc_ok(final(self)@),
    {
        reveal(at_place);
        let ghost d = self@;
        let last = self.line_count() - 1;
        let l = if line <= last {
            line
        } else {
            last
        };
        let text = self.line(l);
        let off = utf16_to_char(text.as_slice(), col);
        proof {
            crate::document::lemma_line_parts(self@.text, l as int);
        }
        let len = rope_len(&self.text);
        let at = self.line_start(l) + off;
        self.cursor = at;
        self.anchor = at;
        self.goal_col = None;
        assert(self@.extra == d.extra);
        assert(placed(self@));
        self.clamp_cursor(false);
        assert(self@.extra == d.extra);
    }
}

impl Editor {
    /// The open buffer that shows a path, however it is spelled: `file` is its
    /// absolute name, and `files` are those of the buffers.
    pub fn open_buffer(&self, path: &str, file: &str, files: &Vec<String>) -> (r: Option<usize>)
        requires
            files@.len() == self@.desk.docs.len(),
        ensures
            match r {
                Some(i) => buffer_from(self@.desk.docs, texts(files@), path@, file@, 0) == Some(
                    i as int,
                ) && i < self@.desk.docs.len(),
                None => buffer_from(self@.desk.docs, texts(files@), path@, file@, 0) is None,
            },
    {
        let ghost docs = self@.desk.docs;
        let ghost names = texts(files@);
        let mut i: usize = 0;
        while i < self.desk.documents.len()
            invariant
                i <= docs.len(),
                docs == self@.desk.docs,
                names == texts(files@),
                docs.len() == self.desk.documents@.len(),
                files@.len() == docs.len(),
                buffer_from(docs, names, path@, file@, 0) == buffer_from(
                    docs,
                    names,
                    path@,
                    file@,
                    i as int,
                ),
            decreases docs.len() - i,
        {
            assert(docs[i as int] == self.desk.documents@[i as int]@);
            assert(names[i as int] == files@[i as int]@);
            if let Some(p) = &self.desk.documents[i].path {
                if is_same_path(p.as_str(), path) || is_same_path(files[i].as_str(), file) {
                    return Some(i);
                }
            }
            i += 1;
        }
        None
    }

    /// Add a buffer behind the others; its place.
    pub fn add_buffer(&mut self, d: Document) -> (i: usize)
        requires
            old(self).wf(),
            doc_ok(d@),
        ensures
            i == old(self)@.desk.docs.len(),
            final(self)@ == buffer_added(old(self)@, d@),
            final(self).wf(),
    {
        reveal(desk_sound);
        let ghost had = self.desk.documents@;
        let ghost v = d@;
        let i = self.desk.documents.len();
        self.desk.documents.push(d);
        assert(doc_views(self.desk.documents@) =~= doc_views(had).push(v));
        i
    }

    fn show_new(&mut self, d: Document, note: &str)
        requires
            old(self).wf(),
            doc_ok(d@),
        ensures
            final(self)@ == buffer_opened(old(self)@, d@, note@),
            final(self).wf(),
    {
        reveal(buffer_opened);
        self.leave_terminal_for_edit();
        let i = self.add_buffer(d);
        self.show_buffer(i);
        self.set_status(note);
    }

    /// A file asked for by name has been opened.
    pub fn file_opened(&mut self, path: &str, d: Document)
        requires
            old(self).wf(),
            doc_ok(d@),
        ensures
            final(self)@ == buffer_opened(old(self)@, d@, "\""@ + path@ + "\""@),
            final(self).wf(),
    {
        let m = text_between("\"", path, "\"");
        self.show_new(d, m.as_str());
    }

    /// The configuration has been opened.
    pub fn config_opened(&mut self, d: Document)
        requires
            old(self).wf(),
            doc_ok(d@),
        ensures
            final(self)@ == buffer_opened(
                old(self)@,
                d@,
                "editing crow.toml — :config! to reload it"@,
            ),
            final(self).wf(),
    {
        self.show_new(d, "editing crow.toml — :config! to reload it");
    }

    /// Show a buffer at a line and a UTF-16 column.
    pub fn jump_to(&mut self, i: usize, line: usize, col: usize)
        requires
            old(self).wf(),
        ensures
            final(self)@ == jumped_to(old(self)@, i, line, col),
            final(self).wf(),
    {
        reveal(jumped_to);
        if i >= self.buffers() {
            return ;
        }
        self.push_jump();
        self.leave_terminal_for_edit();
        self.show_buffer(i);
        self.doc_mut().go_to_place(line, col);
    }

    /// Something asked of the outside failed.
    pub fn say_error(&mut self, why: &str)
        requires
            old(self).wf(),
        ensures
            final(self)@ == said(old(self)@, "Error: "@ + why@),
            final(self).wf(),
    {
        let m = with_text("Error: ", why);
        self.set_status(m.as_str());
    }
}

// ---- writing ----------------------------------------------------------------------

#[verifier::opaque]
pub open spec fn written_text(name: Seq<char>, lines: nat, note: Option<Seq<char>>) -> Seq<char> {
    let done = "\""@ + name + "\" "@ + decimal(lines) + "L written"@;
    match note {
        Some(n) => done + " ("@ + n + ")"@,
        None => done,
    }
}

fn say_written(name: &str, lines: usize, note: &Option<String>) -> (r: String)
    ensures
        r@ == written_text(name@, lines as nat, opt_text(*note)),
{
    reveal(written_text);
    let mut v: Vec<char> = Vec::new();
    push_lit(&mut v, "\"");
    push_lit(&mut v, name);
    push_lit(&mut v, "\" ");
    push_number(&mut v, lines as u64);
    push_lit(&mut v, "L written");
    if let Some(n) = note {
        push_lit(&mut v, " (");
        push_lit(&mut v, n.as_str());
        push_lit(&mut v, ")");
    }
    assert(v@ =~= written_text(name@, lines as nat, opt_text(*note)));
    string_of(&v)
}

#[verifier::opaque]
pub open spec fn saved_doc(d: DocView, mtime: Option<u64>) -> DocView {
    saved(d, mtime)
}

/// Leaving once a write has been tried: with `quit`, and where the buffer in
/// front has nothing that is not on disk, whatever became of the write.
pub open spec fn left_when_saved(e: EditorView, quit: bool) -> EditorView {
    if quit && !doc_of(e).modified {
        EditorView { should_quit: true, ..e }
    } else {
        e
    }
}

/// The buffer in front written: it says so, with what the formatter had to
/// say; with `quit`, the editor is left.
#[verifier::opaque]
pub open spec fn front_saved(
    e: EditorView,
    mtime: Option<u64>,
    note: Option<Seq<char>>,
    quit: bool,
) -> EditorView {
    let s = on_doc(e, saved_doc(doc_of(e), mtime));
    left_when_saved(
        said(s, written_text(doc_name(doc_of(e)), line_count(doc_of(e).text) as nat, note)),
        quit,
    )
}

/// The buffer in front written to a file that was named.
#[verifier::opaque]
pub open spec fn named_saved(e: EditorView, path: Seq<char>, mtime: Option<u64>) -> EditorView {
    said(on_doc(e, saved_doc(doc_of(e), mtime)), "\""@ + path + "\" written"@)
}

/// A write of the buffer in front that failed: the file bears our mark.
#[verifier::opaque]
pub open spec fn write_lost(e: EditorView, mtime: Option<u64>, why: Seq<char>) -> EditorView {
    said(on_doc(e, DocView { disk_mtime: mtime, ..doc_of(e) }), "Error: "@ + why)
}

impl Document {
    pub(crate) fn mark_saved(&mut self, mtime: Option<u64>) -> (drop_swap: bool)
        requires
            doc_ok(old(self)@),
        ensures
            drop_swap == !old(self)@.swap_found,
            final(self)@ == saved_doc(old(self)@, mtime),
            doc_ok(final(self)@),
            true_to_edits(old(self)@) ==> true_to_edits(final(self)@),
    {
        reveal(saved_doc);
        let ghost d = self@;
        let r = self.save_done(mtime);
        assert(self@.extra == d.extra);
        r
    }
}

impl Editor {
    /// Whether the buffer in front may be written, given when its file was
    /// last changed.
    pub fn may_save(&self, force: bool, now: Option<u64>) -> (r: Result<(), SaveError>)
        requires
            self.wf(),
        ensures
            r == save_allowed(doc_of(self@), force, now),
    {
        self.doc().save(force, now)
    }

    fn saved_words(&self, note: &Option<String>) -> (r: String)
        requires
            self.wf(),
        ensures
            r@ == written_text(
                doc_name(doc_of(self@)),
                line_count(doc_of(self@).text) as nat,
                opt_text(*note),
            ),
    {
        let name = self.doc().name();
        say_written(name.as_str(), self.doc().line_count(), note)
    }

    /// The buffer in front has been written. True where its swap file is to
    /// go.
    pub fn front_written(&mut self, mtime: Option<u64>, note: Option<String>, quit: bool) -> (r:
        bool)
        requires
            old(self).wf(),
        ensures
            r == !doc_of(old(self)@).swap_found,
            final(self)@ == front_saved(old(self)@, mtime, opt_text(note), quit),
            final(self).wf(),
    {
        reveal(front_saved);
        let m = self.saved_words(&note);
        let r = self.doc_mut().mark_saved(mtime);
        self.set_status(m.as_str());
        self.leave_when_saved(quit);
        r
    }

    /// A write has been tried: with `quit`, leave where the buffer in front
    /// has nothing that is not on disk.
    fn leave_when_saved(&mut self, quit: bool)
        requires
            old(self).wf(),
        ensures
            final(self)@ == left_when_saved(old(self)@, quit),
            final(self).wf(),
    {
        if quit && !self.doc().modified {
            self.leave();
        }
    }

    /// The buffer in front may not be written. With `quit`, one that has
    /// nothing to write is left all the same.
    pub fn save_refused(&mut self, why: SaveError, quit: bool)
        requires
            old(self).wf(),
        ensures
            final(self)@ == left_when_saved(
                said(old(self)@, "Error: "@ + save_error_text(why)),
                quit,
            ),
            final(self).wf(),
    {
        self.say_error(why.text());
        self.leave_when_saved(quit);
    }

    fn note_write_lost(&mut self, mtime: Option<u64>, why: &str)
        requires
            old(self).wf(),
        ensures
            final(self)@ == write_lost(old(self)@, mtime, why@),
            final(self).wf(),
    {
        reveal(write_lost);
        self.doc_mut().mark_touched(mtime);
        self.say_error(why);
    }

    /// Writing the buffer in front has failed midway.
    pub fn write_failed(&mut self, mtime: Option<u64>, why: &str, quit: bool)
        requires
            old(self).wf(),
        ensures
            final(self)@ == left_when_saved(write_lost(old(self)@, mtime, why@), quit),
            final(self).wf(),
    {
        self.note_write_lost(mtime, why);
        self.leave_when_saved(quit);
    }

    /// The buffer in front has been written to a file that was named. True
    /// where its swap file is to go.
    pub fn written_as(&mut self, path: &str, mtime: Option<u64>) -> (r: bool)
        requires
            old(self).wf(),
        ensures
            r == !doc_of(old(self)@).swap_found,
            final(self)@ == named_saved(old(self)@, path@, mtime),
            final(self).wf(),
    {
        reveal(named_saved);
        let m = text_between("\"", path, "\" written");
        let r = self.doc_mut().mark_saved(mtime);
        self.set_status(m.as_str());
        r
    }
}

// ---- all of them ------------------------------------------------------------------

/// Whether writing everything writes a buffer.
pub open spec fn to_write(d: DocView) -> bool {
    d.modified && d.path is Some
}

#[verifier::opaque]
pub open spec fn write_all_text(n: nat, failed: Seq<Seq<char>>) -> Seq<char> {
    if failed.len() > 0 {
        "not written: "@ + joined(failed, ", "@, failed.len()) + " (:w! each to overwrite)"@
    } else if n == 0 {
        "nothing to write"@
    } else if n == 1 {
        "1 buffer written"@
    } else {
        decimal(n) + " buffers written"@
    }
}

fn say_write_all(n: usize, failed: &Vec<String>) -> (r: String)
    ensures
        r@ == write_all_text(n as nat, texts(failed@)),
{
    reveal(write_all_text);
    assert(texts(failed@).len() == failed@.len());
    if failed.len() > 0 {
        let list = join_texts(failed, ", ");
        return text_between("not written: ", list.as_str(), " (:w! each to overwrite)");
    }
    if n == 0 {
        return "nothing to write".to_owned();
    }
    if n == 1 {
        return "1 buffer written".to_owned();
    }
    let mut v: Vec<char> = Vec::new();
    push_number(&mut v, n as u64);
    push_lit(&mut v, " buffers written");
    assert(v@ =~= write_all_text(n as nat, texts(failed@)));
    string_of(&v)
}

impl Editor {
    /// Whether writing everything writes a buffer.
    pub fn needs_writing(&self, i: usize) -> (r: bool)
        requires
            self.wf(),
            i < self@.desk.docs.len(),
        ensures
            r == to_write(doc_at(self@, i as int)),
    {
        let d = self.document(i);
        d.modified && d.path.is_some()
    }

    /// Everything has been written: so many buffers, and those that were not.
    pub fn all_written(&mut self, n: usize, failed: &Vec<String>)
        requires
            old(self).wf(),
        ensures
            final(self)@ == said(old(self)@, write_all_text(n as nat, texts(failed@))),
            final(self).wf(),
    {
        let m = say_write_all(n, failed);
        self.set_status(m.as_str());
    }
}

// ---- reading again ----------------------------------------------------------------

#[verifier::opaque]
pub open spec fn reread(d: DocView, new: Seq<char>, mtime: Option<u64>) -> DocView {
    let r = replaced(d, new);
    DocView { modified: false, disk_mtime: mtime, disk_conflict: None, ..r }
}

/// The buffer in front made to read what its file holds, as was asked.
#[verifier::opaque]
pub open spec fn front_reread(e: EditorView, new: Seq<char>, mtime: Option<u64>) -> EditorView {
    said(
        on_doc(e, reread(doc_of(e), new, mtime)),
        if doc_of(e).text != new {
            "reloaded from disk (u undoes)"@
        } else {
            "already the same as the file on disk"@
        },
    )
}

/// What a changed file means to its buffer.
#[derive(Clone, Copy, PartialEq, Eq, Structural, Debug)]
pub enum DiskNews {
    /// Nothing changed that was not known.
    Nothing,
    /// It is to be read again.
    Reload,
    /// It has changed under edits of one's own.
    Conflict,
    /// That was said already.
    Known,
}

pub open spec fn disk_news_of(d: DocView, now: Option<u64>, auto_reload: bool) -> DiskNews {
    if d.path is None || now is None || d.disk_mtime is None || d.disk_mtime == now {
        DiskNews::Nothing
    } else if !d.modified && auto_reload {
        DiskNews::Reload
    } else if d.disk_conflict == now {
        DiskNews::Known
    } else {
        DiskNews::Conflict
    }
}

impl Editor {
    /// What a file's time of change means to its buffer.
    pub fn disk_news(&self, i: usize, now: Option<u64>) -> (r: DiskNews)
        requires
            self.wf(),
            i < self@.desk.docs.len(),
        ensures
            r == disk_news_of(doc_at(self@, i as int), now, self@.options.auto_reload),
    {
        let d = self.document(i);
        let t = match now {
            Some(t) => t,
            None => {
                return DiskNews::Nothing;
            },
        };
        if d.path.is_none() {
            return DiskNews::Nothing;
        }
        let known = match d.disk_mtime {
            Some(m) => m == t,
            None => true,
        };
        if known {
            return DiskNews::Nothing;
        }
        if !d.modified && self.options.auto_reload {
            return DiskNews::Reload;
        }
        let told = match d.disk_conflict {
            Some(m) => m == t,
            None => false,
        };
        if told {
            DiskNews::Known
        } else {
            DiskNews::Conflict
        }
    }

    fn mark_conflict(&mut self, i: usize, now: Option<u64>)
        requires
            old(self).wf(),
            i < old(self)@.desk.docs.len(),
        ensures
            final(self)@ == on_doc_at(
                old(self)@,
                i as int,
                DocView { disk_conflict: now, ..doc_at(old(self)@, i as int) },
            ),
            final(self).wf(),
    {
        self.document_mut(i).set_conflict(now);
    }

    /// A file has changed under edits of one's own: what to say of it.
    pub fn disk_conflict(&mut self, i: usize, now: Option<u64>) -> (note: String)
        requires
            old(self).wf(),
            i < old(self)@.desk.docs.len(),
        ensures
            note@ == doc_name(doc_at(old(self)@, i as int))
                + " changed on disk — :e! loads it, :w! keeps yours"@,
            final(self)@ == on_doc_at(
                old(self)@,
                i as int,
                DocView { disk_conflict: now, ..doc_at(old(self)@, i as int) },
            ),
            final(self).wf(),
    {
        let name = self.document(i).name();
        self.mark_conflict(i, now);
        with_text(name.as_str(), " changed on disk — :e! loads it, :w! keeps yours")
    }

    /// A file that has changed could not be read again: what to say of it, the
    /// first time.
    pub fn disk_unreadable(&mut self, i: usize, now: Option<u64>, why: &str) -> (note: Option<
        String,
    >)
        requires
            old(self).wf(),
            i < old(self)@.desk.docs.len(),
        ensures
            opt_text(note) == (if doc_at(old(self)@, i as int).disk_conflict == now {
                None
            } else {
                Some(doc_name(doc_at(old(self)@, i as int)) + ": "@ + why@)
            }),
            final(self)@ == (if doc_at(old(self)@, i as int).disk_conflict == now {
                old(self)@
            } else {
                on_doc_at(
                    old(self)@,
                    i as int,
                    DocView { disk_conflict: now, ..doc_at(old(self)@, i as int) },
                )
            }),
            final(self).wf(),
    {
        let told = match (self.document(i).disk_conflict, now) {
            (Some(a), Some(b)) => a == b,
            (None, None) => true,
            _ => false,
        };
        if told {
            return None;
        }
        let name = self.document(i).name();
        self.mark_conflict(i, now);
        Some(text_between(name.as_str(), ": ", why))
    }

    /// Take in a file's text that has been read again. True where it differs.
    pub fn reread_buffer(&mut self, i: usize, new: &str, mtime: Option<u64>) -> (changed: bool)
        requires
            old(self).wf(),
            i < old(self)@.desk.docs.len(),
        ensures
            changed == (doc_at(old(self)@, i as int).text != new@),
            final(self)@ == on_doc_at(
                old(self)@,
                i as int,
                reread(doc_at(old(self)@, i as int), new@, mtime),
            ),
            final(self).wf(),
    {
        self.document_mut(i).reread(new, mtime)
    }

    /// The file of the buffer in front has been read again, as was asked.
    pub fn reloaded(&mut self, new: &str, mtime: Option<u64>)
        requires
            old(self).wf(),
        ensures
            final(self)@ == front_reread(old(self)@, new@, mtime),
            final(self).wf(),
    {
        reveal(front_reread);
        let changed = self.doc_mut().reread(new, mtime);
        self.set_status(
            if changed {
                "reloaded from disk (u undoes)"
            } else {
                "already the same as the file on disk"
            },
        );
    }

    /// What is said of a file that was read again.
    pub fn reload_note(&self, i: usize) -> (note: String)
        requires
            self.wf(),
            i < self@.desk.docs.len(),
        ensures
            note@ == doc_name(doc_at(self@, i as int)) + " reloaded from disk (u undoes)"@,
    {
        let name = self.document(i).name();
        with_text(name.as_str(), " reloaded from disk (u undoes)")
    }

    /// Say what became of the files; false where there is nothing to say.
    pub fn say_notes(&mut self, notes: &Vec<String>) -> (r: bool)
        requires
            old(self).wf(),
        ensures
            r == (notes@.len() > 0),
            final(self)@ == (if r {
                said(old(self)@, joined(texts(notes@), "; "@, notes@.len()))
            } else {
                old(self)@
            }),
            final(self).wf(),
    {
        if notes.len() == 0 {
            return false;
        }
        let m = join_texts(notes, "; ");
        self.set_status(m.as_str());
        true
    }
}

impl Document {
    pub(crate) fn mark_touched(&mut self, mtime: Option<u64>)
        requires
            doc_ok(old(self)@),
        ensures
            final(self)@ == (DocView { disk_mtime: mtime, ..old(self)@ }),
            doc_ok(final(self)@),
            true_to_edits(old(self)@) ==> true_to_edits(final(self)@),
    {
        let ghost d = self@;
        self.save_failed(mtime);
        assert(self@.extra == d.extra);
    }

    fn set_conflict(&mut self, now: Option<u64>)
        requires
            doc_ok(old(self)@),
        ensures
            final(self)@ == (DocView { disk_conflict: now, ..old(self)@ }),
            doc_ok(final(self)@),
    {
        let ghost d = self@;
        self.disk_conflict = now;
        assert(self@.extra == d.extra);
    }

    fn reread(&mut self, new: &str, mtime: Option<u64>) -> (changed: bool)
        requires
            doc_ok(old(self)@),
        ensures
            changed == (old(self)@.text != new@),
            final(self)@ == reread(old(self)@, new@, mtime),
            doc_ok(final(self)@),
    {
        reveal(reread);
        let r = self.reload(new, mtime);
        r
    }
}

} // verus!
