//! Edits that a language server answers with: of one buffer, and of a whole
//! project.

use serde_json::Value;
use vstd::prelude::*;
use crate::document::{
    applied, clamped, committed, lemma_line_parts, min_int, placed, ride, true_to_edits, DocView,
    Document,
};
use crate::edits::word_char;
use crate::json::{
    as_array, as_object, as_text, as_u64, at, copy, field, json_entries, json_of, jsons, text_of,
    u64_of, Json,
};
use crate::lsp::items_or_none;
use crate::lsp_parse::{deep, path_from_uri, path_of};
use crate::position::{utf16_char, utf16_to_char};
use crate::paths::{is_same_path, same_path};
use crate::strings::{char_is_alphanumeric, same};
use crate::text::{line_start, line_text, lines_in, rope_char, rope_len, rope_lines, rope_slice};
use crate::transaction::{
    change_ops, edit_views, edits_fit, law_change_makes_the_edits, law_mapped_in_bounds,
    Transaction,
};

verus! {

// ---- one buffer -----------------------------------------------------------------

/// The place that a position names; the end where its line is not in the text.
pub open spec fn offset_of(s: Seq<char>, pos: Json) -> Option<usize> {
    match (u64_of(field(pos, "line"@)), u64_of(field(pos, "character"@))) {
        (Some(line), Some(col)) => if (line as usize) >= lines_in(s) {
            Some(s.len() as usize)
        } else {
            Some(
                (line_start(s, (line as usize) as int) + utf16_char(
                    line_text(s, (line as usize) as int),
                    (col as usize) as int,
                )) as usize,
            )
        },
        _ => None,
    }
}

/// A change as (from, to, text).
pub open spec fn change_of(s: Seq<char>, e: Json) -> Option<(usize, usize, Seq<char>)> {
    let range = field(e, "range"@);
    match (
        offset_of(s, field(range, "start"@)),
        offset_of(s, field(range, "end"@)),
        text_of(field(e, "newText"@)),
    ) {
        (Some(a), Some(b), Some(t)) => if a <= b {
            Some((a, b, t))
        } else {
            Some((b, a, t))
        },
        _ => None,
    }
}

/// A change put in front of the first that starts, or then ends, after it.
pub open spec fn with_change(
    list: Seq<(usize, usize, Seq<char>)>,
    c: (usize, usize, Seq<char>),
    i: int,
) -> Seq<(usize, usize, Seq<char>)>
    decreases list.len() - i,
{
    if i < 0 || i >= list.len() || list[i].0 > c.0 || (list[i].0 == c.0 && list[i].1 > c.1) {
        list.take(i).push(c) + list.skip(i)
    } else {
        with_change(list, c, i + 1)
    }
}

pub open spec fn changes_upto(s: Seq<char>, edits: Seq<Json>, n: nat) -> Seq<
    (usize, usize, Seq<char>),
>
    decreases n,
{
    if n == 0 || n > edits.len() {
        Seq::empty()
    } else {
        let head = changes_upto(s, edits, (n - 1) as nat);
        match change_of(s, edits[n - 1]) {
            Some(c) => with_change(head, c, 0),
            None => head,
        }
    }
}

/// The changes from the `i`th on that do not reach back before `last`, each
/// after the one before.
pub open spec fn apart_from(list: Seq<(usize, usize, Seq<char>)>, i: int, last: usize) -> Seq<
    (int, int, Option<Seq<char>>),
>
    decreases list.len() - i,
{
    if i < 0 || i >= list.len() {
        Seq::empty()
    } else if list[i].0 >= last {
        seq![(list[i].0 as int, list[i].1 as int, Some(list[i].2))] + apart_from(
            list,
            i + 1,
            list[i].1,
        )
    } else {
        apart_from(list, i + 1, last)
    }
}

/// The edits that a server sent, in order; ones that overlap are dropped.
pub open spec fn server_edits(s: Seq<char>, edits: Seq<Json>) -> Seq<(int, int, Option<Seq<char>>)> {
    apart_from(changes_upto(s, edits, edits.len()), 0, 0)
}

/// The edits made, as one undo step of their own.
pub open spec fn server_edited(d: DocView, edits: Seq<Json>) -> DocView {
    let es = server_edits(d.text, edits);
    if es.len() == 0 {
        d
    } else {
        let ops = change_ops(es, d.text.len() as int);
        let a = applied(committed(d), ops, ride(ops, d.cursor));
        let b = DocView {
            anchor: min_int(ride(ops, d.anchor) as int, a.text.len() as int) as usize,
            ..a
        };
        committed(DocView { cursor: clamped(b.text, b.cursor as int, false) as usize, ..b })
    }
}

pub open spec fn change_list(v: Seq<(usize, usize, String)>) -> Seq<(usize, usize, Seq<char>)> {
    Seq::new(v.len(), |i: int| (v[i].0, v[i].1, v[i].2@))
}

pub open spec fn changes_in(v: Seq<(usize, usize, Seq<char>)>, len: int) -> bool {
    forall|i: int| 0 <= i < v.len() ==> (#[trigger] v[i]).0 <= v[i].1 <= len
}

fn put_change(list: &mut Vec<(usize, usize, String)>, c: (usize, usize, String), Ghost(len): Ghost<int>)
    requires
        changes_in(change_list(old(list)@), len),
        c.0 <= c.1 <= len,
    ensures
        change_list(final(list)@) == with_change(change_list(old(list)@), (c.0, c.1, c.2@), 0),
        changes_in(change_list(final(list)@), len),
{
    let ghost all = change_list(list@);
    let ghost had = list@;
    let ghost cv = (c.0, c.1, c.2@);
    let mut i: usize = 0;
    while i < list.len() && !(list[i].0 > c.0 || (list[i].0 == c.0 && list[i].1 > c.1))
        invariant
            i <= list@.len(),
            list@ == had,
            all == change_list(had),
            cv == (c.0, c.1, c.2@),
            with_change(all, cv, 0) == with_change(all, cv, i as int),
        decreases list@.len() - i,
    {
        i += 1;
    }
    list.insert(i, c);
    let ghost now = change_list(list@);
    assert(now =~= all.take(i as int).push(cv) + all.skip(i as int));
    assert forall|k: int| 0 <= k < now.len() implies (#[trigger] now[k]).0 <= now[k].1 <= len by {
        if k < i {
            assert(now[k] == all[k]);
        } else if k > i {
            assert(now[k] == all[k - 1]);
        }
    }
}

impl Document {
    fn offset_of(&self, pos: &Value) -> (r: Option<usize>)
        ensures
            r == offset_of(self@.text, json_of(*pos)),
            r is Some ==> r->0 <= self@.text.len(),
    {
        let line = match as_u64(at(pos, "line")) {
            Some(n) => crate::lsp_parse::to_size(n),
            None => {
                return None;
            },
        };
        let col = match as_u64(at(pos, "character")) {
            Some(n) => crate::lsp_parse::to_size(n),
            None => {
                return None;
            },
        };
        let len = rope_len(&self.text);
        if line >= rope_lines(&self.text) {
            return Some(len);
        }
        proof {
            lemma_line_parts(self@.text, line as int);
        }
        let l = self.line(line);
        Some(self.line_start(line) + utf16_to_char(l.as_slice(), col))
    }

    fn server_changes(&self, edits: &Vec<Value>) -> (r: Vec<(usize, usize, String)>)
        ensures
            change_list(r@) == changes_upto(self@.text, jsons(edits@), edits@.len()),
            changes_in(change_list(r@), self@.text.len() as int),
    {
        let ghost all = jsons(edits@);
        let mut out: Vec<(usize, usize, String)> = Vec::new();
        let mut i: usize = 0;
        assert(change_list(out@) =~= Seq::empty());
        while i < edits.len()
            invariant
                i <= edits@.len(),
                all == jsons(edits@),
                change_list(out@) == changes_upto(self@.text, all, i as nat),
                changes_in(change_list(out@), self@.text.len() as int),
            decreases edits@.len() - i,
        {
            assert(all[i as int] == json_of(edits@[i as int]));
            let range = at(&edits[i], "range");
            let from = self.offset_of(at(range, "start"));
            let to = self.offset_of(at(range, "end"));
            if let (Some(a), Some(b)) = (from, to) {
                if let Some(t) = as_text(at(&edits[i], "newText")) {
                    let c: (usize, usize, String) = if a <= b {
                        (a, b, t.to_owned())
                    } else {
                        (b, a, t.to_owned())
                    };
                    put_change(&mut out, c, Ghost(self@.text.len() as int));
                }
            }
            i += 1;
        }
        out
    }

    /// Make the edits that a server sent, as one undo step; false where there
    /// are none to make.
    pub fn apply_text_edits(&mut self, edits: &Vec<Value>) -> (changed: bool)
        requires
            placed(old(self)@),
        ensures
            changed == (server_edits(old(self)@.text, jsons(edits@)).len() > 0),
            final(self)@ == server_edited(old(self)@, jsons(edits@)),
            old(self).wf() ==> final(self).wf(),
            placed(final(self)@),
            true_to_edits(old(self)@) ==> true_to_edits(final(self)@),
    {
        let ghost d = self@;
        let list = self.server_changes(edits);
        let ghost all = change_list(list@);
        let ghost len = d.text.len() as int;
        let mut out: Vec<(usize, usize, Option<String>)> = Vec::new();
        let mut last: usize = 0;
        let mut i: usize = 0;
        assert(edit_views(out@) =~= Seq::empty());
        assert(edit_views(out@) + apart_from(all, 0, 0) =~= apart_from(all, 0, 0));
        while i < list.len()
            invariant
                i <= list@.len(),
                all == change_list(list@),
                changes_in(all, len),
                self@ == d,
                *self == *old(self),
                edit_views(out@) + apart_from(all, i as int, last) == apart_from(all, 0, 0),
                edits_fit(edit_views(out@), len),
                last <= len,
                forall|k: int|
                    0 <= k < out@.len() ==> (#[trigger] edit_views(out@)[k]).1 <= last,
            decreases list@.len() - i,
        {
            assert(all[i as int] == (list@[i as int].0, list@[i as int].1, list@[i as int].2@));
            if list[i].0 >= last {
                let ghost had = out@;
                let ghost was = last;
                let ghost new = (all[i as int].0 as int, all[i as int].1 as int, Some(all[i as int].2));
                out.push((list[i].0, list[i].1, Some(list[i].2.clone())));
                last = list[i].1;
                assert(edit_views(out@) =~= edit_views(had).push(new));
                assert(edit_views(out@) + apart_from(all, i + 1, last) =~= edit_views(had)
                    + apart_from(all, i as int, was));
                assert forall|k: int| 0 <= k < out@.len() implies (
                #[trigger] edit_views(out@)[k]).1 <= last by {
                    if k < had.len() {
                        assert(edit_views(had)[k].1 <= was);
                    }
                }
                assert forall|a: int, b: int| 0 <= a < b < out@.len() implies (
                #[trigger] edit_views(out@)[a]).1 <= (#[trigger] edit_views(out@)[b]).0 by {
                    if b < had.len() {
                        assert(edit_views(had)[a].1 <= edit_views(had)[b].0);
                    } else {
                        assert(edit_views(had)[a].1 <= was);
                    }
                }
                assert forall|k: int| 0 <= k < out@.len() implies 0 <= (
                #[trigger] edit_views(out@)[k]).0 <= edit_views(out@)[k].1 <= len by {
                    if k < had.len() {
                        assert(edit_views(had)[k].1 <= len);
                    }
                }
            }
            i += 1;
        }
        assert(edit_views(out@) =~= server_edits(d.text, jsons(edits@)));
        if out.len() == 0 {
            return false;
        }
        self.make_server_edits(out, Ghost(jsons(edits@)));
        true
    }

    fn make_server_edits(
        &mut self,
        edits: Vec<(usize, usize, Option<String>)>,
        Ghost(sent): Ghost<Seq<Json>>,
    )
        requires
            placed(old(self)@),
            edits@.len() > 0,
            edit_views(edits@) == server_edits(old(self)@.text, sent),
            edits_fit(edit_views(edits@), old(self)@.text.len() as int),
        ensures
            final(self)@ == server_edited(old(self)@, sent),
            old(self).wf() ==> final(self).wf(),
            placed(final(self)@),
            true_to_edits(old(self)@) ==> true_to_edits(final(self)@),
    {
        let ghost d = self@;
        let ghost views = edit_views(edits@);
        let tx = Transaction::change(&self.text, edits);
        proof {
            law_change_makes_the_edits(views, d.text);
            law_mapped_in_bounds(tx@, d.cursor as int, false, d.text);
            law_mapped_in_bounds(tx@, d.anchor as int, false, d.text);
        }
        let cursor = tx.map_pos(self.cursor, false);
        let anchor = tx.map_pos(self.anchor, false);
        self.commit_undo_group();
        self.apply(tx, cursor);
        let len = rope_len(&self.text);
        self.anchor = if anchor <= len {
            anchor
        } else {
            len
        };
        self.clamp_cursor(false);
        self.commit_undo_group();
    }
}

// ---- the name under the cursor --------------------------------------------------

pub open spec fn name_from(s: Seq<char>, i: int) -> int
    decreases i,
{
    if i <= 0 || i > s.len() || !word_char(s[i - 1]) {
        i
    } else {
        name_from(s, i - 1)
    }
}

pub open spec fn name_to(s: Seq<char>, i: int) -> int
    decreases s.len() - i,
{
    if i < 0 || i >= s.len() || !word_char(s[i]) {
        i
    } else {
        name_to(s, i + 1)
    }
}

/// The name that the cursor is on, or just behind; empty where there is none.
pub open spec fn name_at(s: Seq<char>, cursor: int) -> Seq<char> {
    let c = min_int(cursor, s.len() as int);
    let at = if c < s.len() && !word_char(s[c]) && c > 0 {
        c - 1
    } else {
        c
    };
    if at >= s.len() || !word_char(s[at]) {
        Seq::empty()
    } else {
        s.subrange(name_from(s, at), name_to(s, at))
    }
}

pub fn is_word_char(c: char) -> (r: bool)
    ensures
        r == word_char(c),
{
    char_is_alphanumeric(c) || c == '_'
}

impl Document {
    /// The name that the cursor is on.
    pub fn word_at_cursor(&self) -> (r: String)
        ensures
            r@ == name_at(self@.text, self@.cursor as int),
    {
        let len = rope_len(&self.text);
        let c: usize = if self.cursor <= len {
            self.cursor
        } else {
            len
        };
        let at: usize = if c < len && !is_word_char(rope_char(&self.text, c)) && c > 0 {
            c - 1
        } else {
            c
        };
        if at >= len || !is_word_char(rope_char(&self.text, at)) {
            let none = String::new();
            assert(none@ =~= Seq::empty());
            return none;
        }
        let mut a: usize = at;
        while a > 0 && is_word_char(rope_char(&self.text, a - 1))
            invariant
                a <= at < len == self@.text.len(),
                name_from(self@.text, at as int) == name_from(self@.text, a as int),
            decreases a,
        {
            a -= 1;
        }
        let mut b: usize = at;
        while b < len && is_word_char(rope_char(&self.text, b))
            invariant
                at <= b <= len == self@.text.len(),
                name_to(self@.text, at as int) == name_to(self@.text, b as int),
            decreases len - b,
        {
            b += 1;
        }
        rope_slice(&self.text, a, b)
    }
}

// ---- a whole project ------------------------------------------------------------

/// What a workspace edit does to files as a whole.
pub enum FileOp {
    Create(String),
    Rename(String, String),
    Delete(String),
}

pub enum FileOpView {
    Create(Seq<char>),
    Rename(Seq<char>, Seq<char>),
    Delete(Seq<char>),
}

impl View for FileOp {
    type V = FileOpView;

    open spec fn view(&self) -> FileOpView {
        match self {
            FileOp::Create(p) => FileOpView::Create(p@),
            FileOp::Rename(a, b) => FileOpView::Rename(a@, b@),
            FileOp::Delete(p) => FileOpView::Delete(p@),
        }
    }
}

pub open spec fn op_views(v: Seq<FileOp>) -> Seq<FileOpView> {
    Seq::new(v.len(), |i: int| v[i]@)
}

pub open spec fn file_at(j: Json) -> Option<Seq<char>> {
    match text_of(j) {
        Some(u) => path_of(u),
        None => None,
    }
}

/// What one change of a project does to a file as a whole.
pub open spec fn op_of(change: Json) -> Option<FileOpView> {
    let kind = text_of(field(change, "kind"@));
    if kind == Some("create"@) {
        match file_at(field(change, "uri"@)) {
            Some(p) => Some(FileOpView::Create(p)),
            None => None,
        }
    } else if kind == Some("rename"@) {
        match (file_at(field(change, "oldUri"@)), file_at(field(change, "newUri"@))) {
            (Some(a), Some(b)) => Some(FileOpView::Rename(a, b)),
            _ => None,
        }
    } else if kind == Some("delete"@) {
        match file_at(field(change, "uri"@)) {
            Some(p) => Some(FileOpView::Delete(p)),
            None => None,
        }
    } else {
        None
    }
}

/// The file that one change of a project edits, and the edits.
pub open spec fn edits_of(change: Json) -> Option<(Seq<char>, Seq<Json>)> {
    let kind = text_of(field(change, "kind"@));
    if kind == Some("create"@) || kind == Some("rename"@) || kind == Some("delete"@) {
        None
    } else {
        match file_at(deep(change, "textDocument"@, "uri"@)) {
            Some(p) => Some((p, items_or_none(field(change, "edits"@)))),
            None => None,
        }
    }
}

pub open spec fn ops_upto(changes: Seq<Json>, n: nat) -> Seq<FileOpView>
    decreases n,
{
    if n == 0 || n > changes.len() {
        Seq::empty()
    } else {
        let head = ops_upto(changes, (n - 1) as nat);
        match op_of(changes[n - 1]) {
            Some(op) => head.push(op),
            None => head,
        }
    }
}

/// Edits added to those of their file, or as the first of it: two entries for
/// one file are one set of edits against the text that the server saw.
pub open spec fn with_edits_of(
    files: Seq<(Seq<char>, Seq<Json>)>,
    path: Seq<char>,
    edits: Seq<Json>,
    i: int,
) -> Seq<(Seq<char>, Seq<Json>)>
    decreases files.len() - i,
{
    if i < 0 || i >= files.len() {
        files.push((path, edits))
    } else if same_path(files[i].0, path) {
        files.update(i, (files[i].0, files[i].1 + edits))
    } else {
        with_edits_of(files, path, edits, i + 1)
    }
}

/// The edits of the first `n` entries of a map from address to edits.
pub open spec fn map_edits(entries: Seq<(Seq<char>, Json)>, n: nat) -> Seq<(Seq<char>, Seq<Json>)>
    decreases n,
{
    if n == 0 || n > entries.len() {
        Seq::empty()
    } else {
        let head = map_edits(entries, (n - 1) as nat);
        match path_of(entries[n - 1].0) {
            Some(p) => with_edits_of(head, p, items_or_none(entries[n - 1].1), 0),
            None => head,
        }
    }
}

pub open spec fn list_edits(
    files: Seq<(Seq<char>, Seq<Json>)>,
    changes: Seq<Json>,
    n: nat,
) -> Seq<(Seq<char>, Seq<Json>)>
    decreases n,
{
    if n == 0 || n > changes.len() {
        files
    } else {
        let head = list_edits(files, changes, (n - 1) as nat);
        match edits_of(changes[n - 1]) {
            Some((p, es)) => with_edits_of(head, p, es, 0),
            None => head,
        }
    }
}

pub open spec fn entries_of(j: Json) -> Seq<(Seq<char>, Json)> {
    match j {
        Json::Object(e) => e,
        _ => Seq::empty(),
    }
}

/// What a workspace edit does to files as a whole.
pub open spec fn project_ops(edit: Json) -> Seq<FileOpView> {
    let changes = items_or_none(field(edit, "documentChanges"@));
    ops_upto(changes, changes.len())
}

/// The edits of a workspace edit, file by file.
pub open spec fn project_edits(edit: Json) -> Seq<(Seq<char>, Seq<Json>)> {
    let entries = entries_of(field(edit, "changes"@));
    let changes = items_or_none(field(edit, "documentChanges"@));
    list_edits(map_edits(entries, entries.len()), changes, changes.len())
}

pub open spec fn file_edit_views(v: Seq<(String, Vec<Value>)>) -> Seq<(Seq<char>, Seq<Json>)> {
    Seq::new(v.len(), |i: int| (v[i].0@, jsons(v[i].1@)))
}

/// A workspace edit taken apart.
pub struct ProjectEdit {
    pub ops: Vec<FileOp>,
    pub files: Vec<(String, Vec<Value>)>,
}

fn extend_values(out: &mut Vec<Value>, v: Vec<Value>)
    ensures
        jsons(final(out)@) == jsons(old(out)@) + jsons(v@),
{
    let ghost start = jsons(out@);
    let ghost all = jsons(v@);
    let mut i: usize = 0;
    assert(jsons(out@) =~= start + all.take(0));
    while i < v.len()
        invariant
            i <= v@.len(),
            all == jsons(v@),
            jsons(out@) == start + all.take(i as int),
        decreases v@.len() - i,
    {
        let ghost had = out@;
        let x = copy(&v[i]);
        assert(all[i as int] == json_of(x));
        out.push(x);
        assert(all.take(i + 1) =~= all.take(i as int).push(json_of(x)));
        assert(jsons(out@) =~= jsons(had).push(json_of(x)));
        assert(jsons(out@) =~= start + all.take(i + 1));
        i += 1;
    }
    assert(all.take(all.len() as int) =~= all);
}

fn put_edits(files: &mut Vec<(String, Vec<Value>)>, path: String, edits: Vec<Value>)
    ensures
        file_edit_views(final(files)@) == with_edits_of(
            file_edit_views(old(files)@),
            path@,
            jsons(edits@),
            0,
        ),
{
    let ghost all = file_edit_views(files@);
    let ghost had = files@;
    let ghost pv = path@;
    let ghost ev = jsons(edits@);
    let n: usize = files.len();
    let mut i: usize = 0;
    while i < n && !is_same_path(files[i].0.as_str(), path.as_str())
        invariant
            i <= n == files@.len(),
            files@ == had,
            pv == path@,
            all == file_edit_views(had),
            with_edits_of(all, pv, ev, 0) == with_edits_of(all, pv, ev, i as int),
        decreases n - i,
    {
        assert(all[i as int] == (files@[i as int].0@, jsons(files@[i as int].1@)));
        i += 1;
    }
    if i < n {
        assert(all[i as int] == (files@[i as int].0@, jsons(files@[i as int].1@)));
        let (p, mut es) = files.remove(i);
        extend_values(&mut es, edits);
        files.insert(i, (p, es));
        assert(file_edit_views(files@) =~= all.update(i as int, (all[i as int].0, all[i as int].1 + ev)));
    } else {
        files.push((path, edits));
        assert(file_edit_views(files@) =~= all.push((pv, ev)));
    }
}

fn read_file(v: &Value) -> (r: Option<String>)
    ensures
        crate::strings::opt_text(r) == file_at(json_of(*v)),
{
    match as_text(v) {
        Some(u) => path_from_uri(u),
        None => None,
    }
}

fn read_op(change: &Value) -> (r: Option<FileOp>)
    ensures
        match r {
            Some(op) => op_of(json_of(*change)) == Some(op@),
            None => op_of(json_of(*change)) is None,
        },
{
    let kind = match as_text(at(change, "kind")) {
        Some(k) => k,
        None => {
            return None;
        },
    };
    if same(kind, "create") {
        return match read_file(at(change, "uri")) {
            Some(p) => Some(FileOp::Create(p)),
            None => None,
        };
    }
    if same(kind, "rename") {
        return match (read_file(at(change, "oldUri")), read_file(at(change, "newUri"))) {
            (Some(a), Some(b)) => Some(FileOp::Rename(a, b)),
            _ => None,
        };
    }
    if same(kind, "delete") {
        return match read_file(at(change, "uri")) {
            Some(p) => Some(FileOp::Delete(p)),
            None => None,
        };
    }
    None
}

fn is_op(change: &Value) -> (r: bool)
    ensures
        r == ({
            let kind = text_of(field(json_of(*change), "kind"@));
            kind == Some("create"@) || kind == Some("rename"@) || kind == Some("delete"@)
        }),
{
    match as_text(at(change, "kind")) {
        Some(k) => same(k, "create") || same(k, "rename") || same(k, "delete"),
        None => false,
    }
}

/// Take a workspace edit apart: what it does to files as a whole, and the
/// edits of each.
pub fn read_workspace_edit(edit: &Value) -> (r: ProjectEdit)
    ensures
        op_views(r.ops@) == project_ops(json_of(*edit)),
        file_edit_views(r.files@) == project_edits(json_of(*edit)),
{
    let mut ops: Vec<FileOp> = Vec::new();
    let mut files: Vec<(String, Vec<Value>)> = Vec::new();
    assert(op_views(ops@) =~= Seq::empty());
    assert(file_edit_views(files@) =~= Seq::empty());
    if let Some(entries) = as_object(at(edit, "changes")) {
        let ghost all = json_entries(entries@);
        let mut i: usize = 0;
        while i < entries.len()
            invariant
                i <= entries@.len(),
                all == json_entries(entries@),
                file_edit_views(files@) == map_edits(all, i as nat),
            decreases entries@.len() - i,
        {
            assert(all[i as int] == (entries@[i as int].0@, json_of(entries@[i as int].1)));
            if let Some(p) = path_from_uri(entries[i].0.as_str()) {
                let es = crate::lsp::copy_items(&entries[i].1);
                put_edits(&mut files, p, es);
            }
            i += 1;
        }
    }
    let ghost base = file_edit_views(files@);
    if let Some(changes) = as_array(at(edit, "documentChanges")) {
        let ghost all = jsons(changes@);
        let mut i: usize = 0;
        while i < changes.len()
            invariant
                i <= changes@.len(),
                all == jsons(changes@),
                op_views(ops@) == ops_upto(all, i as nat),
                file_edit_views(files@) == list_edits(base, all, i as nat),
            decreases changes@.len() - i,
        {
            let change = &changes[i];
            assert(all[i as int] == json_of(*change));
            if let Some(op) = read_op(change) {
                let ghost had = ops@;
                let ghost ov = op@;
                ops.push(op);
                assert(op_views(ops@) =~= op_views(had).push(ov));
            }
            if !is_op(change) {
                if let Some(p) = read_file(at(at(change, "textDocument"), "uri")) {
                    let es = crate::lsp::copy_items(at(change, "edits"));
                    put_edits(&mut files, p, es);
                }
            }
            i += 1;
        }
    }
    ProjectEdit { ops, files }
}

} // verus!
