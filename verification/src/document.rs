//! A single open buffer: its text, its cursor, its undo history, and its
//! scroll position.

use ropey::Rope;
use vstd::prelude::*;
use crate::position::{
    capped_col, char_to_display_col, cluster_floor, display_col, display_col_between, floor_boundary,
    ints, row_col, wrap_offsets, wrapped_rows,
};
use serde_json::Value;
use crate::json::{
    as_array, as_text, as_u64, at, entry_from, field, from_array, from_entries, from_text, from_u64,
    json_entries, json_of, json_read, jsons, member, number_json, parse_json, plain_json, text_of,
    u64_of, Json,
};
use crate::strings::{
    chars_of, find_last, first_from, last_before, lemma_first_from, opt_text, pieces, push_lit, same,
    slices, spells, split_at_char, split_in_two, split_once, string_of, strip_prefix, without_prefix,
};
use crate::text::{
    content_len, lemma_line_bounds, lemma_line_of_grows, lemma_line_start, lemma_line_start_grows, lemma_utf16_grows,
    line_len_without_newline, line_of, line_start, line_text, lines_in, rope_chars, rope_len,
    rope_line, rope_line_of, rope_line_start, rope_lines, rope_new, rope_string, rope_utf16,
    utf16_upto,
};
use crate::transaction::{
    capped, change_ops, change_views, changes_of, count_of, counts_fit, edit_text, edit_views, edited, edits_fit,
    input_from, input_len, inverse, keeps_all, law_change_makes_the_edits, law_changes_give_the_edit,
    law_inverse_restores, law_json_round_trip, mapped, ops_json, ops_of, ChangeView, Op, OpView,
    with_edits, Transaction,
};
use vstd::string::StringSliceAdditionalSpecFns;
use vstd::utf8::encode_utf8;

verus! {

/// One reversible step in the undo history.
///
/// Entries carry a `group` id. Undo pops every entry sharing the id of the
/// entry on top, which is how a whole insert-mode session collapses into a
/// single undo step without having to compose transactions.
pub struct HistoryEntry {
    pub forward: Transaction,
    pub inverse: Transaction,
    pub cursor_before: usize,
    pub cursor_after: usize,
    pub group: usize,
}

pub struct EntryView {
    pub forward: Seq<OpView>,
    pub inverse: Seq<OpView>,
    pub cursor_before: usize,
    pub cursor_after: usize,
    pub group: usize,
}

impl View for HistoryEntry {
    type V = EntryView;

    open spec fn view(&self) -> EntryView {
        EntryView {
            forward: self.forward@,
            inverse: self.inverse@,
            cursor_before: self.cursor_before,
            cursor_after: self.cursor_after,
            group: self.group,
        }
    }
}

pub open spec fn entry_views(v: Seq<HistoryEntry>) -> Seq<EntryView> {
    Seq::new(v.len(), |i: int| v[i]@)
}

/// One edit as the language server wants to hear about it: a range in the
/// text as the server last saw it, in (line, UTF-16 column), and what replaces
/// it. Changes are logged in the order they must be applied.
#[derive(Debug, PartialEq, Eq)]
pub struct LspChange {
    pub start: (usize, usize),
    pub end: (usize, usize),
    pub text: String,
}

pub struct LspChangeView {
    pub start: (usize, usize),
    pub end: (usize, usize),
    pub text: Seq<char>,
}

impl View for LspChange {
    type V = LspChangeView;

    open spec fn view(&self) -> LspChangeView {
        LspChangeView { start: self.start, end: self.end, text: self.text@ }
    }
}

pub open spec fn lsp_views(v: Seq<LspChange>) -> Seq<LspChangeView> {
    Seq::new(v.len(), |i: int| v[i]@)
}

/// More logged changes than this and a full resync is cheaper to send.
pub const LSP_LOG_CAP: usize = 2000;

/// Undo entries kept in the persistent undo file; older ones are dropped.
pub const UNDO_FILE_ENTRIES: usize = 1000;

pub struct Document {
    pub text: Rope,
    pub path: Option<String>,
    /// Canonical cursor position: a char index into `text`.
    pub cursor: usize,
    /// Other end of the selection. Equal to `cursor` when nothing is selected;
    /// selecting motions leave it behind, everything else drags it along.
    pub anchor: usize,
    /// Non-primary selections, as (anchor, cursor) pairs. Every transaction
    /// remaps them in `apply`, so they survive edits made by any cursor.
    pub extra: Vec<(usize, usize)>,
    /// The coloring is stale and must be rebuilt before anything reads it.
    pub syntax_dirty: bool,
    /// Bumped on every text change; lets the LSP layer notice edits.
    pub revision: u64,
    /// Sticky display column for vertical motion, so moving down through a
    /// short line and back out does not lose the original column.
    pub goal_col: Option<usize>,
    pub modified: bool,
    /// The file's modification time as we last saw it, stamped when we read it
    /// and again after each of our own writes. `None` means there was no file,
    /// or the filesystem would not say. A write refuses when disk disagrees.
    pub disk_mtime: Option<u64>,
    /// A modification time we've already told the user about, so a modified
    /// buffer whose file changed on disk is flagged once rather than on every
    /// check.
    pub disk_conflict: Option<u64>,
    /// Edits since the language server was last synced (see `LspChange`),
    /// starting from revision `lsp_base`. `lsp_overflow` means the log was
    /// abandoned and the next sync must send the whole text.
    pub lsp_log: Vec<LspChange>,
    pub lsp_base: u64,
    pub lsp_overflow: bool,
    /// The revision last written to this buffer's swap file.
    pub swap_revision: u64,
    /// An earlier session left a swap file here that differs from the file.
    pub swap_found: bool,
    /// The user has been told about `swap_found`.
    pub swap_notified: bool,
    /// First visible line.
    pub view_line: usize,
    /// Visual row of `view_line` drawn first. Always 0 without soft wrap; with
    /// it, a single line can be taller than the screen, so the viewport has to
    /// be able to start inside a line.
    pub view_row: usize,
    /// Horizontal scroll, in display columns.
    pub view_col: usize,
    pub history: Vec<HistoryEntry>,
    pub redo_stack: Vec<HistoryEntry>,
    pub group: usize,
}

/// What a document holds, over mathematical sequences.
pub struct DocView {
    pub text: Seq<char>,
    pub path: Option<Seq<char>>,
    pub cursor: usize,
    pub anchor: usize,
    pub extra: Seq<(usize, usize)>,
    pub syntax_dirty: bool,
    pub revision: u64,
    pub goal_col: Option<usize>,
    pub modified: bool,
    pub disk_mtime: Option<u64>,
    pub disk_conflict: Option<u64>,
    pub lsp_log: Seq<LspChangeView>,
    pub lsp_base: u64,
    pub lsp_overflow: bool,
    pub swap_revision: u64,
    pub swap_found: bool,
    pub swap_notified: bool,
    pub view_line: usize,
    pub view_row: usize,
    pub view_col: usize,
    pub history: Seq<EntryView>,
    pub redo_stack: Seq<EntryView>,
    pub group: usize,
}

impl View for Document {
    type V = DocView;

    open spec fn view(&self) -> DocView {
        DocView {
            text: rope_chars(self.text),
            path: opt_text(self.path),
            cursor: self.cursor,
            anchor: self.anchor,
            extra: self.extra@,
            syntax_dirty: self.syntax_dirty,
            revision: self.revision,
            goal_col: self.goal_col,
            modified: self.modified,
            disk_mtime: self.disk_mtime,
            disk_conflict: self.disk_conflict,
            lsp_log: lsp_views(self.lsp_log@),
            lsp_base: self.lsp_base,
            lsp_overflow: self.lsp_overflow,
            swap_revision: self.swap_revision,
            swap_found: self.swap_found,
            swap_notified: self.swap_notified,
            view_line: self.view_line,
            view_row: self.view_row,
            view_col: self.view_col,
            history: entry_views(self.history@),
            redo_stack: entry_views(self.redo_stack@),
            group: self.group,
        }
    }
}

// ---- lines ------------------------------------------------------------------

pub open spec fn min_int(a: int, b: int) -> int {
    if a <= b {
        a
    } else {
        b
    }
}

pub open spec fn max_int(a: int, b: int) -> int {
    if a >= b {
        a
    } else {
        b
    }
}

/// The lines of a text, not counting the phantom empty line after a trailing
/// line break.
pub open spec fn line_count(s: Seq<char>) -> int {
    let n = lines_in(s) as int;
    if n > 1 && line_start(s, n - 1) == s.len() {
        n - 1
    } else {
        n
    }
}

/// A line without its ending; nothing for a line that is not there.
pub open spec fn line_content(s: Seq<char>, line: int) -> Seq<char> {
    line_text(s, line).take(content_len(line_text(s, line)))
}

/// The length of a line, excluding its ending.
pub open spec fn line_len(s: Seq<char>, line: int) -> int {
    if line >= lines_in(s) {
        0
    } else {
        content_len(line_text(s, line))
    }
}

pub open spec fn line_end(s: Seq<char>, line: int) -> int {
    line_start(s, line) + line_len(s, line)
}

/// The line a cursor is on; one just past a trailing line break is on the
/// last real line.
pub open spec fn cursor_line(s: Seq<char>, cursor: int) -> int {
    min_int(line_of(s, min_int(cursor, s.len() as int)) as int, line_count(s) - 1)
}

/// The cursor's place once it is kept within the text and its line: on a
/// character of it, or, where that is allowed, also behind the last one.
pub open spec fn clamped(s: Seq<char>, cursor: int, past_end: bool) -> int {
    let c = min_int(cursor, s.len() as int);
    let line = cursor_line(s, c);
    let len = line_len(s, line);
    let limit = line_start(s, line) + if past_end || len == 0 {
        len
    } else {
        len - 1
    };
    if past_end {
        min_int(c, limit)
    } else {
        cluster_start(s, min_int(c, limit))
    }
}

/// Where the cluster that a place of a line is in starts. The end of a line,
/// and what lies behind it, is in none.
#[verifier::opaque]
pub open spec fn cluster_start(s: Seq<char>, c: int) -> int {
    let line = cursor_line(s, c);
    let start = line_start(s, line);
    if start <= c < line_end(s, line) {
        start + floor_boundary(line_content(s, line), c - start)
    } else {
        c
    }
}

/// Whether a cursor is where a cluster of its line starts, or at the end of
/// the line or behind it: not inside a cluster.
pub open spec fn off_clusters(s: Seq<char>, c: int) -> bool {
    cluster_start(s, c) == c
}

/// The start of a cluster is on the line, not behind the place it is the
/// start for, and inside no cluster.
pub proof fn lemma_cluster_start(s: Seq<char>, c: int)
    requires
        0 <= c,
    ensures
        0 <= cluster_start(s, c) <= c,
        off_clusters(s, cluster_start(s, c)),
        cursor_line(s, cluster_start(s, c)) == cursor_line(s, c),
{
    reveal(cluster_start);
    let line = cursor_line(s, c);
    let start = line_start(s, line);
    lemma_cursor_line(s, c);
    lemma_line_start(s, line);
    lemma_line_count(s);
    lemma_line_parts(s, line);
    if start <= c < line_end(s, line) {
        let content = line_content(s, line);
        crate::position::lemma_floor_from(
            crate::position::cluster_lengths(content),
            0,
            0,
            c - start,
        );
        let at = cluster_start(s, c);
        lemma_line_of_grows(s, start, at);
        lemma_line_of_grows(s, at, c);
    }
}

pub proof fn lemma_clamped(s: Seq<char>, c: int)
    requires
        0 <= c,
    ensures
        0 <= clamped(s, c, false) <= s.len(),
        clamped(s, c, false) <= c,
        off_clusters(s, clamped(s, c, false)),
{
    let at = min_int(c, s.len() as int);
    let line = cursor_line(s, at);
    lemma_cursor_line(s, at);
    lemma_line_count(s);
    lemma_line_parts(s, line);
    let len = line_len(s, line);
    let limit = line_start(s, line) + if len == 0 {
        len
    } else {
        len - 1
    };
    lemma_cluster_start(s, min_int(at, limit));
}

pub proof fn lemma_line_count(s: Seq<char>)
    ensures
        1 <= line_count(s) <= lines_in(s),
        line_count(s) < lines_in(s) ==> line_start(s, line_count(s)) == s.len(),
{
}

/// A line and its parts lie within the text.
pub proof fn lemma_line_parts(s: Seq<char>, line: int)
    requires
        0 <= line < lines_in(s),
    ensures
        0 <= line_start(s, line) <= line_start(s, line + 1) <= s.len(),
        line_text(s, line).len() == line_start(s, line + 1) - line_start(s, line),
        0 <= line_len(s, line) <= line_text(s, line).len(),
        line_start(s, line) <= line_end(s, line) <= s.len(),
        line_content(s, line).len() == line_len(s, line),
        line_content(s, line) == s.subrange(line_start(s, line), line_end(s, line)),
{
    lemma_line_start(s, line);
    lemma_line_start(s, line + 1);
    lemma_line_start_grows(s, line, line + 1);
    assert(line_content(s, line) =~= s.subrange(line_start(s, line), line_end(s, line)));
}

/// The cursor's line is there, and starts at or before the cursor.
pub proof fn lemma_cursor_line(s: Seq<char>, cursor: int)
    requires
        0 <= cursor,
    ensures
        0 <= cursor_line(s, cursor) < line_count(s),
        line_start(s, cursor_line(s, cursor)) <= min_int(cursor, s.len() as int),
{
    let c = min_int(cursor, s.len() as int);
    lemma_line_bounds(s, c);
    lemma_line_count(s);
    lemma_line_start_grows(s, cursor_line(s, cursor), line_of(s, c) as int);
}

// ---- undo history -----------------------------------------------------------

/// How long a text the steps from `i` on leave.
pub open spec fn output_from(ops: Seq<OpView>, i: int) -> nat
    decreases ops.len() - i,
{
    if i < 0 || i >= ops.len() {
        0
    } else {
        output_from(ops, i + 1) + match ops[i] {
            OpView::Retain(n) => n,
            OpView::Delete(_) => 0,
            OpView::Insert(t) => t.len(),
        }
    }
}

/// How long a text the transaction leaves.
pub open spec fn output_len(ops: Seq<OpView>) -> nat {
    output_from(ops, 0)
}

proof fn lemma_output_from(ops: Seq<OpView>, i: int, s: Seq<char>)
    requires
        0 <= i <= ops.len(),
        crate::transaction::input_from(ops, i) == s.len(),
    ensures
        crate::transaction::edited_from(ops, i, s).len() == output_from(ops, i),
    decreases ops.len() - i,
{
    if i < ops.len() {
        match ops[i] {
            OpView::Retain(n) => lemma_output_from(ops, i + 1, s.skip(n as int)),
            OpView::Delete(n) => lemma_output_from(ops, i + 1, s.skip(n as int)),
            OpView::Insert(t) => lemma_output_from(ops, i + 1, s),
        }
    }
}

/// A transaction leaves a text of its output length.
pub proof fn lemma_output_len(ops: Seq<OpView>, s: Seq<char>)
    requires
        input_len(ops) == s.len(),
    ensures
        edited(ops, s).len() == output_len(ops),
{
    lemma_output_from(ops, 0, s);
}

/// The two directions of an entry lead from one length of a text to another
/// and back.
pub open spec fn entry_fits(e: EntryView) -> bool {
    input_len(e.forward) <= usize::MAX && input_len(e.inverse) <= usize::MAX && output_len(e.inverse) == input_len(e.forward) && output_len(e.forward) == input_len(e.inverse)
}

/// Whether the first `n` entries of a stack fit, from the top down, a text of
/// length `len`: each the text that the one above it leaves behind.
pub open spec fn stack_fits(stack: Seq<EntryView>, n: nat, len: nat, undoing: bool) -> bool
    decreases n,
{
    if n == 0 || n > stack.len() {
        true
    } else {
        let e = stack[n - 1];
        let (here, back) = if undoing {
            (e.inverse, e.forward)
        } else {
            (e.forward, e.inverse)
        };
        entry_fits(e) && input_len(here) == len && stack_fits(
            stack,
            (n - 1) as nat,
            input_len(back),
            undoing,
        )
    }
}

/// The undo and redo stacks fit the text.
pub open spec fn doc_wf(d: DocView) -> bool {
    stack_fits(d.history, d.history.len(), d.text.len(), true) && stack_fits(
        d.redo_stack,
        d.redo_stack.len(),
        d.text.len(),
        false,
    )
}

pub proof fn lemma_same_stack(a: Seq<EntryView>, b: Seq<EntryView>, n: nat, len: nat, undoing: bool)
    requires
        n <= a.len(),
        n <= b.len(),
        forall|i: int| 0 <= i < n ==> a[i] == b[i],
    ensures
        stack_fits(a, n, len, undoing) == stack_fits(b, n, len, undoing),
    decreases n,
{
    if n > 0 {
        let e = a[n - 1];
        let back = if undoing {
            e.forward
        } else {
            e.inverse
        };
        lemma_same_stack(a, b, (n - 1) as nat, input_len(back), undoing);
    }
}

// ---- the language server's log ----------------------------------------------

/// A position as a language server names it: line and UTF-16 column.
pub open spec fn lsp_at(s: Seq<char>, pos: int) -> (usize, usize) {
    let line = line_of(s, pos) as int;
    (line as usize, (utf16_upto(s, pos) - utf16_upto(s, line_start(s, line))) as usize)
}

pub open spec fn lsp_change(s: Seq<char>, c: ChangeView) -> LspChangeView {
    LspChangeView { start: lsp_at(s, c.0), end: lsp_at(s, c.1), text: c.2 }
}

/// The changes of a transaction, last first: each one then only moves text
/// after the ones still to come, so all of them can be stated against the
/// same original text.
pub open spec fn lsp_changes(s: Seq<char>, cs: Seq<ChangeView>) -> Seq<LspChangeView> {
    Seq::new(cs.len(), |i: int| lsp_change(s, cs[cs.len() - 1 - i]))
}

/// The log once `ops` is noted in it.
pub open spec fn logged(d: DocView, ops: Seq<OpView>) -> DocView {
    let cs = changes_of(ops);
    if d.lsp_overflow {
        d
    } else if d.lsp_log.len() + cs.len() > LSP_LOG_CAP {
        DocView { lsp_overflow: true, lsp_log: Seq::empty(), ..d }
    } else {
        DocView { lsp_log: d.lsp_log + lsp_changes(d.text, cs), ..d }
    }
}

// ---- edits ------------------------------------------------------------------

/// Where an edit takes a position of another cursor.
pub open spec fn ride(ops: Seq<OpView>, pos: usize) -> usize {
    capped(mapped(ops, pos as int, false)) as usize
}

pub open spec fn ride_all(ops: Seq<OpView>, extra: Seq<(usize, usize)>) -> Seq<(usize, usize)> {
    Seq::new(extra.len(), |i: int| (ride(ops, extra[i].0), ride(ops, extra[i].1)))
}

/// A document after an edit. One that changes nothing only moves the cursor;
/// any other is entered in the undo history, and every other cursor rides
/// through it.
pub open spec fn applied(d: DocView, ops: Seq<OpView>, new_cursor: usize) -> DocView {
    if keeps_all(ops) {
        DocView { cursor: new_cursor, ..d }
    } else {
        let text = edited(ops, d.text);
        let cursor = min_int(new_cursor as int, text.len() as int) as usize;
        let log = logged(d, ops);
        DocView {
            text,
            cursor,
            anchor: cursor,
            extra: ride_all(ops, d.extra),
            syntax_dirty: true,
            modified: true,
            goal_col: None,
            lsp_log: log.lsp_log,
            lsp_overflow: log.lsp_overflow,
            history: d.history.push(
                EntryView {
                    forward: ops,
                    inverse: inverse(ops, d.text),
                    cursor_before: d.cursor,
                    cursor_after: cursor,
                    group: d.group,
                },
            ),
            redo_stack: Seq::empty(),
            revision: d.revision.wrapping_add(1),
            ..d
        }
    }
}

/// A document whose undo group is closed: the next edit starts a new one.
pub open spec fn committed(d: DocView) -> DocView {
    if d.history.len() > 0 && d.history.last().group == d.group {
        DocView { group: d.group.wrapping_add(1), ..d }
    } else {
        d
    }
}

/// One entry of the history undone.
pub open spec fn undo_entry(d: DocView) -> DocView {
    let e = d.history.last();
    let text = edited(e.inverse, d.text);
    let cursor = min_int(e.cursor_before as int, text.len() as int) as usize;
    let log = logged(d, e.inverse);
    DocView {
        text,
        cursor,
        anchor: cursor,
        syntax_dirty: true,
        lsp_log: log.lsp_log,
        lsp_overflow: log.lsp_overflow,
        history: d.history.drop_last(),
        redo_stack: d.redo_stack.push(e),
        ..d
    }
}

/// The entries of a group on top of the history undone.
pub open spec fn undo_group(d: DocView, group: usize) -> DocView
    decreases d.history.len(),
{
    if d.history.len() > 0 && d.history.last().group == group {
        undo_group(undo_entry(d), group)
    } else {
        d
    }
}

/// A document after undo: the entries of the group on top undone, one cursor
/// left, and no further edit joins the group.
pub open spec fn undone(d: DocView) -> DocView {
    if d.history.len() == 0 {
        d
    } else {
        let u = undo_group(DocView { extra: Seq::empty(), ..d }, d.history.last().group);
        DocView {
            modified: true,
            goal_col: None,
            group: u.group.wrapping_add(1),
            revision: u.revision.wrapping_add(1),
            ..u
        }
    }
}

/// One entry of the redo stack done again.
pub open spec fn redo_entry(d: DocView) -> DocView {
    let e = d.redo_stack.last();
    let text = edited(e.forward, d.text);
    let cursor = min_int(e.cursor_after as int, text.len() as int) as usize;
    let log = logged(d, e.forward);
    DocView {
        text,
        cursor,
        anchor: cursor,
        syntax_dirty: true,
        lsp_log: log.lsp_log,
        lsp_overflow: log.lsp_overflow,
        redo_stack: d.redo_stack.drop_last(),
        history: d.history.push(e),
        ..d
    }
}

pub open spec fn redo_group(d: DocView, group: usize) -> DocView
    decreases d.redo_stack.len(),
{
    if d.redo_stack.len() > 0 && d.redo_stack.last().group == group {
        redo_group(redo_entry(d), group)
    } else {
        d
    }
}

/// A document after redo.
pub open spec fn redone(d: DocView) -> DocView {
    if d.redo_stack.len() == 0 {
        d
    } else {
        let u = redo_group(DocView { extra: Seq::empty(), ..d }, d.redo_stack.last().group);
        DocView {
            modified: true,
            goal_col: None,
            revision: u.revision.wrapping_add(1),
            ..u
        }
    }
}

/// An edit that fits the text keeps the stacks fitting.
pub proof fn lemma_applied_wf(d: DocView, ops: Seq<OpView>, new_cursor: usize)
    requires
        doc_wf(d),
        input_len(ops) == d.text.len(),
        d.text.len() <= usize::MAX,
        edited(ops, d.text).len() <= usize::MAX,
    ensures
        doc_wf(applied(d, ops, new_cursor)),
{
    if !keeps_all(ops) {
        let a = applied(d, ops, new_cursor);
        law_inverse_restores(ops, d.text);
        lemma_output_len(ops, d.text);
        lemma_output_len(inverse(ops, d.text), a.text);
        lemma_same_stack(a.history, d.history, d.history.len(), d.text.len(), true);
    }
}

/// Undoing an entry keeps the stacks fitting.
pub proof fn lemma_undo_entry_wf(d: DocView)
    requires
        doc_wf(d),
        d.history.len() > 0,
    ensures
        doc_wf(undo_entry(d)),
        input_len(d.history.last().inverse) == d.text.len(),
{
    let e = d.history.last();
    let u = undo_entry(d);
    lemma_output_len(e.inverse, d.text);
    lemma_same_stack(u.history, d.history, u.history.len(), u.text.len(), true);
    lemma_same_stack(u.redo_stack, d.redo_stack, d.redo_stack.len(), d.text.len(), false);
}

pub proof fn lemma_redo_entry_wf(d: DocView)
    requires
        doc_wf(d),
        d.redo_stack.len() > 0,
    ensures
        doc_wf(redo_entry(d)),
        input_len(d.redo_stack.last().forward) == d.text.len(),
{
    let e = d.redo_stack.last();
    let u = redo_entry(d);
    lemma_output_len(e.forward, d.text);
    lemma_same_stack(u.redo_stack, d.redo_stack, u.redo_stack.len(), u.text.len(), false);
    lemma_same_stack(u.history, d.history, d.history.len(), d.text.len(), true);
}

/// Undo and redo keep the stacks fitting.
pub proof fn law_undo_keeps_fitting(d: DocView)
    requires
        doc_wf(d),
    ensures
        doc_wf(undone(d)),
        doc_wf(redone(d)),
{
    let bare = DocView { extra: Seq::empty(), ..d };
    if d.history.len() > 0 {
        lemma_undo_group_wf(bare, d.history.last().group);
    }
    if d.redo_stack.len() > 0 {
        lemma_redo_group_wf(bare, d.redo_stack.last().group);
    }
}

proof fn lemma_undo_group_wf(d: DocView, group: usize)
    requires
        doc_wf(d),
    ensures
        doc_wf(undo_group(d, group)),
    decreases d.history.len(),
{
    if d.history.len() > 0 && d.history.last().group == group {
        lemma_undo_entry_wf(d);
        lemma_undo_group_wf(undo_entry(d), group);
    }
}

proof fn lemma_redo_group_wf(d: DocView, group: usize)
    requires
        doc_wf(d),
    ensures
        doc_wf(redo_group(d, group)),
    decreases d.redo_stack.len(),
{
    if d.redo_stack.len() > 0 && d.redo_stack.last().group == group {
        lemma_redo_entry_wf(d);
        lemma_redo_group_wf(redo_entry(d), group);
    }
}

// ---- laws of undo -----------------------------------------------------------

/// Edits made one after the other, each with the cursor it leaves.
pub open spec fn applied_upto(d: DocView, edits: Seq<(Seq<OpView>, usize)>, n: nat) -> DocView
    decreases n,
{
    if n == 0 || n > edits.len() {
        d
    } else {
        applied(applied_upto(d, edits, (n - 1) as nat), edits[n - 1].0, edits[n - 1].1)
    }
}

/// Each edit fits the text that the ones before it leave.
pub open spec fn edits_apply(d: DocView, edits: Seq<(Seq<OpView>, usize)>) -> bool {
    forall|i: int|
        0 <= i < edits.len() ==> input_len((#[trigger] edits[i]).0) == applied_upto(
            d,
            edits,
            i as nat,
        ).text.len()
}

/// A bare cursor where another document has its cursor, or at the end of its
/// text.
pub open spec fn came_back(u: DocView, d: DocView) -> bool {
    u.cursor == min_int(d.cursor as int, d.text.len() as int) && u.anchor == u.cursor
}

proof fn lemma_undo_edits(d: DocView, edits: Seq<(Seq<OpView>, usize)>, n: nat, u: DocView)
    requires
        n <= edits.len(),
        edits_apply(d, edits),
        d.history.len() > 0 ==> d.history.last().group != d.group,
        u.text == applied_upto(d, edits, n).text,
        u.history == applied_upto(d, edits, n).history,
    ensures
        undo_group(u, d.group).text == d.text,
        undo_group(u, d.group).history == d.history,
        n > 0 && !keeps_all(edits[0].0) ==> came_back(undo_group(u, d.group), d),
        applied_upto(d, edits, n).group == d.group,
    decreases n,
{
    if n > 0 {
        let p = applied_upto(d, edits, (n - 1) as nat);
        let ops = edits[n - 1].0;
        lemma_undo_edits_group(d, edits, n);
        if keeps_all(ops) {
            lemma_keeps_all(ops, p.text);
            lemma_undo_edits(d, edits, (n - 1) as nat, u);
        } else {
            law_inverse_restores(ops, p.text);
            let v = undo_entry(u);
            assert(u.history.last().group == p.group);
            lemma_undo_edits_group(d, edits, (n - 1) as nat);
            assert(v.history =~= p.history);
            lemma_undo_edits(d, edits, (n - 1) as nat, v);
            if n == 1 {
                assert(p == d);
                assert(undo_group(v, d.group) == v);
            }
        }
    }
}

proof fn lemma_undo_edits_group(d: DocView, edits: Seq<(Seq<OpView>, usize)>, n: nat)
    requires
        n <= edits.len(),
    ensures
        applied_upto(d, edits, n).group == d.group,
    decreases n,
{
    if n > 0 {
        lemma_undo_edits_group(d, edits, (n - 1) as nat);
    }
}

proof fn lemma_keeps_all_from(ops: Seq<OpView>, i: int, s: Seq<char>)
    requires
        keeps_all(ops),
        0 <= i <= ops.len(),
    ensures
        crate::transaction::input_from(ops, i) == s.len() ==> crate::transaction::edited_from(
            ops,
            i,
            s,
        ) == s,
    decreases ops.len() - i,
{
    if i < ops.len() {
        let n = ops[i]->Retain_0;
        lemma_keeps_all_from(ops, i + 1, s.skip(n as int));
        if crate::transaction::input_from(ops, i) == s.len() {
            assert(s.take(n as int) + s.skip(n as int) =~= s);
        }
    }
}

/// A transaction that keeps everything leaves the text as it is.
pub proof fn lemma_keeps_all(ops: Seq<OpView>, s: Seq<char>)
    requires
        keeps_all(ops),
        input_len(ops) == s.len(),
    ensures
        edited(ops, s) == s,
{
    lemma_keeps_all_from(ops, 0, s);
}

/// A burst of edits undoes as a unit: whatever edits are made since the undo
/// group was closed, one undo gives back the text and the history from before
/// them, and, where the first changes the text, puts the cursor back with
/// nothing selected.
pub proof fn law_undo_restores_a_burst(d: DocView, edits: Seq<(Seq<OpView>, usize)>)
    requires
        edits_apply(d, edits),
        d.history.len() > 0 ==> d.history.last().group != d.group,
        applied_upto(d, edits, edits.len()).history.len() > d.history.len(),
    ensures
        undone(applied_upto(d, edits, edits.len())).text == d.text,
        undone(applied_upto(d, edits, edits.len())).history == d.history,
        !keeps_all(edits[0].0) ==> came_back(undone(applied_upto(d, edits, edits.len())), d),
{
    let a = applied_upto(d, edits, edits.len());
    lemma_burst_top(d, edits, edits.len());
    let bare = DocView { extra: Seq::empty(), ..a };
    lemma_undo_edits(d, edits, edits.len(), bare);
}

/// An edit made in an undo group of its own is undone as a whole: whatever
/// becomes of the cursors, one undo gives back the text, the history and the
/// cursor from before it.
pub proof fn law_an_edit_is_one_step(
    d: DocView,
    ops: Seq<OpView>,
    new_cursor: usize,
    after: DocView,
)
    requires
        input_len(ops) == d.text.len(),
        d.history.len() > 0 ==> d.history.last().group != d.group,
        after.text == applied(d, ops, new_cursor).text,
        after.history == applied(d, ops, new_cursor).history,
        after.text != d.text,
    ensures
        undone(after).text == d.text,
        undone(after).history == d.history,
        came_back(undone(after), d),
{
    if keeps_all(ops) {
        lemma_keeps_all(ops, d.text);
    }
    let edits = seq![(ops, new_cursor)];
    reveal_with_fuel(applied_upto, 3);
    assert(applied_upto(d, edits, 0) == d);
    assert(applied_upto(d, edits, 1) == applied(d, ops, new_cursor));
    assert(edits_apply(d, edits));
    let bare = DocView { extra: Seq::empty(), ..after };
    lemma_undo_edits(d, edits, 1, bare);
    lemma_burst_top(d, edits, 1);
}

proof fn lemma_burst_top(d: DocView, edits: Seq<(Seq<OpView>, usize)>, n: nat)
    requires
        n <= edits.len(),
    ensures
        applied_upto(d, edits, n).history.len() >= d.history.len(),
        applied_upto(d, edits, n).history.len() > d.history.len() ==> applied_upto(
            d,
            edits,
            n,
        ).history.last().group == d.group,
        applied_upto(d, edits, n).history.len() == d.history.len() ==> applied_upto(
            d,
            edits,
            n,
        ).history == d.history,
    decreases n,
{
    if n > 0 {
        lemma_burst_top(d, edits, (n - 1) as nat);
        lemma_undo_edits_group(d, edits, (n - 1) as nat);
    }
}

/// Whether the first `n` entries were made by edits of the texts that they
/// lead back to, the topmost from the text `s`.
pub open spec fn true_history(stack: Seq<EntryView>, n: nat, s: Seq<char>) -> bool
    decreases n,
{
    if n == 0 || n > stack.len() {
        true
    } else {
        let e = stack[n - 1];
        let before = edited(e.inverse, s);
        input_len(e.inverse) == s.len() && input_len(e.forward) == before.len() && edited(
            e.forward,
            before,
        ) == s && e.inverse == inverse(e.forward, before) && true_history(
            stack,
            (n - 1) as nat,
            before,
        )
    }
}

proof fn lemma_same_true(a: Seq<EntryView>, b: Seq<EntryView>, n: nat, s: Seq<char>)
    requires
        n <= a.len(),
        n <= b.len(),
        forall|i: int| 0 <= i < n ==> a[i] == b[i],
    ensures
        true_history(a, n, s) == true_history(b, n, s),
    decreases n,
{
    if n > 0 {
        lemma_same_true(a, b, (n - 1) as nat, edited(a[n - 1].inverse, s));
    }
}

/// Whether the first `n` entries to redo were made by edits of the texts that
/// they lead on to, the topmost of the text `s`.
pub open spec fn true_redo(stack: Seq<EntryView>, n: nat, s: Seq<char>) -> bool
    decreases n,
{
    if n == 0 || n > stack.len() {
        true
    } else {
        let e = stack[n - 1];
        input_len(e.forward) == s.len() && e.inverse == inverse(e.forward, s) && true_redo(
            stack,
            (n - 1) as nat,
            edited(e.forward, s),
        )
    }
}

/// Whether two stacks were made by edits of a text, and no undo group stands
/// on top of both.
#[verifier::opaque]
pub open spec fn true_stacks(
    history: Seq<EntryView>,
    redo: Seq<EntryView>,
    text: Seq<char>,
) -> bool {
    &&& true_history(history, history.len(), text)
    &&& true_redo(redo, redo.len(), text)
    &&& history.len() > 0 && redo.len() > 0 ==> history.last().group != redo.last().group
}

/// Whether both stacks were made by edits of the document's text. Every
/// operation keeps this, but for a history that is read from a file, which is
/// taken as it stands.
pub open spec fn true_to_edits(d: DocView) -> bool {
    true_stacks(d.history, d.redo_stack, d.text)
}

proof fn lemma_same_redo(a: Seq<EntryView>, b: Seq<EntryView>, n: nat, s: Seq<char>)
    requires
        n <= a.len(),
        n <= b.len(),
        forall|i: int| 0 <= i < n ==> a[i] == b[i],
    ensures
        true_redo(a, n, s) == true_redo(b, n, s),
    decreases n,
{
    if n > 0 {
        lemma_same_redo(a, b, (n - 1) as nat, edited(a[n - 1].forward, s));
    }
}

/// A document that has not been edited yet has nothing to undo or redo that
/// its edits did not make.
pub proof fn law_a_new_document_is_true(path: Seq<char>, text: Seq<char>, mtime: Option<u64>)
    ensures
        true_to_edits(empty_doc()),
        true_to_edits(opened_doc(path, text, mtime)),
{
    reveal(true_stacks);
}

/// An edit keeps both stacks true.
pub proof fn law_edits_keep_the_history_true(d: DocView, ops: Seq<OpView>, new_cursor: usize)
    requires
        true_to_edits(d),
        input_len(ops) == d.text.len(),
    ensures
        true_to_edits(applied(d, ops, new_cursor)),
{
    reveal(true_stacks);
    if !keeps_all(ops) {
        let a = applied(d, ops, new_cursor);
        law_inverse_restores(ops, d.text);
        lemma_same_true(a.history, d.history, d.history.len(), d.text);
    }
}

proof fn lemma_undo_entry_true(d: DocView)
    requires
        true_history(d.history, d.history.len(), d.text),
        true_redo(d.redo_stack, d.redo_stack.len(), d.text),
        d.history.len() > 0,
    ensures
        true_history(undo_entry(d).history, undo_entry(d).history.len(), undo_entry(d).text),
        true_redo(undo_entry(d).redo_stack, undo_entry(d).redo_stack.len(), undo_entry(d).text),
{
    let u = undo_entry(d);
    lemma_same_true(u.history, d.history, u.history.len(), u.text);
    lemma_same_redo(u.redo_stack, d.redo_stack, d.redo_stack.len(), d.text);
}

proof fn lemma_redo_entry_true(d: DocView)
    requires
        true_history(d.history, d.history.len(), d.text),
        true_redo(d.redo_stack, d.redo_stack.len(), d.text),
        d.redo_stack.len() > 0,
    ensures
        true_history(redo_entry(d).history, redo_entry(d).history.len(), redo_entry(d).text),
        true_redo(redo_entry(d).redo_stack, redo_entry(d).redo_stack.len(), redo_entry(d).text),
{
    let u = redo_entry(d);
    law_inverse_restores(d.redo_stack.last().forward, d.text);
    lemma_same_redo(u.redo_stack, d.redo_stack, u.redo_stack.len(), u.text);
    lemma_same_true(u.history, d.history, d.history.len(), d.text);
}

proof fn lemma_undo_group_true(d: DocView, group: usize)
    requires
        true_history(d.history, d.history.len(), d.text),
        true_redo(d.redo_stack, d.redo_stack.len(), d.text),
        d.redo_stack.len() > 0 ==> d.redo_stack.last().group == group,
    ensures
        true_to_edits(undo_group(d, group)),
    decreases d.history.len(),
{
    reveal(true_stacks);
    if d.history.len() > 0 && d.history.last().group == group {
        lemma_undo_entry_true(d);
        lemma_undo_group_true(undo_entry(d), group);
    }
}

proof fn lemma_redo_group_true(d: DocView, group: usize)
    requires
        true_history(d.history, d.history.len(), d.text),
        true_redo(d.redo_stack, d.redo_stack.len(), d.text),
        d.history.len() > 0 ==> d.history.last().group == group,
    ensures
        true_to_edits(redo_group(d, group)),
    decreases d.redo_stack.len(),
{
    reveal(true_stacks);
    if d.redo_stack.len() > 0 && d.redo_stack.last().group == group {
        lemma_redo_entry_true(d);
        lemma_redo_group_true(redo_entry(d), group);
    }
}

/// Undo and redo keep both stacks true.
pub proof fn law_undo_keeps_the_history_true(d: DocView)
    requires
        true_to_edits(d),
    ensures
        true_to_edits(undone(d)),
        true_to_edits(redone(d)),
{
    reveal(true_stacks);
    let bare = DocView { extra: Seq::empty(), ..d };
    if d.history.len() > 0 {
        let group = d.history.last().group;
        lemma_undo_entry_true(bare);
        lemma_undo_group_true(undo_entry(bare), group);
        assert(undo_group(bare, group) == undo_group(undo_entry(bare), group));
    }
    if d.redo_stack.len() > 0 {
        let group = d.redo_stack.last().group;
        lemma_redo_entry_true(bare);
        lemma_redo_group_true(redo_entry(bare), group);
        assert(redo_group(bare, group) == redo_group(redo_entry(bare), group));
    }
}

/// A new edit drops what could be redone: redo then changes nothing.
pub proof fn law_an_edit_drops_the_redo(d: DocView, ops: Seq<OpView>, new_cursor: usize)
    requires
        !keeps_all(ops),
    ensures
        applied(d, ops, new_cursor).redo_stack.len() == 0,
        redone(applied(d, ops, new_cursor)) == applied(d, ops, new_cursor),
{
}

proof fn lemma_redo_back(d: DocView, u: DocView, group: usize)
    requires
        true_history(d.history, d.history.len(), d.text),
        d.redo_stack.len() > 0 ==> d.redo_stack.last().group != group,
        u.text == undo_group(d, group).text,
        u.history == undo_group(d, group).history,
        u.redo_stack == undo_group(d, group).redo_stack,
    ensures
        redo_group(u, group).text == d.text,
        redo_group(u, group).history == d.history,
        redo_group(u, group).redo_stack == d.redo_stack,
    decreases d.history.len(),
{
    if d.history.len() > 0 && d.history.last().group == group {
        lemma_redo_entries(d, u, group);
    }
}

/// The entries undone come back in order; `r` is where redo stands after the
/// entries that were undone last.
proof fn lemma_redo_entries(d: DocView, u: DocView, group: usize)
    requires
        true_history(d.history, d.history.len(), d.text),
        d.redo_stack.len() > 0 ==> d.redo_stack.last().group != group,
        d.history.len() > 0 && d.history.last().group == group,
        u.text == undo_group(d, group).text,
        u.history == undo_group(d, group).history,
        u.redo_stack == undo_group(d, group).redo_stack,
    ensures
        redo_group(u, group).text == d.text,
        redo_group(u, group).history == d.history,
        redo_group(u, group).redo_stack == d.redo_stack,
    decreases d.history.len(),
{
    let p = undo_entry(d);
    lemma_same_true(p.history, d.history, p.history.len(), p.text);
    lemma_redo_reaches(p, u, group, p.redo_stack.len());
    let r = redo_down_to(u, p.redo_stack.len());
    assert(r.text == p.text && r.history == p.history && r.redo_stack == p.redo_stack);
    let q = redo_entry(r);
    let e = d.history.last();
    assert(r.redo_stack.last() == e);
    assert(q.text == d.text);
    assert(q.history =~= d.history);
    assert(q.redo_stack =~= d.redo_stack);
    assert(redo_group(r, group) == redo_group(q, group));
    assert(redo_group(q, group) == q);
}

/// Redo until only `n` entries are left to redo.
pub open spec fn redo_down_to(d: DocView, n: nat) -> DocView
    decreases d.redo_stack.len(),
{
    if d.redo_stack.len() > n {
        redo_down_to(redo_entry(d), n)
    } else {
        d
    }
}

/// From where undoing `p`'s group ends, redo comes back to `p`, and the redo
/// of the whole group goes through it.
proof fn lemma_redo_reaches(p: DocView, u: DocView, group: usize, n: nat)
    requires
        true_history(p.history, p.history.len(), p.text),
        n == p.redo_stack.len(),
        n > 0 ==> p.redo_stack.last().group == group,
        u.text == undo_group(p, group).text,
        u.history == undo_group(p, group).history,
        u.redo_stack == undo_group(p, group).redo_stack,
    ensures
        redo_down_to(u, n).text == p.text,
        redo_down_to(u, n).history == p.history,
        redo_down_to(u, n).redo_stack == p.redo_stack,
        redo_group(u, group) == redo_group(redo_down_to(u, n), group),
    decreases p.history.len(),
{
    if p.history.len() > 0 && p.history.last().group == group {
        let q = undo_entry(p);
        lemma_same_true(q.history, p.history, q.history.len(), q.text);
        lemma_redo_reaches(q, u, group, n + 1);
        let r = redo_down_to(u, n + 1);
        lemma_redo_further(u, n);
        let back = redo_entry(r);
        assert(r.redo_stack.last() == p.history.last());
        assert(back.text == p.text);
        assert(back.history =~= p.history);
        assert(back.redo_stack =~= p.redo_stack);
        assert(redo_down_to(r, n) == redo_down_to(back, n));
        assert(redo_down_to(back, n) == back);
        assert(redo_group(r, group) == redo_group(back, group));
    }
}

proof fn lemma_redo_further(u: DocView, n: nat)
    ensures
        redo_down_to(u, n) == redo_down_to(redo_down_to(u, n + 1), n),
    decreases u.redo_stack.len(),
{
    if u.redo_stack.len() > n + 1 {
        lemma_redo_further(redo_entry(u), n);
    }
}

/// Redo undoes undo: of a document whose stacks were made by its edits, undo
/// and then redo give the text, the history and the redo stack back.
pub proof fn law_redo_undoes_undo(d: DocView)
    requires
        true_to_edits(d),
        d.history.len() > 0,
    ensures
        redone(undone(d)).text == d.text,
        redone(undone(d)).history == d.history,
        redone(undone(d)).redo_stack == d.redo_stack,
{
    reveal(true_stacks);
    let group = d.history.last().group;
    let bare = DocView { extra: Seq::empty(), ..d };
    let u = undone(d);
    let mid = undo_group(bare, group);
    lemma_undo_top(bare, group);
    assert(u.redo_stack.last().group == group);
    let v = DocView { extra: Seq::empty(), ..u };
    lemma_redo_back(bare, v, group);
}

/// What comes of redoing a group is undone again, as far as the history had
/// entries before.
proof fn lemma_undo_back(d: DocView, u: DocView, group: usize, n: nat)
    requires
        true_redo(d.redo_stack, d.redo_stack.len(), d.text),
        n <= d.history.len(),
        forall|i: int| n <= i < d.history.len() ==> (#[trigger] d.history[i]).group == group,
        n > 0 ==> d.history[n - 1].group != group,
        u.text == redo_group(d, group).text,
        u.history == redo_group(d, group).history,
        u.redo_stack == redo_group(d, group).redo_stack,
    ensures
        undo_group(u, group).text == undo_group(d, group).text,
        undo_group(u, group).history == undo_group(d, group).history,
        undo_group(u, group).redo_stack == undo_group(d, group).redo_stack,
    decreases d.redo_stack.len(),
{
    if d.redo_stack.len() > 0 && d.redo_stack.last().group == group {
        let q = redo_entry(d);
        let e = d.redo_stack.last();
        law_inverse_restores(e.forward, d.text);
        lemma_same_redo(q.redo_stack, d.redo_stack, q.redo_stack.len(), q.text);
        assert forall|i: int| n <= i < q.history.len() implies (#[trigger] q.history[i]).group
            == group by {
            if i < d.history.len() {
                assert(q.history[i] == d.history[i]);
            }
        }
        lemma_undo_back(q, u, group, n);
        let p = undo_entry(q);
        assert(q.history.last() == e);
        assert(p.text == d.text);
        assert(p.history =~= d.history);
        assert(p.redo_stack =~= d.redo_stack);
        lemma_undo_alike(p, d, group);
    } else {
        lemma_undo_alike(u, d, group);
    }
}

proof fn lemma_undo_alike(a: DocView, b: DocView, group: usize)
    requires
        a.text == b.text,
        a.history == b.history,
        a.redo_stack == b.redo_stack,
    ensures
        undo_group(a, group).text == undo_group(b, group).text,
        undo_group(a, group).history == undo_group(b, group).history,
        undo_group(a, group).redo_stack == undo_group(b, group).redo_stack,
    decreases a.history.len(),
{
    if a.history.len() > 0 && a.history.last().group == group {
        lemma_undo_alike(undo_entry(a), undo_entry(b), group);
    }
}

/// Undo undoes redo: of a document whose stacks were made by its edits, redo
/// and then undo give the text, the history and the redo stack back.
pub proof fn law_undo_undoes_redo(d: DocView)
    requires
        true_to_edits(d),
        d.redo_stack.len() > 0,
    ensures
        undone(redone(d)).text == d.text,
        undone(redone(d)).history == d.history,
        undone(redone(d)).redo_stack == d.redo_stack,
{
    reveal(true_stacks);
    let group = d.redo_stack.last().group;
    let bare = DocView { extra: Seq::empty(), ..d };
    let r = redone(d);
    let v = DocView { extra: Seq::empty(), ..r };
    lemma_redo_top(bare, group);
    assert(r.history.last().group == group);
    lemma_undo_back(bare, v, group, d.history.len());
    assert(undo_group(bare, group) == bare);
}

proof fn lemma_redo_top(d: DocView, group: usize)
    requires
        d.redo_stack.len() > 0 && d.redo_stack.last().group == group,
    ensures
        redo_group(d, group).history.len() > 0,
        redo_group(d, group).history.last().group == group,
    decreases d.redo_stack.len(),
{
    let p = redo_entry(d);
    assert(redo_group(d, group) == redo_group(p, group));
    if p.redo_stack.len() > 0 && p.redo_stack.last().group == group {
        lemma_redo_top(p, group);
    } else {
        assert(redo_group(p, group) == p);
    }
}

proof fn lemma_undo_top(d: DocView, group: usize)
    requires
        d.history.len() > 0 && d.history.last().group == group,
    ensures
        undo_group(d, group).redo_stack.len() > 0,
        undo_group(d, group).redo_stack.last().group == group,
    decreases d.history.len(),
{
    let p = undo_entry(d);
    assert(undo_group(d, group) == undo_group(p, group));
    if p.history.len() > 0 && p.history.last().group == group {
        lemma_undo_top(p, group);
    } else {
        assert(undo_group(p, group) == p);
    }
}

// ---- the document -----------------------------------------------------------

/// An empty buffer without a file.
pub open spec fn empty_doc() -> DocView {
    DocView {
        text: Seq::empty(),
        path: None,
        cursor: 0,
        anchor: 0,
        extra: Seq::empty(),
        syntax_dirty: false,
        revision: 0,
        goal_col: None,
        modified: false,
        disk_mtime: None,
        disk_conflict: None,
        lsp_log: Seq::empty(),
        lsp_base: 0,
        lsp_overflow: false,
        swap_revision: 0,
        swap_found: false,
        swap_notified: false,
        view_line: 0,
        view_row: 0,
        view_col: 0,
        history: Seq::empty(),
        redo_stack: Seq::empty(),
        group: 0,
    }
}

/// A buffer just read from a file.
pub open spec fn opened_doc(path: Seq<char>, text: Seq<char>, mtime: Option<u64>) -> DocView {
    DocView { text, path: Some(path), disk_mtime: mtime, syntax_dirty: true, ..empty_doc() }
}

/// The rows that a line takes on the screen.
pub open spec fn row_count(s: Seq<char>, line: int, wrap: Option<usize>, tab: usize) -> int {
    match wrap {
        Some(w) => wrapped_rows(line_content(s, line), w as int, tab).len() as int,
        None => 1,
    }
}

/// How many of the row starts are at or before `col`.
pub open spec fn rows_before(rows: Seq<int>, col: int, n: nat) -> nat
    decreases n,
{
    if n == 0 || n > rows.len() {
        0
    } else {
        rows_before(rows, col, (n - 1) as nat) + if rows[n - 1] <= col {
            1nat
        } else {
            0nat
        }
    }
}

/// A position as (line, visual row within it, display column within that).
/// Without wrapping the row is always 0 and the column the line's own.
pub open spec fn visual_of(s: Seq<char>, at: int, wrap: Option<usize>, tab: usize) -> (int, int, int) {
    let pos = min_int(at, s.len() as int);
    let line = line_of(s, pos) as int;
    let col = pos - line_start(s, line);
    let content = line_content(s, line);
    match wrap {
        None => (line, 0, display_col(content, col, tab)),
        Some(w) => {
            let rows = wrapped_rows(content, w as int, tab);
            let row = rows_before(rows, col, rows.len()) as int - 1;
            (line, row, row_col(content, rows[row], col, tab))
        },
    }
}

/// The rows of the lines `from..to`.
pub open spec fn rows_between(s: Seq<char>, from: int, to: int, wrap: Option<usize>, tab: usize) -> int
    decreases to - from,
{
    if from >= to {
        0
    } else {
        rows_between(s, from, to - 1, wrap, tab) + row_count(s, to - 1, wrap, tab)
    }
}

/// Visual rows from `a` forward to `b`.
pub open spec fn rows_apart(
    s: Seq<char>,
    wrap: Option<usize>,
    tab: usize,
    a: (usize, usize),
    b: (usize, usize),
) -> int {
    max_int(
        0,
        rows_between(s, a.0 as int, min_int(b.0 as int, line_count(s)), wrap, tab) + b.1 - a.1,
    )
}

/// A viewport stepped `n` visual rows down, or up where `n` is negative,
/// stopping at the ends of the text.
pub open spec fn scrolled(
    s: Seq<char>,
    view: (int, int),
    n: int,
    wrap: Option<usize>,
    tab: usize,
) -> (int, int)
    decreases
            (if n < 0 {
                -n
            } else {
                n
            }),
{
    let (line, row) = view;
    if n > 0 {
        if row + 1 < row_count(s, line, wrap, tab) {
            scrolled(s, (line, row + 1), n - 1, wrap, tab)
        } else if line < line_count(s) - 1 {
            scrolled(s, (line + 1, 0), n - 1, wrap, tab)
        } else {
            view
        }
    } else if n < 0 {
        if row > 0 {
            scrolled(s, (line, row - 1), n + 1, wrap, tab)
        } else if line > 0 {
            scrolled(s, (line - 1, row_count(s, line - 1, wrap, tab) - 1), n + 1, wrap, tab)
        } else {
            view
        }
    } else {
        view
    }
}

/// `p` put into an increasing list, once.
pub open spec fn with_point(points: Seq<usize>, p: usize, i: int) -> Seq<usize>
    decreases points.len() - i,
{
    if i < 0 || i >= points.len() || p < points[i] {
        points.take(i).push(p) + points.skip(i)
    } else if p == points[i] {
        points
    } else {
        with_point(points, p, i + 1)
    }
}

/// The cursor and the first `n` other cursors, in order, each once.
pub open spec fn points_upto(cursor: usize, extra: Seq<(usize, usize)>, n: nat) -> Seq<usize>
    decreases n,
{
    if n == 0 || n > extra.len() {
        seq![cursor]
    } else {
        with_point(points_upto(cursor, extra, (n - 1) as nat), extra[n - 1].1, 0)
    }
}

/// The transaction that inserts `t` at each point of an increasing list.
pub open spec fn insert_edits(points: Seq<usize>, t: Seq<char>) -> Seq<(int, int, Option<Seq<char>>)> {
    Seq::new(points.len(), |i: int| (points[i] as int, points[i] as int, Some(t)))
}

/// A document after `t` was inserted at every cursor, in one step.
pub open spec fn inserted(d: DocView, t: Seq<char>) -> DocView {
    if d.extra.len() == 0 {
        applied(
            d,
            change_ops(seq![(d.cursor as int, d.cursor as int, Some(t))], d.text.len() as int),
            capped(d.cursor + t.len()) as usize,
        )
    } else {
        let ops = change_ops(
            insert_edits(points_upto(d.cursor, d.extra, d.extra.len()), t),
            d.text.len() as int,
        );
        applied(d, ops, ride(ops, d.cursor))
    }
}

/// Every cursor is in the text.
pub open spec fn cursors_in(d: DocView) -> bool {
    d.cursor <= d.text.len() && forall|i: int|
        0 <= i < d.extra.len() ==> (#[trigger] d.extra[i]).1 <= d.text.len()
}

/// Whether one selection comes before another, by anchor and then cursor.
pub open spec fn pair_before(a: (usize, usize), b: (usize, usize)) -> bool {
    a.0 < b.0 || (a.0 == b.0 && a.1 < b.1)
}

/// `p` put into an ordered list of selections, once.
pub open spec fn with_pair(pairs: Seq<(usize, usize)>, p: (usize, usize), i: int) -> Seq<
    (usize, usize),
>
    decreases pairs.len() - i,
{
    if i < 0 || i >= pairs.len() || pair_before(p, pairs[i]) {
        pairs.take(i).push(p) + pairs.skip(i)
    } else if p == pairs[i] {
        pairs
    } else {
        with_pair(pairs, p, i + 1)
    }
}

/// The first `n` selections without `primary`, in order, each once.
pub open spec fn ordered_upto(extra: Seq<(usize, usize)>, primary: (usize, usize), n: nat) -> Seq<
    (usize, usize),
>
    decreases n,
{
    if n == 0 || n > extra.len() {
        Seq::empty()
    } else if extra[n - 1] == primary {
        ordered_upto(extra, primary, (n - 1) as nat)
    } else {
        with_pair(ordered_upto(extra, primary, (n - 1) as nat), extra[n - 1], 0)
    }
}

/// A document whose selections differ from each other.
pub open spec fn deduped(d: DocView) -> DocView {
    DocView { extra: ordered_upto(d.extra, (d.anchor, d.cursor), d.extra.len()), ..d }
}

/// Every end of every selection is in the text.
pub open spec fn placed(d: DocView) -> bool {
    &&& d.cursor <= d.text.len()
    &&& d.anchor <= d.text.len()
    &&& forall|i: int|
        0 <= i < d.extra.len() ==> (#[trigger] d.extra[i]).0 <= d.text.len() && d.extra[i].1
            <= d.text.len()
}

/// An edit that fits the text keeps every selection in it.
pub proof fn lemma_applied_placed(d: DocView, ops: Seq<OpView>, new_cursor: usize)
    requires
        placed(d),
        input_len(ops) == d.text.len(),
        edited(ops, d.text).len() <= usize::MAX,
        new_cursor <= edited(ops, d.text).len(),
    ensures
        placed(applied(d, ops, new_cursor)),
        applied(d, ops, new_cursor).text == edited(ops, d.text),
        applied(d, ops, new_cursor).cursor == new_cursor,
{
    let a = applied(d, ops, new_cursor);
    if keeps_all(ops) {
        lemma_keeps_all(ops, d.text);
    } else {
        assert forall|i: int| 0 <= i < a.extra.len() implies (#[trigger] a.extra[i]).0
            <= a.text.len() && a.extra[i].1 <= a.text.len() by {
            let e = d.extra[i];
            crate::transaction::law_mapped_in_bounds(ops, e.0 as int, false, d.text);
            crate::transaction::law_mapped_in_bounds(ops, e.1 as int, false, d.text);
        }
    }
}

proof fn lemma_with_pair_bounded(pairs: Seq<(usize, usize)>, p: (usize, usize), i: int, len: nat)
    requires
        0 <= i <= pairs.len(),
        p.0 <= len && p.1 <= len,
        forall|k: int|
            0 <= k < pairs.len() ==> (#[trigger] pairs[k]).0 <= len && pairs[k].1 <= len,
    ensures
        forall|k: int|
            0 <= k < with_pair(pairs, p, i).len() ==> (#[trigger] with_pair(pairs, p, i)[k]).0
                <= len && with_pair(pairs, p, i)[k].1 <= len,
    decreases pairs.len() - i,
{
    if i < pairs.len() && !pair_before(p, pairs[i]) && p != pairs[i] {
        lemma_with_pair_bounded(pairs, p, i + 1, len);
        assert(with_pair(pairs, p, i) == with_pair(pairs, p, i + 1));
    } else if i < pairs.len() && p == pairs[i] && !pair_before(p, pairs[i]) {
        assert(with_pair(pairs, p, i) == pairs);
    } else if i >= pairs.len() || pair_before(p, pairs[i]) {
        let w = with_pair(pairs, p, i);
        assert forall|k: int| 0 <= k < w.len() implies (#[trigger] w[k]).0 <= len && w[k].1
            <= len by {
            if k < i {
                assert(w[k] == pairs[k]);
            } else if k > i {
                assert(w[k] == pairs[k - 1]);
            }
        }
    }
}

proof fn lemma_ordered_bounded(
    extra: Seq<(usize, usize)>,
    primary: (usize, usize),
    n: nat,
    len: nat,
)
    requires
        n <= extra.len(),
        forall|k: int|
            0 <= k < extra.len() ==> (#[trigger] extra[k]).0 <= len && extra[k].1 <= len,
    ensures
        forall|k: int|
            0 <= k < ordered_upto(extra, primary, n).len() ==> (#[trigger] ordered_upto(
                extra,
                primary,
                n,
            )[k]).0 <= len && ordered_upto(extra, primary, n)[k].1 <= len,
    decreases n,
{
    if n > 0 {
        lemma_ordered_bounded(extra, primary, (n - 1) as nat, len);
        if extra[n - 1] != primary {
            lemma_with_pair_bounded(
                ordered_upto(extra, primary, (n - 1) as nat),
                extra[n - 1],
                0,
                len,
            );
        }
    }
}

pub proof fn lemma_deduped_placed(d: DocView)
    requires
        placed(d),
    ensures
        placed(deduped(d)),
{
    lemma_ordered_bounded(d.extra, (d.anchor, d.cursor), d.extra.len(), d.text.len());
}

/// The length of a text after one edit.
pub proof fn lemma_one_edit_len(s: Seq<char>, e: (int, int, Option<Seq<char>>))
    requires
        0 <= e.0 <= e.1 <= s.len(),
    ensures
        edits_fit(seq![e], s.len() as int),
        with_edits(s, seq![e]).len() == s.len() - (e.1 - e.0) + edit_text(
            e,
        ).len(),
        with_edits(s, seq![e]) == s.take(e.0) + edit_text(e) + s.skip(e.1),
{
    reveal_with_fuel(crate::transaction::edits_head, 2);
    assert(with_edits(s, seq![e]) =~= s.take(e.0) + edit_text(e) + s.skip(
        e.1,
    ));
}

/// A document with the characters `from..to` deleted.
#[verifier::opaque]
pub open spec fn range_deleted(d: DocView, from: usize, to: usize) -> DocView {
    if from >= to {
        d
    } else {
        applied(
            d,
            change_ops(
                seq![(from as int, min_int(to as int, d.text.len() as int), None)],
                d.text.len() as int,
            ),
            from,
        )
    }
}

/// How many characters two texts have in common from `i` on.
pub open spec fn common_head(a: Seq<char>, b: Seq<char>, i: int) -> int
    decreases a.len() - i,
{
    if i < 0 || i >= a.len() || i >= b.len() || a[i] != b[i] {
        i
    } else {
        common_head(a, b, i + 1)
    }
}

/// How many characters two texts have in common at their ends, `n` known and
/// `most` at most.
pub open spec fn common_tail(a: Seq<char>, b: Seq<char>, n: int, most: int) -> int
    decreases most - n,
{
    if n < 0 || n >= most || n >= a.len() || n >= b.len() || a[a.len() - 1 - n] != b[b.len() - 1 - n] {
        n
    } else {
        common_tail(a, b, n + 1, most)
    }
}

/// The one edit that makes `new` of `old`: the stretch between what they have
/// in common at the start and, without overlapping that, at the end.
pub open spec fn difference(old: Seq<char>, new: Seq<char>) -> (int, int, Option<Seq<char>>) {
    let head = common_head(old, new, 0);
    let tail = common_tail(old, new, 0, min_int(old.len() - head, new.len() - head));
    (head, old.len() - tail, Some(new.subrange(head, new.len() - tail)))
}

/// A document made to read `new`, as one undo step touching only the stretch
/// that differs.
pub open spec fn replaced(d: DocView, new: Seq<char>) -> DocView {
    if d.text == new {
        d
    } else {
        let c = committed(d);
        let ops = change_ops(seq![difference(d.text, new)], d.text.len() as int);
        let a = applied(c, ops, capped(mapped(ops, c.cursor as int, true)) as usize);
        let b = DocView {
            anchor: min_int(
                capped(mapped(ops, c.anchor as int, true)),
                a.text.len() as int,
            ) as usize,
            ..a
        };
        committed(DocView { cursor: clamped(b.text, b.cursor as int, false) as usize, ..b })
    }
}

pub proof fn lemma_common_head(a: Seq<char>, b: Seq<char>, i: int)
    requires
        0 <= i <= a.len(),
        i <= b.len(),
    ensures
        i <= common_head(a, b, i) <= a.len(),
        common_head(a, b, i) <= b.len(),
        forall|k: int| i <= k < common_head(a, b, i) ==> a[k] == b[k],
    decreases a.len() - i,
{
    if i < a.len() && i < b.len() && a[i] == b[i] {
        lemma_common_head(a, b, i + 1);
    }
}

pub proof fn lemma_common_tail(a: Seq<char>, b: Seq<char>, n: int, most: int)
    requires
        0 <= n <= most,
        most <= a.len(),
        most <= b.len(),
    ensures
        n <= common_tail(a, b, n, most) <= most,
        forall|k: int|
            a.len() - common_tail(a, b, n, most) <= k < a.len() - n ==> a[k] == b[k - a.len()
                + b.len()],
    decreases most - n,
{
    if n < most && a[a.len() - 1 - n] == b[b.len() - 1 - n] {
        lemma_common_tail(a, b, n + 1, most);
    }
}

/// A document made to read a text reads it.
pub proof fn law_replaced_reads_the_new(d: DocView, new: Seq<char>)
    ensures
        replaced(d, new).text == new,
{
    if d.text != new {
        let head = common_head(d.text, new, 0);
        let most = min_int(d.text.len() - head, new.len() - head);
        let tail = common_tail(d.text, new, 0, most);
        lemma_common_head(d.text, new, 0);
        lemma_common_tail(d.text, new, 0, most);
        let e = difference(d.text, new);
        lemma_one_edit_len(d.text, e);
        law_change_makes_the_edits(seq![e], d.text);
        let made = d.text.take(e.0) + crate::transaction::edit_text(e) + d.text.skip(e.1);
        assert forall|k: int| 0 <= k < new.len() implies made[k] == new[k] by {
            if k >= new.len() - tail {
                let o = k - new.len() + d.text.len();
                assert(d.text[o] == new[o - d.text.len() + new.len()]);
            }
        }
        assert(made =~= new);
        let ops = change_ops(seq![e], d.text.len() as int);
        if keeps_all(ops) {
            lemma_keeps_all(ops, d.text);
        }
    }
}

impl Document {
    pub open spec fn wf(&self) -> bool {
        doc_wf(self@)
    }

    pub fn empty() -> (r: Self)
        ensures
            r@ == empty_doc(),
            r.wf(),
            true_to_edits(r@),
    {
        proof {
            law_a_new_document_is_true(Seq::empty(), Seq::empty(), None);
        }
        let r = Document {
            text: rope_new(),
            path: None,
            cursor: 0,
            anchor: 0,
            extra: Vec::new(),
            syntax_dirty: false,
            revision: 0,
            goal_col: None,
            modified: false,
            disk_mtime: None,
            disk_conflict: None,
            lsp_log: Vec::new(),
            lsp_base: 0,
            lsp_overflow: false,
            swap_revision: 0,
            swap_found: false,
            swap_notified: false,
            view_line: 0,
            view_row: 0,
            view_col: 0,
            history: Vec::new(),
            redo_stack: Vec::new(),
            group: 0,
        };
        assert(lsp_views(r.lsp_log@) =~= Seq::empty());
        assert(entry_views(r.history@) =~= Seq::empty());
        assert(entry_views(r.redo_stack@) =~= Seq::empty());
        assert(r.extra@ =~= Seq::empty());
        r
    }

    /// The buffer for a file that was read: `mtime` is the stamp taken after
    /// the read.
    pub fn opened(path: String, text: &str, mtime: Option<u64>) -> (r: Self)
        ensures
            r@ == opened_doc(path@, text@, mtime),
            r.wf(),
            true_to_edits(r@),
    {
        proof {
            law_a_new_document_is_true(path@, text@, mtime);
        }
        let mut r = Document::empty();
        r.text = crate::text::rope_from(text);
        r.path = Some(path);
        r.disk_mtime = mtime;
        r.syntax_dirty = true;
        r
    }

    /// Mark the buffer's coloring stale.
    pub fn refresh_syntax(&mut self)
        ensures
            final(self)@ == (DocView { syntax_dirty: true, ..old(self)@ }),
            true_to_edits(old(self)@) ==> true_to_edits(final(self)@),
    {
        self.syntax_dirty = true;
    }

    /// Whether a reparse is owed.
    pub fn syntax_stale(&self) -> (r: bool)
        ensures
            r == self@.syntax_dirty,
    {
        self.syntax_dirty
    }

    /// The coloring is being rebuilt: whether there was need to.
    pub fn settle_syntax(&mut self) -> (due: bool)
        ensures
            due == old(self)@.syntax_dirty,
            final(self)@ == (DocView { syntax_dirty: false, ..old(self)@ }),
            true_to_edits(old(self)@) ==> true_to_edits(final(self)@),
    {
        let due = self.syntax_dirty;
        self.syntax_dirty = false;
        due
    }

    // ---- line geometry -------------------------------------------------------

    /// Number of lines, not counting the phantom empty line after a trailing
    /// line break.
    pub fn line_count(&self) -> (r: usize)
        ensures
            r == line_count(self@.text),
            1 <= r <= lines_in(self@.text),
    {
        let n = rope_lines(&self.text);
        let len = rope_len(&self.text);
        if n > 1 && rope_line_start(&self.text, n - 1) == len {
            n - 1
        } else {
            n
        }
    }

    /// A line, with its ending.
    pub fn line(&self, idx: usize) -> (r: Vec<char>)
        requires
            idx < lines_in(self@.text),
        ensures
            r@ == line_text(self@.text, idx as int),
    {
        rope_line(&self.text, idx)
    }

    /// A line, without its ending.
    pub fn line_content(&self, idx: usize) -> (r: Vec<char>)
        requires
            idx < lines_in(self@.text),
        ensures
            r@ == line_content(self@.text, idx as int),
    {
        let mut l = rope_line(&self.text, idx);
        let n = line_len_without_newline(l.as_slice());
        let ghost whole = l@;
        l.truncate(n);
        assert(l@ =~= whole.take(n as int));
        l
    }

    /// Length of a line in chars, excluding its line ending.
    pub fn line_len(&self, idx: usize) -> (r: usize)
        ensures
            r == line_len(self@.text, idx as int),
    {
        if idx >= rope_lines(&self.text) {
            return 0;
        }
        let l = rope_line(&self.text, idx);
        line_len_without_newline(l.as_slice())
    }

    pub fn line_start(&self, line: usize) -> (r: usize)
        requires
            line <= lines_in(self@.text),
        ensures
            r == line_start(self@.text, line as int),
            r <= self@.text.len(),
    {
        proof {
            lemma_line_start(self@.text, line as int);
        }
        rope_line_start(&self.text, line)
    }

    pub fn line_end(&self, line: usize) -> (r: usize)
        requires
            line < lines_in(self@.text),
        ensures
            r == line_end(self@.text, line as int),
            line_start(self@.text, line as int) <= r <= self@.text.len(),
    {
        proof {
            lemma_line_parts(self@.text, line as int);
        }
        let n = rope_len(&self.text);
        self.line_start(line) + self.line_len(line)
    }

    /// The line of any position of the text.
    pub fn line_at(&self, pos: usize) -> (r: usize)
        requires
            pos <= self@.text.len(),
        ensures
            r == line_of(self@.text, pos as int),
            r < lines_in(self@.text),
            line_start(self@.text, r as int) <= pos,
    {
        proof {
            lemma_line_bounds(self@.text, pos as int);
        }
        rope_line_of(&self.text, pos)
    }

    pub fn cursor_line(&self) -> (r: usize)
        ensures
            r == cursor_line(self@.text, self@.cursor as int),
            r < line_count(self@.text) <= lines_in(self@.text),
            line_start(self@.text, r as int) <= self@.cursor,
    {
        proof {
            lemma_cursor_line(self@.text, self@.cursor as int);
            lemma_line_count(self@.text);
        }
        let len = rope_len(&self.text);
        let at: usize = if self.cursor <= len {
            self.cursor
        } else {
            len
        };
        let idx = rope_line_of(&self.text, at);
        let last: usize = self.line_count() - 1;
        if idx <= last {
            idx
        } else {
            last
        }
    }

    /// Cursor as (line, char offset within line).
    pub fn cursor_line_col(&self) -> (r: (usize, usize))
        ensures
            r.0 == cursor_line(self@.text, self@.cursor as int),
            r.1 == self@.cursor - line_start(self@.text, r.0 as int),
            r.0 < line_count(self@.text) <= lines_in(self@.text),
    {
        let line = self.cursor_line();
        let start = self.line_start(line);
        (line, self.cursor - start)
    }

    /// Cursor as (line, display column).
    pub fn cursor_display(&self, tab: usize) -> (r: (usize, usize))
        ensures
            r.0 == cursor_line(self@.text, self@.cursor as int),
            r.0 < line_count(self@.text) <= lines_in(self@.text),
            r.1 as int == capped_col(
                display_col(
                    line_content(self@.text, r.0 as int),
                    self@.cursor - line_start(self@.text, r.0 as int),
                    tab,
                ),
            ),
    {
        let (line, col) = self.cursor_line_col();
        let l = self.line_content(line);
        (line, char_to_display_col(l.as_slice(), col, tab))
    }

    /// Screen rows a line takes. `wrap` is the soft-wrap width, or `None` when
    /// long lines scroll sideways instead: then every line is one row.
    pub fn visual_rows(&self, line: usize, wrap: Option<usize>, tab: usize) -> (r: usize)
        requires
            line < lines_in(self@.text),
        ensures
            r == row_count(self@.text, line as int, wrap, tab),
            r >= 1,
    {
        match wrap {
            Some(w) => {
                let l = self.line_content(line);
                let rows = wrap_offsets(l.as_slice(), w, tab);
                assert(ints(rows@).len() == rows@.len());
                rows.len()
            },
            None => 1,
        }
    }

    /// The cursor as (line, visual row within that line, display column within
    /// that row).
    pub fn cursor_visual(&self, wrap: Option<usize>, tab: usize) -> (r: (usize, usize, usize))
        ensures
            ({
                let v = visual_of(self@.text, self@.cursor as int, wrap, tab);
                r.0 == v.0 && r.1 == v.1 && r.2 as int == capped_col(v.2)
            }),
            r.0 < lines_in(self@.text),
            r.1 < row_count(self@.text, r.0 as int, wrap, tab),
    {
        self.position_visual(self.cursor, wrap, tab)
    }

    /// Any document position in the same coordinates as `cursor_visual`.
    pub fn position_visual(&self, at: usize, wrap: Option<usize>, tab: usize) -> (r: (
        usize,
        usize,
        usize,
    ))
        ensures
            ({
                let v = visual_of(self@.text, at as int, wrap, tab);
                r.0 == v.0 && r.1 == v.1 && r.2 as int == capped_col(v.2)
            }),
            r.0 < lines_in(self@.text),
            r.1 < row_count(self@.text, r.0 as int, wrap, tab),
    {
        let len = rope_len(&self.text);
        let pos: usize = if at <= len {
            at
        } else {
            len
        };
        let line = self.line_at(pos);
        let col: usize = pos - self.line_start(line);
        let l = self.line_content(line);
        match wrap {
            None => (line, 0, char_to_display_col(l.as_slice(), col, tab)),
            Some(w) => {
                let rows = wrap_offsets(l.as_slice(), w, tab);
                let ghost starts = ints(rows@);
                let mut n: usize = 0;
                let mut k: usize = 0;
                while k < rows.len()
                    invariant
                        k <= rows@.len(),
                        starts == ints(rows@),
                        n == rows_before(starts, col as int, k as nat),
                        n <= k,
                        k > 0 ==> n >= 1,
                        rows@.len() >= 1,
                        rows@[0] == 0,
                        forall|i: int, j: int| 0 <= i < j < rows@.len() ==> rows@[i] < rows@[j],
                        forall|i: int| 0 <= i < n ==> #[trigger] rows@[i] <= col,
                        forall|i: int| n <= i < k ==> #[trigger] rows@[i] > col,
                    decreases rows@.len() - k,
                {
                    assert(starts[k as int] == rows@[k as int]);
                    if rows[k] <= col {
                        if n < k {
                            assert(rows@[n as int] > col);
                        }
                        n += 1;
                    }
                    k += 1;
                }
                let row: usize = n - 1;
                assert(starts[row as int] == rows@[row as int]);
                if row > 0 {
                    assert(rows@[row as int] < l@.len());
                }
                (line, row, display_col_between(l.as_slice(), rows[row], col, tab))
            },
        }
    }

    /// Visual rows from `(line, row)` `a` forward to `b`, or the largest
    /// number there is.
    pub fn rows_forward(&self, wrap: Option<usize>, tab: usize, a: (usize, usize), b: (usize, usize)) -> (r:
        usize)
        ensures
            r as int == capped(rows_apart(self@.text, wrap, tab, a, b)),
    {
        let count = self.line_count();
        let end: usize = if b.0 <= count {
            b.0
        } else {
            count
        };
        let mut n: u128 = 0;
        let mut l: usize = a.0;
        while l < end
            invariant
                a.0 <= l,
                a.0 < end ==> l <= end,
                a.0 >= end ==> l == a.0,
                end <= count <= lines_in(self@.text),
                n as int == rows_between(self@.text, a.0 as int, l as int, wrap, tab),
                n as int <= (l - a.0) * usize::MAX,
            decreases end - l,
        {
            let rows = self.visual_rows(l, wrap, tab);
            proof {
                lemma_row_sum(n as int, rows as int, l - a.0);
            }
            n = n + rows as u128;
            l += 1;
        }
        proof {
            lemma_row_sum(n as int, b.1 as int, l - a.0);
        }
        let wide: u128 = n + b.1 as u128;
        let back: u128 = a.1 as u128;
        if wide <= back {
            0
        } else if wide - back > usize::MAX as u128 {
            usize::MAX
        } else {
            (wide - back) as usize
        }
    }

    /// Step the viewport `n` visual rows: down when positive, up when negative.
    pub fn scroll_view(&mut self, wrap: Option<usize>, tab: usize, n: isize)
        requires
            old(self)@.view_line < lines_in(old(self)@.text),
            old(self)@.view_row < usize::MAX,
        ensures
            ({
                let v = scrolled(
                    old(self)@.text,
                    (old(self)@.view_line as int, old(self)@.view_row as int),
                    n as int,
                    wrap,
                    tab,
                );
                final(self)@ == (DocView {
                    view_line: v.0 as usize,
                    view_row: v.1 as usize,
                    ..old(self)@
                })
            }),
            final(self)@.view_line < lines_in(final(self)@.text),
            final(self)@.view_row < usize::MAX,
            true_to_edits(old(self)@) ==> true_to_edits(final(self)@),
    {
        let ghost d = self@;
        let ghost goal = scrolled(
            d.text,
            (d.view_line as int, d.view_row as int),
            n as int,
            wrap,
            tab,
        );
        let last: usize = self.line_count() - 1;
        let mut left: isize = n;
        while left != 0
            invariant
                d == old(self)@,
                goal == scrolled(
                    d.text,
                    (d.view_line as int, d.view_row as int),
                    n as int,
                    wrap,
                    tab,
                ),
                self@ == (DocView { view_line: self.view_line, view_row: self.view_row, ..d }),
                self.view_line < lines_in(d.text),
                self.view_row < usize::MAX,
                last + 1 == line_count(d.text),
                last < lines_in(d.text),
                goal == scrolled(
                    d.text,
                    (self.view_line as int, self.view_row as int),
                    left as int,
                    wrap,
                    tab,
                ),
            decreases
                    (if left < 0 {
                        -left
                    } else {
                        left as int
                    }),
        {
            if left > 0 {
                let rows = self.visual_rows(self.view_line, wrap, tab);
                if self.view_row + 1 < rows {
                    self.view_row = self.view_row + 1;
                } else if self.view_line < last {
                    self.view_line = self.view_line + 1;
                    self.view_row = 0;
                } else {
                    return ;
                }
                left = left - 1;
            } else {
                if self.view_row > 0 {
                    self.view_row = self.view_row - 1;
                } else if self.view_line > 0 {
                    self.view_line = self.view_line - 1;
                    let rows = self.visual_rows(self.view_line, wrap, tab);
                    self.view_row = rows - 1;
                } else {
                    return ;
                }
                left = left + 1;
            }
        }
    }

    /// Clamp the cursor into a valid position.
    ///
    /// In normal mode the cursor sits *on* a character, so it stops one short
    /// of the line end. In insert mode it sits *between* characters and may sit
    /// past the last one.
    pub fn clamp_cursor(&mut self, allow_past_end: bool)
        ensures
            final(self)@ == (DocView {
                cursor: clamped(old(self)@.text, old(self)@.cursor as int, allow_past_end) as usize,
                ..old(self)@
            }),
            final(self)@.cursor <= final(self)@.text.len(),
            final(self)@.cursor as int == clamped(
                old(self)@.text,
                old(self)@.cursor as int,
                allow_past_end,
            ),
            true_to_edits(old(self)@) ==> true_to_edits(final(self)@),
    {
        let max = rope_len(&self.text);
        if self.cursor > max {
            self.cursor = max;
        }
        let line = self.cursor_line();
        let start = self.line_start(line);
        let len = self.line_len(line);
        proof {
            lemma_line_parts(self@.text, line as int);
        }
        let limit: usize = if allow_past_end || len == 0 {
            len
        } else {
            len - 1
        };
        if self.cursor > start + limit {
            self.cursor = start + limit;
        }
        if !allow_past_end {
            self.to_cluster_start();
        }
    }

    /// The cursor back to where the cluster that it is in starts.
    pub fn to_cluster_start(&mut self)
        ensures
            final(self)@ == (DocView {
                cursor: cluster_start(old(self)@.text, old(self)@.cursor as int) as usize,
                ..old(self)@
            }),
            final(self)@.cursor <= old(self)@.cursor,
            final(self)@.cursor as int == cluster_start(
                old(self)@.text,
                old(self)@.cursor as int,
            ),
            true_to_edits(old(self)@) ==> true_to_edits(final(self)@),
    {
        reveal(cluster_start);
        let line = self.cursor_line();
        let start = self.line_start(line);
        proof {
            lemma_line_parts(self@.text, line as int);
            lemma_cluster_start(self@.text, self@.cursor as int);
        }
        let len = self.line_len(line);
        if self.cursor >= start && self.cursor - start < len {
            let l = self.line_content(line);
            self.cursor = start + cluster_floor(l.as_slice(), self.cursor - start);
        }
    }

    // ---- editing -------------------------------------------------------------

    /// The line and UTF-16 column of a position.
    pub(crate) fn lsp_position(&self, pos: usize) -> (r: (usize, usize))
        requires
            pos <= self@.text.len(),
        ensures
            r == lsp_at(self@.text, pos as int),
    {
        let line = self.line_at(pos);
        let start = self.line_start(line);
        proof {
            lemma_utf16_grows(self@.text, start as int, pos as int);
        }
        let upto = rope_utf16(&self.text, pos);
        let before = rope_utf16(&self.text, start);
        (line, upto - before)
    }

    /// Record `tx` in the change log, in the coordinates of the text it is
    /// about to be applied to. A multi-cursor transaction logs its changes
    /// last-first: each one then only moves text after the ones still to come,
    /// so all of them can be stated against the same original text.
    fn log_lsp(&mut self, tx: &Transaction)
        requires
            input_len(tx@) == old(self)@.text.len(),
        ensures
            final(self)@ == logged(old(self)@, tx@),
    {
        if self.lsp_overflow {
            return ;
        }
        let changes = tx.changes(&self.text);
        let ghost cs = changes_of(tx@);
        let ghost d = self@;
        assert(cs.len() == changes@.len());
        if changes.len() > LSP_LOG_CAP || self.lsp_log.len() > LSP_LOG_CAP - changes.len() {
            self.lsp_overflow = true;
            self.lsp_log = Vec::new();
            assert(lsp_views(self.lsp_log@) =~= Seq::empty());
            return ;
        }
        proof {
            law_changes_give_the_edit(tx@, d.text);
        }
        let mut i: usize = changes.len();
        assert(d.lsp_log + lsp_changes(d.text, cs).take(0) =~= d.lsp_log);
        while i > 0
            invariant
                i <= changes@.len(),
                cs == change_views(changes@),
                forall|k: int| 0 <= k < cs.len() ==> 0 <= (#[trigger] cs[k]).0 <= cs[k].1 <= d.text.len(),
                self@ == (DocView { lsp_log: lsp_views(self.lsp_log@), ..d }),
                lsp_views(self.lsp_log@) == d.lsp_log + lsp_changes(d.text, cs).take(cs.len() - i),
            decreases i,
        {
            i -= 1;
            assert(cs[i as int] == (
                changes@[i as int].0 as int,
                changes@[i as int].1 as int,
                changes@[i as int].2@,
            ));
            let ghost had = self.lsp_log@;
            let c = LspChange {
                start: self.lsp_position(changes[i].0),
                end: self.lsp_position(changes[i].1),
                text: changes[i].2.clone(),
            };
            self.lsp_log.push(c);
            proof {
                let all = lsp_changes(d.text, cs);
                assert(lsp_views(self.lsp_log@) =~= lsp_views(had).push(c@));
                assert(all[cs.len() - 1 - i] == c@);
                assert(all.take(cs.len() - i) =~= all.take(cs.len() - i - 1).push(c@));
            }
        }
        assert(lsp_changes(d.text, cs).take(cs.len() as int) =~= lsp_changes(d.text, cs));
    }

    /// Carry the other cursors through an edit.
    fn ride_extra(&mut self, tx: &Transaction)
        ensures
            final(self)@ == (DocView { extra: ride_all(tx@, old(self)@.extra), ..old(self)@ }),
    {
        let ghost d = self@;
        let mut out: Vec<(usize, usize)> = Vec::new();
        let mut i: usize = 0;
        while i < self.extra.len()
            invariant
                i <= self.extra@.len(),
                self@ == d,
                out@ =~= ride_all(tx@, d.extra).take(i as int),
            decreases self.extra@.len() - i,
        {
            let pair = self.extra[i];
            out.push((tx.map_pos(pair.0, false), tx.map_pos(pair.1, false)));
            i += 1;
        }
        assert(out@ =~= ride_all(tx@, d.extra));
        self.extra = out;
    }

    /// Apply a transaction and record it in the undo history.
    pub fn apply(&mut self, tx: Transaction, new_cursor: usize)
        requires
            input_len(tx@) == old(self)@.text.len(),
        ensures
            final(self)@ == applied(old(self)@, tx@, new_cursor),
            final(self)@.text == edited(tx@, old(self)@.text),
            old(self).wf() ==> final(self).wf(),
            placed(old(self)@) && new_cursor <= final(self)@.text.len() ==> placed(final(self)@)
                && final(self)@.cursor == new_cursor,
            true_to_edits(old(self)@) ==> true_to_edits(final(self)@),
    {
        let ghost d = self@;
        let ghost ops = tx@;
        proof {
            if true_to_edits(d) {
                law_edits_keep_the_history_true(d, ops, new_cursor);
            }
        }
        let len_before = rope_len(&self.text);
        if tx.is_empty() {
            proof {
                lemma_keeps_all(ops, d.text);
            }
            self.cursor = new_cursor;
            return ;
        }
        let inverse = tx.invert(&self.text);
        let cursor_before = self.cursor;
        self.log_lsp(&tx);
        tx.apply(&mut self.text);
        let len = rope_len(&self.text);
        proof {
            if doc_wf(d) {
                lemma_applied_wf(d, ops, new_cursor);
            }
            if placed(d) && new_cursor <= len {
                lemma_applied_placed(d, ops, new_cursor);
            }
        }
        self.cursor = if new_cursor <= len {
            new_cursor
        } else {
            len
        };
        self.anchor = self.cursor;
        self.ride_extra(&tx);
        self.syntax_dirty = true;
        self.modified = true;
        self.goal_col = None;
        let ghost had = self.history@;
        let entry = HistoryEntry {
            forward: tx,
            inverse,
            cursor_before,
            cursor_after: self.cursor,
            group: self.group,
        };
        self.history.push(entry);
        assert(entry_views(self.history@) =~= entry_views(had).push(entry@));
        self.redo_stack = Vec::new();
        assert(entry_views(self.redo_stack@) =~= Seq::empty());
        self.revision = self.revision.wrapping_add(1);
    }

    /// Close the current undo group. The next edit starts a new one.
    ///
    /// Called when leaving insert mode, so a burst of typing undoes as a unit.
    pub fn commit_undo_group(&mut self)
        ensures
            final(self)@ == committed(old(self)@),
            old(self).wf() ==> final(self).wf(),
            true_to_edits(old(self)@) ==> true_to_edits(final(self)@),
    {
        let n: usize = self.history.len();
        assert(entry_views(self.history@).len() == n);
        if n > 0 {
            assert(entry_views(self.history@).last() == self.history@.last()@);
            if self.history[n - 1].group == self.group {
                self.group = self.group.wrapping_add(1);
            }
        }
    }

    /// Undo the entries of the group on top. False when there is none.
    pub fn undo(&mut self) -> (done: bool)
        requires
            old(self).wf(),
        ensures
            done == (old(self)@.history.len() > 0),
            final(self)@ == undone(old(self)@),
            final(self).wf(),
            placed(old(self)@) ==> placed(final(self)@),
            true_to_edits(old(self)@) ==> true_to_edits(final(self)@),
    {
        let ghost d = self@;
        let n: usize = self.history.len();
        assert(d.history.len() == n);
        proof {
            law_undo_keeps_fitting(d);
            if true_to_edits(d) {
                law_undo_keeps_the_history_true(d);
            }
        }
        if n == 0 {
            return false;
        }
        assert(d.history.last() == self.history@.last()@);
        let target = self.history[n - 1].group;
        self.extra = Vec::new();
        assert(self.extra@ =~= Seq::empty());
        let ghost bare = self@;
        assert(bare == (DocView { extra: Seq::empty(), ..d }));
        let ghost goal = undo_group(bare, target);
        let mut more = true;
        while more
            invariant
                self.wf(),
                self@.extra.len() == 0,
                placed(d) ==> placed(self@),
                undo_group(self@, target) == goal,
                more == (self@.history.len() > 0 && self@.history.last().group == target),
            decreases self@.history.len(), more as int,
        {
            self.undo_one();
            let k: usize = self.history.len();
            assert(self@.history.len() == k);
            if k > 0 {
                assert(self@.history.last() == self.history@.last()@);
                more = self.history[k - 1].group == target;
            } else {
                more = false;
            }
        }
        self.modified = true;
        self.goal_col = None;
        self.group = self.group.wrapping_add(1);
        self.revision = self.revision.wrapping_add(1);
        true
    }

    /// Undo the entry on top of the history.
    fn undo_one(&mut self)
        requires
            old(self).wf(),
            old(self)@.history.len() > 0,
        ensures
            final(self)@ == undo_entry(old(self)@),
            final(self).wf(),
            old(self)@.extra.len() == 0 ==> placed(final(self)@) && final(self)@.extra.len() == 0,
    {
        let ghost d = self@;
        proof {
            lemma_undo_entry_wf(d);
        }
        let ghost had = self.history@;
        assert(d.history.last() == had.last()@);
        if let Some(entry) = self.history.pop() {
            assert(entry_views(self.history@) =~= d.history.drop_last());
            self.log_lsp(&entry.inverse);
            entry.inverse.apply(&mut self.text);
            self.syntax_dirty = true;
            let len = rope_len(&self.text);
            self.cursor = if entry.cursor_before <= len {
                entry.cursor_before
            } else {
                len
            };
            self.anchor = self.cursor;
            let ghost redo = self.redo_stack@;
            self.redo_stack.push(entry);
            assert(entry_views(self.redo_stack@) =~= entry_views(redo).push(entry@));
        }
    }

    /// Redo the entries of the group undone last. False when there is none.
    pub fn redo(&mut self) -> (done: bool)
        requires
            old(self).wf(),
        ensures
            done == (old(self)@.redo_stack.len() > 0),
            final(self)@ == redone(old(self)@),
            final(self).wf(),
            placed(old(self)@) ==> placed(final(self)@),
            true_to_edits(old(self)@) ==> true_to_edits(final(self)@),
    {
        let ghost d = self@;
        let n: usize = self.redo_stack.len();
        assert(d.redo_stack.len() == n);
        proof {
            law_undo_keeps_fitting(d);
            if true_to_edits(d) {
                law_undo_keeps_the_history_true(d);
            }
        }
        if n == 0 {
            return false;
        }
        assert(d.redo_stack.last() == self.redo_stack@.last()@);
        let target = self.redo_stack[n - 1].group;
        self.extra = Vec::new();
        assert(self.extra@ =~= Seq::empty());
        let ghost bare = self@;
        assert(bare == (DocView { extra: Seq::empty(), ..d }));
        let ghost goal = redo_group(bare, target);
        let mut more = true;
        while more
            invariant
                self.wf(),
                self@.extra.len() == 0,
                placed(d) ==> placed(self@),
                redo_group(self@, target) == goal,
                more == (self@.redo_stack.len() > 0 && self@.redo_stack.last().group == target),
            decreases self@.redo_stack.len(), more as int,
        {
            self.redo_one();
            let k: usize = self.redo_stack.len();
            assert(self@.redo_stack.len() == k);
            if k > 0 {
                assert(self@.redo_stack.last() == self.redo_stack@.last()@);
                more = self.redo_stack[k - 1].group == target;
            } else {
                more = false;
            }
        }
        self.modified = true;
        self.goal_col = None;
        self.revision = self.revision.wrapping_add(1);
        true
    }

    /// Redo the entry on top of the redo stack.
    fn redo_one(&mut self)
        requires
            old(self).wf(),
            old(self)@.redo_stack.len() > 0,
        ensures
            final(self)@ == redo_entry(old(self)@),
            final(self).wf(),
            old(self)@.extra.len() == 0 ==> placed(final(self)@) && final(self)@.extra.len() == 0,
    {
        let ghost d = self@;
        proof {
            lemma_redo_entry_wf(d);
        }
        let ghost had = self.redo_stack@;
        assert(d.redo_stack.last() == had.last()@);
        if let Some(entry) = self.redo_stack.pop() {
            assert(entry_views(self.redo_stack@) =~= d.redo_stack.drop_last());
            self.log_lsp(&entry.forward);
            entry.forward.apply(&mut self.text);
            self.syntax_dirty = true;
            let len = rope_len(&self.text);
            self.cursor = if entry.cursor_after <= len {
                entry.cursor_after
            } else {
                len
            };
            self.anchor = self.cursor;
            let ghost undo = self.history@;
            self.history.push(entry);
            assert(entry_views(self.history@) =~= entry_views(undo).push(entry@));
        }
    }

    // ---- language-server sync ------------------------------------------------

    /// The edits since the server was synced at `synced_revision`, if the log
    /// covers exactly that span; `None` means send the whole text. Either way
    /// the log restarts from the current revision.
    pub fn take_lsp_changes(&mut self, synced_revision: u64) -> (r: Option<Vec<LspChange>>)
        ensures
            match r {
                Some(log) => !old(self)@.lsp_overflow && old(self)@.lsp_base == synced_revision
                    && lsp_views(log@) == old(self)@.lsp_log,
                None => old(self)@.lsp_overflow || old(self)@.lsp_base != synced_revision,
            },
            final(self)@ == log_restarted(old(self)@),
            true_to_edits(old(self)@) ==> true_to_edits(final(self)@),
    {
        let usable = !self.lsp_overflow && self.lsp_base == synced_revision;
        let mut log: Vec<LspChange> = Vec::new();
        std::mem::swap(&mut log, &mut self.lsp_log);
        self.reset_lsp_log();
        if usable {
            Some(log)
        } else {
            None
        }
    }

    /// The server has just been sent the whole text.
    pub fn reset_lsp_log(&mut self)
        ensures
            final(self)@ == log_restarted(old(self)@),
            true_to_edits(old(self)@) ==> true_to_edits(final(self)@),
    {
        self.lsp_log = Vec::new();
        assert(lsp_views(self.lsp_log@) =~= Seq::empty());
        self.lsp_overflow = false;
        self.lsp_base = self.revision;
    }

    // ---- convenience edits ---------------------------------------------------

    /// Insert `s` at every cursor, as one transaction.
    ///
    /// This is what makes multi-cursor typing work: insert mode calls this per
    /// keystroke and every cursor gets the text in a single history entry.
    pub fn insert_at_cursor(&mut self, s: &str)
        requires
            cursors_in(old(self)@),
        ensures
            final(self)@ == inserted(old(self)@, s@),
            old(self).wf() ==> final(self).wf(),
            placed(old(self)@) ==> placed(final(self)@),
            true_to_edits(old(self)@) ==> true_to_edits(final(self)@),
    {
        let ghost d = self@;
        if self.extra.len() == 0 {
            let tx = Transaction::insert(&self.text, self.cursor, s);
            let c = chars_of(s);
            let new_cursor = self.cursor.saturating_add(c.len());
            proof {
                let one = seq![(d.cursor as int, d.cursor as int, Some(s@))];
                law_change_makes_the_edits(one, d.text);
                lemma_one_edit_len(d.text, one[0]);
            }
            self.apply(tx, new_cursor);
            return ;
        }
        let mut points: Vec<usize> = Vec::new();
        points.push(self.cursor);
        let mut i: usize = 0;
        assert(points@ =~= points_upto(d.cursor, d.extra, 0));
        while i < self.extra.len()
            invariant
                i <= self.extra@.len(),
                self@ == d,
                cursors_in(d),
                points@ == points_upto(d.cursor, d.extra, i as nat),
                increasing(points@),
                forall|k: int| 0 <= k < points@.len() ==> #[trigger] points@[k] <= d.text.len(),
            decreases self.extra@.len() - i,
        {
            let p = self.extra[i].1;
            assert(d.extra[i as int].1 == p);
            put_point(&mut points, p, Ghost(d.text.len()));
            i += 1;
        }
        let mut edits: Vec<(usize, usize, Option<String>)> = Vec::new();
        let mut k: usize = 0;
        while k < points.len()
            invariant
                k <= points@.len(),
                edits@.len() == k,
                forall|j: int|
                    0 <= j < k ==> (#[trigger] edits@[j]).0 == points@[j] && edits@[j].1 == points@[j]
                        && edits@[j].2 is Some && edits@[j].2->0@ == s@,
            decreases points@.len() - k,
        {
            edits.push((points[k], points[k], Some(s.to_owned())));
            k += 1;
        }
        assert(edit_views(edits@) =~= insert_edits(points@, s@));
        let ghost views = edit_views(edits@);
        assert(edits_fit(views, d.text.len() as int));
        let tx = Transaction::change(&self.text, edits);
        proof {
            law_change_makes_the_edits(views, d.text);
        }
        let new_cursor = tx.map_pos(self.cursor, false);
        proof {
            crate::transaction::law_mapped_in_bounds(tx@, d.cursor as int, false, d.text);
        }
        self.apply(tx, new_cursor);
    }

    /// Drop extra selections that duplicate the primary or each other.
    pub fn dedupe_cursors(&mut self)
        ensures
            final(self)@ == deduped(old(self)@),
            old(self).wf() ==> final(self).wf(),
            placed(old(self)@) ==> placed(final(self)@),
            true_to_edits(old(self)@) ==> true_to_edits(final(self)@),
    {
        let ghost d = self@;
        proof {
            if placed(d) {
                lemma_deduped_placed(d);
            }
        }
        let mut out: Vec<(usize, usize)> = Vec::new();
        let mut i: usize = 0;
        while i < self.extra.len()
            invariant
                i <= self.extra@.len(),
                self@ == d,
                out@ == ordered_upto(d.extra, (d.anchor, d.cursor), i as nat),
            decreases self.extra@.len() - i,
        {
            let p = self.extra[i];
            if !(p.0 == self.anchor && p.1 == self.cursor) {
                put_pair(&mut out, p);
            }
            i += 1;
        }
        self.extra = out;
    }

    /// Delete the characters `from..to`.
    pub fn delete_range(&mut self, from: usize, to: usize)
        requires
            from <= old(self)@.text.len(),
        ensures
            final(self)@ == range_deleted(old(self)@, from, to),
            old(self).wf() ==> final(self).wf(),
            placed(old(self)@) ==> placed(final(self)@),
            true_to_edits(old(self)@) ==> true_to_edits(final(self)@),
    {
        reveal(range_deleted);
        if from >= to {
            return ;
        }
        let len = rope_len(&self.text);
        let end: usize = if to <= len {
            to
        } else {
            len
        };
        let tx = Transaction::delete(&self.text, from, end);
        proof {
            let one: Seq<(int, int, Option<Seq<char>>)> = seq![(from as int, end as int, None)];
            law_change_makes_the_edits(one, self@.text);
            lemma_one_edit_len(self@.text, one[0]);
        }
        self.apply(tx, from);
    }

    /// Make the buffer read `new`, as one undo step touching only the stretch
    /// that differs. False when it already did.
    #[verifier::rlimit(60)]
    pub fn replace_all(&mut self, new: &str) -> (changed: bool)
        ensures
            changed == (old(self)@.text != new@),
            final(self)@ == replaced(old(self)@, new@),
            final(self)@.text == new@,
            old(self).wf() ==> final(self).wf(),
            placed(old(self)@) ==> placed(final(self)@),
            true_to_edits(old(self)@) ==> true_to_edits(final(self)@),
    {
        let ghost d = self@;
        proof {
            law_replaced_reads_the_new(d, new@);
        }
        let old_text = rope_string(&self.text);
        let a = chars_of(old_text.as_str());
        let b = chars_of(new);
        let mut head: usize = 0;
        while head < a.len() && head < b.len() && a[head] == b[head]
            invariant
                head <= a@.len(),
                head <= b@.len(),
                forall|k: int| 0 <= k < head ==> a@[k] == b@[k],
                common_head(a@, b@, 0) == common_head(a@, b@, head as int),
            decreases a@.len() - head,
        {
            head += 1;
        }
        if head == a.len() && head == b.len() {
            assert(a@ =~= b@);
            return false;
        }
        proof {
            if a@ == b@ {
                assert(head < a@.len() && head < b@.len() && a@[head as int] == b@[head as int]);
            }
        }
        let ra: usize = a.len() - head;
        let rb: usize = b.len() - head;
        let most: usize = if ra <= rb {
            ra
        } else {
            rb
        };
        let mut tail: usize = 0;
        while tail < most && a[a.len() - 1 - tail] == b[b.len() - 1 - tail]
            invariant
                tail <= most,
                head + most <= a@.len(),
                head + most <= b@.len(),
                common_tail(a@, b@, 0, most as int) == common_tail(a@, b@, tail as int, most as int),
            decreases most - tail,
        {
            tail += 1;
        }
        let mid = vstd::slice::slice_subrange(b.as_slice(), head, b.len() - tail);
        let inserted = string_of(mid);
        let end: usize = a.len() - tail;
        self.commit_undo_group();
        let mut edits: Vec<(usize, usize, Option<String>)> = Vec::new();
        edits.push((head, end, Some(inserted)));
        let ghost one = seq![difference(d.text, new@)];
        assert(edit_views(edits@) =~= one);
        let tx = Transaction::change(&self.text, edits);
        proof {
            law_change_makes_the_edits(one, d.text);
            if placed(d) {
                crate::transaction::law_mapped_in_bounds(tx@, d.cursor as int, true, d.text);
            }
        }
        let cursor = tx.map_pos(self.cursor, true);
        let anchor = tx.map_pos(self.anchor, true);
        self.apply(tx, cursor);
        let len = rope_len(&self.text);
        self.anchor = if anchor <= len {
            anchor
        } else {
            len
        };
        self.clamp_cursor(false);
        self.commit_undo_group();
        true
    }
}

pub open spec fn log_restarted(d: DocView) -> DocView {
    DocView { lsp_log: Seq::empty(), lsp_overflow: false, lsp_base: d.revision, ..d }
}

pub open spec fn increasing(points: Seq<usize>) -> bool {
    forall|i: int, j: int| 0 <= i < j < points.len() ==> points[i] < points[j]
}

proof fn lemma_row_sum(n: int, rows: int, lines: int)
    requires
        0 <= lines <= usize::MAX,
        n <= lines * usize::MAX,
        0 <= rows <= usize::MAX,
    ensures
        n + rows <= (lines + 1) * usize::MAX,
        n + rows <= u128::MAX,
{
    assert((lines + 1) * usize::MAX == lines * usize::MAX + usize::MAX) by (nonlinear_arith);
    let m = usize::MAX as int;
    assert(lines * m <= m * m) by (nonlinear_arith)
        requires
            0 <= lines <= m,
    ;
    assert(m * m + m <= 0xffff_ffff_ffff_ffff_ffff_ffff_ffff_ffff) by (nonlinear_arith)
        requires
            0 <= m <= 0xffff_ffff_ffff_ffff,
    ;
}

/// Put a point into an increasing list, once.
fn put_point(points: &mut Vec<usize>, p: usize, Ghost(len): Ghost<nat>)
    requires
        increasing(old(points)@),
        p <= len,
        forall|k: int| 0 <= k < old(points)@.len() ==> #[trigger] old(points)@[k] <= len,
    ensures
        final(points)@ == with_point(old(points)@, p, 0),
        increasing(final(points)@),
        forall|k: int| 0 <= k < final(points)@.len() ==> #[trigger] final(points)@[k] <= len,
{
    let ghost had = points@;
    let mut i: usize = 0;
    while i < points.len() && points[i] < p
        invariant
            i <= points@.len(),
            points@ == had,
            forall|k: int| 0 <= k < i ==> #[trigger] points@[k] < p,
            with_point(had, p, 0) == with_point(had, p, i as int),
        decreases points@.len() - i,
    {
        i += 1;
    }
    if i < points.len() && points[i] == p {
        return ;
    }
    points.insert(i, p);
    assert(points@ =~= had.take(i as int).push(p) + had.skip(i as int));
}

/// Put a selection into an ordered list, once.
pub(crate) fn put_pair(pairs: &mut Vec<(usize, usize)>, p: (usize, usize))
    ensures
        final(pairs)@ == with_pair(old(pairs)@, p, 0),
{
    let ghost had = pairs@;
    let mut i: usize = 0;
    while i < pairs.len()
        invariant
            i <= pairs@.len(),
            had == old(pairs)@,
            pairs@ == had,
            with_pair(had, p, 0) == with_pair(had, p, i as int),
        decreases pairs@.len() - i,
    {
        let q = pairs[i];
        if p.0 == q.0 && p.1 == q.1 {
            return ;
        }
        if p.0 < q.0 || (p.0 == q.0 && p.1 < q.1) {
            pairs.insert(i, p);
            assert(pairs@ =~= had.take(i as int).push(p) + had.skip(i as int));
            return ;
        }
        i += 1;
    }
    pairs.push(p);
    assert(pairs@ =~= had.take(i as int).push(p) + had.skip(i as int));
}

// ---- paths ------------------------------------------------------------------

/// Whether a piece of a path names something: the empty piece and `.` do not.
pub open spec fn names(piece: Seq<char>) -> bool {
    piece.len() > 0 && piece != "."@
}

/// The last of the first `n` pieces that names something.
pub open spec fn last_name(parts: Seq<Seq<char>>, n: nat) -> Option<Seq<char>>
    decreases n,
{
    if n == 0 || n > parts.len() {
        None
    } else if names(parts[n - 1]) {
        Some(parts[n - 1])
    } else {
        last_name(parts, (n - 1) as nat)
    }
}

/// The file name at the end of a path; one that ends in `..` has none.
pub open spec fn file_name_of(path: Seq<char>) -> Option<Seq<char>> {
    match last_name(pieces(path, '/'), pieces(path, '/').len()) {
        Some(name) => if name == ".."@ {
            None
        } else {
            Some(name)
        },
        None => None,
    }
}

/// The file name at the end of a path.
pub fn file_name(path: &str) -> (r: Option<String>)
    ensures
        opt_text(r) == file_name_of(path@),
{
    let chars = chars_of(path);
    let parts = split_at_char(chars.as_slice(), '/');
    let ghost all = slices(parts@);
    let mut i: usize = parts.len();
    while i > 0
        invariant
            i <= parts@.len(),
            all == slices(parts@),
            all == pieces(path@, '/'),
            last_name(all, all.len()) == last_name(all, i as nat),
        decreases i,
    {
        assert(all[i - 1] == parts@[i - 1]@);
        if parts[i - 1].len() > 0 && !spells(parts[i - 1], ".") {
            if spells(parts[i - 1], "..") {
                return None;
            }
            return Some(string_of(parts[i - 1]));
        }
        i -= 1;
    }
    None
}

/// The extension of a path's file name: what follows its last dot, unless
/// that is its first character.
pub open spec fn extension_of(path: Seq<char>) -> Option<Seq<char>> {
    match file_name_of(path) {
        Some(name) => {
            let k = last_before(name, '.', name.len() as int);
            if k <= 0 {
                None
            } else {
                Some(name.skip(k + 1))
            }
        },
        None => None,
    }
}

/// The extension of a path's file name.
pub fn extension(path: &str) -> (r: Option<String>)
    ensures
        opt_text(r) == extension_of(path@),
{
    match file_name(path) {
        Some(name) => {
            let chars = chars_of(name.as_str());
            let n: usize = chars.len();
            match find_last(chars.as_slice(), '.') {
                Some(k) => if k == 0 {
                    None
                } else {
                    let ext = vstd::slice::slice_subrange(chars.as_slice(), k + 1, n);
                    assert(ext@ =~= name@.skip(k + 1));
                    Some(string_of(ext))
                },
                None => None,
            }
        },
        None => None,
    }
}

// ---- saving -----------------------------------------------------------------

/// Why a write was refused.
#[derive(Clone, Copy, PartialEq, Eq, Structural, Debug)]
pub enum SaveError {
    /// The buffer has no filename.
    NoName,
    /// The file changed on disk since it was read.
    Changed,
    /// The file to write is there already.
    Exists,
}

pub open spec fn save_error_text(e: SaveError) -> Seq<char> {
    match e {
        SaveError::NoName => "buffer has no filename"@,
        SaveError::Changed => "file changed on disk since read — use :w! to overwrite"@,
        SaveError::Exists => "file exists — use :w! to overwrite"@,
    }
}

impl SaveError {
    pub fn text(self) -> (r: &'static str)
        ensures
            r@ == save_error_text(self),
    {
        match self {
            SaveError::NoName => "buffer has no filename",
            SaveError::Changed => "file changed on disk since read — use :w! to overwrite",
            SaveError::Exists => "file exists — use :w! to overwrite",
        }
    }
}

/// Whether a write may go ahead, `now` being what the disk says of the file.
/// It is refused only when disk positively contradicts the stamp: a missing
/// or unreadable file has nothing to clobber.
pub open spec fn save_allowed(d: DocView, force: bool, now: Option<u64>) -> Result<(), SaveError> {
    if d.path is None {
        Err(SaveError::NoName)
    } else if !force && now is Some && now != d.disk_mtime {
        Err(SaveError::Changed)
    } else {
        Ok(())
    }
}

/// What is left of an earlier session's swap file once it was dealt with.
pub open spec fn swap_gone(d: DocView) -> DocView {
    DocView { swap_found: false, swap_revision: d.revision, ..d }
}

/// A document whose text was written out, `mtime` being the file's stamp then.
/// Its own swap file has done its job; one holding an earlier session's work
/// stays.
pub open spec fn saved(d: DocView, mtime: Option<u64>) -> DocView {
    let s = DocView { disk_mtime: mtime, modified: false, disk_conflict: None, ..d };
    if d.swap_found {
        s
    } else {
        swap_gone(s)
    }
}

/// What `:w <path>` comes to.
#[derive(Clone, Copy, PartialEq, Eq, Structural, Debug)]
pub enum SaveAs {
    /// The path is the buffer's own file: a plain write.
    Same,
    /// The buffer was moved to the new path; write it there.
    Moved,
}

impl Document {
    /// Whether the buffer may be written out, unless the file moved
    /// underneath us: `now` is what the disk says of it. `force` is for when
    /// the user has looked and decided their buffer wins.
    pub fn save(&self, force: bool, now: Option<u64>) -> (r: Result<(), SaveError>)
        ensures
            r == save_allowed(self@, force, now),
    {
        if self.path.is_none() {
            return Err(SaveError::NoName);
        }
        if force {
            return Ok(());
        }
        match now {
            Some(n) => match self.disk_mtime {
                Some(m) => if n != m {
                    Err(SaveError::Changed)
                } else {
                    Ok(())
                },
                None => Err(SaveError::Changed),
            },
            None => Ok(()),
        }
    }

    /// The text is on disk. Whether the swap file is to be removed.
    pub fn save_done(&mut self, mtime: Option<u64>) -> (drop_swap: bool)
        ensures
            drop_swap == !old(self)@.swap_found,
            final(self)@ == saved(old(self)@, mtime),
            old(self).wf() ==> final(self).wf(),
            true_to_edits(old(self)@) ==> true_to_edits(final(self)@),
    {
        self.disk_mtime = mtime;
        self.modified = false;
        self.disk_conflict = None;
        if self.swap_found {
            false
        } else {
            self.remove_swap();
            true
        }
    }

    /// Writing failed half way: the mark on disk is ours all the same, and
    /// blaming an external process for it later would be wrong.
    pub fn save_failed(&mut self, mtime: Option<u64>)
        ensures
            final(self)@ == (DocView { disk_mtime: mtime, ..old(self)@ }),
            true_to_edits(old(self)@) ==> true_to_edits(final(self)@),
    {
        self.disk_mtime = mtime;
    }

    /// `:w <path>`. Refusing has to happen *before* the buffer is retargeted:
    /// a rejected save that already moved the path would leave the buffer
    /// pointing at a file it never wrote. `same` says whether the path is the
    /// buffer's own file however it is spelled, `exists` whether it is there.
    pub fn save_as(&mut self, path: &str, same: bool, exists: bool, force: bool) -> (r: Result<
        SaveAs,
        SaveError,
    >)
        ensures
            r == (if same {
                Ok(SaveAs::Same)
            } else if !force && exists {
                Err(SaveError::Exists)
            } else {
                Ok(SaveAs::Moved)
            }),
            final(self)@ == (if r == Ok::<SaveAs, SaveError>(SaveAs::Moved) {
                DocView {
                    path: Some(path@),
                    disk_mtime: None,
                    swap_revision: 0,
                    swap_found: false,
                    syntax_dirty: true,
                    ..old(self)@
                }
            } else {
                old(self)@
            }),
            old(self).wf() ==> final(self).wf(),
            true_to_edits(old(self)@) ==> true_to_edits(final(self)@),
    {
        if same {
            return Ok(SaveAs::Same);
        }
        if !force && exists {
            return Err(SaveError::Exists);
        }
        self.remove_swap();
        self.path = Some(path.to_owned());
        self.disk_mtime = None;
        self.swap_revision = 0;
        self.refresh_syntax();
        Ok(SaveAs::Moved)
    }

    /// Something we ran rewrote the file in place: ours, not an external edit.
    pub fn restamp(&mut self, mtime: Option<u64>)
        ensures
            final(self)@ == (DocView { disk_mtime: mtime, ..old(self)@ }),
            true_to_edits(old(self)@) ==> true_to_edits(final(self)@),
    {
        self.disk_mtime = mtime;
    }

    /// Re-read the file as one undoable edit, so a reload you didn't want is
    /// an undo away and cursors outside the changed stretch stay where they
    /// were. False when disk and buffer already agree.
    pub fn reload(&mut self, new: &str, mtime: Option<u64>) -> (changed: bool)
        ensures
            changed == (old(self)@.text != new@),
            final(self)@ == (DocView {
                modified: false,
                disk_mtime: mtime,
                disk_conflict: None,
                ..replaced(old(self)@, new@)
            }),
            old(self).wf() ==> final(self).wf(),
            placed(old(self)@) ==> placed(final(self)@),
            true_to_edits(old(self)@) ==> true_to_edits(final(self)@),
    {
        let changed = self.replace_all(new);
        let ghost r = self@;
        self.modified = false;
        self.disk_mtime = mtime;
        self.disk_conflict = None;
        assert(self@.extra == r.extra);
        changed
    }

    /// The file's name, for the status line.
    pub fn name(&self) -> (r: String)
        ensures
            r@ == doc_name(self@),
    {
        match &self.path {
            Some(p) => match file_name(p.as_str()) {
                Some(n) => n,
                None => "[no name]".to_owned(),
            },
            None => "[no name]".to_owned(),
        }
    }

    // ---- swap files ----------------------------------------------------------

    /// What to write into the swap file, if the unsaved text moved since the
    /// last time: a first line that says what it is, one with the file's
    /// canonical path, and the text. A file that holds an earlier session's
    /// work is never written over.
    pub fn write_swap(&mut self, enabled: bool, canonical: &str) -> (r: Option<String>)
        ensures
            match r {
                Some(body) => swap_due(old(self)@, enabled) && body@ == swap_body(
                    canonical@,
                    old(self)@.text,
                ) && final(self)@ == (DocView {
                    swap_revision: old(self)@.revision,
                    ..old(self)@
                }),
                None => !swap_due(old(self)@, enabled) && final(self)@ == old(self)@,
            },
            true_to_edits(old(self)@) ==> true_to_edits(final(self)@),
    {
        if !enabled || self.swap_found || !self.modified || self.revision == self.swap_revision
            || self.path.is_none() {
            return None;
        }
        let mut body: Vec<char> = Vec::new();
        push_lit(&mut body, "crow-swap\n");
        push_lit(&mut body, canonical);
        push_lit(&mut body, "\n");
        let t = rope_string(&self.text);
        push_lit(&mut body, t.as_str());
        assert(body@ =~= swap_body(canonical@, self@.text));
        self.swap_revision = self.revision;
        Some(string_of(body.as_slice()))
    }

    /// The swap file is to be removed.
    pub fn remove_swap(&mut self)
        ensures
            final(self)@ == swap_gone(old(self)@),
            old(self).wf() ==> final(self).wf(),
            true_to_edits(old(self)@) ==> true_to_edits(final(self)@),
    {
        self.swap_found = false;
        self.swap_revision = self.revision;
    }
}

pub open spec fn doc_name(d: DocView) -> Seq<char> {
    match d.path {
        Some(p) => match file_name_of(p) {
            Some(n) => n,
            None => "[no name]"@,
        },
        None => "[no name]"@,
    }
}

/// Whether the unsaved text is to be saved aside.
pub open spec fn swap_due(d: DocView, enabled: bool) -> bool {
    enabled && !d.swap_found && d.modified && d.revision != d.swap_revision && d.path is Some
}

pub open spec fn swap_body(canonical: Seq<char>, text: Seq<char>) -> Seq<char> {
    "crow-swap\n"@ + canonical + "\n"@ + text
}

/// The text that a swap file holds for the file `mine`. The header says which
/// file the text belongs to, and text of another file is not offered.
pub open spec fn swapped_text(raw: Seq<char>, mine: Seq<char>) -> Option<Seq<char>> {
    match without_prefix(raw, "crow-swap\n"@) {
        Some(rest) => match split_once(rest, '\n') {
            Some((named, text)) => if named == mine {
                Some(text)
            } else {
                None
            },
            None => None,
        },
        None => None,
    }
}

/// The text that a swap file holds for the file with the canonical path
/// `mine`, if there is one.
pub fn read_swap(raw: &str, mine: &str) -> (r: Option<String>)
    ensures
        opt_text(r) == swapped_text(raw@, mine@),
{
    let chars = chars_of(raw);
    match strip_prefix(chars.as_slice(), "crow-swap\n") {
        Some(rest) => match split_in_two(rest, '\n') {
            Some((named, text)) => if spells(named, mine) {
                Some(string_of(text))
            } else {
                None
            },
            None => None,
        },
        None => None,
    }
}

/// A swap file gives back the text that was written into it, for the file it
/// was written for, unless a line break in the path cuts its header short.
pub proof fn law_swap_gives_back(canonical: Seq<char>, text: Seq<char>)
    requires
        !canonical.contains('\n'),
    ensures
        swapped_text(swap_body(canonical, text), canonical) == Some(text),
{
    let head = "crow-swap\n"@;
    let body = swap_body(canonical, text);
    reveal_strlit("\n");
    assert(body.subrange(0, head.len() as int) =~= head);
    let rest = canonical + "\n"@ + text;
    assert(body.skip(head.len() as int) =~= rest);
    lemma_first_from(rest, '\n', 0);
    let k = first_from(rest, '\n', 0);
    let n = canonical.len() as int;
    assert(rest[n] == '\n');
    if k < n {
        assert(rest[k] == canonical[k]);
        assert(canonical.contains('\n'));
    }
    assert(k == n);
    assert(rest.take(k) =~= canonical);
    assert(rest.skip(k + 1) =~= text);
}

// ---- hashes -----------------------------------------------------------------

/// FNV-1a over the first `n` bytes: stable across runs, and that is all it is
/// for.
pub open spec fn fnv_upto(bytes: Seq<u8>, n: nat) -> u64
    decreases n,
{
    if n == 0 || n > bytes.len() {
        0xcbf2_9ce4_8422_2325
    } else {
        (fnv_upto(bytes, (n - 1) as nat) ^ (bytes[n - 1] as u64)).wrapping_mul(0x0100_0000_01b3)
    }
}

/// The hash of a text: that of its UTF-8 bytes.
pub open spec fn text_hash(s: Seq<char>) -> u64 {
    fnv_upto(encode_utf8(s), encode_utf8(s).len())
}

/// FNV-1a over the text's bytes.
pub fn hash_text(s: &str) -> (r: u64)
    ensures
        r == text_hash(s@),
{
    let bytes = s.as_bytes();
    let mut h: u64 = 0xcbf2_9ce4_8422_2325;
    let mut i: usize = 0;
    while i < bytes.len()
        invariant
            i <= bytes@.len(),
            bytes@ == encode_utf8(s@),
            h == fnv_upto(bytes@, i as nat),
        decreases bytes@.len() - i,
    {
        h = (h ^ (bytes[i] as u64)).wrapping_mul(0x0100_0000_01b3);
        i += 1;
    }
    h
}

/// A hexadecimal digit.
pub open spec fn hex_digit(n: u64) -> char {
    if n < 10 {
        ((48 + n) as u8) as char
    } else {
        ((87 + n) as u8) as char
    }
}

/// The last `k` hexadecimal digits of a number.
pub open spec fn hex(n: u64, k: nat) -> Seq<char>
    decreases k,
{
    if k == 0 {
        Seq::empty()
    } else {
        hex(n / 16, (k - 1) as nat).push(hex_digit(n % 16))
    }
}

fn push_hex(out: &mut Vec<char>, n: u64, k: usize)
    ensures
        final(out)@ == old(out)@ + hex(n, k as nat),
    decreases k,
{
    let ghost had = out@;
    if k == 0 {
        assert(out@ =~= had + hex(n, 0));
        return ;
    }
    push_hex(out, n / 16, k - 1);
    let d: u64 = n % 16;
    let c = if d < 10 {
        (48u8 + d as u8) as char
    } else {
        (87u8 + d as u8) as char
    };
    out.push(c);
    assert(out@ =~= had + hex(n, k as nat));
}

/// The name of a file in the state directory: the hash of the edited file's
/// absolute path, and an ending.
pub fn state_name(absolute: &str, ending: &str) -> (r: String)
    ensures
        r@ == hex(text_hash(absolute@), 16) + ending@,
{
    let mut out: Vec<char> = Vec::new();
    push_hex(&mut out, hash_text(absolute), 16);
    push_lit(&mut out, ending);
    assert(out@ =~= hex(text_hash(absolute@), 16) + ending@);
    string_of(out.as_slice())
}

// ---- persistent undo --------------------------------------------------------

/// An entry that a JSON value writes down.
pub open spec fn entry_of(j: Json) -> Option<EntryView> {
    match (
        ops_of(field(j, "f"@)),
        ops_of(field(j, "i"@)),
        count_of(field(j, "cb"@)),
        count_of(field(j, "ca"@)),
        count_of(field(j, "g"@)),
    ) {
        (Some(forward), Some(inverse), Some(before), Some(after), Some(group)) => Some(
            EntryView {
                forward,
                inverse,
                cursor_before: before as usize,
                cursor_after: after as usize,
                group: group as usize,
            },
        ),
        _ => None,
    }
}

pub open spec fn entries_upto(items: Seq<Json>, n: nat) -> Option<Seq<EntryView>>
    decreases n,
{
    if n == 0 || n > items.len() {
        Some(Seq::empty())
    } else {
        match (entries_upto(items, (n - 1) as nat), entry_of(items[n - 1])) {
            (Some(done), Some(e)) => Some(done.push(e)),
            _ => None,
        }
    }
}

/// The entries that an array writes down, if each item is one.
pub open spec fn entries_of(j: Json) -> Option<Seq<EntryView>> {
    match j {
        Json::Array(items) => entries_upto(items, items.len()),
        _ => None,
    }
}

/// The largest group of the first `n` entries.
pub open spec fn top_group(entries: Seq<EntryView>, n: nat) -> usize
    decreases n,
{
    if n == 0 || n > entries.len() {
        0
    } else {
        let below = top_group(entries, (n - 1) as nat);
        if entries[n - 1].group > below {
            entries[n - 1].group
        } else {
            below
        }
    }
}

/// The history that an undo file holds for a text: only if it was written for
/// this very text, and every entry fits the text that the one before it
/// leaves behind.
pub open spec fn undo_history(j: Json, text: Seq<char>) -> Option<(Seq<EntryView>, Seq<EntryView>)> {
    if text_of(field(j, "hash"@)) != Some(hex(text_hash(text), 16)) || u64_of(field(j, "len"@))
        != Some(text.len() as u64) {
        None
    } else {
        match (entries_of(field(j, "history"@)), entries_of(field(j, "redo"@))) {
            (Some(history), Some(redo)) => if stack_fits(history, history.len(), text.len(), true)
                && stack_fits(redo, redo.len(), text.len(), false) {
                Some((history, redo))
            } else {
                None
            },
            _ => None,
        }
    }
}

/// A document with the history of its undo file brought back, its next group
/// being newer than any of them.
pub open spec fn undo_loaded(d: DocView, j: Json) -> DocView {
    match undo_history(j, d.text) {
        Some((history, redo)) => {
            let a = top_group(history, history.len());
            let b = top_group(redo, redo.len());
            let next = (if a > b {
                a
            } else {
                b
            }).wrapping_add(1);
            let written = match count_of(field(j, "group"@)) {
                Some(n) => n as usize,
                None => 0,
            };
            DocView {
                history,
                redo_stack: redo,
                group: if written > next {
                    written
                } else {
                    next
                },
                ..d
            }
        },
        None => d,
    }
}

fn read_count(v: &Value) -> (r: Option<usize>)
    ensures
        match r {
            Some(n) => count_of(json_of(*v)) == Some(n as nat),
            None => count_of(json_of(*v)) is None,
        },
{
    match as_u64(v) {
        Some(n) => if n <= usize::MAX as u64 {
            Some(n as usize)
        } else {
            None
        },
        None => None,
    }
}

fn read_entry(v: &Value) -> (r: Option<HistoryEntry>)
    ensures
        match r {
            Some(e) => entry_of(json_of(*v)) == Some(e@),
            None => entry_of(json_of(*v)) is None,
        },
{
    let forward = match Transaction::from_json(at(v, "f")) {
        Some(t) => t,
        None => {
            return None;
        },
    };
    let inverse = match Transaction::from_json(at(v, "i")) {
        Some(t) => t,
        None => {
            return None;
        },
    };
    match (read_count(at(v, "cb")), read_count(at(v, "ca")), read_count(at(v, "g"))) {
        (Some(cursor_before), Some(cursor_after), Some(group)) => Some(
            HistoryEntry { forward, inverse, cursor_before, cursor_after, group },
        ),
        _ => None,
    }
}

proof fn lemma_no_entries(items: Seq<Json>, n: nat, m: nat)
    requires
        0 < n <= m <= items.len(),
        entries_upto(items, n) is None,
    ensures
        entries_upto(items, m) is None,
    decreases m,
{
    if n < m {
        lemma_no_entries(items, n, (m - 1) as nat);
    }
}

fn read_entries(v: &Value) -> (r: Option<Vec<HistoryEntry>>)
    ensures
        match r {
            Some(list) => entries_of(json_of(*v)) == Some(entry_views(list@)),
            None => entries_of(json_of(*v)) is None,
        },
{
    let items = match as_array(v) {
        Some(items) => items,
        None => {
            return None;
        },
    };
    let ghost js = jsons(items@);
    let mut out: Vec<HistoryEntry> = Vec::new();
    let mut i: usize = 0;
    assert(entry_views(out@) =~= Seq::empty());
    while i < items.len()
        invariant
            i <= items@.len(),
            js == jsons(items@),
            json_of(*v) == Json::Array(js),
            entries_upto(js, i as nat) == Some(entry_views(out@)),
        decreases items@.len() - i,
    {
        assert(js[i as int] == json_of(items@[i as int]));
        match read_entry(&items[i]) {
            Some(e) => {
                let ghost had = out@;
                out.push(e);
                assert(entry_views(out@) =~= entry_views(had).push(e@));
            },
            None => {
                proof {
                    lemma_no_entries(js, (i + 1) as nat, js.len());
                }
                return None;
            },
        }
        i += 1;
    }
    Some(out)
}

/// Whether a transaction is for texts of length `len`.
fn takes(tx: &Transaction, len: usize) -> (r: bool)
    ensures
        r == (input_len(tx@) == len),
{
    let ghost ops = tx@;
    let mut left: usize = len;
    let mut i: usize = 0;
    while i < tx.ops.len()
        invariant
            i <= tx.ops@.len(),
            ops == tx@,
            ops.len() == tx.ops@.len(),
            (input_len(ops) == len) == (input_from(ops, i as int) == left),
        decreases tx.ops@.len() - i,
    {
        assert(ops[i as int] == tx.ops@[i as int]@);
        match &tx.ops[i] {
            Op::Retain(n) => {
                if *n > left {
                    return false;
                }
                left -= *n;
            },
            Op::Delete(n) => {
                if *n > left {
                    return false;
                }
                left -= *n;
            },
            Op::Insert(_) => {},
        }
        i += 1;
    }
    left == 0
}

/// Whether a transaction leaves texts of length `len`.
fn leaves(tx: &Transaction, len: usize) -> (r: bool)
    ensures
        r == (output_len(tx@) == len),
{
    let ghost ops = tx@;
    let mut left: usize = len;
    let mut i: usize = 0;
    while i < tx.ops.len()
        invariant
            i <= tx.ops@.len(),
            ops == tx@,
            ops.len() == tx.ops@.len(),
            (output_len(ops) == len) == (output_from(ops, i as int) == left),
        decreases tx.ops@.len() - i,
    {
        assert(ops[i as int] == tx.ops@[i as int]@);
        match &tx.ops[i] {
            Op::Retain(n) => {
                if *n > left {
                    return false;
                }
                left -= *n;
            },
            Op::Delete(_) => {},
            Op::Insert(t) => {
                let c = chars_of(t.as_str());
                if c.len() > left {
                    return false;
                }
                left -= c.len();
            },
        }
        i += 1;
    }
    left == 0
}

/// Whether every entry fits the text that the one above it leaves behind,
/// walking the stack from the top down.
fn chain_ok(entries: &Vec<HistoryEntry>, len: usize, undoing: bool) -> (r: bool)
    ensures
        r == stack_fits(entry_views(entries@), entries@.len(), len as nat, undoing),
{
    let ghost all = entry_views(entries@);
    let mut expect: usize = len;
    let mut i: usize = entries.len();
    while i > 0
        invariant
            i <= entries@.len(),
            all == entry_views(entries@),
            stack_fits(all, all.len(), len as nat, undoing) == stack_fits(
                all,
                i as nat,
                expect as nat,
                undoing,
            ),
        decreases i,
    {
        let e = &entries[i - 1];
        assert(all[i - 1] == entries@[i - 1]@);
        let (here, back) = if undoing {
            (&e.inverse, &e.forward)
        } else {
            (&e.forward, &e.inverse)
        };
        let next = back.input_len();
        if !takes(here, expect) || !leaves(back, expect) || !takes(back, next) || !leaves(here, next) {
            return false;
        }
        expect = next;
        i -= 1;
    }
    true
}

fn find_top_group(entries: &Vec<HistoryEntry>) -> (r: usize)
    ensures
        r == top_group(entry_views(entries@), entries@.len()),
{
    let ghost all = entry_views(entries@);
    let mut top: usize = 0;
    let mut i: usize = 0;
    while i < entries.len()
        invariant
            i <= entries@.len(),
            all == entry_views(entries@),
            top == top_group(all, i as nat),
        decreases entries@.len() - i,
    {
        assert(all[i as int] == entries@[i as int]@);
        if entries[i].group > top {
            top = entries[i].group;
        }
        i += 1;
    }
    top
}

/// What an entry of an undo file says.
pub open spec fn says_entry(j: Json, e: EntryView) -> bool {
    &&& member(j, "f"@) == Some(ops_json(e.forward))
    &&& member(j, "i"@) == Some(ops_json(e.inverse))
    &&& member(j, "cb"@) == Some(number_json(e.cursor_before as u64))
    &&& member(j, "ca"@) == Some(number_json(e.cursor_after as u64))
    &&& member(j, "g"@) == Some(number_json(e.group as u64))
}

pub open spec fn says_entries(j: Json, entries: Seq<EntryView>) -> bool {
    match j {
        Json::Array(items) => items.len() == entries.len() && forall|i: int|
            0 <= i < entries.len() ==> says_entry(#[trigger] items[i], entries[i]),
        _ => false,
    }
}

/// The newest entries, as many as an undo file keeps.
pub open spec fn kept_history(history: Seq<EntryView>) -> Seq<EntryView> {
    if history.len() > UNDO_FILE_ENTRIES {
        history.skip(history.len() - UNDO_FILE_ENTRIES)
    } else {
        history
    }
}

/// What the undo file of a document says: which text it was written for, and
/// the history.
pub open spec fn says_undo(j: Json, d: DocView) -> bool {
    &&& member(j, "version"@) == Some(number_json(1))
    &&& member(j, "hash"@) == Some(Json::Text(hex(text_hash(d.text), 16)))
    &&& member(j, "len"@) == Some(number_json(d.text.len() as u64))
    &&& member(j, "group"@) == Some(number_json(d.group as u64))
    &&& exists|h: Json| #[trigger]
        says_entries(h, kept_history(d.history)) && member(j, "history"@) == Some(h)
    &&& exists|r: Json| #[trigger]
        says_entries(r, d.redo_stack) && member(j, "redo"@) == Some(r)
}

/// The members of an object of two or more entries, found by their keys.
proof fn lemma_entry_at(entries: Seq<(Seq<char>, Json)>, i: int, j: int)
    requires
        0 <= j <= i < entries.len(),
        crate::json::keys_differ(entries),
    ensures
        entry_from(entries, entries[i].0, j) == Some(entries[i].1),
    decreases i - j,
{
    if j < i {
        assert(entries[j].0 != entries[i].0);
        lemma_entry_at(entries, i, j + 1);
    }
}

proof fn lemma_ops_plain(ops: Seq<OpView>)
    ensures
        plain_json(ops_json(ops), 2),
{
    let items = Seq::new(ops.len(), |i: int| crate::transaction::op_json(ops[i]));
    assert forall|i: int| 0 <= i < items.len() implies plain_json(#[trigger] items[i], 1) by {
        reveal_with_fuel(plain_json, 2);
        assert(items[i] == crate::transaction::op_json(ops[i]));
    }
}

fn write_entry(e: &HistoryEntry) -> (r: Value)
    ensures
        says_entry(json_of(r), e@),
        plain_json(json_of(r), 3),
{
    let mut o: Vec<(String, Value)> = Vec::new();
    o.push(("f".to_owned(), e.forward.to_json()));
    o.push(("i".to_owned(), e.inverse.to_json()));
    o.push(("cb".to_owned(), from_u64(e.cursor_before as u64)));
    o.push(("ca".to_owned(), from_u64(e.cursor_after as u64)));
    o.push(("g".to_owned(), from_u64(e.group as u64)));
    let ghost all = json_entries(o@);
    proof {
        reveal_strlit("f");
        reveal_strlit("i");
        reveal_strlit("cb");
        reveal_strlit("ca");
        reveal_strlit("g");
        assert("f"@[0] == 'f' && "i"@[0] == 'i' && "g"@[0] == 'g');
        assert("cb"@.len() == 2 && "ca"@.len() == 2);
        assert("cb"@[1] == 'b' && "ca"@[1] == 'a');
        assert(all[0].0 == "f"@ && all[1].0 == "i"@ && all[2].0 == "cb"@ && all[3].0 == "ca"@
            && all[4].0 == "g"@);
        assert(crate::json::keys_differ(all));
        lemma_entry_at(all, 0, 0);
        lemma_entry_at(all, 1, 0);
        lemma_entry_at(all, 2, 0);
        lemma_entry_at(all, 3, 0);
        lemma_entry_at(all, 4, 0);
        lemma_ops_plain(e@.forward);
        lemma_ops_plain(e@.inverse);
        assert(forall|k: int| 0 <= k < all.len() ==> plain_json((#[trigger] all[k]).1, 2));
    }
    let r = from_entries(o);
    proof {
        crate::json::lemma_plain_object(json_of(r), all, 2);
    }
    r
}

fn write_entries(entries: &Vec<HistoryEntry>, from: usize) -> (r: Value)
    requires
        from <= entries@.len(),
    ensures
        says_entries(json_of(r), entry_views(entries@).skip(from as int)),
        plain_json(json_of(r), 4),
{
    let mut items: Vec<Value> = Vec::new();
    let mut i: usize = from;
    while i < entries.len()
        invariant
            from <= i <= entries@.len(),
            items@.len() == i - from,
            forall|k: int|
                0 <= k < i - from ==> says_entry(
                    json_of(#[trigger] items@[k]),
                    entries@[from + k]@,
                ) && plain_json(json_of(items@[k]), 3),
        decreases entries@.len() - i,
    {
        items.push(write_entry(&entries[i]));
        i += 1;
    }
    let ghost js = jsons(items@);
    assert forall|k: int| 0 <= k < js.len() implies says_entry(
        #[trigger] js[k],
        entry_views(entries@).skip(from as int)[k],
    ) by {
        assert(js[k] == json_of(items@[k]));
    }
    assert forall|k: int| 0 <= k < js.len() implies plain_json(#[trigger] js[k], 3) by {
        assert(js[k] == json_of(items@[k]));
    }
    from_array(items)
}

impl Document {
    /// The body of the undo file, stamped with a hash of the text it applies
    /// to; `None` where there is no history, and the file is to be removed.
    pub fn save_undo(&self) -> (r: Option<Value>)
        ensures
            match r {
                Some(v) => says_undo(json_of(v), self@) && plain_json(json_of(v), 5) && (
                self@.history.len() > 0 || self@.redo_stack.len() > 0),
                None => self@.history.len() == 0 && self@.redo_stack.len() == 0,
            },
    {
        assert(self@.history.len() == self.history@.len());
        assert(self@.redo_stack.len() == self.redo_stack@.len());
        if self.history.len() == 0 && self.redo_stack.len() == 0 {
            return None;
        }
        let keep: usize = if self.history.len() > UNDO_FILE_ENTRIES {
            self.history.len() - UNDO_FILE_ENTRIES
        } else {
            0
        };
        let text = rope_string(&self.text);
        let len = rope_len(&self.text);
        let mut digits: Vec<char> = Vec::new();
        push_hex(&mut digits, hash_text(text.as_str()), 16);
        let hash = string_of(digits.as_slice());
        assert(hash@ =~= hex(text_hash(self@.text), 16));
        let history = write_entries(&self.history, keep);
        let redo = write_entries(&self.redo_stack, 0);
        assert(self@.history.skip(keep as int) =~= kept_history(self@.history));
        assert(self@.redo_stack.skip(0) =~= self@.redo_stack);
        let ghost h = json_of(history);
        let ghost rd = json_of(redo);
        let mut o: Vec<(String, Value)> = Vec::new();
        o.push(("version".to_owned(), from_u64(1)));
        o.push(("hash".to_owned(), from_text(hash.as_str())));
        o.push(("len".to_owned(), from_u64(len as u64)));
        o.push(("group".to_owned(), from_u64(self.group as u64)));
        o.push(("history".to_owned(), history));
        o.push(("redo".to_owned(), redo));
        let ghost all = json_entries(o@);
        proof {
            reveal_strlit("version");
            reveal_strlit("hash");
            reveal_strlit("len");
            reveal_strlit("group");
            reveal_strlit("history");
            reveal_strlit("redo");
            assert("version"@.len() == 7 && "history"@.len() == 7 && "hash"@.len() == 4
                && "redo"@.len() == 4 && "len"@.len() == 3 && "group"@.len() == 5);
            assert("version"@[0] == 'v' && "history"@[0] == 'h');
            assert("hash"@[0] == 'h' && "redo"@[0] == 'r');
            assert(all[0].0 == "version"@ && all[1].0 == "hash"@ && all[2].0 == "len"@ && all[3].0
                == "group"@ && all[4].0 == "history"@ && all[5].0 == "redo"@);
            assert(crate::json::keys_differ(all));
            lemma_entry_at(all, 0, 0);
            lemma_entry_at(all, 1, 0);
            lemma_entry_at(all, 2, 0);
            lemma_entry_at(all, 3, 0);
            lemma_entry_at(all, 4, 0);
            lemma_entry_at(all, 5, 0);
        }
        let r = from_entries(o);
        assert(member(json_of(r), "history"@) == Some(h));
        assert(member(json_of(r), "redo"@) == Some(rd));
        proof {
            assert(forall|k: int| 0 <= k < all.len() ==> plain_json((#[trigger] all[k]).1, 4));
            crate::json::lemma_plain_object(json_of(r), all, 4);
        }
        Some(r)
    }

    /// The undo file as it is written; `None` where it is to be removed.
    pub fn undo_text(&self) -> (r: Option<String>)
        ensures
            match r {
                Some(t) => json_read(t@) is Some && says_undo(json_read(t@)->0, self@) && (
                self@.history.len() > 0 || self@.redo_stack.len() > 0),
                None => self@.history.len() == 0 && self@.redo_stack.len() == 0,
            },
    {
        match self.save_undo() {
            Some(v) => {
                proof {
                    crate::json::lemma_plain_deeper(json_of(v), 5, 127);
                }
                Some(crate::json::write_json(&v))
            },
            None => None,
        }
    }

    /// Bring back the history that an undo file holds, once it is parsed: only
    /// if the file on disk is the very text it was written for. Anything else
    /// and the history would replay onto the wrong text.
    pub fn load_undo_from(&mut self, body: &Value)
        ensures
            final(self)@ == undo_loaded(old(self)@, json_of(*body)),
            old(self).wf() ==> final(self).wf(),
    {
        let ghost d = self@;
        let text = rope_string(&self.text);
        let len = rope_len(&self.text);
        let mut digits: Vec<char> = Vec::new();
        push_hex(&mut digits, hash_text(text.as_str()), 16);
        let hash = string_of(digits.as_slice());
        assert(hash@ =~= hex(text_hash(d.text), 16));
        match as_text(at(body, "hash")) {
            Some(h) => if !same(h, hash.as_str()) {
                return ;
            },
            None => {
                return ;
            },
        }
        match as_u64(at(body, "len")) {
            Some(n) => if n != len as u64 {
                return ;
            },
            None => {
                return ;
            },
        }
        let history = match read_entries(at(body, "history")) {
            Some(list) => list,
            None => {
                return ;
            },
        };
        let redo = match read_entries(at(body, "redo")) {
            Some(list) => list,
            None => {
                return ;
            },
        };
        assert(entry_views(history@).len() == history@.len());
        assert(entry_views(redo@).len() == redo@.len());
        if !chain_ok(&history, len, true) || !chain_ok(&redo, len, false) {
            return ;
        }
        let a = find_top_group(&history);
        let b = find_top_group(&redo);
        let next = (if a > b {
            a
        } else {
            b
        }).wrapping_add(1);
        let written: usize = match read_count(at(body, "group")) {
            Some(n) => n,
            None => 0,
        };
        self.group = if written > next {
            written
        } else {
            next
        };
        self.history = history;
        self.redo_stack = redo;
    }

    /// Bring back the history that an undo file holds; a file that is no JSON
    /// holds none.
    pub fn load_undo(&mut self, raw: &str)
        ensures
            final(self)@ == match json_read(raw@) {
                Some(j) => undo_loaded(old(self)@, j),
                None => old(self)@,
            },
            old(self).wf() ==> final(self).wf(),
    {
        match parse_json(raw) {
            Some(body) => self.load_undo_from(&body),
            None => {},
        }
    }
}

proof fn lemma_says_entries(j: Json, entries: Seq<EntryView>, n: nat)
    requires
        says_entries(j, entries),
        n <= entries.len(),
        entries_writable(entries),
    ensures
        entries_upto(j->Array_0, n) == Some(entries.take(n as int)),
    decreases n,
{
    if n == 0 {
        assert(entries.take(0) =~= Seq::empty());
    } else {
        lemma_says_entries(j, entries, (n - 1) as nat);
        let e = entries[n - 1];
        assert(says_entry(j->Array_0[n - 1], e));
        law_json_round_trip(e.forward);
        law_json_round_trip(e.inverse);
        assert(entry_of(j->Array_0[n - 1]) == Some(e));
        assert(entries.take(n - 1).push(e) =~= entries.take(n as int));
    }
}

/// Whether every count of the entries fits a machine word, as those of a real
/// document do.
pub open spec fn entries_writable(entries: Seq<EntryView>) -> bool {
    forall|i: int|
        0 <= i < entries.len() ==> counts_fit((#[trigger] entries[i]).forward) && counts_fit(
            entries[i].inverse,
        )
}

proof fn lemma_top_fits(stack: Seq<EntryView>, k: nat, n: nat, len: nat)
    requires
        k <= n <= stack.len(),
        stack_fits(stack, n, len, true),
    ensures
        stack_fits(stack.skip(k as int), (n - k) as nat, len, true),
    decreases n,
{
    if k < n {
        lemma_top_fits(stack, k, (n - 1) as nat, input_len(stack[n - 1].forward));
    }
}

proof fn lemma_top_true(stack: Seq<EntryView>, k: nat, n: nat, s: Seq<char>)
    requires
        k <= n <= stack.len(),
        true_history(stack, n, s),
    ensures
        true_history(stack.skip(k as int), (n - k) as nat, s),
    decreases n,
{
    if k < n {
        lemma_top_true(stack, k, (n - 1) as nat, edited(stack[n - 1].inverse, s));
    }
}

/// Undo history survives closing the file: what `save_undo` wrote for a
/// document, `load_undo` brings back to a document with the same text, the
/// whole history or, of a longer one than an undo file keeps, its newest
/// entries.
pub proof fn law_undo_survives(j: Json, d: DocView, reopened: DocView)
    requires
        says_undo(j, d),
        doc_wf(d),
        d.text.len() <= usize::MAX,
        entries_writable(d.history),
        entries_writable(d.redo_stack),
        reopened.text == d.text,
    ensures
        undo_loaded(reopened, j).history == kept_history(d.history),
        undo_loaded(reopened, j).redo_stack == d.redo_stack,
        undo_loaded(reopened, j).text == d.text,
{
    let k = kept_history(d.history);
    let h = choose|h: Json| #[trigger] says_entries(h, k) && member(j, "history"@) == Some(h);
    let r = choose|r: Json| #[trigger]
        says_entries(r, d.redo_stack) && member(j, "redo"@) == Some(r);
    if d.history.len() > UNDO_FILE_ENTRIES {
        lemma_top_fits(
            d.history,
            (d.history.len() - UNDO_FILE_ENTRIES) as nat,
            d.history.len(),
            d.text.len(),
        );
    }
    lemma_says_entries(h, k, k.len());
    lemma_says_entries(r, d.redo_stack, d.redo_stack.len());
    assert(k.take(k.len() as int) =~= k);
    assert(d.redo_stack.take(d.redo_stack.len() as int) =~= d.redo_stack);
    assert(entries_of(h) == Some(k));
    assert(entries_of(r) == Some(d.redo_stack));
}

/// An undo file that was written for another text changes nothing, whatever
/// history it holds: another text is one of another length, or of another
/// hash.
pub proof fn law_an_undo_file_of_another_text_is_left_alone(j: Json, d: DocView, reopened: DocView)
    requires
        says_undo(j, d),
        d.text.len() <= u64::MAX,
        reopened.text.len() <= u64::MAX,
        d.text.len() != reopened.text.len() || hex(text_hash(d.text), 16) != hex(
            text_hash(reopened.text),
            16,
        ),
    ensures
        undo_loaded(reopened, j) == reopened,
{
}

/// What is written of a document's history brings the history back: from the
/// text of the undo file, as far as the file keeps it.
pub proof fn law_undo_text_survives(t: Seq<char>, d: DocView, reopened: DocView)
    requires
        json_read(t) is Some,
        says_undo(json_read(t)->0, d),
        doc_wf(d),
        d.text.len() <= usize::MAX,
        entries_writable(d.history),
        entries_writable(d.redo_stack),
        reopened.text == d.text,
    ensures
        undo_loaded(reopened, json_read(t)->0).history == kept_history(d.history),
        undo_loaded(reopened, json_read(t)->0).redo_stack == d.redo_stack,
{
    law_undo_survives(json_read(t)->0, d, reopened);
}

/// A history that comes back from an undo file is as true as the one that was
/// written.
pub proof fn law_a_loaded_history_is_true(j: Json, d: DocView, reopened: DocView)
    requires
        says_undo(j, d),
        doc_wf(d),
        true_to_edits(d),
        d.text.len() <= usize::MAX,
        entries_writable(d.history),
        entries_writable(d.redo_stack),
        reopened.text == d.text,
    ensures
        true_to_edits(undo_loaded(reopened, j)),
{
    reveal(true_stacks);
    law_undo_survives(j, d, reopened);
    if d.history.len() > UNDO_FILE_ENTRIES {
        lemma_top_true(
            d.history,
            (d.history.len() - UNDO_FILE_ENTRIES) as nat,
            d.history.len(),
            d.text,
        );
    }
}

} // verus!
