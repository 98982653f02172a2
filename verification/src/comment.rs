//! Commenting and uncommenting the selected lines.

use vstd::prelude::*;
use crate::desk::doc_ok;
use crate::document::{
    applied, clamped, committed, cursor_line, extension, extension_of, law_an_edit_is_one_step,
    lemma_clamped, lemma_cluster_start, lemma_cursor_line, lemma_line_count, lemma_line_parts,
    line_content, line_count, line_len, min_int, placed, ride, true_to_edits, undone, DocView,
    Document,
};
use crate::editor::{doc_of, on_doc, said, Editor, EditorView};
use crate::pieces::{
    are_lines, is_whole_line, joined_upto, lemma_ending, lemma_lines_joined, lemma_made_of_lines,
    lemma_on_piece, lines_of,
};
use crate::selections::{selections_of, sels_in};
use crate::strings::{chars_of, is_at, push_all, same, stands_at, string_of};
use crate::strip::is_blank;
use crate::text::{
    content_len, is_break, lemma_line_bounds, lemma_line_of_grows, lemma_line_start,
    lemma_line_start_grows, line_of, line_start, line_text, lines_in, rope_len, rope_lines,
};
use crate::transaction::{
    change_ops, edit_text, edit_views, edits_fit, edits_head, law_change_makes_the_edits,
    law_mapped_in_bounds, mapped, mapped_from, ops_upto, EditView, OpView, Transaction,
};

verus! {

/// What begins a comment in files with an extension.
pub open spec fn comment_mark(ext: Seq<char>) -> Option<Seq<char>> {
    if ext == "rs"@ || ext == "go"@ || ext == "c"@ || ext == "h"@ || ext == "cpp"@ || ext == "js"@
        || ext == "ts"@ || ext == "jsx"@ || ext == "tsx"@ || ext == "java"@ || ext == "oxi"@ {
        Some("//"@)
    } else if ext == "py"@ || ext == "sh"@ || ext == "rb"@ || ext == "toml"@ || ext == "yaml"@ || ext
        == "yml"@ {
        Some("#"@)
    } else if ext == "lua"@ || ext == "sql"@ {
        Some("--"@)
    } else {
        None
    }
}

fn mark_for(ext: &str) -> (r: Option<&'static str>)
    ensures
        match r {
            Some(m) => comment_mark(ext@) == Some(m@),
            None => comment_mark(ext@) is None,
        },
{
    if same(ext, "rs") || same(ext, "go") || same(ext, "c") || same(ext, "h") || same(ext, "cpp")
        || same(ext, "js") || same(ext, "ts") || same(ext, "jsx") || same(ext, "tsx") || same(
        ext,
        "java",
    ) || same(ext, "oxi") {
        Some("//")
    } else if same(ext, "py") || same(ext, "sh") || same(ext, "rb") || same(ext, "toml") || same(
        ext,
        "yaml",
    ) || same(ext, "yml") {
        Some("#")
    } else if same(ext, "lua") || same(ext, "sql") {
        Some("--")
    } else {
        None
    }
}

// ---- the lines --------------------------------------------------------------------

/// The last character that a selection takes in, or where it stands.
pub open spec fn last_of(sel: (usize, usize)) -> int {
    if sel.0 < sel.1 {
        sel.1 - 1
    } else {
        sel.0 as int
    }
}

/// Whether a selection touches a line.
pub open spec fn touches(s: Seq<char>, sel: (usize, usize), line: int) -> bool {
    line_of(s, sel.0 as int) <= line <= line_of(s, last_of(sel))
}

/// Whether some selection touches a line.
pub open spec fn is_touched(d: DocView, line: int) -> bool {
    exists|i: int|
        0 <= i < selections_of(d).len() && touches(d.text, #[trigger] selections_of(d)[i], line)
}

/// The blanks that a line begins with.
pub open spec fn blanks_before(l: Seq<char>, i: int) -> int
    decreases l.len() - i,
{
    if i < 0 || i >= l.len() || !is_blank(l[i]) {
        i
    } else {
        blanks_before(l, i + 1)
    }
}

/// Whether a line is to be looked at: it is touched, and not blank.
pub open spec fn in_question(d: DocView, line: int) -> bool {
    is_touched(d, line) && blanks_before(line_content(d.text, line), 0) < line_content(
        d.text,
        line,
    ).len()
}

pub open spec fn is_commented(l: Seq<char>, mark: Seq<char>) -> bool {
    stands_at(l, mark, blanks_before(l, 0))
}

/// Whether all the lines in question are commented.
pub open spec fn all_commented(d: DocView, mark: Seq<char>) -> bool {
    forall|line: int|
        0 <= line < lines_in(d.text) && #[trigger] in_question(d, line) ==> is_commented(
            line_content(d.text, line),
            mark,
        )
}

/// The edit that comments a line, or takes its comment off with the space
/// behind the mark.
pub open spec fn line_edit(s: Seq<char>, line: int, mark: Seq<char>, off: bool) -> EditView {
    let l = line_content(s, line);
    let n = blanks_before(l, 0);
    let at = line_start(s, line) + n;
    if off {
        (
            at,
            at + mark.len() + (if n + mark.len() < l.len() && l[n + mark.len()] == ' ' {
                1int
            } else {
                0int
            }),
            None,
        )
    } else {
        (at, at, Some(mark.push(' ')))
    }
}

/// The edits of the lines in question among the first `n`.
pub open spec fn comment_edits(d: DocView, mark: Seq<char>, off: bool, n: nat) -> Seq<EditView>
    decreases n,
{
    if n == 0 {
        Seq::empty()
    } else {
        let rest = comment_edits(d, mark, off, (n - 1) as nat);
        if in_question(d, n - 1) {
            rest.push(line_edit(d.text, n - 1, mark, off))
        } else {
            rest
        }
    }
}

/// A document with the selected lines commented, or, where they all are, with
/// their comments taken off: as one undo step.
#[verifier::opaque]
pub open spec fn comments_toggled(d: DocView, mark: Seq<char>) -> DocView {
    let es = comment_edits(d, mark, all_commented(d, mark), lines_in(d.text));
    if es.len() == 0 {
        d
    } else {
        let ops = change_ops(es, d.text.len() as int);
        let a = applied(committed(d), ops, ride(ops, d.cursor));
        let b = DocView {
            anchor: min_int(ride(ops, d.anchor) as int, a.text.len() as int) as usize,
            ..a
        };
        committed(DocView { cursor: clamped(b.text, b.cursor as int, false) as usize, ..b })
    }
}

proof fn lemma_blanks(l: Seq<char>, i: int)
    requires
        0 <= i <= l.len(),
    ensures
        i <= blanks_before(l, i) <= l.len(),
    decreases l.len() - i,
{
    if i < l.len() && is_blank(l[i]) {
        lemma_blanks(l, i + 1);
    }
}

fn count_blanks(l: &[char]) -> (n: usize)
    ensures
        n == blanks_before(l@, 0),
        n <= l@.len(),
{
    let mut n: usize = 0;
    while n < l.len() && (l[n] == ' ' || l[n] == '\t')
        invariant
            n <= l@.len(),
            blanks_before(l@, 0) == blanks_before(l@, n as int),
        decreases l@.len() - n,
    {
        n += 1;
    }
    n
}

proof fn lemma_line_edit(s: Seq<char>, line: int, mark: Seq<char>, off: bool)
    requires
        0 <= line < lines_in(s),
        off ==> is_commented(line_content(s, line), mark),
    ensures
        ({
            let e = line_edit(s, line, mark, off);
            line_start(s, line) <= e.0 <= e.1 <= line_start(s, line + 1) <= s.len()
        }),
{
    lemma_line_parts(s, line);
    lemma_blanks(line_content(s, line), 0);
}

proof fn lemma_edits_fit(d: DocView, mark: Seq<char>, off: bool, n: nat)
    requires
        n <= lines_in(d.text),
        off ==> all_commented(d, mark),
    ensures
        edits_fit(comment_edits(d, mark, off, n), d.text.len() as int),
        forall|k: int|
            0 <= k < comment_edits(d, mark, off, n).len() ==> (#[trigger] comment_edits(
                d,
                mark,
                off,
                n,
            )[k]).1 <= line_start(d.text, n as int),
    decreases n,
{
    if n > 0 {
        lemma_edits_fit(d, mark, off, (n - 1) as nat);
        lemma_line_start_grows(d.text, n - 1, n as int);
        let rest = comment_edits(d, mark, off, (n - 1) as nat);
        let all = comment_edits(d, mark, off, n);
        if in_question(d, n - 1) {
            lemma_line_edit(d.text, n - 1, mark, off);
            lemma_line_parts(d.text, n - 1);
            let e = line_edit(d.text, n - 1, mark, off);
            assert forall|k: int| 0 <= k < all.len() implies 0 <= (#[trigger] all[k]).0 <= all[k].1
                <= d.text.len() && all[k].1 <= line_start(d.text, n as int) by {
                if k < rest.len() {
                    assert(all[k] == rest[k]);
                } else {
                    assert(all[k] == e);
                }
            }
            assert forall|a: int, b: int| 0 <= a < b < all.len() implies (#[trigger] all[a]).1 <= (
            #[trigger] all[b]).0 by {
                assert(all[a] == rest[a]);
                if b < rest.len() {
                    assert(all[b] == rest[b]);
                }
            }
        }
    }
}

impl Document {
    fn touched(&self, sels: &Vec<(usize, usize)>, line: usize) -> (r: bool)
        requires
            sels@ == selections_of(self@),
            sels_in(sels@, self@.text.len() as int),
        ensures
            r == is_touched(self@, line as int),
    {
        let mut i: usize = 0;
        while i < sels.len()
            invariant
                i <= sels@.len(),
                sels@ == selections_of(self@),
                sels_in(sels@, self@.text.len() as int),
                forall|k: int|
                    0 <= k < i ==> !touches(
                        self@.text,
                        #[trigger] selections_of(self@)[k],
                        line as int,
                    ),
            decreases sels@.len() - i,
        {
            let sel = sels[i];
            assert(sels@[i as int].0 <= sels@[i as int].1 <= self@.text.len());
            let last: usize = if sel.0 < sel.1 {
                sel.1 - 1
            } else {
                sel.0
            };
            if self.line_at(sel.0) <= line && line <= self.line_at(last) {
                assert(touches(self@.text, selections_of(self@)[i as int], line as int));
                return true;
            }
            i += 1;
        }
        false
    }

    fn questioned(&self, sels: &Vec<(usize, usize)>, line: usize) -> (r: bool)
        requires
            sels@ == selections_of(self@),
            sels_in(sels@, self@.text.len() as int),
            line < lines_in(self@.text),
        ensures
            r == in_question(self@, line as int),
    {
        if !self.touched(sels, line) {
            return false;
        }
        let l = self.line_content(line);
        count_blanks(l.as_slice()) < l.len()
    }

    fn line_is_commented(&self, line: usize, mark: &[char]) -> (r: bool)
        requires
            line < lines_in(self@.text),
        ensures
            r == is_commented(line_content(self@.text, line as int), mark@),
    {
        let l = self.line_content(line);
        let n = count_blanks(l.as_slice());
        is_at(l.as_slice(), mark, n)
    }

    fn all_are_commented(&self, sels: &Vec<(usize, usize)>, mark: &[char]) -> (r: bool)
        requires
            sels@ == selections_of(self@),
            sels_in(sels@, self@.text.len() as int),
        ensures
            r == all_commented(self@, mark@),
    {
        let n = rope_lines(&self.text);
        let mut line: usize = 0;
        while line < n
            invariant
                line <= n,
                n == lines_in(self@.text),
                sels@ == selections_of(self@),
                sels_in(sels@, self@.text.len() as int),
                forall|k: int|
                    0 <= k < line && #[trigger] in_question(self@, k) ==> is_commented(
                        line_content(self@.text, k),
                        mark@,
                    ),
            decreases n - line,
        {
            if self.questioned(sels, line) && !self.line_is_commented(line, mark) {
                assert(in_question(self@, line as int));
                return false;
            }
            line += 1;
        }
        true
    }

    fn edit_of_line(&self, line: usize, mark: &[char], off: bool) -> (r: (
        usize,
        usize,
        Option<String>,
    ))
        requires
            line < lines_in(self@.text),
            off ==> is_commented(line_content(self@.text, line as int), mark@),
        ensures
            edit_views(seq![r])[0] == line_edit(self@.text, line as int, mark@, off),
    {
        proof {
            lemma_line_edit(self@.text, line as int, mark@, off);
            lemma_line_parts(self@.text, line as int);
        }
        let len = rope_len(&self.text);
        let l = self.line_content(line);
        let n = count_blanks(l.as_slice());
        let at = self.line_start(line) + n;
        if off {
            let end: usize = at + mark.len();
            let to: usize = if l.len() - n > mark.len() && l[n + mark.len()] == ' ' {
                end + 1
            } else {
                end
            };
            (at, to, None)
        } else {
            let mut v: Vec<char> = Vec::new();
            push_all(&mut v, mark);
            v.push(' ');
            assert(v@ =~= mark@.push(' '));
            (at, at, Some(string_of(&v)))
        }
    }

    fn list_edits(&self, sels: &Vec<(usize, usize)>, mark: &[char], off: bool) -> (r: Vec<
        (usize, usize, Option<String>),
    >)
        requires
            sels@ == selections_of(self@),
            sels_in(sels@, self@.text.len() as int),
            off == all_commented(self@, mark@),
        ensures
            edit_views(r@) == comment_edits(self@, mark@, off, lines_in(self@.text)),
    {
        let n = rope_lines(&self.text);
        let mut out: Vec<(usize, usize, Option<String>)> = Vec::new();
        let mut line: usize = 0;
        assert(edit_views(out@) =~= Seq::empty());
        while line < n
            invariant
                line <= n,
                n == lines_in(self@.text),
                sels@ == selections_of(self@),
                sels_in(sels@, self@.text.len() as int),
                off == all_commented(self@, mark@),
                edit_views(out@) == comment_edits(self@, mark@, off, line as nat),
            decreases n - line,
        {
            if self.questioned(sels, line) {
                let ghost had = out@;
                assert(in_question(self@, line as int));
                let e = self.edit_of_line(line, mark, off);
                let ghost one = e;
                assert(edit_views(seq![one])[0] == line_edit(
                    self@.text,
                    line as int,
                    mark@,
                    off,
                ));
                out.push(e);
                assert(edit_views(out@) =~= edit_views(had).push(edit_views(seq![one])[0]));
            }
            line += 1;
        }
        out
    }

    /// Comment the selected lines, or take their comments off where they all
    /// have one.
    pub fn toggle_comments(&mut self, mark: &str)
        requires
            doc_ok(old(self)@),
        ensures
            final(self)@ == comments_toggled(old(self)@, mark@),
            doc_ok(final(self)@),
            true_to_edits(old(self)@) ==> true_to_edits(final(self)@),
    {
        reveal(comments_toggled);
        let m = chars_of(mark);
        let sels = self.selections();
        let off = self.all_are_commented(&sels, m.as_slice());
        let edits = self.list_edits(&sels, m.as_slice(), off);
        if edits.len() == 0 {
            return ;
        }
        self.make_comment_edits(edits, Ghost(mark@));
    }

    fn make_comment_edits(
        &mut self,
        edits: Vec<(usize, usize, Option<String>)>,
        Ghost(mark): Ghost<Seq<char>>,
    )
        requires
            doc_ok(old(self)@),
            edits@.len() > 0,
            edit_views(edits@) == comment_edits(
                old(self)@,
                mark,
                all_commented(old(self)@, mark),
                lines_in(old(self)@.text),
            ),
        ensures
            final(self)@ == comments_toggled(old(self)@, mark),
            doc_ok(final(self)@),
            true_to_edits(old(self)@) ==> true_to_edits(final(self)@),
    {
        reveal(comments_toggled);
        let ghost d = self@;
        let ghost views = edit_views(edits@);
        proof {
            lemma_edits_fit(d, mark, all_commented(d, mark), lines_in(d.text));
        }
        let tx = Transaction::change(&self.text, edits);
        proof {
            law_change_makes_the_edits(views, d.text);
            law_mapped_in_bounds(tx@, d.cursor as int, false, d.text);
            law_mapped_in_bounds(tx@, d.anchor as int, false, d.text);
        }
        let cursor = tx.map_pos(self.cursor, false);
        let anchor = tx.map_pos(self.anchor, false);
        self.commit_undo_group();
        self.apply(tx, cursor);
        let len = rope_len(&self.text);
        self.anchor = if anchor <= len {
            anchor
        } else {
            len
        };
        self.clamp_cursor(false);
        self.commit_undo_group();
    }
}

// ---- the command ------------------------------------------------------------------

pub open spec fn front_mark(d: DocView) -> Option<Seq<char>> {
    match d.path {
        Some(p) => match extension_of(p) {
            Some(e) => comment_mark(e),
            None => None,
        },
        None => None,
    }
}

/// The selected lines of the buffer in front commented or uncommented.
#[verifier::opaque]
pub open spec fn comment_run(e: EditorView) -> EditorView {
    match front_mark(doc_of(e)) {
        Some(mark) => on_doc(e, comments_toggled(doc_of(e), mark)),
        None => said(e, "no comment syntax for this buffer"@),
    }
}

impl Document {
    fn mark(&self) -> (r: Option<&'static str>)
        ensures
            match r {
                Some(m) => front_mark(self@) == Some(m@),
                None => front_mark(self@) is None,
            },
    {
        match &self.path {
            Some(p) => match extension(p.as_str()) {
                Some(e) => mark_for(e.as_str()),
                None => None,
            },
            None => None,
        }
    }
}

impl Editor {
    pub(crate) fn toggle_comment(&mut self)
        requires
            old(self).wf(),
        ensures
            final(self)@ == comment_run(old(self)@),
            final(self).wf(),
    {
        reveal(comment_run);
        match self.doc().mark() {
            Some(m) => {
                self.doc_mut().toggle_comments(m);
                return ;
            },
            None => {
                self.set_status("no comment syntax for this buffer");
                return ;
            },
        }
    }
}

// ---- one step ---------------------------------------------------------------------

/// Commenting lines, or taking their comments off, is one undo step.
pub proof fn law_commenting_is_one_step(d: DocView, mark: Seq<char>)
    requires
        comments_toggled(d, mark).text != d.text,
    ensures
        undone(comments_toggled(d, mark)).text == d.text,
        undone(comments_toggled(d, mark)).history == d.history,
{
    reveal(comments_toggled);
    let off = all_commented(d, mark);
    let es = comment_edits(d, mark, off, lines_in(d.text));
    lemma_edits_fit(d, mark, off, lines_in(d.text));
    law_change_makes_the_edits(es, d.text);
    let ops = change_ops(es, d.text.len() as int);
    law_an_edit_is_one_step(
        committed(d),
        ops,
        ride(ops, d.cursor),
        comments_toggled(d, mark),
    );
}

// ---- line by line -----------------------------------------------------------------

/// Whether a text has nothing but blanks.
pub open spec fn all_blank(l: Seq<char>) -> bool {
    forall|k: int| 0 <= k < l.len() ==> is_blank(#[trigger] l[k])
}

/// Whether a line has anything to say: a character that is neither a blank nor
/// its end.
pub open spec fn says_something(l: Seq<char>) -> bool {
    exists|k: int| 0 <= k < l.len() && !is_blank(#[trigger] l[k]) && !is_break(l[k])
}

/// Whether a mark is the first that stands on a line, behind its blanks.
pub open spec fn is_marked(l: Seq<char>, mark: Seq<char>) -> bool {
    exists|n: int| 0 <= n <= l.len() && all_blank(#[trigger] l.take(n)) && stands_at(l, mark, n)
}

/// A mark as there are: not empty, beginning with no blank, on one line.
pub open spec fn is_plain_mark(mark: Seq<char>) -> bool {
    mark.len() > 0 && !is_blank(mark[0]) && forall|k: int|
        0 <= k < mark.len() ==> !is_break(#[trigger] mark[k])
}

/// The `i`th selection as it is held, the primary first.
pub open spec fn held_sel(d: DocView, i: int) -> (usize, usize) {
    if i == 0 {
        (d.anchor, d.cursor)
    } else {
        d.extra[i - 1]
    }
}

/// Whether the `i`th selection takes in a place, or stands there.
pub open spec fn takes_in(d: DocView, i: int, k: int) -> bool {
    let (a, b) = held_sel(d, i);
    ||| a <= k < b
    ||| b <= k < a
    ||| a == k == b
}

/// Whether some selection takes in a place of a line.
pub open spec fn is_selected_line(d: DocView, line: int) -> bool {
    exists|i: int, k: int|
        0 <= i <= d.extra.len() && #[trigger] takes_in(d, i, k) && line_of(d.text, k) == line
}

/// Whether some selected line says something that is not commented.
pub open spec fn is_uncommented(d: DocView, mark: Seq<char>) -> bool {
    exists|line: int|
        0 <= line < lines_in(d.text) && #[trigger] is_selected_line(d, line) && says_something(
            line_text(d.text, line),
        ) && !is_marked(line_text(d.text, line), mark)
}

/// A line that would go with its mark: nothing but the mark, between an `\r`
/// and a `\n` that end lines by themselves and would end one together.
pub open spec fn would_vanish(s: Seq<char>, mark: Seq<char>, line: int) -> bool {
    &&& 0 < line < lines_in(s)
    &&& line_text(s, line - 1).last() == '\r'
    &&& line_text(s, line) == mark.push('\n') || line_text(s, line) == mark.push(' ').push('\n')
}

proof fn lemma_selected(d: DocView, line: int)
    requires
        placed(d),
        0 <= line < lines_in(d.text),
    ensures
        is_selected_line(d, line) == is_touched(d, line),
{
    let s = d.text;
    lemma_line_start(s, line);
    if is_selected_line(d, line) {
        let (i, k) = choose|i: int, k: int|
            0 <= i <= d.extra.len() && #[trigger] takes_in(d, i, k) && line_of(d.text, k) == line;
        let sel = selections_of(d)[i];
        assert(sel.0 <= k <= last_of(sel));
        lemma_line_of_grows(s, sel.0 as int, k);
        lemma_line_of_grows(s, k, last_of(sel));
        assert(touches(s, selections_of(d)[i], line));
    }
    if is_touched(d, line) {
        let i = choose|i: int|
            0 <= i < selections_of(d).len() && touches(d.text, #[trigger] selections_of(d)[i], line);
        let sel = selections_of(d)[i];
        let at = line_start(s, line);
        if line_of(s, sel.0 as int) == line {
            assert(takes_in(d, i, sel.0 as int));
        } else {
            if sel.0 >= at {
                lemma_line_of_grows(s, at, sel.0 as int);
            }
            if last_of(sel) < at {
                assert(line_of(s, last_of(sel)) < line);
            }
            assert(takes_in(d, i, at));
        }
    }
}

proof fn lemma_blanks_stand(l: Seq<char>, i: int)
    requires
        0 <= i <= l.len(),
    ensures
        i <= blanks_before(l, i) <= l.len(),
        forall|k: int| i <= k < blanks_before(l, i) ==> is_blank(#[trigger] l[k]),
        blanks_before(l, i) < l.len() ==> !is_blank(l[blanks_before(l, i)]),
    decreases l.len() - i,
{
    if i < l.len() && is_blank(l[i]) {
        lemma_blanks_stand(l, i + 1);
    }
}

/// A line that is split into its blanks and the rest.
spec fn is_split(s: Seq<char>, line: int, indent: Seq<char>, rest: Seq<char>) -> bool {
    &&& line_text(s, line) == indent + rest
    &&& all_blank(indent)
    &&& rest.len() > 0 ==> !is_blank(rest[0])
}

proof fn lemma_split(s: Seq<char>, line: int, indent: Seq<char>, rest: Seq<char>)
    requires
        0 <= line < lines_in(s),
        is_split(s, line, indent, rest),
    ensures
        blanks_before(line_content(s, line), 0) == indent.len(),
        (indent.len() < line_content(s, line).len()) == (rest.len() > 0 && !is_break(rest[0])),
        says_something(line_text(s, line)) == (rest.len() > 0 && !is_break(rest[0])),
        line_content(s, line).len() == content_len(line_text(s, line)),
{
    let t = line_text(s, line);
    let l = line_content(s, line);
    let n = indent.len() as int;
    lemma_ending(s, line);
    lemma_blanks_stand(l, 0);
    let b = blanks_before(l, 0);
    assert forall|k: int| 0 <= k < n implies is_blank(#[trigger] t[k]) by {
        assert(t[k] == indent[k]);
    }
    assert(rest.len() > 0 ==> t[n] == rest[0]);
    assert(n <= l.len()) by {
        if l.len() < n {
            assert(is_break(t[l.len() as int]));
        }
    }
    if b < n {
        assert(is_blank(t[b]));
    }
    if b > n {
        assert(is_blank(l[n]));
    }
    if rest.len() > 0 && !is_break(rest[0]) {
        assert(!is_blank(t[n]) && !is_break(t[n]));
        if n >= l.len() {
            assert(is_break(t[n]));
        }
    } else {
        if n < l.len() {
            assert(!is_break(t[n]));
        }
        assert forall|k: int| 0 <= k < t.len() implies is_blank(#[trigger] t[k]) || is_break(
            t[k],
        ) by {
            if k >= n {
                assert(is_break(t[k]));
            }
        }
    }
}

proof fn lemma_splits(s: Seq<char>, line: int) -> (r: (Seq<char>, Seq<char>))
    requires
        0 <= line < lines_in(s),
    ensures
        is_split(s, line, r.0, r.1),
{
    let t = line_text(s, line);
    lemma_blanks_stand(t, 0);
    let n = blanks_before(t, 0);
    assert(t.take(n) + t.skip(n) =~= t);
    (t.take(n), t.skip(n))
}

proof fn lemma_marked(s: Seq<char>, line: int, mark: Seq<char>, indent: Seq<char>, rest: Seq<char>)
    requires
        0 <= line < lines_in(s),
        is_split(s, line, indent, rest),
        is_plain_mark(mark),
    ensures
        is_marked(line_text(s, line), mark) == stands_at(rest, mark, 0),
        is_commented(line_content(s, line), mark) == stands_at(rest, mark, 0),
{
    let t = line_text(s, line);
    let l = line_content(s, line);
    let n = indent.len() as int;
    let m = mark.len() as int;
    lemma_split(s, line, indent, rest);
    lemma_ending(s, line);
    if stands_at(rest, mark, 0) {
        assert(t.subrange(n, n + m) =~= mark);
        assert(t.take(n) =~= indent);
        assert(l.len() >= n + m) by {
            if l.len() < n + m {
                let k = if l.len() > n {
                    l.len() as int
                } else {
                    n
                };
                assert(is_break(t[k]));
                assert(t[k] == t.subrange(n, n + m)[k - n]);
                assert(!is_break(mark[k - n]));
            }
        }
        assert(l.subrange(n, n + m) =~= mark);
    }
    if is_commented(l, mark) {
        assert(rest.subrange(0, m) =~= l.subrange(n, n + m));
    }
    if is_marked(t, mark) {
        let k = choose|k: int|
            0 <= k <= t.len() && all_blank(#[trigger] t.take(k)) && stands_at(t, mark, k);
        assert(t[k] == t.subrange(k, k + m)[0]);
        if k < n {
            assert(t[k] == indent[k]);
        } else if k > n {
            assert(t.take(k)[n] == rest[0]);
        }
        assert(rest.subrange(0, m) =~= t.subrange(n, n + m));
    }
}

/// Where there is a line to comment, and where all are commented.
proof fn lemma_off(d: DocView, mark: Seq<char>)
    requires
        placed(d),
        is_plain_mark(mark),
    ensures
        is_uncommented(d, mark) == !all_commented(d, mark),
{
    let s = d.text;
    assert forall|line: int| 0 <= line < lines_in(s) implies #[trigger] in_question(d, line) == (
    is_selected_line(d, line) && says_something(line_text(s, line))) && is_marked(
        line_text(s, line),
        mark,
    ) == is_commented(line_content(s, line), mark) by {
        let r = lemma_splits(s, line);
        lemma_split(s, line, r.0, r.1);
        lemma_marked(s, line, mark, r.0, r.1);
        lemma_selected(d, line);
    }
    if is_uncommented(d, mark) {
        let line = choose|line: int|
            0 <= line < lines_in(s) && #[trigger] is_selected_line(d, line) && says_something(
                line_text(s, line),
            ) && !is_marked(line_text(s, line), mark);
        assert(in_question(d, line));
    }
    if !all_commented(d, mark) {
        let line = choose|line: int|
            0 <= line < lines_in(s) && #[trigger] in_question(d, line) && !is_commented(
                line_content(s, line),
                mark,
            );
        assert(is_selected_line(d, line));
    }
}

/// A line once it has been commented, or its comment taken off.
spec fn line_after(d: DocView, mark: Seq<char>, off: bool, line: int) -> Seq<char> {
    let e = line_edit(d.text, line, mark, off);
    if in_question(d, line) {
        d.text.subrange(line_start(d.text, line), e.0) + edit_text(e) + d.text.subrange(
            e.1,
            line_start(d.text, line + 1),
        )
    } else {
        line_text(d.text, line)
    }
}

spec fn lines_after(d: DocView, mark: Seq<char>, off: bool) -> Seq<Seq<char>> {
    Seq::new(lines_in(d.text), |l: int| line_after(d, mark, off, l))
}

proof fn lemma_head_same(s: Seq<char>, a: Seq<EditView>, b: Seq<EditView>, n: nat)
    requires
        n <= a.len(),
        n <= b.len(),
        forall|k: int| 0 <= k < n ==> a[k] == b[k],
    ensures
        edits_head(s, a, n) == edits_head(s, b, n),
    decreases n,
{
    if n > 0 {
        lemma_head_same(s, a, b, (n - 1) as nat);
    }
}

spec fn done_upto(es: Seq<EditView>) -> int {
    if es.len() > 0 {
        es.last().1
    } else {
        0
    }
}

proof fn lemma_lines_made(d: DocView, mark: Seq<char>, off: bool, n: nat)
    requires
        n <= lines_in(d.text),
        off ==> all_commented(d, mark),
    ensures
        ({
            let es = comment_edits(d, mark, off, n);
            0 <= done_upto(es) <= line_start(d.text, n as int) && edits_head(d.text, es, es.len())
                + d.text.subrange(done_upto(es), line_start(d.text, n as int)) == joined_upto(
                lines_after(d, mark, off),
                n,
            )
        }),
    decreases n,
{
    let s = d.text;
    lemma_line_start(s, n as int);
    lemma_edits_fit(d, mark, off, n);
    let all = comment_edits(d, mark, off, n);
    if all.len() > 0 {
        assert(all[all.len() - 1].1 <= line_start(s, n as int));
        assert(0 <= all[all.len() - 1].0 <= all[all.len() - 1].1);
    }
    if n == 0 {
        assert(line_start(s, 0) == 0);
        assert(edits_head(s, all, 0) + s.subrange(0, 0) =~= Seq::empty());
    } else {
        let m = (n - 1) as nat;
        lemma_lines_made(d, mark, off, m);
        lemma_line_start(s, m as int);
        lemma_line_start_grows(s, m as int, n as int);
        let rest = comment_edits(d, mark, off, m);
        let e = line_edit(s, m as int, mark, off);
        let x = done_upto(rest);
        let a = line_start(s, m as int);
        let b = line_start(s, n as int);
        let head = edits_head(s, rest, rest.len());
        if in_question(d, m as int) {
            lemma_line_edit(s, m as int, mark, off);
            lemma_head_same(s, all, rest, rest.len());
            assert(all.len() >= 2 ==> all[all.len() - 2] == rest.last());
            assert(edits_head(s, all, all.len()) == head + s.subrange(x, e.0) + edit_text(e));
            lemma_edited_piece(s, head, x, a, e, b);
        } else {
            assert(all == rest);
            lemma_kept_piece(s, head, x, a, b);
        }
    }
}

proof fn lemma_edited_piece(s: Seq<char>, head: Seq<char>, x: int, a: int, e: EditView, b: int)
    requires
        0 <= x <= a <= e.0 <= e.1 <= b <= s.len(),
    ensures
        head + s.subrange(x, e.0) + edit_text(e) + s.subrange(e.1, b) == head + s.subrange(x, a) + (
        s.subrange(a, e.0) + edit_text(e) + s.subrange(e.1, b)),
{
    assert(s.subrange(x, e.0) =~= s.subrange(x, a) + s.subrange(a, e.0));
    assert(head + s.subrange(x, e.0) + edit_text(e) + s.subrange(e.1, b) =~= head + s.subrange(x, a)
        + (s.subrange(a, e.0) + edit_text(e) + s.subrange(e.1, b)));
}

proof fn lemma_kept_piece(s: Seq<char>, head: Seq<char>, x: int, a: int, b: int)
    requires
        0 <= x <= a <= b <= s.len(),
    ensures
        head + s.subrange(x, b) == head + s.subrange(x, a) + s.subrange(a, b),
{
    assert(head + s.subrange(x, b) =~= head + s.subrange(x, a) + s.subrange(a, b));
}

proof fn lemma_toggled_text(d: DocView, mark: Seq<char>)
    ensures
        comments_toggled(d, mark).text == joined_upto(
            lines_after(d, mark, all_commented(d, mark)),
            lines_in(d.text),
        ),
{
    reveal(comments_toggled);
    let s = d.text;
    let off = all_commented(d, mark);
    let es = comment_edits(d, mark, off, lines_in(s));
    lemma_lines_made(d, mark, off, lines_in(s));
    lemma_line_start(s, lines_in(s) as int);
    lemma_edits_fit(d, mark, off, lines_in(s));
    law_change_makes_the_edits(es, s);
    assert(s.subrange(done_upto(es), s.len() as int) =~= s.skip(done_upto(es)));
    let ops = change_ops(es, s.len() as int);
    if es.len() == 0 {
        assert(edits_head(s, es, 0) + s.skip(0) =~= s);
    } else if crate::transaction::keeps_all(ops) {
        crate::document::lemma_keeps_all(ops, s);
    }
}

proof fn lemma_after(
    d: DocView,
    mark: Seq<char>,
    off: bool,
    line: int,
    indent: Seq<char>,
    rest: Seq<char>,
)
    requires
        0 <= line < lines_in(d.text),
        is_split(d.text, line, indent, rest),
        off ==> stands_at(rest, mark, 0),
        in_question(d, line),
    ensures
        line_after(d, mark, off, line) == indent + (if !off {
            mark.push(' ') + rest
        } else if mark.len() < rest.len() && rest[mark.len() as int] == ' ' {
            rest.skip(mark.len() as int + 1)
        } else {
            rest.skip(mark.len() as int)
        }),
{
    let s = d.text;
    let t = line_text(s, line);
    let l = line_content(s, line);
    let n = indent.len() as int;
    let m = mark.len() as int;
    let a = line_start(s, line);
    let b = line_start(s, line + 1);
    lemma_split(s, line, indent, rest);
    lemma_ending(s, line);
    lemma_line_parts(s, line);
    let e = line_edit(s, line, mark, off);
    assert(e.0 == a + n);
    assert(s.subrange(a, e.0) =~= indent) by {
        assert forall|k: int| 0 <= k < n implies s[a + k] == indent[k] by {
            assert(t[k] == indent[k]);
        }
    }
    assert forall|k: int| 0 <= k < rest.len() implies s[a + n + k] == rest[k] by {
        assert(t[n + k] == rest[k]);
    }
    if off {
        if m < rest.len() && rest[m] == ' ' {
            assert(t[n + m] == ' ');
            assert(n + m < l.len()) by {
                if n + m >= l.len() {
                    assert(is_break(t[n + m]));
                }
            }
        } else if n + m < l.len() {
            assert(l[n + m] == t[n + m]);
        }
        let k = e.1 - a - n;
        assert(s.subrange(e.1, b) =~= rest.skip(k));
        assert(line_after(d, mark, off, line) =~= indent + rest.skip(k));
    } else {
        assert(s.subrange(e.1, b) =~= rest);
        assert(line_after(d, mark, off, line) =~= indent + (mark.push(' ') + rest));
    }
}

proof fn lemma_after_lines(d: DocView, mark: Seq<char>, off: bool)
    requires
        is_plain_mark(mark),
        placed(d),
        off ==> all_commented(d, mark),
        off ==> forall|line: int| is_selected_line(d, line) ==> !#[trigger] would_vanish(
            d.text,
            mark,
            line,
        ),
    ensures
        are_lines(lines_after(d, mark, off)),
{
    let s = d.text;
    let ps = lines_of(s);
    let qs = lines_after(d, mark, off);
    lemma_made_of_lines(s);
    assert forall|l: int| 0 <= l < ps.len() implies after_keeps(ps[l], #[trigger] qs[l]) && (l > 0
        && ps[l - 1].len() > 0 && ps[l - 1].last() == '\r' && qs[l].len() > 0 && qs[l][0] == '\n'
        ==> ps[l].len() > 0 && ps[l][0] == '\n') by {
        assert(ps[l] == line_text(s, l));
        lemma_after_keeps(d, mark, off, l);
    }
    assert forall|l: int| 0 <= l < qs.len() - 1 implies is_whole_line(#[trigger] qs[l]) && (
    qs[l].last() == '\r' ==> qs[l + 1].len() == 0 || qs[l + 1][0] != '\n') by {
        assert(is_whole_line(ps[l]));
        assert(after_keeps(ps[l], qs[l]));
        assert(after_keeps(ps[l + 1], qs[l + 1]));
        let p = ps[l];
        let q = qs[l];
        let x = p.len() - q.len();
        assert(q.last() == p.last()) by {
            assert(is_break(p[p.len() - 1]));
        }
        assert forall|k: int| 0 <= k < q.len() - 1 && is_break(#[trigger] q[k]) implies k == q.len()
            - 2 && q[k] == '\r' && q.last() == '\n' by {
            assert(is_break(p[k + x]) && p[k + x] == q[k]);
        }
    }
    assert(after_keeps(ps.last(), qs.last()));
    assert forall|k: int| 0 <= k < qs.last().len() implies !is_break(#[trigger] qs.last()[k]) by {
        if is_break(qs.last()[k]) {
            let x = ps.last().len() - qs.last().len();
            assert(is_break(ps.last()[k + x]));
        }
    }
}

/// Whether a line has kept its ending and got no other.
spec fn after_keeps(p: Seq<char>, q: Seq<char>) -> bool {
    let x = p.len() - q.len();
    &&& forall|k: int|
        0 <= k < p.len() && is_break(#[trigger] p[k]) ==> 0 <= k - x && p[k] == q[k - x]
    &&& forall|k: int|
        0 <= k < q.len() && is_break(#[trigger] q[k]) ==> 0 <= k + x && p[k + x] == q[k]
}

proof fn lemma_after_keeps(d: DocView, mark: Seq<char>, off: bool, line: int)
    requires
        is_plain_mark(mark),
        placed(d),
        0 <= line < lines_in(d.text),
        off ==> all_commented(d, mark),
        off ==> (is_selected_line(d, line) ==> !would_vanish(d.text, mark, line)),
    ensures
        ({
            let p = line_text(d.text, line);
            let q = line_after(d, mark, off, line);
            &&& after_keeps(p, q)
            &&& line > 0 && line_text(d.text, line - 1).len() > 0 && line_text(
                d.text,
                line - 1,
            ).last() == '\r' && q.len() > 0 && q[0] == '\n' ==> p.len() > 0 && p[0] == '\n'
        }),
{
    let s = d.text;
    let p = line_text(s, line);
    let q = line_after(d, mark, off, line);
    if in_question(d, line) {
        let (indent, rest) = lemma_splits(s, line);
        lemma_split(s, line, indent, rest);
        lemma_marked(s, line, mark, indent, rest);
        lemma_selected(d, line);
        lemma_ending(s, line);
        assert(off ==> is_commented(line_content(s, line), mark));
        lemma_after(d, mark, off, line, indent, rest);
        let n = indent.len() as int;
        let m = mark.len() as int;
        let x = p.len() - q.len();
        assert forall|k: int| 0 <= k < n implies p[k] == #[trigger] indent[k] && is_blank(p[k]) by {}
        if off {
            let cut = if m < rest.len() && rest[m] == ' ' {
                m + 1
            } else {
                m
            };
            assert(x == cut);
            assert forall|k: int| 0 <= k < cut implies !is_break(#[trigger] p[n + k]) by {
                assert(p[n + k] == rest[k]);
                if k < m {
                    assert(rest.subrange(0, m)[k] == mark[k]);
                }
            }
            assert forall|k: int| 0 <= k < p.len() && is_break(#[trigger] p[k]) implies 0 <= k - x
                && p[k] == q[k - x] by {
                if k >= n && k < n + cut {
                    assert(!is_break(p[n + (k - n)]));
                }
                if k < n {
                    assert(is_blank(indent[k]));
                }
            }
            assert forall|k: int| 0 <= k < q.len() && is_break(#[trigger] q[k]) implies 0 <= k + x
                && p[k + x] == q[k] by {
                if k < n {
                    assert(q[k] == indent[k]);
                }
            }
            if q.len() > 0 && q[0] == '\n' {
                if n > 0 {
                    assert(q[0] == indent[0]);
                }
                assert(p[cut] == '\n');
                lemma_lone_break(s, line, cut);
                if line > 0 && line_text(s, line - 1).len() > 0 && line_text(s, line - 1).last()
                    == '\r' {
                    assert(rest.subrange(0, m) =~= mark);
                    if cut == m {
                        assert(p =~= mark.push('\n'));
                    } else {
                        assert(p =~= mark.push(' ').push('\n'));
                    }
                    assert(would_vanish(s, mark, line));
                }
            }
        } else {
            assert(x == -(m + 1));
            assert forall|k: int| 0 <= k < p.len() && is_break(#[trigger] p[k]) implies 0 <= k - x
                && p[k] == q[k - x] by {
                if k < n {
                    assert(is_blank(indent[k]));
                }
            }
            assert forall|k: int| 0 <= k < q.len() && is_break(#[trigger] q[k]) implies 0 <= k + x
                && p[k + x] == q[k] by {
                if k < n {
                    assert(q[k] == indent[k]);
                } else if k < n + m {
                    assert(q[k] == mark[k - n]);
                } else if k == n + m {
                    assert(q[k] == ' ');
                }
            }
            if q[0] == '\n' {
                if n > 0 {
                    assert(q[0] == indent[0]);
                } else {
                    assert(q[0] == mark[0]);
                }
            }
        }
    }
}

proof fn lemma_lone_break(s: Seq<char>, line: int, k: int)
    requires
        0 <= line < lines_in(s),
        0 <= k < line_text(s, line).len(),
        line_text(s, line)[k] == '\n',
    ensures
        k == line_text(s, line).len() - 1,
{
    lemma_made_of_lines(s);
    let ps = lines_of(s);
    assert(ps[line] == line_text(s, line));
    if line < ps.len() - 1 {
        assert(is_whole_line(ps[line]));
    } else {
        assert(!is_break(ps.last()[k]));
    }
}

proof fn lemma_toggled_lines(d: DocView, mark: Seq<char>)
    requires
        is_plain_mark(mark),
        placed(d),
        all_commented(d, mark) ==> forall|line: int|
            is_selected_line(d, line) ==> !#[trigger] would_vanish(d.text, mark, line),
    ensures
        lines_of(comments_toggled(d, mark).text) == lines_after(d, mark, all_commented(d, mark)),
{
    lemma_toggled_text(d, mark);
    lemma_after_lines(d, mark, all_commented(d, mark));
    lemma_lines_joined(lines_after(d, mark, all_commented(d, mark)));
}

/// Commenting, line by line: where some selected line is not commented, every
/// selected line that says anything gets the mark and a space behind the
/// blanks that it begins with, and the other lines stay.
pub proof fn law_commenting_puts_the_mark_behind_the_blanks(
    d: DocView,
    mark: Seq<char>,
    line: int,
    indent: Seq<char>,
    rest: Seq<char>,
)
    requires
        placed(d),
        is_plain_mark(mark),
        is_uncommented(d, mark),
        0 <= line < lines_in(d.text),
        line_text(d.text, line) == indent + rest,
        all_blank(indent),
        rest.len() > 0 ==> !is_blank(rest[0]),
    ensures
        lines_in(comments_toggled(d, mark).text) == lines_in(d.text),
        line_text(comments_toggled(d, mark).text, line) == (if is_selected_line(d, line)
            && rest.len() > 0 && !is_break(rest[0]) {
            indent + mark + seq![' '] + rest
        } else {
            indent + rest
        }),
{
    lemma_off(d, mark);
    lemma_toggled_lines(d, mark);
    lemma_selected(d, line);
    lemma_split(d.text, line, indent, rest);
    let r = comments_toggled(d, mark).text;
    assert(lines_of(r).len() == lines_in(r));
    assert(lines_of(r)[line] == line_text(r, line));
    if in_question(d, line) {
        lemma_after(d, mark, false, line, indent, rest);
        assert(indent + (mark.push(' ') + rest) =~= indent + mark + seq![' '] + rest);
    }
}

/// Taking comments off, line by line: where every selected line that says
/// anything is commented, each of them loses the mark and one space behind
/// it, and keeps the blanks that it begins with; the other lines stay.
pub proof fn law_uncommenting_takes_the_mark_and_a_space(
    d: DocView,
    mark: Seq<char>,
    line: int,
    indent: Seq<char>,
    rest: Seq<char>,
)
    requires
        placed(d),
        is_plain_mark(mark),
        !is_uncommented(d, mark),
        forall|l: int| is_selected_line(d, l) ==> !#[trigger] would_vanish(d.text, mark, l),
        0 <= line < lines_in(d.text),
        line_text(d.text, line) == indent + mark + rest,
        all_blank(indent),
    ensures
        lines_in(comments_toggled(d, mark).text) == lines_in(d.text),
        line_text(comments_toggled(d, mark).text, line) == (if !is_selected_line(d, line) {
            indent + mark + rest
        } else if rest.len() > 0 && rest[0] == ' ' {
            indent + rest.skip(1)
        } else {
            indent + rest
        }),
{
    let tail = mark + rest;
    let r = comments_toggled(d, mark).text;
    assert(indent + mark + rest == indent + tail) by {
        assert(indent + mark + rest =~= indent + tail);
    }
    assert(tail[0] == mark[0]);
    assert(stands_at(tail, mark, 0)) by {
        assert(tail.subrange(0, mark.len() as int) =~= mark);
    }
    assert(tail.skip(mark.len() as int) == rest) by {
        assert(tail.skip(mark.len() as int) =~= rest);
    }
    assert(rest.len() > 0 ==> tail.skip(mark.len() as int + 1) == rest.skip(1)) by {
        if rest.len() > 0 {
            assert(tail.skip(mark.len() as int + 1) =~= rest.skip(1));
        }
    }
    assert(rest.len() > 0 ==> tail[mark.len() as int] == rest[0]);
    lemma_uncommented_line(d, mark, line, indent, tail);
}

proof fn lemma_uncommented_line(
    d: DocView,
    mark: Seq<char>,
    line: int,
    indent: Seq<char>,
    tail: Seq<char>,
)
    requires
        placed(d),
        is_plain_mark(mark),
        !is_uncommented(d, mark),
        forall|l: int| is_selected_line(d, l) ==> !#[trigger] would_vanish(d.text, mark, l),
        0 <= line < lines_in(d.text),
        is_split(d.text, line, indent, tail),
        stands_at(tail, mark, 0),
        tail[0] == mark[0],
    ensures
        lines_in(comments_toggled(d, mark).text) == lines_in(d.text),
        line_text(comments_toggled(d, mark).text, line) == (if !is_selected_line(d, line) {
            indent + tail
        } else if mark.len() < tail.len() && tail[mark.len() as int] == ' ' {
            indent + tail.skip(mark.len() as int + 1)
        } else {
            indent + tail.skip(mark.len() as int)
        }),
{
    lemma_off(d, mark);
    lemma_toggled_lines(d, mark);
    lemma_selected(d, line);
    lemma_split(d.text, line, indent, tail);
    let r = comments_toggled(d, mark).text;
    assert(lines_after(d, mark, true).len() == lines_in(d.text));
    assert(lines_of(r).len() == lines_in(r));
    assert(lines_of(r)[line] == line_text(r, line));
    assert(lines_after(d, mark, true)[line] == line_after(d, mark, true, line));
    if in_question(d, line) {
        lemma_after(d, mark, true, line, indent, tail);
    }
}

/// Commenting and then taking the comments off the same lines gives the text
/// back.
pub proof fn law_uncommenting_undoes_commenting(d: DocView, e: DocView, mark: Seq<char>)
    requires
        placed(d),
        placed(e),
        is_plain_mark(mark),
        is_uncommented(d, mark),
        e.text == comments_toggled(d, mark).text,
        forall|line: int| #[trigger] is_selected_line(e, line) == is_selected_line(d, line),
    ensures
        comments_toggled(e, mark).text == d.text,
{
    let s = d.text;
    let t = e.text;
    let n = lines_in(s) as int;
    lemma_off(d, mark);
    lemma_toggled_lines(d, mark);
    assert(lines_after(d, mark, false).len() == n);
    assert(lines_of(t).len() == lines_in(t));
    assert forall|line: int| 0 <= line < n && is_selected_line(e, line) implies (says_something(
        #[trigger] line_text(t, line),
    ) ==> is_marked(line_text(t, line), mark)) && !would_vanish(t, mark, line) by {
        lemma_back(d, e, mark, line);
    }
    assert(!is_uncommented(e, mark));
    lemma_off(e, mark);
    assert forall|line: int| is_selected_line(e, line) implies !#[trigger] would_vanish(
        t,
        mark,
        line,
    ) by {
        if 0 < line < n {
            assert(says_something(line_text(t, line)) ==> is_marked(line_text(t, line), mark));
        }
    }
    lemma_toggled_lines(e, mark);
    let r = comments_toggled(e, mark).text;
    assert forall|line: int| 0 <= line < n implies #[trigger] lines_of(r)[line] == lines_of(
        s,
    )[line] by {
        lemma_back(d, e, mark, line);
    }
    assert(lines_of(r) =~= lines_of(s));
    lemma_made_of_lines(r);
    lemma_made_of_lines(s);
    assert(lines_in(r) == lines_of(r).len());
}

proof fn lemma_back(d: DocView, e: DocView, mark: Seq<char>, line: int)
    requires
        placed(d),
        placed(e),
        is_plain_mark(mark),
        !all_commented(d, mark),
        e.text == comments_toggled(d, mark).text,
        lines_of(e.text) == lines_after(d, mark, false),
        is_selected_line(e, line) == is_selected_line(d, line),
        0 <= line < lines_in(d.text),
    ensures
        lines_in(e.text) == lines_in(d.text),
        is_selected_line(e, line) && says_something(line_text(e.text, line)) ==> is_marked(
            line_text(e.text, line),
            mark,
        ),
        is_selected_line(e, line) ==> !would_vanish(e.text, mark, line),
        all_commented(e, mark) ==> line_after(e, mark, true, line) == line_text(d.text, line),
{
    let s = d.text;
    let t = e.text;
    assert(lines_of(t).len() == lines_in(t));
    assert(lines_of(t)[line] == line_text(t, line));
    let (indent, rest) = lemma_splits(s, line);
    lemma_split(s, line, indent, rest);
    lemma_selected(d, line);
    lemma_selected(e, line);
    if in_question(d, line) {
        lemma_after(d, mark, false, line, indent, rest);
        let tail = mark.push(' ') + rest;
        let m = mark.len() as int;
        assert(line_text(t, line) == indent + tail);
        assert(tail[0] == mark[0]);
        assert(tail.subrange(0, m) =~= mark);
        lemma_split(t, line, indent, tail);
        lemma_marked(t, line, mark, indent, tail);
        if would_vanish(t, mark, line) {
            let u = line_text(t, line);
            let last = u.len() - 1;
            assert(u[last] == '\n');
            assert(u.len() <= m + 2);
            assert(u.len() == indent.len() + m + 1 + rest.len());
            assert(rest.len() == 1 && indent.len() == 0);
            assert(u[last] == rest[0]);
        }
        lemma_after(e, mark, true, line, indent, tail);
        assert(tail[m] == ' ');
        assert(tail.skip(m + 1) =~= rest);
    } else {
        lemma_split(t, line, indent, rest);
        if would_vanish(t, mark, line) {
            let u = line_text(t, line);
            assert(u[0] == mark[0]);
            assert(!is_blank(u[0]) && !is_break(u[0]));
            assert(says_something(u));
        }
    }
}

// ---- twice ------------------------------------------------------------------------

/// With a bare cursor only its line is in question.
proof fn lemma_bare(d: DocView, line: int)
    requires
        d.extra.len() == 0,
        d.anchor == d.cursor,
    ensures
        is_selected_line(d, line) <==> line == line_of(d.text, d.cursor as int),
{
    if line == line_of(d.text, d.cursor as int) {
        assert(takes_in(d, 0, d.cursor as int));
    }
}

proof fn lemma_one_edit(d: DocView, mark: Seq<char>, off: bool, line: int, n: nat)
    requires
        0 <= line < lines_in(d.text),
        n <= lines_in(d.text),
        forall|l: int| 0 <= l < lines_in(d.text) ==> (#[trigger] in_question(d, l) <==> l == line),
    ensures
        comment_edits(d, mark, off, n) == (if n <= line {
            Seq::<EditView>::empty()
        } else {
            seq![line_edit(d.text, line, mark, off)]
        }),
    decreases n,
{
    if n > 0 {
        lemma_one_edit(d, mark, off, line, (n - 1) as nat);
        assert(in_question(d, n - 1) <==> n - 1 == line);
        assert(Seq::<EditView>::empty().push(line_edit(d.text, line, mark, off)) =~= seq![
            line_edit(d.text, line, mark, off),
        ]);
    }
}

proof fn lemma_mapped_once(at: int, t: Seq<char>, len: int, pos: int)
    requires
        0 <= at <= len,
        t.len() > 0,
        0 <= pos <= len,
    ensures
        mapped(change_ops(seq![(at, at, Some(t))], len), pos, false) == (if pos < at {
            pos
        } else {
            pos + t.len()
        }),
{
    reveal_with_fuel(ops_upto, 2);
    reveal_with_fuel(mapped_from, 5);
    let e = (at, at, Some(t));
    let ops = change_ops(seq![e], len);
    let rest = if len > at {
        seq![OpView::Retain((len - at) as nat)]
    } else {
        Seq::empty()
    };
    if at > 0 {
        assert(ops =~= seq![OpView::Retain(at as nat), OpView::Insert(t)] + rest);
    } else {
        assert(ops =~= seq![OpView::Insert(t)] + rest);
    }
}

proof fn lemma_joined_same(ps: Seq<Seq<char>>, qs: Seq<Seq<char>>, n: nat)
    requires
        n <= ps.len(),
        n <= qs.len(),
        forall|l: int| 0 <= l < n ==> ps[l] == qs[l],
    ensures
        joined_upto(ps, n) == joined_upto(qs, n),
    decreases n,
{
    if n > 0 {
        lemma_joined_same(ps, qs, (n - 1) as nat);
    }
}

/// Where a line that has grown in front of a place is in the new text.
proof fn lemma_grown_line(d: DocView, mark: Seq<char>, line: int, j: int)
    requires
        placed(d),
        is_plain_mark(mark),
        !all_commented(d, mark),
        0 <= line < lines_in(d.text),
        forall|l: int| 0 <= l < lines_in(d.text) ==> (#[trigger] in_question(d, l) <==> l == line),
        0 <= j <= line_after(d, mark, false, line).len(),
        j == line_after(d, mark, false, line).len() ==> line == lines_in(d.text) - 1,
    ensures
        line_of(comments_toggled(d, mark).text, line_start(d.text, line) + j) == line,
        lines_in(comments_toggled(d, mark).text) == lines_in(d.text),
        line_start(d.text, line) + j <= comments_toggled(d, mark).text.len(),
        line_start(comments_toggled(d, mark).text, line) == line_start(d.text, line),
{
    let s = d.text;
    let qs = lines_after(d, mark, false);
    let ps = lines_of(s);
    lemma_toggled_text(d, mark);
    lemma_after_lines(d, mark, false);
    lemma_lines_joined(qs);
    lemma_on_piece(qs, line, j);
    assert forall|l: int| 0 <= l < line implies qs[l] == ps[l] by {
        assert(in_question(d, l) <==> l == line);
    }
    lemma_joined_same(qs, ps, line as nat);
    crate::pieces::lemma_joined_take(s, line as nat);
    lemma_line_start(s, line);
    crate::pieces::lemma_joined_grows(qs, (line + 1) as nat, qs.len());
    assert(joined_upto(qs, (line + 1) as nat) =~= joined_upto(qs, line as nat) + qs[line]);
}

/// Toggling the comment of the cursor's line twice gives the text back.
pub proof fn law_toggling_twice_gives_the_text_back(d: DocView, mark: Seq<char>)
    requires
        placed(d),
        d.extra.len() == 0,
        d.anchor == d.cursor,
        is_plain_mark(mark),
        is_uncommented(d, mark),
        d.text.len() + mark.len() + 1 <= usize::MAX,
    ensures
        comments_toggled(comments_toggled(d, mark), mark).text == d.text,
{
    let s = d.text;
    let c = d.cursor as int;
    let line = line_of(s, c) as int;
    let e = comments_toggled(d, mark);
    lemma_off(d, mark);
    lemma_bare_question(d, mark);
    lemma_one_edit(d, mark, false, line, lines_in(s));
    lemma_stays_on_line(d, mark);
    assert forall|l: int| #[trigger] is_selected_line(e, l) == is_selected_line(d, l) by {
        lemma_bare(d, l);
    }
    law_uncommenting_undoes_commenting(d, e, mark);
}

proof fn lemma_bare_question(d: DocView, mark: Seq<char>)
    requires
        placed(d),
        d.extra.len() == 0,
        d.anchor == d.cursor,
        is_plain_mark(mark),
        is_uncommented(d, mark),
    ensures
        0 <= line_of(d.text, d.cursor as int) < lines_in(d.text),
        forall|l: int|
            0 <= l < lines_in(d.text) ==> (#[trigger] in_question(d, l) <==> l == line_of(
                d.text,
                d.cursor as int,
            )),
{
    let s = d.text;
    let line = line_of(s, d.cursor as int) as int;
    lemma_line_bounds(s, d.cursor as int);
    let x = choose|x: int|
        0 <= x < lines_in(s) && #[trigger] is_selected_line(d, x) && says_something(line_text(s, x))
            && !is_marked(line_text(s, x), mark);
    lemma_bare(d, x);
    assert forall|l: int| 0 <= l < lines_in(s) implies (#[trigger] in_question(d, l) <==> l
        == line) by {
        lemma_bare(d, l);
        lemma_selected(d, l);
        let r = lemma_splits(s, l);
        lemma_split(s, l, r.0, r.1);
    }
}

proof fn lemma_stays_on_line(d: DocView, mark: Seq<char>)
    requires
        placed(d),
        d.extra.len() == 0,
        d.anchor == d.cursor,
        is_plain_mark(mark),
        !all_commented(d, mark),
        d.text.len() + mark.len() + 1 <= usize::MAX,
        0 <= line_of(d.text, d.cursor as int) < lines_in(d.text),
        forall|l: int|
            0 <= l < lines_in(d.text) ==> (#[trigger] in_question(d, l) <==> l == line_of(
                d.text,
                d.cursor as int,
            )),
    ensures
        placed(comments_toggled(d, mark)),
        forall|l: int| #[trigger]
            is_selected_line(comments_toggled(d, mark), l) <==> l == line_of(
                d.text,
                d.cursor as int,
            ),
{
    let s = d.text;
    let c = d.cursor as int;
    let line = line_of(s, c) as int;
    let e = comments_toggled(d, mark);
    let t = e.text;
    let a = line_start(s, line);
    let edit = line_edit(s, line, mark, false);
    lemma_one_edit(d, mark, false, line, lines_in(s));
    assert(in_question(d, line));
    lemma_line_bounds(s, c);
    lemma_line_parts(s, line);
    lemma_line_edit(s, line, mark, false);
    let text = mark.push(' ');
    assert(edit.2 == Some(text) && edit.0 == edit.1);
    let len = s.len() as int;
    let ops = change_ops(seq![edit], len);
    lemma_mapped_once(edit.0, text, len, c);
    let p = mapped(ops, c, false);
    // the line has grown by the mark and a space
    let grown = line_after(d, mark, false, line);
    assert(grown.len() == line_text(s, line).len() + text.len());
    let j = p - a;
    assert(0 <= j);
    assert(c - a < line_text(s, line).len() || line == lines_in(s) - 1) by {
        if c == len {
        }
    }
    lemma_grown_line(d, mark, line, j);
    lemma_grown_line(d, mark, line, 0);
    lemma_grown_line(d, mark, line, 1);
    assert(line_of(t, p) == line && line_of(t, a) == line);
    let at = clamped(t, p, false);
    assert(e.anchor == p && e.cursor == at && e.extra.len() == 0) by {
        reveal(comments_toggled);
        let off = all_commented(d, mark);
        assert(!off);
        let es = comment_edits(d, mark, off, lines_in(s));
        assert(es == seq![edit]);
        assert(es.len() == 1);
        assert(p <= usize::MAX);
        assert(ride(ops, d.cursor) == p);
        let x = applied(committed(d), ops, ride(ops, d.cursor));
        assert(x.text == t);
        assert(p <= x.text.len());
        assert(x.cursor == p);
        assert(x.extra.len() == 0);
        lemma_clamped(t, p);
        assert(d.anchor == d.cursor);
        assert(min_int(ride(ops, d.anchor) as int, x.text.len() as int) == p);
    }
    lemma_clamped_on_line(t, a, p, line);
    assert forall|l: int| #[trigger] is_selected_line(e, l) <==> l == line by {
        if is_selected_line(e, l) {
            let (i, k) = choose|i: int, k: int|
                0 <= i <= e.extra.len() && #[trigger] takes_in(e, i, k) && line_of(e.text, k) == l;
            lemma_line_of_grows(t, a, k);
            lemma_line_of_grows(t, k, p);
        }
        if l == line {
            assert(takes_in(e, 0, at));
            lemma_line_of_grows(t, a, at);
            lemma_line_of_grows(t, at, p);
        }
    }
}

/// A place of a line that has something, clamped, stays on the line.
proof fn lemma_clamped_on_line(t: Seq<char>, a: int, p: int, line: int)
    requires
        0 <= line < lines_in(t),
        a == line_start(t, line),
        a <= p <= t.len(),
        line_of(t, p) == line,
        a < t.len(),
    ensures
        a <= clamped(t, p, false) <= p,
{
    lemma_clamped(t, p);
    lemma_cursor_line(t, p);
    lemma_line_count(t);
    lemma_line_parts(t, line);
    lemma_line_start(t, line);
    assert(line < line_count(t)) by {
        if line >= line_count(t) {
            assert(line == lines_in(t) - 1);
        }
    }
    assert(cursor_line(t, p) == line);
    let l = line_len(t, line);
    let limit = a + if l == 0 {
        l
    } else {
        l - 1
    };
    let m = if p <= limit {
        p
    } else {
        limit
    };
    lemma_line_of_grows(t, a, m);
    lemma_line_of_grows(t, m, p);
    assert(cursor_line(t, m) == line);
    lemma_cluster_start(t, m);
    let x = clamped(t, p, false);
    assert(x == crate::document::cluster_start(t, m));
    if x < a {
        assert(line_of(t, x) < line);
    }
}

} // verus!
