//! Editing one document: what the editing commands do to its text and its
//! cursors.

use vstd::prelude::*;
use crate::document::{
    applied, clamped, cursor_line, inserted, lemma_line_parts, lemma_one_edit_len, line_content,
    line_count, line_end, line_len, min_int, placed, range_deleted, true_to_edits, DocView,
    Document,
};
use crate::motions::{max_of, range_of, times};
use crate::position::{next_boundary, next_grapheme_boundary, prev_boundary, prev_grapheme_boundary};
use crate::strings::{
    alphanumeric, char_is_alphanumeric, char_string, chars_of, copy_chars, first_nonwhite, push_all, skip_white,
    string_of,
};
use crate::text::{
    lemma_line_start_grows, line_start, line_text, lines_in, rope_char, rope_len, rope_slice,
};
use crate::transaction::{change_ops, law_change_makes_the_edits, Transaction};

verus! {

/// A document with the characters `from..to` replaced by `t`, and the cursor
/// at `cursor`.
pub open spec fn spliced(d: DocView, from: int, to: int, t: Seq<char>, cursor: int) -> DocView {
    applied(d, change_ops(seq![(from, to, Some(t))], d.text.len() as int), cursor as usize)
}

/// The text with one edit made.
pub open spec fn spliced_text(s: Seq<char>, from: int, to: int, t: Seq<char>) -> Seq<char> {
    s.take(from) + t + s.skip(to)
}

impl Document {
    /// Replace the characters `from..to`, as one edit.
    pub fn splice(&mut self, from: usize, to: usize, t: &str, cursor: usize)
        requires
            from <= to <= old(self)@.text.len(),
        ensures
            final(self)@ == spliced(old(self)@, from as int, to as int, t@, cursor as int),
            final(self)@.text == spliced_text(old(self)@.text, from as int, to as int, t@),
            old(self).wf() ==> final(self).wf(),
            placed(old(self)@) && cursor <= old(self)@.text.len() - (to - from) + t@.len()
                ==> placed(final(self)@) && final(self)@.cursor == cursor,
            true_to_edits(old(self)@) ==> true_to_edits(final(self)@),
    {
        let mut edits: Vec<(usize, usize, Option<String>)> = Vec::new();
        edits.push((from, to, Some(t.to_owned())));
        let ghost one = (from as int, to as int, Some(t@));
        assert(crate::transaction::edit_views(edits@) =~= seq![one]);
        proof {
            lemma_one_edit_len(self@.text, one);
            law_change_makes_the_edits(seq![one], self@.text);
        }
        let tx = Transaction::change(&self.text, edits);
        self.apply(tx, cursor);
    }
}

// ---- deleting ---------------------------------------------------------------

pub open spec fn to_next_cluster(s: Seq<char>) -> spec_fn(int) -> int {
    |p: int| next_boundary(s, p)
}

/// What a delete takes: the selection, or `count` clusters from the cursor,
/// no further than the line.
#[verifier::opaque]
pub open spec fn deletion(d: DocView, count: usize) -> (usize, usize) {
    if d.anchor == d.cursor {
        (
            d.cursor,
            min_int(
                times(to_next_cluster(d.text), d.cursor as int, count as nat),
                line_end(d.text, cursor_line(d.text, d.cursor as int)),
            ) as usize,
        )
    } else {
        range_of(d)
    }
}

/// The characters cut out, and the cursor on what is left of its line.
#[verifier::opaque]
pub open spec fn cut(d: DocView, from: usize, to: usize) -> DocView {
    let a = range_deleted(d, from, to);
    DocView { cursor: clamped(a.text, a.cursor as int, false) as usize, goal_col: None, ..a }
}

/// The lines that deleting `count` lines takes: each with its line break, and
/// at the end of the text with the one in front instead.
#[verifier::opaque]
pub open spec fn line_deletion(d: DocView, count: usize) -> (usize, usize) {
    let s = d.text;
    let line = cursor_line(s, d.cursor as int);
    let last = line_count(s) - 1;
    let end_line = min_int(max_of(line + count - 1, line), last);
    (
        (if end_line == last && line > 0 {
            line_end(s, line - 1)
        } else {
            line_start(s, line)
        }) as usize,
        (if end_line < last {
            line_start(s, end_line + 1)
        } else {
            s.len() as int
        }) as usize,
    )
}

#[verifier::opaque]
pub open spec fn chars_deleted(d: DocView, count: usize) -> DocView {
    let end = line_end(d.text, cursor_line(d.text, d.cursor as int));
    let a = range_deleted(d, d.cursor, min_int(d.cursor + count, end) as usize);
    DocView { cursor: clamped(a.text, a.cursor as int, false) as usize, ..a }
}

pub open spec fn line_rest_deleted(d: DocView) -> DocView {
    let end = line_end(d.text, cursor_line(d.text, d.cursor as int));
    let a = range_deleted(d, d.cursor, end as usize);
    DocView { cursor: clamped(a.text, a.cursor as int, false) as usize, ..a }
}

/// The next line put behind this one: its indent is dropped, and a space
/// keeps them apart, unless the next line is blank.
pub open spec fn joined_lines(d: DocView) -> DocView {
    let s = d.text;
    let line = cursor_line(s, d.cursor as int);
    if line + 1 >= line_count(s) {
        d
    } else {
        let end = line_end(s, line);
        let skip = skip_white(line_content(s, line + 1), 0);
        let sep: Seq<char> = if skip == line_len(s, line + 1) {
            Seq::empty()
        } else {
            seq![' ']
        };
        let a = spliced(d, end, line_start(s, line + 1) + skip, sep, end);
        DocView { cursor: clamped(a.text, a.cursor as int, false) as usize, ..a }
    }
}

/// A bracket or quote and its closer with nothing between.
pub open spec fn empty_pair(open: char, close: char) -> bool {
    ||| open == '(' && close == ')'
    ||| open == '[' && close == ']'
    ||| open == '{' && close == '}'
    ||| open == '"' && close == '"'
    ||| open == '\'' && close == '\''
}

/// The cluster before the cursor deleted, with the closer of an empty pair.
pub open spec fn deleted_backward(d: DocView, autoclose: bool) -> DocView {
    if d.cursor == 0 {
        d
    } else {
        let from = prev_boundary(d.text, d.cursor as int) as usize;
        let pair = autoclose && d.cursor < d.text.len() && empty_pair(
            d.text[d.cursor - 1],
            d.text[d.cursor as int],
        );
        range_deleted(
            d,
            from,
            if pair {
                (d.cursor + 1) as usize
            } else {
                d.cursor
            },
        )
    }
}

pub open spec fn deleted_forward(d: DocView) -> DocView {
    if d.cursor >= d.text.len() {
        d
    } else {
        range_deleted(d, d.cursor, next_boundary(d.text, d.cursor as int) as usize)
    }
}

impl Document {
    /// What a delete takes.
    pub fn deletion(&self, count: usize) -> (r: (usize, usize))
        requires
            placed(self@),
        ensures
            r == deletion(self@, count),
            r.0 <= self@.text.len(),
            r.1 <= self@.text.len(),
    {
        reveal(deletion);
        if self.anchor != self.cursor {
            return self.selection_range();
        }
        let line = self.cursor_line();
        let end = self.line_end(line);
        let mut to = self.cursor;
        let mut k: usize = 0;
        while k < count
            invariant
                k <= count,
                to == times(to_next_cluster(self@.text), self@.cursor as int, k as nat),
            ensures
                to == times(to_next_cluster(self@.text), self@.cursor as int, count as nat),
            decreases count - k,
        {
            let next = next_grapheme_boundary(&self.text, to);
            if next == to {
                proof {
                    crate::motions::lemma_rests(
                        to_next_cluster(self@.text),
                        self@.cursor as int,
                        k as nat,
                        count as nat,
                    );
                }
                break ;
            }
            to = next;
            k += 1;
        }
        (
            self.cursor,
            if to <= end {
                to
            } else {
                end
            },
        )
    }

    /// The text of a range.
    pub fn text_of(&self, from: usize, to: usize) -> (r: String)
        requires
            from <= to <= self@.text.len(),
        ensures
            r@ == self@.text.subrange(from as int, to as int),
    {
        rope_slice(&self.text, from, to)
    }

    /// Delete a range and put the cursor on what is left.
    pub fn cut(&mut self, from: usize, to: usize)
        requires
            from <= old(self)@.text.len(),
        ensures
            final(self)@ == cut(old(self)@, from, to),
            old(self).wf() ==> final(self).wf(),
            placed(old(self)@) ==> placed(final(self)@),
            true_to_edits(old(self)@) ==> true_to_edits(final(self)@),
    {
        reveal(cut);
        self.delete_range(from, to);
        self.clamp_cursor(false);
        self.goal_col = None;
    }

    /// What deleting lines takes.
    pub fn line_deletion(&self, count: usize) -> (r: (usize, usize))
        ensures
            r == line_deletion(self@, count),
            r.0 <= r.1 <= self@.text.len(),
    {
        reveal(line_deletion);
        let line = self.cursor_line();
        let last: usize = self.line_count() - 1;
        let end_line: usize = if count == 0 {
            line
        } else if count - 1 <= last - line {
            line + (count - 1)
        } else {
            last
        };
        proof {
            lemma_line_parts(self@.text, line as int);
            lemma_line_start_grows(self@.text, line as int, end_line + 1);
            if line > 0 {
                lemma_line_parts(self@.text, line - 1);
            }
        }
        let from = if end_line == last && line > 0 {
            self.line_end(line - 1)
        } else {
            self.line_start(line)
        };
        let to = if end_line < last {
            self.line_start(end_line + 1)
        } else {
            rope_len(&self.text)
        };
        (from, to)
    }

    /// Delete `count` characters from the cursor, no further than the line.
    pub fn delete_chars(&mut self, count: usize)
        requires
            placed(old(self)@),
        ensures
            final(self)@ == chars_deleted(old(self)@, count),
            old(self).wf() ==> final(self).wf(),
            placed(final(self)@),
            true_to_edits(old(self)@) ==> true_to_edits(final(self)@),
    {
        reveal(chars_deleted);
        let line = self.cursor_line();
        let end = self.line_end(line);
        let to: usize = if self.cursor <= end && count <= end - self.cursor {
            self.cursor + count
        } else {
            end
        };
        self.delete_range(self.cursor, to);
        self.clamp_cursor(false);
    }

    pub fn delete_to_line_end(&mut self)
        requires
            placed(old(self)@),
        ensures
            final(self)@ == line_rest_deleted(old(self)@),
            old(self).wf() ==> final(self).wf(),
            placed(final(self)@),
            true_to_edits(old(self)@) ==> true_to_edits(final(self)@),
    {
        let line = self.cursor_line();
        let end = self.line_end(line);
        self.delete_range(self.cursor, end);
        self.clamp_cursor(false);
    }

    /// Put the next line behind this one.
    pub fn join_lines(&mut self)
        ensures
            final(self)@ == joined_lines(old(self)@),
            old(self).wf() ==> final(self).wf(),
            placed(old(self)@) ==> placed(final(self)@),
            true_to_edits(old(self)@) ==> true_to_edits(final(self)@),
    {
        let line = self.cursor_line();
        if line >= self.line_count() - 1 {
            return ;
        }
        proof {
            lemma_line_parts(self@.text, line as int);
            lemma_line_parts(self@.text, line + 1);
        }
        let end = self.line_end(line);
        let next_start = self.line_start(line + 1);
        let next = self.line_content(line + 1);
        let skip = first_nonwhite(next.as_slice(), 0);
        let len = rope_len(&self.text);
        if skip == next.len() {
            let empty = String::new();
            self.splice(end, next_start + skip, empty.as_str(), end);
        } else {
            let space = char_string(' ');
            self.splice(end, next_start + skip, space.as_str(), end);
        }
        self.clamp_cursor(false);
    }

    /// Delete the cluster before the cursor.
    pub fn delete_backward(&mut self, autoclose: bool)
        requires
            placed(old(self)@),
        ensures
            final(self)@ == deleted_backward(old(self)@, autoclose),
            old(self).wf() ==> final(self).wf(),
            placed(final(self)@),
            true_to_edits(old(self)@) ==> true_to_edits(final(self)@),
    {
        if self.cursor == 0 {
            return ;
        }
        let from = prev_grapheme_boundary(&self.text, self.cursor);
        let prev = rope_char(&self.text, self.cursor - 1);
        let len = rope_len(&self.text);
        let mut to = self.cursor;
        if autoclose && self.cursor < len {
            let next = rope_char(&self.text, self.cursor);
            if (prev == '(' && next == ')') || (prev == '[' && next == ']') || (prev == '{' && next
                == '}') || (prev == '"' && next == '"') || (prev == '\'' && next == '\'') {
                to = self.cursor + 1;
            }
        }
        self.delete_range(from, to);
    }

    /// Delete the cluster under the cursor.
    pub fn delete_forward(&mut self)
        ensures
            final(self)@ == deleted_forward(old(self)@),
            old(self).wf() ==> final(self).wf(),
            placed(old(self)@) ==> placed(final(self)@),
            true_to_edits(old(self)@) ==> true_to_edits(final(self)@),
    {
        if self.cursor >= rope_len(&self.text) {
            return ;
        }
        let to = next_grapheme_boundary(&self.text, self.cursor);
        self.delete_range(self.cursor, to);
    }
}

// ---- indenting and new lines ------------------------------------------------

pub open spec fn blank(c: char) -> bool {
    c == ' ' || c == '\t'
}

/// The first place from `i` on that is not a space or a tab.
pub open spec fn blank_end(l: Seq<char>, i: int) -> int
    decreases l.len() - i,
{
    if i < 0 || i >= l.len() || !blank(l[i]) {
        i
    } else {
        blank_end(l, i + 1)
    }
}

/// The indent of a line.
pub open spec fn indent_of(s: Seq<char>, line: int) -> Seq<char> {
    line_content(s, line).take(blank_end(line_content(s, line), 0))
}

/// One level of indent, in the style of an indent: a tab where it has tabs,
/// else spaces.
pub open spec fn unit_of(indent: Seq<char>, tab: usize) -> Seq<char> {
    if indent.contains('\t') {
        seq!['\t']
    } else {
        Seq::new(tab as nat, |i: int| ' ')
    }
}

/// One level of indent, in the style of an indent.
pub fn indent_unit(indent: &[char], tab: usize) -> (r: Vec<char>)
    ensures
        r@ == unit_of(indent@, tab),
{
    let mut i: usize = 0;
    while i < indent.len()
        invariant
            i <= indent@.len(),
            forall|k: int| 0 <= k < i ==> indent@[k] != '\t',
        decreases indent@.len() - i,
    {
        if indent[i] == '\t' {
            assert(indent@.contains(indent@[i as int]));
            let r = vec!['\t'];
            assert(r@ =~= seq!['\t']);
            return r;
        }
        i += 1;
    }
    assert(!indent@.contains('\t'));
    let mut r: Vec<char> = Vec::new();
    let mut k: usize = 0;
    while k < tab
        invariant
            k <= tab,
            r@.len() == k,
            forall|j: int| 0 <= j < k ==> r@[j] == ' ',
        decreases tab - k,
    {
        r.push(' ');
        k += 1;
    }
    assert(r@ =~= unit_of(indent@, tab));
    r
}

pub open spec fn opened_below(d: DocView) -> DocView {
    let s = d.text;
    let line = cursor_line(s, d.cursor as int);
    let t = seq!['\n'] + indent_of(s, line);
    let at = line_end(s, line);
    spliced(d, at, at, t, at + t.len())
}

pub open spec fn opened_above(d: DocView) -> DocView {
    let s = d.text;
    let line = cursor_line(s, d.cursor as int);
    let indent = indent_of(s, line);
    let at = line_start(s, line);
    spliced(d, at, at, indent + seq!['\n'], at + indent.len())
}

pub open spec fn opens(c: char) -> bool {
    c == '{' || c == '(' || c == '['
}

/// What breaking the line at the cursor puts in: a line break and the indent
/// so far; behind an opening bracket one level more, and a line of its own for
/// the closing bracket. With that, where the cursor goes in what is put in.
pub open spec fn newline_plan(d: DocView, tab: usize) -> (Seq<char>, Option<int>) {
    let s = d.text;
    let line = cursor_line(s, d.cursor as int);
    let col = d.cursor - line_start(s, line);
    let full = indent_of(s, line);
    let indent = full.take(min_int(col, full.len() as int));
    if d.cursor > 0 && opens(s[d.cursor - 1]) && d.extra.len() == 0 {
        let deeper = seq!['\n'] + indent + unit_of(indent, tab);
        if d.cursor < s.len() && empty_pair(s[d.cursor - 1], s[d.cursor as int]) {
            (deeper + seq!['\n'] + indent, Some(deeper.len() as int))
        } else {
            (deeper, None)
        }
    } else {
        (seq!['\n'] + indent, None)
    }
}

pub open spec fn newline_inserted(d: DocView, tab: usize) -> DocView {
    match newline_plan(d, tab) {
        (t, Some(at)) => spliced(d, d.cursor as int, d.cursor as int, t, d.cursor + at),
        (t, None) => inserted(d, t),
    }
}

pub open spec fn tab_inserted(d: DocView, tab: usize) -> DocView {
    inserted(d, unit_of(indent_of(d.text, cursor_line(d.text, d.cursor as int)), tab))
}

impl Document {
    /// The indent of a line.
    fn indent_of(&self, line: usize) -> (r: Vec<char>)
        requires
            line < lines_in(self@.text),
        ensures
            r@ == indent_of(self@.text, line as int),
            r@.len() <= line_len(self@.text, line as int),
    {
        let l = self.line_content(line);
        let mut i: usize = 0;
        proof {
            lemma_line_parts(self@.text, line as int);
        }
        while i < l.len() && (l[i] == ' ' || l[i] == '\t')
            invariant
                i <= l@.len(),
                blank_end(l@, 0) == blank_end(l@, i as int),
            decreases l@.len() - i,
        {
            i += 1;
        }
        copy_chars(vstd::slice::slice_subrange(l.as_slice(), 0, i))
    }

    pub fn open_below(&mut self)
        ensures
            final(self)@ == opened_below(old(self)@),
            old(self).wf() ==> final(self).wf(),
            placed(old(self)@) ==> placed(final(self)@),
            true_to_edits(old(self)@) ==> true_to_edits(final(self)@),
    {
        let line = self.cursor_line();
        proof {
            lemma_line_parts(self@.text, line as int);
        }
        let indent = self.indent_of(line);
        let at = self.line_end(line);
        let mut t: Vec<char> = Vec::new();
        t.push('\n');
        push_all(&mut t, indent.as_slice());
        assert(t@ =~= seq!['\n'] + indent@);
        let text = string_of(t.as_slice());
        let cursor = at.saturating_add(t.len());
        self.splice(at, at, text.as_str(), cursor);
        let len = rope_len(&self.text);
    }

    pub fn open_above(&mut self)
        ensures
            final(self)@ == opened_above(old(self)@),
            old(self).wf() ==> final(self).wf(),
            placed(old(self)@) ==> placed(final(self)@),
            true_to_edits(old(self)@) ==> true_to_edits(final(self)@),
    {
        let line = self.cursor_line();
        proof {
            lemma_line_parts(self@.text, line as int);
        }
        let mut t = self.indent_of(line);
        let n: usize = t.len();
        let at = self.line_start(line);
        let len = rope_len(&self.text);
        let ghost indent = t@;
        t.push('\n');
        assert(t@ =~= indent + seq!['\n']);
        let text = string_of(t.as_slice());
        self.splice(at, at, text.as_str(), at + n);
    }
}

impl Document {
    fn newline_plan(&self, tab: usize) -> (r: (Vec<char>, Option<usize>))
        requires
            placed(self@),
        ensures
            r.0@ == newline_plan(self@, tab).0,
            match r.1 {
                Some(at) => newline_plan(self@, tab).1 == Some(at as int) && at <= r.0@.len(),
                None => newline_plan(self@, tab).1 is None,
            },
    {
        let (line, col) = self.cursor_line_col();
        let full = self.indent_of(line);
        let n: usize = if col <= full.len() {
            col
        } else {
            full.len()
        };
        let indent = copy_chars(vstd::slice::slice_subrange(full.as_slice(), 0, n));
        assert(indent@ =~= full@.take(min_int(col as int, full@.len() as int)));
        let len = rope_len(&self.text);
        let mut t: Vec<char> = Vec::new();
        t.push('\n');
        push_all(&mut t, indent.as_slice());
        assert(t@ =~= seq!['\n'] + indent@);
        if self.cursor == 0 || self.extra.len() > 0 {
            return (t, None);
        }
        let prev = rope_char(&self.text, self.cursor - 1);
        if !(prev == '{' || prev == '(' || prev == '[') {
            return (t, None);
        }
        let unit = indent_unit(indent.as_slice(), tab);
        push_all(&mut t, unit.as_slice());
        assert(t@ =~= seq!['\n'] + indent@ + unit@);
        if self.cursor >= len {
            return (t, None);
        }
        let next = rope_char(&self.text, self.cursor);
        if !((prev == '{' && next == '}') || (prev == '(' && next == ')') || (prev == '[' && next
            == ']')) {
            return (t, None);
        }
        let back: usize = t.len();
        let ghost deeper = t@;
        t.push('\n');
        push_all(&mut t, indent.as_slice());
        assert(t@ =~= deeper + seq!['\n'] + indent@);
        (t, Some(back))
    }

    /// Break the line at the cursor.
    pub fn insert_newline(&mut self, tab: usize)
        requires
            placed(old(self)@),
        ensures
            final(self)@ == newline_inserted(old(self)@, tab),
            old(self).wf() ==> final(self).wf(),
            placed(final(self)@),
            true_to_edits(old(self)@) ==> true_to_edits(final(self)@),
    {
        let (t, back) = self.newline_plan(tab);
        let text = string_of(t.as_slice());
        match back {
            Some(back) => {
                let at = self.cursor;
                self.splice(at, at, text.as_str(), at.saturating_add(back));
                let len = rope_len(&self.text);
            },
            None => {
                self.insert_at_cursor(text.as_str());
            },
        }
    }

    /// Insert one level of indent.
    pub fn insert_tab(&mut self, tab: usize)
        requires
            placed(old(self)@),
        ensures
            final(self)@ == tab_inserted(old(self)@, tab),
            old(self).wf() ==> final(self).wf(),
            placed(final(self)@),
            true_to_edits(old(self)@) ==> true_to_edits(final(self)@),
    {
        let line = self.cursor_line();
        let indent = self.indent_of(line);
        let unit = indent_unit(indent.as_slice(), tab);
        let text = string_of(unit.as_slice());
        self.insert_at_cursor(text.as_str());
    }
}

// ---- typing -----------------------------------------------------------------

pub open spec fn closes(c: char) -> bool {
    c == ')' || c == ']' || c == '}'
}

pub open spec fn all_blank(l: Seq<char>, n: int) -> bool {
    forall|i: int| 0 <= i < n ==> blank(#[trigger] l[i])
}

/// A closing bracket typed on a line that is blank so far takes one level of
/// its indent away.
pub open spec fn dedented(d: DocView, c: char, tab: usize) -> DocView {
    let line = cursor_line(d.text, d.cursor as int);
    let col = d.cursor - line_start(d.text, line);
    let l = d.text.subrange(line_start(d.text, line), d.cursor as int);
    if closes(c) && d.extra.len() == 0 && col > 0 && all_blank(l, col) {
        let take = if l[col - 1] == '\t' {
            1
        } else {
            min_int(tab as int, col)
        };
        range_deleted(d, (d.cursor - take) as usize, d.cursor)
    } else {
        d
    }
}

/// Every cursor is on this character.
pub open spec fn all_on(d: DocView, c: char) -> bool {
    &&& d.cursor < d.text.len() && d.text[d.cursor as int] == c
    &&& forall|i: int|
        0 <= i < d.extra.len() ==> (#[trigger] d.extra[i]).1 < d.text.len()
            && d.text[d.extra[i].1 as int] == c
}

pub open spec fn stepped_over(d: DocView) -> DocView {
    let len = d.text.len() as int;
    let c = min_int(d.cursor + 1, len) as usize;
    DocView {
        cursor: c,
        anchor: c,
        extra: Seq::new(
            d.extra.len(),
            |i: int|
                (
                    min_int(d.extra[i].1 + 1, len) as usize,
                    min_int(d.extra[i].1 + 1, len) as usize,
                ),
        ),
        ..d
    }
}

pub open spec fn stepped_back(d: DocView) -> DocView {
    let c = max_of(d.cursor - 1, 0) as usize;
    DocView {
        cursor: c,
        anchor: c,
        extra: Seq::new(
            d.extra.len(),
            |i: int| (max_of(d.extra[i].1 - 1, 0) as usize, max_of(d.extra[i].1 - 1, 0) as usize),
        ),
        ..d
    }
}

pub open spec fn word_char(c: char) -> bool {
    alphanumeric(c) || c == '_'
}

/// What a typed character brings along: the closer of a pair. An apostrophe
/// right after a word is a contraction and brings nothing.
pub open spec fn closer(d: DocView, c: char) -> Option<char> {
    if c == '(' {
        Some(')')
    } else if c == '[' {
        Some(']')
    } else if c == '{' {
        Some('}')
    } else if c == '"' {
        Some('"')
    } else if c == '\'' && !(d.cursor > 0 && word_char(d.text[d.cursor - 1])) {
        Some('\'')
    } else {
        None
    }
}

/// What a typed character did.
#[derive(Clone, Copy, PartialEq, Eq, Structural, Debug)]
pub enum Typed {
    /// It stepped over the closer that was there.
    Over,
    /// It brought its closer.
    Pair,
    /// It went in by itself.
    Plain,
}

pub open spec fn typed_kind(d: DocView, c: char, tab: usize, autoclose: bool) -> Typed {
    let a = dedented(d, c, tab);
    if autoclose && (closes(c) || c == '"' || c == '\'') && all_on(a, c) {
        Typed::Over
    } else if autoclose && closer(a, c) is Some {
        Typed::Pair
    } else {
        Typed::Plain
    }
}

pub open spec fn typed(d: DocView, c: char, tab: usize, autoclose: bool) -> DocView {
    let a = dedented(d, c, tab);
    match typed_kind(d, c, tab, autoclose) {
        Typed::Over => stepped_over(a),
        Typed::Pair => stepped_back(inserted(a, seq![c, closer(a, c)->0])),
        Typed::Plain => inserted(a, seq![c]),
    }
}

impl Document {
    fn dedent(&mut self, c: char, tab: usize)
        requires
            placed(old(self)@),
        ensures
            final(self)@ == dedented(old(self)@, c, tab),
            old(self).wf() ==> final(self).wf(),
            placed(final(self)@),
            true_to_edits(old(self)@) ==> true_to_edits(final(self)@),
    {
        if !(c == ')' || c == ']' || c == '}') || self.extra.len() > 0 {
            return ;
        }
        let (line, col) = self.cursor_line_col();
        if col == 0 {
            return ;
        }
        let start = self.line_start(line);
        let ghost l = self@.text.subrange(start as int, self@.cursor as int);
        let mut i: usize = 0;
        while i < col
            invariant
                i <= col,
                start + col == self@.cursor <= self@.text.len(),
                l == self@.text.subrange(start as int, self@.cursor as int),
                all_blank(l, i as int),
                start == line_start(self@.text, cursor_line(self@.text, self@.cursor as int)),
                *self == *old(self),
                closes(c),
                col > 0,
                placed(self@),
            decreases col - i,
        {
            let x = rope_char(&self.text, start + i);
            assert(l[i as int] == x);
            if x != ' ' && x != '\t' {
                assert(!all_blank(l, col as int));
                return ;
            }
            i += 1;
        }
        let last = rope_char(&self.text, start + (col - 1));
        let take: usize = if last == '\t' {
            1
        } else if tab <= col {
            tab
        } else {
            col
        };
        let to = self.cursor;
        self.delete_range(to - take, to);
    }

    fn all_on(&self, c: char) -> (r: bool)
        ensures
            r == all_on(self@, c),
    {
        let len = rope_len(&self.text);
        if self.cursor >= len || rope_char(&self.text, self.cursor) != c {
            return false;
        }
        let mut i: usize = 0;
        while i < self.extra.len()
            invariant
                i <= self.extra@.len(),
                len == self@.text.len(),
                forall|k: int|
                    0 <= k < i ==> (#[trigger] self@.extra[k]).1 < self@.text.len()
                        && self@.text[self@.extra[k].1 as int] == c,
            decreases self.extra@.len() - i,
        {
            let at = self.extra[i].1;
            assert(self@.extra[i as int].1 == at);
            if at >= len || rope_char(&self.text, at) != c {
                return false;
            }
            i += 1;
        }
        true
    }

    fn step_over(&mut self)
        ensures
            final(self)@ == stepped_over(old(self)@),
            placed(final(self)@),
            true_to_edits(old(self)@) ==> true_to_edits(final(self)@),
    {
        let ghost d = self@;
        let len = rope_len(&self.text);
        let c: usize = if self.cursor < len {
            self.cursor + 1
        } else {
            len
        };
        let mut out: Vec<(usize, usize)> = Vec::new();
        let mut i: usize = 0;
        while i < self.extra.len()
            invariant
                i <= self.extra@.len(),
                len == d.text.len(),
                self@ == d,
                out@.len() == i,
                forall|k: int| 0 <= k < i ==> #[trigger] out@[k] == stepped_over(d).extra[k],
            decreases self.extra@.len() - i,
        {
            let at = self.extra[i].1;
            let to: usize = if at < len {
                at + 1
            } else {
                len
            };
            out.push((to, to));
            i += 1;
        }
        self.cursor = c;
        self.anchor = c;
        self.extra = out;
        assert(self@.extra =~= stepped_over(d).extra);
    }

    fn step_back(&mut self)
        ensures
            final(self)@ == stepped_back(old(self)@),
            placed(old(self)@) ==> placed(final(self)@),
            true_to_edits(old(self)@) ==> true_to_edits(final(self)@),
    {
        let ghost d = self@;
        let c: usize = if self.cursor > 0 {
            self.cursor - 1
        } else {
            0
        };
        let mut out: Vec<(usize, usize)> = Vec::new();
        let mut i: usize = 0;
        while i < self.extra.len()
            invariant
                i <= self.extra@.len(),
                self@ == d,
                out@.len() == i,
                forall|k: int| 0 <= k < i ==> #[trigger] out@[k] == stepped_back(d).extra[k],
            decreases self.extra@.len() - i,
        {
            let at = self.extra[i].1;
            let to: usize = if at > 0 {
                at - 1
            } else {
                0
            };
            out.push((to, to));
            i += 1;
        }
        self.cursor = c;
        self.anchor = c;
        self.extra = out;
        assert(self@.extra =~= stepped_back(d).extra);
        proof {
            if placed(d) {
                assert forall|k: int| 0 <= k < self@.extra.len() implies (#[trigger] self@.extra[k]).0
                    <= d.text.len() && self@.extra[k].1 <= d.text.len() by {
                    assert(d.extra[k].1 <= d.text.len());
                }
            }
        }
    }

    /// One character typed: pairs close themselves, and a closer that is
    /// already there is stepped over.
    pub fn type_char(&mut self, c: char, tab: usize, autoclose: bool) -> (kind: Typed)
        requires
            placed(old(self)@),
        ensures
            kind == typed_kind(old(self)@, c, tab, autoclose),
            final(self)@ == typed(old(self)@, c, tab, autoclose),
            old(self).wf() ==> final(self).wf(),
            placed(final(self)@),
            true_to_edits(old(self)@) ==> true_to_edits(final(self)@),
    {
        self.dedent(c, tab);
        if autoclose {
            if (c == ')' || c == ']' || c == '}' || c == '"' || c == '\'') && self.all_on(c) {
                self.step_over();
                return Typed::Over;
            }
            let close: Option<char> = if c == '(' {
                Some(')')
            } else if c == '[' {
                Some(']')
            } else if c == '{' {
                Some('}')
            } else if c == '"' {
                Some('"')
            } else if c == '\'' {
                if self.cursor > 0 {
                    let prev = rope_char(&self.text, self.cursor - 1);
                    if char_is_alphanumeric(prev) || prev == '_' {
                        None
                    } else {
                        Some('\'')
                    }
                } else {
                    Some('\'')
                }
            } else {
                None
            };
            if let Some(close) = close {
                let mut pair = char_string(c);
                pair.push(close);
                assert(pair@ =~= seq![c, close]);
                self.insert_at_cursor(pair.as_str());
                self.step_back();
                return Typed::Pair;
            }
        }
        let one = char_string(c);
        self.insert_at_cursor(one.as_str());
        Typed::Plain
    }
}

// ---- pasting ----------------------------------------------------------------

pub open spec fn linewise(reg: Seq<char>) -> bool {
    reg.len() > 0 && reg.last() == '\n'
}

/// What pasting a register replaces, by what, and where the cursor goes. A
/// register that ends a line goes onto lines of its own; any other replaces a
/// selection, or goes beside the cursor.
pub open spec fn paste_plan(d: DocView, reg: Seq<char>, after: bool) -> (int, int, Seq<char>, int) {
    let s = d.text;
    let line = cursor_line(s, d.cursor as int);
    if linewise(reg) {
        if after {
            let at = line_start(s, line) + line_text(s, line).len();
            if line_text(s, line).len() > line_len(s, line) {
                (at, at, reg, at)
            } else {
                (at, at, seq!['\n'] + reg.drop_last(), at + 1)
            }
        } else {
            let at = line_start(s, line);
            (at, at, reg, at)
        }
    } else if d.anchor != d.cursor {
        let (from, to) = range_of(d);
        (from as int, to as int, reg, from + reg.len() - 1)
    } else {
        let at = if after {
            min_int(d.cursor + 1, line_end(s, line))
        } else {
            d.cursor as int
        };
        (at, at, reg, at + reg.len() - 1)
    }
}

/// A document with a register pasted into it.
#[verifier::opaque]
pub open spec fn pasted(d: DocView, reg: Seq<char>, after: bool) -> DocView {
    let (from, to, t, cursor) = paste_plan(d, reg, after);
    let a = spliced(d, from, to, t, cursor);
    DocView { cursor: clamped(a.text, a.cursor as int, false) as usize, goal_col: None, ..a }
}

impl Document {
    /// The plan of a paste; the cursor's place is counted from its start.
    fn paste_plan(&self, reg: &str, after: bool) -> (r: (usize, usize, String, usize))
        requires
            placed(self@),
            reg@.len() > 0,
        ensures
            ({
                let (from, to, t, cursor) = paste_plan(self@, reg@, after);
                r.0 == from && r.1 == to && r.2@ == t && r.0 + r.3 == cursor
            }),
            r.0 <= r.1 <= self@.text.len(),
            r.3 <= r.2@.len(),
    {
        let c = chars_of(reg);
        let n: usize = c.len();
        let line = self.cursor_line();
        let len = rope_len(&self.text);
        proof {
            lemma_line_parts(self@.text, line as int);
        }
        let start = self.line_start(line);
        let end = self.line_end(line);
        if c[n - 1] == '\n' {
            if !after {
                return (start, start, reg.to_owned(), 0);
            }
            let l = self.line(line);
            let at = start + l.len();
            if l.len() > self.line_len(line) {
                return (at, at, reg.to_owned(), 0);
            }
            let mut t: Vec<char> = Vec::new();
            t.push('\n');
            push_all(&mut t, vstd::slice::slice_subrange(c.as_slice(), 0, n - 1));
            assert(t@ =~= seq!['\n'] + reg@.drop_last());
            return (at, at, string_of(t.as_slice()), 1);
        }
        if self.anchor != self.cursor {
            let (from, to) = self.selection_range();
            return (from, to, reg.to_owned(), n - 1);
        }
        let at: usize = if !after {
            self.cursor
        } else if self.cursor < end {
            self.cursor + 1
        } else {
            end
        };
        (at, at, reg.to_owned(), n - 1)
    }

    /// Paste a register that holds something.
    pub fn paste(&mut self, reg: &str, after: bool)
        requires
            placed(old(self)@),
            reg@.len() > 0,
        ensures
            final(self)@ == pasted(old(self)@, reg@, after),
            old(self).wf() ==> final(self).wf(),
            placed(final(self)@),
            true_to_edits(old(self)@) ==> true_to_edits(final(self)@),
    {
        reveal(pasted);
        let (from, to, t, step) = self.paste_plan(reg, after);
        self.splice(from, to, t.as_str(), from.saturating_add(step));
        let len = rope_len(&self.text);
        self.clamp_cursor(false);
        self.goal_col = None;
    }
}

} // verus!
