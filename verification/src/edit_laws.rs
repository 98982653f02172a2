//! What the edits do to a text, said by what stands where before and after.

use vstd::prelude::*;
use crate::document::{
    applied, clamped, cursor_line, insert_edits, inserted, lemma_clamped, lemma_cursor_line,
    lemma_keeps_all, lemma_line_count, lemma_line_parts, lemma_one_edit_len, line_content,
    line_count, line_end, line_len, placed, points_upto, range_deleted, with_point, DocView,
};
use crate::edits::{
    blank, blank_end, chars_deleted, cut, dedented, deleted_backward, deleted_forward, deletion,
    indent_of, joined_lines, line_deletion, line_rest_deleted, newline_inserted, newline_plan,
    opened_above, opened_below, pasted, spliced, tab_inserted, typed, unit_of,
};
use crate::motions::range_of;
use crate::pieces::lemma_ending;
use crate::position::{next_boundary, prev_boundary};
use crate::strings::{is_white, lemma_skip_white, skip_white};
use crate::surround_laws::{lemma_applied_text, lemma_two_edits};
use crate::text::{
    content_len, ends_line, is_break, lemma_line_bounds, lemma_line_of_grows, lemma_line_start,
    line_of, line_start, line_text, lines_in,
};
use crate::transaction::{change_ops, keeps_all, law_change_makes_the_edits, EditView};

verus! {

// ---- a line ------------------------------------------------------------------------

/// Whether a line's characters are those of `a..e`, and its ending those of
/// `e..n`.
pub open spec fn is_line(s: Seq<char>, a: int, e: int, n: int) -> bool {
    &&& 0 <= a <= e <= n <= s.len()
    &&& a == 0 || ends_line(s, a - 1)
    &&& forall|k: int| a <= k < e ==> !is_break(#[trigger] s[k])
    &&& e == s.len() ==> n == s.len()
    &&& e < s.len() ==> is_break(s[e]) && n == (if s[e] == '\r' && e + 1 < s.len() && s[e + 1]
        == '\n' {
        e + 2
    } else {
        e + 1
    })
}

/// Whether a place is on a line: on one of its characters or at its end. What
/// is behind the last line's ending is on none.
pub open spec fn is_on(s: Seq<char>, p: int, a: int, e: int, n: int) -> bool {
    is_line(s, a, e, n) && a <= p <= e && (a < s.len() || a == 0)
}

pub proof fn lemma_same_line(s: Seq<char>, a: int, p: int)
    requires
        0 <= a <= p <= s.len(),
        forall|k: int| a <= k < p ==> !is_break(#[trigger] s[k]),
    ensures
        line_of(s, p) == line_of(s, a),
    decreases p - a,
{
    if a < p {
        lemma_same_line(s, a, p - 1);
        assert(!is_break(s[p - 1]));
    }
}

pub proof fn lemma_is_on(s: Seq<char>, p: int, a: int, e: int, n: int)
    requires
        is_on(s, p, a, e, n),
    ensures
        cursor_line(s, p) == line_of(s, p),
        0 <= cursor_line(s, p) < lines_in(s),
        line_start(s, cursor_line(s, p)) == a,
        line_end(s, cursor_line(s, p)) == e,
        line_len(s, cursor_line(s, p)) == e - a,
        line_content(s, cursor_line(s, p)) == s.subrange(a, e),
        line_start(s, cursor_line(s, p) + 1) == n,
        line_text(s, cursor_line(s, p)) == s.subrange(a, n),
        cursor_line(s, p) + 1 < line_count(s) <==> n < s.len(),
{
    let l = line_of(s, p) as int;
    lemma_same_line(s, a, p);
    lemma_same_line(s, a, e);
    lemma_line_bounds(s, p);
    lemma_line_bounds(s, a);
    lemma_line_start(s, l);
    if line_start(s, l) < a {
        lemma_line_of_grows(s, line_start(s, l), a - 1);
        assert(line_of(s, a) == line_of(s, a - 1) + 1);
    }
    assert(line_start(s, l) == a);
    lemma_line_parts(s, l);
    lemma_ending(s, l);
    let t = line_text(s, l);
    let next = line_start(s, l + 1);
    lemma_line_start(s, l + 1);
    lemma_line_bounds(s, e);
    let c = content_len(t);
    assert(next == s.len() || e < next);
    assert(c == e - a) by {
        if c > e - a {
            assert(!is_break(t[e - a]));
            assert(t[e - a] == s[e]);
        }
        if c < e - a {
            assert(is_break(t[c]));
            assert(t[c] == s[a + c]);
        }
    }
    // the ending is that of the line
    assert(n == next) by {
        if e < s.len() {
            if n == e + 2 {
                assert(!ends_line(s, e));
                assert(line_of(s, e + 1) == line_of(s, e));
                assert(ends_line(s, e + 1));
            } else {
                assert(ends_line(s, e));
            }
            assert(line_of(s, n) == l + 1);
            lemma_line_of_grows(s, n, s.len() as int);
            if next > n {
                assert(line_of(s, n) < l + 1);
            }
            if next < n {
                assert(line_of(s, next) == l + 1);
                lemma_line_of_grows(s, next, n - 1);
                assert(line_of(s, n - 1) == l);
            }
        }
    }
    lemma_line_count(s);
    lemma_line_of_grows(s, p, s.len() as int);
    let last = lines_in(s) - 1;
    lemma_line_start(s, last);
    if l == last {
        assert(n == s.len()) by {
            if n < s.len() {
                assert(line_of(s, n) == l + 1);
                lemma_line_of_grows(s, n, s.len() as int);
            }
        }
        assert(line_count(s) == lines_in(s));
    } else {
        assert(l + 1 < lines_in(s));
        assert(line_of(s, next) == l + 1);
        if l + 1 == last {
            assert(line_start(s, last) == n);
        } else {
            lemma_line_of_grows(s, next, s.len() as int);
            assert(next < s.len());
        }
    }
}

// ---- one edit ----------------------------------------------------------------------

proof fn lemma_applied_one(d: DocView, e: EditView, cursor: usize)
    requires
        0 <= e.0 <= e.1 <= d.text.len(),
        cursor <= d.text.len() - (e.1 - e.0) + crate::transaction::edit_text(e).len(),
    ensures
        ({
            let r = applied(d, change_ops(seq![e], d.text.len() as int), cursor);
            r.text == d.text.take(e.0) + crate::transaction::edit_text(e) + d.text.skip(e.1)
                && r.cursor == cursor
        }),
{
    let ops = change_ops(seq![e], d.text.len() as int);
    lemma_one_edit_len(d.text, e);
    law_change_makes_the_edits(seq![e], d.text);
    if keeps_all(ops) {
        lemma_keeps_all(ops, d.text);
    }
}

/// Deleting a stretch leaves what was before it and what was behind it, and
/// the cursor where it was.
pub proof fn law_deleting_leaves_the_rest(d: DocView, from: usize, to: usize)
    requires
        from <= to <= d.text.len(),
    ensures
        range_deleted(d, from, to).text == d.text.take(from as int) + d.text.skip(to as int),
        from < to ==> range_deleted(d, from, to).cursor == from,
        cut(d, from, to).text == d.text.take(from as int) + d.text.skip(to as int),
        from < to ==> cut(d, from, to).cursor <= from,
{
    reveal(range_deleted);
    reveal(cut);
    let s = d.text;
    let left = s.take(from as int) + s.skip(to as int);
    if from < to {
        let e = (from as int, to as int, None::<Seq<char>>);
        lemma_applied_one(d, e, from);
        assert(s.take(from as int) + Seq::<char>::empty() + s.skip(to as int) =~= left);
        lemma_clamped(left, from as int);
    } else {
        assert(left =~= s);
    }
}

/// What `d` takes: what is selected; without a selection, from the cursor as
/// many clusters as are counted, but nothing of the line's ending.
pub proof fn law_a_deletion_takes_what_is_selected(d: DocView, count: usize, a: int, e: int, n: int)
    requires
        placed(d),
        d.text.len() <= usize::MAX,
        is_on(d.text, d.cursor as int, a, e, n),
    ensures
        d.anchor < d.cursor ==> deletion(d, count) == (d.anchor, d.cursor),
        d.cursor < d.anchor ==> deletion(d, count) == (d.cursor, d.anchor),
        d.anchor == d.cursor && count == 1 ==> deletion(d, count) == (
            d.cursor,
            (if next_boundary(d.text, d.cursor as int) <= e {
                next_boundary(d.text, d.cursor as int)
            } else {
                e
            }) as usize,
        ),
        d.anchor == d.cursor ==> deletion(d, count).0 == d.cursor,
{
    reveal(deletion);
    reveal(range_of);
    lemma_is_on(d.text, d.cursor as int, a, e, n);
    if count == 1 {
        reveal_with_fuel(crate::motions::times, 2);
    }
}

/// Deleting the rest of the line leaves the line up to the cursor, and its
/// ending.
pub proof fn law_the_rest_of_the_line_goes(d: DocView, a: int, e: int, n: int)
    requires
        placed(d),
        d.text.len() <= usize::MAX,
        is_on(d.text, d.cursor as int, a, e, n),
    ensures
        line_rest_deleted(d).text == d.text.take(d.cursor as int) + d.text.skip(e),
{
    lemma_is_on(d.text, d.cursor as int, a, e, n);
    law_deleting_leaves_the_rest(d, d.cursor, e as usize);
}

/// Deleting lines takes whole lines: with one counted, the cursor's line and
/// its ending; the last line goes with the ending in front of it.
pub proof fn law_deleting_a_line_takes_it_whole(d: DocView, a: int, e: int, n: int)
    requires
        placed(d),
        d.text.len() <= usize::MAX,
        is_on(d.text, d.cursor as int, a, e, n),
    ensures
        n < d.text.len() ==> line_deletion(d, 1) == (a as usize, n as usize),
        a == 0 ==> line_deletion(d, 1) == (0usize, n as usize),
        n == d.text.len() ==> line_deletion(d, 1).1 == n,
        forall|b: int, f: int|
            n == d.text.len() && a > 0 && #[trigger] is_line(d.text, b, f, a) ==> line_deletion(d, 1)
                == (f as usize, n as usize),
{
    reveal(line_deletion);
    let s = d.text;
    let p = d.cursor as int;
    lemma_is_on(s, p, a, e, n);
    lemma_line_count(s);
    lemma_cursor_line(s, p);
    if a == 0 {
        assert(line_of(s, 0) == 0);
        lemma_same_line(s, 0, p);
    }
    assert forall|b: int, f: int|
        n == s.len() && a > 0 && #[trigger] is_line(s, b, f, a) implies line_deletion(d, 1) == (
        f as usize,
        n as usize,
    ) by {
        assert(b < a) by {
            if b == a {
                assert(f == a);
            }
        }
        assert(is_on(s, b, b, f, a));
        lemma_is_on(s, b, b, f, a);
        assert(line_of(s, a) == line_of(s, p)) by {
            lemma_same_line(s, a, p);
        }
        let l = line_of(s, b) as int;
        lemma_line_start(s, l + 1);
        assert(l + 1 < lines_in(s)) by {
            if l + 1 >= lines_in(s) {
                assert(a == s.len());
            }
        }
        assert(line_of(s, a) == l + 1);
    }
}

/// Deleting so many lines takes the cursor's line and those below it, up to the
/// line that many lines on.
pub proof fn law_deleting_lines_takes_as_many(
    d: DocView,
    count: usize,
    a: int,
    e: int,
    n: int,
    m: int,
)
    requires
        placed(d),
        d.text.len() <= usize::MAX,
        is_on(d.text, d.cursor as int, a, e, n),
        count >= 1,
        0 < m < d.text.len(),
        ends_line(d.text, m - 1),
        line_of(d.text, m) == line_of(d.text, a) + count,
    ensures
        line_deletion(d, count) == (a as usize, m as usize),
{
    reveal(line_deletion);
    let s = d.text;
    let p = d.cursor as int;
    lemma_is_on(s, p, a, e, n);
    lemma_same_line(s, a, p);
    lemma_line_count(s);
    let l = line_of(s, m) as int;
    lemma_line_bounds(s, m);
    lemma_line_start(s, l);
    if line_start(s, l) < m {
        lemma_line_of_grows(s, line_start(s, l), m - 1);
    }
    assert(line_start(s, l) == m);
    assert(l < line_count(s)) by {
        if l >= line_count(s) {
            assert(l == lines_in(s) - 1);
            assert(line_start(s, line_count(s)) == s.len());
        }
    }
}

/// Joining puts the next line behind the cursor's: the ending between them
/// and the white space that the next line begins with give way to one space,
/// or to nothing where the next line has no more. On the last line nothing
/// happens.
pub proof fn law_joining_closes_the_gap(
    d: DocView,
    a: int,
    e: int,
    n: int,
    f: int,
    m: int,
    w: int,
)
    requires
        placed(d),
        d.text.len() <= usize::MAX,
        is_on(d.text, d.cursor as int, a, e, n),
        n < d.text.len() ==> is_line(d.text, n, f, m) && n <= w <= f && (forall|k: int|
            n <= k < w ==> is_white(#[trigger] d.text[k])) && (w < f ==> !is_white(d.text[w])),
    ensures
        n == d.text.len() ==> joined_lines(d) == d,
        n < d.text.len() ==> joined_lines(d).text == d.text.take(e) + (if w < f {
            seq![' ']
        } else {
            Seq::empty()
        }) + d.text.skip(w),
{
    let s = d.text;
    let p = d.cursor as int;
    lemma_is_on(s, p, a, e, n);
    if n < s.len() {
        let line = cursor_line(s, p);
        assert(is_on(s, n, n, f, m));
        lemma_is_on(s, n, n, f, m);
        assert(cursor_line(s, n) == line + 1) by {
            lemma_line_start(s, line + 1);
            lemma_line_count(s);
        }
        let l = line_content(s, line + 1);
        assert(l == s.subrange(n, f));
        lemma_skip_white(l, 0);
        let skip = skip_white(l, 0);
        assert(skip == w - n) by {
            if skip < w - n {
                assert(l[skip] == s[n + skip]);
            }
            if skip > w - n {
                assert(l[w - n] == s[w]);
            }
        }
        let sep = if w < f {
            seq![' ']
        } else {
            Seq::<char>::empty()
        };
        lemma_applied_one(d, (e, w, Some(sep)), e as usize);
    }
}

/// Deleting backward takes the cluster before the cursor; where the cursor is
/// in an empty pair that closed itself, the closing character goes too. At
/// the start of the text nothing happens.
pub proof fn law_deleting_backward_takes_the_cluster_before(d: DocView, autoclose: bool)
    requires
        placed(d),
        d.text.len() <= usize::MAX,
    ensures
        d.cursor == 0 ==> deleted_backward(d, autoclose) == d,
        d.cursor > 0 && 0 <= prev_boundary(d.text, d.cursor as int) <= d.cursor ==> ({
            let s = d.text;
            let c = d.cursor as int;
            let from = prev_boundary(s, c);
            let both = autoclose && c < s.len() && ((s[c - 1] == '(' && s[c] == ')') || (s[c - 1]
                == '[' && s[c] == ']') || (s[c - 1] == '{' && s[c] == '}') || (s[c - 1] == '"'
                && s[c] == '"') || (s[c - 1] == '\'' && s[c] == '\''));
            deleted_backward(d, autoclose).text == s.take(from) + s.skip(
                if both {
                    c + 1
                } else {
                    c
                },
            )
        }),
{
    if d.cursor > 0 && 0 <= prev_boundary(d.text, d.cursor as int) <= d.cursor {
        let s = d.text;
        let c = d.cursor as int;
        let from = prev_boundary(s, c) as usize;
        law_deleting_leaves_the_rest(d, from, d.cursor);
        if c < s.len() {
            law_deleting_leaves_the_rest(d, from, (c + 1) as usize);
        }
    }
}

/// Deleting forward takes the cluster under the cursor; at the end of the text
/// nothing happens.
pub proof fn law_deleting_forward_takes_the_cluster_under(d: DocView)
    requires
        placed(d),
        d.text.len() <= usize::MAX,
    ensures
        d.cursor == d.text.len() ==> deleted_forward(d) == d,
        d.cursor < d.text.len() && d.cursor <= next_boundary(d.text, d.cursor as int)
            <= d.text.len() ==> deleted_forward(d).text == d.text.take(d.cursor as int)
            + d.text.skip(next_boundary(d.text, d.cursor as int)),
{
    if d.cursor < d.text.len() && d.cursor <= next_boundary(d.text, d.cursor as int)
        <= d.text.len() {
        law_deleting_leaves_the_rest(
            d,
            d.cursor,
            next_boundary(d.text, d.cursor as int) as usize,
        );
    }
}

// ---- new lines ---------------------------------------------------------------------

/// Whether a line begins with the blanks of `a..i` and no more.
pub open spec fn is_indent(s: Seq<char>, a: int, i: int, e: int) -> bool {
    &&& a <= i <= e
    &&& forall|k: int| a <= k < i ==> #[trigger] s[k] == ' ' || s[k] == '\t'
    &&& i < e ==> s[i] != ' ' && s[i] != '\t'
}

proof fn lemma_blank_end(l: Seq<char>, i: int)
    requires
        0 <= i <= l.len(),
    ensures
        i <= blank_end(l, i) <= l.len(),
        forall|k: int| i <= k < blank_end(l, i) ==> blank(#[trigger] l[k]),
        blank_end(l, i) < l.len() ==> !blank(l[blank_end(l, i)]),
    decreases l.len() - i,
{
    if i < l.len() && blank(l[i]) {
        lemma_blank_end(l, i + 1);
    }
}

proof fn lemma_indent(s: Seq<char>, p: int, a: int, e: int, n: int, i: int)
    requires
        is_on(s, p, a, e, n),
        is_indent(s, a, i, e),
    ensures
        indent_of(s, cursor_line(s, p)) == s.subrange(a, i),
{
    lemma_is_on(s, p, a, e, n);
    let l = line_content(s, cursor_line(s, p));
    lemma_blank_end(l, 0);
    let b = blank_end(l, 0);
    if b < i - a {
        assert(l[b] == s[a + b]);
    }
    if b > i - a {
        assert(l[i - a] == s[i]);
    }
    assert(l.take(b) =~= s.subrange(a, i));
}

/// Opening a line below puts an empty line with the same indent behind the
/// cursor's, and the cursor behind that indent.
pub proof fn law_a_line_opens_below(d: DocView, a: int, e: int, n: int, i: int)
    requires
        placed(d),
        d.text.len() + e + 1 - a <= usize::MAX,
        is_on(d.text, d.cursor as int, a, e, n),
        is_indent(d.text, a, i, e),
    ensures
        opened_below(d).text == d.text.take(e) + seq!['\n'] + d.text.subrange(a, i) + d.text.skip(e),
        opened_below(d).cursor == e + 1 + (i - a),
{
    let s = d.text;
    lemma_is_on(s, d.cursor as int, a, e, n);
    lemma_indent(s, d.cursor as int, a, e, n, i);
    let t = seq!['\n'] + s.subrange(a, i);
    lemma_applied_one(d, (e, e, Some(t)), (e + t.len()) as usize);
    assert(s.take(e) + t + s.skip(e) =~= s.take(e) + seq!['\n'] + s.subrange(a, i) + s.skip(e));
}

/// Opening a line above puts an empty line with the same indent in front of
/// the cursor's, and the cursor behind that indent.
pub proof fn law_a_line_opens_above(d: DocView, a: int, e: int, n: int, i: int)
    requires
        placed(d),
        d.text.len() + e + 1 - a <= usize::MAX,
        is_on(d.text, d.cursor as int, a, e, n),
        is_indent(d.text, a, i, e),
    ensures
        opened_above(d).text == d.text.take(a) + d.text.subrange(a, i) + seq!['\n'] + d.text.skip(a),
        opened_above(d).cursor == i,
{
    let s = d.text;
    lemma_is_on(s, d.cursor as int, a, e, n);
    lemma_indent(s, d.cursor as int, a, e, n, i);
    let t = s.subrange(a, i) + seq!['\n'];
    lemma_applied_one(d, (a, a, Some(t)), i as usize);
    assert(s.take(a) + t + s.skip(a) =~= s.take(a) + s.subrange(a, i) + seq!['\n'] + s.skip(a));
}

/// One level of indent: a tab where the line's indent has one, else as many
/// spaces as a tab is wide.
pub open spec fn is_level(t: Seq<char>, indent: Seq<char>, tab: usize) -> bool {
    if exists|k: int| 0 <= k < indent.len() && #[trigger] indent[k] == '\t' {
        t == seq!['\t']
    } else {
        t.len() == tab && forall|k: int| 0 <= k < t.len() ==> #[trigger] t[k] == ' '
    }
}

proof fn lemma_level(t: Seq<char>, indent: Seq<char>, tab: usize)
    requires
        is_level(t, indent, tab),
    ensures
        unit_of(indent, tab) == t,
{
    if indent.contains('\t') {
        let k = choose|k: int| 0 <= k < indent.len() && indent[k] == '\t';
        assert(indent[k] == '\t');
    } else {
        assert forall|k: int| 0 <= k < indent.len() implies #[trigger] indent[k] != '\t' by {
            assert(indent.contains(indent[k]));
        }
        assert(unit_of(indent, tab) =~= t);
    }
}

/// Breaking the line at a cursor behind its indent puts in a line ending and
/// the line's indent. Behind an opening bracket the new line is one level
/// deeper, and where the bracket is closed right there, that goes to a line of
/// its own with the indent as it was, the cursor staying on the line between.
pub proof fn law_a_new_line_keeps_the_indent(
    d: DocView,
    tab: usize,
    a: int,
    e: int,
    n: int,
    i: int,
    level: Seq<char>,
)
    requires
        placed(d),
        d.extra.len() == 0,
        is_on(d.text, d.cursor as int, a, e, n),
        is_indent(d.text, a, i, e),
        i <= d.cursor,
        is_level(level, d.text.subrange(a, i), tab),
        d.text.len() + 2 * (e - a) + 2 + level.len() <= usize::MAX,
    ensures
        ({
            let s = d.text;
            let c = d.cursor as int;
            let indent = s.subrange(a, i);
            let r = newline_inserted(d, tab);
            let opens = c > 0 && (s[c - 1] == '(' || s[c - 1] == '[' || s[c - 1] == '{');
            let closed = c > 0 && c < s.len() && ((s[c - 1] == '(' && s[c] == ')') || (s[c - 1]
                == '[' && s[c] == ']') || (s[c - 1] == '{' && s[c] == '}'));
            if closed {
                r.text == s.take(c) + seq!['\n'] + indent + level + seq!['\n'] + indent + s.skip(c)
                    && r.cursor == c + 1 + indent.len() + level.len()
            } else if opens {
                r.text == s.take(c) + seq!['\n'] + indent + level + s.skip(c) && r.cursor == c + 1
                    + indent.len() + level.len()
            } else {
                r.text == s.take(c) + seq!['\n'] + indent + s.skip(c) && r.cursor == c + 1
                    + indent.len()
            }
        }),
{
    let s = d.text;
    let c = d.cursor as int;
    let indent = s.subrange(a, i);
    let plain = seq!['\n'] + indent;
    let deeper = seq!['\n'] + indent + level;
    let closing = deeper + seq!['\n'] + indent;
    lemma_newline_plan(d, tab, a, e, n, i, level);
    lemma_put_in(d, plain, plain.len() as int);
    lemma_put_in(d, deeper, deeper.len() as int);
    lemma_put_in(d, closing, deeper.len() as int);
    lemma_three(s.take(c), seq!['\n'], indent, level, s.skip(c));
}

proof fn lemma_three(h: Seq<char>, b: Seq<char>, i: Seq<char>, l: Seq<char>, t: Seq<char>)
    ensures
        h + (b + i) + t == h + b + i + t,
        h + (b + i + l) + t == h + b + i + l + t,
        h + (b + i + l + b + i) + t == h + b + i + l + b + i + t,
{
    assert(h + (b + i) + t =~= h + b + i + t);
    assert(h + (b + i + l) + t =~= h + b + i + l + t);
    assert(h + (b + i + l + b + i) + t =~= h + b + i + l + b + i + t);
}

proof fn lemma_put_in(d: DocView, t: Seq<char>, k: int)
    requires
        placed(d),
        d.extra.len() == 0,
        0 <= k <= t.len(),
        d.text.len() + t.len() <= usize::MAX,
    ensures
        ({
            let c = d.cursor as int;
            let r = spliced(d, c, c, t, c + k);
            r.text == d.text.take(c) + t + d.text.skip(c) && r.cursor == c + k
        }),
        inserted(d, t).text == d.text.take(d.cursor as int) + t + d.text.skip(d.cursor as int),
        inserted(d, t).cursor == d.cursor + t.len(),
{
    let c = d.cursor as int;
    lemma_applied_one(d, (c, c, Some(t)), (c + k) as usize);
    lemma_applied_one(d, (c, c, Some(t)), (c + t.len()) as usize);
}

proof fn lemma_newline_plan(
    d: DocView,
    tab: usize,
    a: int,
    e: int,
    n: int,
    i: int,
    level: Seq<char>,
)
    requires
        placed(d),
        d.extra.len() == 0,
        is_on(d.text, d.cursor as int, a, e, n),
        is_indent(d.text, a, i, e),
        i <= d.cursor,
        is_level(level, d.text.subrange(a, i), tab),
    ensures
        ({
            let s = d.text;
            let c = d.cursor as int;
            let indent = s.subrange(a, i);
            let plain = seq!['\n'] + indent;
            let deeper = seq!['\n'] + indent + level;
            let closing = deeper + seq!['\n'] + indent;
            let opens = c > 0 && (s[c - 1] == '(' || s[c - 1] == '[' || s[c - 1] == '{');
            let closed = c > 0 && c < s.len() && ((s[c - 1] == '(' && s[c] == ')') || (s[c - 1]
                == '[' && s[c] == ']') || (s[c - 1] == '{' && s[c] == '}'));
            newline_plan(d, tab) == (if closed {
                (closing, Some(deeper.len() as int))
            } else if opens {
                (deeper, None)
            } else {
                (plain, None)
            })
        }),
{
    let s = d.text;
    let c = d.cursor as int;
    let indent = s.subrange(a, i);
    lemma_is_on(s, c, a, e, n);
    lemma_indent(s, c, a, e, n, i);
    lemma_level(level, indent, tab);
    assert(indent.take(i - a) =~= indent);
}

/// Tab puts in one level of the line's indent.
pub proof fn law_tab_puts_in_a_level(
    d: DocView,
    tab: usize,
    a: int,
    e: int,
    n: int,
    i: int,
    level: Seq<char>,
)
    requires
        placed(d),
        d.extra.len() == 0,
        is_on(d.text, d.cursor as int, a, e, n),
        is_indent(d.text, a, i, e),
        is_level(level, d.text.subrange(a, i), tab),
        d.text.len() + level.len() <= usize::MAX,
    ensures
        tab_inserted(d, tab).text == d.text.take(d.cursor as int) + level + d.text.skip(
            d.cursor as int,
        ),
        tab_inserted(d, tab).cursor == d.cursor + level.len(),
{
    lemma_indent(d.text, d.cursor as int, a, e, n, i);
    lemma_level(level, d.text.subrange(a, i), tab);
    let c = d.cursor as int;
    lemma_applied_one(d, (c, c, Some(level)), (c + level.len()) as usize);
}

// ---- typing ------------------------------------------------------------------------

/// A character typed where there is no closing bracket to step over, and that
/// is not one itself, goes in at the cursor; an opening one brings its closing
/// one along and the cursor stays between them.
pub proof fn law_a_typed_character_goes_in(d: DocView, c: char, tab: usize, autoclose: bool)
    requires
        placed(d),
        d.extra.len() == 0,
        d.text.len() + 2 <= usize::MAX,
        c != ')' && c != ']' && c != '}' && c != '"' && c != '\'',
    ensures
        ({
            let s = d.text;
            let at = d.cursor as int;
            let r = typed(d, c, tab, autoclose);
            let k = if c == '(' {
                ')'
            } else if c == '[' {
                ']'
            } else {
                '}'
            };
            &&& r.cursor == at + 1
            &&& r.text == if autoclose && (c == '(' || c == '[' || c == '{') {
                s.take(at) + seq![c, k] + s.skip(at)
            } else {
                s.take(at) + seq![c] + s.skip(at)
            }
        }),
{
    let at = d.cursor as int;
    let k = if c == '(' {
        ')'
    } else if c == '[' {
        ']'
    } else {
        '}'
    };
    lemma_applied_one(d, (at, at, Some(seq![c])), (at + 1) as usize);
    lemma_applied_one(d, (at, at, Some(seq![c, k])), (at + 2) as usize);
}

/// A quote typed where one stands steps over it; else it goes in, and brings
/// another along where pairs close themselves, but for an apostrophe behind a
/// word.
pub proof fn law_a_typed_quote_steps_over_or_pairs(d: DocView, c: char, tab: usize, autoclose: bool)
    requires
        placed(d),
        d.extra.len() == 0,
        d.text.len() + 2 <= usize::MAX,
        c == '"' || c == '\'',
    ensures
        ({
            let s = d.text;
            let at = d.cursor as int;
            let r = typed(d, c, tab, autoclose);
            let behind_word = at > 0 && (crate::strings::alphanumeric(s[at - 1]) || s[at - 1] == '_');
            &&& r.cursor == at + 1
            &&& r.text == if autoclose && at < s.len() && s[at] == c {
                s
            } else if autoclose && (c == '"' || !behind_word) {
                s.take(at) + seq![c, c] + s.skip(at)
            } else {
                s.take(at) + seq![c] + s.skip(at)
            }
        }),
{
    let at = d.cursor as int;
    lemma_applied_one(d, (at, at, Some(seq![c])), (at + 1) as usize);
    lemma_applied_one(d, (at, at, Some(seq![c, c])), (at + 2) as usize);
}

/// A closing bracket typed behind something on its line goes in at the cursor,
/// or steps over the same bracket that stands there.
pub proof fn law_a_typed_bracket_steps_over_its_like(
    d: DocView,
    c: char,
    tab: usize,
    autoclose: bool,
    a: int,
    e: int,
    n: int,
    k: int,
)
    requires
        placed(d),
        d.extra.len() == 0,
        d.text.len() + 2 <= usize::MAX,
        c == ')' || c == ']' || c == '}',
        is_on(d.text, d.cursor as int, a, e, n),
        d.cursor == a || (a <= k < d.cursor && d.text[k] != ' ' && d.text[k] != '\t'),
    ensures
        ({
            let s = d.text;
            let at = d.cursor as int;
            let r = typed(d, c, tab, autoclose);
            &&& r.cursor == at + 1
            &&& r.text == if autoclose && at < s.len() && s[at] == c {
                s
            } else {
                s.take(at) + seq![c] + s.skip(at)
            }
        }),
{
    let s = d.text;
    let at = d.cursor as int;
    lemma_is_on(s, at, a, e, n);
    let l = s.subrange(a, at);
    if a < at {
        assert(l[k - a] == s[k]);
    }
    assert(dedented(d, c, tab) == d);
    lemma_applied_one(d, (at, at, Some(seq![c])), (at + 1) as usize);
}

/// A closing bracket typed behind nothing but the line's indent takes one
/// level of it away: a tab, or as many characters as a tab is wide, as far as
/// the indent goes.
pub proof fn law_a_typed_bracket_dedents(
    d: DocView,
    c: char,
    tab: usize,
    a: int,
    e: int,
    n: int,
)
    requires
        placed(d),
        d.extra.len() == 0,
        d.text.len() + 2 <= usize::MAX,
        c == ')' || c == ']' || c == '}',
        is_on(d.text, d.cursor as int, a, e, n),
        a < d.cursor,
        forall|k: int| a <= k < d.cursor ==> #[trigger] d.text[k] == ' ' || d.text[k] == '\t',
    ensures
        ({
            let s = d.text;
            let at = d.cursor as int;
            let from = if s[at - 1] == '\t' {
                at - 1
            } else if at - tab >= a {
                at - tab
            } else {
                a
            };
            typed(d, c, tab, false).text == s.take(from) + seq![c] + s.skip(at)
        }),
{
    let s = d.text;
    let at = d.cursor as int;
    let from = if s[at - 1] == '\t' {
        at - 1
    } else if at - tab >= a {
        at - tab
    } else {
        a
    };
    lemma_dedented(d, c, tab, a, e, n, from as usize);
    let r = range_deleted(d, from as usize, d.cursor);
    let left = s.take(from) + s.skip(at);
    law_deleting_leaves_the_rest(d, from as usize, d.cursor);
    assert(r.extra.len() == 0 && (from == at ==> r == d)) by {
        reveal(range_deleted);
    }
    assert(r.text == left && r.cursor == from);
    lemma_applied_one(r, (from, from, Some(seq![c])), (from + 1) as usize);
    lemma_moved_tail(s, from, at, seq![c]);
}

proof fn lemma_moved_tail(s: Seq<char>, from: int, at: int, t: Seq<char>)
    requires
        0 <= from <= at <= s.len(),
    ensures
        (s.take(from) + s.skip(at)).take(from) + t + (s.take(from) + s.skip(at)).skip(from)
            == s.take(from) + t + s.skip(at),
{
    let left = s.take(from) + s.skip(at);
    assert(left.take(from) =~= s.take(from));
    assert(left.skip(from) =~= s.skip(at));
}

proof fn lemma_dedented(d: DocView, c: char, tab: usize, a: int, e: int, n: int, from: usize)
    requires
        placed(d),
        d.extra.len() == 0,
        c == ')' || c == ']' || c == '}',
        is_on(d.text, d.cursor as int, a, e, n),
        a < d.cursor,
        forall|k: int| a <= k < d.cursor ==> #[trigger] d.text[k] == ' ' || d.text[k] == '\t',
        from == (if d.text[d.cursor - 1] == '\t' {
            d.cursor - 1
        } else if d.cursor - tab >= a {
            d.cursor - tab
        } else {
            a
        }),
    ensures
        dedented(d, c, tab) == range_deleted(d, from, d.cursor),
{
    let s = d.text;
    let at = d.cursor as int;
    lemma_is_on(s, at, a, e, n);
    let l = s.subrange(a, at);
    assert forall|k: int| 0 <= k < at - a implies blank(#[trigger] l[k]) by {
        assert(l[k] == s[a + k]);
    }
    assert(l[at - a - 1] == s[at - 1]);
}

// ---- pasting -----------------------------------------------------------------------

/// Pasting a register that ends no line: over a selection it replaces it;
/// without one it goes in behind the character under the cursor, or before.
pub proof fn law_pasting_puts_the_register_in(
    d: DocView,
    reg: Seq<char>,
    after: bool,
    a: int,
    e: int,
    n: int,
)
    requires
        placed(d),
        d.text.len() + reg.len() <= usize::MAX,
        reg.len() > 0,
        reg.last() != '\n',
        is_on(d.text, d.cursor as int, a, e, n),
    ensures
        ({
            let s = d.text;
            let c = d.cursor as int;
            let k = d.anchor as int;
            let r = pasted(d, reg, after).text;
            &&& k < c ==> r == s.take(k) + reg + s.skip(c)
            &&& c < k ==> r == s.take(c) + reg + s.skip(k)
            &&& c == k && after && c < e ==> r == s.take(c + 1) + reg + s.skip(c + 1)
            &&& c == k && (!after || c == e) ==> r == s.take(c) + reg + s.skip(c)
        }),
{
    reveal(pasted);
    reveal(range_of);
    let s = d.text;
    let c = d.cursor as int;
    let k = d.anchor as int;
    lemma_is_on(s, c, a, e, n);
    let (from, to) = if k < c {
        (k, c)
    } else if c < k {
        (c, k)
    } else if after && c < e {
        (c + 1, c + 1)
    } else {
        (c, c)
    };
    lemma_applied_one(d, (from, to, Some(reg)), (from + reg.len() - 1) as usize);
}

/// Pasting a register of whole lines puts it between lines: behind the
/// cursor's line or in front of it, whatever is selected. Behind a last line
/// that has no ending, the register's last ending goes in front instead.
pub proof fn law_pasting_lines_puts_them_between_lines(
    d: DocView,
    reg: Seq<char>,
    a: int,
    e: int,
    n: int,
)
    requires
        placed(d),
        d.text.len() + reg.len() <= usize::MAX,
        reg.len() > 0,
        reg.last() == '\n',
        is_on(d.text, d.cursor as int, a, e, n),
    ensures
        pasted(d, reg, false).text == d.text.take(a) + reg + d.text.skip(a),
        e < n ==> pasted(d, reg, true).text == d.text.take(n) + reg + d.text.skip(n),
        e == n ==> pasted(d, reg, true).text == d.text + seq!['\n'] + reg.drop_last(),
{
    reveal(pasted);
    let s = d.text;
    lemma_is_on(s, d.cursor as int, a, e, n);
    lemma_applied_one(d, (a, a, Some(reg)), a as usize);
    lemma_applied_one(d, (n, n, Some(reg)), n as usize);
    if e == n {
        let t = seq!['\n'] + reg.drop_last();
        lemma_applied_one(d, (n, n, Some(t)), (n + 1) as usize);
        assert(n == s.len());
        assert(s.take(n) + t + s.skip(n) =~= s + seq!['\n'] + reg.drop_last());
    }
}

/// What was cut and is pasted before the same place gives the text back.
pub proof fn law_pasting_undoes_cutting(
    d: DocView,
    from: usize,
    to: usize,
    r: DocView,
    a: int,
    e: int,
    n: int,
)
    requires
        placed(d),
        from < to <= d.text.len(),
        d.text.len() <= usize::MAX,
        r.text == cut(d, from, to).text,
        r.cursor == from,
        r.anchor == from,
        placed(r),
        is_on(r.text, from as int, a, e, n),
        d.text[to - 1] != '\n',
    ensures
        pasted(r, d.text.subrange(from as int, to as int), false).text == d.text,
{
    let reg = d.text.subrange(from as int, to as int);
    law_deleting_leaves_the_rest(d, from, to);
    assert(reg.last() == d.text[to - 1]);
    law_pasting_puts_the_register_in(r, reg, false, a, e, n);
    assert(r.text.take(from as int) + reg + r.text.skip(from as int) =~= d.text);
}

// ---- typing at every cursor ----------------------------------------------------------

/// Places in order, none twice.
pub open spec fn go_up(v: Seq<usize>) -> bool {
    forall|i: int, j: int| 0 <= i < j < v.len() ==> #[trigger] v[i] < #[trigger] v[j]
}

proof fn lemma_with_point(v: Seq<usize>, p: usize, i: int, x: usize)
    requires
        go_up(v),
        0 <= i <= v.len(),
        forall|k: int| 0 <= k < i ==> #[trigger] v[k] < p,
    ensures
        go_up(with_point(v, p, i)),
        with_point(v, p, i).contains(x) <==> v.contains(x) || x == p,
    decreases v.len() - i,
{
    let r = with_point(v, p, i);
    if i >= v.len() || p < v[i] {
        assert(r == v.take(i).push(p) + v.skip(i));
        assert forall|k: int| 0 <= k < r.len() implies #[trigger] r[k] == (if k < i {
            v[k]
        } else if k == i {
            p
        } else {
            v[k - 1]
        }) by {}
        assert(r[i] == p);
        if v.contains(x) {
            let k = choose|k: int| 0 <= k < v.len() && v[k] == x;
            assert(r[if k < i {
                k
            } else {
                k + 1
            }] == x);
        }
        if r.contains(x) {
            let k = choose|k: int| 0 <= k < r.len() && r[k] == x;
            if k < i {
                assert(v[k] == x);
            } else if k > i {
                assert(v[k - 1] == x);
            }
        }
    } else if p == v[i] {
        assert(v.contains(p));
    } else {
        lemma_with_point(v, p, i + 1, x);
    }
}

proof fn lemma_points(cursor: usize, extra: Seq<(usize, usize)>, n: nat, x: usize)
    requires
        n <= extra.len(),
    ensures
        go_up(points_upto(cursor, extra, n)),
        points_upto(cursor, extra, n).contains(x) <==> x == cursor || exists|i: int|
            0 <= i < n && (#[trigger] extra[i]).1 == x,
    decreases n,
{
    if n > 0 {
        lemma_points(cursor, extra, (n - 1) as nat, x);
        lemma_with_point(points_upto(cursor, extra, (n - 1) as nat), extra[n - 1].1, 0, x);
        if extra[n - 1].1 == x {
            assert(extra[n - 1].1 == x);
        }
    } else {
        let one = points_upto(cursor, extra, 0);
        assert(one[0] == cursor);
    }
}

/// Text is put in at each place where a cursor is, once, in order.
pub proof fn law_text_goes_in_at_every_cursor(d: DocView, x: usize)
    ensures
        ({
            let points = points_upto(d.cursor, d.extra, d.extra.len());
            &&& go_up(points)
            &&& points.contains(x) <==> x == d.cursor || exists|i: int|
                0 <= i < d.extra.len() && (#[trigger] d.extra[i]).1 == x
        }),
{
    lemma_points(d.cursor, d.extra, d.extra.len(), x);
}

/// With two cursors, what is typed stands in both places and the rest of the
/// text as it was.
pub proof fn law_two_cursors_type_twice(d: DocView, t: Seq<char>, p: usize, q: usize)
    requires
        placed(d),
        d.extra.len() == 1,
        p < q,
        (d.cursor == p && d.extra[0].1 == q) || (d.cursor == q && d.extra[0].1 == p),
    ensures
        inserted(d, t).text == d.text.take(p as int) + t + d.text.subrange(p as int, q as int) + t
            + d.text.skip(q as int),
{
    let s = d.text;
    reveal_with_fuel(points_upto, 3);
    reveal_with_fuel(with_point, 3);
    let one = points_upto(d.cursor, d.extra, 0);
    assert(one =~= seq![d.cursor]);
    let points = points_upto(d.cursor, d.extra, 1);
    assert(points =~= seq![p, q]);
    let es = insert_edits(points, t);
    assert(es[0] == (p as int, p as int, Some(t)));
    assert(es[1] == (q as int, q as int, Some(t)));
    assert(crate::transaction::edits_fit(es, s.len() as int));
    lemma_two_edits(s, es);
    lemma_applied_text(d, es, crate::document::ride(change_ops(es, s.len() as int), d.cursor));
}

/// Deleting so many characters takes them from the cursor on, but nothing of
/// the line's ending.
pub proof fn law_characters_go_as_far_as_the_line(d: DocView, count: usize, a: int, e: int, n: int)
    requires
        placed(d),
        d.text.len() <= usize::MAX,
        is_on(d.text, d.cursor as int, a, e, n),
    ensures
        chars_deleted(d, count).text == d.text.take(d.cursor as int) + d.text.skip(
            if d.cursor + count <= e {
                d.cursor + count
            } else {
                e
            },
        ),
{
    reveal(chars_deleted);
    lemma_is_on(d.text, d.cursor as int, a, e, n);
    let to = if d.cursor + count <= e {
        d.cursor + count
    } else {
        e
    };
    law_deleting_leaves_the_rest(d, d.cursor, to as usize);
}

// ---- where the cursor is left --------------------------------------------------------

/// After a cut the cursor is where the cut began; after a paste on the last
/// character that was pasted, or on the first of the lines that were; each as
/// far as a cursor can stand there.
pub proof fn law_the_cursor_is_left_at_the_edit(
    d: DocView,
    from: usize,
    to: usize,
    reg: Seq<char>,
    a: int,
    e: int,
    n: int,
)
    requires
        placed(d),
        d.text.len() + reg.len() <= usize::MAX,
        reg.len() > 0,
        is_on(d.text, d.cursor as int, a, e, n),
        from < to <= d.text.len(),
    ensures
        cut(d, from, to).cursor == clamped(cut(d, from, to).text, from as int, false),
        reg.last() == '\n' ==> pasted(d, reg, false).cursor == clamped(
            pasted(d, reg, false).text,
            a,
            false,
        ),
        reg.last() == '\n' && e < n ==> pasted(d, reg, true).cursor == clamped(
            pasted(d, reg, true).text,
            n,
            false,
        ),
        reg.last() == '\n' && e == n ==> pasted(d, reg, true).cursor == clamped(
            pasted(d, reg, true).text,
            n + 1,
            false,
        ),
        reg.last() != '\n' && d.anchor == d.cursor ==> pasted(d, reg, false).cursor == clamped(
            pasted(d, reg, false).text,
            d.cursor + reg.len() - 1,
            false,
        ),
        reg.last() != '\n' && d.anchor == d.cursor && d.cursor < e ==> pasted(
            d,
            reg,
            true,
        ).cursor == clamped(pasted(d, reg, true).text, d.cursor + reg.len() as int, false),
{
    reveal(pasted);
    reveal(cut);
    let s = d.text;
    let c = d.cursor as int;
    lemma_is_on(s, c, a, e, n);
    law_deleting_leaves_the_rest(d, from, to);
    lemma_clamped(cut(d, from, to).text, from as int);
    if reg.last() == '\n' {
        law_pasting_lines_puts_them_between_lines(d, reg, a, e, n);
        lemma_applied_one(d, (a, a, Some(reg)), a as usize);
        lemma_applied_one(d, (n, n, Some(reg)), n as usize);
        lemma_clamped(pasted(d, reg, false).text, a);
        lemma_clamped(pasted(d, reg, true).text, n);
        if e == n {
            let t = seq!['\n'] + reg.drop_last();
            lemma_applied_one(d, (n, n, Some(t)), (n + 1) as usize);
            lemma_clamped(pasted(d, reg, true).text, n + 1);
        }
    } else if d.anchor == d.cursor {
        lemma_applied_one(d, (c, c, Some(reg)), (c + reg.len() - 1) as usize);
        lemma_clamped(pasted(d, reg, false).text, c + reg.len() - 1);
        if c < e {
            lemma_applied_one(d, (c + 1, c + 1, Some(reg)), (c + reg.len()) as usize);
            lemma_clamped(pasted(d, reg, true).text, c + reg.len() as int);
        }
    }
}

} // verus!
