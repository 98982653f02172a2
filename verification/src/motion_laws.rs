//! Where the motions lead, said by what stands there.

use vstd::prelude::*;
use crate::document::{
    cluster_start, cursor_line, lemma_cluster_start, lemma_line_count, line_count, line_end,
    line_len, placed, DocView,
};
use crate::edit_laws::{is_line, is_on, lemma_is_on};
use crate::motions::{
    at_first_nonblank, at_line, at_line_end, at_line_start, back_over_white, class_end, class_start,
    collapsed, left_of, line_selected, line_steps, moved_left, moved_right, right_of, times,
    to_left, to_next_word, to_prev_word, to_right, to_word_end, word_after, word_before,
    word_end_selected, word_last, word_next_selected, word_prev_selected,
};
use crate::position::{
    class_at, cluster_lengths, floor_boundary, floor_from, next_boundary, next_from, prev_boundary,
    prev_from, CharClass,
};
use crate::strings::{is_white, lemma_skip_white, skip_white};
use crate::text::{lemma_line_start, line_of, line_start};

verus! {

// ---- clusters ----------------------------------------------------------------------

/// The sum of the first `k` lengths.
pub open spec fn reach(lens: Seq<usize>, k: int) -> int
    decreases k,
{
    if k <= 0 {
        0
    } else {
        reach(lens, k - 1) + lens[k - 1]
    }
}

/// Whether a cluster begins or ends at a place.
pub open spec fn is_edge(lens: Seq<usize>, p: int) -> bool {
    exists|k: int| 0 <= k <= lens.len() && #[trigger] reach(lens, k) == p
}

pub proof fn lemma_reach_grows(lens: Seq<usize>, j: int, k: int)
    requires
        0 <= j <= k <= lens.len(),
    ensures
        reach(lens, j) <= reach(lens, k),
    decreases k - j,
{
    if j < k {
        lemma_reach_grows(lens, j, k - 1);
    }
}

proof fn lemma_next_from(lens: Seq<usize>, k: int, pos: int)
    requires
        0 <= k <= lens.len(),
        forall|j: int| 0 <= j <= k ==> #[trigger] reach(lens, j) <= pos,
    ensures
        ({
            let r = next_from(lens, k, reach(lens, k), pos);
            &&& is_edge(lens, r)
            &&& r > pos || r == reach(lens, lens.len() as int)
            &&& forall|p: int| #[trigger] is_edge(lens, p) && p > pos ==> r <= p
        }),
    decreases lens.len() - k,
{
    if k < lens.len() {
        assert(reach(lens, k + 1) == reach(lens, k) + lens[k]);
        if reach(lens, k + 1) > pos {
            assert forall|p: int| #[trigger] is_edge(lens, p) && p > pos implies reach(lens, k + 1)
                <= p by {
                let j = choose|j: int| 0 <= j <= lens.len() && #[trigger] reach(lens, j) == p;
                if j > k {
                    lemma_reach_grows(lens, k + 1, j);
                }
            }
        } else {
            lemma_next_from(lens, k + 1, pos);
        }
    } else {
        assert forall|p: int| #[trigger] is_edge(lens, p) && p > pos implies reach(lens, k) <= p by {
            let j = choose|j: int| 0 <= j <= lens.len() && #[trigger] reach(lens, j) == p;
        }
    }
}

proof fn lemma_back_from(lens: Seq<usize>, k: int, pos: int)
    requires
        0 <= k <= lens.len(),
    ensures
        reach(lens, k) < pos || k == 0 ==> ({
            let r = prev_from(lens, k, reach(lens, k), pos);
            &&& is_edge(lens, r)
            &&& r < pos || r == 0
            &&& pos <= reach(lens, lens.len() as int) ==> forall|p: int| #[trigger]
                is_edge(lens, p) && p < pos ==> p <= r
        }),
        reach(lens, k) <= pos ==> ({
            let r = floor_from(lens, k, reach(lens, k), pos);
            &&& is_edge(lens, r)
            &&& r <= pos
            &&& forall|p: int| #[trigger] is_edge(lens, p) && p <= pos ==> p <= r
        }),
    decreases lens.len() - k,
{
    if k < lens.len() {
        assert(reach(lens, k + 1) == reach(lens, k) + lens[k]);
        lemma_back_from(lens, k + 1, pos);
        if reach(lens, k + 1) >= pos {
            assert forall|p: int| #[trigger] is_edge(lens, p) && p < pos implies p <= reach(
                lens,
                k,
            ) by {
                let j = choose|j: int| 0 <= j <= lens.len() && #[trigger] reach(lens, j) == p;
                if j <= k {
                    lemma_reach_grows(lens, j, k);
                } else {
                    lemma_reach_grows(lens, k + 1, j);
                }
            }
        }
        if reach(lens, k + 1) > pos {
            assert forall|p: int| #[trigger] is_edge(lens, p) && p <= pos implies p <= reach(
                lens,
                k,
            ) by {
                let j = choose|j: int| 0 <= j <= lens.len() && #[trigger] reach(lens, j) == p;
                if j <= k {
                    lemma_reach_grows(lens, j, k);
                } else {
                    lemma_reach_grows(lens, k + 1, j);
                }
            }
        }
    } else {
        assert forall|p: int| #[trigger] is_edge(lens, p) implies p <= reach(lens, k) by {
            let j = choose|j: int| 0 <= j <= lens.len() && #[trigger] reach(lens, j) == p;
            lemma_reach_grows(lens, j, k);
        }
    }
}

/// The edges that the cursor moves between are those of the clusters: the next
/// one is the nearest behind a place, the one before the nearest in front of
/// it, and a place inside a cluster goes by the cluster's start.
pub proof fn law_the_cursor_moves_between_clusters(s: Seq<char>, pos: int)
    requires
        0 <= pos <= s.len(),
    ensures
        ({
            let lens = cluster_lengths(s);
            reach(lens, lens.len() as int) == s.len() ==> {
                &&& is_edge(lens, next_boundary(s, pos))
                &&& next_boundary(s, pos) > pos || next_boundary(s, pos) == s.len()
                &&& forall|p: int| #[trigger]
                    is_edge(lens, p) && p > pos ==> next_boundary(s, pos) <= p
                &&& is_edge(lens, prev_boundary(s, pos))
                &&& prev_boundary(s, pos) < pos || prev_boundary(s, pos) == 0
                &&& forall|p: int| #[trigger]
                    is_edge(lens, p) && p < pos ==> p <= prev_boundary(s, pos)
                &&& is_edge(lens, floor_boundary(s, pos))
                &&& floor_boundary(s, pos) <= pos
                &&& forall|p: int| #[trigger]
                    is_edge(lens, p) && p <= pos ==> p <= floor_boundary(s, pos)
            }
        }),
{
    let lens = cluster_lengths(s);
    assert(reach(lens, 0) == 0);
    lemma_next_from(lens, 0, pos);
    lemma_back_from(lens, 0, pos);
}

// ---- left and right ----------------------------------------------------------------

/// One step to the left goes a cluster back on the line, and from the start of
/// a line to the end of the one before: onto its last cluster, or behind it
/// where the cursor may stand there. At the start of the text it goes nowhere.
pub proof fn law_left_goes_back_over_lines(
    s: Seq<char>,
    pos: int,
    past_end: bool,
    a: int,
    e: int,
    n: int,
    b: int,
    f: int,
)
    requires
        is_on(s, pos, a, e, n),
        a > 0 ==> is_line(s, b, f, a),
    ensures
        pos > a ==> left_of(s, pos, past_end) == (if prev_boundary(s, pos) >= a {
            prev_boundary(s, pos)
        } else {
            a
        }),
        pos == 0 ==> left_of(s, pos, past_end) == 0,
        pos == a && a > 0 ==> left_of(s, pos, past_end) == (if past_end || b == f {
            f
        } else if prev_boundary(s, f) >= b {
            prev_boundary(s, f)
        } else {
            b
        }),
{
    lemma_is_on(s, pos, a, e, n);
    if a > 0 {
        lemma_line_above(s, pos, a, e, n, b, f);
    } else {
        assert(line_of(s, 0) == 0);
        crate::edit_laws::lemma_same_line(s, 0, pos);
    }
}

/// The line above one.
proof fn lemma_line_above(s: Seq<char>, pos: int, a: int, e: int, n: int, b: int, f: int)
    requires
        is_on(s, pos, a, e, n),
        a > 0,
        is_line(s, b, f, a),
    ensures
        cursor_line(s, pos) > 0,
        line_start(s, cursor_line(s, pos) - 1) == b,
        line_end(s, cursor_line(s, pos) - 1) == f,
        line_len(s, cursor_line(s, pos) - 1) == f - b,
{
    lemma_is_on(s, pos, a, e, n);
    assert(is_on(s, b, b, f, a));
    lemma_is_on(s, b, b, f, a);
    let l = cursor_line(s, b);
    let m = cursor_line(s, pos);
    lemma_line_start(s, l + 1);
    lemma_line_start(s, m);
    assert(line_of(s, a) == m);
    assert(l + 1 == m) by {
        assert(a < s.len());
        assert(line_of(s, line_start(s, l + 1)) == l + 1);
    }
}

/// One step to the right goes a cluster on, while that stays on the line, and
/// else to the start of the next line; at the end of the last line it goes
/// nowhere.
pub proof fn law_right_goes_on_over_lines(
    s: Seq<char>,
    pos: int,
    a: int,
    e: int,
    n: int,
)
    requires
        is_on(s, pos, a, e, n),
    ensures
        right_of(s, pos, false) == (if next_boundary(s, pos) < e {
            next_boundary(s, pos)
        } else if n < s.len() {
            n
        } else {
            pos
        }),
        right_of(s, pos, true) == (if pos < e && next_boundary(s, pos) <= e {
            next_boundary(s, pos)
        } else if pos < e {
            e
        } else if n < s.len() {
            n
        } else {
            pos
        }),
{
    lemma_is_on(s, pos, a, e, n);
}

// ---- places of a line --------------------------------------------------------------

/// The start of the line, its first character that is no white space, and the
/// lines by their numbers.
pub proof fn law_places_of_a_line(d: DocView, a: int, e: int, n: int, w: int, line: int)
    requires
        placed(d),
        d.text.len() <= usize::MAX,
        is_on(d.text, d.cursor as int, a, e, n),
        a <= w <= e,
        forall|k: int| a <= k < w ==> is_white(#[trigger] d.text[k]),
        w < e ==> !is_white(d.text[w]),
        0 <= line,
    ensures
        at_line_start(d).cursor == a,
        w < e ==> at_first_nonblank(d).cursor == w,
        w == e && a < e ==> at_first_nonblank(d).cursor == e - 1,
        a == e ==> at_first_nonblank(d).cursor == a,
        at_line(d, line).cursor <= d.text.len(),
        line_of(d.text, at_line(d, line).cursor as int) == (if line < line_count(d.text) {
            line
        } else {
            line_count(d.text) - 1
        }),
        forall|k: int|
            0 <= k < at_line(d, line).cursor ==> #[trigger] line_of(d.text, k) < line_of(
                d.text,
                at_line(d, line).cursor as int,
            ),
{
    let s = d.text;
    lemma_is_on(s, d.cursor as int, a, e, n);
    let l = s.subrange(a, e);
    lemma_skip_white(l, 0);
    let k = skip_white(l, 0);
    if k < w - a {
        assert(l[k] == s[a + k]);
    }
    if k > w - a {
        assert(l[w - a] == s[w]);
    }
    lemma_line_count(s);
    let t = if line < line_count(s) {
        line
    } else {
        line_count(s) - 1
    };
    lemma_line_start(s, t);
}

/// Selecting the line takes it whole, with its ending; where whole lines are
/// selected already, the next one comes along.
pub proof fn law_the_line_is_selected_whole(d: DocView, a: int, e: int, n: int)
    requires
        placed(d),
        d.text.len() <= usize::MAX,
        is_on(d.text, d.cursor as int, a, e, n),
    ensures
        d.anchor >= d.cursor || d.cursor > a && d.cursor < d.text.len() ==> line_selected(
            d,
            1,
            false,
        ).anchor == a,
        d.anchor < d.cursor && d.cursor == a && (d.anchor == 0 || crate::text::ends_line(
            d.text,
            d.anchor - 1,
        )) ==> line_selected(d, 1, false).anchor == d.anchor,
        line_selected(d, 1, true).anchor == d.anchor,
        n < d.text.len() ==> line_selected(d, 1, false).cursor == n && line_selected(
            d,
            1,
            true,
        ).cursor == n,
        n == d.text.len() ==> line_selected(d, 1, false).cursor == n && line_selected(
            d,
            1,
            true,
        ).cursor == n,
        line_selected(d, 1, false).text == d.text,
{
    reveal(line_selected);
    reveal_with_fuel(line_steps, 2);
    let s = d.text;
    lemma_is_on(s, d.cursor as int, a, e, n);
    if d.anchor < d.cursor && d.cursor == a && (d.anchor == 0 || crate::text::ends_line(
        s,
        d.anchor - 1,
    )) {
        let x = d.anchor as int;
        let l = line_of(s, x) as int;
        crate::text::lemma_line_bounds(s, x);
        lemma_line_start(s, l);
        if line_start(s, l) < x {
            crate::text::lemma_line_of_grows(s, line_start(s, l), x - 1);
            assert(line_of(s, x) == line_of(s, x - 1) + 1);
        }
    }
}

/// Collapsing leaves a bare cursor where each selection had its cursor.
pub proof fn law_collapsing_leaves_the_cursors(d: DocView)
    ensures
        collapsed(d).text == d.text,
        collapsed(d).cursor == d.cursor,
        collapsed(d).anchor == d.cursor,
        collapsed(d).extra.len() == d.extra.len(),
        forall|i: int|
            0 <= i < d.extra.len() ==> #[trigger] collapsed(d).extra[i] == (
                d.extra[i].1,
                d.extra[i].1,
            ),
{
}

// ---- words -------------------------------------------------------------------------

/// Whether a word begins at a place: it is no white space, and what is before
/// it is of another class.
pub open spec fn is_word_start(s: Seq<char>, k: int) -> bool {
    &&& 0 <= k < s.len()
    &&& class_at(s, k) != CharClass::Whitespace
    &&& k == 0 || class_at(s, k - 1) != class_at(s, k)
}

/// Whether a word's last character is at a place.
pub open spec fn is_word_end(s: Seq<char>, k: int) -> bool {
    &&& 0 <= k < s.len()
    &&& class_at(s, k) != CharClass::Whitespace
    &&& k + 1 == s.len() || class_at(s, k + 1) != class_at(s, k)
}

proof fn lemma_class_ends(s: Seq<char>, class: CharClass, pos: int)
    requires
        0 <= pos <= s.len(),
    ensures
        pos <= class_end(s, class, pos) <= s.len(),
        forall|k: int| pos <= k < class_end(s, class, pos) ==> #[trigger] class_at(s, k) == class,
        class_end(s, class, pos) < s.len() ==> class_at(s, class_end(s, class, pos)) != class,
    decreases s.len() - pos,
{
    if pos < s.len() && class_at(s, pos) == class {
        lemma_class_ends(s, class, pos + 1);
    }
}

proof fn lemma_class_starts(s: Seq<char>, class: CharClass, pos: int)
    requires
        0 <= pos,
    ensures
        0 <= class_start(s, class, pos) <= pos,
        forall|k: int| class_start(s, class, pos) <= k < pos ==> #[trigger] class_at(s, k) == class,
        class_start(s, class, pos) > 0 ==> class_at(s, class_start(s, class, pos) - 1) != class,
    decreases pos,
{
    if pos > 0 && class_at(s, pos - 1) == class {
        lemma_class_starts(s, class, pos - 1);
    }
}

proof fn lemma_over_white(s: Seq<char>, pos: int)
    requires
        0 <= pos,
    ensures
        0 <= back_over_white(s, pos) <= pos,
        forall|k: int|
            back_over_white(s, pos) < k <= pos ==> #[trigger] class_at(s, k)
                == CharClass::Whitespace,
        back_over_white(s, pos) > 0 ==> class_at(s, back_over_white(s, pos))
            != CharClass::Whitespace,
    decreases pos,
{
    if pos > 0 && class_at(s, pos) == CharClass::Whitespace {
        lemma_over_white(s, pos - 1);
    }
}

/// The next word begins at the nearest word start behind a place; where there
/// is none, it is the end of the text.
pub proof fn law_the_next_word_is_the_nearest(s: Seq<char>, pos: int)
    requires
        0 <= pos <= s.len(),
    ensures
        ({
            let r = word_after(s, pos);
            &&& pos <= r <= s.len()
            &&& r < s.len() ==> r > pos && is_word_start(s, r)
            &&& forall|k: int| pos < k < r ==> !#[trigger] is_word_start(s, k)
        }),
{
    if pos < s.len() {
        let class = class_at(s, pos);
        lemma_class_ends(s, class, pos);
        let e = if class != CharClass::Whitespace {
            class_end(s, class, pos)
        } else {
            pos
        };
        lemma_class_ends(s, CharClass::Whitespace, e);
        let r = word_after(s, pos);
        if r < s.len() && r == e {
            assert(class_at(s, e - 1) == class);
        }
        assert forall|k: int| pos < k < r implies !#[trigger] is_word_start(s, k) by {
            if k < e {
                assert(class_at(s, k) == class && class_at(s, k - 1) == class);
            } else {
                assert(class_at(s, k) == CharClass::Whitespace);
            }
        }
    }
}

/// The word before begins at the nearest word start in front of a place;
/// where there is none, it is the start of the text.
pub proof fn law_the_word_before_is_the_nearest(s: Seq<char>, pos: int)
    requires
        0 <= pos <= s.len(),
    ensures
        ({
            let r = word_before(s, pos);
            &&& 0 <= r <= pos
            &&& r > 0 ==> r < pos && is_word_start(s, r)
            &&& forall|k: int| r < k < pos ==> !#[trigger] is_word_start(s, k)
        }),
{
    if pos > 0 {
        lemma_over_white(s, pos - 1);
        let p = back_over_white(s, pos - 1);
        let class = class_at(s, p);
        lemma_class_starts(s, class, p);
        let r = word_before(s, pos);
        assert forall|k: int| r < k < pos implies !#[trigger] is_word_start(s, k) by {
            if k > p {
                assert(class_at(s, k) == CharClass::Whitespace);
            } else if class != CharClass::Whitespace {
                assert(class_at(s, k - 1) == class);
                if k < p {
                    assert(class_at(s, k) == class);
                }
            }
        }
    }
}

/// The end of a word is the nearest word end behind a place; where there is
/// none, it is the last character of the text.
pub proof fn law_the_word_end_is_the_nearest(s: Seq<char>, pos: int)
    requires
        0 <= pos <= s.len(),
        s.len() > 0,
    ensures
        ({
            let r = word_last(s, pos);
            &&& 0 <= r < s.len()
            &&& r < s.len() - 1 ==> r > pos && is_word_end(s, r)
            &&& forall|k: int| pos < k < r ==> !#[trigger] is_word_end(s, k)
        }),
{
    if pos + 1 < s.len() {
        lemma_class_ends(s, CharClass::Whitespace, pos + 1);
        let p = class_end(s, CharClass::Whitespace, pos + 1);
        let r = word_last(s, pos);
        if p < s.len() {
            let class = class_at(s, p);
            lemma_class_ends(s, class, p);
            let e = class_end(s, class, p);
            assert(class_at(s, r) == class);
            assert forall|k: int| pos < k < r implies !#[trigger] is_word_end(s, k) by {
                if k < p {
                    assert(class_at(s, k) == CharClass::Whitespace);
                } else {
                    assert(class_at(s, k) == class && class_at(s, k + 1) == class);
                }
            }
        } else {
            assert forall|k: int| pos < k < r implies !#[trigger] is_word_end(s, k) by {
                assert(class_at(s, k) == CharClass::Whitespace);
            }
        }
    }
}

// ---- counts ------------------------------------------------------------------------

/// A count is that many steps: so many and then so many more are as many as
/// both together, and none is none.
pub proof fn law_a_count_is_that_many_steps(step: spec_fn(int) -> int, pos: int, m: nat, n: nat)
    ensures
        times(step, pos, 0) == pos,
        times(step, pos, 1) == step(pos),
        times(step, pos, m + n) == times(step, times(step, pos, m), n),
    decreases n,
{
    assert(times(step, pos, 0) == pos);
    if n > 0 {
        law_a_count_is_that_many_steps(step, pos, m, (n - 1) as nat);
        assert((m + n - 1) as nat == m + (n - 1) as nat);
    }
}

/// The word motions select from where the cursor was, or, while a selection is
/// being extended, from where it began; and by as many words as are counted.
pub proof fn law_word_motions_select_what_they_cross(d: DocView, count: usize)
    ensures
        word_next_selected(d, count, false).anchor == d.cursor,
        word_next_selected(d, count, true).anchor == d.anchor,
        word_prev_selected(d, count, false).anchor == d.cursor,
        word_prev_selected(d, count, true).anchor == d.anchor,
        word_end_selected(d, count, false).anchor == d.cursor,
        word_end_selected(d, count, true).anchor == d.anchor,
        word_next_selected(d, 1, false).cursor == cluster_start(
            d.text,
            word_after(d.text, d.cursor as int),
        ) as usize,
        word_prev_selected(d, 1, false).cursor == cluster_start(
            d.text,
            word_before(d.text, d.cursor as int),
        ) as usize,
        d.cursor < d.text.len() ==> word_end_selected(d, 1, false).cursor == cluster_start(
            d.text,
            word_last(d.text, d.cursor as int) + 1,
        ) as usize,
        word_next_selected(d, count, false).text == d.text,
        word_prev_selected(d, count, false).text == d.text,
        word_end_selected(d, count, false).text == d.text,
{
    let s = d.text;
    let c = d.cursor as int;
    law_a_count_is_that_many_steps(to_next_word(s), c, 0, 0);
    law_a_count_is_that_many_steps(to_prev_word(s), c, 0, 0);
    law_a_count_is_that_many_steps(to_word_end(s), c, 0, 0);
    if c < s.len() {
        law_the_word_end_is_the_nearest(s, c);
    }
}

/// The end of a line is behind its last character where the cursor may stand
/// there, and else on its last cluster; one step left or right is one step.
pub proof fn law_the_end_of_a_line_and_single_steps(d: DocView, a: int, e: int, n: int)
    requires
        placed(d),
        d.text.len() <= usize::MAX,
        is_on(d.text, d.cursor as int, a, e, n),
    ensures
        at_line_end(d, true).cursor == e,
        a == e ==> at_line_end(d, false).cursor == a,
        a < e ==> at_line_end(d, false).cursor == cluster_start(d.text, e - 1),
        moved_left(d, 1, false).cursor == left_of(d.text, d.cursor as int, false) as usize,
        moved_left(d, 1, true).cursor == left_of(d.text, d.cursor as int, true) as usize,
        moved_right(d, 1, false).cursor == right_of(d.text, d.cursor as int, false) as usize,
        moved_right(d, 1, true).cursor == right_of(d.text, d.cursor as int, true) as usize,
        moved_left(d, 1, false).text == d.text,
        moved_right(d, 1, false).text == d.text,
{
    let s = d.text;
    let c = d.cursor as int;
    lemma_is_on(s, c, a, e, n);
    assert(is_on(s, e, a, e, n));
    lemma_is_on(s, e, a, e, n);
    law_a_count_is_that_many_steps(to_left(s, false), c, 0, 0);
    law_a_count_is_that_many_steps(to_left(s, true), c, 0, 0);
    law_a_count_is_that_many_steps(to_right(s, false), c, 0, 0);
    law_a_count_is_that_many_steps(to_right(s, true), c, 0, 0);
    if a < e {
        lemma_cluster_start(s, e - 1);
    } else {
        reveal(cluster_start);
    }
}

} // verus!
