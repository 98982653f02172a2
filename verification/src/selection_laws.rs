//! What becomes of the selections, said by which there are.

use vstd::prelude::*;
use crate::document::{
    deduped, lemma_line_parts, line_end, ordered_upto, pair_before, with_pair, DocView,
};
use crate::edit_laws::lemma_same_line;
use crate::motions::max_of;
use crate::pieces::lemma_ending;
use crate::prompts::selections_left;
use crate::search::matches_of;
use crate::selections::{
    between_matches, column_of, comes_after, in_text_order, kept, lies_in, line_pieces, pads_of,
    pads_upto, place_of, placed_sel, rotated, selections_of, spaces, split_by_lines,
    split_by_matches, starts_upto, trimmed_from, trimmed_sel, trimmed_to, widest, with_selections,
    without_empty,
};
use crate::state::SelectPrompt;
use crate::strings::is_white;
use crate::text::{
    ends_line, is_break, lemma_line_bounds, lemma_line_of_grows, lemma_line_start, line_of,
    line_start, lines_in,
};
use crate::transaction::EditView;

verus! {

// ---- trimming ----------------------------------------------------------------------

proof fn lemma_trimmed_from(s: Seq<char>, sel: (usize, usize))
    requires
        sel.0 <= sel.1 <= s.len(),
    ensures
        sel.0 <= trimmed_from(s, sel) <= sel.1,
        forall|k: int| sel.0 <= k < trimmed_from(s, sel) ==> is_white(#[trigger] s[k]),
        trimmed_from(s, sel) < sel.1 ==> !is_white(s[trimmed_from(s, sel) as int]),
    decreases sel.1 - sel.0,
{
    if sel.0 < sel.1 && is_white(s[sel.0 as int]) {
        lemma_trimmed_from(s, ((sel.0 + 1) as usize, sel.1));
    }
}

proof fn lemma_trimmed_to(s: Seq<char>, sel: (usize, usize))
    requires
        sel.0 <= sel.1 <= s.len(),
    ensures
        sel.0 <= trimmed_to(s, sel) <= sel.1,
        forall|k: int| trimmed_to(s, sel) <= k < sel.1 ==> is_white(#[trigger] s[k]),
        trimmed_to(s, sel) > sel.0 ==> !is_white(s[trimmed_to(s, sel) - 1]),
    decreases sel.1 - sel.0,
{
    if sel.0 < sel.1 && is_white(s[sel.1 - 1]) {
        lemma_trimmed_to(s, (sel.0, (sel.1 - 1) as usize));
    }
}

/// Trimming takes the white space off both ends of a selection, all of it and
/// nothing else.
pub proof fn law_trimming_takes_the_white_space_off(s: Seq<char>, sel: (usize, usize))
    requires
        sel.0 <= sel.1 <= s.len(),
    ensures
        ({
            let r = trimmed_sel(s, sel);
            &&& sel.0 <= r.0 <= r.1 <= sel.1
            &&& forall|k: int| sel.0 <= k < r.0 ==> is_white(#[trigger] s[k])
            &&& forall|k: int| r.1 <= k < sel.1 ==> is_white(#[trigger] s[k])
            &&& r.0 < r.1 ==> !is_white(s[r.0 as int]) && !is_white(s[r.1 - 1])
        }),
{
    lemma_trimmed_from(s, sel);
    lemma_trimmed_to(s, (trimmed_from(s, sel), sel.1));
}

// ---- keeping -----------------------------------------------------------------------

/// Whether a match that is not empty lies in a selection.
pub open spec fn holds_a_match(ms: Seq<(usize, usize)>, sel: (usize, usize)) -> bool {
    exists|k: int|
        0 <= k < ms.len() && sel.0 <= (#[trigger] ms[k]).0 && ms[k].0 < ms[k].1 && ms[k].1 <= sel.1
}

proof fn lemma_holds(ms: Seq<(usize, usize)>, sel: (usize, usize))
    ensures
        holds_a_match(ms, sel) == crate::selections::has_match(ms, sel),
{
    if crate::selections::has_match(ms, sel) {
        let k = choose|k: int| 0 <= k < ms.len() && lies_in(#[trigger] ms[k], sel);
        assert(sel.0 <= ms[k].0);
    }
    if holds_a_match(ms, sel) {
        let k = choose|k: int|
            0 <= k < ms.len() && sel.0 <= (#[trigger] ms[k]).0 && ms[k].0 < ms[k].1 && ms[k].1
                <= sel.1;
        assert(lies_in(ms[k], sel));
    }
}

proof fn lemma_kept(
    ms: Seq<(usize, usize)>,
    sels: Seq<(usize, usize)>,
    keep: bool,
    n: nat,
    x: (usize, usize),
)
    requires
        n <= sels.len(),
    ensures
        kept(ms, sels, keep, n).contains(x) <==> holds_a_match(ms, x) == keep && exists|i: int|
            0 <= i < n && #[trigger] sels[i] == x,
    decreases n,
{
    if n > 0 {
        let m = (n - 1) as nat;
        lemma_kept(ms, sels, keep, m, x);
        let head = kept(ms, sels, keep, m);
        let v = kept(ms, sels, keep, n);
        let sel = sels[n - 1];
        lemma_holds(ms, sel);
        if holds_a_match(ms, sel) == keep {
            assert(v == head.push(sel));
            assert(v[head.len() as int] == sel);
            if head.contains(x) {
                let j = choose|j: int| 0 <= j < head.len() && head[j] == x;
                assert(v[j] == x);
            }
            if v.contains(x) {
                let j = choose|j: int| 0 <= j < v.len() && v[j] == x;
                if j < head.len() {
                    assert(head[j] == x);
                }
            }
        }
    }
}

/// Keeping the selections that match keeps those that hold a match and drops
/// the others; dropping is the other way round.
pub proof fn law_the_matching_selections_are_kept(
    ms: Seq<(usize, usize)>,
    sels: Seq<(usize, usize)>,
    keep: bool,
    sel: (usize, usize),
)
    ensures
        kept(ms, sels, keep, sels.len()).contains(sel) <==> sels.contains(sel) && holds_a_match(
            ms,
            sel,
        ) == keep,
{
    lemma_kept(ms, sels, keep, sels.len(), sel);
}

// ---- splitting into lines ------------------------------------------------------------

/// Whether a stretch is what a selection has of one line: it holds no break,
/// and goes as far as the selection or the line goes on both sides.
pub open spec fn is_line_piece(s: Seq<char>, sel: (usize, usize), p: (usize, usize)) -> bool {
    &&& sel.0 <= p.0 < p.1 <= sel.1 <= s.len()
    &&& forall|k: int| p.0 <= k < p.1 ==> !is_break(#[trigger] s[k])
    &&& p.0 == sel.0 || is_break(s[p.0 - 1])
    &&& p.1 == sel.1 || is_break(s[p.1 as int])
}

/// What is before the start of a line, and what is behind its content.
pub proof fn lemma_around_line(s: Seq<char>, line: int)
    requires
        0 <= line < lines_in(s),
    ensures
        0 <= line_start(s, line) <= line_end(s, line) <= s.len(),
        forall|k: int| line_start(s, line) <= k < line_end(s, line) ==> !is_break(#[trigger] s[k]),
        forall|k: int|
            line_start(s, line) <= k < line_end(s, line) ==> #[trigger] line_of(s, k) == line,
        line_start(s, line) > 0 ==> is_break(s[line_start(s, line) - 1]),
        line_end(s, line) < s.len() ==> is_break(s[line_end(s, line)]),
{
    lemma_line_parts(s, line);
    lemma_ending(s, line);
    lemma_line_start(s, line);
    lemma_line_start(s, line + 1);
    let a = line_start(s, line);
    let e = line_end(s, line);
    let t = crate::text::line_text(s, line);
    assert forall|k: int| a <= k < e implies !is_break(#[trigger] s[k]) by {
        assert(t[k - a] == s[k]);
    }
    assert forall|k: int| a <= k < e implies #[trigger] line_of(s, k) == line by {
        lemma_same_line(s, a, k);
    }
    if a > 0 {
        assert(line_of(s, a - 1) < line);
        assert(line_of(s, a) == line);
    }
    if e < s.len() {
        if e - a < t.len() {
            assert(is_break(t[e - a]));
            assert(t[e - a] == s[e]);
        } else {
            let next = line_start(s, line + 1);
            assert(e == next);
            if line + 1 < lines_in(s) {
                assert(line_of(s, next) == line + 1);
                if a < e {
                    lemma_same_line(s, a, e);
                }
            }
        }
    }
}

proof fn lemma_line_pieces(
    s: Seq<char>,
    sel: (usize, usize),
    line: int,
    last: int,
    p: (usize, usize),
)
    requires
        sel.0 <= sel.1 <= s.len(),
        s.len() <= usize::MAX,
        0 <= line,
        last < lines_in(s),
    ensures
        line_pieces(s, sel, line, last).contains(p) <==> is_line_piece(s, sel, p) && line <= line_of(
            s,
            p.0 as int,
        ) <= last,
    decreases last + 1 - line,
{
    if line <= last {
        lemma_line_pieces(s, sel, line + 1, last, p);
        lemma_around_line(s, line);
        let a = max_of(line_start(s, line), sel.0 as int);
        let b = if line_end(s, line) <= sel.1 {
            line_end(s, line)
        } else {
            sel.1 as int
        };
        let rest = line_pieces(s, sel, line + 1, last);
        let one = if a < b {
            seq![(a as usize, b as usize)]
        } else {
            Seq::empty()
        };
        let all = line_pieces(s, sel, line, last);
        assert(all == one + rest);
        let q = (a as usize, b as usize);
        if a < b {
            assert(is_line_piece(s, sel, q));
            assert(all[0] == q);
        }
        if all.contains(p) {
            let j = choose|j: int| 0 <= j < all.len() && all[j] == p;
            if j < one.len() {
                assert(p == q);
            } else {
                assert(rest[j - one.len()] == p);
            }
        }
        if is_line_piece(s, sel, p) && line <= line_of(s, p.0 as int) <= last {
            if line_of(s, p.0 as int) == line {
                lemma_piece_is(s, sel, line, p);
                assert(all.contains(p));
            } else {
                let j = choose|j: int| 0 <= j < rest.len() && rest[j] == p;
                assert(all[one.len() + j] == p);
            }
        }
    } else {
        assert(!line_pieces(s, sel, line, last).contains(p));
    }
}

proof fn lemma_piece_is(s: Seq<char>, sel: (usize, usize), line: int, p: (usize, usize))
    requires
        s.len() <= usize::MAX,
        is_line_piece(s, sel, p),
        0 <= line < lines_in(s),
        line_of(s, p.0 as int) == line,
    ensures
        p.0 == max_of(line_start(s, line), sel.0 as int),
        p.1 == (if line_end(s, line) <= sel.1 {
            line_end(s, line)
        } else {
            sel.1 as int
        }),
{
    lemma_around_line(s, line);
    lemma_line_bounds(s, p.0 as int);
    let a = line_start(s, line);
    let e = line_end(s, line);
    lemma_line_start(s, line);
    // the piece begins on the line's content
    if p.0 > a && p.0 > sel.0 {
        assert(is_break(s[p.0 - 1]));
        assert(!is_break(s[p.0 as int]));
        assert(ends_line(s, p.0 - 1));
        assert(line_of(s, p.0 as int) == line_of(s, p.0 - 1) + 1);
        lemma_line_of_grows(s, a, p.0 - 1);
    }
    // and lies in it
    lemma_line_parts(s, line);
    lemma_ending(s, line);
    let t = crate::text::line_text(s, line);
    if p.0 >= e {
        assert(is_break(t[p.0 - a]));
        assert(t[p.0 - a] == s[p.0 as int]);
    }
    if p.1 > e {
        assert(!is_break(s[e]));
    }
}

proof fn lemma_split_by_lines(s: Seq<char>, sels: Seq<(usize, usize)>, n: nat, p: (usize, usize))
    requires
        n <= sels.len(),
        s.len() <= usize::MAX,
        forall|i: int| 0 <= i < sels.len() ==> (#[trigger] sels[i]).0 <= sels[i].1 <= s.len(),
    ensures
        split_by_lines(s, sels, n).contains(p) <==> exists|i: int|
            0 <= i < n && is_line_piece(s, #[trigger] sels[i], p),
    decreases n,
{
    if n > 0 {
        let m = (n - 1) as nat;
        lemma_split_by_lines(s, sels, m, p);
        let sel = sels[n - 1];
        let first = line_of(s, sel.0 as int) as int;
        let last = line_of(s, max_of(sel.1 - 1, sel.0 as int)) as int;
        lemma_line_bounds(s, max_of(sel.1 - 1, sel.0 as int));
        lemma_line_pieces(s, sel, first, last, p);
        let head = split_by_lines(s, sels, m);
        let tail = line_pieces(s, sel, first, last);
        let all = split_by_lines(s, sels, n);
        assert(all == head + tail);
        if is_line_piece(s, sel, p) {
            lemma_line_of_grows(s, sel.0 as int, p.0 as int);
            lemma_line_of_grows(s, p.0 as int, sel.1 - 1);
            let j = choose|j: int| 0 <= j < tail.len() && tail[j] == p;
            assert(all[head.len() + j] == p);
        }
        if head.contains(p) {
            let j = choose|j: int| 0 <= j < head.len() && head[j] == p;
            assert(all[j] == p);
        }
        if all.contains(p) {
            let j = choose|j: int| 0 <= j < all.len() && all[j] == p;
            if j < head.len() {
                assert(head[j] == p);
            } else {
                assert(tail[j - head.len()] == p);
                assert(is_line_piece(s, sels[n - 1], p));
            }
        }
    }
}

/// Splitting into lines turns each selection into what it has of each line,
/// without the breaks: all of these and nothing else.
pub proof fn law_selections_split_into_their_lines(
    s: Seq<char>,
    sels: Seq<(usize, usize)>,
    p: (usize, usize),
)
    requires
        s.len() <= usize::MAX,
        forall|i: int| 0 <= i < sels.len() ==> (#[trigger] sels[i]).0 <= sels[i].1 <= s.len(),
    ensures
        split_by_lines(s, sels, sels.len()).contains(p) <==> exists|i: int|
            0 <= i < sels.len() && is_line_piece(s, #[trigger] sels[i], p),
{
    lemma_split_by_lines(s, sels, sels.len(), p);
}

// ---- splitting on matches ------------------------------------------------------------

/// Matches in order, none reaching into the next.
pub open spec fn are_matches(ms: Seq<(usize, usize)>) -> bool {
    &&& forall|i: int| 0 <= i < ms.len() ==> (#[trigger] ms[i]).0 <= ms[i].1
    &&& forall|i: int, j: int| 0 <= i < j < ms.len() ==> (#[trigger] ms[i]).1 <= (#[trigger] ms[j]).0
}

/// Whether a stretch is what matches leave of a selection from the `k`th match
/// and the place `at` on: none of the matches in the selection reaches into
/// it, and on both sides it goes as far as to one, or to the end.
pub open spec fn is_left_over(
    ms: Seq<(usize, usize)>,
    sel: (usize, usize),
    k: int,
    at: usize,
    p: (usize, usize),
) -> bool {
    &&& at <= p.0 < p.1 <= sel.1
    &&& forall|i: int|
        k <= i < ms.len() && #[trigger] lies_in(ms[i], sel) ==> ms[i].1 <= p.0 || p.1 <= ms[i].0
    &&& p.0 == at || exists|i: int|
        k <= i < ms.len() && #[trigger] lies_in(ms[i], sel) && ms[i].1 == p.0
    &&& p.1 == sel.1 || exists|i: int|
        k <= i < ms.len() && #[trigger] lies_in(ms[i], sel) && ms[i].0 == p.1
}

proof fn lemma_between(
    ms: Seq<(usize, usize)>,
    sel: (usize, usize),
    k: int,
    at: usize,
    p: (usize, usize),
)
    requires
        are_matches(ms),
        0 <= k <= ms.len(),
        forall|i: int| k <= i < ms.len() && #[trigger] lies_in(ms[i], sel) ==> at <= ms[i].0,
    ensures
        between_matches(ms, sel, k, at).contains(p) <==> is_left_over(ms, sel, k, at, p),
    decreases ms.len() - k,
{
    let all = between_matches(ms, sel, k, at);
    if k < ms.len() {
        let m = ms[k];
        if lies_in(m, sel) {
            let rest = between_matches(ms, sel, k + 1, m.1);
            let one = if m.0 > at {
                seq![(at, m.0)]
            } else {
                Seq::empty()
            };
            assert(all == one + rest);
            assert forall|i: int| k < i < ms.len() && #[trigger] lies_in(ms[i], sel) implies m.1
                <= ms[i].0 by {
                assert(ms[k].1 <= ms[i].0);
            }
            lemma_between(ms, sel, k + 1, m.1, p);
            if all.contains(p) {
                let j = choose|j: int| 0 <= j < all.len() && all[j] == p;
                if j < one.len() {
                    assert(p == (at, m.0));
                    assert(lies_in(ms[k], sel));
                } else {
                    assert(rest[j - one.len()] == p);
                    lemma_left_over_earlier(ms, sel, k, at, p);
                }
            }
            if is_left_over(ms, sel, k, at, p) {
                assert(lies_in(ms[k], sel));
                if p.0 < m.0 {
                    lemma_left_over_first(ms, sel, k, at, p);
                    assert(all[0] == p);
                } else {
                    lemma_left_over_later(ms, sel, k, at, p);
                    let j = choose|j: int| 0 <= j < rest.len() && rest[j] == p;
                    assert(all[one.len() + j] == p);
                }
            }
        } else {
            lemma_between(ms, sel, k + 1, at, p);
            if is_left_over(ms, sel, k, at, p) {
                assert(is_left_over(ms, sel, k + 1, at, p));
            }
            if is_left_over(ms, sel, k + 1, at, p) {
                assert(is_left_over(ms, sel, k, at, p));
            }
        }
    } else {
        if p == (at, sel.1) && at < sel.1 {
            assert(all[0] == p);
        }
    }
}

proof fn lemma_left_over_earlier(
    ms: Seq<(usize, usize)>,
    sel: (usize, usize),
    k: int,
    at: usize,
    p: (usize, usize),
)
    requires
        0 <= k < ms.len(),
        lies_in(ms[k], sel),
        at <= ms[k].0,
        is_left_over(ms, sel, k + 1, ms[k].1, p),
    ensures
        is_left_over(ms, sel, k, at, p),
{
    if p.0 == ms[k].1 {
        assert(lies_in(ms[k], sel) && ms[k].1 == p.0);
    }
}

proof fn lemma_left_over_first(
    ms: Seq<(usize, usize)>,
    sel: (usize, usize),
    k: int,
    at: usize,
    p: (usize, usize),
)
    requires
        are_matches(ms),
        0 <= k < ms.len(),
        lies_in(ms[k], sel),
        is_left_over(ms, sel, k, at, p),
        p.0 < ms[k].0,
    ensures
        p == (at, ms[k].0),
{
    assert(p.1 <= ms[k].0);
    if p.0 != at {
        let i = choose|i: int| k <= i < ms.len() && #[trigger] lies_in(ms[i], sel) && ms[i].1 == p.0;
        if i > k {
            assert(ms[k].1 <= ms[i].0);
        }
    }
    if p.1 != sel.1 {
        let i = choose|i: int| k <= i < ms.len() && #[trigger] lies_in(ms[i], sel) && ms[i].0 == p.1;
        if i > k {
            assert(ms[k].1 <= ms[i].0);
        }
    }
}

proof fn lemma_left_over_later(
    ms: Seq<(usize, usize)>,
    sel: (usize, usize),
    k: int,
    at: usize,
    p: (usize, usize),
)
    requires
        are_matches(ms),
        0 <= k < ms.len(),
        lies_in(ms[k], sel),
        at <= ms[k].0,
        is_left_over(ms, sel, k, at, p),
        p.0 >= ms[k].0,
    ensures
        is_left_over(ms, sel, k + 1, ms[k].1, p),
{
    assert(ms[k].1 <= p.0);
    if p.0 != ms[k].1 {
        let i = choose|i: int| k <= i < ms.len() && #[trigger] lies_in(ms[i], sel) && ms[i].1 == p.0;
        assert(i != k);
        assert(lies_in(ms[i], sel) && ms[i].1 == p.0);
    }
    if p.1 != sel.1 {
        let i = choose|i: int| k <= i < ms.len() && #[trigger] lies_in(ms[i], sel) && ms[i].0 == p.1;
        assert(i != k);
        assert(lies_in(ms[i], sel) && ms[i].0 == p.1);
    }
}

proof fn lemma_split_by_matches(
    ms: Seq<(usize, usize)>,
    sels: Seq<(usize, usize)>,
    n: nat,
    p: (usize, usize),
)
    requires
        are_matches(ms),
        n <= sels.len(),
    ensures
        split_by_matches(ms, sels, n).contains(p) <==> exists|i: int|
            0 <= i < n && is_left_over(ms, #[trigger] sels[i], 0, sels[i].0, p),
    decreases n,
{
    if n > 0 {
        let m = (n - 1) as nat;
        let sel = sels[n - 1];
        lemma_split_by_matches(ms, sels, m, p);
        lemma_between(ms, sel, 0, sel.0, p);
        let head = split_by_matches(ms, sels, m);
        let tail = between_matches(ms, sel, 0, sel.0);
        let all = split_by_matches(ms, sels, n);
        assert(all == head + tail);
        if tail.contains(p) {
            let j = choose|j: int| 0 <= j < tail.len() && tail[j] == p;
            assert(all[head.len() + j] == p);
            assert(is_left_over(ms, sels[n - 1], 0, sels[n - 1].0, p));
        }
        if head.contains(p) {
            let j = choose|j: int| 0 <= j < head.len() && head[j] == p;
            assert(all[j] == p);
        }
        if all.contains(p) {
            let j = choose|j: int| 0 <= j < all.len() && all[j] == p;
            if j < head.len() {
                assert(head[j] == p);
            } else {
                assert(tail[j - head.len()] == p);
            }
        }
    }
}

/// Splitting on a pattern turns each selection into what its matches leave of
/// it: all of that and nothing else.
pub proof fn law_selections_split_between_matches(
    ms: Seq<(usize, usize)>,
    sels: Seq<(usize, usize)>,
    p: (usize, usize),
)
    requires
        are_matches(ms),
    ensures
        split_by_matches(ms, sels, sels.len()).contains(p) <==> exists|i: int|
            0 <= i < sels.len() && is_left_over(ms, #[trigger] sels[i], 0, sels[i].0, p),
{
    lemma_split_by_matches(ms, sels, sels.len(), p);
}

// ---- each once -----------------------------------------------------------------------

/// Selections in order, none twice.
pub open spec fn each_once(v: Seq<(usize, usize)>) -> bool {
    forall|i: int, j: int|
        0 <= i < j < v.len() ==> (#[trigger] v[i]).0 < (#[trigger] v[j]).0 || (v[i].0 == v[j].0
            && v[i].1 < v[j].1)
}

proof fn lemma_with_pair(v: Seq<(usize, usize)>, p: (usize, usize), i: int, x: (usize, usize))
    requires
        each_once(v),
        0 <= i <= v.len(),
        forall|k: int| 0 <= k < i ==> pair_before(#[trigger] v[k], p),
    ensures
        each_once(with_pair(v, p, i)),
        with_pair(v, p, i).contains(x) <==> v.contains(x) || x == p,
    decreases v.len() - i,
{
    let r = with_pair(v, p, i);
    if i >= v.len() || pair_before(p, v[i]) {
        assert(r == v.take(i).push(p) + v.skip(i));
        assert forall|k: int| 0 <= k < r.len() implies #[trigger] r[k] == (if k < i {
            v[k]
        } else if k == i {
            p
        } else {
            v[k - 1]
        }) by {}
        assert(r[i] == p);
        if v.contains(x) {
            let k = choose|k: int| 0 <= k < v.len() && v[k] == x;
            assert(r[if k < i {
                k
            } else {
                k + 1
            }] == x);
        }
        if r.contains(x) {
            let k = choose|k: int| 0 <= k < r.len() && r[k] == x;
            if k < i {
                assert(v[k] == x);
            } else if k > i {
                assert(v[k - 1] == x);
            }
        }
    } else if p == v[i] {
        assert(v.contains(p));
    } else {
        lemma_with_pair(v, p, i + 1, x);
    }
}

proof fn lemma_ordered(
    extra: Seq<(usize, usize)>,
    primary: (usize, usize),
    n: nat,
    x: (usize, usize),
)
    requires
        n <= extra.len(),
    ensures
        each_once(ordered_upto(extra, primary, n)),
        ordered_upto(extra, primary, n).contains(x) <==> x != primary && exists|i: int|
            0 <= i < n && #[trigger] extra[i] == x,
    decreases n,
{
    if n > 0 {
        let m = (n - 1) as nat;
        lemma_ordered(extra, primary, m, x);
        if extra[n - 1] != primary {
            lemma_with_pair(ordered_upto(extra, primary, m), extra[n - 1], 0, x);
        }
        if extra[n - 1] == x {
            assert(extra[n - 1] == x);
        }
    }
}

/// However selections are put together, each is there once, in order beside
/// the primary one, and none is lost.
pub proof fn law_each_selection_is_there_once(d: DocView, x: (usize, usize))
    ensures
        deduped(d).text == d.text,
        deduped(d).anchor == d.anchor && deduped(d).cursor == d.cursor,
        each_once(deduped(d).extra),
        !deduped(d).extra.contains((d.anchor, d.cursor)),
        deduped(d).extra.contains(x) <==> d.extra.contains(x) && x != (d.anchor, d.cursor),
{
    lemma_ordered(d.extra, (d.anchor, d.cursor), d.extra.len(), x);
    lemma_ordered(d.extra, (d.anchor, d.cursor), d.extra.len(), (d.anchor, d.cursor));
}

/// Selections that take the place of others: the one asked for, or the last,
/// is the primary, and the others stand beside it.
pub proof fn law_new_selections_take_the_place(
    d: DocView,
    sels: Seq<(usize, usize)>,
    primary: int,
    x: (usize, usize),
)
    requires
        0 <= primary,
    ensures
        sels.len() == 0 ==> with_selections(d, sels, primary) == d,
        sels.len() > 0 ==> ({
            let r = with_selections(d, sels, primary);
            let k = if primary < sels.len() {
                primary
            } else {
                sels.len() - 1
            };
            &&& r.text == d.text
            &&& (r.anchor, r.cursor) == sels[k]
            &&& each_once(r.extra)
            &&& r.extra.contains(x) <==> sels.contains(x) && x != sels[k]
        }),
{
    if sels.len() > 0 {
        let k = if primary < sels.len() {
            primary
        } else {
            sels.len() - 1
        };
        let others = sels.remove(k);
        let e = DocView { anchor: sels[k].0, cursor: sels[k].1, extra: others, goal_col: None, ..d };
        law_each_selection_is_there_once(e, x);
        if sels.contains(x) && x != sels[k] {
            let i = choose|i: int| 0 <= i < sels.len() && sels[i] == x;
            assert(others[if i < k {
                i
            } else {
                i - 1
            }] == x);
        }
        if others.contains(x) {
            let i = choose|i: int| 0 <= i < others.len() && others[i] == x;
            assert(sels[if i < k {
                i
            } else {
                i + 1
            }] == x);
        }
    }
}

proof fn lemma_without_empty(sels: Seq<(usize, usize)>, n: nat, x: (usize, usize))
    requires
        n <= sels.len(),
    ensures
        without_empty(sels, n).contains(x) <==> x.0 != x.1 && exists|i: int|
            0 <= i < n && #[trigger] sels[i] == x,
    decreases n,
{
    if n > 0 {
        let m = (n - 1) as nat;
        lemma_without_empty(sels, m, x);
        let head = without_empty(sels, m);
        let v = without_empty(sels, n);
        if sels[n - 1].0 != sels[n - 1].1 {
            assert(v == head.push(sels[n - 1]));
            assert(v[head.len() as int] == sels[n - 1]);
            if head.contains(x) {
                let j = choose|j: int| 0 <= j < head.len() && head[j] == x;
                assert(v[j] == x);
            }
            if v.contains(x) {
                let j = choose|j: int| 0 <= j < v.len() && v[j] == x;
                if j < head.len() {
                    assert(head[j] == x);
                }
            }
        }
    }
}

/// Cutting a block drops the selections that take nothing, and no other.
pub proof fn law_empty_selections_are_dropped(sels: Seq<(usize, usize)>, x: (usize, usize))
    ensures
        without_empty(sels, sels.len()).contains(x) <==> sels.contains(x) && x.0 != x.1,
{
    lemma_without_empty(sels, sels.len(), x);
}

// ---- walking which is the primary ------------------------------------------------------

/// Selections in the order of the text.
pub open spec fn in_order_of_text(v: Seq<(usize, usize)>) -> bool {
    forall|i: int, j: int| 0 <= i < j < v.len() ==> !comes_after(#[trigger] v[i], #[trigger] v[j])
}

proof fn lemma_placed_sel(v: Seq<(usize, usize)>, p: (usize, usize), i: int, x: (usize, usize))
    requires
        in_order_of_text(v),
        0 <= i <= v.len(),
        forall|k: int| 0 <= k < i ==> !comes_after(#[trigger] v[k], p),
    ensures
        in_order_of_text(placed_sel(v, p, i)),
        placed_sel(v, p, i).len() == v.len() + 1,
        placed_sel(v, p, i).contains(x) <==> v.contains(x) || x == p,
    decreases v.len() - i,
{
    let r = placed_sel(v, p, i);
    if i >= v.len() || comes_after(v[i], p) {
        assert(r == v.take(i).push(p) + v.skip(i));
        assert forall|k: int| 0 <= k < r.len() implies #[trigger] r[k] == (if k < i {
            v[k]
        } else if k == i {
            p
        } else {
            v[k - 1]
        }) by {}
        assert forall|a: int, b: int| 0 <= a < b < r.len() implies !comes_after(
            #[trigger] r[a],
            #[trigger] r[b],
        ) by {
            if a == i && b > i {
                if b - 1 > i {
                    assert(!comes_after(v[i], v[b - 1]));
                }
            }
        }
        assert(r[i] == p);
        if v.contains(x) {
            let k = choose|k: int| 0 <= k < v.len() && v[k] == x;
            assert(r[if k < i {
                k
            } else {
                k + 1
            }] == x);
        }
        if r.contains(x) {
            let k = choose|k: int| 0 <= k < r.len() && r[k] == x;
            if k < i {
                assert(v[k] == x);
            } else if k > i {
                assert(v[k - 1] == x);
            }
        }
    } else {
        lemma_placed_sel(v, p, i + 1, x);
    }
}

/// Whether a selection is one of a document's.
pub open spec fn is_selection_of(d: DocView, x: (usize, usize)) -> bool {
    x == (d.anchor, d.cursor) || d.extra.contains(x)
}

proof fn lemma_in_text_order(d: DocView, n: nat, x: (usize, usize))
    requires
        n <= d.extra.len(),
    ensures
        in_order_of_text(in_text_order(d, n)),
        in_text_order(d, n).len() == n + 1,
        in_text_order(d, n).contains(x) <==> x == (d.anchor, d.cursor) || exists|i: int|
            0 <= i < n && #[trigger] d.extra[i] == x,
    decreases n,
{
    if n > 0 {
        lemma_in_text_order(d, (n - 1) as nat, x);
        lemma_placed_sel(in_text_order(d, (n - 1) as nat), d.extra[n - 1], 0, x);
        if x == d.extra[n - 1] {
            assert(d.extra[n - 1] == x);
        }
    } else {
        let one = in_text_order(d, 0);
        assert(one[0] == (d.anchor, d.cursor));
    }
}

proof fn lemma_place_of(v: Seq<(usize, usize)>, p: (usize, usize), i: int)
    requires
        0 <= i <= v.len(),
        exists|k: int| i <= k < v.len() && #[trigger] v[k] == p,
    ensures
        i <= place_of(v, p, i) < v.len(),
        v[place_of(v, p, i)] == p,
    decreases v.len() - i,
{
    if v[i] != p {
        lemma_place_of(v, p, i + 1);
    }
}

pub proof fn lemma_round(at: int, n: int)
    requires
        0 <= at < n,
    ensures
        (at + 1) % n == (if at + 1 < n {
            at + 1
        } else {
            0
        }),
        (at + n - 1) % n == (if at > 0 {
            at - 1
        } else {
            n - 1
        }),
{
    if at + 1 < n {
        vstd::arithmetic::div_mod::lemma_small_mod((at + 1) as nat, n as nat);
    } else {
        vstd::arithmetic::div_mod::lemma_mod_self_0(n);
    }
    if at > 0 {
        vstd::arithmetic::div_mod::lemma_mod_add_multiples_vanish(at - 1, n);
        vstd::arithmetic::div_mod::lemma_small_mod((at - 1) as nat, n as nat);
    } else {
        vstd::arithmetic::div_mod::lemma_small_mod((n - 1) as nat, n as nat);
    }
}

/// Whether nothing of a document is selected between two selections, the
/// second not before the first.
pub open spec fn are_neighbours(d: DocView, p: (usize, usize), q: (usize, usize)) -> bool {
    !comes_after(p, q) && forall|x: (usize, usize)| #[trigger]
        is_selection_of(d, x) ==> !(comes_after(x, p) && comes_after(q, x))
}

/// Whether a selection is the first of a document's, and whether it is the last.
pub open spec fn is_first(d: DocView, p: (usize, usize)) -> bool {
    forall|x: (usize, usize)| #[trigger] is_selection_of(d, x) ==> !comes_after(p, x)
}

pub open spec fn is_last(d: DocView, p: (usize, usize)) -> bool {
    forall|x: (usize, usize)| #[trigger] is_selection_of(d, x) ==> !comes_after(x, p)
}

/// Walking which selection is the primary leaves the selections as they are
/// and goes to the next one of the text, or the one before, and round the end.
pub proof fn law_the_primary_walks_through_the_selections(
    d: DocView,
    forward: bool,
    x: (usize, usize),
)
    ensures
        ({
            let r = rotated(d, forward);
            let p = (d.anchor, d.cursor);
            let q = (r.anchor, r.cursor);
            &&& r.text == d.text
            &&& is_selection_of(r, x) <==> is_selection_of(d, x)
            &&& r.extra.len() == d.extra.len()
            &&& if forward {
                are_neighbours(d, p, q) || (is_last(d, p) && is_first(d, q))
            } else {
                are_neighbours(d, q, p) || (is_first(d, p) && is_last(d, q))
            }
        }),
{
    let r = rotated(d, forward);
    let p = (d.anchor, d.cursor);
    let q = (r.anchor, r.cursor);
    if d.extra.len() > 0 {
        let all = in_text_order(d, d.extra.len());
        let n = all.len() as int;
        lemma_in_text_order(d, d.extra.len(), x);
        lemma_in_text_order(d, d.extra.len(), p);
        let at = place_of(all, p, 0);
        lemma_place_of(all, p, 0);
        lemma_round(at, n);
        let next = if forward {
            (at + 1) % n
        } else {
            (at + n - 1) % n
        };
        assert(q == all[next]);
        assert forall|y: (usize, usize)| #[trigger] is_selection_of(d, y) implies exists|k: int|
            0 <= k < n && #[trigger] all[k] == y by {
            lemma_in_text_order(d, d.extra.len(), y);
            if d.extra.contains(y) {
                let i = choose|i: int| 0 <= i < d.extra.len() && d.extra[i] == y;
                assert(d.extra[i] == y);
            }
            assert(all.contains(y));
        }
        assert forall|y: (usize, usize), k: int|
            is_selection_of(d, y) && 0 <= k < n && #[trigger] all[k] == y implies #[trigger]
        is_selection_of(d, y) && (k <= at ==> !comes_after(y, p)) && (k >= at ==> !comes_after(p, y))
            && (k <= next ==> !comes_after(y, q)) && (k >= next ==> !comes_after(q, y)) by {
            if k < at {
                assert(!comes_after(all[k], all[at]));
            }
            if k > at {
                assert(!comes_after(all[at], all[k]));
            }
            if k < next {
                assert(!comes_after(all[k], all[next]));
            }
            if k > next {
                assert(!comes_after(all[next], all[k]));
            }
        }
        let others = all.remove(next);
        if is_selection_of(d, x) && x != q {
            let k = choose|k: int| 0 <= k < n && #[trigger] all[k] == x;
            assert(others[if k < next {
                k
            } else {
                k - 1
            }] == x);
        }
        if others.contains(x) {
            let k = choose|k: int| 0 <= k < others.len() && others[k] == x;
            assert(all[if k < next {
                k
            } else {
                k + 1
            }] == x);
        }
        assert(all.contains(q)) by {
            assert(all[next] == q);
        }
        lemma_in_text_order(d, d.extra.len(), q);
    }
}

// ---- aligning --------------------------------------------------------------------------

proof fn lemma_starts(
    s: Seq<char>,
    sels: Seq<(usize, usize)>,
    tab: usize,
    n: nat,
    x: (usize, usize),
)
    requires
        n <= sels.len(),
    ensures
        each_once(starts_upto(s, sels, tab, n)),
        starts_upto(s, sels, tab, n).contains(x) <==> exists|i: int|
            0 <= i < n && (#[trigger] sels[i]).0 == x.0 && column_of(s, sels[i].0 as int, tab) == x.1,
    decreases n,
{
    if n > 0 {
        lemma_starts(s, sels, tab, (n - 1) as nat, x);
        let p = (sels[n - 1].0, column_of(s, sels[n - 1].0 as int, tab));
        lemma_with_pair(starts_upto(s, sels, tab, (n - 1) as nat), p, 0, x);
        if x == p {
            assert(sels[n - 1].0 == x.0);
        }
    }
}

proof fn lemma_widest(starts: Seq<(usize, usize)>, n: nat, k: int)
    requires
        n <= starts.len(),
    ensures
        0 <= k < n ==> starts[k].1 <= widest(starts, n),
        n > 0 ==> exists|i: int| 0 <= i < n && (#[trigger] starts[i]).1 == widest(starts, n),
    decreases n,
{
    if n > 0 {
        lemma_widest(starts, (n - 1) as nat, k);
        let w = widest(starts, (n - 1) as nat);
        if starts[n - 1].1 >= w {
            assert(starts[n - 1].1 == widest(starts, n));
        } else {
            let i = choose|i: int| 0 <= i < n - 1 && (#[trigger] starts[i]).1 == w;
            assert(starts[i].1 == widest(starts, n));
        }
    }
}

/// The edit that pads a start to a column.
pub open spec fn is_pad(e: EditView, start: usize, col: usize, target: usize) -> bool {
    &&& e.0 == start && e.1 == start
    &&& e.2 matches Some(t) && t.len() == target - col && forall|k: int|
        0 <= k < t.len() ==> #[trigger] t[k] == ' '
}

proof fn lemma_pads(starts: Seq<(usize, usize)>, target: usize, n: nat, e: EditView)
    requires
        n <= starts.len(),
    ensures
        pads_upto(starts, target, n).contains(e) <==> exists|i: int|
            0 <= i < n && (#[trigger] starts[i]).1 < target && is_pad(
                e,
                starts[i].0,
                starts[i].1,
                target,
            ),
    decreases n,
{
    if n > 0 {
        let m = (n - 1) as nat;
        lemma_pads(starts, target, m, e);
        let head = pads_upto(starts, target, m);
        let v = pads_upto(starts, target, n);
        let (at, col) = starts[n - 1];
        if col < target {
            let new = (at as int, at as int, Some(spaces(target - col)));
            assert(v == head.push(new));
            assert(v[head.len() as int] == new);
            assert(is_pad(new, at, col, target));
            if is_pad(e, at, col, target) {
                assert(e.2->0 =~= spaces(target - col));
                assert(e == new);
            }
            if head.contains(e) {
                let j = choose|j: int| 0 <= j < head.len() && head[j] == e;
                assert(v[j] == e);
            }
            if v.contains(e) {
                let j = choose|j: int| 0 <= j < v.len() && v[j] == e;
                if j < head.len() {
                    assert(head[j] == e);
                } else {
                    assert(starts[n - 1].1 < target);
                }
            }
        }
    }
}

/// Aligning puts spaces in front of each selection, as many as it lacks to the
/// column of the one that starts furthest right; to those that start there it
/// does nothing, and nothing else is put in.
pub proof fn law_aligning_pads_to_the_furthest_start(
    d: DocView,
    tab: usize,
    e: EditView,
) -> (target:
    usize)
    ensures
        ({
            let sels = selections_of(d);
            &&& forall|i: int|
                0 <= i < sels.len() ==> column_of(d.text, (#[trigger] sels[i]).0 as int, tab) <= target
            &&& exists|i: int|
                0 <= i < sels.len() && column_of(d.text, (#[trigger] sels[i]).0 as int, tab) == target
            &&& pads_of(d, tab).contains(e) <==> exists|i: int|
                0 <= i < sels.len() && column_of(d.text, (#[trigger] sels[i]).0 as int, tab) < target
                    && is_pad(e, sels[i].0, column_of(d.text, sels[i].0 as int, tab), target)
        }),
{
    let s = d.text;
    let sels = selections_of(d);
    let starts = starts_upto(s, sels, tab, sels.len());
    let target = widest(starts, starts.len());
    assert forall|i: int| 0 <= i < sels.len() implies column_of(
        s,
        (#[trigger] sels[i]).0 as int,
        tab,
    ) <= target && starts.contains((sels[i].0, column_of(s, sels[i].0 as int, tab))) by {
        let x = (sels[i].0, column_of(s, sels[i].0 as int, tab));
        lemma_starts(s, sels, tab, sels.len(), x);
        let k = choose|k: int| 0 <= k < starts.len() && starts[k] == x;
        lemma_widest(starts, starts.len(), k);
    }
    assert(starts.contains((sels[0].0, column_of(s, sels[0].0 as int, tab))));
    lemma_widest(starts, starts.len(), 0);
    let k = choose|k: int| 0 <= k < starts.len() && (#[trigger] starts[k]).1 == target;
    lemma_starts(s, sels, tab, sels.len(), starts[k]);
    assert(starts.contains(starts[k]));
    lemma_pads(starts, target, starts.len(), e);
    if pads_of(d, tab).contains(e) {
        let i = choose|i: int|
            0 <= i < starts.len() && (#[trigger] starts[i]).1 < target && is_pad(
                e,
                starts[i].0,
                starts[i].1,
                target,
            );
        lemma_starts(s, sels, tab, sels.len(), starts[i]);
        assert(starts.contains(starts[i]));
    }
    if exists|i: int|
        0 <= i < sels.len() && column_of(s, (#[trigger] sels[i]).0 as int, tab) < target && is_pad(
            e,
            sels[i].0,
            column_of(s, sels[i].0 as int, tab),
            target,
        ) {
        let i = choose|i: int|
            0 <= i < sels.len() && column_of(s, (#[trigger] sels[i]).0 as int, tab) < target
                && is_pad(e, sels[i].0, column_of(s, sels[i].0 as int, tab), target);
        let x = (sels[i].0, column_of(s, sels[i].0 as int, tab));
        assert(starts.contains(x));
        let j = choose|j: int| 0 <= j < starts.len() && starts[j] == x;
        assert(starts[j].1 < target);
    }
    target
}

// ---- a pattern for the selections --------------------------------------------------------

/// What a pattern leaves of a document's selections: splitting, what is
/// between its matches; keeping, those that hold one; dropping, the others.
pub proof fn law_a_pattern_works_on_the_selections(
    d: DocView,
    pattern: Seq<char>,
    p: (usize, usize),
)
    ensures
        ({
            let ms = matches_of(d.text, pattern);
            let sels = selections_of(d);
            &&& are_matches(ms) ==> (selections_left(d, SelectPrompt::Split, pattern).contains(p)
                <==> exists|i: int|
                0 <= i < sels.len() && is_left_over(ms, #[trigger] sels[i], 0, sels[i].0, p))
            &&& selections_left(d, SelectPrompt::Keep, pattern).contains(p) <==> sels.contains(p)
                && holds_a_match(ms, p)
            &&& selections_left(d, SelectPrompt::Remove, pattern).contains(p) <==> sels.contains(p)
                && !holds_a_match(ms, p)
        }),
{
    reveal(selections_left);
    let ms = matches_of(d.text, pattern);
    let sels = selections_of(d);
    law_the_matching_selections_are_kept(ms, sels, true, p);
    law_the_matching_selections_are_kept(ms, sels, false, p);
    if are_matches(ms) {
        law_selections_split_between_matches(ms, sels, p);
    }
}

} // verus!
