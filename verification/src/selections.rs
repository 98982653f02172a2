//! Operations on the whole set of selections of a document: split, filter,
//! align, rotate, trim, the block's rectangle, and what goes around them.

use vstd::prelude::*;
use crate::document::{
    applied, clamped, committed, cursor_line, deduped, lemma_line_parts, line_content, line_count,
    line_end, min_int, placed, put_pair, ride, ride_all, true_to_edits, with_pair, DocView,
    Document,
};
use crate::motions::max_of;
use crate::position::{
    capped_col, char_at_column, char_to_display_col, display_col, display_col_to_char, prev_boundary,
    prev_grapheme_boundary,
};
use crate::strings::{char_is_white, is_white, string_of};
use crate::text::{line_of, line_start, lines_in, rope_char, rope_len};
use crate::transaction::{
    capped, change_ops, edit_views, edits_fit, law_change_makes_the_edits, law_mapped_in_bounds,
    Transaction,
};

verus! {

pub open spec fn in_order(sel: (usize, usize)) -> (usize, usize) {
    if sel.0 <= sel.1 {
        sel
    } else {
        (sel.1, sel.0)
    }
}

/// Every selection, the primary first, as (start, end).
pub open spec fn selections_of(d: DocView) -> Seq<(usize, usize)> {
    Seq::new(
        d.extra.len() + 1,
        |i: int|
            in_order(
                if i == 0 {
                    (d.anchor, d.cursor)
                } else {
                    d.extra[i - 1]
                },
            ),
    )
}

/// The selections replaced; the one at `primary`, or the last, is the primary.
pub open spec fn with_selections(d: DocView, sels: Seq<(usize, usize)>, primary: int) -> DocView {
    if sels.len() == 0 {
        d
    } else {
        let k = min_int(primary, sels.len() - 1);
        deduped(
            DocView {
                anchor: sels[k].0,
                cursor: sels[k].1,
                extra: sels.remove(k),
                goal_col: None,
                ..d
            },
        )
    }
}

/// Selections that lie in a text, each in order.
pub open spec fn sels_in(sels: Seq<(usize, usize)>, len: int) -> bool {
    forall|i: int| 0 <= i < sels.len() ==> (#[trigger] sels[i]).0 <= sels[i].1 <= len
}

// ---- splitting, keeping, trimming ---------------------------------------------

/// The parts of a selection on the lines from `line` through `last`, without
/// the line breaks.
pub open spec fn line_pieces(s: Seq<char>, sel: (usize, usize), line: int, last: int) -> Seq<
    (usize, usize),
>
    decreases last + 1 - line,
{
    if line > last || line < 0 {
        Seq::empty()
    } else {
        let a = max_of(line_start(s, line), sel.0 as int);
        let b = min_int(line_end(s, line), sel.1 as int);
        (if a < b {
            seq![(a as usize, b as usize)]
        } else {
            Seq::empty()
        }) + line_pieces(s, sel, line + 1, last)
    }
}

pub open spec fn split_by_lines(s: Seq<char>, sels: Seq<(usize, usize)>, n: nat) -> Seq<(usize, usize)>
    decreases n,
{
    if n == 0 || n > sels.len() {
        Seq::empty()
    } else {
        let sel = sels[n - 1];
        split_by_lines(s, sels, (n - 1) as nat) + line_pieces(
            s,
            sel,
            line_of(s, sel.0 as int) as int,
            line_of(s, max_of(sel.1 - 1, sel.0 as int)) as int,
        )
    }
}

/// Whether a match that is not empty lies in a selection.
pub open spec fn lies_in(m: (usize, usize), sel: (usize, usize)) -> bool {
    m.0 >= sel.0 && m.1 <= sel.1 && m.0 < m.1
}

pub open spec fn has_match(ms: Seq<(usize, usize)>, sel: (usize, usize)) -> bool {
    exists|k: int| 0 <= k < ms.len() && lies_in(#[trigger] ms[k], sel)
}

/// What is left of a selection from `at` on between the matches from the `k`th
/// on.
pub open spec fn between_matches(ms: Seq<(usize, usize)>, sel: (usize, usize), k: int, at: usize) -> Seq<
    (usize, usize),
>
    decreases ms.len() - k,
{
    if k < 0 || k >= ms.len() {
        if sel.1 > at {
            seq![(at, sel.1)]
        } else {
            Seq::empty()
        }
    } else if lies_in(ms[k], sel) {
        (if ms[k].0 > at {
            seq![(at, ms[k].0)]
        } else {
            Seq::empty()
        }) + between_matches(ms, sel, k + 1, ms[k].1)
    } else {
        between_matches(ms, sel, k + 1, at)
    }
}

pub open spec fn split_by_matches(ms: Seq<(usize, usize)>, sels: Seq<(usize, usize)>, n: nat) -> Seq<
    (usize, usize),
>
    decreases n,
{
    if n == 0 || n > sels.len() {
        Seq::empty()
    } else {
        split_by_matches(ms, sels, (n - 1) as nat) + between_matches(ms, sels[n - 1], 0, sels[n
            - 1].0)
    }
}

/// The selections that hold a match, or those that hold none.
pub open spec fn kept(ms: Seq<(usize, usize)>, sels: Seq<(usize, usize)>, keep: bool, n: nat) -> Seq<
    (usize, usize),
>
    decreases n,
{
    if n == 0 || n > sels.len() {
        Seq::empty()
    } else {
        let head = kept(ms, sels, keep, (n - 1) as nat);
        if has_match(ms, sels[n - 1]) == keep {
            head.push(sels[n - 1])
        } else {
            head
        }
    }
}

/// A selection without the white space at its ends.
pub open spec fn trimmed_from(s: Seq<char>, sel: (usize, usize)) -> usize
    decreases sel.1 - sel.0,
{
    if sel.0 < sel.1 && is_white(s[sel.0 as int]) {
        trimmed_from(s, ((sel.0 + 1) as usize, sel.1))
    } else {
        sel.0
    }
}

pub open spec fn trimmed_to(s: Seq<char>, sel: (usize, usize)) -> usize
    decreases sel.1 - sel.0,
{
    if sel.0 < sel.1 && is_white(s[sel.1 - 1]) {
        trimmed_to(s, (sel.0, (sel.1 - 1) as usize))
    } else {
        sel.1
    }
}

pub open spec fn trimmed_sel(s: Seq<char>, sel: (usize, usize)) -> (usize, usize) {
    let a = trimmed_from(s, sel);
    (a, trimmed_to(s, (a, sel.1)))
}

pub open spec fn all_trimmed(s: Seq<char>, sels: Seq<(usize, usize)>) -> Seq<(usize, usize)> {
    Seq::new(sels.len(), |i: int| trimmed_sel(s, sels[i]))
}

fn pieces(doc: &Document, sel: (usize, usize), out: &mut Vec<(usize, usize)>)
    requires
        sel.0 <= sel.1 <= doc@.text.len(),
        sels_in(old(out)@, doc@.text.len() as int),
    ensures
        final(out)@ == old(out)@ + line_pieces(
            doc@.text,
            sel,
            line_of(doc@.text, sel.0 as int) as int,
            line_of(doc@.text, max_of(sel.1 - 1, sel.0 as int)) as int,
        ),
        sels_in(final(out)@, doc@.text.len() as int),
{
    let ghost s = doc@.text;
    let ghost start = out@;
    let first = doc.line_at(sel.0);
    let tail: usize = if sel.1 > sel.0 {
        sel.1 - 1
    } else {
        sel.0
    };
    let last = doc.line_at(tail);
    let mut line: usize = first;
    let ghost all = line_pieces(s, sel, first as int, last as int);
    assert(out@ + all =~= start + all);
    while line <= last
        invariant
            s == doc@.text,
            start == old(out)@,
            last == line_of(s, max_of(sel.1 - 1, sel.0 as int)),
            all == line_pieces(s, sel, line_of(s, sel.0 as int) as int, last as int),
            last < lines_in(s),
            sel.0 <= sel.1 <= s.len(),
            out@ + line_pieces(s, sel, line as int, last as int) == start + all,
            sels_in(out@, s.len() as int),
        decreases last + 1 - line,
    {
        let ghost had = out@;
        let ls = doc.line_start(line);
        let le = doc.line_end(line);
        let a: usize = if ls >= sel.0 {
            ls
        } else {
            sel.0
        };
        let b: usize = if le <= sel.1 {
            le
        } else {
            sel.1
        };
        if a < b {
            out.push((a, b));
        }
        assert(out@ + line_pieces(s, sel, line + 1, last as int) =~= had + line_pieces(
            s,
            sel,
            line as int,
            last as int,
        ));
        if line == last {
            assert(out@ =~= start + all);
            return ;
        }
        line += 1;
    }
    assert(out@ =~= start + all);
}

fn split_pieces(
    ms: &Vec<(usize, usize)>,
    sel: (usize, usize),
    out: &mut Vec<(usize, usize)>,
    Ghost(len): Ghost<int>,
)
    requires
        sel.0 <= sel.1 <= len,
        sels_in(old(out)@, len),
    ensures
        final(out)@ == old(out)@ + between_matches(ms@, sel, 0, sel.0),
        sels_in(final(out)@, len),
{
    let ghost start = out@;
    let ghost all = between_matches(ms@, sel, 0, sel.0);
    let mut at: usize = sel.0;
    let mut k: usize = 0;
    assert(out@ + all =~= start + all);
    while k < ms.len()
        invariant
            k <= ms@.len(),
            at <= sel.1 <= len,
            out@ + between_matches(ms@, sel, k as int, at) == start + all,
            sels_in(out@, len),
        decreases ms@.len() - k,
    {
        let ghost had = out@;
        let m = ms[k];
        if m.0 >= sel.0 && m.1 <= sel.1 && m.0 < m.1 {
            let ghost was = at;
            if m.0 > at {
                out.push((at, m.0));
            }
            at = m.1;
            assert(out@ + between_matches(ms@, sel, k + 1, at) =~= had + between_matches(
                ms@,
                sel,
                k as int,
                was,
            ));
        }
        k += 1;
    }
    if sel.1 > at {
        out.push((at, sel.1));
    }
    assert(out@ =~= start + all);
}

fn holds_match(ms: &Vec<(usize, usize)>, sel: (usize, usize)) -> (r: bool)
    ensures
        r == has_match(ms@, sel),
{
    let mut k: usize = 0;
    while k < ms.len()
        invariant
            k <= ms@.len(),
            forall|j: int| 0 <= j < k ==> !lies_in(#[trigger] ms@[j], sel),
        decreases ms@.len() - k,
    {
        let m = ms[k];
        if m.0 >= sel.0 && m.1 <= sel.1 && m.0 < m.1 {
            assert(lies_in(ms@[k as int], sel));
            return true;
        }
        k += 1;
    }
    false
}

impl Document {
    /// Every selection, the primary first, as (start, end).
    pub fn selections(&self) -> (r: Vec<(usize, usize)>)
        ensures
            r@ == selections_of(self@),
            r@.len() == self@.extra.len() + 1,
            placed(self@) ==> sels_in(r@, self@.text.len() as int),
    {
        let mut out: Vec<(usize, usize)> = Vec::new();
        if self.anchor <= self.cursor {
            out.push((self.anchor, self.cursor));
        } else {
            out.push((self.cursor, self.anchor));
        }
        let mut i: usize = 0;
        while i < self.extra.len()
            invariant
                i <= self.extra@.len(),
                out@.len() == i + 1,
                forall|k: int| 0 <= k <= i ==> #[trigger] out@[k] == selections_of(self@)[k],
            decreases self.extra@.len() - i,
        {
            let e = self.extra[i];
            assert(self@.extra[i as int] == e);
            if e.0 <= e.1 {
                out.push(e);
            } else {
                out.push((e.1, e.0));
            }
            i += 1;
        }
        assert(out@ =~= selections_of(self@));
        proof {
            if placed(self@) {
                assert forall|k: int| 0 <= k < out@.len() implies (#[trigger] out@[k]).0 <= out@[k].1
                    <= self@.text.len() by {
                    if k > 0 {
                        assert(self@.extra[k - 1].0 <= self@.text.len());
                    }
                }
            }
        }
        out
    }

    /// Replace the selections.
    pub fn set_selections(&mut self, sels: Vec<(usize, usize)>, primary: usize)
        ensures
            final(self)@ == with_selections(old(self)@, sels@, primary as int),
            old(self).wf() ==> final(self).wf(),
            placed(old(self)@) && sels_in(sels@, old(self)@.text.len() as int) ==> placed(
                final(self)@,
            ),
            true_to_edits(old(self)@) ==> true_to_edits(final(self)@),
    {
        let mut sels = sels;
        if sels.len() == 0 {
            return ;
        }
        let ghost all = sels@;
        let k: usize = if primary <= sels.len() - 1 {
            primary
        } else {
            sels.len() - 1
        };
        let ghost fits = placed(self@) && sels_in(sels@, self@.text.len() as int);
        proof {
            if fits {
                assert(all[k as int].0 <= all[k as int].1 <= self@.text.len());
                assert forall|i: int| 0 <= i < all.remove(k as int).len() implies (
                #[trigger] all.remove(k as int)[i]).0 <= self@.text.len() && all.remove(
                    k as int,
                )[i].1 <= self@.text.len() by {
                    if i < k {
                        assert(all.remove(k as int)[i] == all[i]);
                    } else {
                        assert(all.remove(k as int)[i] == all[i + 1]);
                    }
                }
            }
        }
        let p = sels.remove(k);
        self.anchor = p.0;
        self.cursor = p.1;
        self.extra = sels;
        self.goal_col = None;
        self.dedupe_cursors();
    }

    /// One selection per line of every selection.
    pub fn split_lines(&self) -> (r: Vec<(usize, usize)>)
        requires
            placed(self@),
        ensures
            r@ == split_by_lines(
                self@.text,
                selections_of(self@),
                selections_of(self@).len(),
            ),
            sels_in(r@, self@.text.len() as int),
    {
        let sels = self.selections();
        let mut out: Vec<(usize, usize)> = Vec::new();
        let mut i: usize = 0;
        while i < sels.len()
            invariant
                i <= sels@.len(),
                sels@ == selections_of(self@),
                sels_in(sels@, self@.text.len() as int),
                out@ == split_by_lines(self@.text, sels@, i as nat),
                sels_in(out@, self@.text.len() as int),
            decreases sels@.len() - i,
        {
            let sel = sels[i];
            assert(sels@[i as int].0 <= sels@[i as int].1 <= self@.text.len());
            pieces(self, sel, &mut out);
            i += 1;
        }
        out
    }

    /// What is left of every selection between the matches in it.
    pub fn split_matches(&self, ms: &Vec<(usize, usize)>) -> (r: Vec<(usize, usize)>)
        requires
            placed(self@),
        ensures
            r@ == split_by_matches(ms@, selections_of(self@), selections_of(self@).len()),
            sels_in(r@, self@.text.len() as int),
    {
        let sels = self.selections();
        let mut out: Vec<(usize, usize)> = Vec::new();
        let mut i: usize = 0;
        while i < sels.len()
            invariant
                i <= sels@.len(),
                sels@ == selections_of(self@),
                sels_in(sels@, self@.text.len() as int),
                out@ == split_by_matches(ms@, sels@, i as nat),
                sels_in(out@, self@.text.len() as int),
            decreases sels@.len() - i,
        {
            let sel = sels[i];
            assert(sels@[i as int].0 <= sels@[i as int].1 <= self@.text.len());
            split_pieces(ms, sel, &mut out, Ghost(self@.text.len() as int));
            i += 1;
        }
        out
    }

    /// The selections that hold a match, or those that hold none.
    pub fn keep_matching(&self, ms: &Vec<(usize, usize)>, keep: bool) -> (r: Vec<(usize, usize)>)
        requires
            placed(self@),
        ensures
            r@ == kept(ms@, selections_of(self@), keep, selections_of(self@).len()),
            sels_in(r@, self@.text.len() as int),
    {
        let sels = self.selections();
        let mut out: Vec<(usize, usize)> = Vec::new();
        let mut i: usize = 0;
        while i < sels.len()
            invariant
                i <= sels@.len(),
                sels@ == selections_of(self@),
                sels_in(sels@, self@.text.len() as int),
                out@ == kept(ms@, sels@, keep, i as nat),
                sels_in(out@, self@.text.len() as int),
            decreases sels@.len() - i,
        {
            let sel = sels[i];
            assert(sels@[i as int].0 <= sels@[i as int].1 <= self@.text.len());
            if holds_match(ms, sel) == keep {
                out.push(sel);
            }
            i += 1;
        }
        out
    }

    fn trim_one(&self, sel: (usize, usize)) -> (r: (usize, usize))
        requires
            sel.0 <= sel.1 <= self@.text.len(),
        ensures
            r == trimmed_sel(self@.text, sel),
            r.0 <= r.1 <= self@.text.len(),
    {
        let mut a = sel.0;
        while a < sel.1 && char_is_white(rope_char(&self.text, a))
            invariant
                a <= sel.1 <= self@.text.len(),
                trimmed_from(self@.text, sel) == trimmed_from(self@.text, (a, sel.1)),
            decreases sel.1 - a,
        {
            a += 1;
        }
        let mut b = sel.1;
        while a < b && char_is_white(rope_char(&self.text, b - 1))
            invariant
                a <= b <= self@.text.len(),
                trimmed_to(self@.text, (a, sel.1)) == trimmed_to(self@.text, (a, b)),
            decreases b,
        {
            b -= 1;
        }
        (a, b)
    }

    /// Every selection without the white space at its ends.
    pub fn trim_all(&self) -> (r: Vec<(usize, usize)>)
        requires
            placed(self@),
        ensures
            r@ == all_trimmed(self@.text, selections_of(self@)),
            sels_in(r@, self@.text.len() as int),
    {
        let sels = self.selections();
        let mut out: Vec<(usize, usize)> = Vec::new();
        let mut i: usize = 0;
        while i < sels.len()
            invariant
                i <= sels@.len(),
                sels@ == selections_of(self@),
                sels_in(sels@, self@.text.len() as int),
                out@.len() == i,
                forall|k: int|
                    0 <= k < i ==> #[trigger] out@[k] == trimmed_sel(self@.text, sels@[k]),
                sels_in(out@, self@.text.len() as int),
            decreases sels@.len() - i,
        {
            let sel = sels[i];
            assert(sels@[i as int].0 <= sels@[i as int].1 <= self@.text.len());
            let t = self.trim_one(sel);
            out.push(t);
            i += 1;
        }
        assert(out@ =~= all_trimmed(self@.text, selections_of(self@)));
        out
    }
}

// ---- rotating -----------------------------------------------------------------

/// Whether a selection comes after another in the text.
pub open spec fn comes_after(a: (usize, usize), b: (usize, usize)) -> bool {
    let x = in_order(a);
    let y = in_order(b);
    x.0 > y.0 || (x.0 == y.0 && x.1 > y.1)
}

/// `p` put in front of the first selection that comes after it.
pub open spec fn placed_sel(list: Seq<(usize, usize)>, p: (usize, usize), i: int) -> Seq<(usize, usize)>
    decreases list.len() - i,
{
    if i < 0 || i >= list.len() || comes_after(list[i], p) {
        list.take(i).push(p) + list.skip(i)
    } else {
        placed_sel(list, p, i + 1)
    }
}

/// The primary selection and the first `n` others, in the order of the text.
pub open spec fn in_text_order(d: DocView, n: nat) -> Seq<(usize, usize)>
    decreases n,
{
    if n == 0 || n > d.extra.len() {
        seq![(d.anchor, d.cursor)]
    } else {
        placed_sel(in_text_order(d, (n - 1) as nat), d.extra[n - 1], 0)
    }
}

pub open spec fn place_of(list: Seq<(usize, usize)>, p: (usize, usize), i: int) -> int
    decreases list.len() - i,
{
    if i < 0 || i >= list.len() {
        0
    } else if list[i] == p {
        i
    } else {
        place_of(list, p, i + 1)
    }
}

/// The next selection of the text, or the one before, made the primary one.
pub open spec fn rotated(d: DocView, forward: bool) -> DocView {
    if d.extra.len() == 0 {
        d
    } else {
        let all = in_text_order(d, d.extra.len());
        let n = all.len() as int;
        let at = place_of(all, (d.anchor, d.cursor), 0);
        let next = if forward {
            (at + 1) % n
        } else {
            (at + n - 1) % n
        };
        DocView { anchor: all[next].0, cursor: all[next].1, extra: all.remove(next), ..d }
    }
}

fn is_after(a: (usize, usize), b: (usize, usize)) -> (r: bool)
    ensures
        r == comes_after(a, b),
{
    let x: (usize, usize) = if a.0 <= a.1 {
        a
    } else {
        (a.1, a.0)
    };
    let y: (usize, usize) = if b.0 <= b.1 {
        b
    } else {
        (b.1, b.0)
    };
    x.0 > y.0 || (x.0 == y.0 && x.1 > y.1)
}

fn place_sel(list: &mut Vec<(usize, usize)>, p: (usize, usize))
    ensures
        final(list)@ == placed_sel(old(list)@, p, 0),
        final(list)@.len() == old(list)@.len() + 1,
        forall|k: int|
            0 <= k < final(list)@.len() ==> (#[trigger] final(list)@[k]) == p
                || old(list)@.contains(final(list)@[k]),
{
    let ghost all = list@;
    let mut i: usize = 0;
    while i < list.len() && !is_after(list[i], p)
        invariant
            i <= list@.len(),
            list@ == all,
            placed_sel(all, p, 0) == placed_sel(all, p, i as int),
        decreases list@.len() - i,
    {
        i += 1;
    }
    list.insert(i, p);
    assert(list@ =~= all.take(i as int).push(p) + all.skip(i as int));
    assert forall|k: int| 0 <= k < list@.len() implies (#[trigger] list@[k]) == p || all.contains(
        list@[k],
    ) by {
        if k < i {
            assert(list@[k] == all[k]);
        } else if k > i {
            assert(list@[k] == all[k - 1]);
        }
    }
}

/// The place after another of `n`, or before it, going round.
fn turned(at: usize, n: usize, forward: bool) -> (r: usize)
    requires
        at < n,
    ensures
        r < n,
        r as int == (if forward {
            (at + 1) % (n as int)
        } else {
            (at + n - 1) % (n as int)
        }),
{
    if forward {
        if at == n - 1 {
            assert((at + 1) % (n as int) == 0) by (nonlinear_arith)
                requires
                    at == n - 1,
                    n > 0,
            ;
            0
        } else {
            assert((at + 1) % (n as int) == at + 1) by (nonlinear_arith)
                requires
                    0 <= at < n - 1,
            ;
            at + 1
        }
    } else if at == 0 {
        assert((at + n - 1) % (n as int) == n - 1) by (nonlinear_arith)
            requires
                at == 0,
                n > 0,
        ;
        n - 1
    } else {
        assert((at + n - 1) % (n as int) == at - 1) by (nonlinear_arith)
            requires
                0 < at < n,
        ;
        at - 1
    }
}

fn find_sel(list: &Vec<(usize, usize)>, p: (usize, usize)) -> (r: usize)
    requires
        list@.len() > 0,
    ensures
        r == place_of(list@, p, 0),
        r < list@.len(),
{
    let mut at: usize = 0;
    while at < list.len()
        invariant
            at <= list@.len(),
            place_of(list@, p, 0) == place_of(list@, p, at as int),
        decreases list@.len() - at,
    {
        if list[at].0 == p.0 && list[at].1 == p.1 {
            return at;
        }
        at += 1;
    }
    0
}

impl Document {
    /// Every selection in the order of the text.
    fn text_order(&self) -> (all: Vec<(usize, usize)>)
        ensures
            all@ == in_text_order(self@, self@.extra.len()),
            all@.len() == self@.extra.len() + 1,
            placed(self@) ==> forall|k: int|
                0 <= k < all@.len() ==> (#[trigger] all@[k]).0 <= self@.text.len() && all@[k].1
                    <= self@.text.len(),
    {
        let ghost d = self@;
        let mut all: Vec<(usize, usize)> = Vec::new();
        all.push((self.anchor, self.cursor));
        let mut i: usize = 0;
        assert(all@ =~= in_text_order(d, 0));
        while i < self.extra.len()
            invariant
                i <= self.extra@.len(),
                self@ == d,
                all@ == in_text_order(d, i as nat),
                all@.len() == i + 1,
                placed(d) ==> forall|k: int|
                    0 <= k < all@.len() ==> (#[trigger] all@[k]).0 <= d.text.len() && all@[k].1
                        <= d.text.len(),
            decreases self.extra@.len() - i,
        {
            let e = self.extra[i];
            assert(d.extra[i as int] == e);
            let ghost had = all@;
            place_sel(&mut all, e);
            proof {
                if placed(d) {
                    assert forall|k: int| 0 <= k < all@.len() implies (#[trigger] all@[k]).0
                        <= d.text.len() && all@[k].1 <= d.text.len() by {
                        if all@[k] != e {
                            let j = choose|j: int| 0 <= j < had.len() && had[j] == all@[k];
                            assert(had[j].0 <= d.text.len());
                        }
                    }
                }
            }
            i += 1;
        }
        all
    }

    /// Make the next selection of the text the primary one, or the one before.
    pub fn rotate_selections(&mut self, forward: bool)
        ensures
            final(self)@ == rotated(old(self)@, forward),
            old(self).wf() ==> final(self).wf(),
            placed(old(self)@) ==> placed(final(self)@),
            true_to_edits(old(self)@) ==> true_to_edits(final(self)@),
    {
        if self.extra.len() == 0 {
            return ;
        }
        let ghost d = self@;
        let mut all = self.text_order();
        let ghost list = all@;
        let at = find_sel(&all, (self.anchor, self.cursor));
        let next = turned(at, all.len(), forward);
        let p = all.remove(next);
        self.anchor = p.0;
        self.cursor = p.1;
        self.extra = all;
        proof {
            if placed(d) {
                assert forall|k: int| 0 <= k < self@.extra.len() implies (#[trigger] self@.extra[k]).0
                    <= d.text.len() && self@.extra[k].1 <= d.text.len() by {
                    if k < next {
                        assert(self@.extra[k] == list[k]);
                    } else {
                        assert(self@.extra[k] == list[k + 1]);
                    }
                }
                assert(list[next as int].0 <= d.text.len());
            }
        }
    }
}

// ---- aligning -----------------------------------------------------------------

/// The display column of a place.
pub open spec fn column_of(s: Seq<char>, at: int, tab: usize) -> usize {
    let line = line_of(s, at) as int;
    capped_col(display_col(line_content(s, line), at - line_start(s, line), tab)) as usize
}

/// Where the first `n` selections start, with the column, in order.
pub open spec fn starts_upto(s: Seq<char>, sels: Seq<(usize, usize)>, tab: usize, n: nat) -> Seq<
    (usize, usize),
>
    decreases n,
{
    if n == 0 || n > sels.len() {
        Seq::empty()
    } else {
        with_pair(
            starts_upto(s, sels, tab, (n - 1) as nat),
            (sels[n - 1].0, column_of(s, sels[n - 1].0 as int, tab)),
            0,
        )
    }
}

pub open spec fn widest(starts: Seq<(usize, usize)>, n: nat) -> usize
    decreases n,
{
    if n == 0 || n > starts.len() {
        0
    } else {
        max_of(widest(starts, (n - 1) as nat) as int, starts[n - 1].1 as int) as usize
    }
}

pub open spec fn spaces(n: int) -> Seq<char> {
    Seq::new(n as nat, |i: int| ' ')
}

/// The spaces that bring the first `n` starts to a column.
pub open spec fn pads_upto(starts: Seq<(usize, usize)>, target: usize, n: nat) -> Seq<
    (int, int, Option<Seq<char>>),
>
    decreases n,
{
    if n == 0 || n > starts.len() {
        Seq::empty()
    } else {
        let head = pads_upto(starts, target, (n - 1) as nat);
        let (at, col) = starts[n - 1];
        if col < target {
            head.push((at as int, at as int, Some(spaces(target - col))))
        } else {
            head
        }
    }
}

/// Two selections start on one line.
pub open spec fn lines_shared(s: Seq<char>, sels: Seq<(usize, usize)>) -> bool {
    exists|i: int, j: int|
        0 <= i < j < sels.len() && line_of(s, (#[trigger] sels[i]).0 as int) == line_of(
            s,
            (#[trigger] sels[j]).0 as int,
        )
}

pub open spec fn pads_of(d: DocView, tab: usize) -> Seq<(int, int, Option<Seq<char>>)> {
    let sels = selections_of(d);
    let starts = starts_upto(d.text, sels, tab, sels.len());
    pads_upto(starts, widest(starts, starts.len()), starts.len())
}

/// Every selection's start padded to the column of the one furthest right.
pub open spec fn aligned(d: DocView, tab: usize) -> DocView {
    let edits = pads_of(d, tab);
    if edits.len() == 0 {
        d
    } else {
        let ops = change_ops(edits, d.text.len() as int);
        let a = applied(d, ops, ride(ops, d.cursor));
        committed(DocView { anchor: ride(ops, d.anchor), extra: ride_all(ops, d.extra), ..a })
    }
}

/// What aligning the selections came to.
#[derive(Clone, Copy, PartialEq, Eq, Structural, Debug)]
pub enum Aligned {
    /// There is only one selection.
    Alone,
    /// Two selections start on one line.
    Shared,
    Done,
}

pub open spec fn align_outcome(d: DocView) -> Aligned {
    if d.extra.len() == 0 {
        Aligned::Alone
    } else if lines_shared(d.text, selections_of(d)) {
        Aligned::Shared
    } else {
        Aligned::Done
    }
}

/// Pairs in order, by their first.
pub open spec fn firsts_ordered(v: Seq<(usize, usize)>) -> bool {
    forall|i: int, j: int| 0 <= i < j < v.len() ==> (#[trigger] v[i]).0 <= (#[trigger] v[j]).0
}

proof fn lemma_with_pair_ordered(v: Seq<(usize, usize)>, p: (usize, usize), i: int, len: int)
    requires
        0 <= i <= v.len(),
        firsts_ordered(v),
        p.0 <= len,
        forall|k: int| 0 <= k < i ==> (#[trigger] v[k]).0 <= p.0,
        forall|k: int| 0 <= k < v.len() ==> (#[trigger] v[k]).0 <= len,
    ensures
        firsts_ordered(with_pair(v, p, i)),
        forall|k: int|
            0 <= k < with_pair(v, p, i).len() ==> (#[trigger] with_pair(v, p, i)[k]).0 <= len,
    decreases v.len() - i,
{
    let w = with_pair(v, p, i);
    if i >= v.len() || crate::document::pair_before(p, v[i]) {
        assert(w == v.take(i).push(p) + v.skip(i));
        assert forall|k: int| 0 <= k < w.len() implies (#[trigger] w[k]) == (if k < i {
            v[k]
        } else if k == i {
            p
        } else {
            v[k - 1]
        }) by {}
        assert forall|a: int, b: int| 0 <= a < b < w.len() implies (#[trigger] w[a]).0 <= (
        #[trigger] w[b]).0 by {
            if a == i {
                assert(v[b - 1].0 >= v[i].0);
            }
        }
    } else if p == v[i] {
        assert(w == v);
    } else {
        assert(w == with_pair(v, p, i + 1));
        lemma_with_pair_ordered(v, p, i + 1, len);
    }
}

proof fn lemma_pads_fit(starts: Seq<(usize, usize)>, target: usize, n: nat, len: int)
    requires
        n <= starts.len(),
        firsts_ordered(starts),
        forall|k: int| 0 <= k < starts.len() ==> (#[trigger] starts[k]).0 <= len,
    ensures
        edits_fit(pads_upto(starts, target, n), len),
        forall|k: int|
            0 <= k < pads_upto(starts, target, n).len() ==> n > 0 && (#[trigger] pads_upto(
                starts,
                target,
                n,
            )[k]).1 <= starts[n - 1].0,
    decreases n,
{
    if n > 0 {
        lemma_pads_fit(starts, target, (n - 1) as nat, len);
        let head = pads_upto(starts, target, (n - 1) as nat);
        let all = pads_upto(starts, target, n);
        assert forall|k: int| 0 <= k < head.len() implies (#[trigger] head[k]).1 <= starts[n
            - 1].0 by {
            assert(starts[n - 2].0 <= starts[n - 1].0);
        }
        assert forall|k: int| 0 <= k < head.len() implies #[trigger] all[k] == head[k] by {}
        assert forall|a: int, b: int| 0 <= a < b < all.len() implies (#[trigger] all[a]).1 <= (
        #[trigger] all[b]).0 by {
            if b < head.len() {
                assert(head[a].1 <= head[b].0);
            }
        }
    }
}

fn make_spaces(n: usize) -> (r: String)
    ensures
        r@ == spaces(n as int),
{
    let mut v: Vec<char> = Vec::new();
    let mut k: usize = 0;
    while k < n
        invariant
            k <= n,
            v@.len() == k,
            forall|j: int| 0 <= j < k ==> v@[j] == ' ',
        decreases n - k,
    {
        v.push(' ');
        k += 1;
    }
    assert(v@ =~= spaces(n as int));
    string_of(v.as_slice())
}

impl Document {
    fn column_of(&self, at: usize, tab: usize) -> (r: usize)
        requires
            at <= self@.text.len(),
        ensures
            r == column_of(self@.text, at as int, tab),
    {
        let line = self.line_at(at);
        let l = self.line_content(line);
        char_to_display_col(l.as_slice(), at - self.line_start(line), tab)
    }

    fn lines_shared(&self, sels: &Vec<(usize, usize)>) -> (r: bool)
        requires
            sels_in(sels@, self@.text.len() as int),
        ensures
            r == lines_shared(self@.text, sels@),
    {
        let mut i: usize = 0;
        while i < sels.len()
            invariant
                i <= sels@.len(),
                sels_in(sels@, self@.text.len() as int),
                forall|a: int, b: int|
                    0 <= a < i && a < b < sels@.len() ==> line_of(
                        self@.text,
                        (#[trigger] sels@[a]).0 as int,
                    ) != line_of(self@.text, (#[trigger] sels@[b]).0 as int),
            decreases sels@.len() - i,
        {
            assert(sels@[i as int].0 <= sels@[i as int].1 <= self@.text.len());
            let line = self.line_at(sels[i].0);
            let mut j: usize = i + 1;
            while j < sels.len()
                invariant
                    i < j <= sels@.len(),
                    sels_in(sels@, self@.text.len() as int),
                    line == line_of(self@.text, sels@[i as int].0 as int),
                    forall|b: int|
                        i < b < j ==> line_of(self@.text, (#[trigger] sels@[b]).0 as int) != line,
                decreases sels@.len() - j,
            {
                assert(sels@[j as int].0 <= sels@[j as int].1 <= self@.text.len());
                if self.line_at(sels[j].0) == line {
                    assert(sels@[i as int].0 == sels@[i as int].0);
                    return true;
                }
                j += 1;
            }
            i += 1;
        }
        false
    }

    fn pads(&self, sels: &Vec<(usize, usize)>, tab: usize) -> (r: Vec<
        (usize, usize, Option<String>),
    >)
        requires
            placed(self@),
            sels@ == selections_of(self@),
            sels_in(sels@, self@.text.len() as int),
        ensures
            edit_views(r@) == pads_of(self@, tab),
            edits_fit(edit_views(r@), self@.text.len() as int),
    {
        let ghost len = self@.text.len() as int;
        let mut starts: Vec<(usize, usize)> = Vec::new();
        let mut i: usize = 0;
        while i < sels.len()
            invariant
                i <= sels@.len(),
                len == self@.text.len(),
                sels_in(sels@, len),
                starts@ == starts_upto(self@.text, sels@, tab, i as nat),
                firsts_ordered(starts@),
                forall|k: int| 0 <= k < starts@.len() ==> (#[trigger] starts@[k]).0 <= len,
            decreases sels@.len() - i,
        {
            assert(sels@[i as int].0 <= sels@[i as int].1 <= len);
            let at = sels[i].0;
            let col = self.column_of(at, tab);
            proof {
                lemma_with_pair_ordered(starts@, (at, col), 0, len);
            }
            put_pair(&mut starts, (at, col));
            i += 1;
        }
        let mut target: usize = 0;
        let mut k: usize = 0;
        while k < starts.len()
            invariant
                k <= starts@.len(),
                target == widest(starts@, k as nat),
            decreases starts@.len() - k,
        {
            if starts[k].1 > target {
                target = starts[k].1;
            }
            k += 1;
        }
        let mut edits: Vec<(usize, usize, Option<String>)> = Vec::new();
        let mut j: usize = 0;
        assert(edit_views(edits@) =~= Seq::empty());
        while j < starts.len()
            invariant
                j <= starts@.len(),
                edit_views(edits@) == pads_upto(starts@, target, j as nat),
            decreases starts@.len() - j,
        {
            let (at, col) = starts[j];
            if col < target {
                let ghost had = edits@;
                let pad = make_spaces(target - col);
                edits.push((at, at, Some(pad)));
                assert(edit_views(edits@) =~= edit_views(had).push(
                    (at as int, at as int, Some(spaces(target - col))),
                ));
            }
            j += 1;
        }
        proof {
            lemma_pads_fit(starts@, target, starts@.len(), len);
        }
        edits
    }

    /// Pad every selection's start to the same column.
    #[verifier::spinoff_prover]
    #[verifier::rlimit(60)]
    pub fn align_selections(&mut self, tab: usize) -> (r: Aligned)
        requires
            placed(old(self)@),
        ensures
            r == align_outcome(old(self)@),
            r == Aligned::Done ==> final(self)@ == aligned(old(self)@, tab),
            r != Aligned::Done ==> final(self)@ == old(self)@,
            old(self).wf() ==> final(self).wf(),
            placed(final(self)@),
            true_to_edits(old(self)@) ==> true_to_edits(final(self)@),
    {
        let ghost d = self@;
        let sels = self.selections();
        if sels.len() < 2 {
            return Aligned::Alone;
        }
        if self.lines_shared(&sels) {
            return Aligned::Shared;
        }
        let edits = self.pads(&sels, tab);
        if edits.len() == 0 {
            assert(pads_of(d, tab).len() == 0);
            return Aligned::Done;
        }
        let ghost views = edit_views(edits@);
        let tx = Transaction::change(&self.text, edits);
        proof {
            law_change_makes_the_edits(views, d.text);
            law_mapped_in_bounds(tx@, d.cursor as int, false, d.text);
            law_mapped_in_bounds(tx@, d.anchor as int, false, d.text);
        }
        let cursor = tx.map_pos(self.cursor, false);
        let anchor = tx.map_pos(self.anchor, false);
        let mut extra: Vec<(usize, usize)> = Vec::new();
        let mut i: usize = 0;
        while i < self.extra.len()
            invariant
                i <= self.extra@.len(),
                self@ == d,
                extra@.len() == i,
                forall|k: int| 0 <= k < i ==> #[trigger] extra@[k] == ride_all(tx@, d.extra)[k],
            decreases self.extra@.len() - i,
        {
            let e = self.extra[i];
            extra.push((tx.map_pos(e.0, false), tx.map_pos(e.1, false)));
            i += 1;
        }
        assert(extra@ =~= ride_all(tx@, d.extra));
        let ghost ops = tx@;
        self.apply(tx, cursor);
        let ghost a = self@;
        self.anchor = anchor;
        self.extra = extra;
        proof {
            let len = a.text.len() as int;
            assert forall|k: int| 0 <= k < self@.extra.len() implies (#[trigger] self@.extra[k]).0
                <= len && self@.extra[k].1 <= len by {
                assert(d.extra[k].0 <= d.text.len());
                law_mapped_in_bounds(ops, d.extra[k].0 as int, false, d.text);
                law_mapped_in_bounds(ops, d.extra[k].1 as int, false, d.text);
            }
        }
        self.commit_undo_group();
        Aligned::Done
    }
}

// ---- the block ----------------------------------------------------------------

/// A rectangle of the text, by two opposite corners as (line, display
/// column): where it was started, and the corner that motions move.
#[derive(Clone, Copy, Debug)]
pub struct Block {
    pub origin: (usize, usize),
    pub corner: (usize, usize),
}

/// One bare cursor on a corner, keeping to its column.
pub open spec fn on_corner(d: DocView, corner: (usize, usize), tab: usize) -> DocView {
    let s = d.text;
    let line = min_int(corner.0 as int, line_count(s) - 1);
    let at = line_start(s, line) + char_at_column(line_content(s, line), corner.1 as int, tab);
    DocView {
        extra: Seq::empty(),
        anchor: at as usize,
        cursor: clamped(s, at, false) as usize,
        goal_col: Some(corner.1),
        ..d
    }
}

/// The corner that the cursor is on: in the column that a vertical motion
/// keeps to, or its own.
pub open spec fn corner_of(d: DocView, tab: usize) -> (usize, usize) {
    let line = cursor_line(d.text, d.cursor as int);
    (
        line as usize,
        match d.goal_col {
            Some(g) => g,
            None => capped_col(
                display_col(
                    line_content(d.text, line),
                    d.cursor - line_start(d.text, line),
                    tab,
                ),
            ) as usize,
        },
    )
}

/// What a block selects on a line. A line that ends before the rectangle
/// begins has nothing in it, but for the corner's.
pub open spec fn block_on_line(s: Seq<char>, b: Block, line: int, tab: usize) -> Option<(usize, usize)> {
    let left = min_int(b.origin.1 as int, b.corner.1 as int);
    let right = max_of(b.origin.1 as int, b.corner.1 as int);
    let l = line_content(s, line);
    let from = min_int(char_at_column(l, left, tab), l.len() as int);
    let to = min_int(char_at_column(l, capped(right + 1), tab), l.len() as int);
    if capped_col(display_col(l, l.len() as int, tab)) < left && line != b.corner.0 {
        None
    } else {
        let start = line_start(s, line);
        Some(((start + from) as usize, (start + max_of(to, from)) as usize))
    }
}

/// The selections of a block on the lines from `line` through `last`.
pub open spec fn block_from(s: Seq<char>, b: Block, line: int, last: int, tab: usize) -> Seq<
    (usize, usize),
>
    decreases last + 1 - line,
{
    if line > last || line < 0 {
        Seq::empty()
    } else {
        (match block_on_line(s, b, line, tab) {
            Some(sel) => seq![sel],
            None => Seq::empty(),
        }) + block_from(s, b, line + 1, last, tab)
    }
}

/// A block's selections, one per line, the corner's the primary.
pub open spec fn block_selected(d: DocView, b: Block, tab: usize) -> DocView {
    let s = d.text;
    let last = line_count(s) - 1;
    let low = min_int(b.origin.0 as int, b.corner.0 as int);
    let high = min_int(max_of(b.origin.0 as int, b.corner.0 as int), last);
    let sels = block_from(s, b, low, high, tab);
    let before = block_from(s, b, low, min_int(b.corner.0 - 1, high), tab).len();
    DocView { goal_col: d.goal_col, ..with_selections(d, sels, before as int) }
}

/// What the command that ends a block is to do with its selections.
#[derive(Clone, Copy, PartialEq, Eq, Structural, Debug)]
pub enum BlockEnd {
    /// It types at the left edge.
    Insert,
    /// It types behind the right edge.
    Append,
    /// It takes what is selected, and nothing where nothing is.
    Cut,
    Other,
}

pub open spec fn block_sel_ended(s: Seq<char>, sel: (usize, usize), end: BlockEnd) -> (usize, usize) {
    match end {
        BlockEnd::Insert => (sel.0, sel.0),
        BlockEnd::Append => if sel.0 < sel.1 {
            (prev_boundary(s, sel.1 as int) as usize, prev_boundary(s, sel.1 as int) as usize)
        } else {
            sel
        },
        _ => sel,
    }
}

pub open spec fn without_empty(sels: Seq<(usize, usize)>, n: nat) -> Seq<(usize, usize)>
    decreases n,
{
    if n == 0 || n > sels.len() {
        Seq::empty()
    } else if sels[n - 1].0 != sels[n - 1].1 {
        without_empty(sels, (n - 1) as nat).push(sels[n - 1])
    } else {
        without_empty(sels, (n - 1) as nat)
    }
}

/// The selections of a block as the command that ends it gets them.
pub open spec fn block_ended(d: DocView, end: BlockEnd) -> DocView {
    let p = block_sel_ended(d.text, (d.anchor, d.cursor), end);
    let extra = Seq::new(d.extra.len(), |i: int| block_sel_ended(d.text, d.extra[i], end));
    DocView {
        anchor: p.0,
        cursor: p.1,
        extra: if end == BlockEnd::Cut {
            without_empty(extra, extra.len())
        } else {
            extra
        },
        ..d
    }
}

impl Document {
    /// Put one bare cursor on a corner.
    pub fn go_to_corner(&mut self, corner: (usize, usize), tab: usize)
        ensures
            final(self)@ == on_corner(old(self)@, corner, tab),
            old(self).wf() ==> final(self).wf(),
            placed(final(self)@),
            true_to_edits(old(self)@) ==> true_to_edits(final(self)@),
    {
        let last: usize = self.line_count() - 1;
        let line: usize = if corner.0 <= last {
            corner.0
        } else {
            last
        };
        proof {
            lemma_line_parts(self@.text, line as int);
        }
        let l = self.line_content(line);
        let len = rope_len(&self.text);
        let at: usize = self.line_start(line) + display_col_to_char(l.as_slice(), corner.1, tab);
        self.extra = Vec::new();
        assert(self.extra@ =~= Seq::empty());
        self.anchor = at;
        self.cursor = at;
        self.clamp_cursor(false);
        self.goal_col = Some(corner.1);
    }

    /// The corner that the cursor is on.
    pub fn corner(&self, tab: usize) -> (r: (usize, usize))
        ensures
            r == corner_of(self@, tab),
    {
        let (line, col) = self.cursor_display(tab);
        match self.goal_col {
            Some(g) => (line, g),
            None => (line, col),
        }
    }

    fn block_line(&self, b: Block, line: usize, tab: usize) -> (r: Option<(usize, usize)>)
        requires
            line < lines_in(self@.text),
        ensures
            r == block_on_line(self@.text, b, line as int, tab),
            r is Some ==> (r->0).0 <= (r->0).1 <= self@.text.len(),
    {
        proof {
            lemma_line_parts(self@.text, line as int);
        }
        let left: usize = if b.origin.1 <= b.corner.1 {
            b.origin.1
        } else {
            b.corner.1
        };
        let right: usize = if b.origin.1 >= b.corner.1 {
            b.origin.1
        } else {
            b.corner.1
        };
        let total = rope_len(&self.text);
        let l = self.line_content(line);
        let len: usize = l.len();
        let width = char_to_display_col(l.as_slice(), len, tab);
        if width < left && line != b.corner.0 {
            return None;
        }
        let f = display_col_to_char(l.as_slice(), left, tab);
        let from: usize = if f <= len {
            f
        } else {
            len
        };
        let t = display_col_to_char(l.as_slice(), right.saturating_add(1), tab);
        let t: usize = if t <= len {
            t
        } else {
            len
        };
        let to: usize = if t >= from {
            t
        } else {
            from
        };
        let start = self.line_start(line);
        Some((start + from, start + to))
    }

    fn block_lines(&self, b: Block, low: usize, high: usize, tab: usize) -> (r: Vec<(usize, usize)>)
        requires
            high < lines_in(self@.text),
        ensures
            r@ == block_from(self@.text, b, low as int, high as int, tab),
            sels_in(r@, self@.text.len() as int),
    {
        let ghost all = block_from(self@.text, b, low as int, high as int, tab);
        let mut out: Vec<(usize, usize)> = Vec::new();
        let lines = crate::text::rope_lines(&self.text);
        let mut line: usize = low;
        assert(out@ + all =~= all);
        while line <= high
            invariant
                high < lines_in(self@.text) == lines,
                out@ + block_from(self@.text, b, line as int, high as int, tab) == all,
                sels_in(out@, self@.text.len() as int),
            decreases high + 1 - line,
        {
            let ghost had = out@;
            if let Some(sel) = self.block_line(b, line, tab) {
                out.push(sel);
            }
            assert(out@ + block_from(self@.text, b, line + 1, high as int, tab) =~= had
                + block_from(self@.text, b, line as int, high as int, tab));
            line += 1;
        }
        assert(out@ =~= all);
        out
    }

    /// Select the rectangle of a block, one selection per line.
    pub fn block_select(&mut self, b: Block, tab: usize)
        requires
            placed(old(self)@),
        ensures
            final(self)@ == block_selected(old(self)@, b, tab),
            old(self).wf() ==> final(self).wf(),
            placed(final(self)@),
            true_to_edits(old(self)@) ==> true_to_edits(final(self)@),
    {
        let goal = self.goal_col;
        let last: usize = self.line_count() - 1;
        let low: usize = if b.origin.0 <= b.corner.0 {
            b.origin.0
        } else {
            b.corner.0
        };
        let top: usize = if b.origin.0 >= b.corner.0 {
            b.origin.0
        } else {
            b.corner.0
        };
        let high: usize = if top <= last {
            top
        } else {
            last
        };
        let sels = self.block_lines(b, low, high, tab);
        let before: usize = if b.corner.0 == 0 {
            0
        } else {
            let upto: usize = if b.corner.0 - 1 <= high {
                b.corner.0 - 1
            } else {
                high
            };
            self.block_lines(b, low, upto, tab).len()
        };
        self.set_selections(sels, before);
        self.goal_col = goal;
    }

    fn end_block_sel(&self, sel: (usize, usize), end: BlockEnd) -> (r: (usize, usize))
        requires
            sel.0 <= self@.text.len(),
            sel.1 <= self@.text.len(),
        ensures
            r == block_sel_ended(self@.text, sel, end),
            r.0 <= self@.text.len(),
            r.1 <= self@.text.len(),
    {
        match end {
            BlockEnd::Insert => (sel.0, sel.0),
            BlockEnd::Append => {
                if sel.0 < sel.1 {
                    let last = prev_grapheme_boundary(&self.text, sel.1);
                    (last, last)
                } else {
                    sel
                }
            },
            _ => sel,
        }
    }

    /// Hand the selections of a block to the command that ends it.
    pub fn end_block(&mut self, end: BlockEnd)
        requires
            placed(old(self)@),
        ensures
            final(self)@ == block_ended(old(self)@, end),
            old(self).wf() ==> final(self).wf(),
            placed(final(self)@),
            true_to_edits(old(self)@) ==> true_to_edits(final(self)@),
    {
        let ghost d = self@;
        let ghost all = Seq::new(d.extra.len(), |i: int| block_sel_ended(d.text, d.extra[i], end));
        let mut out: Vec<(usize, usize)> = Vec::new();
        let mut i: usize = 0;
        while i < self.extra.len()
            invariant
                i <= self.extra@.len(),
                self@ == d,
                placed(d),
                all == Seq::new(d.extra.len(), |i: int| block_sel_ended(d.text, d.extra[i], end)),
                end == BlockEnd::Cut ==> out@ == without_empty(all, i as nat),
                end != BlockEnd::Cut ==> out@ == all.take(i as int),
                forall|k: int|
                    0 <= k < out@.len() ==> (#[trigger] out@[k]).0 <= d.text.len() && out@[k].1
                        <= d.text.len(),
            decreases self.extra@.len() - i,
        {
            let e = self.extra[i];
            assert(d.extra[i as int] == e);
            let new = self.end_block_sel(e, end);
            assert(all[i as int] == new);
            if end != BlockEnd::Cut || new.0 != new.1 {
                out.push(new);
            }
            assert(all.take(i + 1) =~= all.take(i as int).push(new));
            i += 1;
        }
        assert(all.take(all.len() as int) =~= all);
        let p = self.end_block_sel((self.anchor, self.cursor), end);
        self.anchor = p.0;
        self.cursor = p.1;
        self.extra = out;
    }
}

} // verus!
