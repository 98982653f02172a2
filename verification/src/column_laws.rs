//! Display columns and soft wrap, said cluster by cluster.

use vstd::prelude::*;
use crate::motion_laws::reach;
use crate::position::{
    char_at_column, char_at_column_from, cluster_lengths, column_from, columns_of, display_col,
    drawn_width, row_break, rows_from, wrapped_rows,
};
use crate::strings::is_white;

verus! {

/// The `k`th cluster of a line.
pub open spec fn cluster(line: Seq<char>, lens: Seq<usize>, k: int) -> Seq<char> {
    line.subrange(reach(lens, k), reach(lens, k + 1))
}

/// The column that the `k`th cluster of a line starts in: that of the one
/// before and its width, a tab being as wide as it is to the next stop.
pub open spec fn column_at(line: Seq<char>, lens: Seq<usize>, k: int, tab: usize) -> int
    decreases k,
{
    if k <= 0 {
        0
    } else {
        let col = column_at(line, lens, k - 1, tab);
        let c = cluster(line, lens, k - 1);
        let stop = if tab == 0 {
            1
        } else {
            tab as int
        };
        if c.len() > 0 && c[0] == '\t' {
            (col / stop + 1) * stop
        } else {
            col + drawn_width(c)
        }
    }
}

proof fn lemma_tab(col: int, stop: int)
    requires
        0 <= col,
        stop > 0,
    ensures
        col + (stop - col % stop) == (col / stop + 1) * stop,
        0 < stop - col % stop <= stop,
{
    vstd::arithmetic::div_mod::lemma_fundamental_div_mod(col, stop);
    assert((col / stop + 1) * stop == stop * (col / stop) + stop) by (nonlinear_arith);
}

proof fn lemma_column_step(line: Seq<char>, lens: Seq<usize>, k: int, tab: usize)
    requires
        0 <= k < lens.len(),
    ensures
        0 <= column_at(line, lens, k, tab) <= column_at(line, lens, k + 1, tab),
        column_at(line, lens, k + 1, tab) == column_at(line, lens, k, tab) + columns_of(
            line.subrange(reach(lens, k), reach(lens, k) + lens[k]),
            column_at(line, lens, k, tab),
            tab,
        ),
        reach(lens, k + 1) == reach(lens, k) + lens[k],
    decreases k,
{
    if k > 0 {
        lemma_column_step(line, lens, k - 1, tab);
    }
    let stop = if tab == 0 {
        1
    } else {
        tab as int
    };
    lemma_tab(column_at(line, lens, k, tab), stop);
}

proof fn lemma_column_from(line: Seq<char>, lens: Seq<usize>, k: int, n: int, tab: usize)
    requires
        0 <= k <= n <= lens.len(),
        forall|j: int| 0 <= j < lens.len() ==> #[trigger] lens[j] >= 1,
    ensures
        column_from(
            line,
            lens,
            k,
            reach(lens, k),
            column_at(line, lens, k, tab),
            reach(lens, n),
            tab,
        ) == column_at(line, lens, n, tab),
        k < n ==> reach(lens, k) < reach(lens, n),
    decreases n - k,
{
    if k < n {
        lemma_column_step(line, lens, k, tab);
        lemma_column_from(line, lens, k + 1, n, tab);
        assert(lens[k] >= 1);
    }
}

/// Whether lengths cut a line up: none is nothing, and together they are all
/// of it.
pub open spec fn cuts_up(line: Seq<char>, lens: Seq<usize>) -> bool {
    &&& forall|j: int| 0 <= j < lens.len() ==> #[trigger] lens[j] >= 1
    &&& reach(lens, lens.len() as int) == line.len()
}

/// The display column of a cluster is the sum of the widths before it, each
/// tab reaching to the next stop.
pub proof fn law_columns_add_up(line: Seq<char>, k: int, tab: usize)
    requires
        0 <= k,
    ensures
        ({
            let lens = cluster_lengths(line);
            cuts_up(line, lens) && k <= lens.len() ==> display_col(line, reach(lens, k), tab)
                == column_at(line, lens, k, tab)
        }),
{
    let lens = cluster_lengths(line);
    if cuts_up(line, lens) && k <= lens.len() {
        lemma_column_from(line, lens, 0, k, tab);
    }
}

proof fn lemma_char_at(
    line: Seq<char>,
    lens: Seq<usize>,
    k: int,
    target: int,
    tab: usize,
) -> (n: int)
    requires
        0 <= k <= lens.len(),
        column_at(line, lens, k, tab) <= target,
    ensures
        k <= n <= lens.len(),
        char_at_column_from(
            line,
            lens,
            k,
            reach(lens, k),
            column_at(line, lens, k, tab),
            target,
            tab,
        ) == reach(lens, n),
        column_at(line, lens, n, tab) <= target,
        n < lens.len() ==> target < column_at(line, lens, n + 1, tab),
    decreases lens.len() - k,
{
    if k < lens.len() {
        lemma_column_step(line, lens, k, tab);
        if column_at(line, lens, k + 1, tab) > target {
            k
        } else {
            lemma_char_at(line, lens, k + 1, target, tab)
        }
    } else {
        k
    }
}

/// The character at a column is the start of the cluster that is drawn over
/// it, or the end of a line that does not reach so far.
pub proof fn law_the_character_at_a_column_is_drawn_there(line: Seq<char>, target: int, tab: usize)
    requires
        0 <= target,
    ensures
        ({
            let lens = cluster_lengths(line);
            exists|n: int|
                0 <= n <= lens.len() && char_at_column(line, target, tab) == #[trigger] reach(lens, n)
                    && column_at(line, lens, n, tab) <= target && (n < lens.len() ==> target
                    < column_at(line, lens, n + 1, tab))
        }),
{
    let lens = cluster_lengths(line);
    let n = lemma_char_at(line, lens, 0, target, tab);
    assert(char_at_column(line, target, tab) == reach(lens, n));
}

/// What is drawn somewhere is found there: the column of a cluster that takes
/// any room leads back to it.
pub proof fn law_columns_lead_back(line: Seq<char>, k: int, tab: usize)
    requires
        0 <= k,
    ensures
        ({
            let lens = cluster_lengths(line);
            cuts_up(line, lens) && k < lens.len() && column_at(line, lens, k, tab) < column_at(
                line,
                lens,
                k + 1,
                tab,
            ) ==> char_at_column(line, display_col(line, reach(lens, k), tab), tab) == reach(lens, k)
        }),
{
    let lens = cluster_lengths(line);
    if cuts_up(line, lens) && k < lens.len() && column_at(line, lens, k, tab) < column_at(
        line,
        lens,
        k + 1,
        tab,
    ) {
        law_columns_add_up(line, k, tab);
        let c = column_at(line, lens, k, tab);
        lemma_columns_grow(line, lens, 0, k, tab);
        let n = lemma_char_at(line, lens, 0, c, tab);
        if n < k {
            lemma_columns_grow(line, lens, n + 1, k, tab);
        }
        if n > k {
            lemma_columns_grow(line, lens, k + 1, n, tab);
        }
    }
}

proof fn lemma_columns_grow(line: Seq<char>, lens: Seq<usize>, j: int, k: int, tab: usize)
    requires
        0 <= j <= k <= lens.len(),
    ensures
        0 <= column_at(line, lens, j, tab) <= column_at(line, lens, k, tab),
    decreases k - j,
{
    if j < k {
        lemma_columns_grow(line, lens, j, k - 1, tab);
        lemma_column_step(line, lens, k - 1, tab);
    } else if j > 0 {
        lemma_column_step(line, lens, j - 1, tab);
    }
}

// ---- soft wrap ---------------------------------------------------------------------

/// Whether a cluster is white space.
pub open spec fn is_white_cluster(line: Seq<char>, lens: Seq<usize>, k: int) -> bool {
    lens[k] > 0 && is_white(line[reach(lens, k)])
}

/// Whether a row has room for its first `m` clusters and not for one more; one
/// it always has room for.
pub open spec fn is_full_at(
    line: Seq<char>,
    lens: Seq<usize>,
    m: int,
    width: int,
    tab: usize,
) -> bool {
    &&& 0 < m < lens.len()
    &&& column_at(line, lens, m + 1, tab) > width
    &&& forall|j: int| 1 < j <= m ==> #[trigger] column_at(line, lens, j, tab) <= width
}

/// Whether a row of `m` clusters breaks behind its `j`th: behind its last white
/// space, or at its edge where it has none.
pub open spec fn breaks_behind(line: Seq<char>, lens: Seq<usize>, m: int, j: int) -> bool {
    &&& 0 < j <= m
    &&& forall|i: int| j <= i < m ==> !#[trigger] is_white_cluster(line, lens, i)
    &&& j < m ==> is_white_cluster(line, lens, j - 1)
    &&& j == m ==> is_white_cluster(line, lens, m - 1) || forall|i: int|
        0 <= i < m ==> !#[trigger] is_white_cluster(line, lens, i)
}

/// The last white space of the first `k` clusters: the number of clusters
/// through it.
spec fn white_upto(line: Seq<char>, lens: Seq<usize>, k: int) -> int
    decreases k,
{
    if k <= 0 {
        0
    } else if is_white_cluster(line, lens, k - 1) {
        k
    } else {
        white_upto(line, lens, k - 1)
    }
}

proof fn lemma_white_upto(line: Seq<char>, lens: Seq<usize>, k: int)
    requires
        0 <= k <= lens.len(),
    ensures
        0 <= white_upto(line, lens, k) <= k,
        white_upto(line, lens, k) > 0 ==> is_white_cluster(line, lens, white_upto(line, lens, k) - 1),
        forall|i: int|
            white_upto(line, lens, k) <= i < k ==> !#[trigger] is_white_cluster(line, lens, i),
    decreases k,
{
    if k > 0 && !is_white_cluster(line, lens, k - 1) {
        lemma_white_upto(line, lens, k - 1);
    }
}

proof fn lemma_row_break(line: Seq<char>, lens: Seq<usize>, k: int, width: int, tab: usize) -> (r: (
    int,
    int,
))
    requires
        0 <= k <= lens.len(),
        forall|j: int| 0 <= j < lens.len() ==> #[trigger] lens[j] >= 1,
        forall|j: int| 1 < j <= k ==> #[trigger] column_at(line, lens, j, tab) <= width,
    ensures
        match row_break(
            line,
            lens,
            k,
            reach(lens, k),
            column_at(line, lens, k, tab),
            0,
            reach(lens, white_upto(line, lens, k)),
            width,
            tab,
        ) {
            Some(b) => is_full_at(line, lens, r.0, width, tab) && breaks_behind(line, lens, r.0, r.1)
                && b == reach(lens, r.1),
            None => forall|j: int|
                1 < j <= lens.len() ==> #[trigger] column_at(line, lens, j, tab) <= width,
        },
    decreases lens.len() - k,
{
    lemma_white_upto(line, lens, k);
    lemma_reach_zero(lens, k);
    lemma_reach_zero(lens, white_upto(line, lens, k));
    if k < lens.len() {
        lemma_column_step(line, lens, k, tab);
        if column_at(line, lens, k + 1, tab) > width && k > 0 {
            let w = white_upto(line, lens, k);
            if w > 0 {
                (k, w)
            } else {
                (k, k)
            }
        } else {
            lemma_row_break(line, lens, k + 1, width, tab)
        }
    } else {
        (0, 0)
    }
}

proof fn lemma_reach_zero(lens: Seq<usize>, k: int)
    requires
        0 <= k <= lens.len(),
        forall|j: int| 0 <= j < lens.len() ==> #[trigger] lens[j] >= 1,
    ensures
        reach(lens, k) >= k,
    decreases k,
{
    if k > 0 {
        lemma_reach_zero(lens, k - 1);
        assert(lens[k - 1] >= 1);
    }
}

/// Whether a row that starts at a place is to be followed by one that starts
/// `b` characters on: the clusters up to the edge fit, the next does not, and
/// the row breaks behind its last white space or at the edge.
pub open spec fn is_row(rest: Seq<char>, b: int, width: int, tab: usize) -> bool {
    let lens = cluster_lengths(rest);
    exists|m: int, j: int|
        is_full_at(rest, lens, m, width, tab) && #[trigger] breaks_behind(rest, lens, m, j) && b
            == reach(lens, j)
}

/// Whether the rest of a line fits a row, or is one cluster.
pub open spec fn fits_row(rest: Seq<char>, width: int, tab: usize) -> bool {
    let lens = cluster_lengths(rest);
    forall|j: int| 1 < j <= lens.len() ==> #[trigger] column_at(rest, lens, j, tab) <= width
}

proof fn lemma_rows(line: Seq<char>, start: int, width: int, tab: usize, i: int)
    requires
        0 <= start <= line.len(),
        forall|p: int|
            0 <= p <= line.len() ==> cuts_up(line.skip(p), #[trigger] cluster_lengths(line.skip(p))),
        0 <= i < rows_from(line, start, width, tab).len(),
    ensures
        ({
            let rows = rows_from(line, start, width, tab);
            &&& start <= rows[i] <= line.len()
            &&& rows[0] == start
            &&& if i + 1 < rows.len() {
                rows[i] < rows[i + 1] && is_row(line.skip(rows[i]), rows[i + 1] - rows[i], width, tab)
            } else {
                fits_row(line.skip(rows[i]), width, tab)
            }
        }),
    decreases line.len() - start,
{
    let rest = line.skip(start);
    let lens = cluster_lengths(rest);
    let rows = rows_from(line, start, width, tab);
    assert(cuts_up(line.skip(start), cluster_lengths(line.skip(start))));
    let r = lemma_row_break(rest, lens, 0, width, tab);
    match row_break(rest, lens, 0, 0, 0, 0, 0, width, tab) {
        Some(b) => {
            lemma_reach_zero(lens, r.1);
            lemma_reach_below(lens, r.1);
            assert(0 < b < rest.len());
            let more = rows_from(line, start + b, width, tab);
            assert(rows == seq![start] + more);
            assert(is_row(rest, b, width, tab));
            assert(more.len() > 0);
            lemma_rows(line, start + b, width, tab, 0);
            if i > 0 {
                lemma_rows(line, start + b, width, tab, i - 1);
                assert(rows[i] == more[i - 1]);
                if i + 1 < rows.len() {
                    assert(rows[i + 1] == more[i]);
                }
            } else {
                assert(rows[1] == more[0]);
            }
        },
        None => {},
    }
}

proof fn lemma_reach_below(lens: Seq<usize>, k: int)
    requires
        0 <= k < lens.len(),
        forall|j: int| 0 <= j < lens.len() ==> #[trigger] lens[j] >= 1,
    ensures
        reach(lens, k) < reach(lens, lens.len() as int),
    decreases lens.len() - k,
{
    assert(reach(lens, k + 1) == reach(lens, k) + lens[k]);
    assert(lens[k] >= 1);
    if k + 1 < lens.len() {
        lemma_reach_below(lens, k + 1);
    }
}

/// A soft-wrapped line: the first row starts at its start; every other row
/// where the one before is full, behind that one's last white space or else at
/// its edge; and the last row holds the rest.
pub proof fn law_rows_break_where_they_are_full(line: Seq<char>, width: int, tab: usize, i: int)
    requires
        0 <= i,
    ensures
        (forall|p: int|
            0 <= p <= line.len() ==> cuts_up(line.skip(p), #[trigger] cluster_lengths(line.skip(p))))
            && i < wrapped_rows(line, width, tab).len() ==> {
            let rows = wrapped_rows(line, width, tab);
            &&& 0 <= rows[i] <= line.len()
            &&& rows[0] == 0
            &&& if i + 1 < rows.len() {
                rows[i] < rows[i + 1] && is_row(line.skip(rows[i]), rows[i + 1] - rows[i], width, tab)
            } else {
                fits_row(line.skip(rows[i]), width, tab)
            }
        },
{
    if (forall|p: int|
        0 <= p <= line.len() ==> cuts_up(line.skip(p), #[trigger] cluster_lengths(line.skip(p))))
        && i < wrapped_rows(line, width, tab).len() {
        lemma_rows(line, 0, width, tab, i);
    }
}

} // verus!
