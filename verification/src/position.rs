//! Where things are: grapheme boundaries, display columns, soft-wrapped rows
//! and UTF-16 columns. A motion takes the cursor to where a cluster of
//! characters that is drawn as one starts, never into it, and a cluster is
//! measured as the glyph it is drawn as.

use ropey::Rope;
use unicode_segmentation::UnicodeSegmentation;
use unicode_width::UnicodeWidthStr;
use vstd::prelude::*;
use vstd::slice::slice_subrange;
use crate::strings::{
    alphanumeric, char_is_alphanumeric, char_is_white, chars_of, is_white, string_of,
};
use crate::text::{rope_chars, rope_len, rope_string, utf16_upto};

verus! {

// ---- clusters ---------------------------------------------------------------

/// How many characters each extended grapheme cluster of a text has, in order.
pub uninterp spec fn cluster_lengths(s: Seq<char>) -> Seq<usize>;

/// How many columns a terminal draws a string in.
pub uninterp spec fn drawn_width(s: Seq<char>) -> usize;

/// The sum of the lengths from `k` on.
pub open spec fn total_from(lens: Seq<usize>, k: int) -> nat
    decreases lens.len() - k,
{
    if k < 0 || k >= lens.len() {
        0
    } else {
        lens[k] as nat + total_from(lens, k + 1)
    }
}

/// `UnicodeSegmentation::graphemes`, extended: the clusters of a string, as
/// the number of characters in each. Which they are is named; that they cut
/// the whole string up, none being empty, is stated.
#[verifier::external_body]
fn clusters(s: &str) -> (r: Vec<usize>)
    ensures
        r@ == cluster_lengths(s@),
        total_from(r@, 0) == s@.len(),
        forall|k: int| 0 <= k < r@.len() ==> #[trigger] r@[k] >= 1,
{
    s.graphemes(true).map(|g| g.chars().count()).collect()
}

/// `UnicodeWidthStr::width`: the columns of a string, by Unicode's tables,
/// which are not stated here.
#[verifier::external_body]
fn width_of(s: &str) -> (r: usize)
    ensures
        r == drawn_width(s@),
{
    s.width()
}

/// The end of the cluster that holds `pos`; cluster `k` starts at `at`. Past
/// the last cluster it is the end of the text.
pub open spec fn next_from(lens: Seq<usize>, k: int, at: int, pos: int) -> int
    decreases lens.len() - k,
{
    if k < 0 || k >= lens.len() {
        at
    } else if at + lens[k] > pos {
        at + lens[k]
    } else {
        next_from(lens, k + 1, at + lens[k], pos)
    }
}

/// The start of the last cluster that starts before `pos`.
pub open spec fn prev_from(lens: Seq<usize>, k: int, at: int, pos: int) -> int
    decreases lens.len() - k,
{
    if k < 0 || k >= lens.len() || at + lens[k] >= pos {
        at
    } else {
        prev_from(lens, k + 1, at + lens[k], pos)
    }
}

/// The start of the cluster that holds `pos`.
pub open spec fn floor_from(lens: Seq<usize>, k: int, at: int, pos: int) -> int
    decreases lens.len() - k,
{
    if k < 0 || k >= lens.len() || at + lens[k] > pos {
        at
    } else {
        floor_from(lens, k + 1, at + lens[k], pos)
    }
}

/// The first cluster boundary at or after `pos`.
pub open spec fn ceil_from(lens: Seq<usize>, k: int, at: int, pos: int) -> int
    decreases lens.len() - k,
{
    if k < 0 || k >= lens.len() || at >= pos {
        at
    } else {
        ceil_from(lens, k + 1, at + lens[k], pos)
    }
}

/// The boundary after `pos`: the end of its cluster, or of the text.
pub open spec fn next_boundary(s: Seq<char>, pos: int) -> int {
    next_from(cluster_lengths(s), 0, 0, pos)
}

/// The boundary before `pos`: the start of its cluster, or of the one that
/// ends there; 0 at the start.
pub open spec fn prev_boundary(s: Seq<char>, pos: int) -> int {
    prev_from(cluster_lengths(s), 0, 0, pos)
}

/// The last boundary at or before `pos`.
pub open spec fn floor_boundary(s: Seq<char>, pos: int) -> int {
    floor_from(cluster_lengths(s), 0, 0, pos)
}

/// The first boundary at or after `pos`.
pub open spec fn ceil_boundary(s: Seq<char>, pos: int) -> int {
    ceil_from(cluster_lengths(s), 0, 0, pos)
}

proof fn lemma_total_step(lens: Seq<usize>, k: int)
    requires
        0 <= k < lens.len(),
    ensures
        total_from(lens, k) == lens[k] + total_from(lens, k + 1),
{
}

/// The boundary after a position of `text`; it is in the text, and further on
/// unless the position is at its end.
pub fn next_grapheme_boundary(text: &Rope, pos: usize) -> (r: usize)
    ensures
        r == next_boundary(rope_chars(*text), pos as int),
        r <= rope_chars(*text).len(),
        pos < rope_chars(*text).len() ==> pos < r,
{
    let len = rope_len(text);
    let s = rope_string(text);
    let lens = clusters(s.as_str());
    let mut at: usize = 0;
    let mut k: usize = 0;
    while k < lens.len()
        invariant
            k <= lens@.len(),
            lens@ == cluster_lengths(rope_chars(*text)),
            len == rope_chars(*text).len(),
            at + total_from(lens@, k as int) == len,
            next_boundary(rope_chars(*text), pos as int) == next_from(
                lens@,
                k as int,
                at as int,
                pos as int,
            ),
            at <= pos || k == 0,
        decreases lens@.len() - k,
    {
        proof {
            lemma_total_step(lens@, k as int);
        }
        if at + lens[k] > pos {
            return at + lens[k];
        }
        at += lens[k];
        k += 1;
    }
    at
}

/// The boundary before a position of `text`; it is in the text, and before the
/// position unless that is 0.
pub fn prev_grapheme_boundary(text: &Rope, pos: usize) -> (r: usize)
    requires
        pos <= rope_chars(*text).len(),
    ensures
        r == prev_boundary(rope_chars(*text), pos as int),
        r <= pos,
        pos > 0 ==> r < pos,
{
    let len = rope_len(text);
    let s = rope_string(text);
    let lens = clusters(s.as_str());
    let mut at: usize = 0;
    let mut k: usize = 0;
    while k < lens.len()
        invariant
            k <= lens@.len(),
            lens@ == cluster_lengths(rope_chars(*text)),
            len == rope_chars(*text).len(),
            pos <= len,
            at + total_from(lens@, k as int) == len,
            prev_boundary(rope_chars(*text), pos as int) == prev_from(
                lens@,
                k as int,
                at as int,
                pos as int,
            ),
            at < pos || k == 0,
            k == 0 ==> at == 0,
        decreases lens@.len() - k,
    {
        proof {
            lemma_total_step(lens@, k as int);
        }
        if at + lens[k] >= pos {
            return at;
        }
        at += lens[k];
        k += 1;
    }
    at
}

/// The last boundary at or before a position of `text`.
pub fn grapheme_floor(text: &Rope, pos: usize) -> (r: usize)
    ensures
        r == floor_boundary(rope_chars(*text), pos as int),
        r <= pos,
        r <= rope_chars(*text).len(),
{
    let len = rope_len(text);
    let s = rope_string(text);
    let lens = clusters(s.as_str());
    let mut at: usize = 0;
    let mut k: usize = 0;
    while k < lens.len()
        invariant
            k <= lens@.len(),
            lens@ == cluster_lengths(rope_chars(*text)),
            len == rope_chars(*text).len(),
            at + total_from(lens@, k as int) == len,
            at <= pos,
            floor_boundary(rope_chars(*text), pos as int) == floor_from(
                lens@,
                k as int,
                at as int,
                pos as int,
            ),
        decreases lens@.len() - k,
    {
        proof {
            lemma_total_step(lens@, k as int);
        }
        if at + lens[k] > pos {
            return at;
        }
        at += lens[k];
        k += 1;
    }
    at
}

/// The first boundary at or after a position of `text`.
pub fn grapheme_ceil(text: &Rope, pos: usize) -> (r: usize)
    requires
        pos <= rope_chars(*text).len(),
    ensures
        r == ceil_boundary(rope_chars(*text), pos as int),
        pos <= r <= rope_chars(*text).len(),
{
    let len = rope_len(text);
    let s = rope_string(text);
    let lens = clusters(s.as_str());
    let mut at: usize = 0;
    let mut k: usize = 0;
    while k < lens.len()
        invariant
            k <= lens@.len(),
            lens@ == cluster_lengths(rope_chars(*text)),
            len == rope_chars(*text).len(),
            pos <= len,
            at + total_from(lens@, k as int) == len,
            ceil_boundary(rope_chars(*text), pos as int) == ceil_from(
                lens@,
                k as int,
                at as int,
                pos as int,
            ),
        decreases lens@.len() - k,
    {
        if at >= pos {
            return at;
        }
        proof {
            lemma_total_step(lens@, k as int);
        }
        at += lens[k];
        k += 1;
    }
    at
}

/// The last boundary at or before a position of a line.
pub fn cluster_floor(line: &[char], pos: usize) -> (r: usize)
    ensures
        r == floor_boundary(line@, pos as int),
        r <= pos,
{
    let n: usize = line.len();
    let s = string_of(line);
    let lens = clusters(s.as_str());
    let mut at: usize = 0;
    let mut k: usize = 0;
    while k < lens.len()
        invariant
            k <= lens@.len(),
            lens@ == cluster_lengths(line@),
            n == line@.len(),
            at + total_from(lens@, k as int) == line@.len(),
            at <= pos,
            floor_boundary(line@, pos as int) == floor_from(
                lens@,
                k as int,
                at as int,
                pos as int,
            ),
        decreases lens@.len() - k,
    {
        proof {
            lemma_total_step(lens@, k as int);
        }
        if at + lens[k] > pos {
            return at;
        }
        at += lens[k];
        k += 1;
    }
    at
}

pub proof fn lemma_floor_from(lens: Seq<usize>, k: int, at: int, pos: int)
    requires
        0 <= at <= pos,
    ensures
        at <= floor_from(lens, k, at, pos) <= pos,
        floor_from(lens, k, at, floor_from(lens, k, at, pos)) == floor_from(lens, k, at, pos),
    decreases lens.len() - k,
{
    if !(k < 0 || k >= lens.len() || at + lens[k] > pos) {
        lemma_floor_from(lens, k + 1, at + lens[k], pos);
    }
}

// ---- display columns --------------------------------------------------------

/// The width of a tab stop: at least one column.
pub open spec fn tab_stop(tab: usize) -> int {
    if tab == 0 {
        1
    } else {
        tab as int
    }
}

/// The columns that a cluster takes when it starts in column `col`: a tab
/// reaches to the next tab stop.
pub open spec fn columns_of(cluster: Seq<char>, col: int, tab: usize) -> int {
    if cluster.len() > 0 && cluster[0] == '\t' {
        tab_stop(tab) - col % tab_stop(tab)
    } else {
        drawn_width(cluster) as int
    }
}

/// The column reached before the first cluster that starts at or after
/// `target`; cluster `k` starts at `at`, in column `col`.
pub open spec fn column_from(
    line: Seq<char>,
    lens: Seq<usize>,
    k: int,
    at: int,
    col: int,
    target: int,
    tab: usize,
) -> int
    decreases lens.len() - k,
{
    if k < 0 || k >= lens.len() || at >= target {
        col
    } else {
        column_from(
            line,
            lens,
            k + 1,
            at + lens[k],
            col + columns_of(line.subrange(at, at + lens[k]), col, tab),
            target,
            tab,
        )
    }
}

/// The display column of the character `target` of a line.
pub open spec fn display_col(line: Seq<char>, target: int, tab: usize) -> int {
    column_from(line, cluster_lengths(line), 0, 0, 0, target, tab)
}

/// The first cluster that reaches over column `target`, or the end.
pub open spec fn char_at_column_from(
    line: Seq<char>,
    lens: Seq<usize>,
    k: int,
    at: int,
    col: int,
    target: int,
    tab: usize,
) -> int
    decreases lens.len() - k,
{
    if k < 0 || k >= lens.len() {
        at
    } else {
        let w = columns_of(line.subrange(at, at + lens[k]), col, tab);
        if col + w > target {
            at
        } else {
            char_at_column_from(line, lens, k + 1, at + lens[k], col + w, target, tab)
        }
    }
}

/// The character of a line drawn at a display column; its end where the line
/// is shorter.
pub open spec fn char_at_column(line: Seq<char>, target: int, tab: usize) -> int {
    char_at_column_from(line, cluster_lengths(line), 0, 0, 0, target, tab)
}

/// The columns of one cluster, or the largest number there is.
fn cluster_columns(line: &[char], from: usize, to: usize, col: usize, tab: usize) -> (r: usize)
    requires
        from <= to <= line@.len(),
    ensures
        r == columns_of(line@.subrange(from as int, to as int), col as int, tab),
{
    let part = slice_subrange(line, from, to);
    if part.len() > 0 && part[0] == '\t' {
        let stop: usize = if tab == 0 {
            1
        } else {
            tab
        };
        stop - col % stop
    } else {
        let s = string_of(part);
        width_of(s.as_str())
    }
}

/// The display column of the character `target` of a line: what is drawn
/// before it, a tab reaching to the next multiple of `tab`. A column that no
/// number can hold is given as the largest one.
pub fn char_to_display_col(line: &[char], target: usize, tab: usize) -> (r: usize)
    ensures
        r as int == capped_col(display_col(line@, target as int, tab)),
{
    let s = string_of(line);
    let lens = clusters(s.as_str());
    let n: usize = line.len();
    let mut at: usize = 0;
    let mut col: usize = 0;
    let mut k: usize = 0;
    while k < lens.len() && at < target
        invariant
            k <= lens@.len(),
            n == line@.len(),
            lens@ == cluster_lengths(line@),
            at + total_from(lens@, k as int) == line@.len(),
            display_col(line@, target as int, tab) == column_from(
                line@,
                lens@,
                k as int,
                at as int,
                col as int,
                target as int,
                tab,
            ),
        decreases lens@.len() - k,
    {
        proof {
            lemma_total_step(lens@, k as int);
        }
        let w = cluster_columns(line, at, at + lens[k], col, tab);
        proof {
            lemma_column_grows(
                line@,
                lens@,
                k + 1,
                at + lens@[k as int],
                col + w,
                target as int,
                tab,
            );
        }
        if usize::MAX - col < w {
            return usize::MAX;
        }
        at += lens[k];
        col += w;
        k += 1;
    }
    col
}

/// `n`, or the largest column there is.
pub open spec fn capped_col(n: int) -> int {
    if n > usize::MAX {
        usize::MAX as int
    } else {
        n
    }
}

pub proof fn lemma_column_grows(
    line: Seq<char>,
    lens: Seq<usize>,
    k: int,
    at: int,
    col: int,
    target: int,
    tab: usize,
)
    requires
        0 <= col,
    ensures
        col <= column_from(line, lens, k, at, col, target, tab),
    decreases lens.len() - k,
{
    if !(k < 0 || k >= lens.len() || at >= target) {
        let w = columns_of(line.subrange(at, at + lens[k]), col, tab);
        assert(0 <= w) by {
            let stop = tab_stop(tab);
            assert(col % stop < stop) by (nonlinear_arith)
                requires
                    stop > 0,
            ;
        }
        lemma_column_grows(line, lens, k + 1, at + lens[k], col + w, target, tab);
    }
}

/// The character of a line drawn at a display column; its end where the line
/// is shorter.
pub fn display_col_to_char(line: &[char], target: usize, tab: usize) -> (r: usize)
    ensures
        r == char_at_column(line@, target as int, tab),
        r <= line@.len(),
{
    let s = string_of(line);
    let lens = clusters(s.as_str());
    let n: usize = line.len();
    let mut at: usize = 0;
    let mut col: usize = 0;
    let mut k: usize = 0;
    while k < lens.len()
        invariant
            k <= lens@.len(),
            n == line@.len(),
            lens@ == cluster_lengths(line@),
            col <= target,
            at + total_from(lens@, k as int) == line@.len(),
            char_at_column(line@, target as int, tab) == char_at_column_from(
                line@,
                lens@,
                k as int,
                at as int,
                col as int,
                target as int,
                tab,
            ),
        decreases lens@.len() - k,
    {
        proof {
            lemma_total_step(lens@, k as int);
        }
        let w = cluster_columns(line, at, at + lens[k], col, tab);
        if target - col < w {
            return at;
        }
        at += lens[k];
        col += w;
        k += 1;
    }
    at
}

/// The display column of the character `to` in a row that starts with the
/// character `from`.
pub open spec fn row_col(line: Seq<char>, from: int, to: int, tab: usize) -> int {
    display_col(line.skip(from), to - from, tab)
}

/// The display column of the character `to` in a row that starts with `from`.
pub fn display_col_between(line: &[char], from: usize, to: usize, tab: usize) -> (r: usize)
    requires
        from <= line@.len(),
        from <= to,
    ensures
        r as int == capped_col(row_col(line@, from as int, to as int, tab)),
{
    let row = slice_subrange(line, from, line.len());
    assert(row@ =~= line@.skip(from as int));
    char_to_display_col(row, to - from, tab)
}

/// The character drawn at column `col` of the row `start..end`, or its end.
pub open spec fn row_char(line: Seq<char>, start: int, end: int, col: int, tab: usize) -> int {
    start + char_at_column(line.subrange(start, end), col, tab)
}

/// The character drawn at column `col` of the row `start..end`, or its end.
pub fn display_col_to_char_between(
    line: &[char],
    start: usize,
    end: usize,
    col: usize,
    tab: usize,
) -> (r: usize)
    requires
        start <= end <= line@.len(),
    ensures
        r == row_char(line@, start as int, end as int, col as int, tab),
        start <= r <= end,
{
    let row = slice_subrange(line, start, end);
    let at = display_col_to_char(row, col, tab);
    start + at
}

// ---- soft wrap --------------------------------------------------------------

/// Where the row that starts at `start` ends, if it does not hold the rest of
/// the line: cluster `k` starts at `at`, in column `col` of the row, and
/// `space` is the place behind the row's last white space, or `start`. A row
/// ends behind its last word, or, where one word fills it, at its edge; it
/// holds at least one cluster.
pub open spec fn row_break(
    line: Seq<char>,
    lens: Seq<usize>,
    k: int,
    at: int,
    col: int,
    start: int,
    space: int,
    width: int,
    tab: usize,
) -> Option<int>
    decreases lens.len() - k,
{
    if k < 0 || k >= lens.len() {
        None
    } else {
        let e = at + lens[k];
        let w = columns_of(line.subrange(at, e), col, tab);
        if col + w > width && at > start {
            Some(
                if space > start {
                    space
                } else {
                    at
                },
            )
        } else {
            row_break(
                line,
                lens,
                k + 1,
                e,
                col + w,
                start,
                if lens[k] > 0 && is_white(line[at]) {
                    e
                } else {
                    space
                },
                width,
                tab,
            )
        }
    }
}

/// The rows of a line from the one that starts at `start` on.
pub open spec fn rows_from(line: Seq<char>, start: int, width: int, tab: usize) -> Seq<int>
    decreases line.len() - start,
{
    let rest = line.skip(start);
    match row_break(rest, cluster_lengths(rest), 0, 0, 0, 0, 0, width, tab) {
        Some(b) => if 0 <= start && 0 < b && start + b < line.len() {
            seq![start] + rows_from(line, start + b, width, tab)
        } else {
            seq![start]
        },
        None => seq![start],
    }
}

/// Where the rows of a soft-wrapped line start.
pub open spec fn wrapped_rows(line: Seq<char>, width: int, tab: usize) -> Seq<int> {
    rows_from(line, 0, width, tab)
}

pub open spec fn ints(v: Seq<usize>) -> Seq<int> {
    Seq::new(v.len(), |i: int| v[i] as int)
}

/// Where the first row of `line` ends, if it does not hold all of it.
fn first_row_end(line: &[char], width: usize, tab: usize) -> (r: Option<usize>)
    ensures
        match r {
            Some(b) => row_break(line@, cluster_lengths(line@), 0, 0, 0, 0, 0, width as int, tab)
                == Some(b as int) && 0 < b < line@.len(),
            None => row_break(line@, cluster_lengths(line@), 0, 0, 0, 0, 0, width as int, tab)
                is None,
        },
{
    let s = string_of(line);
    let lens = clusters(s.as_str());
    let mut at: usize = 0;
    let mut col: usize = 0;
    let mut space: usize = 0;
    let mut k: usize = 0;
    let n: usize = line.len();
    while k < lens.len()
        invariant
            k <= lens@.len(),
            n == line@.len(),
            k == 0 ==> col == 0 && at == 0,
            lens@ == cluster_lengths(line@),
            forall|j: int| 0 <= j < lens@.len() ==> #[trigger] lens@[j] >= 1,
            at + total_from(lens@, k as int) == line@.len(),
            space <= at,
            k > 0 ==> at > 0,
            row_break(line@, lens@, 0, 0, 0, 0, 0, width as int, tab) == row_break(
                line@,
                lens@,
                k as int,
                at as int,
                col as int,
                0,
                space as int,
                width as int,
                tab,
            ),
            col <= width || k <= 1,
        decreases lens@.len() - k,
    {
        proof {
            lemma_total_step(lens@, k as int);
        }
        assert(lens@[k as int] >= 1);
        let e: usize = at + lens[k];
        let w = cluster_columns(line, at, e, col, tab);
        if at > 0 && (col > width || width - col < w) {
            if space > 0 {
                return Some(space);
            }
            return Some(at);
        }
        if char_is_white(line[at]) {
            space = e;
        }
        col = if k == 0 {
            w
        } else {
            col + w
        };
        at = e;
        k += 1;
    }
    None
}

/// Where the rows of a line that is wrapped at `width` columns start: at
/// word boundaries, or at the edge inside a word longer than a row.
pub fn wrap_offsets(line: &[char], width: usize, tab: usize) -> (out: Vec<usize>)
    ensures
        ints(out@) == wrapped_rows(line@, width as int, tab),
        out@.len() >= 1,
        out@[0] == 0,
        forall|i: int, j: int| 0 <= i < j < out@.len() ==> out@[i] < out@[j],
        forall|i: int| 0 < i < out@.len() ==> #[trigger] out@[i] < line@.len(),
{
    let mut out: Vec<usize> = Vec::new();
    let mut start: usize = 0;
    out.push(0);
    assert(ints(out@).drop_last() + wrapped_rows(line@, width as int, tab) =~= wrapped_rows(
        line@,
        width as int,
        tab,
    ));
    loop
        invariant
            out@.len() >= 1,
            out@[0] == 0,
            start <= line@.len(),
            out@.last() == start,
            start > 0 ==> start < line@.len(),
            forall|i: int, j: int| 0 <= i < j < out@.len() ==> out@[i] < out@[j],
            forall|i: int| 0 < i < out@.len() ==> #[trigger] out@[i] < line@.len(),
            ints(out@).drop_last() + rows_from(line@, start as int, width as int, tab)
                == wrapped_rows(line@, width as int, tab),
        decreases line@.len() - start,
    {
        let rest = slice_subrange(line, start, line.len());
        assert(rest@ =~= line@.skip(start as int));
        let ghost had = ints(out@);
        match first_row_end(rest, width, tab) {
            Some(b) => {
                let next: usize = start + b;
                let ghost rows = rows_from(line@, next as int, width as int, tab);
                assert(rows_from(line@, start as int, width as int, tab) =~= seq![start as int]
                    + rows);
                out.push(next);
                assert(ints(out@).drop_last() =~= had);
                assert(had =~= had.drop_last().push(start as int));
                assert(had.drop_last() + (seq![start as int] + rows) =~= had + rows);
                start = next;
            },
            None => {
                assert(had.drop_last() + seq![start as int] =~= had);
                return out;
            },
        }
    }
}

// ---- UTF-16 columns ---------------------------------------------------------

/// The UTF-16 column of the character `col` of a line; past its end, of its
/// end. A column that no number can hold is given as the largest one.
pub fn char_to_utf16(line: &[char], col: usize) -> (r: usize)
    ensures
        r as int == capped_col(
            utf16_upto(
                line@,
                if col <= line@.len() {
                    col as int
                } else {
                    line@.len() as int
                },
            ) as int,
        ),
{
    let end: usize = if col <= line.len() {
        col
    } else {
        line.len()
    };
    let mut r: usize = 0;
    let mut i: usize = 0;
    while i < end
        invariant
            i <= end <= line@.len(),
            r as int == capped_col(utf16_upto(line@, i as int) as int),
        decreases end - i,
    {
        let n: usize = if line[i] as u32 >= 0x10000 {
            2
        } else {
            1
        };
        r = r.saturating_add(n);
        i += 1;
    }
    r
}

/// The first character at or after `i` by whose end `target` UTF-16 units
/// have passed; `units` have before `i`.
pub open spec fn utf16_char_from(line: Seq<char>, i: int, units: int, target: int) -> int
    decreases line.len() - i,
{
    if i < 0 || i >= line.len() || units >= target {
        i
    } else {
        utf16_char_from(
            line,
            i + 1,
            units + if line[i] as u32 >= 0x10000 {
                2int
            } else {
                1int
            },
            target,
        )
    }
}

/// The character of a line at a UTF-16 column; its end where the line is
/// shorter.
pub open spec fn utf16_char(line: Seq<char>, target: int) -> int {
    utf16_char_from(line, 0, 0, target)
}

proof fn lemma_utf16_reaches(line: Seq<char>, i: int, k: int)
    requires
        0 <= k <= i <= line.len(),
    ensures
        utf16_char_from(line, k, utf16_upto(line, k) as int, utf16_upto(line, i) as int) == i,
    decreases i - k,
{
    crate::text::lemma_utf16_grows(line, k, i);
    if k < i {
        crate::text::lemma_utf16_grows(line, k + 1, i);
        lemma_utf16_reaches(line, i, k + 1);
    }
}

/// A character of a line, or its end, is found again at its UTF-16 column.
pub proof fn law_utf16_columns_lead_back(line: Seq<char>, i: int)
    requires
        0 <= i <= line.len(),
    ensures
        utf16_char(line, utf16_upto(line, i) as int) == i,
{
    lemma_utf16_reaches(line, i, 0);
}

/// The character of a line at a UTF-16 column; its end where the line is
/// shorter.
pub fn utf16_to_char(line: &[char], target: usize) -> (r: usize)
    ensures
        r == utf16_char(line@, target as int),
        r <= line@.len(),
{
    let mut units: usize = 0;
    let mut i: usize = 0;
    while i < line.len() && units < target
        invariant
            i <= line@.len(),
            utf16_char(line@, target as int) == utf16_char_from(
                line@,
                i as int,
                units as int,
                target as int,
            ),
            units <= usize::MAX,
        decreases line@.len() - i,
    {
        let n: usize = if line[i] as u32 >= 0x10000 {
            2
        } else {
            1
        };
        if target - units < n {
            assert(utf16_char_from(line@, i + 1, units + n, target as int) == i + 1);
            return i + 1;
        }
        units += n;
        i += 1;
    }
    i
}

// ---- classes of characters --------------------------------------------------

#[derive(Clone, Copy, PartialEq, Eq, Structural, Debug)]
pub enum CharClass {
    Whitespace,
    Word,
    Punctuation,
}

/// What a word motion takes a character for.
pub open spec fn class_of(c: char) -> CharClass {
    if is_white(c) {
        CharClass::Whitespace
    } else if alphanumeric(c) || c == '_' {
        CharClass::Word
    } else {
        CharClass::Punctuation
    }
}

/// What a word motion takes a place of a text for: a cluster goes by its first
/// character.
pub open spec fn class_at(s: Seq<char>, pos: int) -> CharClass {
    class_of(s[floor_boundary(s, pos)])
}

/// What a word motion takes each place of a text for.
pub fn classes_of(text: &Rope) -> (r: Vec<CharClass>)
    ensures
        r@.len() == rope_chars(*text).len(),
        forall|i: int| 0 <= i < r@.len() ==> #[trigger] r@[i] == class_at(rope_chars(*text), i),
{
    let ghost all = rope_chars(*text);
    let s = rope_string(text);
    let chars = chars_of(s.as_str());
    let n: usize = chars.len();
    let lens = clusters(s.as_str());
    let mut out: Vec<CharClass> = Vec::new();
    let mut k: usize = 0;
    while k < lens.len()
        invariant
            k <= lens@.len(),
            lens@ == cluster_lengths(all),
            chars@ == all,
            n == all.len(),
            forall|j: int| 0 <= j < lens@.len() ==> #[trigger] lens@[j] >= 1,
            out@.len() + total_from(lens@, k as int) == all.len(),
            forall|i: int| 0 <= i < out@.len() ==> #[trigger] out@[i] == class_at(all, i),
            forall|i: int|
                out@.len() <= i ==> #[trigger] floor_boundary(all, i) == floor_from(
                    lens@,
                    k as int,
                    out@.len() as int,
                    i,
                ),
        decreases lens@.len() - k,
    {
        let ghost at = out@.len() as int;
        proof {
            lemma_total_step(lens@, k as int);
            assert(lens@[k as int] >= 1);
        }
        let end: usize = out.len() + lens[k];
        let class = classify(chars[out.len()]);
        while out.len() < end
            invariant
                at <= out@.len() <= end <= all.len(),
                end == at + lens@[k as int],
                0 <= k < lens@.len(),
                class == class_of(all[at]),
                forall|i: int| 0 <= i < out@.len() ==> #[trigger] out@[i] == class_at(all, i),
                forall|i: int|
                    at <= i ==> #[trigger] floor_boundary(all, i) == floor_from(
                        lens@,
                        k as int,
                        at,
                        i,
                    ),
            decreases end - out@.len(),
        {
            assert(floor_boundary(all, out@.len() as int) == at);
            out.push(class);
        }
        k += 1;
    }
    out
}

pub fn classify(c: char) -> (r: CharClass)
    ensures
        r == class_of(c),
{
    if char_is_white(c) {
        CharClass::Whitespace
    } else if char_is_alphanumeric(c) || c == '_' {
        CharClass::Word
    } else {
        CharClass::Punctuation
    }
}

} // verus!
