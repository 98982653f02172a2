//! A text as the lines it is made of: what can be said of each line by itself
//! holds of the text.

use vstd::prelude::*;
use crate::text::{
    content_len, ends_line, is_break, lemma_line_of_grows, lemma_line_start, lemma_line_start_grows,
    line_of, line_start, line_text, lines_in,
};

verus! {

/// The first `n` of some texts, one behind the other.
pub open spec fn joined_upto(ps: Seq<Seq<char>>, n: nat) -> Seq<char>
    decreases n,
{
    if n == 0 || n > ps.len() {
        Seq::empty()
    } else {
        joined_upto(ps, (n - 1) as nat) + ps[n - 1]
    }
}

/// Whether a text is one line with its ending: it ends with a break, and has
/// no other, but for the `\r` of a `\r\n`.
pub open spec fn is_whole_line(p: Seq<char>) -> bool {
    &&& p.len() > 0 && is_break(p.last())
    &&& forall|k: int|
        0 <= k < p.len() - 1 && is_break(#[trigger] p[k]) ==> k == p.len() - 2 && p[k] == '\r'
            && p.last() == '\n'
}

/// Whether texts are the lines of one: each but the last ends, the last does
/// not, and no `\r` at the end of one joins a `\n` at the start of the next.
pub open spec fn are_lines(ps: Seq<Seq<char>>) -> bool {
    &&& ps.len() > 0
    &&& forall|l: int| 0 <= l < ps.len() - 1 ==> is_whole_line(#[trigger] ps[l])
    &&& forall|k: int| 0 <= k < ps.last().len() ==> !is_break(#[trigger] ps.last()[k])
    &&& forall|l: int|
        0 <= l < ps.len() - 1 && (#[trigger] ps[l]).last() == '\r' ==> ps[l + 1].len() == 0
            || ps[l + 1][0] != '\n'
}

/// The lines of a text, each with its ending.
pub open spec fn lines_of(s: Seq<char>) -> Seq<Seq<char>> {
    Seq::new(lines_in(s), |l: int| line_text(s, l))
}

pub proof fn lemma_joined_grows(ps: Seq<Seq<char>>, a: nat, b: nat)
    requires
        a <= b <= ps.len(),
    ensures
        joined_upto(ps, a).len() <= joined_upto(ps, b).len(),
        joined_upto(ps, b).take(joined_upto(ps, a).len() as int) == joined_upto(ps, a),
    decreases b,
{
    if a < b {
        lemma_joined_grows(ps, a, (b - 1) as nat);
        let x = joined_upto(ps, a);
        let y = joined_upto(ps, (b - 1) as nat);
        assert(joined_upto(ps, b).take(x.len() as int) =~= y.take(x.len() as int));
    } else {
        assert(joined_upto(ps, b).take(joined_upto(ps, a).len() as int) =~= joined_upto(ps, a));
    }
}

/// A character of the `l`th text stands in all of them, behind those before.
pub proof fn lemma_joined_at(ps: Seq<Seq<char>>, l: int, j: int)
    requires
        0 <= l < ps.len(),
        0 <= j < ps[l].len(),
    ensures
        joined_upto(ps, l as nat).len() + j < joined_upto(ps, ps.len()).len(),
        joined_upto(ps, ps.len())[joined_upto(ps, l as nat).len() + j] == ps[l][j],
{
    let all = joined_upto(ps, ps.len());
    let x = joined_upto(ps, l as nat);
    let y = joined_upto(ps, (l + 1) as nat);
    lemma_joined_grows(ps, (l + 1) as nat, ps.len());
    assert(y =~= x + ps[l]);
    assert(all.take(y.len() as int)[x.len() + j] == y[x.len() + j]);
}

proof fn lemma_ends(ps: Seq<Seq<char>>, l: int, j: int)
    requires
        are_lines(ps),
        0 <= l < ps.len(),
        0 <= j < ps[l].len(),
    ensures
        ends_line(joined_upto(ps, ps.len()), joined_upto(ps, l as nat).len() + j) == (l < ps.len()
            - 1 && j == ps[l].len() - 1),
{
    let all = joined_upto(ps, ps.len());
    let x = joined_upto(ps, l as nat).len() as int;
    lemma_joined_at(ps, l, j);
    if l < ps.len() - 1 {
        assert(is_whole_line(ps[l]));
        if j < ps[l].len() - 1 {
            lemma_joined_at(ps, l, j + 1);
        } else {
            assert(joined_upto(ps, (l + 1) as nat) =~= joined_upto(ps, l as nat) + ps[l]);
            if ps[l + 1].len() > 0 {
                lemma_joined_at(ps, l + 1, 0);
            } else {
                assert(l + 1 == ps.len() - 1) by {
                    if l + 1 < ps.len() - 1 {
                        assert(is_whole_line(ps[l + 1]));
                    }
                }
                assert(all =~= joined_upto(ps, (l + 1) as nat));
            }
        }
    } else {
        assert(!is_break(ps.last()[j]));
    }
}

/// Which line each character of a text made of lines is on.
pub proof fn lemma_on_piece(ps: Seq<Seq<char>>, l: int, j: int)
    requires
        are_lines(ps),
        0 <= l < ps.len(),
        0 <= j <= ps[l].len(),
        j == ps[l].len() ==> l == ps.len() - 1,
    ensures
        line_of(joined_upto(ps, ps.len()), joined_upto(ps, l as nat).len() + j) == l,
    decreases l, j,
{
    let all = joined_upto(ps, ps.len());
    let x = joined_upto(ps, l as nat).len() as int;
    if j > 0 {
        lemma_on_piece(ps, l, j - 1);
        lemma_ends(ps, l, j - 1);
    } else if l > 0 {
        assert(is_whole_line(ps[l - 1]));
        let last = ps[l - 1].len() - 1;
        lemma_on_piece(ps, l - 1, last);
        lemma_ends(ps, l - 1, last);
        assert(joined_upto(ps, l as nat) =~= joined_upto(ps, (l - 1) as nat) + ps[l - 1]);
    }
}

/// A text made of lines has these lines.
pub proof fn lemma_lines_joined(ps: Seq<Seq<char>>)
    requires
        are_lines(ps),
    ensures
        lines_in(joined_upto(ps, ps.len())) == ps.len(),
        forall|l: int|
            0 <= l < ps.len() ==> #[trigger] line_start(joined_upto(ps, ps.len()), l)
                == joined_upto(ps, l as nat).len(),
        forall|l: int|
            0 <= l < ps.len() ==> #[trigger] line_text(joined_upto(ps, ps.len()), l) == ps[l],
        lines_of(joined_upto(ps, ps.len())) == ps,
{
    let all = joined_upto(ps, ps.len());
    let n = ps.len() as int;
    lemma_on_piece(ps, n - 1, ps.last().len() as int);
    assert(all =~= joined_upto(ps, (n - 1) as nat) + ps.last());
    assert(lines_in(all) == n);
    assert forall|l: int| 0 <= l < n implies #[trigger] line_start(all, l) == joined_upto(
        ps,
        l as nat,
    ).len() by {
        lemma_start_joined(ps, l);
    }
    assert forall|l: int| 0 <= l < n implies #[trigger] line_text(all, l) == ps[l] by {
        lemma_start_joined(ps, l);
        let a = joined_upto(ps, l as nat);
        let b = joined_upto(ps, (l + 1) as nat);
        assert(b =~= a + ps[l]);
        if l + 1 < n {
            lemma_start_joined(ps, l + 1);
        } else {
            lemma_line_start(all, n);
        }
        lemma_joined_grows(ps, (l + 1) as nat, ps.len());
        assert(all.subrange(a.len() as int, b.len() as int) =~= all.take(b.len() as int).skip(
            a.len() as int,
        ));
        assert(b.skip(a.len() as int) =~= ps[l]);
    }
    assert(lines_of(all) =~= ps);
}

proof fn lemma_start_joined(ps: Seq<Seq<char>>, l: int)
    requires
        are_lines(ps),
        0 <= l < ps.len(),
        lines_in(joined_upto(ps, ps.len())) == ps.len(),
    ensures
        line_start(joined_upto(ps, ps.len()), l) == joined_upto(ps, l as nat).len(),
{
    let all = joined_upto(ps, ps.len());
    let x = joined_upto(ps, l as nat).len() as int;
    lemma_line_start(all, l);
    lemma_joined_grows(ps, l as nat, ps.len());
    if l < ps.len() - 1 {
        assert(is_whole_line(ps[l]));
    }
    lemma_on_piece(ps, l, 0);
    let p = line_start(all, l);
    if p < x {
        assert(is_whole_line(ps[l - 1]));
        let last = ps[l - 1].len() - 1;
        lemma_on_piece(ps, l - 1, last);
        assert(joined_upto(ps, l as nat) =~= joined_upto(ps, (l - 1) as nat) + ps[l - 1]);
        lemma_line_of_grows(all, p, x - 1);
    } else if p > x {
        assert(line_of(all, x) < l);
    }
}

/// The text before a line is its lines up to there.
pub proof fn lemma_joined_take(s: Seq<char>, n: nat)
    requires
        n <= lines_in(s),
    ensures
        joined_upto(lines_of(s), n) == s.take(line_start(s, n as int)),
    decreases n,
{
    lemma_line_start(s, n as int);
    if n > 0 {
        lemma_joined_take(s, (n - 1) as nat);
        lemma_line_start(s, n - 1);
        lemma_line_start_grows(s, n - 1, n as int);
        assert(s.take(line_start(s, n - 1)) + line_text(s, n - 1) =~= s.take(
            line_start(s, n as int),
        ));
    } else {
        assert(line_start(s, 0) == 0);
        assert(s.take(0) =~= Seq::empty());
    }
}

proof fn lemma_in_line(s: Seq<char>, l: int, k: int)
    requires
        0 <= l < lines_in(s),
        line_start(s, l) <= k < line_start(s, l + 1),
    ensures
        line_of(s, k) == l,
        ends_line(s, k) == (k == line_start(s, l + 1) - 1 && l + 1 < lines_in(s)),
{
    lemma_line_start(s, l);
    lemma_line_start(s, l + 1);
    lemma_line_of_grows(s, line_start(s, l), k);
    assert(line_of(s, k) < l + 1);
    let e = line_start(s, l + 1);
    if k + 1 < e {
        assert(line_of(s, k + 1) < l + 1);
        lemma_line_of_grows(s, k, k + 1);
    } else if l + 1 < lines_in(s) {
        assert(line_of(s, e) == l + 1);
    } else {
        assert(e == s.len());
        assert(line_of(s, e) == l);
    }
}

/// Every text is made of its lines.
pub proof fn lemma_made_of_lines(s: Seq<char>)
    ensures
        are_lines(lines_of(s)),
        joined_upto(lines_of(s), lines_in(s)) == s,
{
    let ps = lines_of(s);
    let n = ps.len() as int;
    lemma_joined_take(s, lines_in(s));
    lemma_line_start(s, n);
    assert(s.take(s.len() as int) =~= s);
    assert forall|l: int| 0 <= l < n - 1 implies is_whole_line(#[trigger] ps[l]) && (ps[l].last()
        == '\r' ==> ps[l + 1].len() == 0 || ps[l + 1][0] != '\n') by {
        let a = line_start(s, l);
        let b = line_start(s, l + 1);
        lemma_line_start(s, l);
        lemma_line_start(s, l + 1);
        lemma_line_start(s, l + 2);
        lemma_line_start_grows(s, l, l + 1);
        lemma_line_start_grows(s, l + 1, l + 2);
        assert(a < b);
        lemma_in_line(s, l, b - 1);
        assert(ps[l].last() == s[b - 1]);
        assert forall|k: int| 0 <= k < ps[l].len() - 1 && is_break(#[trigger] ps[l][k]) implies k
            == ps[l].len() - 2 && ps[l][k] == '\r' && ps[l].last() == '\n' by {
            lemma_in_line(s, l, a + k);
            lemma_in_line(s, l, a + k + 1);
            assert(ps[l][k] == s[a + k]);
        }
        if ps[l + 1].len() > 0 {
            assert(ps[l + 1][0] == s[b]);
        }
    }
    let a = line_start(s, n - 1);
    lemma_line_start(s, n - 1);
    lemma_line_start_grows(s, n - 1, n);
    assert forall|k: int| 0 <= k < ps.last().len() implies !is_break(#[trigger] ps.last()[k]) by {
        assert(ps.last()[k] == s[a + k]);
        lemma_in_line(s, n - 1, a + k);
        if a + k + 1 < s.len() {
            lemma_in_line(s, n - 1, a + k + 1);
        }
    }
}

/// What a line has before its ending, and the ending.
pub proof fn lemma_ending(s: Seq<char>, line: int)
    requires
        0 <= line < lines_in(s),
    ensures
        0 <= content_len(line_text(s, line)) <= line_text(s, line).len(),
        forall|k: int|
            0 <= k < content_len(line_text(s, line)) ==> !is_break(#[trigger] line_text(s, line)[k]),
        forall|k: int|
            content_len(line_text(s, line)) <= k < line_text(s, line).len() ==> is_break(
                #[trigger] line_text(s, line)[k],
            ),
{
    lemma_made_of_lines(s);
    let ps = lines_of(s);
    let t = line_text(s, line);
    assert(ps[line] == t);
    if line < ps.len() - 1 {
        assert(is_whole_line(ps[line]));
    } else {
        assert(ps.last() == t);
    }
    assert forall|k: int| 0 <= k < content_len(t) implies !is_break(#[trigger] t[k]) by {
        if line == ps.len() - 1 {
            assert(!is_break(ps.last()[k]));
        }
    }
    if t.len() > 0 && line == ps.len() - 1 {
        assert(!is_break(ps.last()[t.len() - 1]));
    }
}

} // verus!
