//! What a picker finds, and in which order.

use vstd::prelude::*;
use crate::picker::{occurs, ranked, ranked_upto, score_of, with_place};
use crate::strings::{ascii_lower_all, find_sub_from, stands_at};

verus! {

/// Whether some places of a text hold the characters of a query from `j` on,
/// one after the other, the first at `i` or behind it.
pub open spec fn are_places(t: Seq<char>, q: Seq<char>, f: Seq<int>, i: int, j: int) -> bool {
    &&& f.len() == q.len() - j
    &&& forall|k: int| 0 <= k < f.len() ==> i <= #[trigger] f[k] < t.len() && t[f[k]] == q[j + k]
    &&& forall|k: int, l: int| 0 <= k < l < f.len() ==> #[trigger] f[k] < #[trigger] f[l]
}

proof fn lemma_occurs(t: Seq<char>, q: Seq<char>, i: int, j: int) -> (f: Seq<int>)
    requires
        0 <= i,
        0 <= j <= q.len(),
        occurs(t, q, i, j),
    ensures
        are_places(t, q, f, i, j),
    decreases t.len() - i,
{
    if j >= q.len() {
        Seq::empty()
    } else if t[i] == q[j] {
        let g = lemma_occurs(t, q, i + 1, j + 1);
        let f = seq![i] + g;
        assert forall|k: int| 0 <= k < f.len() implies i <= #[trigger] f[k] < t.len() && t[f[k]]
            == q[j + k] by {
            if k > 0 {
                assert(f[k] == g[k - 1]);
            }
        }
        assert forall|k: int, l: int| 0 <= k < l < f.len() implies #[trigger] f[k]
            < #[trigger] f[l] by {
            assert(f[l] == g[l - 1]);
            if k > 0 {
                assert(f[k] == g[k - 1]);
            }
        }
        f
    } else {
        lemma_occurs(t, q, i + 1, j)
    }
}

proof fn lemma_placed_occurs(t: Seq<char>, q: Seq<char>, f: Seq<int>, i: int, j: int)
    requires
        0 <= i <= t.len(),
        0 <= j <= q.len(),
        are_places(t, q, f, i, j),
    ensures
        occurs(t, q, i, j),
    decreases t.len() - i,
{
    if j < q.len() {
        assert(i <= f[0] < t.len() && t[f[0]] == q[j]);
        if t[i] == q[j] {
            let g = f.skip(1);
            assert forall|k: int| 0 <= k < g.len() implies i + 1 <= #[trigger] g[k] < t.len()
                && t[g[k]] == q[j + 1 + k] by {
                assert(g[k] == f[k + 1]);
                assert(f[0] < f[k + 1]);
            }
            assert forall|k: int, l: int| 0 <= k < l < g.len() implies #[trigger] g[k]
                < #[trigger] g[l] by {
                assert(g[k] == f[k + 1] && g[l] == f[l + 1]);
            }
            lemma_placed_occurs(t, q, g, i + 1, j + 1);
        } else {
            assert forall|k: int| 0 <= k < f.len() implies i + 1 <= #[trigger] f[k] by {
                if k > 0 {
                    assert(f[0] < f[k]);
                }
            }
            lemma_placed_occurs(t, q, f, i + 1, j);
        }
    }
}

proof fn lemma_find_sub(t: Seq<char>, q: Seq<char>, i: int)
    requires
        0 <= i,
    ensures
        ({
            let k = find_sub_from(t, q, i);
            if k >= 0 {
                i <= k && stands_at(t, q, k) && forall|j: int| i <= j < k ==> !#[trigger] stands_at(
                    t,
                    q,
                    j,
                )
            } else {
                forall|j: int| i <= j ==> !#[trigger] stands_at(t, q, j)
            }
        }),
    decreases t.len() - i,
{
    if i < t.len() && !stands_at(t, q, i) {
        lemma_find_sub(t, q, i + 1);
    }
}

/// Whether a query's characters occur in a text in their order, whatever the
/// case of the letters.
pub open spec fn is_matched(query: Seq<char>, text: Seq<char>) -> bool {
    exists|f: Seq<int>| #[trigger]
        are_places(ascii_lower_all(text), ascii_lower_all(query), f, 0, 0)
}

proof fn lemma_stands_is_matched(t: Seq<char>, q: Seq<char>, k: int)
    requires
        stands_at(t, q, k),
    ensures
        are_places(t, q, Seq::new(q.len(), |i: int| k + i), 0, 0),
{
    let f = Seq::new(q.len(), |i: int| k + i);
    assert forall|i: int| 0 <= i < f.len() implies 0 <= #[trigger] f[i] < t.len() && t[f[i]] == q[0
        + i] by {
        assert(t.subrange(k, k + q.len())[i] == q[i]);
    }
}

/// A query matches a text exactly when its characters occur in it in order.
/// Where it stands in it as it is, it scores by how early and how short the
/// text is; else by how short alone, below any that has it near its start.
pub proof fn law_a_query_matches_in_order(query: Seq<char>, text: Seq<char>, k: int)
    requires
        query.len() > 0,
    ensures
        score_of(query, text) is Some <==> is_matched(query, text),
        ({
            let q = ascii_lower_all(query);
            let t = ascii_lower_all(text);
            &&& stands_at(t, q, k) && (forall|j: int| 0 <= j < k ==> !#[trigger] stands_at(t, q, j))
                ==> score_of(query, text) == Some(1000 - 10 * k - text.len())
            &&& is_matched(query, text) && (forall|j: int| 0 <= j ==> !#[trigger] stands_at(t, q, j))
                ==> score_of(query, text) == Some(-(text.len() as int))
        }),
{
    reveal(score_of);
    let q = ascii_lower_all(query);
    let t = ascii_lower_all(text);
    lemma_find_sub(t, q, 0);
    let x = find_sub_from(t, q, 0);
    if x >= 0 {
        lemma_stands_is_matched(t, q, x);
        assert(is_matched(query, text));
    }
    if occurs(t, q, 0, 0) {
        let f = lemma_occurs(t, q, 0, 0);
        assert(are_places(t, q, f, 0, 0));
    }
    if is_matched(query, text) {
        let f = choose|f: Seq<int>| #[trigger] are_places(t, q, f, 0, 0);
        lemma_placed_occurs(t, q, f, 0, 0);
    }
}

/// Whether one label goes before another: it matches better, or as well and
/// comes first.
pub open spec fn goes_before(labels: Seq<Seq<char>>, query: Seq<char>, a: usize, b: usize) -> bool {
    let x = score_of(query, labels[a as int])->0;
    let y = score_of(query, labels[b as int])->0;
    x > y || (x == y && a < b)
}

/// Labels in the order in which they match.
pub open spec fn are_ranked(labels: Seq<Seq<char>>, query: Seq<char>, v: Seq<usize>) -> bool {
    forall|i: int, j: int|
        0 <= i < j < v.len() ==> goes_before(labels, query, #[trigger] v[i], #[trigger] v[j])
}

proof fn lemma_with_place(
    list: Seq<usize>,
    labels: Seq<Seq<char>>,
    query: Seq<char>,
    n: usize,
    i: int,
    x: usize,
)
    requires
        0 <= i <= list.len(),
        are_ranked(labels, query, list),
        forall|k: int| 0 <= k < list.len() ==> #[trigger] list[k] < n,
        forall|k: int|
            0 <= k < i ==> score_of(query, labels[#[trigger] list[k] as int])->0 >= score_of(
                query,
                labels[n as int],
            )->0,
    ensures
        are_ranked(labels, query, with_place(list, labels, query, n, i)),
        with_place(list, labels, query, n, i).contains(x) <==> list.contains(x) || x == n,
    decreases list.len() - i,
{
    let r = with_place(list, labels, query, n, i);
    if i >= list.len() {
        assert(r == list.push(n));
        assert(r[list.len() as int] == n);
        lemma_pushed_contains(list, n, x);
    } else if score_of(query, labels[list[i] as int])->0 < score_of(query, labels[n as int])->0 {
        assert(r == list.insert(i, n));
        assert forall|k: int| 0 <= k < r.len() implies #[trigger] r[k] == (if k < i {
            list[k]
        } else if k == i {
            n
        } else {
            list[k - 1]
        }) by {}
        assert forall|a: int, b: int| 0 <= a < b < r.len() implies goes_before(
            labels,
            query,
            #[trigger] r[a],
            #[trigger] r[b],
        ) by {
            if a == i {
                if b - 1 > i {
                    assert(goes_before(labels, query, list[i], list[b - 1]));
                }
            } else if b == i {
                assert(score_of(query, labels[list[a] as int])->0 >= score_of(
                    query,
                    labels[n as int],
                )->0);
            }
        }
        if list.contains(x) {
            let k = choose|k: int| 0 <= k < list.len() && list[k] == x;
            assert(r[if k < i {
                k
            } else {
                k + 1
            }] == x);
        }
        if r.contains(x) {
            let k = choose|k: int| 0 <= k < r.len() && r[k] == x;
            if k < i {
                assert(list[k] == x);
            } else if k > i {
                assert(list[k - 1] == x);
            }
        }
        assert(r[i] == n);
    } else {
        lemma_with_place(list, labels, query, n, i + 1, x);
    }
}

proof fn lemma_pushed_contains(list: Seq<usize>, n: usize, x: usize)
    ensures
        list.push(n).contains(x) <==> list.contains(x) || x == n,
{
    let r = list.push(n);
    assert(r[list.len() as int] == n);
    if list.contains(x) {
        let k = choose|k: int| 0 <= k < list.len() && list[k] == x;
        assert(r[k] == x);
    }
    if r.contains(x) {
        let k = choose|k: int| 0 <= k < r.len() && r[k] == x;
        if k < list.len() {
            assert(list[k] == x);
        }
    }
}

proof fn lemma_ranked(labels: Seq<Seq<char>>, query: Seq<char>, n: nat, x: usize)
    requires
        n <= labels.len(),
        labels.len() <= usize::MAX,
        query.len() > 0,
    ensures
        are_ranked(labels, query, ranked_upto(labels, query, n)),
        forall|k: int|
            0 <= k < ranked_upto(labels, query, n).len() ==> #[trigger] ranked_upto(
                labels,
                query,
                n,
            )[k] < n,
        ranked_upto(labels, query, n).contains(x) <==> x < n && score_of(
            query,
            labels[x as int],
        ) is Some,
    decreases n,
{
    if n > 0 {
        let m = (n - 1) as nat;
        lemma_ranked(labels, query, m, x);
        let head = ranked_upto(labels, query, m);
        let v = ranked_upto(labels, query, n);
        if score_of(query, labels[m as int]) is Some {
            lemma_with_place(head, labels, query, m as usize, 0, x);
            assert forall|k: int| 0 <= k < v.len() implies #[trigger] v[k] < n by {
                lemma_with_place(head, labels, query, m as usize, 0, v[k]);
                assert(v.contains(v[k]));
                if head.contains(v[k]) {
                    let j = choose|j: int| 0 <= j < head.len() && head[j] == v[k];
                    assert(head[j] < m);
                }
            }
        }
    }
}

/// A picker shows every label that the query matches and no other, the best
/// match first, and of two that match as well the earlier one.
pub proof fn law_the_best_match_comes_first(labels: Seq<Seq<char>>, query: Seq<char>, x: usize)
    requires
        labels.len() <= usize::MAX,
        query.len() > 0,
    ensures
        ranked(labels, query).contains(x) <==> x < labels.len() && is_matched(
            query,
            labels[x as int],
        ),
        are_ranked(labels, query, ranked(labels, query)),
{
    reveal(ranked);
    lemma_ranked(labels, query, labels.len(), x);
    if x < labels.len() {
        law_a_query_matches_in_order(query, labels[x as int], 0);
    }
}

proof fn lemma_all_in_order(labels: Seq<Seq<char>>, query: Seq<char>, n: nat)
    requires
        n <= labels.len(),
        labels.len() <= usize::MAX,
        query.len() == 0,
    ensures
        ranked_upto(labels, query, n).len() == n,
        forall|k: int| 0 <= k < n ==> #[trigger] ranked_upto(labels, query, n)[k] == k,
    decreases n,
{
    if n > 0 {
        lemma_all_in_order(labels, query, (n - 1) as nat);
    }
}

/// Without a query a picker shows everything, in its order.
pub proof fn law_without_a_query_everything_is_shown(
    labels: Seq<Seq<char>>,
    query: Seq<char>,
    k: int,
)
    requires
        labels.len() <= usize::MAX,
        query.len() == 0,
        0 <= k < labels.len(),
    ensures
        ranked(labels, query).len() == labels.len(),
        ranked(labels, query)[k] == k,
{
    reveal(ranked);
    lemma_all_in_order(labels, query, labels.len());
}

} // verus!
