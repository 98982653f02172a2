//! Paths as text: joining, and what lies above and below.

use vstd::prelude::*;
use crate::strings::{
    chars_of, find_from, first_from, lemma_first_from, push_all, same_chars, spells, string_of,
};

verus! {

/// A path without the slashes at its end; the root keeps nothing.
pub open spec fn bare(p: Seq<char>) -> Seq<char>
    decreases p.len(),
{
    if p.len() > 0 && p.last() == '/' {
        bare(p.drop_last())
    } else {
        p
    }
}

/// The last slash of the first `n` characters.
pub open spec fn last_slash(p: Seq<char>, n: int) -> Option<int>
    decreases n,
{
    if n <= 0 || n > p.len() {
        None
    } else if p[n - 1] == '/' {
        Some(n - 1)
    } else {
        last_slash(p, n - 1)
    }
}

/// Where the names of a path stand from `i` on, each by its start and its end:
/// between slashes, but for a dot that does not stand first.
pub open spec fn name_spans(p: Seq<char>, i: int) -> Seq<(int, int)>
    decreases p.len() + 1 - i,
{
    let e = first_from(p, '/', i);
    if i < 0 || i >= p.len() || e < i || e > p.len() {
        Seq::empty()
    } else if e == i || (i > 0 && p.subrange(i, e) == "."@) {
        name_spans(p, e + 1)
    } else {
        seq![(i, e)] + name_spans(p, e + 1)
    }
}

/// The names that a path leads through.
pub open spec fn path_names(p: Seq<char>) -> Seq<Seq<char>> {
    let spans = name_spans(p, 0);
    Seq::new(spans.len(), |k: int| p.subrange(spans[k].0, spans[k].1))
}

/// Whether a path starts at the root.
pub open spec fn from_root(p: Seq<char>) -> bool {
    p.len() > 0 && p[0] == '/'
}

/// Whether two paths lead through the same names from the same place: a slash
/// may be doubled or stand at the end, and a dot may stand between slashes.
#[verifier::opaque]
pub open spec fn same_path(a: Seq<char>, b: Seq<char>) -> bool {
    from_root(a) == from_root(b) && path_names(a) == path_names(b)
}

/// Whether a path is a directory or lies under it: it leads through the
/// directory's names first. Everything lies under the path of no names.
#[verifier::opaque]
pub open spec fn lies_under(p: Seq<char>, dir: Seq<char>) -> bool {
    dir.len() == 0 || (from_root(p) == from_root(dir) && path_names(dir).is_prefix_of(
        path_names(p),
    ))
}

/// What a path has below a directory that it lies under.
#[verifier::opaque]
pub open spec fn below(p: Seq<char>, dir: Seq<char>) -> Seq<char> {
    let spans = name_spans(p, 0);
    let n = path_names(dir).len();
    if dir.len() == 0 {
        p
    } else if n < spans.len() {
        p.subrange(spans[n as int].0, spans.last().1)
    } else {
        Seq::empty()
    }
}

/// A path written in two ways is one path.
pub proof fn law_same_path(a: Seq<char>, b: Seq<char>, c: Seq<char>)
    ensures
        same_path(a, a),
        same_path(a, b) ==> same_path(b, a),
        same_path(a, b) && same_path(b, c) ==> same_path(a, c),
{
    reveal(same_path);
}

proof fn lemma_spans(p: Seq<char>, i: int)
    requires
        0 <= i,
    ensures
        forall|k: int|
            0 <= k < name_spans(p, i).len() ==> i <= (#[trigger] name_spans(p, i)[k]).0
                <= name_spans(p, i)[k].1 <= p.len(),
        forall|k: int, m: int|
            0 <= k <= m < name_spans(p, i).len() ==> (#[trigger] name_spans(p, i)[k]).0 <= (
            #[trigger] name_spans(p, i)[m]).1,
    decreases p.len() + 1 - i,
{
    if i < p.len() {
        lemma_first_from(p, '/', i);
        let e = first_from(p, '/', i);
        let rest = name_spans(p, e + 1);
        lemma_spans(p, e + 1);
        let all = name_spans(p, i);
        if all != rest {
            assert forall|k: int| 0 <= k < all.len() implies i <= (#[trigger] all[k]).0 <= all[k].1
                <= p.len() by {
                if k > 0 {
                    assert(all[k] == rest[k - 1]);
                }
            }
            assert forall|k: int, m: int| 0 <= k <= m < all.len() implies (#[trigger] all[k]).0 <= (
            #[trigger] all[m]).1 by {
                if k > 0 {
                    assert(all[k] == rest[k - 1] && all[m] == rest[m - 1]);
                } else if m > 0 {
                    assert(all[m] == rest[m - 1]);
                    assert(rest[m - 1].0 <= rest[m - 1].1);
                }
            }
        }
    }
}

spec fn as_ints(v: Seq<(usize, usize)>) -> Seq<(int, int)> {
    Seq::new(v.len(), |k: int| (v[k].0 as int, v[k].1 as int))
}

fn read_spans(p: &[char]) -> (r: Vec<(usize, usize)>)
    ensures
        as_ints(r@) == name_spans(p@, 0),
        forall|k: int| 0 <= k < r@.len() ==> (#[trigger] r@[k]).0 <= r@[k].1 <= p@.len(),
{
    let ghost all = name_spans(p@, 0);
    let mut out: Vec<(usize, usize)> = Vec::new();
    let mut i: usize = 0;
    assert(as_ints(out@) + name_spans(p@, 0) =~= all);
    while i < p.len()
        invariant
            0 <= i,
            all == name_spans(p@, 0),
            as_ints(out@) + name_spans(p@, i as int) == all,
            forall|k: int|
                0 <= k < out@.len() ==> (#[trigger] out@[k]).0 <= out@[k].1 <= p@.len(),
        decreases p@.len() - i,
    {
        let e = find_from(p, '/', i);
        let piece = vstd::slice::slice_subrange(p, i, e);
        let skip = e == i || (i > 0 && spells(piece, "."));
        if !skip {
            let ghost had = out@;
            out.push((i, e));
            assert(as_ints(out@) =~= as_ints(had).push((i as int, e as int)));
            assert(as_ints(out@) + name_spans(p@, e + 1) =~= as_ints(had) + name_spans(
                p@,
                i as int,
            ));
        }
        if e == p.len() {
            assert(name_spans(p@, e + 1) =~= Seq::empty());
            assert(as_ints(out@) =~= all);
            return out;
        }
        i = e + 1;
    }
    assert(name_spans(p@, i as int) =~= Seq::empty());
    assert(as_ints(out@) =~= all);
    out
}

/// Whether the names of one path are the first of those of another.
fn leads_through(
    p: &[char],
    spans: &Vec<(usize, usize)>,
    dir: &[char],
    first: &Vec<(usize, usize)>,
) -> (r: bool)
    requires
        as_ints(spans@) == name_spans(p@, 0),
        as_ints(first@) == name_spans(dir@, 0),
        forall|k: int| 0 <= k < spans@.len() ==> (#[trigger] spans@[k]).0 <= spans@[k].1 <= p@.len(),
        forall|k: int|
            0 <= k < first@.len() ==> (#[trigger] first@[k]).0 <= first@[k].1 <= dir@.len(),
    ensures
        r == path_names(dir@).is_prefix_of(path_names(p@)),
{
    let ghost a = path_names(p@);
    let ghost b = path_names(dir@);
    assert(as_ints(spans@).len() == spans@.len() && as_ints(first@).len() == first@.len());
    if first.len() > spans.len() {
        return false;
    }
    let mut k: usize = 0;
    while k < first.len()
        invariant
            k <= first@.len() <= spans@.len(),
            a == path_names(p@),
            b == path_names(dir@),
            a.len() == spans@.len(),
            b.len() == first@.len(),
            as_ints(spans@) == name_spans(p@, 0),
            as_ints(first@) == name_spans(dir@, 0),
            forall|j: int|
                0 <= j < spans@.len() ==> (#[trigger] spans@[j]).0 <= spans@[j].1 <= p@.len(),
            forall|j: int|
                0 <= j < first@.len() ==> (#[trigger] first@[j]).0 <= first@[j].1 <= dir@.len(),
            forall|j: int| 0 <= j < k ==> a[j] == b[j],
        decreases first@.len() - k,
    {
        assert(as_ints(spans@)[k as int] == (spans@[k as int].0 as int, spans@[k as int].1 as int));
        assert(as_ints(first@)[k as int] == (first@[k as int].0 as int, first@[k as int].1 as int));
        let x = vstd::slice::slice_subrange(p, spans[k].0, spans[k].1);
        let y = vstd::slice::slice_subrange(dir, first[k].0, first[k].1);
        assert(a[k as int] == x@ && b[k as int] == y@);
        if !same_chars(x, y) {
            assert(a.subrange(0, b.len() as int)[k as int] != b[k as int]);
            return false;
        }
        k += 1;
    }
    assert(b =~= a.subrange(0, b.len() as int));
    true
}

/// Whether two paths are one path.
pub fn is_same_path(a: &str, b: &str) -> (r: bool)
    ensures
        r == same_path(a@, b@),
{
    reveal(same_path);
    let ac = chars_of(a);
    let bc = chars_of(b);
    let a_root = ac.len() > 0 && ac[0] == '/';
    let b_root = bc.len() > 0 && bc[0] == '/';
    if a_root != b_root {
        return false;
    }
    let an = read_spans(ac.as_slice());
    let bn = read_spans(bc.as_slice());
    assert(as_ints(an@).len() == an@.len() && as_ints(bn@).len() == bn@.len());
    if an.len() != bn.len() {
        assert(path_names(a@).len() != path_names(b@).len());
        return false;
    }
    let r = leads_through(ac.as_slice(), &an, bc.as_slice(), &bn);
    assert(r ==> path_names(a@) =~= path_names(b@));
    assert(path_names(a@).subrange(0, path_names(a@).len() as int) =~= path_names(a@));
    r
}

/// A name under a directory. A name that starts at the root stands for itself.
pub open spec fn joined_path(dir: Seq<char>, name: Seq<char>) -> Seq<char> {
    if (name.len() > 0 && name[0] == '/') || dir.len() == 0 {
        name
    } else if dir.last() == '/' {
        dir + name
    } else {
        dir.push('/') + name
    }
}

/// The directory that a path is in.
pub open spec fn parent_of(p: Seq<char>) -> Option<Seq<char>> {
    let b = bare(p);
    if b.len() == 0 {
        None
    } else {
        match last_slash(b, b.len() as int) {
            None => Some(Seq::empty()),
            Some(i) => {
                let up = bare(b.take(i));
                Some(
                    if up.len() == 0 {
                        seq!['/']
                    } else {
                        up
                    },
                )
            },
        }
    }
}

fn bare_len(p: &[char]) -> (n: usize)
    ensures
        n <= p@.len(),
        p@.take(n as int) == bare(p@),
{
    let mut n: usize = p.len();
    assert(p@.take(n as int) =~= p@);
    while n > 0 && p[n - 1] == '/'
        invariant
            n <= p@.len(),
            bare(p@.take(n as int)) == bare(p@),
        decreases n,
    {
        assert(p@.take(n as int).drop_last() =~= p@.take(n - 1));
        n -= 1;
    }
    n
}

/// A name under a directory.
pub fn join_path(dir: &str, name: &str) -> (r: String)
    ensures
        r@ == joined_path(dir@, name@),
{
    let d = chars_of(dir);
    let n = chars_of(name);
    if (n.len() > 0 && n[0] == '/') || d.len() == 0 {
        return name.to_owned();
    }
    let mut out = d;
    if out[out.len() - 1] != '/' {
        out.push('/');
    }
    push_all(&mut out, n.as_slice());
    string_of(out.as_slice())
}

/// The directory that a path is in.
pub fn parent(p: &str) -> (r: Option<String>)
    ensures
        match r {
            Some(t) => parent_of(p@) == Some(t@),
            None => parent_of(p@) is None,
        },
{
    let c = chars_of(p);
    let n = bare_len(c.as_slice());
    if n == 0 {
        return None;
    }
    let ghost b = bare(p@);
    let mut i: usize = n;
    while i > 0 && c[i - 1] != '/'
        invariant
            i <= n <= c@.len(),
            b == c@.take(n as int),
            last_slash(b, n as int) == last_slash(b, i as int),
        decreases i,
    {
        i -= 1;
    }
    if i == 0 {
        let none = String::new();
        assert(none@ =~= Seq::empty());
        return Some(none);
    }
    let up = vstd::slice::slice_subrange(c.as_slice(), 0, i - 1);
    assert(up@ =~= b.take(i - 1));
    let k = bare_len(up);
    if k == 0 {
        return Some(crate::strings::char_string('/'));
    }
    let r = string_of(vstd::slice::slice_subrange(up, 0, k));
    assert(r@ =~= bare(b.take(i - 1)));
    Some(r)
}

/// Whether a path is a directory or lies under it.
pub fn is_under(p: &str, dir: &str) -> (r: bool)
    ensures
        r == lies_under(p@, dir@),
{
    reveal(lies_under);
    let c = chars_of(p);
    let d = chars_of(dir);
    if d.len() == 0 {
        return true;
    }
    if (c.len() > 0 && c[0] == '/') != (d[0] == '/') {
        return false;
    }
    let spans = read_spans(c.as_slice());
    let first = read_spans(d.as_slice());
    leads_through(c.as_slice(), &spans, d.as_slice(), &first)
}

/// What a path has below a directory, where it lies under it.
pub fn path_below(p: &str, dir: &str) -> (r: Option<String>)
    ensures
        match r {
            Some(t) => lies_under(p@, dir@) && t@ == below(p@, dir@),
            None => !lies_under(p@, dir@),
        },
{
    reveal(below);
    if !is_under(p, dir) {
        return None;
    }
    let c = chars_of(p);
    let d = chars_of(dir);
    if d.len() == 0 {
        return Some(p.to_owned());
    }
    let spans = read_spans(c.as_slice());
    let first = read_spans(d.as_slice());
    let n: usize = first.len();
    assert(as_ints(first@).len() == n && as_ints(spans@).len() == spans@.len());
    if n >= spans.len() {
        let none = String::new();
        assert(none@ =~= Seq::empty());
        return Some(none);
    }
    proof {
        lemma_spans(p@, 0);
        let s = name_spans(p@, 0);
        assert(s[n as int].0 <= s[s.len() - 1].1);
        assert(as_ints(spans@)[n as int] == s[n as int]);
        assert(as_ints(spans@)[spans@.len() - 1] == s[s.len() - 1]);
    }
    let from = spans[n].0;
    let to = spans[spans.len() - 1].1;
    Some(string_of(vstd::slice::slice_subrange(c.as_slice(), from, to)))
}

proof fn lemma_spans_before(p: Seq<char>, q: Seq<char>, i: int)
    requires
        0 <= i,
        p.len() < q.len(),
        q.take(p.len() as int) == p,
        q[p.len() as int] == '/',
    ensures
        name_spans(p, i).is_prefix_of(name_spans(q, i)),
    decreases p.len() + 1 - i,
{
    if i < p.len() {
        lemma_first_from(p, '/', i);
        lemma_first_from(q, '/', i);
        let e = first_from(p, '/', i);
        let f = first_from(q, '/', i);
        if f < e {
            assert(q.take(p.len() as int)[f] == q[f]);
        }
        if e < f && e < p.len() {
            assert(q.take(p.len() as int)[e] == q[e]);
        }
        assert(e == f);
        assert(p.subrange(i, e) =~= q.subrange(i, e)) by {
            assert forall|k: int| i <= k < e implies p[k] == q[k] by {
                assert(q.take(p.len() as int)[k] == q[k]);
            }
        }
        lemma_spans_before(p, q, e + 1);
        let a = name_spans(p, e + 1);
        let b = name_spans(q, e + 1);
        assert((seq![(i, e)] + b).subrange(0, 1 + a.len() as int) =~= seq![(i, e)] + b.subrange(
            0,
            a.len() as int,
        ));
    } else {
        assert(name_spans(q, i).subrange(0, 0) =~= Seq::empty());
    }
}

/// What is joined to a directory lies under it.
pub proof fn law_joined_lies_under(dir: Seq<char>, name: Seq<char>)
    requires
        dir.len() > 0,
        dir.last() != '/',
        name.len() > 0,
        name[0] != '/',
    ensures
        lies_under(joined_path(dir, name), dir),
{
    reveal(lies_under);
    let j = joined_path(dir, name);
    assert(j.take(dir.len() as int) =~= dir);
    lemma_spans_before(dir, j, 0);
    lemma_spans(dir, 0);
    let a = name_spans(dir, 0);
    let b = name_spans(j, 0);
    assert forall|k: int| 0 <= k < a.len() implies path_names(dir)[k] == path_names(j)[k] by {
        assert(b.subrange(0, a.len() as int)[k] == b[k]);
        assert(dir.subrange(a[k].0, a[k].1) =~= j.subrange(a[k].0, a[k].1)) by {
            assert forall|m: int| 0 <= m < dir.len() implies dir[m] == j[m] by {}
        }
    }
    assert(path_names(dir) =~= path_names(j).subrange(0, path_names(dir).len() as int));
}

} // verus!
