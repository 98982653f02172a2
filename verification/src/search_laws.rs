//! What searching and substituting find and put in.

use vstd::prelude::*;
use crate::acts::match_stepped;
use crate::document::{placed, DocView};
use crate::edit_laws::{is_on, lemma_is_on};
use crate::prompts::{matches_in, ranges_selected};
use crate::search::{
    captures_fit, captures_in, expanded, first_at, group_text, last_before, literal_from,
    matches_of, next_match, prev_match, regex_captures, replaced_upto, replacements, within_upto,
    Groups,
};
use crate::strings::{alphanumeric, is_digit, is_white, stands_at};
use crate::substitute::{
    all_replaced, as_edits, fields_from, found_for, substitute_of, substitution, SubstituteView,
};
use crate::surround_laws::{lemma_applied_text, lemma_two_edits};
use crate::text::{lemma_line_of_grows, line_of};

verus! {

// ---- which matches are replaced ------------------------------------------------------

/// Whether a replacement is that of a match: it takes the match's place, with
/// the groups of that match put in.
pub open spec fn is_replacement_of(
    v: (int, int, Seq<char>),
    c: Groups,
    from: int,
    part: Seq<char>,
    repl: Seq<char>,
) -> bool {
    c.len() > 0 && c[0] is Some && v.0 == from + (c[0]->0).0 && v.1 == from + (c[0]->0).1 && v.2
        == expanded(repl, c, part, 0)
}

/// The line that a match begins on.
pub open spec fn line_of_match(s: Seq<char>, from: int, c: Groups) -> int {
    line_of(s, from + (c[0]->0).0) as int
}

/// Whether a match is the earliest of those that begin on its line.
pub open spec fn is_earliest(s: Seq<char>, from: int, cs: Seq<Groups>, i: int) -> bool {
    0 <= i < cs.len() && forall|k: int|
        0 <= k < i ==> line_of_match(s, from, #[trigger] cs[k]) != line_of_match(s, from, cs[i])
}

/// Whether a replacement is that of the earliest match of a line.
pub open spec fn is_of_an_earliest(
    v: (int, int, Seq<char>),
    s: Seq<char>,
    from: int,
    to: int,
    cs: Seq<Groups>,
    repl: Seq<char>,
) -> bool {
    exists|i: int| #[trigger]
        is_earliest(s, from, cs, i) && is_replacement_of(v, cs[i], from, s.subrange(from, to), repl)
}

/// Whether a replacement begins on a line.
pub open spec fn some_begins_on(v: Seq<(int, int, Seq<char>)>, s: Seq<char>, line: int) -> bool {
    exists|j: int| 0 <= j < v.len() && line_of(s, (#[trigger] v[j]).0) == line
}

/// Whether no two replacements begin on one line.
pub open spec fn lines_differ(v: Seq<(int, int, Seq<char>)>, s: Seq<char>) -> bool {
    forall|j: int, k: int|
        0 <= j < k < v.len() ==> line_of(s, (#[trigger] v[j]).0) < line_of(s, (#[trigger] v[k]).0)
}

proof fn lemma_match_lines(s: Seq<char>, from: int, len: int, cs: Seq<Groups>, i: int, j: int)
    requires
        0 <= from,
        captures_fit(cs, len),
        0 <= i <= j < cs.len(),
    ensures
        cs[i].len() > 0 && cs[i][0] is Some,
        line_of_match(s, from, cs[i]) <= line_of_match(s, from, cs[j]),
{
    assert(cs[i].len() > 0 && cs[i][0] is Some);
    assert(cs[j].len() > 0 && cs[j][0] is Some);
    assert(0 <= (cs[i][0]->0).0 <= (cs[i][0]->0).1);
    if i < j {
        assert((cs[i][0]->0).1 <= (cs[j][0]->0).0);
    }
    lemma_line_of_grows(s, from + (cs[i][0]->0).0, from + (cs[j][0]->0).0);
}

proof fn lemma_last_line(
    s: Seq<char>,
    part: Seq<char>,
    from: int,
    cs: Seq<Groups>,
    repl: Seq<char>,
    n: nat,
)
    requires
        0 < n <= cs.len(),
    ensures
        ({
            let v = replaced_upto(s, part, from, cs, repl, false, n);
            v.len() > 0 && line_of(s, v.last().0) == line_of_match(s, from, cs[n - 1])
        }),
    decreases n,
{
    if n > 1 {
        lemma_last_line(s, part, from, cs, repl, (n - 1) as nat);
    }
}

proof fn lemma_earliest(
    s: Seq<char>,
    from: int,
    to: int,
    cs: Seq<Groups>,
    repl: Seq<char>,
    n: nat,
    j: int,
)
    requires
        0 <= from <= to <= s.len(),
        captures_fit(cs, to - from),
        n <= cs.len(),
        0 <= j < replaced_upto(s, s.subrange(from, to), from, cs, repl, false, n).len(),
    ensures
        is_of_an_earliest(
            replaced_upto(s, s.subrange(from, to), from, cs, repl, false, n)[j],
            s,
            from,
            to,
            cs,
            repl,
        ),
    decreases n,
{
    let part = s.subrange(from, to);
    let m = (n - 1) as nat;
    let head = replaced_upto(s, part, from, cs, repl, false, m);
    let v = replaced_upto(s, part, from, cs, repl, false, n);
    if j < head.len() {
        lemma_earliest(s, from, to, cs, repl, m, j);
        assert(v[j] == head[j]);
    } else {
        lemma_match_lines(s, from, to - from, cs, m as int, m as int);
        assert forall|k: int| 0 <= k < m implies line_of_match(s, from, #[trigger] cs[k])
            != line_of_match(s, from, cs[m as int]) by {
            lemma_match_lines(s, from, to - from, cs, k, m - 1);
            lemma_match_lines(s, from, to - from, cs, m - 1, m as int);
        }
        assert(is_earliest(s, from, cs, m as int));
        assert(is_replacement_of(v[j], cs[m as int], from, part, repl));
    }
}

proof fn lemma_lines_differ(
    s: Seq<char>,
    from: int,
    to: int,
    cs: Seq<Groups>,
    repl: Seq<char>,
    n: nat,
)
    requires
        0 <= from <= to <= s.len(),
        captures_fit(cs, to - from),
        n <= cs.len(),
    ensures
        lines_differ(replaced_upto(s, s.subrange(from, to), from, cs, repl, false, n), s),
    decreases n,
{
    let part = s.subrange(from, to);
    assert(replaced_upto(s, part, from, cs, repl, false, 0) =~= Seq::empty());
    if n > 1 {
        let m = (n - 1) as nat;
        let head = replaced_upto(s, part, from, cs, repl, false, m);
        let v = replaced_upto(s, part, from, cs, repl, false, n);
        lemma_lines_differ(s, from, to, cs, repl, m);
        lemma_last_line(s, part, from, cs, repl, m);
        lemma_last_line(s, part, from, cs, repl, n);
        lemma_match_lines(s, from, to - from, cs, m - 1, m as int);
        if v.len() > head.len() {
            assert forall|j: int, k: int| 0 <= j < k < v.len() implies line_of(
                s,
                (#[trigger] v[j]).0,
            ) < line_of(s, (#[trigger] v[k]).0) by {
                assert(v[j] == head[j]);
                if k < head.len() {
                    assert(v[k] == head[k]);
                } else {
                    assert(v[k] == v.last());
                    assert(head.last() == head[head.len() - 1]);
                }
            }
        }
    }
}

proof fn lemma_none_missed(
    s: Seq<char>,
    part: Seq<char>,
    from: int,
    cs: Seq<Groups>,
    repl: Seq<char>,
    n: nat,
    i: int,
)
    requires
        0 <= i < n <= cs.len(),
    ensures
        some_begins_on(
            replaced_upto(s, part, from, cs, repl, false, n),
            s,
            line_of_match(s, from, cs[i]),
        ),
    decreases n,
{
    let v = replaced_upto(s, part, from, cs, repl, false, n);
    if i == n - 1 {
        lemma_last_line(s, part, from, cs, repl, n);
        assert(v[v.len() - 1] == v.last());
    } else {
        let head = replaced_upto(s, part, from, cs, repl, false, (n - 1) as nat);
        lemma_none_missed(s, part, from, cs, repl, (n - 1) as nat, i);
        let j = choose|j: int|
            0 <= j < head.len() && line_of(s, (#[trigger] head[j]).0) == line_of_match(
                s,
                from,
                cs[i],
            );
        assert(v[j] == head[j]);
    }
}

proof fn lemma_all_replaced(
    s: Seq<char>,
    part: Seq<char>,
    from: int,
    cs: Seq<Groups>,
    repl: Seq<char>,
    n: nat,
)
    requires
        n <= cs.len(),
    ensures
        ({
            let v = replaced_upto(s, part, from, cs, repl, true, n);
            v.len() == n && forall|i: int|
                0 <= i < n ==> #[trigger] v[i] == (
                    from + (cs[i][0]->0).0,
                    from + (cs[i][0]->0).1,
                    expanded(repl, cs[i], part, 0),
                )
        }),
    decreases n,
{
    if n > 0 {
        lemma_all_replaced(s, part, from, cs, repl, (n - 1) as nat);
    }
}

/// Without `g`, a substitution replaces on every line that a match begins on
/// exactly one match, the earliest: each replacement is that of the earliest
/// match of a line, no two begin on one line, and every line that a match
/// begins on has one.
pub proof fn law_one_replacement_for_each_line(
    s: Seq<char>,
    from: int,
    to: int,
    pattern: Seq<char>,
    repl: Seq<char>,
    insensitive: bool,
)
    requires
        0 <= from <= to <= s.len(),
    ensures
        ({
            let cs = captures_in(s.subrange(from, to), pattern, insensitive);
            let v = replacements(s, from, to, pattern, repl, false, insensitive);
            captures_fit(cs, to - from) ==> {
                &&& forall|j: int|
                    0 <= j < v.len() ==> is_of_an_earliest(#[trigger] v[j], s, from, to, cs, repl)
                &&& lines_differ(v, s)
                &&& forall|i: int|
                    0 <= i < cs.len() ==> some_begins_on(
                        v,
                        s,
                        line_of_match(s, from, #[trigger] cs[i]),
                    )
            }
        }),
{
    let part = s.subrange(from, to);
    let cs = captures_in(part, pattern, insensitive);
    let v = replacements(s, from, to, pattern, repl, false, insensitive);
    if captures_fit(cs, to - from) {
        lemma_lines_differ(s, from, to, cs, repl, cs.len());
        assert forall|j: int| 0 <= j < v.len() implies is_of_an_earliest(
            #[trigger] v[j],
            s,
            from,
            to,
            cs,
            repl,
        ) by {
            lemma_earliest(s, from, to, cs, repl, cs.len(), j);
        }
        assert forall|i: int| 0 <= i < cs.len() implies some_begins_on(
            v,
            s,
            line_of_match(s, from, #[trigger] cs[i]),
        ) by {
            lemma_none_missed(s, part, from, cs, repl, cs.len(), i);
        }
    }
}

/// With `g`, every match is replaced, in order, each in its place and with
/// its own groups put in.
pub proof fn law_every_match_is_replaced(
    s: Seq<char>,
    from: int,
    to: int,
    pattern: Seq<char>,
    repl: Seq<char>,
    insensitive: bool,
)
    requires
        0 <= from <= to <= s.len(),
    ensures
        ({
            let part = s.subrange(from, to);
            let cs = captures_in(part, pattern, insensitive);
            let v = replacements(s, from, to, pattern, repl, true, insensitive);
            captures_fit(cs, to - from) ==> v.len() == cs.len() && forall|i: int|
                0 <= i < cs.len() ==> is_replacement_of(#[trigger] v[i], cs[i], from, part, repl)
        }),
{
    let part = s.subrange(from, to);
    let cs = captures_in(part, pattern, insensitive);
    let v = replacements(s, from, to, pattern, repl, true, insensitive);
    if captures_fit(cs, to - from) {
        lemma_all_replaced(s, part, from, cs, repl, cs.len());
        assert forall|i: int| 0 <= i < cs.len() implies is_replacement_of(
            #[trigger] v[i],
            cs[i],
            from,
            part,
            repl,
        ) by {
            assert(cs[i].len() > 0 && cs[i][0] is Some);
        }
    }
}

// ---- what is put in --------------------------------------------------------------------

proof fn lemma_expanded_from(x: Seq<char>, gs: Groups, s: Seq<char>, i: int, y: Seq<char>, j: int)
    requires
        0 <= i <= x.len(),
        0 <= j <= y.len(),
        x.skip(i) == y.skip(j),
    ensures
        expanded(x, gs, s, i) == expanded(y, gs, s, j),
    decreases x.len() - i,
{
    assert(x.skip(i).len() == x.len() - i && y.skip(j).len() == y.len() - j);
    if i < x.len() {
        assert(x.skip(i)[0] == x[i] && y.skip(j)[0] == y[j]);
        assert(x.skip(i + 1) =~= x.skip(i).skip(1));
        assert(y.skip(j + 1) =~= y.skip(j).skip(1));
        lemma_expanded_from(x, gs, s, i + 1, y, j + 1);
        if i + 1 < x.len() {
            assert(x.skip(i)[1] == x[i + 1] && y.skip(j)[1] == y[j + 1]);
            assert(x.skip(i + 2) =~= x.skip(i).skip(2));
            assert(y.skip(j + 2) =~= y.skip(j).skip(2));
            lemma_expanded_from(x, gs, s, i + 2, y, j + 2);
        }
    }
}

/// A replacement is put in as it is written, but for a backslash and a digit:
/// there, what the group of that number took is put in, or nothing where the
/// group took nothing.
pub proof fn law_groups_are_put_in(
    plain: Seq<char>,
    digit: char,
    rest: Seq<char>,
    gs: Groups,
    s: Seq<char>,
)
    requires
        forall|k: int| 0 <= k < plain.len() ==> #[trigger] plain[k] != '\\',
        is_digit(digit),
    ensures
        expanded(plain, gs, s, 0) == plain,
        ({
            let n = digit as int - '0' as int;
            let took = if n < gs.len() && gs[n] is Some {
                s.subrange((gs[n]->0).0, (gs[n]->0).1)
            } else {
                Seq::empty()
            };
            expanded(plain + seq!['\\', digit] + rest, gs, s, 0) == plain + took + expanded(
                rest,
                gs,
                s,
                0,
            )
        }),
        rest.len() == 0 || !is_digit(rest[0]) ==> expanded(plain + seq!['\\'] + rest, gs, s, 0)
            == plain + seq!['\\'] + expanded(rest, gs, s, 0),
    decreases plain.len(),
{
    let n = digit as int - '0' as int;
    let took = group_text(s, gs, n);
    if plain.len() == 0 {
        let x = plain + seq!['\\', digit] + rest;
        assert(x.skip(2) =~= rest.skip(0));
        lemma_expanded_from(x, gs, s, 2, rest, 0);
        assert(expanded(x, gs, s, 0) =~= plain + took + expanded(rest, gs, s, 0));
        let y = plain + seq!['\\'] + rest;
        assert(y.skip(1) =~= rest.skip(0));
        lemma_expanded_from(y, gs, s, 1, rest, 0);
        if rest.len() == 0 || !is_digit(rest[0]) {
            assert(rest.len() > 0 ==> y[1] == rest[0]);
            assert(expanded(y, gs, s, 0) =~= plain + seq!['\\'] + expanded(rest, gs, s, 0));
        }
        assert(expanded(plain, gs, s, 0) =~= plain);
    } else {
        let p = plain.skip(1);
        assert forall|k: int| 0 <= k < p.len() implies #[trigger] p[k] != '\\' by {
            assert(p[k] == plain[k + 1]);
        }
        law_groups_are_put_in(p, digit, rest, gs, s);
        let x = plain + seq!['\\', digit] + rest;
        let xp = p + seq!['\\', digit] + rest;
        assert(x.skip(1) =~= xp.skip(0));
        lemma_expanded_from(x, gs, s, 1, xp, 0);
        assert(x[0] == plain[0]);
        assert(expanded(x, gs, s, 0) =~= plain + took + expanded(rest, gs, s, 0));
        let y = plain + seq!['\\'] + rest;
        let yp = p + seq!['\\'] + rest;
        assert(y.skip(1) =~= yp.skip(0));
        lemma_expanded_from(y, gs, s, 1, yp, 0);
        assert(y[0] == plain[0]);
        if rest.len() == 0 || !is_digit(rest[0]) {
            assert(expanded(y, gs, s, 0) =~= plain + seq!['\\'] + expanded(rest, gs, s, 0));
        }
        assert(plain.skip(1) =~= p.skip(0));
        lemma_expanded_from(plain, gs, s, 1, p, 0);
        assert(expanded(plain, gs, s, 0) =~= plain);
    }
}

// ---- a pattern taken literally -----------------------------------------------------------

/// Whether a place is in one of the matches.
pub open spec fn is_in_a_match(cs: Seq<Groups>, k: int) -> bool {
    exists|i: int|
        0 <= i < cs.len() && ((#[trigger] cs[i])[0]->0).0 <= k < (cs[i][0]->0).1
}

proof fn lemma_literal(s: Seq<char>, p: Seq<char>, i: int)
    requires
        0 <= i,
        p.len() > 0,
    ensures
        forall|k: int|
            0 <= k < literal_from(s, p, i).len() ==> (#[trigger] literal_from(s, p, i)[k]).len() == 1
                && literal_from(s, p, i)[k][0] is Some && stands_at(
                s,
                p,
                (literal_from(s, p, i)[k][0]->0).0,
            ) && (literal_from(s, p, i)[k][0]->0).1 == (literal_from(s, p, i)[k][0]->0).0 + p.len(),
        forall|k: int|
            i <= k && #[trigger] stands_at(s, p, k) ==> is_in_a_match(literal_from(s, p, i), k),
    decreases s.len() - i,
{
    let all = literal_from(s, p, i);
    if i < s.len() {
        if stands_at(s, p, i) {
            let rest = literal_from(s, p, i + p.len());
            lemma_literal(s, p, i + p.len());
            assert forall|k: int| 0 < k < all.len() implies #[trigger] all[k] == rest[k - 1] by {}
            assert(all[0] =~= seq![Some((i, i + p.len()))]);
            assert forall|k: int| i <= k && #[trigger] stands_at(s, p, k) implies is_in_a_match(
                all,
                k,
            ) by {
                if k < i + p.len() {
                    assert((all[0][0]->0).0 <= k < (all[0][0]->0).1);
                } else {
                    let j = choose|j: int|
                        0 <= j < rest.len() && ((#[trigger] rest[j])[0]->0).0 <= k
                            < (rest[j][0]->0).1;
                    assert(all[j + 1] == rest[j]);
                }
            }
        } else {
            lemma_literal(s, p, i + 1);
        }
    }
}

/// A pattern that is no regular expression is searched literally: each match
/// is a place where it stands, and wherever it stands there is a match.
pub proof fn law_a_pattern_that_does_not_compile_is_literal(
    s: Seq<char>,
    p: Seq<char>,
    insensitive: bool,
)
    requires
        p.len() > 0,
    ensures
        regex_captures(p, insensitive, s) is None ==> {
            let cs = captures_in(s, p, insensitive);
            &&& forall|k: int|
                0 <= k < cs.len() ==> (#[trigger] cs[k]).len() == 1 && cs[k][0] is Some && stands_at(
                    s,
                    p,
                    (cs[k][0]->0).0,
                ) && (cs[k][0]->0).1 == (cs[k][0]->0).0 + p.len()
            &&& forall|k: int| 0 <= k && #[trigger] stands_at(s, p, k) ==> is_in_a_match(cs, k)
        },
{
    lemma_literal(s, p, 0);
}

// ---- walking the matches -------------------------------------------------------------------

/// Ranges in the order in which they start.
pub open spec fn in_starting_order(all: Seq<(usize, usize)>) -> bool {
    forall|i: int, j: int| 0 <= i < j < all.len() ==> (#[trigger] all[i]).0 <= (#[trigger] all[j]).0
}

proof fn lemma_first_at(all: Seq<(usize, usize)>, from: usize, i: int)
    requires
        0 <= i <= all.len(),
    ensures
        match first_at(all, from, i) {
            Some(m) => exists|k: int|
                i <= k < all.len() && m == #[trigger] all[k] && m.0 >= from && forall|j: int|
                    i <= j < k ==> (#[trigger] all[j]).0 < from,
            None => forall|j: int| i <= j < all.len() ==> (#[trigger] all[j]).0 < from,
        },
    decreases all.len() - i,
{
    if i < all.len() {
        if all[i].0 >= from {
            assert(first_at(all, from, i) == Some(all[i]));
        } else {
            lemma_first_at(all, from, i + 1);
        }
    }
}

proof fn lemma_last_before(all: Seq<(usize, usize)>, at: usize, n: nat)
    requires
        n <= all.len(),
    ensures
        match last_before(all, at, n) {
            Some(m) => exists|k: int|
                0 <= k < n && m == #[trigger] all[k] && m.0 < at && forall|j: int|
                    k < j < n ==> (#[trigger] all[j]).0 >= at,
            None => forall|j: int| 0 <= j < n ==> (#[trigger] all[j]).0 >= at,
        },
    decreases n,
{
    if n > 0 {
        if all[n - 1].0 < at {
            assert(last_before(all, at, n) == Some(all[n - 1]));
        } else {
            lemma_last_before(all, at, (n - 1) as nat);
        }
    }
}

/// The next match is the nearest that starts at a place or behind it, and
/// after the last it is the first of all; there is one whenever there is any.
pub proof fn law_the_next_match_is_the_nearest(all: Seq<(usize, usize)>, from: usize)
    requires
        in_starting_order(all),
    ensures
        next_match(all, from) is None <==> all.len() == 0,
        next_match(all, from) matches Some(m) ==> all.contains(m) && forall|j: int|
            0 <= j < all.len() ==> if m.0 >= from {
                (#[trigger] all[j]).0 < from || all[j].0 >= m.0
            } else {
                all[j].0 < from && m.0 <= all[j].0
            },
{
    lemma_first_at(all, from, 0);
}

/// The match before is the nearest that starts before a place, and before the
/// first it is the last of all; there is one whenever there is any.
pub proof fn law_the_match_before_is_the_nearest(all: Seq<(usize, usize)>, at: usize)
    requires
        in_starting_order(all),
    ensures
        prev_match(all, at) is None <==> all.len() == 0,
        prev_match(all, at) matches Some(m) ==> all.contains(m) && forall|j: int|
            0 <= j < all.len() ==> if m.0 < at {
                (#[trigger] all[j]).0 >= at || all[j].0 <= m.0
            } else {
                all[j].0 >= at && all[j].0 <= m.0
            },
{
    lemma_last_before(all, at, all.len());
    if all.len() > 0 {
        assert(all.last() == all[all.len() - 1]);
    }
}

proof fn lemma_within(all: Seq<(usize, usize)>, from: usize, to: usize, n: nat)
    requires
        n <= all.len(),
        in_starting_order(all),
    ensures
        in_starting_order(within_upto(all, from, to, n)),
        forall|k: int|
            0 <= k < within_upto(all, from, to, n).len() ==> exists|i: int|
                0 <= i < n && all[i] == #[trigger] within_upto(all, from, to, n)[k] && from
                    <= (#[trigger] all[i]).0 && all[i].1 <= to,
        forall|i: int|
            0 <= i < n && from <= (#[trigger] all[i]).0 && all[i].1 <= to ==> within_upto(
                all,
                from,
                to,
                n,
            ).contains(all[i]),
    decreases n,
{
    if n > 0 {
        let m = (n - 1) as nat;
        lemma_within(all, from, to, m);
        let head = within_upto(all, from, to, m);
        let v = within_upto(all, from, to, n);
        if all[n - 1].0 >= from && all[n - 1].1 <= to {
            assert(v == head.push(all[n - 1]));
            assert(v[head.len() as int] == all[n - 1]);
            assert forall|k: int| 0 <= k < head.len() implies #[trigger] v[k] == head[k] by {}
            assert forall|i: int, j: int| 0 <= i < j < v.len() implies (#[trigger] v[i]).0 <= (
            #[trigger] v[j]).0 by {
                if j == head.len() {
                    let x = choose|x: int| 0 <= x < m && all[x] == head[i] && from
                        <= (#[trigger] all[x]).0 && all[x].1 <= to;
                    assert(all[x].0 <= all[n - 1].0);
                }
            }
            assert forall|i: int|
                0 <= i < n && from <= (#[trigger] all[i]).0 && all[i].1 <= to implies v.contains(
                all[i],
            ) by {
                if i < m {
                    let k = choose|k: int| 0 <= k < head.len() && head[k] == all[i];
                    assert(v[k] == all[i]);
                }
            }
        }
    }
}

/// Of the matches, those that lie within a stretch are kept, all of them and
/// no other, in their order.
pub proof fn law_the_matches_within_are_kept(
    all: Seq<(usize, usize)>,
    from: usize,
    to: usize,
    m: (usize, usize),
)
    requires
        in_starting_order(all),
    ensures
        within_upto(all, from, to, all.len()).contains(m) <==> all.contains(m) && from <= m.0 && m.1
            <= to,
        in_starting_order(within_upto(all, from, to, all.len())),
{
    lemma_within(all, from, to, all.len());
}

// ---- reading a substitution ------------------------------------------------------------------

/// A part as it is written between delimiters: each delimiter in it behind a
/// backslash.
pub open spec fn written(part: Seq<char>, delim: char) -> Seq<char>
    decreases part.len(),
{
    if part.len() == 0 {
        Seq::empty()
    } else if part[0] == delim {
        seq!['\\', delim] + written(part.skip(1), delim)
    } else {
        seq![part[0]] + written(part.skip(1), delim)
    }
}

proof fn lemma_fields_moved(
    x: Seq<char>,
    delim: char,
    i: int,
    y: Seq<char>,
    j: int,
    part: Seq<char>,
)
    requires
        0 <= i <= x.len(),
        0 <= j <= y.len(),
        x.skip(i) == y.skip(j),
    ensures
        fields_from(x, delim, i, part) == fields_from(y, delim, j, part),
    decreases x.len() - i,
{
    assert(x.skip(i).len() == x.len() - i && y.skip(j).len() == y.len() - j);
    if i < x.len() {
        assert(x.skip(i)[0] == x[i] && y.skip(j)[0] == y[j]);
        assert(x.skip(i + 1) =~= x.skip(i).skip(1));
        assert(y.skip(j + 1) =~= y.skip(j).skip(1));
        lemma_fields_moved(x, delim, i + 1, y, j + 1, Seq::empty());
        lemma_fields_moved(x, delim, i + 1, y, j + 1, part.push(x[i]));
        if i + 1 < x.len() {
            assert(x.skip(i)[1] == x[i + 1] && y.skip(j)[1] == y[j + 1]);
            assert(x.skip(i + 2) =~= x.skip(i).skip(2));
            assert(y.skip(j + 2) =~= y.skip(j).skip(2));
            lemma_fields_moved(x, delim, i + 2, y, j + 2, part.push(delim));
        }
    }
}

/// Whether a part can be told from the delimiter behind it: it does not end in
/// a backslash.
pub open spec fn is_closed_part(part: Seq<char>) -> bool {
    part.len() > 0 ==> part.last() != '\\'
}

proof fn lemma_field(p: Seq<char>, delim: char, tail: Seq<char>, part: Seq<char>)
    requires
        delim != '\\',
        tail.len() > 0 ==> tail[0] == delim && is_closed_part(p),
    ensures
        fields_from(written(p, delim) + tail, delim, 0, part) == (if tail.len() == 0 {
            seq![part + p]
        } else {
            seq![part + p] + fields_from(tail, delim, 1, Seq::empty())
        }),
    decreases p.len(),
{
    let x = written(p, delim) + tail;
    if p.len() == 0 {
        assert(x =~= tail);
        assert(part + p =~= part);
    } else {
        let q = p.skip(1);
        let y = written(q, delim) + tail;
        assert(q.len() > 0 ==> q.last() == p.last());
        if p[0] == delim {
            assert(x[0] == '\\' && x[1] == delim);
            assert(x.skip(2) =~= y.skip(0));
            lemma_fields_moved(x, delim, 2, y, 0, part.push(delim));
            lemma_field(q, delim, tail, part.push(delim));
            assert(part.push(delim) + q =~= part + p);
        } else {
            assert(x[0] == p[0]);
            assert(x.skip(1) =~= y.skip(0));
            if p[0] == '\\' && x.len() > 1 && x[1] == delim {
                // what follows a backslash is no delimiter: one in the part is
                // written behind a backslash of its own
                if q.len() == 0 {
                    assert(x[1] == tail[0]);
                    assert(p.last() == p[0]);
                } else if q[0] == delim {
                    assert(x[1] == '\\');
                } else {
                    assert(x[1] == q[0]);
                }
            }
            lemma_fields_moved(x, delim, 1, y, 0, part.push(p[0]));
            lemma_field(q, delim, tail, part.push(p[0]));
            assert(part.push(p[0]) + q =~= part + p);
        }
    }
}

/// How a substitution begins: `s`, or `%s` for the whole buffer, and the
/// delimiter.
pub open spec fn opening(whole: bool, delim: char) -> Seq<char> {
    if whole {
        seq!['%', 's', delim]
    } else {
        seq!['s', delim]
    }
}

/// The fields behind a delimiter.
proof fn lemma_next_fields(p: Seq<char>, delim: char, body: Seq<char>)
    requires
        delim != '\\',
        is_closed_part(p),
    ensures
        fields_from(written(p, delim) + (seq![delim] + body), delim, 0, Seq::empty()) == seq![p]
            + fields_from(body, delim, 0, Seq::empty()),
{
    let t = seq![delim] + body;
    let none = Seq::<char>::empty();
    assert(t[0] == delim);
    assert(t.skip(1) =~= body.skip(0));
    lemma_fields_moved(t, delim, 1, body, 0, none);
    lemma_field(p, delim, t, none);
    assert(none + p =~= p);
}

proof fn lemma_last_field(p: Seq<char>, delim: char)
    requires
        delim != '\\',
    ensures
        fields_from(written(p, delim), delim, 0, Seq::empty()) == seq![p],
{
    let none = Seq::<char>::empty();
    lemma_field(p, delim, none, none);
    assert(written(p, delim) + none =~= written(p, delim));
    assert(none + p =~= p);
}

proof fn lemma_opened(whole: bool, delim: char, body: Seq<char>)
    requires
        !is_white(delim),
        !alphanumeric(delim),
    ensures
        substitution(opening(whole, delim) + body) == Some(
            substitute_of(whole, fields_from(body, delim, 0, Seq::empty())),
        ),
{
    reveal(substitution);
    let line = opening(whole, delim) + body;
    let rest = seq!['s', delim] + body;
    assert(line[0] == opening(whole, delim)[0]);
    if whole {
        assert(line.skip(1) =~= rest);
    } else {
        assert(line =~= rest);
    }
    assert(rest[0] == 's' && rest[1] == delim);
    assert(rest.skip(2) =~= body.skip(0));
    lemma_fields_moved(rest, delim, 2, body, 0, Seq::empty());
}

/// A substitution that is written out is read as what it says: the pattern and
/// the replacement between delimiters, with a backslash before each delimiter
/// that belongs to them, and the flags behind them, `g` and `i`. `%` is for
/// the whole buffer.
pub proof fn law_a_written_substitution_is_read(
    whole: bool,
    delim: char,
    pattern: Seq<char>,
    repl: Seq<char>,
    flags: Seq<char>,
)
    requires
        !is_white(delim),
        delim != '\\',
        is_closed_part(pattern),
        is_closed_part(repl),
    ensures
        !alphanumeric(delim) ==> substitution(
            opening(whole, delim) + (written(pattern, delim) + (seq![delim] + (written(repl, delim)
                + (seq![delim] + written(flags, delim))))),
        ) == Some(
            SubstituteView {
                whole_buffer: whole,
                pattern,
                replacement: repl,
                global: flags.contains('g'),
                insensitive: flags.contains('i'),
                malformed: false,
            },
        ),
{
    if !alphanumeric(delim) {
        let b3 = written(flags, delim);
        let b2 = written(repl, delim) + (seq![delim] + b3);
        let b1 = written(pattern, delim) + (seq![delim] + b2);
        lemma_last_field(flags, delim);
        lemma_next_fields(repl, delim, b3);
        lemma_next_fields(pattern, delim, b2);
        lemma_opened(whole, delim, b1);
        assert(seq![pattern] + (seq![repl] + seq![flags]) =~= seq![pattern, repl, flags]);
    }
}

/// The flags may be left out, and then none is set; without a delimiter behind
/// the pattern the substitution is malformed.
pub proof fn law_a_substitution_without_flags_is_read(
    whole: bool,
    delim: char,
    pattern: Seq<char>,
    repl: Seq<char>,
)
    requires
        !is_white(delim),
        delim != '\\',
        is_closed_part(pattern),
    ensures
        !alphanumeric(delim) ==> substitution(
            opening(whole, delim) + (written(pattern, delim) + (seq![delim] + written(repl, delim))),
        ) == Some(
            SubstituteView {
                whole_buffer: whole,
                pattern,
                replacement: repl,
                global: false,
                insensitive: false,
                malformed: false,
            },
        ),
        !alphanumeric(delim) ==> (substitution(
            opening(whole, delim) + written(pattern, delim),
        ) matches Some(v) && v.malformed),
{
    if !alphanumeric(delim) {
        let b2 = written(repl, delim);
        let b1 = written(pattern, delim) + (seq![delim] + b2);
        lemma_last_field(repl, delim);
        lemma_last_field(pattern, delim);
        lemma_next_fields(pattern, delim, b2);
        lemma_opened(whole, delim, b1);
        lemma_opened(whole, delim, written(pattern, delim));
        assert(seq![pattern] + seq![repl] =~= seq![pattern, repl]);
    }
}

// ---- where a substitution looks ----------------------------------------------------------------

proof fn lemma_replaced_within(
    s: Seq<char>,
    part: Seq<char>,
    from: int,
    cs: Seq<Groups>,
    repl: Seq<char>,
    global: bool,
    n: nat,
    len: int,
    j: int,
)
    requires
        n <= cs.len(),
        captures_fit(cs, len),
        0 <= j < replaced_upto(s, part, from, cs, repl, global, n).len(),
    ensures
        ({
            let v = replaced_upto(s, part, from, cs, repl, global, n);
            from <= v[j].0 <= v[j].1 <= from + len
        }),
    decreases n,
{
    let head = replaced_upto(s, part, from, cs, repl, global, (n - 1) as nat);
    let v = replaced_upto(s, part, from, cs, repl, global, n);
    if j < head.len() {
        lemma_replaced_within(s, part, from, cs, repl, global, (n - 1) as nat, len, j);
        assert(v[j] == head[j]);
    } else {
        assert(cs[n - 1].len() > 0 && cs[n - 1][0] is Some);
    }
}

/// Without `%` a substitution replaces nothing but what is on the cursor's
/// line; with it, what is anywhere in the text.
pub proof fn law_a_substitution_keeps_to_its_scope(
    d: DocView,
    v: SubstituteView,
    pattern: Seq<char>,
    a: int,
    e: int,
    n: int,
    j: int,
)
    requires
        d.cursor <= d.text.len(),
        is_on(d.text, d.cursor as int, a, e, n),
        0 <= j,
    ensures
        ({
            let (from, to) = if v.whole_buffer {
                (0, d.text.len() as int)
            } else {
                (a, e)
            };
            let cs = captures_in(d.text.subrange(from, to), pattern, v.insensitive);
            &&& found_for(d, v, pattern) == replacements(
                d.text,
                from,
                to,
                pattern,
                v.replacement,
                v.global,
                v.insensitive,
            )
            &&& captures_fit(cs, to - from) && j < found_for(d, v, pattern).len() ==> from <= found_for(
                d,
                v,
                pattern,
            )[j].0 <= found_for(d, v, pattern)[j].1 <= to
        }),
{
    reveal(found_for);
    lemma_is_on(d.text, d.cursor as int, a, e, n);
    let (from, to) = if v.whole_buffer {
        (0, d.text.len() as int)
    } else {
        (a, e)
    };
    let part = d.text.subrange(from, to);
    let cs = captures_in(part, pattern, v.insensitive);
    if captures_fit(cs, to - from) && j < found_for(d, v, pattern).len() {
        lemma_replaced_within(
            d.text,
            part,
            from,
            cs,
            v.replacement,
            v.global,
            cs.len(),
            to - from,
            j,
        );
    }
}

/// What a substitution of one match leaves: the text with the match's place
/// taken by what is put in.
pub proof fn law_one_replacement_is_made_in_its_place(d: DocView, r: (int, int, Seq<char>))
    requires
        0 <= r.0 <= r.1 <= d.text.len(),
    ensures
        all_replaced(d, seq![r]).text == d.text.take(r.0) + r.2 + d.text.skip(r.1),
{
    reveal(all_replaced);
    let one = (r.0, r.1, Some(r.2));
    assert(as_edits(seq![r]) =~= seq![one]);
    crate::document::lemma_one_edit_len(d.text, one);
    lemma_applied_text(
        d,
        seq![one],
        crate::document::ride(
            crate::transaction::change_ops(seq![one], d.text.len() as int),
            d.cursor,
        ),
    );
}

/// What a substitution of two matches leaves.
pub proof fn law_two_replacements_are_made_in_their_places(
    d: DocView,
    q: (int, int, Seq<char>),
    r: (int, int, Seq<char>),
)
    requires
        0 <= q.0 <= q.1 <= r.0 <= r.1 <= d.text.len(),
    ensures
        all_replaced(d, seq![q, r]).text == d.text.take(q.0) + q.2 + d.text.subrange(q.1, r.0) + r.2
            + d.text.skip(r.1),
{
    reveal(all_replaced);
    let es = as_edits(seq![q, r]);
    assert(es[0] == (q.0, q.1, Some(q.2)));
    assert(es[1] == (r.0, r.1, Some(r.2)));
    assert(crate::transaction::edits_fit(es, d.text.len() as int));
    lemma_two_edits(d.text, es);
    lemma_applied_text(
        d,
        es,
        crate::document::ride(
            crate::transaction::change_ops(es, d.text.len() as int),
            d.cursor,
        ),
    );
}

// ---- searching in a document -------------------------------------------------------------------

/// `n` goes to the nearest match at the cursor or behind it, and `N` to the
/// nearest in front of the selection; both go round the ends.
pub proof fn law_the_search_steps_to_the_nearest_match(d: DocView, pattern: Seq<char>, j: int)
    requires
        0 <= j,
    ensures
        ({
            let all = matches_of(d.text, pattern);
            let start = if d.anchor <= d.cursor {
                d.anchor
            } else {
                d.cursor
            };
            in_starting_order(all) && j < all.len() ==> {
                &&& match_stepped(d, pattern, true) matches Some(m) && all.contains(m) && (if m.0
                    >= d.cursor {
                    all[j].0 < d.cursor || m.0 <= all[j].0
                } else {
                    all[j].0 < d.cursor && m.0 <= all[j].0
                })
                &&& match_stepped(d, pattern, false) matches Some(m) && all.contains(m) && (if m.0
                    < start {
                    all[j].0 >= start || all[j].0 <= m.0
                } else {
                    all[j].0 >= start && all[j].0 <= m.0
                })
            }
        }),
{
    reveal(match_stepped);
    let all = matches_of(d.text, pattern);
    let start = if d.anchor <= d.cursor {
        d.anchor
    } else {
        d.cursor
    };
    if in_starting_order(all) {
        law_the_next_match_is_the_nearest(all, d.cursor);
        law_the_match_before_is_the_nearest(all, start);
    }
}

/// `s` selects every match within the selection, or within the text where
/// nothing is selected, and no other.
pub proof fn law_every_match_within_is_selected(d: DocView, pattern: Seq<char>, m: (usize, usize))
    requires
        placed(d),
        d.text.len() <= usize::MAX,
    ensures
        ({
            let all = matches_of(d.text, pattern);
            let v = matches_in(d, pattern);
            in_starting_order(all) ==> {
                &&& d.anchor < d.cursor ==> (v.contains(m) <==> all.contains(m) && d.anchor <= m.0
                    && m.1 <= d.cursor)
                &&& d.cursor < d.anchor ==> (v.contains(m) <==> all.contains(m) && d.cursor <= m.0
                    && m.1 <= d.anchor)
                &&& d.anchor == d.cursor ==> (v.contains(m) <==> all.contains(m) && m.1
                    <= d.text.len())
                &&& in_starting_order(v)
            }
        }),
{
    reveal(matches_in);
    let all = matches_of(d.text, pattern);
    if in_starting_order(all) {
        law_the_matches_within_are_kept(all, 0, d.text.len() as usize, m);
        law_the_matches_within_are_kept(all, d.anchor, d.cursor, m);
        law_the_matches_within_are_kept(all, d.cursor, d.anchor, m);
    }
}

/// Matches that are selected are all there, the first of them as the primary
/// selection.
pub proof fn law_the_matches_become_the_selections(d: DocView, v: Seq<(usize, usize)>, i: int)
    requires
        0 <= i < v.len(),
    ensures
        ({
            let r = ranges_selected(d, v);
            &&& r.text == d.text
            &&& (r.anchor, r.cursor) == v[0]
            &&& r.extra.len() == v.len() - 1
            &&& i > 0 ==> r.extra[i - 1] == v[i]
        }),
{
    reveal(ranges_selected);
}

} // verus!
