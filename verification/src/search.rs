//! Searching a text by pattern, and what a substitution puts in.

use regex::RegexBuilder;
use ropey::Rope;
use vstd::prelude::*;
use crate::strings::{char_is_digit, chars_of, is_at, is_digit, push_all, stands_at, string_of};
use crate::text::{
    bytes_upto, char_at_byte, lemma_char_at_byte, line_of, rope_char_at_byte, rope_chars, rope_from,
    rope_len, rope_line_of, rope_slice, rope_string,
};

verus! {

/// The groups of one match, each as (start, end); the first is the whole match.
pub type Groups = Seq<Option<(int, int)>>;

/// Every match of a regular expression in a text, as `Regex::captures_iter`
/// gives them, in bytes; nothing where the expression does not compile.
pub uninterp spec fn regex_captures(
    pattern: Seq<char>,
    insensitive: bool,
    text: Seq<char>,
) -> Option<Seq<Seq<Option<(int, int)>>>>;

pub open spec fn span_view(g: Option<(usize, usize)>) -> Option<(int, int)> {
    match g {
        Some((a, b)) => Some((a as int, b as int)),
        None => None,
    }
}

pub open spec fn groups_view(v: Seq<Option<(usize, usize)>>) -> Groups {
    Seq::new(v.len(), |i: int| span_view(v[i]))
}

pub open spec fn captures_view(v: Seq<Vec<Option<(usize, usize)>>>) -> Seq<Groups> {
    Seq::new(v.len(), |i: int| groups_view(v[i]@))
}

/// What holds of the matches of a text of this length: each has a whole
/// match, every group lies in the text, and they come in order, none reaching
/// into the next.
pub open spec fn captures_fit(cs: Seq<Groups>, len: int) -> bool {
    &&& forall|i: int|
        0 <= i < cs.len() ==> (#[trigger] cs[i]).len() > 0 && cs[i][0] is Some
    &&& forall|i: int, g: int|
        0 <= i < cs.len() && 0 <= g < cs[i].len() && (#[trigger] cs[i][g]) is Some ==> 0
            <= (cs[i][g]->0).0 <= (cs[i][g]->0).1 <= len
    &&& forall|i: int, j: int|
        0 <= i < j < cs.len() ==> ((#[trigger] cs[i])[0]->0).1 <= ((#[trigger] cs[j])[0]->0).0
}

/// `RegexBuilder::build` and `Regex::captures_iter`: the groups of every match
/// of a pattern in a text, by bytes. A pattern that does not compile gives
/// nothing. Successive matches do not overlap, and every group lies in the
/// text.
#[verifier::external_body]
fn captures(pattern: &str, insensitive: bool, text: &str) -> (r: Option<
    Vec<Vec<Option<(usize, usize)>>>,
>)
    ensures
        match r {
            Some(v) => regex_captures(pattern@, insensitive, text@) == Some(captures_view(v@))
                && captures_fit(captures_view(v@), bytes_upto(text@, text@.len() as int) as int),
            None => regex_captures(pattern@, insensitive, text@) is None,
        },
{
    let re = RegexBuilder::new(pattern).case_insensitive(insensitive).build().ok()?;
    Some(
        re.captures_iter(text)
            .map(|c| c.iter().map(|g| g.map(|m| (m.start(), m.end()))).collect())
            .collect(),
    )
}

/// The places where a pattern stands literally, from `i` on, none reaching
/// into the next.
pub open spec fn literal_from(s: Seq<char>, p: Seq<char>, i: int) -> Seq<Groups>
    decreases s.len() - i,
{
    if i < 0 || i >= s.len() || p.len() == 0 {
        Seq::empty()
    } else if stands_at(s, p, i) {
        seq![seq![Some((i, i + p.len()))]] + literal_from(s, p, i + p.len())
    } else {
        literal_from(s, p, i + 1)
    }
}

pub open spec fn char_span(s: Seq<char>, g: Option<(int, int)>) -> Option<(int, int)> {
    match g {
        Some((a, b)) => Some((char_at_byte(s, a, 0), char_at_byte(s, b, 0))),
        None => None,
    }
}

pub open spec fn char_groups(s: Seq<char>, gs: Groups) -> Groups {
    Seq::new(gs.len(), |g: int| char_span(s, gs[g]))
}

/// Every match of a pattern, by characters. A pattern that does not compile is
/// searched literally; an empty one matches nothing.
pub open spec fn captures_in(s: Seq<char>, pattern: Seq<char>, insensitive: bool) -> Seq<Groups> {
    if pattern.len() == 0 {
        Seq::empty()
    } else {
        match regex_captures(pattern, insensitive, s) {
            Some(cs) => Seq::new(cs.len(), |i: int| char_groups(s, cs[i])),
            None => literal_from(s, pattern, 0),
        }
    }
}

/// Where the matches are.
pub open spec fn matches_of(s: Seq<char>, pattern: Seq<char>) -> Seq<(usize, usize)> {
    let cs = captures_in(s, pattern, false);
    Seq::new(cs.len(), |i: int| ((cs[i][0]->0).0 as usize, (cs[i][0]->0).1 as usize))
}

/// Ranges of a text in order, none reaching into the next.
pub open spec fn ranges_fit(v: Seq<(usize, usize)>, len: int) -> bool {
    &&& forall|i: int| 0 <= i < v.len() ==> (#[trigger] v[i]).0 <= v[i].1 <= len
    &&& forall|i: int, j: int| 0 <= i < j < v.len() ==> (#[trigger] v[i]).1 <= (#[trigger] v[j]).0
}

proof fn lemma_literal_fit(s: Seq<char>, p: Seq<char>, i: int)
    requires
        0 <= i,
    ensures
        captures_fit(literal_from(s, p, i), s.len() as int),
        forall|k: int|
            0 <= k < literal_from(s, p, i).len() ==> ((#[trigger] literal_from(s, p, i)[k])[0]->0).0
                >= i,
    decreases s.len() - i,
{
    if i < s.len() && p.len() > 0 {
        if stands_at(s, p, i) {
            lemma_literal_fit(s, p, i + p.len());
            let rest = literal_from(s, p, i + p.len());
            let all = literal_from(s, p, i);
            assert forall|k: int| 0 < k < all.len() implies #[trigger] all[k] == rest[k - 1] by {}
            assert(all[0] =~= seq![Some((i, i + p.len()))]);
        } else {
            lemma_literal_fit(s, p, i + 1);
        }
    }
}

proof fn lemma_chars_fit(s: Seq<char>, cs: Seq<Groups>)
    requires
        captures_fit(cs, bytes_upto(s, s.len() as int) as int),
    ensures
        captures_fit(Seq::new(cs.len(), |i: int| char_groups(s, cs[i])), s.len() as int),
{
    let out = Seq::new(cs.len(), |i: int| char_groups(s, cs[i]));
    assert forall|i: int| 0 <= i < out.len() implies (#[trigger] out[i]).len() > 0
        && out[i][0] is Some by {
        assert(cs[i].len() > 0 && cs[i][0] is Some);
    }
    assert forall|i: int, g: int|
        0 <= i < out.len() && 0 <= g < out[i].len() && (#[trigger] out[i][g]) is Some implies 0
        <= (out[i][g]->0).0 <= (out[i][g]->0).1 <= s.len() by {
        assert(cs[i][g] is Some);
        lemma_char_at_byte(s, (cs[i][g]->0).0, (cs[i][g]->0).1, 0);
    }
    assert forall|i: int, j: int| 0 <= i < j < out.len() implies ((#[trigger] out[i])[0]->0).1
        <= ((#[trigger] out[j])[0]->0).0 by {
        assert(cs[i].len() > 0 && cs[i][0] is Some);
        assert(cs[j].len() > 0 && cs[j][0] is Some);
        assert((cs[i][0]->0).1 <= (cs[j][0]->0).0);
        lemma_char_at_byte(s, (cs[i][0]->0).1, (cs[j][0]->0).0, 0);
    }
}

fn literal_captures(s: &[char], p: &[char]) -> (r: Vec<Vec<Option<(usize, usize)>>>)
    requires
        p@.len() > 0,
    ensures
        captures_view(r@) == literal_from(s@, p@, 0),
{
    let mut out: Vec<Vec<Option<(usize, usize)>>> = Vec::new();
    let mut i: usize = 0;
    assert(captures_view(out@) + literal_from(s@, p@, 0) =~= literal_from(s@, p@, 0));
    while i < s.len()
        invariant
            i <= s@.len(),
            p@.len() > 0,
            captures_view(out@) + literal_from(s@, p@, i as int) == literal_from(s@, p@, 0),
        decreases s@.len() - i,
    {
        if is_at(s, p, i) {
            let ghost had = out@;
            let e = i + p.len();
            let mut one: Vec<Option<(usize, usize)>> = Vec::new();
            one.push(Some((i, e)));
            assert(groups_view(one@) =~= seq![Some((i as int, e as int))]);
            out.push(one);
            assert(captures_view(out@) =~= captures_view(had).push(groups_view(one@)));
            assert(captures_view(out@) + literal_from(s@, p@, e as int) =~= captures_view(had)
                + literal_from(s@, p@, i as int));
            i = e;
        } else {
            i += 1;
        }
    }
    assert(captures_view(out@) =~= literal_from(s@, p@, 0));
    out
}

fn groups_by_char(t: &Rope, gs: &Vec<Option<(usize, usize)>>) -> (r: Vec<Option<(usize, usize)>>)
    requires
        forall|g: int|
            0 <= g < gs@.len() && (#[trigger] gs@[g]) is Some ==> (gs@[g]->0).0 <= (gs@[g]->0).1
                <= bytes_upto(rope_chars(*t), rope_chars(*t).len() as int),
    ensures
        groups_view(r@) == char_groups(rope_chars(*t), groups_view(gs@)),
{
    let mut out: Vec<Option<(usize, usize)>> = Vec::new();
    let mut g: usize = 0;
    while g < gs.len()
        invariant
            g <= gs@.len(),
            out@.len() == g,
            forall|g: int|
                0 <= g < gs@.len() && (#[trigger] gs@[g]) is Some ==> (gs@[g]->0).0 <= (gs@[g]->0).1
                    <= bytes_upto(rope_chars(*t), rope_chars(*t).len() as int),
            forall|k: int|
                0 <= k < g ==> span_view(#[trigger] out@[k]) == char_span(
                    rope_chars(*t),
                    span_view(gs@[k]),
                ),
        decreases gs@.len() - g,
    {
        let one: Option<(usize, usize)> = match gs[g] {
            Some((a, b)) => {
                assert(gs@[g as int] is Some);
                Some((rope_char_at_byte(t, a), rope_char_at_byte(t, b)))
            },
            None => None,
        };
        out.push(one);
        g += 1;
    }
    assert(groups_view(out@) =~= char_groups(rope_chars(*t), groups_view(gs@)));
    out
}

/// Every match of a pattern in a text, by characters.
fn find_all(t: &Rope, pattern: &str, insensitive: bool) -> (r: Vec<Vec<Option<(usize, usize)>>>)
    ensures
        captures_view(r@) == captures_in(rope_chars(*t), pattern@, insensitive),
        captures_fit(captures_view(r@), rope_chars(*t).len() as int),
{
    let p = chars_of(pattern);
    if p.len() == 0 {
        let none: Vec<Vec<Option<(usize, usize)>>> = Vec::new();
        assert(captures_view(none@) =~= Seq::empty());
        return none;
    }
    let text = rope_string(t);
    let ghost s = rope_chars(*t);
    match captures(pattern, insensitive, text.as_str()) {
        None => {
            let c = chars_of(text.as_str());
            proof {
                lemma_literal_fit(s, pattern@, 0);
            }
            literal_captures(c.as_slice(), p.as_slice())
        },
        Some(v) => {
            let mut out: Vec<Vec<Option<(usize, usize)>>> = Vec::new();
            let ghost cs = captures_view(v@);
            proof {
                lemma_chars_fit(s, cs);
            }
            let mut i: usize = 0;
            while i < v.len()
                invariant
                    i <= v@.len(),
                    out@.len() == i,
                    s == rope_chars(*t),
                    cs == captures_view(v@),
                    captures_fit(cs, bytes_upto(s, s.len() as int) as int),
                    forall|k: int|
                        0 <= k < i ==> groups_view((#[trigger] out@[k])@) == char_groups(s, cs[k]),
                decreases v@.len() - i,
            {
                assert forall|g: int|
                    0 <= g < v@[i as int]@.len() && (#[trigger] v@[i as int]@[g]) is Some implies (v@[
                i as int]@[g]->0).0 <= (v@[i as int]@[g]->0).1 <= bytes_upto(s, s.len() as int) by {
                    assert(cs[i as int][g] is Some);
                }
                let one = groups_by_char(t, &v[i]);
                out.push(one);
                i += 1;
            }
            assert(captures_view(out@) =~= Seq::new(cs.len(), |i: int| char_groups(s, cs[i])));
            out
        },
    }
}

/// Every match of a pattern, as (start, end).
pub fn matches(t: &Rope, pattern: &str) -> (r: Vec<(usize, usize)>)
    ensures
        r@ == matches_of(rope_chars(*t), pattern@),
        ranges_fit(r@, rope_chars(*t).len() as int),
{
    let all = find_all(t, pattern, false);
    let ghost cs = captures_view(all@);
    let mut out: Vec<(usize, usize)> = Vec::new();
    let mut i: usize = 0;
    while i < all.len()
        invariant
            i <= all@.len(),
            cs == captures_view(all@),
            captures_fit(cs, rope_chars(*t).len() as int),
            out@.len() == i,
            forall|k: int|
                0 <= k < i ==> (#[trigger] out@[k]).0 == (cs[k][0]->0).0 && out@[k].1
                    == (cs[k][0]->0).1,
        decreases all@.len() - i,
    {
        assert(cs[i as int].len() > 0 && cs[i as int][0] is Some);
        assert(cs[i as int][0] == span_view(all@[i as int]@[0]));
        if let Some((a, b)) = all[i][0] {
            out.push((a, b));
        }
        i += 1;
    }
    assert(out@ =~= matches_of(rope_chars(*t), pattern@));
    assert forall|k: int| 0 <= k < out@.len() implies (#[trigger] out@[k]).0 <= out@[k].1
        <= rope_chars(*t).len() by {
        assert(cs[k].len() > 0 && cs[k][0] is Some);
        assert(cs[k][0] is Some);
    }
    assert forall|k: int, j: int| 0 <= k < j < out@.len() implies (#[trigger] out@[k]).1 <= (
    #[trigger] out@[j]).0 by {
        assert((cs[k][0]->0).1 <= (cs[j][0]->0).0);
    }
    out
}

// ---- walking the matches ----------------------------------------------------

/// The first range from `i` on that starts at or after `from`.
pub open spec fn first_at(all: Seq<(usize, usize)>, from: usize, i: int) -> Option<(usize, usize)>
    decreases all.len() - i,
{
    if i < 0 || i >= all.len() {
        None
    } else if all[i].0 >= from {
        Some(all[i])
    } else {
        first_at(all, from, i + 1)
    }
}

/// The last of the first `n` ranges that starts before `at`.
pub open spec fn last_before(all: Seq<(usize, usize)>, at: usize, n: nat) -> Option<(usize, usize)>
    decreases n,
{
    if n == 0 || n > all.len() {
        None
    } else if all[n - 1].0 < at {
        Some(all[n - 1])
    } else {
        last_before(all, at, (n - 1) as nat)
    }
}

/// The match to go to from `from`: the next one, and after the last the first.
pub open spec fn next_match(all: Seq<(usize, usize)>, from: usize) -> Option<(usize, usize)> {
    match first_at(all, from, 0) {
        Some(m) => Some(m),
        None => if all.len() > 0 {
            Some(all[0])
        } else {
            None
        },
    }
}

/// The match before `at`, and before the first the last.
pub open spec fn prev_match(all: Seq<(usize, usize)>, at: usize) -> Option<(usize, usize)> {
    match last_before(all, at, all.len()) {
        Some(m) => Some(m),
        None => if all.len() > 0 {
            Some(all.last())
        } else {
            None
        },
    }
}

pub fn find_next(all: &Vec<(usize, usize)>, from: usize) -> (r: Option<(usize, usize)>)
    ensures
        r == next_match(all@, from),
        r is Some ==> all@.contains(r->0),
{
    let mut i: usize = 0;
    while i < all.len()
        invariant
            i <= all@.len(),
            first_at(all@, from, 0) == first_at(all@, from, i as int),
        decreases all@.len() - i,
    {
        if all[i].0 >= from {
            return Some(all[i]);
        }
        i += 1;
    }
    if all.len() > 0 {
        Some(all[0])
    } else {
        None
    }
}

pub fn find_prev(all: &Vec<(usize, usize)>, at: usize) -> (r: Option<(usize, usize)>)
    ensures
        r == prev_match(all@, at),
        r is Some ==> all@.contains(r->0),
{
    let mut n: usize = all.len();
    while n > 0
        invariant
            n <= all@.len(),
            last_before(all@, at, all@.len()) == last_before(all@, at, n as nat),
        decreases n,
    {
        if all[n - 1].0 < at {
            return Some(all[n - 1]);
        }
        n -= 1;
    }
    if all.len() > 0 {
        Some(all[all.len() - 1])
    } else {
        None
    }
}

/// The ranges that lie within `from..to`.
pub open spec fn within_upto(all: Seq<(usize, usize)>, from: usize, to: usize, n: nat) -> Seq<
    (usize, usize),
>
    decreases n,
{
    if n == 0 || n > all.len() {
        Seq::empty()
    } else {
        let head = within_upto(all, from, to, (n - 1) as nat);
        if all[n - 1].0 >= from && all[n - 1].1 <= to {
            head.push(all[n - 1])
        } else {
            head
        }
    }
}

pub fn keep_within(all: &Vec<(usize, usize)>, from: usize, to: usize) -> (r: Vec<(usize, usize)>)
    ensures
        r@ == within_upto(all@, from, to, all@.len()),
        forall|k: int| 0 <= k < r@.len() ==> (#[trigger] r@[k]).0 >= from && r@[k].1 <= to,
        forall|k: int| 0 <= k < r@.len() ==> all@.contains(#[trigger] r@[k]),
{
    let mut out: Vec<(usize, usize)> = Vec::new();
    let mut i: usize = 0;
    while i < all.len()
        invariant
            i <= all@.len(),
            out@ == within_upto(all@, from, to, i as nat),
            forall|k: int| 0 <= k < out@.len() ==> (#[trigger] out@[k]).0 >= from && out@[k].1 <= to,
            forall|k: int| 0 <= k < out@.len() ==> all@.contains(#[trigger] out@[k]),
        decreases all@.len() - i,
    {
        if all[i].0 >= from && all[i].1 <= to {
            out.push(all[i]);
        }
        i += 1;
    }
    out
}

// ---- substituting -----------------------------------------------------------

pub open spec fn group_text(s: Seq<char>, gs: Groups, n: int) -> Seq<char> {
    if 0 <= n < gs.len() && gs[n] is Some {
        s.subrange((gs[n]->0).0, (gs[n]->0).1)
    } else {
        Seq::empty()
    }
}

/// A replacement from `i` on, with what each group took in place of a
/// backslash and the group's digit.
pub open spec fn expanded(repl: Seq<char>, gs: Groups, s: Seq<char>, i: int) -> Seq<char>
    decreases repl.len() - i,
{
    if i < 0 || i >= repl.len() {
        Seq::empty()
    } else if repl[i] == '\\' && i + 1 < repl.len() && is_digit(repl[i + 1]) {
        group_text(s, gs, repl[i + 1] as int - '0' as int) + expanded(repl, gs, s, i + 2)
    } else {
        seq![repl[i]] + expanded(repl, gs, s, i + 1)
    }
}

/// The replacements of a substitution in the part `from..to` of a text: of
/// every match, or of the first of each line.
pub open spec fn replacements(
    s: Seq<char>,
    from: int,
    to: int,
    pattern: Seq<char>,
    repl: Seq<char>,
    global: bool,
    insensitive: bool,
) -> Seq<(int, int, Seq<char>)> {
    let part = s.subrange(from, to);
    let cs = captures_in(part, pattern, insensitive);
    replaced_upto(s, part, from, cs, repl, global, cs.len())
}

pub open spec fn first_of_line(s: Seq<char>, from: int, cs: Seq<Groups>, i: int) -> bool {
    i == 0 || line_of(s, from + (cs[i][0]->0).0) != line_of(s, from + (cs[i - 1][0]->0).0)
}

pub open spec fn replaced_upto(
    s: Seq<char>,
    part: Seq<char>,
    from: int,
    cs: Seq<Groups>,
    repl: Seq<char>,
    global: bool,
    n: nat,
) -> Seq<(int, int, Seq<char>)>
    decreases n,
{
    if n == 0 || n > cs.len() {
        Seq::empty()
    } else {
        let head = replaced_upto(s, part, from, cs, repl, global, (n - 1) as nat);
        let c = cs[n - 1];
        if global || first_of_line(s, from, cs, n - 1) {
            head.push((from + (c[0]->0).0, from + (c[0]->0).1, expanded(repl, c, part, 0)))
        } else {
            head
        }
    }
}

pub open spec fn replacement_views(v: Seq<(usize, usize, String)>) -> Seq<(int, int, Seq<char>)> {
    Seq::new(v.len(), |i: int| (v[i].0 as int, v[i].1 as int, v[i].2@))
}

/// Replacements that can be made in one go.
pub open spec fn replacements_fit(v: Seq<(int, int, Seq<char>)>, len: int) -> bool {
    &&& forall|i: int| 0 <= i < v.len() ==> 0 <= (#[trigger] v[i]).0 <= v[i].1 <= len
    &&& forall|i: int, j: int| 0 <= i < j < v.len() ==> (#[trigger] v[i]).1 <= (#[trigger] v[j]).0
}

fn expand(repl: &[char], gs: &Vec<Option<(usize, usize)>>, s: &[char]) -> (r: String)
    requires
        forall|g: int|
            0 <= g < gs@.len() && (#[trigger] gs@[g]) is Some ==> (gs@[g]->0).0 <= (gs@[g]->0).1
                <= s@.len(),
    ensures
        r@ == expanded(repl@, groups_view(gs@), s@, 0),
{
    let mut out: Vec<char> = Vec::new();
    let mut i: usize = 0;
    let ghost all = expanded(repl@, groups_view(gs@), s@, 0);
    assert(out@ + all =~= all);
    while i < repl.len()
        invariant
            i <= repl@.len(),
            out@ + expanded(repl@, groups_view(gs@), s@, i as int) == all,
            forall|g: int|
                0 <= g < gs@.len() && (#[trigger] gs@[g]) is Some ==> (gs@[g]->0).0 <= (gs@[g]->0).1
                    <= s@.len(),
        decreases repl@.len() - i,
    {
        let ghost had = out@;
        if repl[i] == '\\' && i < repl.len() - 1 && char_is_digit(repl[i + 1]) {
            let n: usize = repl[i + 1] as usize - '0' as usize;
            if n < gs.len() {
                if let Some((a, b)) = gs[n] {
                    assert(gs@[n as int] is Some);
                    push_all(&mut out, vstd::slice::slice_subrange(s, a, b));
                }
            }
            assert(out@ =~= had + group_text(s@, groups_view(gs@), n as int));
            i += 2;
        } else {
            out.push(repl[i]);
            assert(out@ =~= had + seq![repl@[i as int]]);
            i += 1;
        }
        assert(out@ + expanded(repl@, groups_view(gs@), s@, i as int) =~= all);
    }
    assert(out@ =~= all);
    string_of(out.as_slice())
}

/// The replacements of a substitution in the part `from..to` of a text.
pub fn substitutions(
    t: &Rope,
    from: usize,
    to: usize,
    pattern: &str,
    repl: &str,
    global: bool,
    insensitive: bool,
) -> (r: Vec<(usize, usize, String)>)
    requires
        from <= to <= rope_chars(*t).len(),
    ensures
        replacement_views(r@) == replacements(
            rope_chars(*t),
            from as int,
            to as int,
            pattern@,
            repl@,
            global,
            insensitive,
        ),
        replacements_fit(replacement_views(r@), rope_chars(*t).len() as int),
{
    let ghost s = rope_chars(*t);
    let len = rope_len(t);
    let part_text = rope_slice(t, from, to);
    let part = rope_from(part_text.as_str());
    let p = chars_of(part_text.as_str());
    let rc = chars_of(repl);
    let all = find_all(&part, pattern, insensitive);
    let ghost cs = captures_view(all@);
    let mut out: Vec<(usize, usize, String)> = Vec::new();
    let mut i: usize = 0;
    let mut last: usize = 0;
    assert(replacement_views(out@) =~= Seq::empty());
    while i < all.len()
        invariant
            i <= all@.len(),
            s == rope_chars(*t),
            s.len() == len,
            from <= to <= len,
            p@ == s.subrange(from as int, to as int),
            rc@ == repl@,
            cs == captures_view(all@),
            captures_fit(cs, to - from),
            i > 0 ==> last == line_of(s, from + (cs[i - 1][0]->0).0),
            replacement_views(out@) == replaced_upto(
                s,
                p@,
                from as int,
                cs,
                repl@,
                global,
                i as nat,
            ),
            replacements_fit(replacement_views(out@), len as int),
            forall|k: int|
                0 <= k < out@.len() ==> i > 0 && (#[trigger] out@[k]).1 <= from + (cs[i
                    - 1][0]->0).1,
        decreases all@.len() - i,
    {
        assert(cs[i as int].len() > 0 && cs[i as int][0] is Some);
        assert(cs[i as int][0] == span_view(all@[i as int]@[0]));
        assert(i > 0 ==> (cs[i - 1][0]->0).1 <= (cs[i as int][0]->0).0);
        assert(i > 0 ==> cs[i - 1].len() > 0 && cs[i - 1][0] is Some);
        assert(i > 0 ==> (cs[i - 1][0]->0).0 <= (cs[i - 1][0]->0).1);
        if let Some((a, b)) = all[i][0] {
            let line = rope_line_of(t, from + a);
            if global || i == 0 || line != last {
                let ghost had = out@;
                assert forall|g: int|
                    0 <= g < all@[i as int]@.len() && (#[trigger] all@[i as int]@[g]) is Some implies (all@[
                i as int]@[g]->0).0 <= (all@[i as int]@[g]->0).1 <= p@.len() by {
                    assert(cs[i as int][g] is Some);
                }
                let e = expand(rc.as_slice(), &all[i], p.as_slice());
                let ghost new = (from + a, from + b, e@);
                out.push((from + a, from + b, e));
                assert(replacement_views(out@) =~= replacement_views(had).push(new));
                assert(groups_view(all@[i as int]@) == cs[i as int]);
                assert forall|x: int, y: int|
                    0 <= x < y < out@.len() implies (#[trigger] replacement_views(out@)[x]).1 <= (
                #[trigger] replacement_views(out@)[y]).0 by {
                    if y == had.len() {
                        assert(had[x] == out@[x]);
                        assert(out@[x].1 <= from + (cs[i - 1][0]->0).1);
                    } else {
                        assert(replacement_views(had)[x].1 <= replacement_views(had)[y].0);
                    }
                }
                assert forall|x: int| 0 <= x < out@.len() implies 0 <= (
                #[trigger] replacement_views(out@)[x]).0 <= replacement_views(out@)[x].1 <= len by {
                    if x < had.len() {
                        assert(replacement_views(had)[x].1 <= len);
                    }
                }
                assert forall|k: int| 0 <= k < out@.len() implies (#[trigger] out@[k]).1 <= from
                    + (cs[i as int][0]->0).1 by {
                    if k < had.len() {
                        assert(had[k] == out@[k]);
                    }
                }
            }
            last = line;
        }
        i += 1;
    }
    out
}

} // verus!
