//! What the text objects are, said by what stands in and around them.

use vstd::prelude::*;
use crate::objects::{
    begins_at, brackets_around, close_after, line_begin, matching_bracket, next_begins, object_of,
    open_before, pair_around, pair_of, paragraph_begins, paragraph_ends, quote_after, quotes_around,
    quotes_from, spaces_to, white_ends, white_line, word_from, word_to,
};
use crate::position::class_of;
use crate::strings::is_white;
use crate::text::is_break;

verus! {

// ---- words -------------------------------------------------------------------------

/// Whether two characters can stand in one word; in a WORD, anything but
/// white space can stand together.
pub open spec fn go_together(c: char, k: char, big: bool) -> bool {
    if big {
        !is_white(c) && !is_white(k)
    } else {
        !is_break(c) && !is_break(k) && class_of(c) == class_of(k)
    }
}

/// A white space that ends no line.
pub open spec fn is_space(c: char) -> bool {
    is_white(c) && !is_break(c)
}

/// The key of the word or WORD object.
pub open spec fn word_key(big: bool) -> char {
    if big {
        'W'
    } else {
        'w'
    }
}

proof fn lemma_word_from(s: Seq<char>, i: int, like: char, big: bool)
    requires
        0 <= i <= s.len(),
        !is_break(like),
        big ==> !is_white(like),
    ensures
        0 <= word_from(s, i, like, big) <= i,
        forall|k: int|
            word_from(s, i, like, big) <= k < i ==> go_together(#[trigger] s[k], like, big),
        word_from(s, i, like, big) > 0 ==> !go_together(
            s[word_from(s, i, like, big) - 1],
            like,
            big,
        ),
    decreases i,
{
    if i > 0 && go_together(s[i - 1], like, big) {
        lemma_word_from(s, i - 1, like, big);
    }
}

proof fn lemma_word_to(s: Seq<char>, i: int, like: char, big: bool)
    requires
        0 <= i <= s.len(),
        !is_break(like),
        big ==> !is_white(like),
    ensures
        i <= word_to(s, i, like, big) <= s.len(),
        forall|k: int| i <= k < word_to(s, i, like, big) ==> go_together(#[trigger] s[k], like, big),
        word_to(s, i, like, big) < s.len() ==> !go_together(
            s[word_to(s, i, like, big)],
            like,
            big,
        ),
    decreases s.len() - i,
{
    if i < s.len() && go_together(s[i], like, big) {
        lemma_word_to(s, i + 1, like, big);
    }
}

proof fn lemma_spaces_to(s: Seq<char>, i: int)
    requires
        0 <= i <= s.len(),
    ensures
        i <= spaces_to(s, i) <= s.len(),
        forall|k: int| i <= k < spaces_to(s, i) ==> is_space(#[trigger] s[k]),
        spaces_to(s, i) < s.len() ==> !is_space(s[spaces_to(s, i)]),
    decreases s.len() - i,
{
    if i < s.len() && is_space(s[i]) {
        lemma_spaces_to(s, i + 1);
    }
}

/// The word at a place is the longest stretch around it whose characters go
/// together with the one there: it holds the place, and neither of the
/// characters beside it belongs to it. The end of a line is in no word, white
/// space in no WORD. Around the word, the spaces behind it come along, all of
/// them and nothing else.
pub proof fn law_a_word_is_the_longest_stretch(s: Seq<char>, at: int, to: int, big: bool)
    requires
        0 <= at < s.len(),
    ensures
        object_of(s, at, to, word_key(big), true) is None <==> is_break(s[at]) || (big && is_white(
            s[at],
        )),
        object_of(s, at, to, word_key(big), false) is None <==> is_break(s[at]) || (big && is_white(
            s[at],
        )),
        object_of(s, at, to, word_key(big), true) matches Some((a, b)) ==> {
            &&& 0 <= a <= at < b <= s.len()
            &&& forall|k: int| a <= k < b ==> go_together(#[trigger] s[k], s[at], big)
            &&& a > 0 ==> !go_together(s[a - 1], s[at], big)
            &&& b < s.len() ==> !go_together(s[b], s[at], big)
            &&& object_of(s, at, to, word_key(big), false) matches Some((o, e)) && o == a && b <= e
                <= s.len() && (forall|k: int| b <= k < e ==> is_space(#[trigger] s[k])) && (e
                < s.len() ==> !is_space(s[e]))
        },
{
    if !is_break(s[at]) && !(big && is_white(s[at])) {
        lemma_word_from(s, at, s[at], big);
        lemma_word_to(s, at, s[at], big);
        lemma_spaces_to(s, word_to(s, at, s[at], big));
    }
}

/// Wherever in a word one asks, it is the same word.
pub proof fn law_a_word_is_one_from_any_place(
    s: Seq<char>,
    at: int,
    k: int,
    to: int,
    end: int,
    big: bool,
    inside: bool,
)
    requires
        0 <= at < s.len(),
    ensures
        object_of(s, at, to, word_key(big), true) matches Some((a, b)) ==> a <= k < b ==> object_of(
            s,
            k,
            end,
            word_key(big),
            inside,
        ) == object_of(s, at, to, word_key(big), inside),
{
    law_a_word_is_the_longest_stretch(s, at, to, big);
    if object_of(s, at, to, word_key(big), true) matches Some((a, b)) && a <= k < b {
        lemma_same_word(s, at, k, to, end, big);
    }
}

proof fn lemma_same_word(s: Seq<char>, at: int, k: int, to: int, end: int, big: bool)
    requires
        0 <= at < s.len(),
        object_of(s, at, to, word_key(big), true) matches Some((a, b)) && a <= k < b,
    ensures
        object_of(s, k, end, word_key(big), true) == object_of(s, at, to, word_key(big), true),
        object_of(s, k, end, word_key(big), false) == object_of(s, at, to, word_key(big), false),
{
    law_a_word_is_the_longest_stretch(s, at, to, big);
    law_a_word_is_the_longest_stretch(s, k, end, big);
    let p = object_of(s, at, to, word_key(big), true)->0;
    let q = object_of(s, k, end, word_key(big), true)->0;
    assert(go_together(s[k], s[at], big));
    if q.0 < p.0 {
        assert(go_together(s[p.0 - 1], s[k], big));
    }
    if p.0 < q.0 {
        assert(go_together(s[q.0 - 1], s[at], big));
    }
    if q.1 > p.1 {
        assert(go_together(s[p.1], s[k], big));
    }
    if p.1 > q.1 {
        assert(go_together(s[q.1], s[at], big));
    }
    let x = object_of(s, at, to, word_key(big), false)->0;
    let y = object_of(s, k, end, word_key(big), false)->0;
    if x.1 < y.1 {
        assert(is_space(s[x.1]));
    }
    if y.1 < x.1 {
        assert(is_space(s[y.1]));
    }
}

// ---- brackets ----------------------------------------------------------------------

/// How many more brackets are opened than closed in the first `n` characters.
pub open spec fn height(s: Seq<char>, n: int, open: char, close: char) -> int
    decreases n,
{
    if n <= 0 {
        0
    } else {
        height(s, n - 1, open, close) + if s[n - 1] == open {
            1int
        } else if s[n - 1] == close {
            -1
        } else {
            0
        }
    }
}

/// Whether two places hold a bracket and the one that closes it: between them
/// every bracket that is closed was opened there, and the other way round.
pub open spec fn is_pair(s: Seq<char>, o: int, c: int, open: char, close: char) -> bool {
    &&& 0 <= o < c < s.len()
    &&& s[o] == open
    &&& s[c] == close
    &&& height(s, c + 1, open, close) == height(s, o, open, close)
    &&& forall|k: int|
        o < k <= c ==> #[trigger] height(s, k, open, close) > height(s, o, open, close)
}

/// Whether a pair is around a stretch: opened before `i`, closed at `to` or later.
pub open spec fn is_around(
    s: Seq<char>,
    p: (int, int),
    i: int,
    to: int,
    open: char,
    close: char,
) -> bool {
    is_pair(s, p.0, p.1, open, close) && p.0 < i && to <= p.1
}

/// Whether a pair is the innermost of those around a stretch.
pub open spec fn is_innermost(
    s: Seq<char>,
    p: (int, int),
    i: int,
    to: int,
    open: char,
    close: char,
) -> bool {
    is_around(s, p, i, to, open, close) && forall|q: (int, int)| #[trigger]
        is_around(s, q, i, to, open, close) ==> q.0 <= p.0 && p.1 <= q.1
}

proof fn lemma_open_before(s: Seq<char>, i: int, depth: nat, open: char, close: char)
    requires
        open != close,
        0 <= i <= s.len(),
    ensures
        match open_before(s, i, depth, open, close) {
            Some(o) => 0 <= o < i && s[o] == open && height(s, o, open, close) == height(
                s,
                i,
                open,
                close,
            ) - depth - 1 && forall|k: int|
                o < k <= i ==> #[trigger] height(s, k, open, close) >= height(s, i, open, close)
                    - depth,
            None => forall|k: int|
                0 <= k <= i ==> #[trigger] height(s, k, open, close) >= height(s, i, open, close)
                    - depth,
        },
    decreases i,
{
    if i > 0 {
        if s[i - 1] == open {
            if depth > 0 {
                lemma_open_before(s, i - 1, (depth - 1) as nat, open, close);
            }
        } else if s[i - 1] == close {
            lemma_open_before(s, i - 1, depth + 1, open, close);
        } else {
            lemma_open_before(s, i - 1, depth, open, close);
        }
    }
}

proof fn lemma_close_after(s: Seq<char>, i: int, depth: nat, open: char, close: char)
    requires
        open != close,
        0 <= i <= s.len(),
    ensures
        match close_after(s, i, depth, open, close) {
            Some(c) => i <= c < s.len() && s[c] == close && height(s, c + 1, open, close) == height(
                s,
                i,
                open,
                close,
            ) - depth - 1 && forall|k: int|
                i <= k <= c ==> #[trigger] height(s, k, open, close) >= height(s, i, open, close)
                    - depth,
            None => forall|k: int|
                i <= k <= s.len() ==> #[trigger] height(s, k, open, close) >= height(
                    s,
                    i,
                    open,
                    close,
                ) - depth,
        },
    decreases s.len() - i,
{
    if i < s.len() {
        assert(height(s, i + 1, open, close) == height(s, i, open, close) + if s[i] == open {
            1int
        } else if s[i] == close {
            -1
        } else {
            0
        });
        if s[i] == close {
            if depth > 0 {
                lemma_close_after(s, i + 1, (depth - 1) as nat, open, close);
            }
        } else if s[i] == open {
            lemma_close_after(s, i + 1, depth + 1, open, close);
        } else {
            lemma_close_after(s, i + 1, depth, open, close);
        }
    }
}

proof fn lemma_pair_around(s: Seq<char>, i: int, to: int, open: char, close: char)
    requires
        open != close,
        0 <= i <= s.len(),
        i <= to || (i == to + 1 && s[to] == open),
    ensures
        match pair_around(s, i, to, open, close) {
            Some(p) => is_innermost(s, p, i, to, open, close),
            None => forall|q: (int, int)| !#[trigger] is_around(s, q, i, to, open, close),
        },
    decreases i,
{
    lemma_open_before(s, i, 0, open, close);
    match open_before(s, i, 0, open, close) {
        None => {
            assert forall|q: (int, int)| !#[trigger] is_around(s, q, i, to, open, close) by {
                if is_around(s, q, i, to, open, close) {
                    assert(height(s, i, open, close) > height(s, q.0, open, close));
                }
            }
        },
        Some(o) => {
            lemma_close_after(s, o + 1, 0, open, close);
            assert(height(s, o + 1, open, close) == height(s, o, open, close) + 1);
            assert forall|q: (int, int)| #[trigger] is_around(s, q, i, to, open, close) implies q.0
                <= o && (q.0 == o ==> close_after(s, o + 1, 0, open, close) == Some(q.1)) by {
                assert(height(s, i, open, close) > height(s, q.0, open, close));
                if q.0 > o {
                    assert(height(s, q.0, open, close) >= height(s, i, open, close));
                }
                if q.0 == o {
                    match close_after(s, o + 1, 0, open, close) {
                        Some(c) => {
                            if c < q.1 {
                                assert(height(s, c + 1, open, close) > height(s, o, open, close));
                            }
                            if q.1 < c {
                                assert(height(s, q.1 + 1, open, close) >= height(
                                    s,
                                    o + 1,
                                    open,
                                    close,
                                ));
                            }
                        },
                        None => {
                            assert(height(s, q.1 + 1, open, close) >= height(s, o + 1, open, close));
                        },
                    }
                }
            }
            lemma_pair_around(s, o, to, open, close);
            match close_after(s, o + 1, 0, open, close) {
                Some(c) => {
                    assert forall|k: int| o < k <= c implies #[trigger] height(s, k, open, close)
                        > height(s, o, open, close) by {}
                    assert(is_pair(s, o, c, open, close));
                    if c >= to {
                        assert(is_around(s, (o, c), i, to, open, close));
                        assert forall|q: (int, int)| #[trigger]
                            is_around(s, q, i, to, open, close) implies q.0 <= o && c <= q.1 by {
                            if q.0 < o && q.1 < c {
                                // q closes between o and c: it would be lower there than o
                                assert(height(s, o, open, close) > height(s, q.0, open, close)) by {
                                    assert(q.0 < o <= q.1);
                                }
                                assert(height(s, q.1 + 1, open, close) > height(
                                    s,
                                    o,
                                    open,
                                    close,
                                ));
                            }
                        }
                    } else {
                        lemma_outer(s, o, i, to, open, close);
                    }
                },
                None => {
                    lemma_outer(s, o, i, to, open, close);
                },
            }
        },
    }
}

/// Where the nearest bracket before a stretch does not enclose it, what is
/// around the stretch is what is around it from there.
proof fn lemma_outer(s: Seq<char>, o: int, i: int, to: int, open: char, close: char)
    requires
        0 <= o < i,
        forall|q: (int, int)| #[trigger] is_around(s, q, i, to, open, close) ==> q.0 < o,
    ensures
        match pair_around(s, o, to, open, close) {
            Some(p) => is_innermost(s, p, o, to, open, close) ==> is_innermost(
                s,
                p,
                i,
                to,
                open,
                close,
            ),
            None => (forall|q: (int, int)| !#[trigger] is_around(s, q, o, to, open, close)) ==> (
            forall|q: (int, int)| !#[trigger] is_around(s, q, i, to, open, close)),
        },
{
    assert forall|q: (int, int)| #[trigger] is_around(s, q, i, to, open, close) implies is_around(
        s,
        q,
        o,
        to,
        open,
        close,
    ) by {}
    assert forall|q: (int, int)| #[trigger] is_around(s, q, o, to, open, close) implies is_around(
        s,
        q,
        i,
        to,
        open,
        close,
    ) by {}
}

/// Where the pairs must open that a selection is in: before its start, or on
/// it where a bare cursor stands on an opening bracket.
pub open spec fn opens_before(s: Seq<char>, from: int, to: int, open: char) -> int {
    if from == to && from < s.len() && s[from] == open {
        from + 1
    } else {
        from
    }
}

/// The pair of brackets around a selection is the innermost that encloses it,
/// and there is one whenever any pair encloses it.
pub proof fn law_brackets_are_the_innermost_pair(
    s: Seq<char>,
    from: int,
    to: int,
    open: char,
    close: char,
)
    requires
        open != close,
        0 <= from <= to <= s.len(),
    ensures
        match brackets_around(s, from, to, open, close) {
            Some(p) => is_innermost(s, p, opens_before(s, from, to, open), to, open, close),
            None => forall|q: (int, int)|
                !#[trigger] is_around(s, q, opens_before(s, from, to, open), to, open, close),
        },
{
    lemma_pair_around(s, opens_before(s, from, to, open), to, open, close);
}

/// The characters that name a pair: its opening and its closing one, and a
/// quote itself.
pub proof fn law_a_pair_is_named_by_either_side(c: char)
    ensures
        pair_of('(') == Some(('(', ')')) && pair_of(')') == Some(('(', ')')),
        pair_of('[') == Some(('[', ']')) && pair_of(']') == Some(('[', ']')),
        pair_of('{') == Some(('{', '}')) && pair_of('}') == Some(('{', '}')),
        pair_of('<') == Some(('<', '>')) && pair_of('>') == Some(('<', '>')),
        c == '"' || c == '\'' || c == '`' ==> pair_of(c) == Some((c, c)),
        pair_of(c) matches Some((o, k)) ==> (c == o || c == k) && pair_of(o) == Some((o, k))
            && pair_of(k) == Some((o, k)),
        pair_of(c) is Some ==> c == '(' || c == ')' || c == '[' || c == ']' || c == '{' || c == '}'
            || c == '<' || c == '>' || c == '"' || c == '\'' || c == '`',
{
}

/// A bracket object is what lies in the innermost pair around the selection,
/// or the pair with it; where that is selected already, the same of the next
/// pair out.
pub proof fn law_a_bracket_object_is_the_innermost_that_grows(
    s: Seq<char>,
    from: int,
    to: int,
    open: char,
    close: char,
    key: char,
    p: (int, int),
)
    requires
        pair_of(key) == Some((open, close)),
        open != close,
        0 <= from <= to <= s.len(),
        is_innermost(s, p, opens_before(s, from, to, open), to, open, close),
    ensures
        (p.0 + 1, p.1) != (from, to) ==> object_of(s, from, to, key, true) == Some((p.0 + 1, p.1)),
        (p.0, p.1 + 1) != (from, to) ==> object_of(s, from, to, key, false) == Some((p.0, p.1 + 1)),
        forall|q: (int, int)| #[trigger]
            is_innermost(s, q, p.0, p.1 + 1, open, close) ==> ((p.0 + 1, p.1) == (from, to)
                ==> object_of(s, from, to, key, true) == Some((q.0 + 1, q.1))) && ((p.0, p.1 + 1)
                == (from, to) ==> object_of(s, from, to, key, false) == Some((q.0, q.1 + 1))),
{
    let i = opens_before(s, from, to, open);
    law_brackets_are_the_innermost_pair(s, from, to, open, close);
    assert(is_around(s, p, i, to, open, close));
    let r = brackets_around(s, from, to, open, close)->0;
    assert(is_around(s, r, i, to, open, close));
    assert(r == p);
    lemma_pair_around(s, p.0, p.1 + 1, open, close);
    assert forall|q: (int, int)| #[trigger] is_innermost(s, q, p.0, p.1 + 1, open, close) implies (
    pair_around(s, p.0, p.1 + 1, open, close) == Some(q)) by {
        assert(is_around(s, q, p.0, p.1 + 1, open, close));
        let x = pair_around(s, p.0, p.1 + 1, open, close)->0;
        assert(is_around(s, x, p.0, p.1 + 1, open, close));
    }
}

/// Where no pair encloses a selection there is no bracket object.
pub proof fn law_no_pair_no_bracket_object(
    s: Seq<char>,
    from: int,
    to: int,
    open: char,
    close: char,
    key: char,
    inside: bool,
)
    requires
        pair_of(key) == Some((open, close)),
        open != close,
        0 <= from <= to <= s.len(),
        forall|q: (int, int)|
            !#[trigger] is_around(s, q, opens_before(s, from, to, open), to, open, close),
    ensures
        object_of(s, from, to, key, inside) is None,
{
    law_brackets_are_the_innermost_pair(s, from, to, open, close);
}

/// Whether a character opens or closes the brackets that are matched.
pub open spec fn is_bracket_of(c: char, open: char, close: char) -> bool {
    (c == open || c == close) && ((open == '(' && close == ')') || (open == '[' && close == ']') || (
    open == '{' && close == '}'))
}

/// The bracket that one matches is the other one of its pair, and there is
/// one whenever the bracket is of a pair.
pub proof fn law_matching_is_by_pairs(s: Seq<char>, at: int, m: int, open: char, close: char)
    requires
        0 <= at < s.len(),
        is_bracket_of(s[at], open, close),
    ensures
        matching_bracket(s, at) == Some(m) <==> is_pair(s, at, m, open, close) || is_pair(
            s,
            m,
            at,
            open,
            close,
        ),
{
    if s[at] == open {
        lemma_close_after(s, at + 1, 0, open, close);
        assert(height(s, at + 1, open, close) == height(s, at, open, close) + 1);
        assert(matching_bracket(s, at) == close_after(s, at + 1, 0, open, close));
        match close_after(s, at + 1, 0, open, close) {
            Some(c) => {
                assert forall|k: int| at < k <= c implies #[trigger] height(s, k, open, close)
                    > height(s, at, open, close) by {}
                assert(is_pair(s, at, c, open, close));
                if is_pair(s, at, m, open, close) {
                    if m < c {
                        assert(height(s, m + 1, open, close) > height(s, at, open, close));
                    }
                    if c < m {
                        assert(height(s, c + 1, open, close) > height(s, at, open, close));
                    }
                }
            },
            None => {
                if is_pair(s, at, m, open, close) {
                    assert(height(s, m + 1, open, close) > height(s, at, open, close));
                }
            },
        }
    } else {
        lemma_open_before(s, at, 0, open, close);
        assert(height(s, at + 1, open, close) == height(s, at, open, close) - 1);
        assert(matching_bracket(s, at) == open_before(s, at, 0, open, close));
        match open_before(s, at, 0, open, close) {
            Some(o) => {
                assert forall|k: int| o < k <= at implies #[trigger] height(s, k, open, close)
                    > height(s, o, open, close) by {}
                assert(is_pair(s, o, at, open, close));
                if is_pair(s, m, at, open, close) {
                    if m < o {
                        assert(height(s, o, open, close) > height(s, m, open, close));
                    }
                    if o < m {
                        assert(height(s, m, open, close) > height(s, o, open, close));
                    }
                }
            },
            None => {
                if is_pair(s, m, at, open, close) {
                    assert(height(s, m, open, close) >= height(s, at, open, close));
                    assert(height(s, at, open, close) > height(s, m, open, close));
                }
            },
        }
    }
}

// ---- paragraphs ----------------------------------------------------------------------

/// Whether a row of the text begins at a place.
pub open spec fn begins_row(s: Seq<char>, i: int) -> bool {
    0 <= i <= s.len() && (i == 0 || s[i - 1] == '\n')
}

/// Whether no row ends from one place up to another.
pub open spec fn on_one_row(s: Seq<char>, i: int, k: int) -> bool {
    i <= k <= s.len() && forall|j: int| i <= j < k ==> #[trigger] s[j] != '\n'
}

/// Whether the row that begins at a place has anything but white space.
pub open spec fn has_text(s: Seq<char>, i: int) -> bool {
    exists|k: int| #[trigger] on_one_row(s, i, k + 1) && 0 <= i <= k && !is_white(s[k])
}

proof fn lemma_white_line(s: Seq<char>, i: int)
    requires
        0 <= i <= s.len(),
    ensures
        white_line(s, i) == !has_text(s, i),
    decreases s.len() - i,
{
    if i < s.len() {
        lemma_white_line(s, i + 1);
        if s[i] == '\n' {
            if has_text(s, i) {
                let k = choose|k: int| #[trigger]
                    on_one_row(s, i, k + 1) && 0 <= i <= k && !is_white(s[k]);
                assert(s[i] != '\n');
            }
        } else if !is_white(s[i]) {
            assert(on_one_row(s, i, i + 1));
        } else {
            if has_text(s, i) {
                let k = choose|k: int| #[trigger]
                    on_one_row(s, i, k + 1) && 0 <= i <= k && !is_white(s[k]);
                assert(on_one_row(s, i + 1, k + 1));
            }
            if has_text(s, i + 1) {
                let k = choose|k: int| #[trigger]
                    on_one_row(s, i + 1, k + 1) && 0 <= i + 1 <= k && !is_white(s[k]);
                assert(on_one_row(s, i, k + 1));
            }
        }
    } else if has_text(s, i) {
        let k = choose|k: int| #[trigger]
            on_one_row(s, i, k + 1) && 0 <= i <= k && !is_white(s[k]);
    }
}

proof fn lemma_begins_at(s: Seq<char>, i: int)
    requires
        0 <= i <= s.len(),
    ensures
        0 <= begins_at(s, i) <= i,
        begins_row(s, begins_at(s, i)),
        on_one_row(s, begins_at(s, i), i),
    decreases i,
{
    if i > 0 && s[i - 1] != '\n' {
        lemma_begins_at(s, i - 1);
    }
}

proof fn lemma_next_begins(s: Seq<char>, i: int)
    requires
        0 <= i < s.len(),
    ensures
        i < next_begins(s, i) <= s.len(),
        next_begins(s, i) == s.len() || begins_row(s, next_begins(s, i)),
        on_one_row(s, i, next_begins(s, i) - 1),
    decreases s.len() - i,
{
    if s[i] != '\n' {
        if i + 1 < s.len() {
            lemma_next_begins(s, i + 1);
        } else {
            assert(next_begins(s, i + 1) == i + 1);
        }
    }
}

/// No row begins on the way along one.
proof fn lemma_no_row_between(s: Seq<char>, i: int, k: int, x: int)
    requires
        0 <= i,
        on_one_row(s, i, k),
        i < x <= k,
    ensures
        !begins_row(s, x),
{
    assert(s[x - 1] != '\n');
}

proof fn lemma_paragraph_begins(s: Seq<char>, i: int)
    requires
        begins_row(s, i),
    ensures
        0 <= paragraph_begins(s, i) <= i,
        begins_row(s, paragraph_begins(s, i)),
        forall|x: int| paragraph_begins(s, i) <= x < i && #[trigger] begins_row(s, x) ==> has_text(s, x),
        forall|x: int|
            x < paragraph_begins(s, i) && #[trigger] begins_row(s, x) && on_one_row(
                s,
                x,
                paragraph_begins(s, i) - 1,
            ) ==> !has_text(s, x),
    decreases i,
{
    if i > 0 {
        let above = begins_at(s, i - 1);
        lemma_begins_at(s, i - 1);
        lemma_white_line(s, above);
        if white_line(s, above) {
            assert forall|x: int| x < i && #[trigger] begins_row(s, x) && on_one_row(
                s,
                x,
                i - 1,
            ) implies !has_text(s, x) by {
                if x > above {
                    lemma_no_row_between(s, above, i - 1, x);
                }
                if x < above {
                    lemma_no_row_between(s, x, i - 1, above);
                }
            }
        } else {
            lemma_paragraph_begins(s, above);
            assert forall|x: int|
                paragraph_begins(s, i) <= x < i && #[trigger] begins_row(s, x) implies has_text(
                s,
                x,
            ) by {
                if x > above {
                    lemma_no_row_between(s, above, i - 1, x);
                }
            }
        }
    }
}

proof fn lemma_paragraph_ends(s: Seq<char>, i: int)
    requires
        0 <= i < s.len(),
    ensures
        i < paragraph_ends(s, i) <= s.len(),
        paragraph_ends(s, i) == s.len() || begins_row(s, paragraph_ends(s, i)),
        forall|x: int| i < x < paragraph_ends(s, i) && #[trigger] begins_row(s, x) ==> has_text(s, x),
        !has_text(s, paragraph_ends(s, i)),
    decreases s.len() - i,
{
    let below = next_begins(s, i);
    lemma_next_begins(s, i);
    lemma_white_line(s, below);
    assert forall|x: int| i < x < below implies !#[trigger] begins_row(s, x) by {
        lemma_no_row_between(s, i, below - 1, x);
    }
    if below < s.len() && !white_line(s, below) {
        lemma_paragraph_ends(s, below);
    }
}

proof fn lemma_white_ends(s: Seq<char>, i: int)
    requires
        0 <= i <= s.len(),
    ensures
        i <= white_ends(s, i) <= s.len(),
        white_ends(s, i) > i ==> !has_text(s, i),
        forall|x: int| i < x < white_ends(s, i) && #[trigger] begins_row(s, x) ==> !has_text(s, x),
        white_ends(s, i) < s.len() ==> has_text(s, white_ends(s, i)) && (white_ends(s, i) > i
            ==> begins_row(s, white_ends(s, i))),
    decreases s.len() - i,
{
    if i < s.len() {
        let below = next_begins(s, i);
        lemma_next_begins(s, i);
        lemma_white_line(s, i);
        assert forall|x: int| i < x < below implies !#[trigger] begins_row(s, x) by {
            lemma_no_row_between(s, i, below - 1, x);
        }
        if white_line(s, i) {
            lemma_white_ends(s, below);
        }
    }
}

/// A paragraph is the longest run of rows with text around the row of a
/// place: whole rows, each with text, and the rows above and below it without.
/// A row without text is in none. Around the paragraph, the rows without text
/// below it come along, all of them.
pub proof fn law_a_paragraph_is_the_longest_run_of_rows(s: Seq<char>, at: int, to: int, row: int)
    requires
        0 <= row <= at <= s.len(),
        begins_row(s, row),
        on_one_row(s, row, at),
    ensures
        object_of(s, at, to, 'p', true) is None <==> !has_text(s, row),
        object_of(s, at, to, 'p', false) is None <==> !has_text(s, row),
        object_of(s, at, to, 'p', true) matches Some((a, b)) ==> {
            &&& 0 <= a <= row < b <= s.len()
            &&& at <= b
            &&& begins_row(s, a)
            &&& b == s.len() || begins_row(s, b)
            &&& forall|x: int| a <= x < b && #[trigger] begins_row(s, x) ==> has_text(s, x)
            &&& forall|x: int|
                x < a && #[trigger] begins_row(s, x) && on_one_row(s, x, a - 1) ==> !has_text(s, x)
            &&& !has_text(s, b)
            &&& object_of(s, at, to, 'p', false) matches Some((o, e)) && o == a && b <= e <= s.len()
                && (forall|x: int| b <= x < e && #[trigger] begins_row(s, x) ==> !has_text(s, x))
                && (e < s.len() ==> begins_row(s, e) && has_text(s, e))
        },
{
    let line = begins_at(s, at);
    lemma_begins_at(s, at);
    if line < row {
        lemma_no_row_between(s, line, at, row);
    }
    if row < line {
        lemma_no_row_between(s, row, at, line);
    }
    lemma_white_line(s, row);
    if has_text(s, row) {
        let k = choose|k: int| #[trigger]
            on_one_row(s, row, k + 1) && 0 <= row <= k && !is_white(s[k]);
        lemma_paragraph_begins(s, row);
        lemma_paragraph_ends(s, row);
        let b = paragraph_ends(s, row);
        if b < at {
            lemma_no_row_between(s, row, at, b);
        }
        lemma_white_ends(s, b);
    }
}

// ---- quotes --------------------------------------------------------------------------

/// Whether a character is behind a backslash, counting from a place on: one
/// that is itself behind a backslash puts none behind it.
pub open spec fn is_escaped(s: Seq<char>, b: int, k: int) -> bool
    decreases k - b,
{
    k > b && s[k - 1] == '\\' && !is_escaped(s, b, k - 1)
}

/// Whether a quote stands at a place, not behind a backslash.
pub open spec fn is_quote(s: Seq<char>, b: int, k: int, quote: char) -> bool {
    b <= k < s.len() && s[k] == quote && !is_escaped(s, b, k)
}

/// Whether the line goes on from one place up to another.
pub open spec fn goes_on(s: Seq<char>, b: int, i: int, k: int) -> bool {
    forall|j: int| i <= j < k ==> !(is_break(#[trigger] s[j]) && !is_escaped(s, b, j))
}

/// How many quotes stand from one place up to another.
pub open spec fn quotes_in(s: Seq<char>, b: int, k: int, quote: char) -> nat
    decreases k - b,
{
    if k <= b {
        0
    } else {
        quotes_in(s, b, k - 1, quote) + if is_quote(s, b, k - 1, quote) {
            1nat
        } else {
            0
        }
    }
}

/// Whether a place holds a quote that closes a pair, the quotes of a line
/// being taken in pairs.
pub open spec fn closes_quotes(s: Seq<char>, b: int, k: int, quote: char) -> bool {
    is_quote(s, b, k, quote) && goes_on(s, b, b, k) && quotes_in(s, b, k, quote) % 2 == 1
}

proof fn lemma_no_quotes(s: Seq<char>, b: int, i: int, k: int, quote: char)
    requires
        b <= i <= k,
        forall|j: int| i <= j < k ==> !#[trigger] is_quote(s, b, j, quote),
    ensures
        quotes_in(s, b, k, quote) == quotes_in(s, b, i, quote),
    decreases k - i,
{
    if i < k {
        lemma_no_quotes(s, b, i, k - 1, quote);
    }
}

proof fn lemma_quote_after(s: Seq<char>, b: int, i: int, quote: char)
    requires
        0 <= b <= i,
        quote != '\\',
        !is_break(quote),
        !is_escaped(s, b, i),
    ensures
        match quote_after(s, i, quote) {
            Some(k) => i <= k < s.len() && is_quote(s, b, k, quote) && goes_on(s, b, i, k) && (
            forall|j: int| i <= j < k ==> !#[trigger] is_quote(s, b, j, quote)),
            None => forall|k: int|
                i <= k && #[trigger] is_quote(s, b, k, quote) ==> !goes_on(s, b, i, k),
        },
    decreases s.len() - i,
{
    if i < s.len() {
        if is_break(s[i]) {
            assert forall|k: int| i <= k && #[trigger] is_quote(s, b, k, quote) implies !goes_on(
                s,
                b,
                i,
                k,
            ) by {
                assert(k != i);
                assert(is_break(s[i]) && !is_escaped(s, b, i));
            }
        } else if s[i] == '\\' && i + 1 == s.len() {
            assert forall|k: int| i <= k implies !#[trigger] is_quote(s, b, k, quote) by {}
        } else if s[i] == '\\' {
            assert(is_escaped(s, b, i + 1));
            assert(!is_escaped(s, b, i + 2));
            assert(!is_quote(s, b, i, quote));
            assert(!is_quote(s, b, i + 1, quote));
            lemma_quote_after(s, b, i + 2, quote);
            assert forall|k: int| i + 2 <= k && goes_on(s, b, i, k) implies #[trigger] goes_on(
                s,
                b,
                i + 2,
                k,
            ) by {}
            assert forall|k: int| goes_on(s, b, i + 2, k) implies #[trigger] goes_on(s, b, i, k) by {
                assert forall|j: int| i <= j < k implies !(is_break(#[trigger] s[j]) && !is_escaped(
                    s,
                    b,
                    j,
                )) by {
                    if j == i + 1 {
                        assert(is_escaped(s, b, j));
                    }
                }
            }
        } else if s[i] == quote {
            assert(is_quote(s, b, i, quote));
        } else {
            assert(!is_escaped(s, b, i + 1));
            lemma_quote_after(s, b, i + 1, quote);
            assert forall|k: int| i + 1 <= k && goes_on(s, b, i, k) implies #[trigger] goes_on(
                s,
                b,
                i + 1,
                k,
            ) by {}
        }
    }
}

proof fn lemma_quotes_from(s: Seq<char>, b: int, i: int, to: int, quote: char)
    requires
        0 <= b <= i,
        quote != '\\',
        !is_break(quote),
        !is_escaped(s, b, i),
        goes_on(s, b, b, i),
        quotes_in(s, b, i, quote) % 2 == 0,
        forall|k: int| b <= k < i && #[trigger] closes_quotes(s, b, k, quote) ==> k < to,
    ensures
        match quotes_from(s, i, to, quote) {
            Some((o, c)) => i <= o < c && is_quote(s, b, o, quote) && quotes_in(s, b, o, quote) % 2
                == 0 && closes_quotes(s, b, c, quote) && quotes_in(s, b, c, quote) == quotes_in(
                s,
                b,
                o,
                quote,
            ) + 1 && to <= c && (forall|k: int|
                to <= k && #[trigger] closes_quotes(s, b, k, quote) ==> c <= k),
            None => forall|k: int| to <= k ==> !#[trigger] closes_quotes(s, b, k, quote),
        },
    decreases s.len() - i,
{
    lemma_quote_after(s, b, i, quote);
    match quote_after(s, i, quote) {
        None => {
            assert forall|k: int| to <= k implies !#[trigger] closes_quotes(s, b, k, quote) by {
                if closes_quotes(s, b, k, quote) && k >= i {
                    assert(goes_on(s, b, i, k));
                }
            }
        },
        Some(o) => {
            lemma_no_quotes(s, b, i, o, quote);
            assert(!is_escaped(s, b, o + 1));
            lemma_quote_after(s, b, o + 1, quote);
            assert(quotes_in(s, b, o + 1, quote) == quotes_in(s, b, o, quote) + 1);
            assert forall|k: int| i <= k <= o implies !#[trigger] closes_quotes(s, b, k, quote) by {
                if k < o {
                    assert(!is_quote(s, b, k, quote));
                }
            }
            match quote_after(s, o + 1, quote) {
                None => {
                    assert forall|k: int| to <= k implies !#[trigger] closes_quotes(
                        s,
                        b,
                        k,
                        quote,
                    ) by {
                        if closes_quotes(s, b, k, quote) && k > o {
                            assert(goes_on(s, b, o + 1, k));
                        }
                    }
                },
                Some(c) => {
                    lemma_no_quotes(s, b, o + 1, c, quote);
                    assert(goes_on(s, b, b, c)) by {
                        assert forall|j: int| b <= j < c implies !(is_break(#[trigger] s[j])
                            && !is_escaped(s, b, j)) by {
                            if j == o {
                                assert(s[j] == quote);
                            }
                        }
                    }
                    assert(closes_quotes(s, b, c, quote));
                    assert forall|k: int| o < k < c implies !#[trigger] closes_quotes(
                        s,
                        b,
                        k,
                        quote,
                    ) by {
                        assert(!is_quote(s, b, k, quote));
                    }
                    if c < to {
                        assert(!is_escaped(s, b, c + 1));
                        assert(goes_on(s, b, b, c + 1)) by {
                            assert forall|j: int| b <= j < c + 1 implies !(is_break(#[trigger] s[j])
                                && !is_escaped(s, b, j)) by {
                                if j == c {
                                    assert(s[j] == quote);
                                }
                            }
                        }
                        assert(quotes_in(s, b, c + 1, quote) == quotes_in(s, b, c, quote) + 1);
                        lemma_quotes_from(s, b, c + 1, to, quote);
                    }
                },
            }
        },
    }
}

proof fn lemma_line_begin(s: Seq<char>, i: int)
    requires
        0 <= i <= s.len(),
    ensures
        0 <= line_begin(s, i) <= i,
        line_begin(s, i) == 0 || is_break(s[line_begin(s, i) - 1]),
        forall|j: int| line_begin(s, i) <= j < i ==> !is_break(#[trigger] s[j]),
    decreases i,
{
    if i > 0 && !is_break(s[i - 1]) {
        lemma_line_begin(s, i - 1);
    }
}

/// A quote object lies between two quotes next to each other on the line,
/// neither behind a backslash: of the pairs that the line's quotes make, the
/// first that does not close before the selection ends. There is one whenever
/// any pair closes there or later.
pub proof fn law_a_quote_object_is_between_a_pair_of_quotes(
    s: Seq<char>,
    from: int,
    to: int,
    b: int,
    quote: char,
)
    requires
        0 <= b <= from <= to <= s.len(),
        b == 0 || is_break(s[b - 1]),
        forall|j: int| b <= j < from ==> !is_break(#[trigger] s[j]),
        quote == '"' || quote == '\'' || quote == '`',
    ensures
        match object_of(s, from, to, quote, true) {
            Some((a, c)) => {
                &&& b < a <= c
                &&& is_quote(s, b, a - 1, quote)
                &&& quotes_in(s, b, a - 1, quote) % 2 == 0
                &&& closes_quotes(s, b, c, quote)
                &&& quotes_in(s, b, c, quote) == quotes_in(s, b, a - 1, quote) + 1
                &&& to <= c
                &&& forall|k: int| to <= k && #[trigger] closes_quotes(s, b, k, quote) ==> c <= k
                &&& object_of(s, from, to, quote, false) == Some((a - 1, c + 1))
            },
            None => object_of(s, from, to, quote, false) is None && forall|k: int|
                to <= k ==> !#[trigger] closes_quotes(s, b, k, quote),
        },
{
    lemma_line_begin(s, from);
    let x = line_begin(s, from);
    if x < b {
        assert(!is_break(s[b - 1]));
    }
    if b < x {
        assert(!is_break(s[x - 1]));
    }
    lemma_quotes_from(s, b, b, to, quote);
}

/// The quotes around a selection, for deleting or replacing them, are those
/// that the object lies between, but never the next along the line: the first
/// of them is not behind the selection's start.
pub proof fn law_the_quotes_around_are_not_the_next_along(
    s: Seq<char>,
    from: int,
    to: int,
    quote: char,
    o: int,
    c: int,
)
    requires
        0 <= from <= to <= s.len(),
        quote == '"' || quote == '\'' || quote == '`',
    ensures
        quotes_around(s, from, to, quote) == Some((o, c)) <==> o <= from && object_of(
            s,
            from,
            to,
            quote,
            true,
        ) == Some((o + 1, c)),
{
}

} // verus!
