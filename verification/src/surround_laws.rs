//! What surrounding does to a text, and what takes the pair away again.

use vstd::prelude::*;
use crate::document::{applied, lemma_keeps_all, placed, DocView};
use crate::motions::range_of;
use crate::object_laws::{
    height, is_around, is_pair, law_brackets_are_the_innermost_pair, opens_before,
};
use crate::objects::{brackets_around, object_of};
use crate::selections::selections_of;
use crate::surround::{
    mark_edit, mark_edits, marks_upto, object_at, objects_selected, pair_at, range_at,
    surround_edited, surrounded, with_mark, with_wrap, wrap_edit, wrap_edits, wrapping, wraps_upto,
};
use crate::transaction::{
    change_ops, edit_text, edits_fit, edits_head, keeps_all, law_change_makes_the_edits, with_edits,
    EditView,
};

verus! {

/// The text of a document once two edits have been made.
pub proof fn lemma_two_edits(s: Seq<char>, es: Seq<EditView>)
    requires
        es.len() == 2,
        edits_fit(es, s.len() as int),
    ensures
        with_edits(s, es) == s.take(es[0].0) + edit_text(es[0]) + s.subrange(es[0].1, es[1].0)
            + edit_text(es[1]) + s.skip(es[1].1),
{
    reveal_with_fuel(edits_head, 3);
    assert(0 <= es[0].0 <= es[0].1);
    assert(es[0].1 <= es[1].0 <= es[1].1 <= s.len());
    assert(s.subrange(0, es[0].0) =~= s.take(es[0].0));
    assert(edits_head(s, es, 0) =~= Seq::empty());
    assert(edits_head(s, es, 1) =~= s.take(es[0].0) + edit_text(es[0]));
    assert(es.last() == es[1]);
}

pub proof fn lemma_applied_text(d: DocView, es: Seq<EditView>, cursor: usize)
    requires
        edits_fit(es, d.text.len() as int),
    ensures
        applied(d, change_ops(es, d.text.len() as int), cursor).text == with_edits(d.text, es),
{
    let ops = change_ops(es, d.text.len() as int);
    law_change_makes_the_edits(es, d.text);
    if keeps_all(ops) {
        lemma_keeps_all(ops, d.text);
    }
}

/// The pair that a character surrounds with: the one it names, or itself on
/// both sides.
pub open spec fn is_pair_for(c: char, open: char, close: char) -> bool {
    if c == '(' || c == ')' {
        open == '(' && close == ')'
    } else if c == '[' || c == ']' {
        open == '[' && close == ']'
    } else if c == '{' || c == '}' {
        open == '{' && close == '}'
    } else if c == '<' || c == '>' {
        open == '<' && close == '>'
    } else {
        open == c && close == c
    }
}

/// What a document's one selection takes: what lies between its ends, or the
/// character under a bare cursor.
pub open spec fn is_taken(d: DocView, a: int, b: int) -> bool {
    let len = d.text.len();
    if d.anchor < d.cursor {
        a == d.anchor && b == d.cursor
    } else if d.cursor < d.anchor {
        a == d.cursor && b == d.anchor
    } else if d.cursor < len {
        a == d.cursor && b == a + 1
    } else {
        a == len && b == len
    }
}

/// Surrounding a selection puts the opening character in front of it and the
/// closing one behind it, and leaves the rest of the text as it is.
pub proof fn law_surrounding_puts_a_pair_around(
    d: DocView,
    c: char,
    open: char,
    close: char,
    a: int,
    b: int,
)
    requires
        placed(d),
        d.text.len() <= usize::MAX,
        d.extra.len() == 0,
        is_taken(d, a, b),
        is_pair_for(c, open, close),
    ensures
        surrounded(d, c).text == d.text.take(a) + seq![open] + d.text.subrange(a, b) + seq![close]
            + d.text.skip(b),
{
    let s = d.text;
    let len = s.len() as int;
    reveal(range_of);
    assert(range_at(d, 0) == (a as usize, b as usize));
    assert(wrapping(c) == (open, close));
    let none = Seq::<(usize, bool)>::empty();
    let x = (a as usize, false);
    let y = (b as usize, true);
    reveal_with_fuel(wraps_upto, 2);
    reveal_with_fuel(with_wrap, 3);
    assert(wraps_upto(d, 0) =~= none);
    let one = with_wrap(none, x, 0);
    assert(one =~= seq![x]);
    assert(a < b ==> with_wrap(one, y, 0) =~= seq![x, y]);
    assert(one.push(y) =~= seq![x, y]);
    let marks = wraps_upto(d, 1);
    assert(marks =~= seq![x, y]);
    let es = wrap_edits(marks, (open, close));
    assert(es[0] == wrap_edit(x, (open, close)));
    assert(es[1] == wrap_edit(y, (open, close)));
    assert(edits_fit(es, len));
    lemma_two_edits(s, es);
    lemma_applied_text(d, es, crate::document::ride(change_ops(es, len), d.cursor));
    assert(edit_text(es[0]) == seq![open]);
    assert(edit_text(es[1]) == seq![close]);
}

/// Deleting the pair around a selection takes away its two characters and
/// nothing else; replacing it puts the new ones in their places. Nothing
/// happens where the selection is in no pair.
pub proof fn law_the_pair_around_is_edited(d: DocView, open: char, close: char, o: char, k: char)
    requires
        placed(d),
        d.extra.len() == 0,
    ensures
        match pair_at(d.text, selections_of(d)[0], open, close) {
            Some((x, y)) => {
                let s = d.text;
                x < y < s.len() ==> {
                    &&& surround_edited(d, open, close, None) matches Some(r) && r.text == s.take(
                        x as int,
                    ) + s.subrange(x + 1, y as int) + s.skip(y + 1)
                    &&& surround_edited(d, open, close, Some((o, k))) matches Some(r) && r.text
                        == s.take(x as int) + seq![o] + s.subrange(x + 1, y as int) + seq![k]
                        + s.skip(y + 1)
                }
            },
            None => surround_edited(d, open, close, None) is None && surround_edited(
                d,
                open,
                close,
                Some((o, k)),
            ) is None,
        },
{
    let s = d.text;
    let len = s.len() as int;
    let sels = selections_of(d);
    let none = Seq::<(usize, bool)>::empty();
    reveal_with_fuel(marks_upto, 2);
    reveal_with_fuel(with_mark, 3);
    assert(marks_upto(s, sels, open, close, 0) =~= none);
    match pair_at(s, sels[0], open, close) {
        Some((x, y)) => {
            if x < y < s.len() {
                let p = (x, false);
                let q = (y, true);
                assert(with_mark(none, p, 0) =~= seq![p]);
                assert(with_mark(seq![p], q, 0) =~= seq![p, q]);
                let marks = marks_upto(s, sels, open, close, 1);
                assert(marks =~= seq![p, q]);
                lemma_marks_edited(d, p, q, None);
                lemma_marks_edited(d, p, q, Some((o, k)));
                assert(s.take(x as int) + Seq::<char>::empty() + s.subrange(x + 1, y as int)
                    + Seq::<char>::empty() + s.skip(y + 1) =~= s.take(x as int) + s.subrange(
                    x + 1,
                    y as int,
                ) + s.skip(y + 1));
            }
        },
        None => {},
    }
}

proof fn lemma_marks_edited(
    d: DocView,
    p: (usize, bool),
    q: (usize, bool),
    new: Option<(char, char)>,
)
    requires
        p.0 < q.0 < d.text.len(),
        !p.1 && q.1,
    ensures
        ({
            let es = mark_edits(seq![p, q], new);
            let s = d.text;
            let ops = change_ops(es, s.len() as int);
            let o = match new {
                Some((o, k)) => seq![o],
                None => Seq::empty(),
            };
            let k = match new {
                Some((o, k)) => seq![k],
                None => Seq::empty(),
            };
            applied(d, ops, crate::document::ride(ops, d.cursor)).text == s.take(p.0 as int) + o
                + s.subrange(p.0 + 1, q.0 as int) + k + s.skip(q.0 + 1)
        }),
{
    let s = d.text;
    let es = mark_edits(seq![p, q], new);
    assert(es[0] == mark_edit(p, new));
    assert(es[1] == mark_edit(q, new));
    assert(edits_fit(es, s.len() as int));
    lemma_two_edits(s, es);
    lemma_applied_text(d, es, crate::document::ride(change_ops(es, s.len() as int), d.cursor));
}

/// Whether the brackets of a text close each other, none left over on either
/// side.
pub open spec fn is_balanced(t: Seq<char>, open: char, close: char) -> bool {
    height(t, t.len() as int, open, close) == 0 && forall|k: int|
        0 <= k <= t.len() ==> #[trigger] height(t, k, open, close) >= 0
}

proof fn lemma_height_within(
    s: Seq<char>,
    t: Seq<char>,
    a: int,
    k: int,
    open: char,
    close: char,
)
    requires
        0 <= a,
        0 <= k <= t.len(),
        a + t.len() <= s.len(),
        s.subrange(a, a + t.len()) == t,
    ensures
        height(s, a + k, open, close) == height(s, a, open, close) + height(t, k, open, close),
    decreases k,
{
    if k > 0 {
        lemma_height_within(s, t, a, k - 1, open, close);
        assert(t[k - 1] == s.subrange(a, a + t.len())[k - 1]);
    }
}

/// Surrounding and then deleting the surrounding pair gives the text back:
/// where what was surrounded has only brackets that close each other, and is
/// what is still selected.
pub proof fn law_deleting_the_pair_undoes_surrounding(
    d: DocView,
    e: DocView,
    c: char,
    open: char,
    close: char,
    a: int,
    b: int,
)
    requires
        placed(d),
        d.text.len() <= usize::MAX,
        d.extra.len() == 0,
        is_taken(d, a, b),
        is_pair_for(c, open, close),
        open != close,
        is_balanced(d.text.subrange(a, b), open, close),
        e.text == surrounded(d, c).text,
        e.extra.len() == 0,
        placed(e),
        e.anchor == a + 1,
        e.cursor == b + 1,
    ensures
        surround_edited(e, open, close, None) matches Some(r) && r.text == d.text,
{
    let s = d.text;
    let t = e.text;
    let mid = s.subrange(a, b);
    law_surrounding_puts_a_pair_around(d, c, open, close, a, b);
    lemma_wrapped(s, a, b, open, close, t);
    lemma_pair_found(t, a, b, mid, open, close);
    assert(selections_of(e)[0] == (e.anchor, e.cursor));
    assert(pair_at(t, selections_of(e)[0], open, close) == Some((a as usize, e.cursor)));
    law_the_pair_around_is_edited(e, open, close, open, close);
}

proof fn lemma_wrapped(s: Seq<char>, a: int, b: int, open: char, close: char, t: Seq<char>)
    requires
        0 <= a <= b <= s.len(),
        t == s.take(a) + seq![open] + s.subrange(a, b) + seq![close] + s.skip(b),
    ensures
        t.len() == s.len() + 2,
        t[a] == open,
        t[b + 1] == close,
        t.subrange(a + 1, b + 1) == s.subrange(a, b),
        t.take(a) + t.subrange(a + 1, b + 1) + t.skip(b + 2) == s,
{
    assert(t.subrange(a + 1, b + 1) =~= s.subrange(a, b));
    assert(t.take(a) =~= s.take(a));
    assert(t.skip(b + 2) =~= s.skip(b));
    assert(s.take(a) + s.subrange(a, b) + s.skip(b) =~= s);
}

proof fn lemma_pair_found(t: Seq<char>, a: int, b: int, mid: Seq<char>, open: char, close: char)
    requires
        open != close,
        0 <= a <= b < t.len() - 1,
        t[a] == open,
        t[b + 1] == close,
        t.subrange(a + 1, b + 1) == mid,
        is_balanced(mid, open, close),
    ensures
        brackets_around(t, a + 1, b + 1, open, close) == Some((a, b + 1)),
{
    let i = opens_before(t, a + 1, b + 1, open);
    assert(height(t, a + 1, open, close) == height(t, a, open, close) + 1);
    assert forall|k: int| a < k <= b + 1 implies #[trigger] height(t, k, open, close) > height(
        t,
        a,
        open,
        close,
    ) by {
        lemma_height_within(t, mid, a + 1, k - a - 1, open, close);
    }
    lemma_height_within(t, mid, a + 1, b - a, open, close);
    assert(height(t, b + 2, open, close) == height(t, a, open, close));
    assert(is_pair(t, a, b + 1, open, close));
    assert(is_around(t, (a, b + 1), i, b + 1, open, close));
    law_brackets_are_the_innermost_pair(t, a + 1, b + 1, open, close);
    let p = brackets_around(t, a + 1, b + 1, open, close)->0;
    assert(is_around(t, p, i, b + 1, open, close));
    assert(a <= p.0 < i);
}

/// Selecting an object selects exactly what the object is, and where there is
/// none nothing is selected anew; the text stays as it is.
pub proof fn law_selecting_an_object_selects_it(
    d: DocView,
    c: char,
    inside: bool,
    a: usize,
    b: usize,
)
    requires
        placed(d),
        d.extra.len() == 0,
    ensures
        ({
            let from = if d.anchor <= d.cursor {
                d.anchor
            } else {
                d.cursor
            };
            let to = if d.anchor <= d.cursor {
                d.cursor
            } else {
                d.anchor
            };
            let found = object_of(d.text, from as int, to as int, c, inside);
            &&& objects_selected(d, c, inside) is None <==> found is None
            &&& found == Some((a as int, b as int)) ==> (objects_selected(
                d,
                c,
                inside,
            ) matches Some(r) && r.anchor == a && r.cursor == b && r.text == d.text && r.extra.len()
                == 0)
        }),
{
}

proof fn lemma_four_edits(s: Seq<char>, es: Seq<EditView>)
    requires
        es.len() == 4,
        edits_fit(es, s.len() as int),
    ensures
        with_edits(s, es) == s.take(es[0].0) + edit_text(es[0]) + s.subrange(es[0].1, es[1].0)
            + edit_text(es[1]) + s.subrange(es[1].1, es[2].0) + edit_text(es[2]) + s.subrange(
            es[2].1,
            es[3].0,
        ) + edit_text(es[3]) + s.skip(es[3].1),
{
    reveal_with_fuel(edits_head, 5);
    assert(0 <= es[0].0 <= es[0].1);
    assert(s.subrange(0, es[0].0) =~= s.take(es[0].0));
    assert(edits_head(s, es, 0) =~= Seq::empty());
    assert(edits_head(s, es, 1) =~= s.take(es[0].0) + edit_text(es[0]));
    assert(es.last() == es[3]);
}

/// Two selections apart from each other are each put between the pair, also
/// where one begins where the other ends.
pub proof fn law_each_of_two_selections_is_surrounded(
    d: DocView,
    c: char,
    open: char,
    close: char,
    p: (usize, usize),
    q: (usize, usize),
)
    requires
        placed(d),
        d.text.len() <= usize::MAX,
        d.extra.len() == 1,
        p.0 < p.1 <= q.0 < q.1,
        ((d.anchor, d.cursor) == p && d.extra[0] == q) || ((d.anchor, d.cursor) == q && d.extra[0]
            == p),
        is_pair_for(c, open, close),
    ensures
        ({
            let s = d.text;
            surrounded(d, c).text == s.take(p.0 as int) + seq![open] + s.subrange(
                p.0 as int,
                p.1 as int,
            ) + seq![close] + s.subrange(p.1 as int, q.0 as int) + seq![open] + s.subrange(
                q.0 as int,
                q.1 as int,
            ) + seq![close] + s.skip(q.1 as int)
        }),
{
    let s = d.text;
    let len = s.len() as int;
    assert(d.extra[0].0 <= s.len());
    lemma_two_marked(d, p, q);
    assert(wrapping(c) == (open, close));
    let marks = seq![(p.0, false), (p.1, true), (q.0, false), (q.1, true)];
    let es = wrap_edits(marks, (open, close));
    assert(es[0] == wrap_edit(marks[0], (open, close)));
    assert(es[1] == wrap_edit(marks[1], (open, close)));
    assert(es[2] == wrap_edit(marks[2], (open, close)));
    assert(es[3] == wrap_edit(marks[3], (open, close)));
    assert(edits_fit(es, len));
    lemma_four_edits(s, es);
    lemma_applied_text(d, es, crate::document::ride(change_ops(es, len), d.cursor));
}

proof fn lemma_two_marked(d: DocView, p: (usize, usize), q: (usize, usize))
    requires
        placed(d),
        d.extra.len() == 1,
        p.0 < p.1 <= q.0 < q.1 <= d.text.len(),
        ((d.anchor, d.cursor) == p && d.extra[0] == q) || ((d.anchor, d.cursor) == q && d.extra[0]
            == p),
    ensures
        wraps_upto(d, 2) == seq![(p.0, false), (p.1, true), (q.0, false), (q.1, true)],
{
    reveal(range_of);
    reveal_with_fuel(wraps_upto, 3);
    reveal_with_fuel(with_wrap, 5);
    let none = Seq::<(usize, bool)>::empty();
    let a = (p.0, false);
    let b = (p.1, true);
    let x = (q.0, false);
    let y = (q.1, true);
    assert(wraps_upto(d, 0) =~= none);
    if (d.anchor, d.cursor) == p {
        assert(range_at(d, 0) == p);
        assert(range_at(d, 1) == q);
        assert(with_wrap(none, a, 0) =~= seq![a]);
        assert(with_wrap(seq![a], b, 0) =~= seq![a, b]);
        assert(wraps_upto(d, 1) =~= seq![a, b]);
        assert(with_wrap(seq![a, b], x, 0) =~= seq![a, b, x]);
        assert(with_wrap(seq![a, b, x], y, 0) =~= seq![a, b, x, y]);
    } else {
        assert(range_at(d, 0) == q);
        assert(range_at(d, 1) == p);
        assert(with_wrap(none, x, 0) =~= seq![x]);
        assert(with_wrap(seq![x], y, 0) =~= seq![x, y]);
        assert(wraps_upto(d, 1) =~= seq![x, y]);
        assert(with_wrap(seq![x, y], a, 0) =~= seq![a, x, y]);
        assert(with_wrap(seq![a, x, y], b, 0) =~= seq![a, b, x, y]);
    }
}

/// With several selections each becomes the object around it, or stays where
/// there is none.
pub proof fn law_every_selection_becomes_its_object(d: DocView, c: char, inside: bool, i: int)
    requires
        placed(d),
        0 <= i < d.extra.len(),
    ensures
        objects_selected(d, c, inside) matches Some(r) ==> {
            let found = object_at(d.text, d.extra[i], c, inside);
            let x = if found is Some {
                found->0
            } else {
                d.extra[i]
            };
            r.text == d.text && (x == (r.anchor, r.cursor) || r.extra.contains(x))
        },
{
    if let Some(r) = objects_selected(d, c, inside) {
        let primary = object_at(d.text, (d.anchor, d.cursor), c, inside);
        let p = crate::surround::or_else(primary, (d.anchor, d.cursor));
        let extra = Seq::new(
            d.extra.len(),
            |k: int|
                crate::surround::or_else(object_at(d.text, d.extra[k], c, inside), d.extra[k]),
        );
        let e = DocView { anchor: p.0, cursor: p.1, extra, goal_col: None, ..d };
        crate::selection_laws::law_each_selection_is_there_once(e, extra[i]);
        assert(extra.contains(extra[i]));
    }
}

} // verus!
