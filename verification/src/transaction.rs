//! Changesets: the edit and undo primitive.
//!
//! A transaction describes the whole document: which stretches it keeps,
//! which it deletes, and what it inserts between them. It can be inverted
//! against the original text to produce an exact undo, and it can map a
//! position through the edit.

use ropey::Rope;
use serde_json::Value;
use vstd::prelude::*;
use crate::json::{
    as_array, as_text, as_u64, from_array, from_text, from_u64, json_of, jsons, number_json, u64_of,
    Json,
};
use crate::strings::chars_of;
use crate::text::{rope_chars, rope_insert, rope_len, rope_remove, rope_slice};

verus! {

/// One step of a transaction, walking over the original text.
pub enum Op {
    Retain(usize),
    Delete(usize),
    Insert(String),
}

pub enum OpView {
    Retain(nat),
    Delete(nat),
    Insert(Seq<char>),
}

impl View for Op {
    type V = OpView;

    open spec fn view(&self) -> OpView {
        match self {
            Op::Retain(n) => OpView::Retain(*n as nat),
            Op::Delete(n) => OpView::Delete(*n as nat),
            Op::Insert(s) => OpView::Insert(s@),
        }
    }
}

pub struct Transaction {
    pub ops: Vec<Op>,
}

impl View for Transaction {
    type V = Seq<OpView>;

    open spec fn view(&self) -> Seq<OpView> {
        Seq::new(self.ops@.len(), |i: int| self.ops@[i]@)
    }
}

// ---- what a transaction does ------------------------------------------------

/// How much of the original text the steps from `i` on walk over.
pub open spec fn input_from(ops: Seq<OpView>, i: int) -> nat
    decreases ops.len() - i,
{
    if i < 0 || i >= ops.len() {
        0
    } else {
        input_from(ops, i + 1) + match ops[i] {
            OpView::Retain(n) => n,
            OpView::Delete(n) => n,
            OpView::Insert(_) => 0,
        }
    }
}

/// The length of the text that the transaction is for.
pub open spec fn input_len(ops: Seq<OpView>) -> nat {
    input_from(ops, 0)
}

/// What the steps from `i` on make of `s`, the text that is left for them.
pub open spec fn edited_from(ops: Seq<OpView>, i: int, s: Seq<char>) -> Seq<char>
    decreases ops.len() - i,
{
    if i < 0 || i >= ops.len() {
        s
    } else {
        match ops[i] {
            OpView::Retain(n) => s.take(n as int) + edited_from(ops, i + 1, s.skip(n as int)),
            OpView::Delete(n) => edited_from(ops, i + 1, s.skip(n as int)),
            OpView::Insert(t) => t + edited_from(ops, i + 1, s),
        }
    }
}

/// The text after the transaction.
pub open spec fn edited(ops: Seq<OpView>, s: Seq<char>) -> Seq<char> {
    edited_from(ops, 0, s)
}

/// The steps that undo the steps from `i` on.
pub open spec fn inverse_from(ops: Seq<OpView>, i: int, s: Seq<char>) -> Seq<OpView>
    decreases ops.len() - i,
{
    if i < 0 || i >= ops.len() {
        Seq::empty()
    } else {
        match ops[i] {
            OpView::Retain(n) => seq![OpView::Retain(n)] + inverse_from(
                ops,
                i + 1,
                s.skip(n as int),
            ),
            OpView::Delete(n) => seq![OpView::Insert(s.take(n as int))] + inverse_from(
                ops,
                i + 1,
                s.skip(n as int),
            ),
            OpView::Insert(t) => seq![OpView::Delete(t.len())] + inverse_from(ops, i + 1, s),
        }
    }
}

/// The transaction that undoes this one, made for `s`.
pub open spec fn inverse(ops: Seq<OpView>, s: Seq<char>) -> Seq<OpView> {
    inverse_from(ops, 0, s)
}

/// Whether nothing is inserted or deleted.
pub open spec fn keeps_all(ops: Seq<OpView>) -> bool {
    forall|i: int| 0 <= i < ops.len() ==> #[trigger] ops[i] is Retain
}

/// Where a position goes: `old` and `new` are where step `i` starts in the
/// two texts. A position in deleted text goes to where that was; one at an
/// insertion stays before it or is pushed behind it.
pub open spec fn mapped_from(
    ops: Seq<OpView>,
    i: int,
    old: int,
    new: int,
    pos: int,
    before: bool,
) -> int
    decreases ops.len() - i,
{
    if i < 0 || i >= ops.len() {
        new + (pos - old)
    } else {
        match ops[i] {
            OpView::Retain(n) => if pos < old + n {
                new + (pos - old)
            } else {
                mapped_from(ops, i + 1, old + n, new + n, pos, before)
            },
            OpView::Delete(n) => if pos < old + n {
                new
            } else {
                mapped_from(ops, i + 1, old + n, new, pos, before)
            },
            OpView::Insert(t) => if pos == old && before {
                new
            } else {
                mapped_from(ops, i + 1, old, new + t.len(), pos, before)
            },
        }
    }
}

/// Where the transaction takes a position.
pub open spec fn mapped(ops: Seq<OpView>, pos: int, before: bool) -> int {
    mapped_from(ops, 0, 0, 0, pos, before)
}

/// `n`, or the largest position there is.
pub open spec fn capped(n: int) -> int {
    if n > usize::MAX {
        usize::MAX as int
    } else {
        n
    }
}

/// One replaced stretch of the original text: from, to, and what is there now.
pub type ChangeView = (int, int, Seq<char>);

/// The replaced stretches of the steps from `i` on, in order; an insertion
/// next to a deletion is one stretch.
pub open spec fn changes_from(ops: Seq<OpView>, i: int, at: int) -> Seq<ChangeView>
    decreases ops.len() - i,
{
    if i < 0 || i >= ops.len() {
        Seq::empty()
    } else {
        match ops[i] {
            OpView::Retain(n) => changes_from(ops, i + 1, at + n),
            OpView::Insert(t) => if i + 1 < ops.len() && ops[i + 1] is Delete {
                let n = ops[i + 1]->Delete_0;
                seq![(at, at + n, t)] + changes_from(ops, i + 2, at + n)
            } else {
                seq![(at, at, t)] + changes_from(ops, i + 1, at)
            },
            OpView::Delete(n) => if i + 1 < ops.len() && ops[i + 1] is Insert {
                seq![(at, at + n, ops[i + 1]->Insert_0)] + changes_from(ops, i + 2, at + n)
            } else {
                seq![(at, at + n, Seq::<char>::empty())] + changes_from(ops, i + 1, at + n)
            },
        }
    }
}

/// What the transaction replaces, in order.
pub open spec fn changes_of(ops: Seq<OpView>) -> Seq<ChangeView> {
    changes_from(ops, 0, 0)
}

/// A text with one stretch replaced.
pub open spec fn with_change(s: Seq<char>, c: ChangeView) -> Seq<char> {
    s.take(c.0) + c.2 + s.skip(c.1)
}

/// A text with the last `n` of the changes made, the last one first.
pub open spec fn with_last_changes(s: Seq<char>, cs: Seq<ChangeView>, n: nat) -> Seq<char>
    decreases n,
{
    if n == 0 || n > cs.len() {
        s
    } else {
        with_change(with_last_changes(s, cs, (n - 1) as nat), cs[cs.len() - n])
    }
}

/// An edit asked for: the stretch `from..to` is replaced by a text, or by
/// nothing.
pub type EditView = (int, int, Option<Seq<char>>);

pub open spec fn edit_views(v: Seq<(usize, usize, Option<String>)>) -> Seq<EditView> {
    Seq::new(
        v.len(),
        |i: int|
            (
                v[i].0 as int,
                v[i].1 as int,
                match v[i].2 {
                    Some(s) => Some(s@),
                    None => None,
                },
            ),
    )
}

/// Edits in order, none reaching into the next, within a text of length `len`
/// of which the first `at` are behind.
pub open spec fn edits_fit(edits: Seq<EditView>, len: int) -> bool {
    &&& forall|i: int|
        0 <= i < edits.len() ==> 0 <= (#[trigger] edits[i]).0 <= edits[i].1 <= len
    &&& forall|i: int, j: int|
        0 <= i < j < edits.len() ==> (#[trigger] edits[i]).1 <= (#[trigger] edits[j]).0
}

pub open spec fn edit_text(e: EditView) -> Seq<char> {
    match e.2 {
        Some(t) => t,
        None => Seq::empty(),
    }
}

/// The steps that one edit takes: what stands before it is kept, then its
/// text goes in, then its stretch is deleted; nothing is said where there is
/// nothing to do.
pub open spec fn edit_ops(e: EditView, at: int) -> Seq<OpView> {
    (if e.0 > at {
        seq![OpView::Retain((e.0 - at) as nat)]
    } else {
        Seq::empty()
    }) + (if edit_text(e).len() > 0 {
        seq![OpView::Insert(edit_text(e))]
    } else {
        Seq::empty()
    }) + (if e.1 > e.0 {
        seq![OpView::Delete((e.1 - e.0) as nat)]
    } else {
        Seq::empty()
    })
}

/// The steps of the first `n` edits.
pub open spec fn ops_upto(edits: Seq<EditView>, n: nat) -> Seq<OpView>
    decreases n,
{
    if n == 0 || n > edits.len() {
        Seq::empty()
    } else {
        ops_upto(edits, (n - 1) as nat) + edit_ops(
            edits[n - 1],
            if n >= 2 {
                edits[n - 2].1
            } else {
                0
            },
        )
    }
}

/// The transaction that makes these edits in a text of length `len`.
pub open spec fn change_ops(edits: Seq<EditView>, len: int) -> Seq<OpView> {
    let done = if edits.len() > 0 {
        edits.last().1
    } else {
        0
    };
    ops_upto(edits, edits.len()) + if len > done {
        seq![OpView::Retain((len - done) as nat)]
    } else {
        Seq::empty()
    }
}

// ---- laws -------------------------------------------------------------------

proof fn lemma_input_split(a: Seq<OpView>, b: Seq<OpView>, i: int)
    requires
        0 <= i <= a.len(),
    ensures
        input_from(a + b, i) == input_from(a, i) + input_from(b, 0),
    decreases a.len() - i,
{
    let c = a + b;
    if i < a.len() {
        assert(c[i] == a[i]);
        lemma_input_split(a, b, i + 1);
    } else {
        lemma_input_shift(a, b, 0);
    }
}

proof fn lemma_input_shift(a: Seq<OpView>, b: Seq<OpView>, i: int)
    requires
        0 <= i <= b.len(),
    ensures
        input_from(a + b, a.len() + i) == input_from(b, i),
    decreases b.len() - i,
{
    let c = a + b;
    if i < b.len() {
        assert(c[a.len() + i] == b[i]);
        lemma_input_shift(a, b, i + 1);
    }
}

proof fn lemma_edited_shift(a: Seq<OpView>, b: Seq<OpView>, i: int, s: Seq<char>)
    requires
        0 <= i <= b.len(),
    ensures
        edited_from(a + b, a.len() + i, s) == edited_from(b, i, s),
    decreases b.len() - i,
{
    let c = a + b;
    if i < b.len() {
        assert(c[a.len() + i] == b[i]);
        match b[i] {
            OpView::Retain(n) => lemma_edited_shift(a, b, i + 1, s.skip(n as int)),
            OpView::Delete(n) => lemma_edited_shift(a, b, i + 1, s.skip(n as int)),
            OpView::Insert(t) => lemma_edited_shift(a, b, i + 1, s),
        }
    }
}

/// What undoing the steps from `i` on gives back, with the lengths.
proof fn lemma_undo_from(ops: Seq<OpView>, i: int, s: Seq<char>)
    requires
        0 <= i <= ops.len(),
        input_from(ops, i) == s.len(),
    ensures
        edited(inverse_from(ops, i, s), edited_from(ops, i, s)) == s,
        input_len(inverse_from(ops, i, s)) == edited_from(ops, i, s).len(),
    decreases ops.len() - i,
{
    let inv = inverse_from(ops, i, s);
    let out = edited_from(ops, i, s);
    if i < ops.len() {
        match ops[i] {
            OpView::Retain(n) => {
                let rest = s.skip(n as int);
                let tail = inverse_from(ops, i + 1, rest);
                lemma_undo_from(ops, i + 1, rest);
                let first = seq![OpView::Retain(n)];
                assert(inv =~= first + tail);
                assert(inv[0] == OpView::Retain(n));
                assert(out.take(n as int) =~= s.take(n as int));
                assert(out.skip(n as int) =~= edited_from(ops, i + 1, rest));
                lemma_edited_shift(first, tail, 0, out.skip(n as int));
                lemma_input_shift(first, tail, 0);
                assert(s.take(n as int) + rest =~= s);
            },
            OpView::Delete(n) => {
                let rest = s.skip(n as int);
                let tail = inverse_from(ops, i + 1, rest);
                lemma_undo_from(ops, i + 1, rest);
                let first = seq![OpView::Insert(s.take(n as int))];
                assert(inv =~= first + tail);
                assert(inv[0] == OpView::Insert(s.take(n as int)));
                lemma_edited_shift(first, tail, 0, out);
                lemma_input_shift(first, tail, 0);
                assert(s.take(n as int) + rest =~= s);
            },
            OpView::Insert(t) => {
                let tail = inverse_from(ops, i + 1, s);
                lemma_undo_from(ops, i + 1, s);
                let first = seq![OpView::Delete(t.len())];
                assert(inv =~= first + tail);
                assert(inv[0] == OpView::Delete(t.len()));
                assert(out.skip(t.len() as int) =~= edited_from(ops, i + 1, s));
                lemma_edited_shift(first, tail, 0, out.skip(t.len() as int));
                lemma_input_shift(first, tail, 0);
            },
        }
    } else {
        assert(inv =~= Seq::<OpView>::empty());
    }
}

/// Undo is exact: a transaction's inverse fits the text that the transaction
/// leaves, and makes of it the text that the transaction was made for.
pub proof fn law_inverse_restores(ops: Seq<OpView>, s: Seq<char>)
    requires
        input_len(ops) == s.len(),
    ensures
        input_len(inverse(ops, s)) == edited(ops, s).len(),
        edited(inverse(ops, s), edited(ops, s)) == s,
{
    lemma_undo_from(ops, 0, s);
}

proof fn lemma_redo_from(ops: Seq<OpView>, i: int, s: Seq<char>)
    requires
        0 <= i <= ops.len(),
        input_from(ops, i) == s.len(),
    ensures
        inverse(inverse_from(ops, i, s), edited_from(ops, i, s)) == ops.skip(i),
    decreases ops.len() - i,
{
    let inv = inverse_from(ops, i, s);
    let out = edited_from(ops, i, s);
    if i < ops.len() {
        let (rest, first, after) = match ops[i] {
            OpView::Retain(n) => (
                s.skip(n as int),
                seq![OpView::Retain(n)],
                out.skip(n as int),
            ),
            OpView::Delete(n) => (s.skip(n as int), seq![OpView::Insert(s.take(n as int))], out),
            OpView::Insert(t) => (s, seq![OpView::Delete(t.len())], out.skip(t.len() as int)),
        };
        let tail = inverse_from(ops, i + 1, rest);
        lemma_redo_from(ops, i + 1, rest);
        assert(inv =~= first + tail);
        assert(inv[0] == first[0]);
        assert(after =~= edited_from(ops, i + 1, rest));
        lemma_inverse_shift(first, tail, 0, after);
        match ops[i] {
            OpView::Insert(t) => {
                assert(out.take(t.len() as int) =~= t);
            },
            OpView::Delete(n) => {
                assert(s.take(n as int).len() == n);
            },
            OpView::Retain(n) => {},
        }
        assert(ops.skip(i) =~= seq![ops[i]] + ops.skip(i + 1));
    } else {
        assert(inv =~= Seq::<OpView>::empty());
        assert(ops.skip(i) =~= Seq::<OpView>::empty());
    }
}

proof fn lemma_inverse_shift(a: Seq<OpView>, b: Seq<OpView>, i: int, s: Seq<char>)
    requires
        0 <= i <= b.len(),
    ensures
        inverse_from(a + b, a.len() + i, s) == inverse_from(b, i, s),
    decreases b.len() - i,
{
    let c = a + b;
    if i < b.len() {
        assert(c[a.len() + i] == b[i]);
        match b[i] {
            OpView::Retain(n) => lemma_inverse_shift(a, b, i + 1, s.skip(n as int)),
            OpView::Delete(n) => lemma_inverse_shift(a, b, i + 1, s.skip(n as int)),
            OpView::Insert(t) => lemma_inverse_shift(a, b, i + 1, s),
        }
    }
}

/// The inverse of an inverse, each made for the text it is applied to, is the
/// transaction itself: redo does what was done.
pub proof fn law_inverse_of_inverse(ops: Seq<OpView>, s: Seq<char>)
    requires
        input_len(ops) == s.len(),
    ensures
        inverse(inverse(ops, s), edited(ops, s)) == ops,
{
    lemma_redo_from(ops, 0, s);
    assert(ops.skip(0) =~= ops);
}

proof fn lemma_mapped_from(
    ops: Seq<OpView>,
    i: int,
    old: int,
    new: int,
    pos: int,
    before: bool,
    s: Seq<char>,
)
    requires
        0 <= i <= ops.len(),
        input_from(ops, i) == s.len(),
        old <= pos <= old + s.len(),
    ensures
        new <= mapped_from(ops, i, old, new, pos, before) <= new + edited_from(ops, i, s).len(),
    decreases ops.len() - i,
{
    if i < ops.len() {
        match ops[i] {
            OpView::Retain(n) => if pos >= old + n {
                lemma_mapped_from(ops, i + 1, old + n, new + n, pos, before, s.skip(n as int));
            },
            OpView::Delete(n) => if pos >= old + n {
                lemma_mapped_from(ops, i + 1, old + n, new, pos, before, s.skip(n as int));
            },
            OpView::Insert(t) => if !(pos == old && before) {
                lemma_mapped_from(ops, i + 1, old, new + t.len(), pos, before, s);
            },
        }
    }
}

/// A position of the text maps to a position of the edited text.
pub proof fn law_mapped_in_bounds(ops: Seq<OpView>, pos: int, before: bool, s: Seq<char>)
    requires
        input_len(ops) == s.len(),
        0 <= pos <= s.len(),
    ensures
        0 <= mapped(ops, pos, before) <= edited(ops, s).len(),
{
    lemma_mapped_from(ops, 0, 0, 0, pos, before, s);
}

proof fn lemma_mapped_order(
    ops: Seq<OpView>,
    i: int,
    old: int,
    new: int,
    p: int,
    q: int,
    before: bool,
)
    requires
        0 <= i <= ops.len(),
        old <= p <= q,
    ensures
        mapped_from(ops, i, old, new, p, before) <= mapped_from(ops, i, old, new, q, before),
        new <= mapped_from(ops, i, old, new, p, before),
    decreases ops.len() - i,
{
    if i < ops.len() {
        match ops[i] {
            OpView::Retain(n) => {
                if p >= old + n {
                    lemma_mapped_order(ops, i + 1, old + n, new + n, p, q, before);
                } else if q >= old + n {
                    lemma_mapped_order(ops, i + 1, old + n, new + n, q, q, before);
                }
            },
            OpView::Delete(n) => {
                if p >= old + n {
                    lemma_mapped_order(ops, i + 1, old + n, new, p, q, before);
                } else if q >= old + n {
                    lemma_mapped_order(ops, i + 1, old + n, new, q, q, before);
                }
            },
            OpView::Insert(t) => {
                lemma_mapped_order(ops, i + 1, old, new + t.len(), p, q, before);
                lemma_mapped_order(ops, i + 1, old, new + t.len(), q, q, before);
            },
        }
    }
}

/// Mapping keeps the order of positions.
pub proof fn law_mapped_keeps_order(ops: Seq<OpView>, p: int, q: int, before: bool)
    requires
        0 <= p <= q,
    ensures
        mapped(ops, p, before) <= mapped(ops, q, before),
{
    lemma_mapped_order(ops, 0, 0, 0, p, q, before);
}

/// Whether the character at `pos` is kept by the steps from `i` on, `old`
/// being where step `i` starts.
pub open spec fn kept_from(ops: Seq<OpView>, i: int, old: int, pos: int) -> bool
    decreases ops.len() - i,
{
    if i < 0 || i >= ops.len() {
        true
    } else {
        match ops[i] {
            OpView::Retain(n) => pos < old + n || kept_from(ops, i + 1, old + n, pos),
            OpView::Delete(n) => pos >= old + n && kept_from(ops, i + 1, old + n, pos),
            OpView::Insert(_) => kept_from(ops, i + 1, old, pos),
        }
    }
}

proof fn lemma_mapped_char(ops: Seq<OpView>, i: int, old: int, new: int, pos: int, s: Seq<char>)
    requires
        0 <= i <= ops.len(),
        input_from(ops, i) == s.len(),
        old <= pos < old + s.len(),
        kept_from(ops, i, old, pos),
    ensures
        new <= mapped_from(ops, i, old, new, pos, false) < new + edited_from(ops, i, s).len(),
        edited_from(ops, i, s)[mapped_from(ops, i, old, new, pos, false) - new] == s[pos - old],
    decreases ops.len() - i,
{
    if i < ops.len() {
        match ops[i] {
            OpView::Retain(n) => if pos >= old + n {
                lemma_mapped_char(ops, i + 1, old + n, new + n, pos, s.skip(n as int));
            },
            OpView::Delete(n) => {
                lemma_mapped_char(ops, i + 1, old + n, new, pos, s.skip(n as int));
            },
            OpView::Insert(t) => {
                lemma_mapped_char(ops, i + 1, old, new + t.len(), pos, s);
            },
        }
    }
}

/// A position on a character that the transaction keeps maps to that
/// character.
pub proof fn law_mapped_keeps_the_character(ops: Seq<OpView>, pos: int, s: Seq<char>)
    requires
        input_len(ops) == s.len(),
        0 <= pos < s.len(),
        kept_from(ops, 0, 0, pos),
    ensures
        0 <= mapped(ops, pos, false) < edited(ops, s).len(),
        edited(ops, s)[mapped(ops, pos, false)] == s[pos],
{
    lemma_mapped_char(ops, 0, 0, 0, pos, s);
}

/// Every change of the steps from `i` on lies in `at..=at + len` and starts
/// no earlier than the one before it ends.
proof fn lemma_changes_from(ops: Seq<OpView>, i: int, at: int, s: Seq<char>)
    requires
        0 <= i <= ops.len(),
        0 <= at <= s.len(),
        input_from(ops, i) == s.len() - at,
    ensures
        with_last_changes(s, changes_from(ops, i, at), changes_from(ops, i, at).len()) == s.take(at)
            + edited_from(ops, i, s.skip(at)),
        forall|k: int|
            0 <= k < changes_from(ops, i, at).len() ==> at <= (#[trigger] changes_from(
                ops,
                i,
                at,
            )[k]).0 <= changes_from(ops, i, at)[k].1 <= s.len(),
    decreases ops.len() - i,
{
    let cs = changes_from(ops, i, at);
    if i < ops.len() {
        match ops[i] {
            OpView::Retain(n) => {
                lemma_changes_from(ops, i + 1, at + n, s);
                assert(s.skip(at).skip(n as int) =~= s.skip(at + n));
                assert(s.take(at) + (s.skip(at).take(n as int) + edited_from(
                    ops,
                    i + 1,
                    s.skip(at + n),
                )) =~= s.take(at + n) + edited_from(ops, i + 1, s.skip(at + n)));
            },
            OpView::Insert(t) => {
                if i + 1 < ops.len() && ops[i + 1] is Delete {
                    let n = ops[i + 1]->Delete_0;
                    assert(input_from(ops, i + 1) == input_from(ops, i + 2) + n);
                    lemma_changes_from(ops, i + 2, at + n, s);
                    lemma_first_change(s, at, at + n, t, changes_from(ops, i + 2, at + n), cs);
                    let rest = edited_from(ops, i + 2, s.skip(at + n));
                    assert(s.skip(at).skip(n as int) =~= s.skip(at + n));
                    assert(edited_from(ops, i + 1, s.skip(at)) == rest);
                    assert(edited_from(ops, i, s.skip(at)) == t + rest);
                    lemma_replace(s, at, at + n, t, rest);
                } else {
                    lemma_changes_from(ops, i + 1, at, s);
                    lemma_first_change(s, at, at, t, changes_from(ops, i + 1, at), cs);
                    lemma_replace(s, at, at, t, edited_from(ops, i + 1, s.skip(at)));
                }
            },
            OpView::Delete(n) => {
                assert(s.skip(at).skip(n as int) =~= s.skip(at + n));
                if i + 1 < ops.len() && ops[i + 1] is Insert {
                    let t = ops[i + 1]->Insert_0;
                    assert(input_from(ops, i + 1) == input_from(ops, i + 2));
                    lemma_changes_from(ops, i + 2, at + n, s);
                    lemma_first_change(s, at, at + n, t, changes_from(ops, i + 2, at + n), cs);
                    let rest = edited_from(ops, i + 2, s.skip(at + n));
                    assert(edited_from(ops, i + 1, s.skip(at + n)) == t + rest);
                    lemma_replace(s, at, at + n, t, rest);
                } else {
                    let t = Seq::<char>::empty();
                    lemma_changes_from(ops, i + 1, at + n, s);
                    lemma_first_change(s, at, at + n, t, changes_from(ops, i + 1, at + n), cs);
                    let rest = edited_from(ops, i + 1, s.skip(at + n));
                    lemma_replace(s, at, at + n, t, rest);
                    assert(t + rest =~= rest);
                }
            },
        }
    } else {
        assert(s.take(at) + s.skip(at) =~= s);
    }
}

proof fn lemma_replace(s: Seq<char>, from: int, to: int, t: Seq<char>, rest: Seq<char>)
    requires
        0 <= from <= to <= s.len(),
    ensures
        with_change(s.take(to) + rest, (from, to, t)) == s.take(from) + (t + rest),
{
    let u = s.take(to) + rest;
    assert(u.take(from) =~= s.take(from));
    assert(u.skip(to) =~= rest);
    assert(u.take(from) + t + u.skip(to) =~= s.take(from) + (t + rest));
}

/// Putting a change in front of others: the others are made first.
proof fn lemma_first_change(
    s: Seq<char>,
    from: int,
    to: int,
    t: Seq<char>,
    rest: Seq<ChangeView>,
    all: Seq<ChangeView>,
)
    requires
        all == seq![(from, to, t)] + rest,
    ensures
        with_last_changes(s, all, all.len()) == with_change(
            with_last_changes(s, rest, rest.len()),
            (from, to, t),
        ),
{
    lemma_same_last_changes(s, rest, all, rest.len());
    assert(all[all.len() - all.len()] == (from, to, t));
}

proof fn lemma_same_last_changes(s: Seq<char>, a: Seq<ChangeView>, b: Seq<ChangeView>, n: nat)
    requires
        n <= a.len(),
        n <= b.len(),
        forall|k: int| 1 <= k <= n ==> #[trigger] a[a.len() - k] == b[b.len() - k],
    ensures
        with_last_changes(s, a, n) == with_last_changes(s, b, n),
    decreases n,
{
    if n > 0 {
        lemma_same_last_changes(s, a, b, (n - 1) as nat);
        assert(a[a.len() - n] == b[b.len() - n]);
    }
}

/// The replaced stretches, made in the original text one by one from the last
/// to the first, give the edited text: each is stated against the text that
/// the transaction was made for.
pub proof fn law_changes_give_the_edit(ops: Seq<OpView>, s: Seq<char>)
    requires
        input_len(ops) == s.len(),
    ensures
        with_last_changes(s, changes_of(ops), changes_of(ops).len()) == edited(ops, s),
        forall|k: int|
            0 <= k < changes_of(ops).len() ==> 0 <= (#[trigger] changes_of(ops)[k]).0
                <= changes_of(ops)[k].1 <= s.len(),
{
    lemma_changes_from(ops, 0, 0, s);
    assert(s.take(0) + edited_from(ops, 0, s.skip(0)) =~= edited_from(ops, 0, s)) by {
        assert(s.skip(0) =~= s);
    }
}

// ---- what the edits asked for do --------------------------------------------

proof fn lemma_edit_ops(e: EditView, at: int, s: Seq<char>, tail: Seq<OpView>)
    requires
        0 <= at <= e.0 <= e.1 <= s.len(),
    ensures
        input_len(edit_ops(e, at)) == e.1 - at,
        edited(edit_ops(e, at) + tail, s.skip(at)) == s.subrange(at, e.0) + edit_text(e) + edited(
            tail,
            s.skip(e.1),
        ),
{
    reveal_with_fuel(input_from, 4);
    let keep = if e.0 > at {
        seq![OpView::Retain((e.0 - at) as nat)]
    } else {
        Seq::empty()
    };
    let put = if edit_text(e).len() > 0 {
        seq![OpView::Insert(edit_text(e))]
    } else {
        Seq::empty()
    };
    let cut = if e.1 > e.0 {
        seq![OpView::Delete((e.1 - e.0) as nat)]
    } else {
        Seq::empty()
    };
    let all = edit_ops(e, at) + tail;
    let after_keep = put + cut + tail;
    let after_put = cut + tail;
    assert(all =~= keep + after_keep);
    assert(after_keep =~= put + after_put);
    assert(s.skip(at).skip(e.0 - at) =~= s.skip(e.0));
    assert(s.skip(e.0).skip(e.1 - e.0) =~= s.skip(e.1));
    // The stretch is cut.
    assert(edited(after_put, s.skip(e.0)) == edited(tail, s.skip(e.1))) by {
        if e.1 > e.0 {
            lemma_edited_shift(cut, tail, 0, s.skip(e.1));
            assert(after_put[0] == cut[0]);
        } else {
            assert(after_put =~= tail);
        }
    }
    // Before it the text goes in.
    assert(edited(after_keep, s.skip(e.0)) =~= edit_text(e) + edited(tail, s.skip(e.1))) by {
        if edit_text(e).len() > 0 {
            lemma_edited_shift(put, after_put, 0, s.skip(e.0));
            assert(after_keep[0] == put[0]);
        } else {
            assert(after_keep =~= after_put);
        }
    }
    // Before that everything stays.
    assert(edited(all, s.skip(at)) =~= s.subrange(at, e.0) + (edit_text(e) + edited(
        tail,
        s.skip(e.1),
    ))) by {
        if e.0 > at {
            lemma_edited_shift(keep, after_keep, 0, s.skip(e.0));
            assert(all[0] == keep[0]);
            assert(s.skip(at).take(e.0 - at) =~= s.subrange(at, e.0));
        } else {
            assert(all =~= after_keep);
        }
    }
}

proof fn lemma_ops_upto(edits: Seq<EditView>, n: nat, s: Seq<char>, tail: Seq<OpView>)
    requires
        n <= edits.len(),
        edits_fit(edits, s.len() as int),
    ensures
        ({
            let at = if n > 0 {
                edits[n - 1].1
            } else {
                0
            };
            &&& input_len(ops_upto(edits, n)) == at
            &&& edited(ops_upto(edits, n) + tail, s) == edits_head(s, edits, n) + edited(
                tail,
                s.skip(at),
            )
        }),
    decreases n,
{
    if n == 0 {
        assert(ops_upto(edits, n) + tail =~= tail);
        assert(s.skip(0) =~= s);
        assert(edits_head(s, edits, 0) + edited(tail, s) =~= edited(tail, s));
    } else {
        let e = edits[n - 1];
        let at = if n >= 2 {
            edits[n - 2].1
        } else {
            0
        };
        if n >= 2 {
            assert(edits[n - 2].1 <= edits[n - 1].0);
        }
        let own = edit_ops(e, at);
        let before = ops_upto(edits, (n - 1) as nat);
        lemma_ops_upto(edits, (n - 1) as nat, s, own + tail);
        lemma_edit_ops(e, at, s, tail);
        assert(ops_upto(edits, n) + tail =~= before + (own + tail));
        lemma_input_split(before, own, 0);
        assert(edits_head(s, edits, (n - 1) as nat) + (s.subrange(at, e.0) + edit_text(e) + edited(
            tail,
            s.skip(e.1),
        )) =~= edits_head(s, edits, n) + edited(tail, s.skip(e.1)));
    }
}

/// The edited text up to the end of the `n`th edit.
pub open spec fn edits_head(s: Seq<char>, edits: Seq<EditView>, n: nat) -> Seq<char>
    decreases n,
{
    if n == 0 || n > edits.len() {
        Seq::empty()
    } else {
        edits_head(s, edits, (n - 1) as nat) + s.subrange(
            if n >= 2 {
                edits[n - 2].1
            } else {
                0
            },
            edits[n - 1].0,
        ) + edit_text(edits[n - 1])
    }
}

/// A text with all the edits made: what stands before each, then its text,
/// and what stands behind the last.
pub open spec fn with_edits(s: Seq<char>, edits: Seq<EditView>) -> Seq<char> {
    edits_head(s, edits, edits.len()) + s.skip(
        if edits.len() > 0 {
            edits.last().1
        } else {
            0
        },
    )
}

/// The transaction made of edits fits the text, and makes exactly the edits.
pub proof fn law_change_makes_the_edits(edits: Seq<EditView>, s: Seq<char>)
    requires
        edits_fit(edits, s.len() as int),
    ensures
        input_len(change_ops(edits, s.len() as int)) == s.len(),
        edited(change_ops(edits, s.len() as int), s) == with_edits(s, edits),
{
    let done = if edits.len() > 0 {
        edits.last().1
    } else {
        0
    };
    let tail = if s.len() > done {
        seq![OpView::Retain((s.len() - done) as nat)]
    } else {
        Seq::empty()
    };
    lemma_ops_upto(edits, edits.len(), s, tail);
    lemma_input_split(ops_upto(edits, edits.len()), tail, 0);
    reveal_with_fuel(input_from, 2);
    reveal_with_fuel(edited_from, 2);
    if s.len() > done {
        let rest = s.skip(done);
        assert(rest.take(s.len() - done) =~= rest);
        assert(edited(tail, rest) =~= rest);
    }
}

// ---- transactions -----------------------------------------------------------

impl Transaction {
    /// The steps pushed so far, one more.
    fn push(&mut self, op: Op)
        ensures
            final(self)@ == old(self)@.push(op@),
    {
        let ghost had = self@;
        self.ops.push(op);
        assert(self@ =~= had.push(op@));
    }

    /// The transaction that makes the given edits in `text`: in order, none
    /// reaching into the next.
    pub fn change(text: &Rope, edits: Vec<(usize, usize, Option<String>)>) -> (r: Transaction)
        requires
            edits_fit(edit_views(edits@), rope_chars(*text).len() as int),
        ensures
            r@ == change_ops(edit_views(edits@), rope_chars(*text).len() as int),
    {
        let len = rope_len(text);
        let ghost views = edit_views(edits@);
        let mut r = Transaction { ops: Vec::new() };
        let mut at: usize = 0;
        let mut i: usize = 0;
        assert(r@ =~= Seq::<OpView>::empty());
        while i < edits.len()
            invariant
                i <= edits@.len(),
                views == edit_views(edits@),
                edits_fit(views, len as int),
                at as int == (if i > 0 {
                    views[i - 1].1
                } else {
                    0
                }),
                r@ == ops_upto(views, i as nat),
            decreases edits@.len() - i,
        {
            let from = edits[i].0;
            let to = edits[i].1;
            assert(views[i as int].0 == from && views[i as int].1 == to);
            if i > 0 {
                assert(views[i - 1].1 <= views[i as int].0);
            }
            let ghost before = r@;
            if from > at {
                r.push(Op::Retain(from - at));
            }
            match &edits[i].2 {
                Some(s) => {
                    let c = chars_of(s.as_str());
                    if c.len() > 0 {
                        r.push(Op::Insert(s.clone()));
                    }
                },
                None => {},
            }
            if to > from {
                r.push(Op::Delete(to - from));
            }
            assert(r@ =~= before + edit_ops(views[i as int], at as int));
            at = to;
            i += 1;
        }
        if len > at {
            r.push(Op::Retain(len - at));
        }
        assert(r@ =~= change_ops(views, len as int));
        r
    }

    /// The transaction that puts `s` before the character at `pos`.
    pub fn insert(text: &Rope, pos: usize, s: &str) -> (r: Transaction)
        requires
            pos <= rope_chars(*text).len(),
        ensures
            r@ == change_ops(seq![(pos as int, pos as int, Some(s@))], rope_chars(*text).len() as int),
    {
        let mut edits: Vec<(usize, usize, Option<String>)> = Vec::new();
        edits.push((pos, pos, Some(s.to_owned())));
        assert(edit_views(edits@) =~= seq![(pos as int, pos as int, Some(s@))]);
        Transaction::change(text, edits)
    }

    /// The transaction that deletes the characters `from..to`.
    pub fn delete(text: &Rope, from: usize, to: usize) -> (r: Transaction)
        requires
            from <= to <= rope_chars(*text).len(),
        ensures
            r@ == change_ops(
                seq![(from as int, to as int, None)],
                rope_chars(*text).len() as int,
            ),
    {
        let mut edits: Vec<(usize, usize, Option<String>)> = Vec::new();
        edits.push((from, to, None));
        assert(edit_views(edits@) =~= seq![(from as int, to as int, None)]);
        Transaction::change(text, edits)
    }

    /// Whether nothing is inserted or deleted.
    pub fn is_empty(&self) -> (r: bool)
        ensures
            r == keeps_all(self@),
    {
        let mut i: usize = 0;
        while i < self.ops.len()
            invariant
                i <= self.ops@.len(),
                forall|k: int| 0 <= k < i ==> #[trigger] self@[k] is Retain,
            decreases self.ops@.len() - i,
        {
            assert(self@[i as int] == self.ops@[i as int]@);
            match &self.ops[i] {
                Op::Retain(_) => {},
                _ => {
                    assert(!(self@[i as int] is Retain));
                    return false;
                },
            }
            i += 1;
        }
        true
    }

    /// The length of the text that the transaction is for, or the largest
    /// number where it is longer than any text.
    pub fn input_len(&self) -> (r: usize)
        ensures
            r as int == capped(input_len(self@) as int),
    {
        let mut total: usize = 0;
        let mut i: usize = self.ops.len();
        while i > 0
            invariant
                i <= self.ops@.len(),
                total as int == capped(input_from(self@, i as int) as int),
            decreases i,
        {
            i -= 1;
            assert(self@[i as int] == self.ops@[i as int]@);
            match &self.ops[i] {
                Op::Retain(n) => {
                    total = total.saturating_add(*n);
                },
                Op::Delete(n) => {
                    total = total.saturating_add(*n);
                },
                Op::Insert(_) => {},
            }
        }
        total
    }

    /// Make the edit in a text that the transaction is for.
    pub fn apply(&self, text: &mut Rope)
        requires
            input_len(self@) == rope_chars(*old(text)).len(),
        ensures
            rope_chars(*final(text)) == edited(self@, rope_chars(*old(text))),
    {
        let ghost s = rope_chars(*text);
        let ghost ops = self@;
        let mut at: usize = 0;
        let mut i: usize = 0;
        assert(s.skip(0) =~= s);
        assert(s.take(0) + edited(ops, s) =~= edited(ops, s));
        while i < self.ops.len()
            invariant
                i <= self.ops@.len(),
                ops == self@,
                ops.len() == self.ops@.len(),
                at <= rope_chars(*text).len(),
                input_from(ops, i as int) == rope_chars(*text).len() - at,
                rope_chars(*text).take(at as int) + edited_from(
                    ops,
                    i as int,
                    rope_chars(*text).skip(at as int),
                ) == edited(ops, s),
            decreases self.ops@.len() - i,
        {
            let ghost before = rope_chars(*text);
            let ghost rest = before.skip(at as int);
            assert(ops[i as int] == self.ops@[i as int]@);
            let len = rope_len(text);
            match &self.ops[i] {
                Op::Retain(n) => {
                    let k = *n;
                    proof {
                        assert(rest.skip(k as int) =~= before.skip(at + k));
                        assert(before.take(at as int) + (rest.take(k as int) + edited_from(
                            ops,
                            i + 1,
                            rest.skip(k as int),
                        )) =~= before.take(at + k) + edited_from(ops, i + 1, rest.skip(k as int)));
                    }
                    at += k;
                },
                Op::Delete(n) => {
                    let k = *n;
                    rope_remove(text, at, at + k);
                    proof {
                        let now = rope_chars(*text);
                        assert(now.take(at as int) =~= before.take(at as int));
                        assert(now.skip(at as int) =~= rest.skip(k as int));
                    }
                },
                Op::Insert(t) => {
                    rope_insert(text, at, t.as_str());
                    let new_len = rope_len(text);
                    let c = chars_of(t.as_str());
                    proof {
                        let now = rope_chars(*text);
                        assert(now.take(at + t@.len()) =~= before.take(at as int) + t@);
                        assert(now.skip(at + t@.len()) =~= rest);
                        assert(before.take(at as int) + (t@ + edited_from(ops, i + 1, rest))
                            =~= now.take(at + t@.len()) + edited_from(ops, i + 1, rest));
                    }
                    at += c.len();
                },
            }
            i += 1;
        }
        proof {
            let now = rope_chars(*text);
            assert(now.take(at as int) + now.skip(at as int) =~= now);
        }
    }

    /// The transaction that undoes this one, made for `text`.
    pub fn invert(&self, text: &Rope) -> (r: Transaction)
        requires
            input_len(self@) == rope_chars(*text).len(),
        ensures
            r@ == inverse(self@, rope_chars(*text)),
    {
        let ghost s = rope_chars(*text);
        let ghost ops = self@;
        let len = rope_len(text);
        let mut r = Transaction { ops: Vec::new() };
        let mut at: usize = 0;
        let mut i: usize = 0;
        assert(s.skip(0) =~= s);
        assert(r@ + inverse(ops, s) =~= inverse(ops, s));
        while i < self.ops.len()
            invariant
                i <= self.ops@.len(),
                ops == self@,
                ops.len() == self.ops@.len(),
                s == rope_chars(*text),
                len == s.len(),
                at <= len,
                input_from(ops, i as int) == len - at,
                r@ + inverse_from(ops, i as int, s.skip(at as int)) == inverse(ops, s),
            decreases self.ops@.len() - i,
        {
            let ghost done = r@;
            let ghost rest = s.skip(at as int);
            assert(ops[i as int] == self.ops@[i as int]@);
            match &self.ops[i] {
                Op::Retain(n) => {
                    let k = *n;
                    r.push(Op::Retain(k));
                    proof {
                        assert(rest.skip(k as int) =~= s.skip(at + k));
                        let tail = inverse_from(ops, i + 1, s.skip(at + k));
                        assert(done + (seq![OpView::Retain(k as nat)] + tail) =~= r@ + tail);
                    }
                    at += k;
                },
                Op::Delete(n) => {
                    let k = *n;
                    let gone = rope_slice(text, at, at + k);
                    proof {
                        assert(gone@ =~= rest.take(k as int));
                    }
                    r.push(Op::Insert(gone));
                    proof {
                        assert(rest.skip(k as int) =~= s.skip(at + k));
                        let tail = inverse_from(ops, i + 1, s.skip(at + k));
                        assert(done + (seq![OpView::Insert(rest.take(k as int))] + tail) =~= r@
                            + tail);
                    }
                    at += k;
                },
                Op::Insert(t) => {
                    let c = chars_of(t.as_str());
                    r.push(Op::Delete(c.len()));
                    proof {
                        let tail = inverse_from(ops, i + 1, rest);
                        assert(done + (seq![OpView::Delete(t@.len())] + tail) =~= r@ + tail);
                    }
                },
            }
            i += 1;
        }
        assert(r@ + Seq::<OpView>::empty() =~= r@);
        r
    }

    /// Where the transaction takes a position: one at an insertion stays
    /// before it, or is pushed behind it.
    pub fn map_pos(&self, pos: usize, before: bool) -> (r: usize)
        ensures
            r as int == capped(mapped(self@, pos as int, before)),
    {
        let ghost ops = self@;
        let mut old: usize = 0;
        let mut new: usize = 0;
        let mut i: usize = 0;
        let ghost true_new: int = 0;
        while i < self.ops.len()
            invariant
                i <= self.ops@.len(),
                ops == self@,
                ops.len() == self.ops@.len(),
                old <= pos,
                0 <= true_new,
                new as int == capped(true_new),
                mapped(ops, pos as int, before) == mapped_from(
                    ops,
                    i as int,
                    old as int,
                    true_new,
                    pos as int,
                    before,
                ),
            decreases self.ops@.len() - i,
        {
            assert(ops[i as int] == self.ops@[i as int]@);
            match &self.ops[i] {
                Op::Retain(n) => {
                    let k = *n;
                    if pos - old < k {
                        return new.saturating_add(pos - old);
                    }
                    old += k;
                    new = new.saturating_add(k);
                    proof {
                        true_new = true_new + k;
                    }
                },
                Op::Delete(n) => {
                    let k = *n;
                    if pos - old < k {
                        return new;
                    }
                    old += k;
                },
                Op::Insert(t) => {
                    if pos == old && before {
                        return new;
                    }
                    let c = chars_of(t.as_str());
                    new = new.saturating_add(c.len());
                    proof {
                        true_new = true_new + t@.len();
                    }
                },
            }
            i += 1;
        }
        new.saturating_add(pos - old)
    }

    /// What the transaction replaces, in order: from, to and the new text, in
    /// the positions of the original.
    pub fn changes(&self, text: &Rope) -> (r: Vec<(usize, usize, String)>)
        requires
            input_len(self@) == rope_chars(*text).len(),
        ensures
            change_views(r@) == changes_of(self@),
    {
        let ghost ops = self@;
        let len = rope_len(text);
        let mut r: Vec<(usize, usize, String)> = Vec::new();
        let mut at: usize = 0;
        let mut i: usize = 0;
        assert(change_views(r@) + changes_of(ops) =~= changes_of(ops));
        while i < self.ops.len()
            invariant
                i <= self.ops@.len(),
                ops == self@,
                ops.len() == self.ops@.len(),
                at <= len,
                input_from(ops, i as int) == len - at,
                change_views(r@) + changes_from(ops, i as int, at as int) == changes_of(ops),
            decreases self.ops@.len() - i,
        {
            let ghost had = r@;
            assert(ops[i as int] == self.ops@[i as int]@);
            match &self.ops[i] {
                Op::Retain(n) => {
                    at += *n;
                    i += 1;
                },
                Op::Insert(t) => {
                    let mut gone: usize = 0;
                    let mut paired = false;
                    if i + 1 < self.ops.len() {
                        assert(ops[i + 1] == self.ops@[i + 1]@);
                        if let Op::Delete(n) = &self.ops[i + 1] {
                            gone = *n;
                            paired = true;
                            assert(input_from(ops, i + 1) == input_from(ops, i + 2) + gone);
                        }
                    }
                    let change = (at, at + gone, t.clone());
                    r.push(change);
                    proof {
                        let c = (at as int, at + gone, t@);
                        assert(change_views(r@) =~= change_views(had).push(c));
                        let next = if paired {
                            i + 2
                        } else {
                            i + 1
                        };
                        let tail = changes_from(ops, next as int, at + gone);
                        assert(change_views(had) + (seq![c] + tail) =~= change_views(r@) + tail);
                    }
                    at += gone;
                    i += if paired {
                        2
                    } else {
                        1
                    };
                },
                Op::Delete(n) => {
                    let k = *n;
                    let mut put = String::new();
                    let mut paired = false;
                    if i + 1 < self.ops.len() {
                        assert(ops[i + 1] == self.ops@[i + 1]@);
                        if let Op::Insert(t) = &self.ops[i + 1] {
                            put = t.clone();
                            paired = true;
                            assert(input_from(ops, i + 1) == input_from(ops, i + 2));
                        }
                    }
                    let ghost put_text = put@;
                    r.push((at, at + k, put));
                    proof {
                        let c = (at as int, at + k, put_text);
                        assert(change_views(r@) =~= change_views(had).push(c));
                        let next = if paired {
                            i + 2
                        } else {
                            i + 1
                        };
                        let tail = changes_from(ops, next as int, at + k);
                        assert(change_views(had) + (seq![c] + tail) =~= change_views(r@) + tail);
                    }
                    at += k;
                    i += if paired {
                        2
                    } else {
                        1
                    };
                },
            }
        }
        assert(change_views(r@) + Seq::<ChangeView>::empty() =~= change_views(r@));
        r
    }

    /// A copy of the transaction.
    pub fn copy(&self) -> (r: Transaction)
        ensures
            r@ == self@,
    {
        let mut r = Transaction { ops: Vec::new() };
        let mut i: usize = 0;
        assert(r@ =~= self@.take(0));
        while i < self.ops.len()
            invariant
                i <= self.ops@.len(),
                r@ == self@.take(i as int),
            decreases self.ops@.len() - i,
        {
            assert(self@[i as int] == self.ops@[i as int]@);
            match &self.ops[i] {
                Op::Retain(n) => r.push(Op::Retain(*n)),
                Op::Delete(n) => r.push(Op::Delete(*n)),
                Op::Insert(t) => r.push(Op::Insert(t.clone())),
            }
            assert(r@ =~= self@.take(i + 1));
            i += 1;
        }
        assert(self@.take(i as int) =~= self@);
        r
    }
}

pub open spec fn change_views(v: Seq<(usize, usize, String)>) -> Seq<ChangeView> {
    Seq::new(v.len(), |i: int| (v[i].0 as int, v[i].1 as int, v[i].2@))
}

// ---- transactions as JSON ---------------------------------------------------

/// How a step is written down: a number keeps that many characters, a list of
/// one number deletes that many, a string is inserted.
pub open spec fn op_json(op: OpView) -> Json {
    match op {
        OpView::Retain(n) => number_json(n as u64),
        OpView::Delete(n) => Json::Array(seq![number_json(n as u64)]),
        OpView::Insert(t) => Json::Text(t),
    }
}

pub open spec fn ops_json(ops: Seq<OpView>) -> Json {
    Json::Array(Seq::new(ops.len(), |i: int| op_json(ops[i])))
}

/// The number of characters that a JSON number says, where a text can hold it.
pub open spec fn count_of(j: Json) -> Option<nat> {
    match u64_of(j) {
        Some(n) => if n <= usize::MAX {
            Some(n as nat)
        } else {
            None
        },
        None => None,
    }
}

/// The step that a JSON value writes down.
pub open spec fn op_of(j: Json) -> Option<OpView> {
    match j {
        Json::Text(t) => Some(OpView::Insert(t)),
        Json::Array(items) => if items.len() == 1 {
            match count_of(items[0]) {
                Some(n) => Some(OpView::Delete(n)),
                None => None,
            }
        } else {
            None
        },
        _ => match count_of(j) {
            Some(n) => Some(OpView::Retain(n)),
            None => None,
        },
    }
}

/// The steps that the first `n` items write down, if each is one.
pub open spec fn ops_of_upto(items: Seq<Json>, n: nat) -> Option<Seq<OpView>>
    decreases n,
{
    if n == 0 || n > items.len() {
        Some(Seq::empty())
    } else {
        match (ops_of_upto(items, (n - 1) as nat), op_of(items[n - 1])) {
            (Some(done), Some(op)) => Some(done.push(op)),
            _ => None,
        }
    }
}

/// The transaction that a JSON value writes down.
pub open spec fn ops_of(j: Json) -> Option<Seq<OpView>> {
    match j {
        Json::Array(items) => ops_of_upto(items, items.len()),
        _ => None,
    }
}

/// Whether every count fits a machine word.
pub open spec fn counts_fit(ops: Seq<OpView>) -> bool {
    forall|i: int|
        0 <= i < ops.len() ==> match #[trigger] ops[i] {
            OpView::Retain(n) => n <= usize::MAX,
            OpView::Delete(n) => n <= usize::MAX,
            OpView::Insert(_) => true,
        }
}

proof fn lemma_json_round_trip(ops: Seq<OpView>, n: nat)
    requires
        counts_fit(ops),
        n <= ops.len(),
    ensures
        ops_of_upto(Seq::new(ops.len(), |i: int| op_json(ops[i])), n) == Some(ops.take(n as int)),
    decreases n,
{
    let items = Seq::new(ops.len(), |i: int| op_json(ops[i]));
    if n > 0 {
        lemma_json_round_trip(ops, (n - 1) as nat);
        let op = ops[n - 1];
        assert(items[n - 1] == op_json(op));
        assert(op_of(op_json(op)) == Some(op));
        assert(ops.take(n - 1).push(op) =~= ops.take(n as int));
    } else {
        assert(ops.take(0) =~= Seq::<OpView>::empty());
    }
}

/// A transaction written down reads back as itself.
pub proof fn law_json_round_trip(ops: Seq<OpView>)
    requires
        counts_fit(ops),
    ensures
        ops_of(ops_json(ops)) == Some(ops),
{
    lemma_json_round_trip(ops, ops.len());
    assert(ops.take(ops.len() as int) =~= ops);
}

impl Transaction {
    /// The transaction written down, for the persistent undo file.
    pub fn to_json(&self) -> (r: Value)
        ensures
            json_of(r) == ops_json(self@),
    {
        let mut items: Vec<Value> = Vec::new();
        let mut i: usize = 0;
        while i < self.ops.len()
            invariant
                i <= self.ops@.len(),
                items@.len() == i,
                forall|k: int| 0 <= k < i ==> json_of(#[trigger] items@[k]) == op_json(self@[k]),
            decreases self.ops@.len() - i,
        {
            assert(self@[i as int] == self.ops@[i as int]@);
            let item = match &self.ops[i] {
                Op::Retain(n) => from_u64(*n as u64),
                Op::Delete(n) => {
                    let mut one: Vec<Value> = Vec::new();
                    one.push(from_u64(*n as u64));
                    assert(jsons(one@) =~= seq![number_json(*n as u64)]);
                    from_array(one)
                },
                Op::Insert(t) => from_text(t.as_str()),
            };
            items.push(item);
            i += 1;
        }
        assert(jsons(items@) =~= Seq::new(self@.len(), |i: int| op_json(self@[i])));
        from_array(items)
    }

    /// The transaction that a JSON value writes down.
    pub fn from_json(v: &Value) -> (r: Option<Transaction>)
        ensures
            match r {
                Some(tx) => ops_of(json_of(*v)) == Some(tx@),
                None => ops_of(json_of(*v)) is None,
            },
    {
        let items = match as_array(v) {
            Some(items) => items,
            None => {
                return None;
            },
        };
        let ghost js = jsons(items@);
        let mut r = Transaction { ops: Vec::new() };
        let mut i: usize = 0;
        assert(r@ =~= Seq::<OpView>::empty());
        while i < items.len()
            invariant
                i <= items@.len(),
                js == jsons(items@),
                json_of(*v) == Json::Array(js),
                ops_of_upto(js, i as nat) == Some(r@),
            decreases items@.len() - i,
        {
            assert(js[i as int] == json_of(items@[i as int]));
            match op_from_json(&items[i]) {
                Some(op) => r.push(op),
                None => {
                    proof {
                        lemma_no_ops(js, (i + 1) as nat, js.len());
                    }
                    return None;
                },
            }
            i += 1;
        }
        Some(r)
    }
}

/// One item that is no step spoils the list.
proof fn lemma_no_ops(items: Seq<Json>, n: nat, m: nat)
    requires
        0 < n <= m <= items.len(),
        ops_of_upto(items, n) is None,
    ensures
        ops_of_upto(items, m) is None,
    decreases m,
{
    if n < m {
        lemma_no_ops(items, n, (m - 1) as nat);
    }
}

fn read_count(v: &Value) -> (r: Option<usize>)
    ensures
        match r {
            Some(n) => count_of(json_of(*v)) == Some(n as nat),
            None => count_of(json_of(*v)) is None,
        },
{
    match as_u64(v) {
        Some(n) => if n <= usize::MAX as u64 {
            Some(n as usize)
        } else {
            None
        },
        None => None,
    }
}

fn op_from_json(v: &Value) -> (r: Option<Op>)
    ensures
        match r {
            Some(op) => op_of(json_of(*v)) == Some(op@),
            None => op_of(json_of(*v)) is None,
        },
{
    if let Some(t) = as_text(v) {
        return Some(Op::Insert(t.to_owned()));
    }
    if let Some(items) = as_array(v) {
        assert(jsons(items@).len() == items@.len());
        if items.len() != 1 {
            return None;
        }
        assert(jsons(items@)[0] == json_of(items@[0]));
        return match read_count(&items[0]) {
            Some(n) => Some(Op::Delete(n)),
            None => None,
        };
    }
    match read_count(v) {
        Some(n) => Some(Op::Retain(n)),
        None => None,
    }
}

} // verus!
