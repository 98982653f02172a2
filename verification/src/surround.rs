//! Text objects and surrounding pairs, at every selection of a document.

use vstd::prelude::*;
use crate::document::{
    applied, clamped, committed, deduped, placed, ride, true_to_edits, DocView, Document,
};
use crate::motions::range_of;
use crate::objects::{
    bracket_pair, brackets_around, find, object_of, pair_for, pair_of, quote_pair_enclosing,
    quotes_around,
};
use crate::selections::{in_order, selections_of, sels_in};
use crate::strings::{char_string, chars_of};
use crate::text::{rope_len, rope_string};
use crate::transaction::{
    change_ops, edit_views, edits_fit, law_change_makes_the_edits, law_mapped_in_bounds, Transaction,
};

verus! {

// ---- text objects -------------------------------------------------------------

/// The object around a selection, as (start, end).
pub open spec fn object_at(s: Seq<char>, sel: (usize, usize), c: char, inside: bool) -> Option<
    (usize, usize),
> {
    match object_of(s, in_order(sel).0 as int, in_order(sel).1 as int, c, inside) {
        Some((a, b)) => Some((a as usize, b as usize)),
        None => None,
    }
}

pub open spec fn or_else(found: Option<(usize, usize)>, sel: (usize, usize)) -> (usize, usize) {
    match found {
        Some(r) => r,
        None => sel,
    }
}

/// Every selection turned into the object around it, where it has one;
/// nothing where none has one.
pub open spec fn objects_selected(d: DocView, c: char, inside: bool) -> Option<DocView> {
    let primary = object_at(d.text, (d.anchor, d.cursor), c, inside);
    if primary is None && forall|i: int|
        0 <= i < d.extra.len() ==> object_at(d.text, #[trigger] d.extra[i], c, inside) is None {
        None
    } else {
        let p = or_else(primary, (d.anchor, d.cursor));
        Some(
            deduped(
                DocView {
                    anchor: p.0,
                    cursor: p.1,
                    extra: Seq::new(
                        d.extra.len(),
                        |i: int| or_else(object_at(d.text, d.extra[i], c, inside), d.extra[i]),
                    ),
                    goal_col: None,
                    ..d
                },
            ),
        )
    }
}

fn find_object(s: &[char], sel: (usize, usize), c: char, inside: bool) -> (r: Option<(usize, usize)>)
    requires
        sel.0 <= s@.len(),
        sel.1 <= s@.len(),
    ensures
        r == object_at(s@, sel, c, inside),
        r is Some ==> (r->0).0 <= s@.len() && (r->0).1 <= s@.len(),
{
    if sel.0 <= sel.1 {
        find(s, sel.0, sel.1, c, inside)
    } else {
        find(s, sel.1, sel.0, c, inside)
    }
}

impl Document {
    /// Select the object that a character names at every selection; false
    /// where there is none anywhere.
    pub fn select_objects(&mut self, c: char, inside: bool) -> (found: bool)
        requires
            placed(old(self)@),
        ensures
            match objects_selected(old(self)@, c, inside) {
                Some(d) => found && final(self)@ == d,
                None => !found && final(self)@ == old(self)@,
            },
            old(self).wf() ==> final(self).wf(),
            placed(final(self)@),
            true_to_edits(old(self)@) ==> true_to_edits(final(self)@),
    {
        let ghost d = self@;
        let text = rope_string(&self.text);
        let s = chars_of(text.as_str());
        let primary = find_object(s.as_slice(), (self.anchor, self.cursor), c, inside);
        let mut any = primary.is_some();
        let mut out: Vec<(usize, usize)> = Vec::new();
        let mut i: usize = 0;
        while i < self.extra.len()
            invariant
                i <= self.extra@.len(),
                self@ == d,
                s@ == d.text,
                placed(d),
                primary == object_at(d.text, (d.anchor, d.cursor), c, inside),
                out@.len() == i,
                any == (primary is Some || exists|k: int|
                    0 <= k < i && object_at(d.text, #[trigger] d.extra[k], c, inside) is Some),
                forall|k: int|
                    0 <= k < i ==> #[trigger] out@[k] == or_else(
                        object_at(d.text, d.extra[k], c, inside),
                        d.extra[k],
                    ),
                forall|k: int|
                    0 <= k < i ==> (#[trigger] out@[k]).0 <= d.text.len() && out@[k].1
                        <= d.text.len(),
            decreases self.extra@.len() - i,
        {
            let e = self.extra[i];
            assert(d.extra[i as int] == e);
            match find_object(s.as_slice(), e, c, inside) {
                Some(r) => {
                    any = true;
                    out.push(r);
                },
                None => {
                    out.push(e);
                },
            }
            i += 1;
        }
        if !any {
            return false;
        }
        if let Some(p) = primary {
            self.anchor = p.0;
            self.cursor = p.1;
        }
        self.extra = out;
        self.goal_col = None;
        assert(self@.extra =~= Seq::new(
            d.extra.len(),
            |i: int| or_else(object_at(d.text, d.extra[i], c, inside), d.extra[i]),
        ));
        self.dedupe_cursors();
        true
    }
}

// ---- surrounding pairs --------------------------------------------------------

/// The places of the pair around a selection.
pub open spec fn pair_at(s: Seq<char>, sel: (usize, usize), open: char, close: char) -> Option<
    (usize, usize),
> {
    let found = if open == close {
        quotes_around(s, sel.0 as int, sel.1 as int, open)
    } else {
        brackets_around(s, sel.0 as int, sel.1 as int, open, close)
    };
    match found {
        Some((a, b)) => Some((a as usize, b as usize)),
        None => None,
    }
}

/// A place and what is done there, put in order, each place once: the first
/// that is put in stays.
pub open spec fn with_mark(marks: Seq<(usize, bool)>, m: (usize, bool), i: int) -> Seq<(usize, bool)>
    decreases marks.len() - i,
{
    if i < 0 || i >= marks.len() || marks[i].0 > m.0 {
        marks.take(i).push(m) + marks.skip(i)
    } else if marks[i].0 == m.0 {
        marks
    } else {
        with_mark(marks, m, i + 1)
    }
}

/// The places of the pairs around the first `n` selections, in order; true
/// marks a closing one.
pub open spec fn marks_upto(
    s: Seq<char>,
    sels: Seq<(usize, usize)>,
    open: char,
    close: char,
    n: nat,
) -> Seq<(usize, bool)>
    decreases n,
{
    if n == 0 || n > sels.len() {
        Seq::empty()
    } else {
        let head = marks_upto(s, sels, open, close, (n - 1) as nat);
        match pair_at(s, sels[n - 1], open, close) {
            Some((o, c)) => with_mark(with_mark(head, (o, false), 0), (c, true), 0),
            None => head,
        }
    }
}

pub open spec fn mark_edit(m: (usize, bool), new: Option<(char, char)>) -> (
    int,
    int,
    Option<Seq<char>>,
) {
    (
        m.0 as int,
        m.0 + 1,
        match new {
            Some((o, c)) => Some(
                seq![
                    if m.1 {
                        c
                    } else {
                        o
                    },
                ],
            ),
            None => None,
        },
    )
}

pub open spec fn mark_edits(marks: Seq<(usize, bool)>, new: Option<(char, char)>) -> Seq<
    (int, int, Option<Seq<char>>),
> {
    Seq::new(marks.len(), |i: int| mark_edit(marks[i], new))
}

/// The pair around every selection deleted, or replaced by another; nothing
/// where no selection has one.
pub open spec fn surround_edited(
    d: DocView,
    open: char,
    close: char,
    new: Option<(char, char)>,
) -> Option<DocView> {
    let sels = selections_of(d);
    let marks = marks_upto(d.text, sels, open, close, sels.len());
    if marks.len() == 0 {
        None
    } else {
        let ops = change_ops(mark_edits(marks, new), d.text.len() as int);
        let a = applied(d, ops, ride(ops, d.cursor));
        Some(committed(DocView { cursor: clamped(a.text, a.cursor as int, false) as usize, ..a }))
    }
}

pub open spec fn marks_ordered(marks: Seq<(usize, bool)>, len: int) -> bool {
    &&& forall|i: int| 0 <= i < marks.len() ==> (#[trigger] marks[i]).0 < len
    &&& forall|i: int, j: int|
        0 <= i < j < marks.len() ==> (#[trigger] marks[i]).0 < (#[trigger] marks[j]).0
}

fn put_mark(marks: &mut Vec<(usize, bool)>, m: (usize, bool), Ghost(len): Ghost<int>)
    requires
        marks_ordered(old(marks)@, len),
        m.0 < len,
    ensures
        final(marks)@ == with_mark(old(marks)@, m, 0),
        marks_ordered(final(marks)@, len),
        final(marks)@.len() > 0,
{
    let ghost all = marks@;
    let mut i: usize = 0;
    while i < marks.len() && marks[i].0 < m.0
        invariant
            i <= marks@.len(),
            marks@ == all,
            marks_ordered(all, len),
            forall|k: int| 0 <= k < i ==> (#[trigger] all[k]).0 < m.0,
            with_mark(all, m, 0) == with_mark(all, m, i as int),
        decreases marks@.len() - i,
    {
        i += 1;
    }
    if i < marks.len() && marks[i].0 == m.0 {
        return ;
    }
    marks.insert(i, m);
    assert(marks@ =~= all.take(i as int).push(m) + all.skip(i as int));
    assert forall|k: int| 0 <= k < marks@.len() implies (#[trigger] marks@[k]) == (if k < i {
        all[k]
    } else if k == i {
        m
    } else {
        all[k - 1]
    }) by {}
    assert forall|a: int, b: int| 0 <= a < b < marks@.len() implies (#[trigger] marks@[a]).0 < (
    #[trigger] marks@[b]).0 by {
        if a == i {
            assert(all[b - 1].0 >= all[i as int].0);
        }
    }
}

fn find_surrounding(s: &[char], sel: (usize, usize), open: char, close: char) -> (r: Option<
    (usize, usize),
>)
    requires
        sel.0 <= sel.1 <= s@.len(),
    ensures
        r == pair_at(s@, sel, open, close),
        r is Some ==> (r->0).0 < s@.len() && (r->0).1 < s@.len(),
{
    if open == close {
        quote_pair_enclosing(s, sel.0, sel.1, open)
    } else {
        bracket_pair(s, sel.0, sel.1, open, close)
    }
}

impl Document {
    fn surrounding_marks(&self, open: char, close: char) -> (r: Vec<(usize, bool)>)
        requires
            placed(self@),
        ensures
            r@ == marks_upto(
                self@.text,
                selections_of(self@),
                open,
                close,
                selections_of(self@).len(),
            ),
            marks_ordered(r@, self@.text.len() as int),
    {
        let text = rope_string(&self.text);
        let s = chars_of(text.as_str());
        let sels = self.selections();
        let mut marks: Vec<(usize, bool)> = Vec::new();
        let mut i: usize = 0;
        while i < sels.len()
            invariant
                i <= sels@.len(),
                s@ == self@.text,
                sels@ == selections_of(self@),
                sels_in(sels@, self@.text.len() as int),
                marks@ == marks_upto(self@.text, sels@, open, close, i as nat),
                marks_ordered(marks@, self@.text.len() as int),
            decreases sels@.len() - i,
        {
            let sel = sels[i];
            assert(sels@[i as int].0 <= sels@[i as int].1 <= self@.text.len());
            if let Some((o, c)) = find_surrounding(s.as_slice(), sel, open, close) {
                put_mark(&mut marks, (o, false), Ghost(self@.text.len() as int));
                put_mark(&mut marks, (c, true), Ghost(self@.text.len() as int));
            }
            i += 1;
        }
        marks
    }

    /// Delete the pair around every selection, or swap it for another, as one
    /// undo step; false where there is none.
    pub fn surround_edit(&mut self, open: char, close: char, new: Option<(char, char)>) -> (found:
        bool)
        requires
            placed(old(self)@),
        ensures
            match surround_edited(old(self)@, open, close, new) {
                Some(d) => found && final(self)@ == d,
                None => !found && final(self)@ == old(self)@,
            },
            old(self).wf() ==> final(self).wf(),
            placed(final(self)@),
            true_to_edits(old(self)@) ==> true_to_edits(final(self)@),
    {
        let ghost d = self@;
        let marks = self.surrounding_marks(open, close);
        if marks.len() == 0 {
            return false;
        }
        let len = rope_len(&self.text);
        let mut edits: Vec<(usize, usize, Option<String>)> = Vec::new();
        let mut i: usize = 0;
        while i < marks.len()
            invariant
                i <= marks@.len(),
                len == d.text.len(),
                marks_ordered(marks@, len as int),
                edits@.len() == i,
                forall|k: int|
                    0 <= k < i ==> #[trigger] edit_views(edits@)[k] == mark_edit(marks@[k], new),
            decreases marks@.len() - i,
        {
            let m = marks[i];
            assert(marks@[i as int].0 < len);
            let t: Option<String> = match new {
                Some((o, c)) => Some(
                    char_string(
                        if m.1 {
                            c
                        } else {
                            o
                        },
                    ),
                ),
                None => None,
            };
            let ghost had = edits@;
            edits.push((m.0, m.0 + 1, t));
            assert forall|k: int| 0 <= k <= i implies #[trigger] edit_views(edits@)[k] == mark_edit(
                marks@[k],
                new,
            ) by {
                if k < i {
                    assert(edit_views(had)[k] == mark_edit(marks@[k], new));
                }
            }
            i += 1;
        }
        let ghost views = edit_views(edits@);
        assert(views =~= mark_edits(marks@, new));
        assert(edits_fit(views, len as int)) by {
            assert forall|k: int| 0 <= k < views.len() implies 0 <= (#[trigger] views[k]).0
                <= views[k].1 <= len by {
                assert(marks@[k].0 < len);
            }
            assert forall|a: int, b: int| 0 <= a < b < views.len() implies (#[trigger] views[a]).1
                <= (#[trigger] views[b]).0 by {
                assert(marks@[a].0 < marks@[b].0);
            }
        }
        let tx = Transaction::change(&self.text, edits);
        proof {
            law_change_makes_the_edits(views, d.text);
            law_mapped_in_bounds(tx@, d.cursor as int, false, d.text);
        }
        let cursor = tx.map_pos(self.cursor, false);
        self.apply(tx, cursor);
        self.clamp_cursor(false);
        self.commit_undo_group();
        true
    }
}

// ---- wrapping -----------------------------------------------------------------

/// A place and what goes there: behind what goes to the same place already,
/// but a closing character in front of an opening one.
pub open spec fn with_wrap(marks: Seq<(usize, bool)>, m: (usize, bool), i: int) -> Seq<(usize, bool)>
    decreases marks.len() - i,
{
    if i < 0 || i >= marks.len() || marks[i].0 > m.0 || (marks[i].0 == m.0 && m.1 && !marks[i].1) {
        marks.take(i).push(m) + marks.skip(i)
    } else {
        with_wrap(marks, m, i + 1)
    }
}

/// What the next action applies to at the `i`th selection.
pub open spec fn range_at(d: DocView, i: int) -> (usize, usize) {
    let sel = selections_of(d)[i];
    range_of(DocView { anchor: sel.0, cursor: sel.1, ..d })
}

/// What goes where around the first `n` selections. A cursor behind all the
/// text selects nothing: its pair goes there, the closing character behind the
/// opening one.
pub open spec fn wraps_upto(d: DocView, n: nat) -> Seq<(usize, bool)>
    decreases n,
{
    if n == 0 {
        Seq::empty()
    } else {
        let (a, b) = range_at(d, n - 1);
        let opened = with_wrap(wraps_upto(d, (n - 1) as nat), (a, false), 0);
        if a == b {
            opened.push((b, true))
        } else {
            with_wrap(opened, (b, true), 0)
        }
    }
}

pub open spec fn wrap_edit(m: (usize, bool), pair: (char, char)) -> (int, int, Option<Seq<char>>) {
    (
        m.0 as int,
        m.0 as int,
        Some(
            seq![
                if m.1 {
                    pair.1
                } else {
                    pair.0
                },
            ],
        ),
    )
}

pub open spec fn wrap_edits(marks: Seq<(usize, bool)>, pair: (char, char)) -> Seq<
    (int, int, Option<Seq<char>>),
> {
    Seq::new(marks.len(), |i: int| wrap_edit(marks[i], pair))
}

/// What a character surrounds with: its pair, or itself on both sides.
pub open spec fn wrapping(c: char) -> (char, char) {
    match pair_of(c) {
        Some(p) => p,
        None => (c, c),
    }
}

/// Every selection, or the character under its cursor, between a pair.
pub open spec fn surrounded(d: DocView, c: char) -> DocView {
    let ops = change_ops(
        wrap_edits(wraps_upto(d, d.extra.len() + 1), wrapping(c)),
        d.text.len() as int,
    );
    let a = applied(d, ops, ride(ops, d.cursor));
    committed(DocView { cursor: clamped(a.text, a.cursor as int, false) as usize, ..a })
}

pub open spec fn wraps_ordered(marks: Seq<(usize, bool)>, len: int) -> bool {
    &&& forall|i: int| 0 <= i < marks.len() ==> (#[trigger] marks[i]).0 <= len
    &&& forall|i: int, j: int|
        0 <= i < j < marks.len() ==> (#[trigger] marks[i]).0 <= (#[trigger] marks[j]).0
}

fn put_wrap(marks: &mut Vec<(usize, bool)>, m: (usize, bool), Ghost(len): Ghost<int>)
    requires
        wraps_ordered(old(marks)@, len),
        m.0 <= len,
    ensures
        final(marks)@ == with_wrap(old(marks)@, m, 0),
        wraps_ordered(final(marks)@, len),
{
    let ghost all = marks@;
    let mut i: usize = 0;
    while i < marks.len() && !(marks[i].0 > m.0 || (marks[i].0 == m.0 && m.1 && !marks[i].1))
        invariant
            i <= marks@.len(),
            marks@ == all,
            wraps_ordered(all, len),
            forall|k: int| 0 <= k < i ==> (#[trigger] all[k]).0 <= m.0,
            with_wrap(all, m, 0) == with_wrap(all, m, i as int),
        decreases marks@.len() - i,
    {
        i += 1;
    }
    marks.insert(i, m);
    assert(marks@ =~= all.take(i as int).push(m) + all.skip(i as int));
    assert forall|k: int| 0 <= k < marks@.len() implies (#[trigger] marks@[k]) == (if k < i {
        all[k]
    } else if k == i {
        m
    } else {
        all[k - 1]
    }) by {}
    assert forall|a: int, b: int| 0 <= a < b < marks@.len() implies (#[trigger] marks@[a]).0 <= (
    #[trigger] marks@[b]).0 by {
        if a == i {
            assert(all[b - 1].0 >= all[i as int].0);
        }
    }
}

impl Document {
    fn wraps(&self) -> (r: Vec<(usize, bool)>)
        requires
            placed(self@),
        ensures
            r@ == wraps_upto(self@, self@.extra.len() + 1),
            wraps_ordered(r@, self@.text.len() as int),
    {
        let sels = self.selections();
        let len = rope_len(&self.text);
        let mut marks: Vec<(usize, bool)> = Vec::new();
        let mut i: usize = 0;
        while i < sels.len()
            invariant
                i <= sels@.len(),
                len == self@.text.len(),
                sels@ == selections_of(self@),
                sels_in(sels@, len as int),
                marks@ == wraps_upto(self@, i as nat),
                wraps_ordered(marks@, len as int),
            decreases sels@.len() - i,
        {
            let sel = sels[i];
            assert(sels@[i as int].0 <= sels@[i as int].1 <= len);
            let to: usize = if sel.0 == sel.1 && sel.1 < len {
                sel.1 + 1
            } else {
                sel.1
            };
            assert(range_at(self@, i as int) == (sel.0, to)) by {
                reveal(range_of);
            }
            put_wrap(&mut marks, (sel.0, false), Ghost(len as int));
            if sel.0 == to {
                assert(to == len);
                marks.push((to, true));
            } else {
                put_wrap(&mut marks, (to, true), Ghost(len as int));
            }
            i += 1;
        }
        marks
    }

    /// Put every selection between the pair that a character names.
    pub fn surround_with(&mut self, c: char)
        requires
            placed(old(self)@),
        ensures
            final(self)@ == surrounded(old(self)@, c),
            old(self).wf() ==> final(self).wf(),
            placed(final(self)@),
            true_to_edits(old(self)@) ==> true_to_edits(final(self)@),
    {
        let ghost d = self@;
        let pair: (char, char) = match pair_for(c) {
            Some(p) => p,
            None => (c, c),
        };
        let marks = self.wraps();
        let len = rope_len(&self.text);
        let mut edits: Vec<(usize, usize, Option<String>)> = Vec::new();
        let mut i: usize = 0;
        while i < marks.len()
            invariant
                i <= marks@.len(),
                edits@.len() == i,
                forall|k: int|
                    0 <= k < i ==> #[trigger] edit_views(edits@)[k] == wrap_edit(marks@[k], pair),
            decreases marks@.len() - i,
        {
            let m = marks[i];
            let t = char_string(
                if m.1 {
                    pair.1
                } else {
                    pair.0
                },
            );
            let ghost had = edits@;
            edits.push((m.0, m.0, Some(t)));
            assert forall|k: int| 0 <= k <= i implies #[trigger] edit_views(edits@)[k] == wrap_edit(
                marks@[k],
                pair,
            ) by {
                if k < i {
                    assert(edit_views(had)[k] == wrap_edit(marks@[k], pair));
                }
            }
            i += 1;
        }
        let ghost views = edit_views(edits@);
        assert(views =~= wrap_edits(marks@, pair));
        assert(edits_fit(views, len as int)) by {
            assert forall|k: int| 0 <= k < views.len() implies 0 <= (#[trigger] views[k]).0
                <= views[k].1 <= len by {
                assert(marks@[k].0 <= len);
            }
            assert forall|a: int, b: int| 0 <= a < b < views.len() implies (#[trigger] views[a]).1
                <= (#[trigger] views[b]).0 by {
                assert(marks@[a].0 <= marks@[b].0);
            }
        }
        let tx = Transaction::change(&self.text, edits);
        proof {
            law_change_makes_the_edits(views, d.text);
            law_mapped_in_bounds(tx@, d.cursor as int, false, d.text);
        }
        let cursor = tx.map_pos(self.cursor, false);
        self.apply(tx, cursor);
        self.clamp_cursor(false);
        self.commit_undo_group();
    }
}

} // verus!
