//! An edit made at every cursor is one undo step.

use vstd::prelude::*;
use crate::acts::{captured_in, change_run, delete_run, paste_run, plain_edited};
use crate::commands::Command;
use crate::dispatch::{group_of, ran, ran_changes};
use crate::document::{
    applied, clamped, cursor_line, lemma_clamped, lemma_cursor_line, lemma_keeps_all,
    lemma_line_count, lemma_line_parts, lemma_one_edit_len, min_int, placed, range_deleted, ride,
    undo_entry, undo_group, undone, DocView, EntryView,
};
use crate::editor::{count_of, doc_of, on_doc, EditorView};
use crate::edits::{cut, deleted_backward, deleted_forward, deletion, paste_plan, pasted};
use crate::keys::{
    block_before, block_end_of, block_left, command_begun, command_over, counted, dispatched, ran_at,
    ran_at_each, ran_from, ran_where, settled, step_closed, traded,
    with_block,
};
use crate::motions::range_of;
use crate::position::{next_boundary, prev_boundary};
use crate::registers::register_text;
use crate::selections::{block_sel_ended, without_empty};
use crate::transaction::{
    change_ops, edited, input_len, keeps_all, law_change_makes_the_edits, law_inverse_restores,
    law_mapped_in_bounds, OpView,
};

verus! {

/// What the entries of a history above the `n`th take a text back to.
pub open spec fn taken_back(history: Seq<EntryView>, s: Seq<char>, n: nat) -> Seq<char>
    decreases history.len(),
{
    if history.len() <= n {
        s
    } else {
        taken_back(history.drop_last(), edited(history.last().inverse, s), n)
    }
}

/// Whether a document came of another by edits of one undo group.
#[verifier::opaque]
pub open spec fn in_one_group(from: DocView, d: DocView) -> bool {
    let n = from.history.len();
    &&& placed(d)
    &&& d.group == from.group
    &&& n <= d.history.len()
    &&& d.history.take(n as int) == from.history
    &&& forall|i: int| n <= i < d.history.len() ==> (#[trigger] d.history[i]).group == from.group
    &&& taken_back(d.history, d.text, n) == from.text
}

proof fn lemma_begins(d: DocView)
    requires
        placed(d),
    ensures
        in_one_group(d, d),
{
    reveal(in_one_group);
    assert(d.history.take(d.history.len() as int) =~= d.history);
}

/// Where cursors alone have changed.
proof fn lemma_moved(from: DocView, d: DocView, m: DocView)
    requires
        in_one_group(from, d),
        placed(m),
        m.text == d.text,
        m.history == d.history,
        m.group == d.group,
    ensures
        in_one_group(from, m),
{
    reveal(in_one_group);
}

proof fn lemma_placed(from: DocView, d: DocView)
    requires
        in_one_group(from, d),
    ensures
        placed(d),
{
    reveal(in_one_group);
}

proof fn lemma_applied(from: DocView, d: DocView, ops: Seq<OpView>, new_cursor: usize)
    requires
        in_one_group(from, d),
        input_len(ops) == d.text.len(),
        keeps_all(ops) ==> new_cursor <= d.text.len(),
    ensures
        in_one_group(from, applied(d, ops, new_cursor)),
{
    reveal(in_one_group);
    let a = applied(d, ops, new_cursor);
    if !keeps_all(ops) {
        let n = from.history.len() as int;
        law_inverse_restores(ops, d.text);
        assert(a.history.drop_last() =~= d.history);
        assert(a.history.take(n) =~= d.history.take(n));
        assert forall|i: int| n <= i < a.history.len() implies (#[trigger] a.history[i]).group
            == from.group by {
            if i < d.history.len() {
                assert(a.history[i] == d.history[i]);
            }
        }
        assert forall|i: int| 0 <= i < a.extra.len() implies (#[trigger] a.extra[i]).0
            <= a.text.len() && a.extra[i].1 <= a.text.len() by {
            let x = d.extra[i];
            law_mapped_in_bounds(ops, x.0 as int, false, d.text);
            law_mapped_in_bounds(ops, x.1 as int, false, d.text);
            assert(a.extra[i] == (ride(ops, x.0), ride(ops, x.1)));
        }
    }
}

proof fn lemma_deleted(from: DocView, d: DocView, a: usize, b: usize)
    requires
        in_one_group(from, d),
        a <= d.text.len(),
    ensures
        in_one_group(from, range_deleted(d, a, b)),
{
    reveal(range_deleted);
    if a < b {
        let to = min_int(b as int, d.text.len() as int);
        let e = (a as int, to, None::<Seq<char>>);
        lemma_one_edit_len(d.text, e);
        law_change_makes_the_edits(seq![e], d.text);
        lemma_applied(from, d, change_ops(seq![e], d.text.len() as int), a);
    }
}

proof fn lemma_clamped_in(from: DocView, a: DocView)
    requires
        in_one_group(from, a),
    ensures
        in_one_group(
            from,
            DocView {
                cursor: clamped(a.text, a.cursor as int, false) as usize,
                goal_col: None,
                ..a
            },
        ),
{
    lemma_placed(from, a);
    lemma_clamped(a.text, a.cursor as int);
    let m = DocView {
        cursor: clamped(a.text, a.cursor as int, false) as usize,
        goal_col: None,
        ..a
    };
    lemma_moved(from, a, m);
}

proof fn lemma_cut(from: DocView, d: DocView, a: usize, b: usize)
    requires
        in_one_group(from, d),
        a <= d.text.len(),
    ensures
        in_one_group(from, cut(d, a, b)),
{
    reveal(cut);
    lemma_deleted(from, d, a, b);
    lemma_clamped_in(from, range_deleted(d, a, b));
}

proof fn lemma_pasted(from: DocView, d: DocView, reg: Seq<char>, after: bool)
    requires
        in_one_group(from, d),
        reg.len() > 0,
    ensures
        in_one_group(from, pasted(d, reg, after)),
{
    reveal(pasted);
    lemma_placed(from, d);
    lemma_range(d);
    let s = d.text;
    lemma_cursor_line(s, d.cursor as int);
    lemma_line_count(s);
    lemma_line_parts(s, cursor_line(s, d.cursor as int));
    let (a, b, t, cursor) = paste_plan(d, reg, after);
    let e = (a, b, Some(t));
    assert(0 <= a <= b <= s.len());
    lemma_one_edit_len(s, e);
    law_change_makes_the_edits(seq![e], s);
    let ops = change_ops(seq![e], s.len() as int);
    if keeps_all(ops) {
        lemma_keeps_all(ops, s);
        assert(t.len() == b - a);
    }
    lemma_applied(from, d, ops, cursor as usize);
    lemma_clamped_in(from, applied(d, ops, cursor as usize));
}

/// The commands that edit at each selection in turn.
pub open spec fn edits_at_each(c: Command) -> bool {
    match c {
        Command::DeleteSelection | Command::ChangeSelection | Command::PasteAfter
        | Command::PasteBefore | Command::DeleteBackward | Command::DeleteForward => true,
        _ => false,
    }
}

/// Whether there is a document in front that came of another by edits of one
/// undo group.
spec fn goes_on(from: DocView, e: EditorView) -> bool {
    e.desk.current < e.desk.docs.len() && in_one_group(from, doc_of(e))
}

proof fn lemma_put(from: DocView, e: EditorView, d: DocView)
    requires
        e.desk.current < e.desk.docs.len(),
        in_one_group(from, d),
    ensures
        goes_on(from, on_doc(e, d)),
        doc_of(on_doc(e, d)) == d,
{
}

proof fn lemma_range(d: DocView)
    requires
        placed(d),
    ensures
        range_of(d).0 <= d.text.len(),
        d.anchor != d.cursor ==> range_of(d).0 <= range_of(d).1 <= d.text.len(),
{
    reveal(range_of);
}

proof fn lemma_delete_ran(from: DocView, e: EditorView)
    requires
        goes_on(from, e),
    ensures
        goes_on(from, delete_run(e)),
{
    reveal(captured_in);
    reveal(deletion);
    let d = doc_of(e);
    lemma_placed(from, d);
    lemma_range(d);
    let r = deletion(d, count_of(e));
    lemma_cut(from, d, r.0, r.1);
}

proof fn lemma_change_ran(from: DocView, e: EditorView)
    requires
        goes_on(from, e),
    ensures
        goes_on(from, change_run(e)),
{
    reveal(captured_in);
    let d = doc_of(e);
    lemma_placed(from, d);
    lemma_range(d);
    let r = range_of(d);
    lemma_deleted(from, d, r.0, r.1);
}

proof fn lemma_paste_ran(from: DocView, e: EditorView, after: bool)
    requires
        goes_on(from, e),
    ensures
        goes_on(from, paste_run(e, after)),
{
    let reg = register_text(e.registers);
    if reg.len() > 0 {
        lemma_pasted(from, doc_of(e), reg, after);
    }
}

proof fn lemma_backward(from: DocView, d: DocView, autoclose: bool)
    requires
        in_one_group(from, d),
    ensures
        in_one_group(from, deleted_backward(d, autoclose)),
{
    lemma_placed(from, d);
    if d.cursor > 0 {
        let at = prev_boundary(d.text, d.cursor as int) as usize;
        if at <= d.text.len() {
            lemma_deleted(from, d, at, d.cursor);
            lemma_deleted(from, d, at, (d.cursor + 1) as usize);
        } else {
            reveal(range_deleted);
        }
    }
}

proof fn lemma_ran(from: DocView, e: EditorView, c: Command)
    requires
        goes_on(from, e),
        edits_at_each(c),
    ensures
        goes_on(from, ran(e, c)),
{
    reveal(ran);
    reveal(group_of);
    let d = doc_of(e);
    if c == Command::DeleteSelection {
        reveal(ran_changes);
        lemma_delete_ran(from, e);
        assert(ran(e, c) == delete_run(e));
    } else if c == Command::ChangeSelection {
        reveal(ran_changes);
        lemma_change_ran(from, e);
        assert(ran(e, c) == change_run(e));
    } else if c == Command::PasteAfter || c == Command::PasteBefore {
        reveal(ran_changes);
        lemma_paste_ran(from, e, c == Command::PasteAfter);
        assert(ran(e, c) == paste_run(e, c == Command::PasteAfter));
    } else if c == Command::DeleteBackward {
        reveal(plain_edited);
        lemma_backward(from, d, e.options.autoclose);
        lemma_put(from, e, deleted_backward(d, e.options.autoclose));
        assert(ran(e, c) == on_doc(e, deleted_backward(d, e.options.autoclose)));
    } else {
        reveal(plain_edited);
        lemma_placed(from, d);
        lemma_deleted(from, d, d.cursor, next_boundary(d.text, d.cursor as int) as usize);
        lemma_put(from, e, deleted_forward(d));
        assert(ran(e, c) == on_doc(e, deleted_forward(d)));
    }
}

proof fn lemma_traded(from: DocView, d: DocView, i: int)
    requires
        in_one_group(from, d),
    ensures
        in_one_group(from, traded(d, i)),
{
    reveal(traded);
    lemma_placed(from, d);
    let m = traded(d, i);
    assert forall|k: int| 0 <= k < m.extra.len() implies (#[trigger] m.extra[k]).0 <= m.text.len()
        && m.extra[k].1 <= m.text.len() by {
        if k != i {
            assert(m.extra[k] == d.extra[k]);
        }
    }
    lemma_moved(from, d, m);
}

proof fn lemma_ran_from(
    from: DocView,
    e: EditorView,
    c: Command,
    count: Option<usize>,
    i: int,
    n: int,
)
    requires
        goes_on(from, e),
        edits_at_each(c),
    ensures
        goes_on(from, ran_from(e, c, count, i, n)),
    decreases n - i,
{
    if i < n {
        reveal(ran_at);
        let d = doc_of(e);
        lemma_traded(from, d, i);
        let t = on_doc(e, traded(d, i));
        lemma_put(from, e, traded(d, i));
        assert(goes_on(from, counted(t, count)));
        lemma_ran(from, counted(t, count), c);
        let r = ran(counted(t, count), c);
        lemma_traded(from, doc_of(r), i);
        lemma_put(from, r, traded(doc_of(r), i));
        lemma_ran_from(from, ran_at(e, c, count, i), c, count, i + 1, n);
    }
}

proof fn lemma_without_empty(sels: Seq<(usize, usize)>, n: nat, len: int)
    requires
        n <= sels.len(),
        forall|k: int| 0 <= k < sels.len() ==> (#[trigger] sels[k]).0 <= len && sels[k].1 <= len,
    ensures
        forall|k: int|
            0 <= k < without_empty(sels, n).len() ==> (#[trigger] without_empty(sels, n)[k]).0
                <= len && without_empty(sels, n)[k].1 <= len,
    decreases n,
{
    if n > 0 {
        let head = without_empty(sels, (n - 1) as nat);
        lemma_without_empty(sels, (n - 1) as nat, len);
        assert(sels[n - 1].0 <= len && sels[n - 1].1 <= len);
        let all = without_empty(sels, n);
        assert forall|k: int| 0 <= k < all.len() implies (#[trigger] all[k]).0 <= len && all[k].1
            <= len by {
            if k < head.len() {
                assert(all[k] == head[k]);
            }
        }
    }
}

proof fn lemma_before(from: DocView, e: EditorView, c: Command)
    requires
        goes_on(from, e),
        edits_at_each(c),
    ensures
        goes_on(from, block_before(e, c)),
{
    reveal(block_before);
    reveal(block_left);
    if e.keys.block is Some {
        let d = doc_of(e);
        let end = block_end_of(c);
        let m = block_left(d, end);
        lemma_placed(from, d);
        let sels = Seq::new(
            d.extra.len(),
            |i: int| block_sel_ended(d.text, d.extra[i], end),
        );
        assert forall|k: int| 0 <= k < sels.len() implies (#[trigger] sels[k]).0 <= d.text.len()
            && sels[k].1 <= d.text.len() by {
            assert(sels[k] == d.extra[k]);
        }
        lemma_without_empty(sels, sels.len(), d.text.len() as int);
        lemma_moved(from, d, m);
        lemma_put(from, with_block(e, None), m);
    }
}

proof fn lemma_ran_where(from: DocView, e: EditorView, c: Command)
    requires
        goes_on(from, e),
        edits_at_each(c),
    ensures
        goes_on(from, ran_where(e, c)),
{
    reveal(ran_where);
    reveal(ran_at_each);
    let n = doc_of(e).extra.len() as int;
    let count = e.keys.count;
    lemma_ran_from(from, e, c, count, 0, n);
    lemma_ran(from, counted(ran_from(e, c, count, 0, n), count), c);
    lemma_ran(from, e, c);
}

proof fn lemma_undo_taken_back(u: DocView, from: DocView)
    requires
        from.history.len() > 0 ==> from.history.last().group != from.group,
        from.history.len() <= u.history.len(),
        u.history.take(from.history.len() as int) == from.history,
        forall|i: int|
            from.history.len() <= i < u.history.len() ==> (#[trigger] u.history[i]).group
                == from.group,
    ensures
        undo_group(u, from.group).text == taken_back(u.history, u.text, from.history.len()),
        undo_group(u, from.group).history == from.history,
    decreases u.history.len(),
{
    let n = from.history.len();
    if u.history.len() > n {
        let v = undo_entry(u);
        assert(u.history[u.history.len() - 1].group == from.group);
        assert(v.history.take(n as int) =~= u.history.take(n as int));
        assert forall|i: int| n <= i < v.history.len() implies (#[trigger] v.history[i]).group
            == from.group by {
            assert(v.history[i] == u.history[i]);
        }
        lemma_undo_taken_back(v, from);
    } else {
        assert(u.history =~= from.history);
    }
}

proof fn lemma_undone(from: DocView, d: DocView, after: DocView)
    requires
        in_one_group(from, d),
        from.history.len() > 0 ==> from.history.last().group != from.group,
        after.text == d.text,
        after.history == d.history,
        after.text != from.text,
    ensures
        undone(after).text == from.text,
        undone(after).history == from.history,
{
    reveal(in_one_group);
    let n = from.history.len();
    assert(d.history.len() > n);
    assert(d.history[d.history.len() - 1].group == from.group);
    let bare = DocView { extra: Seq::empty(), ..after };
    lemma_undo_taken_back(bare, from);
}

/// A command that edits, run at every cursor, is one undo step: however many
/// selections there are, one undo gives back the text and the history from
/// before it, where an undo group was closed before and the command changed
/// the text at all.
pub proof fn law_an_edit_at_every_cursor_is_one_step(e: EditorView, c: Command)
    requires
        edits_at_each(c),
        e.desk.current < e.desk.docs.len(),
        placed(doc_of(e)),
        doc_of(e).history.len() > 0 ==> doc_of(e).history.last().group != doc_of(e).group,
        doc_of(dispatched(e, c)).text != doc_of(e).text,
    ensures
        undone(doc_of(dispatched(e, c))).text == doc_of(e).text,
        undone(doc_of(dispatched(e, c))).history == doc_of(e).history,
{
    reveal(dispatched);
    reveal(command_over);
    reveal(settled);
    reveal(step_closed);
    let from = doc_of(e);
    lemma_begins(from);
    let b = command_begun(e);
    assert(goes_on(from, b));
    lemma_before(from, b, c);
    lemma_ran_where(from, block_before(b, c), c);
    let r = ran_where(block_before(b, c), c);
    let after = doc_of(dispatched(e, c));
    assert(after.text == doc_of(r).text);
    assert(after.history == doc_of(r).history);
    lemma_undone(from, doc_of(r), after);
}

} // verus!
