//! What the commands do to the text, the registers and the cursors.

use vstd::prelude::*;
use crate::acts::{
    captured_in, change_run, copy_run, delete_line_run, delete_run, entered, paste_run,
};
use crate::column_laws::{cuts_up, law_the_character_at_a_column_is_drawn_there};
use crate::commands::Command;
use crate::document::{
    clamped, cursor_line, lemma_cluster_start, lemma_cursor_line, lemma_line_count,
    lemma_line_parts, line_content, line_count, line_end, line_len, placed, DocView,
};
use crate::edit_laws::{is_on, law_deleting_leaves_the_rest, lemma_is_on, lemma_same_line};
use crate::editor::{count_of, doc_of, EditorView};
use crate::edits::{deletion, line_deletion, pasted};
use crate::motion_laws::{lemma_reach_grows, reach};
use crate::motions::{cursor_added, goal_of, moved_vertically, outermost, range_of};
use crate::mouse::{clicked, dragged};
use crate::moves::{bare_motion, rows_of};
use crate::position::{char_at_column, cluster_lengths, next_boundary};
use crate::registers::{captured, register_text};
use crate::selection_laws::{each_once, law_each_selection_is_there_once, lemma_around_line};
use crate::state::Mode;
use crate::text::{lemma_line_start, line_of, line_start};

verus! {

// ---- registers ---------------------------------------------------------------------

proof fn lemma_pushed(e: EditorView, t: Seq<char>)
    requires
        e.registers.fresh,
    ensures
        register_text(captured_in(e, t).registers) == t,
        captured_in(e, t).desk == e.desk,
        captured_in(e, t).keys == e.keys,
{
    reveal(captured_in);
    assert(captured(register_text(e.registers), true, t) =~= t);
}

proof fn lemma_in_front(e: EditorView, d: DocView)
    requires
        e.desk.current < e.desk.docs.len(),
    ensures
        doc_of(crate::editor::on_doc(e, d)) == d,
{
}

/// `d` takes the stretch out of the text and keeps it in the register; where
/// it takes nothing, the text stays.
pub proof fn law_what_is_deleted_is_in_the_register(e: EditorView, r: (usize, usize))
    requires
        e.desk.current < e.desk.docs.len(),
        e.registers.fresh,
        r == deletion(doc_of(e), count_of(e)),
        r.0 <= r.1 <= doc_of(e).text.len(),
    ensures
        doc_of(delete_run(e)).text == doc_of(e).text.take(r.0 as int) + doc_of(e).text.skip(
            r.1 as int,
        ),
        r.0 < r.1 ==> register_text(delete_run(e).registers) == doc_of(e).text.subrange(
            r.0 as int,
            r.1 as int,
        ),
        r.0 == r.1 ==> delete_run(e).registers == e.registers,
{
    let d = doc_of(e);
    let t = crate::editor::count_taken(e);
    let c = captured_in(t, d.text.subrange(r.0 as int, r.1 as int));
    law_deleting_leaves_the_rest(d, r.0, r.1);
    lemma_pushed(t, d.text.subrange(r.0 as int, r.1 as int));
    lemma_in_front(crate::acts::unextended(c), crate::edits::cut(d, r.0, r.1));
    if r.0 == r.1 {
        assert(d.text.take(r.0 as int) + d.text.skip(r.1 as int) =~= d.text);
    }
}

/// Copying leaves the text as it is and keeps what is selected, or the
/// character under the cursor, in the register; changing takes it out of the
/// text as well and goes on to insert.
pub proof fn law_what_is_copied_or_changed_is_in_the_register(e: EditorView, r: (usize, usize))
    requires
        e.desk.current < e.desk.docs.len(),
        e.registers.fresh,
        r == range_of(doc_of(e)),
        r.0 < r.1 <= doc_of(e).text.len(),
    ensures
        doc_of(copy_run(e)).text == doc_of(e).text,
        doc_of(copy_run(e)).cursor == r.0,
        register_text(copy_run(e).registers) == doc_of(e).text.subrange(r.0 as int, r.1 as int),
        doc_of(change_run(e)).text == doc_of(e).text.take(r.0 as int) + doc_of(e).text.skip(
            r.1 as int,
        ),
        doc_of(change_run(e)).cursor == r.0,
        register_text(change_run(e).registers) == doc_of(e).text.subrange(r.0 as int, r.1 as int),
        change_run(e).keys.mode == Mode::Insert,
{
    let d = doc_of(e);
    let u = crate::acts::unextended(e);
    let c = captured_in(u, d.text.subrange(r.0 as int, r.1 as int));
    law_deleting_leaves_the_rest(d, r.0, r.1);
    lemma_pushed(u, d.text.subrange(r.0 as int, r.1 as int));
    lemma_in_front(c, DocView { cursor: r.0, goal_col: None, ..d });
    lemma_in_front(c, crate::document::range_deleted(d, r.0, r.1));
}

/// Deleting lines takes them out of the text and keeps them in the register.
pub proof fn law_deleted_lines_are_in_the_register(e: EditorView, r: (usize, usize))
    requires
        e.desk.current < e.desk.docs.len(),
        e.registers.fresh,
        r == line_deletion(doc_of(e), count_of(e)),
        r.0 < r.1 <= doc_of(e).text.len(),
    ensures
        doc_of(delete_line_run(e)).text == doc_of(e).text.take(r.0 as int) + doc_of(e).text.skip(
            r.1 as int,
        ),
        register_text(delete_line_run(e).registers) == doc_of(e).text.subrange(
            r.0 as int,
            r.1 as int,
        ),
{
    let d = doc_of(e);
    let t = crate::editor::count_taken(e);
    let c = captured_in(t, d.text.subrange(r.0 as int, r.1 as int));
    law_deleting_leaves_the_rest(d, r.0, r.1);
    lemma_pushed(t, d.text.subrange(r.0 as int, r.1 as int));
    lemma_in_front(c, crate::edits::cut(d, r.0, r.1));
}

/// Pasting pastes what the register holds and leaves the register as it is;
/// an empty one changes nothing.
pub proof fn law_pasting_pastes_the_register(e: EditorView, after: bool)
    requires
        e.desk.current < e.desk.docs.len(),
    ensures
        register_text(e.registers).len() == 0 ==> paste_run(e, after) == e,
        register_text(e.registers).len() > 0 ==> doc_of(paste_run(e, after)).text == pasted(
            doc_of(e),
            register_text(e.registers),
            after,
        ).text,
        paste_run(e, after).registers == e.registers,
{
    lemma_in_front(e, pasted(doc_of(e), register_text(e.registers), after));
}

// ---- entering insert mode ------------------------------------------------------------

/// Where insert mode is entered: before the cursor's character or behind it,
/// at the line's first character or at its end.
pub proof fn law_insert_mode_is_entered_at_its_place(d: DocView, a: int, e: int, n: int)
    requires
        placed(d),
        d.text.len() <= usize::MAX,
        is_on(d.text, d.cursor as int, a, e, n),
    ensures
        entered(d, Command::InsertMode) == d,
        entered(d, Command::AppendAtLineEnd).cursor == e,
        entered(d, Command::AppendAtLineEnd).text == d.text,
        d.cursor <= next_boundary(d.text, d.cursor as int) <= e ==> entered(
            d,
            Command::Append,
        ).cursor == (if a < e {
            next_boundary(d.text, d.cursor as int)
        } else {
            d.cursor as int
        }),
        entered(d, Command::Append).text == d.text,
{
    reveal(entered);
    let s = d.text;
    let c = d.cursor as int;
    lemma_is_on(s, c, a, e, n);
    if a < e && c <= next_boundary(s, c) <= e {
        lemma_is_on(s, next_boundary(s, c), a, e, n);
    }
}

// ---- vertical motion -----------------------------------------------------------------

/// Moving up or down goes as many lines as are counted, as far as there are
/// lines, and keeps to the display column that the first such motion set out
/// from.
pub proof fn law_vertical_motion_keeps_to_its_column(
    d: DocView,
    up: bool,
    n: usize,
    past_end: bool,
    tab: usize,
)
    requires
        placed(d),
        d.text.len() <= usize::MAX,
    ensures
        goal_of(moved_vertically(d, up, n, past_end, tab), tab) == goal_of(d, tab),
        moved_vertically(d, up, n, past_end, tab).goal_col == Some(goal_of(d, tab)),
        moved_vertically(d, up, n, past_end, tab).text == d.text,
        ({
            let s = d.text;
            let line = cursor_line(s, d.cursor as int);
            let target = if up {
                if line >= n {
                    line - n
                } else {
                    0
                }
            } else if line + n < line_count(s) {
                line + n
            } else {
                line_count(s) - 1
            };
            let l = line_content(s, target);
            cuts_up(l, cluster_lengths(l)) ==> cursor_line(
                s,
                moved_vertically(d, up, n, past_end, tab).cursor as int,
            ) == target
        }),
{
    let s = d.text;
    let line = cursor_line(s, d.cursor as int);
    let target = if up {
        if line >= n {
            line - n
        } else {
            0
        }
    } else if line + n < line_count(s) {
        line + n
    } else {
        line_count(s) - 1
    };
    let l = line_content(s, target);
    lemma_cursor_line(s, d.cursor as int);
    lemma_line_count(s);
    if cuts_up(l, cluster_lengths(l)) {
        let goal = goal_of(d, tab) as int;
        law_the_character_at_a_column_is_drawn_there(l, goal, tab);
        let k = char_at_column(l, goal, tab);
        let lens = cluster_lengths(l);
        let i = choose|i: int| 0 <= i <= lens.len() && k == #[trigger] reach(lens, i);
        lemma_reach_grows(lens, 0, i);
        lemma_reach_grows(lens, i, lens.len() as int);
        lemma_on_line(s, target, k, past_end);
    }
}

/// A place of a line, clamped, is on that line.
proof fn lemma_on_line(s: Seq<char>, line: int, k: int, past_end: bool)
    requires
        0 <= line < line_count(s),
        0 <= k <= line_len(s, line),
    ensures
        cursor_line(s, clamped(s, line_start(s, line) + k, past_end)) == line,
        0 <= clamped(s, line_start(s, line) + k, past_end) <= s.len(),
{
    lemma_line_count(s);
    lemma_line_parts(s, line);
    lemma_around_line(s, line);
    let a = line_start(s, line);
    let at = a + k;
    lemma_line_start(s, line);
    assert forall|p: int| a <= p <= line_end(s, line) implies #[trigger] line_of(s, p) == line by {
        lemma_same_line(s, a, p);
    }
    assert(cursor_line(s, at) == line);
    let len = line_len(s, line);
    let limit = a + if past_end || len == 0 {
        len
    } else {
        len - 1
    };
    let m = if at <= limit {
        at
    } else {
        limit
    };
    assert(line_of(s, m) == line);
    assert(cursor_line(s, m) == line);
    lemma_cluster_start(s, m);
}

// ---- more cursors ----------------------------------------------------------------------

/// Whether a selection is the outermost one: no cursor is further down, or up.
pub open spec fn is_outermost(d: DocView, down: bool, sel: (usize, usize)) -> bool {
    &&& sel == (d.anchor, d.cursor) || d.extra.contains(sel)
    &&& if down {
        d.cursor <= sel.1 && forall|i: int| 0 <= i < d.extra.len() ==> (#[trigger] d.extra[i]).1 <= sel.1
    } else {
        sel.1 <= d.cursor && forall|i: int| 0 <= i < d.extra.len() ==> sel.1 <= (#[trigger] d.extra[i]).1
    }
}

proof fn lemma_outermost(d: DocView, down: bool, n: nat)
    requires
        n <= d.extra.len(),
    ensures
        ({
            let best = outermost(d, down, n);
            &&& best == (d.anchor, d.cursor) || d.extra.contains(best)
            &&& if down {
                d.cursor <= best.1 && forall|i: int|
                    0 <= i < n ==> (#[trigger] d.extra[i]).1 <= best.1
            } else {
                best.1 <= d.cursor && forall|i: int|
                    0 <= i < n ==> best.1 <= (#[trigger] d.extra[i]).1
            }
        }),
    decreases n,
{
    if n > 0 {
        lemma_outermost(d, down, (n - 1) as nat);
        assert(d.extra.contains(d.extra[n - 1]));
    }
}

/// One more cursor: the selections there were stay, with the primary one as it
/// was, and there is none where no line is left. The new one is made from the
/// outermost cursor.
pub proof fn law_a_cursor_is_added_beyond_the_outermost(
    d: DocView,
    down: bool,
    tab: usize,
    x: (usize, usize),
)
    requires
        placed(d),
    ensures
        is_outermost(d, down, outermost(d, down, d.extra.len())),
        ({
            let line = cursor_line(d.text, outermost(d, down, d.extra.len()).1 as int);
            cursor_added(d, down, tab) is None <==> (if down {
                line + 1 >= line_count(d.text)
            } else {
                line == 0
            })
        }),
        cursor_added(d, down, tab) matches Some(r) ==> {
            &&& r.text == d.text
            &&& r.anchor == d.anchor && r.cursor == d.cursor
            &&& each_once(r.extra)
            &&& d.extra.contains(x) && x != (d.anchor, d.cursor) ==> r.extra.contains(x)
        },
{
    lemma_outermost(d, down, d.extra.len());
    let c = outermost(d, down, d.extra.len()).1 as int;
    lemma_cursor_line(d.text, c);
    if cursor_added(d, down, tab) is Some {
        let s = d.text;
        let (a, k) = outermost(d, down, d.extra.len());
        let line = cursor_line(s, k as int);
        let target = if down {
            line + 1
        } else {
            line - 1
        };
        let new_c = crate::motions::carried(s, line, k as int, target, tab) as usize;
        let new_a = if cursor_line(s, a as int) == line && a != k {
            crate::motions::carried(s, line, a as int, target, tab) as usize
        } else {
            new_c
        };
        let more = DocView { extra: d.extra.push((new_a, new_c)), ..d };
        law_each_selection_is_there_once(more, x);
        if d.extra.contains(x) {
            let i = choose|i: int| 0 <= i < d.extra.len() && d.extra[i] == x;
            assert(more.extra[i] == x);
        }
    }
}

// ---- commands --------------------------------------------------------------------------

/// Half a page is half the rows that are shown, a page all of them; each is at
/// least one row.
pub proof fn law_pages_go_by_the_rows_shown(page: usize)
    ensures
        page >= 2 ==> rows_of(page, true) == page / 2,
        page >= 1 ==> rows_of(page, false) == page,
        page < 2 ==> rows_of(page, true) == 1,
        page == 0 ==> rows_of(page, false) == 1,
{
}

/// A page down is as many lines down as a page has rows, and so for the other
/// motions by pages.
pub proof fn law_pages_are_moved_by_lines(
    d: DocView,
    count: Option<usize>,
    past_end: bool,
    tab: usize,
    page: usize,
)
    requires
        page >= 2,
    ensures
        bare_motion(d, Command::PageDown, count, past_end, tab, page) == bare_motion(
            d,
            Command::MoveDown,
            Some(page),
            past_end,
            tab,
            page,
        ),
        bare_motion(d, Command::PageUp, count, past_end, tab, page) == bare_motion(
            d,
            Command::MoveUp,
            Some(page),
            past_end,
            tab,
            page,
        ),
        bare_motion(d, Command::HalfPageDown, count, past_end, tab, page) == bare_motion(
            d,
            Command::MoveDown,
            Some(page / 2),
            past_end,
            tab,
            page,
        ),
        bare_motion(d, Command::HalfPageUp, count, past_end, tab, page) == bare_motion(
            d,
            Command::MoveUp,
            Some(page / 2),
            past_end,
            tab,
            page,
        ),
{
    reveal(bare_motion);
}

/// A count for the motions to a line is the line's number, from one on;
/// without one they go to the first line and to the last.
pub proof fn law_a_count_names_a_line(
    d: DocView,
    n: usize,
    past_end: bool,
    tab: usize,
    page: usize,
)
    requires
        d.text.len() <= usize::MAX,
        n >= 1,
    ensures
        ({
            let line = if n <= line_count(d.text) {
                n - 1
            } else {
                line_count(d.text) - 1
            };
            &&& line_of(
                d.text,
                bare_motion(d, Command::GotoFileStart, Some(n), past_end, tab, page).cursor as int,
            ) == line
            &&& line_of(
                d.text,
                bare_motion(d, Command::GotoFileEnd, Some(n), past_end, tab, page).cursor as int,
            ) == line
        }),
        bare_motion(d, Command::GotoFileStart, None, past_end, tab, page).cursor == 0,
        line_of(
            d.text,
            bare_motion(d, Command::GotoFileEnd, None, past_end, tab, page).cursor as int,
        ) == line_count(d.text) - 1,
{
    reveal(bare_motion);
    let s = d.text;
    lemma_line_count(s);
    let line = if n <= line_count(s) {
        n - 1
    } else {
        line_count(s) - 1
    };
    lemma_line_start(s, line);
    lemma_line_start(s, 0);
    lemma_line_start(s, line_count(s) - 1);
}

// ---- the mouse -------------------------------------------------------------------------

/// A click leaves one bare cursor where the pointer is, as far as a cursor can
/// stand there, or stretches the selection to there; a drag stretches it over
/// the character under the pointer.
pub proof fn law_a_click_places_and_a_drag_stretches(d: DocView, pos: int, insert: bool)
    requires
        0 <= pos <= d.text.len() <= usize::MAX,
    ensures
        clicked(d, pos, insert, false).extra.len() == 0,
        clicked(d, pos, insert, false).anchor == clicked(d, pos, insert, false).cursor,
        clicked(d, pos, insert, false).cursor == clamped(d.text, pos, insert) as usize,
        clicked(d, pos, insert, true).anchor == d.anchor,
        clicked(d, pos, insert, true).cursor == clicked(d, pos, insert, false).cursor,
        clicked(d, pos, insert, false).text == d.text,
        dragged(d, pos).anchor == d.anchor,
        dragged(d, pos).text == d.text,
        pos < d.anchor ==> dragged(d, pos).cursor == pos,
        pos >= d.anchor ==> dragged(d, pos).cursor == next_boundary(d.text, pos) as usize,
{
    reveal(clicked);
    reveal(dragged);
}

} // verus!
