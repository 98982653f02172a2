//! What holds of the editor as a whole.

use vstd::prelude::*;
use crate::acts::{command_line_opened, normal_run};
use crate::commands::Command;
use crate::config::{applied as configured, is_theme, ConfigView, OptionsView};
use crate::desk::{
    cycle_of, focus_restored, nearest, next_of, place_in, refocused, shown_again, window_removed,
    window_split, DeskView, Dir,
};
use crate::dispatch::{group_of, ran, ran_places, ran_prompts, Group};
use crate::document::{
    came_back, committed, common_head, difference, insert_edits, inserted,
    law_an_edit_is_one_step, law_replaced_reads_the_new, lemma_common_head, lemma_common_tail,
    lemma_keeps_all, lemma_line_parts, lemma_one_edit_len, min_int, points_upto, replaced, ride,
    undone, with_point, DocView,
};
use crate::editor::{
    area_of, doc_of, focused_rect_of, in_mode, insert_left, inserting, text_height_of, EditorView,
};
use crate::json::{field, u64_of, Json};
use crate::keymap::{Key, KeymapResult};
use crate::layout::{ids, rects_of, Rect};
use crate::motions::{as_shown, included};
use crate::moves::{bare_motion, jump_noted, motion, motion_here, motion_run, stretched};
use crate::position::utf16_char_from;
use crate::run::{hidden_toggled, quit_run, wrap_toggled};
use crate::shell::{
    came_to, count_grown, pending_cleared, pending_with, prefix_set, runs_over_shell, shell_keyed,
    shell_looked_up, shell_normal_keyed, shell_prefixed, shell_ran,
};
use crate::state::Mode;
use crate::substitute::{all_replaced, as_edits};
use crate::text::{line_text, lines_in};
use crate::transaction::{
    capped, change_ops, edits_fit, keeps_all, law_change_makes_the_edits, mapped, with_edits,
};
use crate::upkeep::reformatted;
use crate::windows::{
    focus_next_in, focus_on, focus_synced, focus_towards, preview_closed, shell_hidden,
    shell_toggled, shell_window, split_in, window_detached, window_towards,
};
use crate::workspace::{
    apart_from, change_of, changes_in, changes_upto, offset_of, server_edited, server_edits,
    with_change,
};

verus! {

// ---- the configuration ------------------------------------------------------------

/// The configuration read last is the one in force: nothing is left of one
/// applied before it, its formatters included.
pub proof fn law_the_last_configuration_counts(
    first: ConfigView,
    last: ConfigView,
    before: OptionsView,
)
    requires
        is_theme(last.theme),
    ensures
        configured(last, configured(first, before)) == configured(last, before),
{
}

proof fn lemma_hidden(e: EditorView)
    ensures
        hidden_toggled(e).options == (OptionsView {
            show_hidden: !e.options.show_hidden,
            ..e.options
        }),
{
}

proof fn lemma_wrap(e: EditorView)
    ensures
        wrap_toggled(e).options == (OptionsView { soft_wrap: !e.options.soft_wrap, ..e.options }),
{
}

/// Showing dotfiles and wrapping lines are switched back by switching them
/// again.
pub proof fn law_switched_twice_is_as_before(e: EditorView)
    ensures
        hidden_toggled(hidden_toggled(e)).options == e.options,
        wrap_toggled(wrap_toggled(e)).options == e.options,
{
    lemma_hidden(e);
    lemma_hidden(hidden_toggled(e));
    lemma_wrap(e);
    lemma_wrap(wrap_toggled(e));
}

// ---- quitting ---------------------------------------------------------------------

/// Quitting does not lose changes: a buffer with unsaved changes in the last
/// window keeps the editor open.
pub proof fn law_quitting_keeps_unsaved_changes(e: EditorView)
    requires
        doc_of(e).modified,
        !e.should_quit,
        ids(e.desk.layout).len() <= 1,
    ensures
        !quit_run(e).should_quit,
{
}

// ---- one undo step ----------------------------------------------------------------

proof fn lemma_closed(d: DocView)
    ensures
        committed(d).text == d.text,
        committed(d).history == d.history,
        d.history.len() > 0 ==> committed(d).history.last().group != committed(d).group,
{
}

spec fn rising(points: Seq<usize>, len: int) -> bool {
    &&& forall|i: int| 0 <= i < points.len() ==> (#[trigger] points[i]) <= len
    &&& forall|i: int, j: int|
        0 <= i < j < points.len() ==> (#[trigger] points[i]) < (#[trigger] points[j])
}

proof fn lemma_with_point(points: Seq<usize>, p: usize, i: int, len: int)
    requires
        rising(points, len),
        p <= len,
        0 <= i <= points.len(),
        forall|k: int| 0 <= k < i ==> (#[trigger] points[k]) < p,
    ensures
        rising(with_point(points, p, i), len),
    decreases points.len() - i,
{
    if i < points.len() && p > points[i] {
        lemma_with_point(points, p, i + 1, len);
    } else if i >= points.len() || p < points[i] {
        let r = points.take(i).push(p) + points.skip(i);
        assert forall|k: int| 0 <= k < r.len() implies (#[trigger] r[k]) <= len by {
            if k > i {
                assert(r[k] == points[k - 1]);
            }
        }
        assert forall|a: int, b: int| 0 <= a < b < r.len() implies (#[trigger] r[a]) < (
        #[trigger] r[b]) by {
            if b < i {
                assert(r[a] == points[a] && r[b] == points[b]);
            } else if b == i {
                assert(r[a] == points[a]);
            } else if a < i {
                assert(r[a] == points[a] && r[b] == points[b - 1]);
                assert(points[i] <= points[b - 1]);
            } else if a == i {
                assert(r[b] == points[b - 1]);
                assert(points[i] <= points[b - 1]);
            } else {
                assert(r[a] == points[a - 1] && r[b] == points[b - 1]);
            }
        }
    }
}

proof fn lemma_points(cursor: usize, extra: Seq<(usize, usize)>, n: nat, len: int)
    requires
        cursor <= len,
        n <= extra.len(),
        forall|i: int| 0 <= i < extra.len() ==> (#[trigger] extra[i]).1 <= len,
    ensures
        rising(points_upto(cursor, extra, n), len),
    decreases n,
{
    if n > 0 {
        lemma_points(cursor, extra, (n - 1) as nat, len);
        assert(extra[n - 1].1 <= len);
        lemma_with_point(points_upto(cursor, extra, (n - 1) as nat), extra[n - 1].1, 0, len);
    }
}

/// Typing at every cursor is one undo step.
pub proof fn law_typing_at_every_cursor_is_one_step(d: DocView, t: Seq<char>)
    requires
        d.cursor <= d.text.len(),
        forall|i: int| 0 <= i < d.extra.len() ==> (#[trigger] d.extra[i]).1 <= d.text.len(),
        inserted(committed(d), t).text != d.text,
    ensures
        undone(inserted(committed(d), t)).text == d.text,
        undone(inserted(committed(d), t)).history == d.history,
{
    lemma_closed(d);
    let c = committed(d);
    let len = d.text.len() as int;
    if d.extra.len() == 0 {
        let e = (d.cursor as int, d.cursor as int, Some(t));
        lemma_one_edit_len(d.text, e);
        law_change_makes_the_edits(seq![e], d.text);
        law_an_edit_is_one_step(
            c,
            change_ops(seq![e], len),
            capped(d.cursor + t.len()) as usize,
            inserted(c, t),
        );
    } else {
        lemma_points(d.cursor, d.extra, d.extra.len(), len);
        let es = insert_edits(points_upto(d.cursor, d.extra, d.extra.len()), t);
        assert(edits_fit(es, len));
        law_change_makes_the_edits(es, d.text);
        let ops = change_ops(es, len);
        law_an_edit_is_one_step(c, ops, ride(ops, d.cursor), inserted(c, t));
    }
}

/// A file read again is taken back by one undo.
pub proof fn law_a_reload_is_one_step(d: DocView, new: Seq<char>)
    requires
        d.text != new,
    ensures
        undone(replaced(d, new)).text == d.text,
        undone(replaced(d, new)).history == d.history,
        came_back(undone(replaced(d, new)), d),
{
    lemma_closed(d);
    let c = committed(d);
    let e = difference(d.text, new);
    let head = common_head(d.text, new, 0);
    law_replaced_reads_the_new(d, new);
    lemma_common_head(d.text, new, 0);
    lemma_common_tail(d.text, new, 0, min_int(d.text.len() - head, new.len() - head));
    lemma_one_edit_len(d.text, e);
    law_change_makes_the_edits(seq![e], d.text);
    let ops = change_ops(seq![e], d.text.len() as int);
    let at = capped(
        mapped(ops, c.cursor as int, true),
    ) as usize;
    law_an_edit_is_one_step(c, ops, at, replaced(d, new));
}

/// What a formatter made of a buffer is taken back by one undo.
pub proof fn law_a_format_is_one_step(d: DocView, new: Seq<char>)
    requires
        d.text != new,
        d.history.len() > 0 ==> d.history.last().group != d.group,
    ensures
        undone(reformatted(d, new)).text == d.text,
        undone(reformatted(d, new)).history == d.history,
        came_back(undone(reformatted(d, new)), d),
{
    reveal(reformatted);
    let len = d.text.len() as int;
    let e = (0int, len, Some(new));
    lemma_one_edit_len(d.text, e);
    law_change_makes_the_edits(seq![e], d.text);
    assert(with_edits(d.text, seq![e]) =~= new);
    let ops = change_ops(seq![e], len);
    if keeps_all(ops) {
        lemma_keeps_all(ops, d.text);
    }
    let at = min_int(d.cursor as int, new.len() as int) as usize;
    law_an_edit_is_one_step(d, ops, at, reformatted(d, new));
}

proof fn lemma_utf16_in_line(line: Seq<char>, i: int, units: int, target: int)
    requires
        0 <= i <= line.len(),
    ensures
        i <= utf16_char_from(line, i, units, target) <= line.len(),
    decreases line.len() - i,
{
    if i < line.len() && units < target {
        lemma_utf16_in_line(
            line,
            i + 1,
            units + if line[i] as u32 >= 0x10000 {
                2int
            } else {
                1int
            },
            target,
        );
    }
}

proof fn lemma_offset(s: Seq<char>, pos: Json)
    requires
        s.len() <= usize::MAX,
        offset_of(s, pos) is Some,
    ensures
        offset_of(s, pos)->0 <= s.len(),
{
    let line = u64_of(field(pos, "line"@))->0 as usize;
    let col = u64_of(field(pos, "character"@))->0 as usize;
    if line < lines_in(s) {
        lemma_line_parts(s, line as int);
        lemma_utf16_in_line(line_text(s, line as int), 0, 0, col as int);
    }
}

proof fn lemma_with_change(
    list: Seq<(usize, usize, Seq<char>)>,
    c: (usize, usize, Seq<char>),
    i: int,
    len: int,
)
    requires
        changes_in(list, len),
        c.0 <= c.1 <= len,
        0 <= i <= list.len(),
    ensures
        changes_in(with_change(list, c, i), len),
    decreases list.len() - i,
{
    if i >= list.len() || list[i].0 > c.0 || (list[i].0 == c.0 && list[i].1 > c.1) {
        let r = list.take(i).push(c) + list.skip(i);
        assert forall|k: int| 0 <= k < r.len() implies (#[trigger] r[k]).0 <= r[k].1 <= len by {
            if k < i {
                assert(r[k] == list[k]);
            } else if k > i {
                assert(r[k] == list[k - 1]);
            }
        }
    } else {
        lemma_with_change(list, c, i + 1, len);
    }
}

proof fn lemma_changes(s: Seq<char>, edits: Seq<Json>, n: nat)
    requires
        s.len() <= usize::MAX,
        n <= edits.len(),
    ensures
        changes_in(changes_upto(s, edits, n), s.len() as int),
    decreases n,
{
    if n > 0 {
        lemma_changes(s, edits, (n - 1) as nat);
        let range = field(edits[n - 1], "range"@);
        if let Some(c) = change_of(s, edits[n - 1]) {
            lemma_offset(s, field(range, "start"@));
            lemma_offset(s, field(range, "end"@));
            lemma_with_change(changes_upto(s, edits, (n - 1) as nat), c, 0, s.len() as int);
        }
    }
}

proof fn lemma_apart(list: Seq<(usize, usize, Seq<char>)>, i: int, last: usize, len: int)
    requires
        changes_in(list, len),
        0 <= i <= list.len(),
    ensures
        edits_fit(apart_from(list, i, last), len),
        forall|k: int|
            0 <= k < apart_from(list, i, last).len() ==> last <= (#[trigger] apart_from(
                list,
                i,
                last,
            )[k]).0,
    decreases list.len() - i,
{
    if i < list.len() {
        if list[i].0 >= last {
            lemma_apart(list, i + 1, list[i].1, len);
            let rest = apart_from(list, i + 1, list[i].1);
            let one = (list[i].0 as int, list[i].1 as int, Some(list[i].2));
            let r = apart_from(list, i, last);
            assert(r == seq![one] + rest);
            assert forall|k: int| 0 <= k < r.len() implies 0 <= (#[trigger] r[k]).0 <= r[k].1 <= len
                && last <= r[k].0 by {
                if k > 0 {
                    assert(r[k] == rest[k - 1]);
                }
            }
            assert forall|a: int, b: int| 0 <= a < b < r.len() implies (#[trigger] r[a]).1 <= (
            #[trigger] r[b]).0 by {
                assert(r[b] == rest[b - 1]);
                if a > 0 {
                    assert(r[a] == rest[a - 1]);
                }
            }
        } else {
            lemma_apart(list, i + 1, last, len);
        }
    }
}

/// The edits that a server sends for a file are one undo step.
pub proof fn law_a_server_edit_is_one_step(d: DocView, edits: Seq<Json>)
    requires
        d.text.len() <= usize::MAX,
        server_edited(d, edits).text != d.text,
    ensures
        undone(server_edited(d, edits)).text == d.text,
        undone(server_edited(d, edits)).history == d.history,
{
    lemma_closed(d);
    let c = committed(d);
    let es = server_edits(d.text, edits);
    lemma_changes(d.text, edits, edits.len());
    lemma_apart(changes_upto(d.text, edits, edits.len()), 0, 0, d.text.len() as int);
    law_change_makes_the_edits(es, d.text);
    let ops = change_ops(es, d.text.len() as int);
    law_an_edit_is_one_step(
        c,
        ops,
        ride(ops, d.cursor),
        server_edited(d, edits),
    );
}

/// A substitution is one undo step, where the undo group before it is closed.
pub proof fn law_a_substitution_is_one_step(d: DocView, v: Seq<(int, int, Seq<char>)>)
    requires
        edits_fit(as_edits(v), d.text.len() as int),
        d.history.len() > 0 ==> d.history.last().group != d.group,
        all_replaced(d, v).text != d.text,
    ensures
        undone(all_replaced(d, v)).text == d.text,
        undone(all_replaced(d, v)).history == d.history,
{
    reveal(all_replaced);
    law_change_makes_the_edits(as_edits(v), d.text);
    let ops = change_ops(as_edits(v), d.text.len() as int);
    law_an_edit_is_one_step(d, ops, ride(ops, d.cursor), all_replaced(d, v));
}

// ---- the shell's keys -------------------------------------------------------------

/// Another state of the editor with the same texts in its buffers.
pub open spec fn same_texts(a: EditorView, b: EditorView) -> bool {
    &&& a.desk.docs.len() == b.desk.docs.len()
    &&& forall|i: int|
        0 <= i < a.desk.docs.len() ==> (#[trigger] b.desk.docs[i]).text == a.desk.docs[i].text
}

spec fn held(a: DeskView, b: DeskView) -> bool {
    &&& a.docs.len() == b.docs.len()
    &&& b.current < b.docs.len()
    &&& forall|i: int| 0 <= i < a.docs.len() ==> (#[trigger] b.docs[i]).text == a.docs[i].text
}

proof fn lemma_restored(v: DeskView)
    requires
        v.current < v.docs.len(),
    ensures
        held(v, focus_restored(v)),
{
    if let Some(w) = crate::layout::window_in(v.layout, v.focused) {
        let at = min_int(w.doc as int, v.docs.len() - 1);
        assert(shown_again(v.docs[at], w).text == v.docs[at].text);
    }
}

proof fn lemma_refocused(v: DeskView, id: usize)
    requires
        v.current < v.docs.len(),
    ensures
        held(v, refocused(v, id)),
{
    lemma_restored(DeskView { focused: id, ..crate::desk::focus_saved(v) });
}

proof fn lemma_split(v: DeskView, vertical: bool)
    requires
        v.current < v.docs.len(),
    ensures
        held(v, window_split(v, vertical)),
{
    let s = crate::desk::focus_saved(v);
    if let Some(w) = crate::layout::window_in(s.layout, v.focused) {
        let new = crate::layout::WinView { id: v.next_id, ..w };
        if let Some(t) = crate::layout::split_at(s.layout, v.focused, vertical, new) {
            if v.next_id < usize::MAX {
                lemma_restored(
                    DeskView {
                        layout: t,
                        focused: v.next_id,
                        next_id: (v.next_id + 1) as usize,
                        ..s
                    },
                );
            }
        }
    }
}

proof fn lemma_removed(v: DeskView, id: usize)
    requires
        v.current < v.docs.len(),
    ensures
        held(v, window_removed(v, id)),
{
    let c = crate::desk::window_closed(v, id);
    lemma_restored(DeskView { focused: ids(c.layout)[0], ..c });
}

proof fn lemma_in_mode(e: EditorView, mode: Mode)
    requires
        e.desk.current < e.desk.docs.len(),
    ensures
        held(e.desk, in_mode(e, mode).desk),
{
    reveal(insert_left);
}

proof fn lemma_synced(e: EditorView)
    requires
        e.desk.current < e.desk.docs.len(),
    ensures
        held(e.desk, focus_synced(e).desk),
{
    let f = EditorView {
        shell: crate::state::ShellView { pending: None, ..e.shell },
        ..e
    };
    lemma_in_mode(f, Mode::Terminal);
}

proof fn lemma_focus(e: EditorView, id: usize)
    requires
        e.desk.current < e.desk.docs.len(),
    ensures
        held(e.desk, focus_on(e, id).desk),
{
    reveal(focus_on);
    lemma_refocused(e.desk, id);
    lemma_synced(EditorView { desk: refocused(e.desk, id), ..e });
}

proof fn lemma_split_in(e: EditorView, vertical: bool)
    requires
        e.desk.current < e.desk.docs.len(),
    ensures
        held(e.desk, split_in(e, vertical).desk),
{
    reveal(split_in);
    lemma_split(e.desk, vertical);
    lemma_synced(EditorView { desk: window_split(e.desk, vertical), ..e });
}

proof fn lemma_focus_moves(e: EditorView, dir: Dir)
    requires
        e.desk.current < e.desk.docs.len(),
    ensures
        held(e.desk, focus_towards(e, dir).desk),
        held(e.desk, focus_next_in(e).desk),
{
    reveal(focus_towards);
    reveal(focus_next_in);
    if let Some(id) = window_towards(e, dir) {
        lemma_focus(e, id);
    }
    if let Some(id) = next_of(e.desk, e.panes.preview) {
        lemma_focus(e, id);
    }
}

proof fn lemma_detached(e: EditorView, win: usize)
    requires
        e.desk.current < e.desk.docs.len(),
    ensures
        held(e.desk, window_detached(e, win).desk),
{
    reveal(window_detached);
    lemma_focus_moves(e, Dir::Up);
    let off = if e.desk.focused == win {
        if window_towards(e, Dir::Up) is Some {
            focus_towards(e, Dir::Up)
        } else {
            focus_next_in(e)
        }
    } else {
        e
    };
    lemma_removed(off.desk, win);
    lemma_synced(EditorView { desk: window_removed(off.desk, win), ..off });
}

proof fn lemma_shell_window(e: EditorView)
    requires
        e.desk.current < e.desk.docs.len(),
    ensures
        held(e.desk, shell_window(e).desk),
{
    reveal(shell_window);
    lemma_split_in(e, false);
    let s = split_in(e, false);
    let shown = EditorView {
        shell: crate::state::ShellView {
            running: true,
            win: Some(s.desk.focused),
            rows: focused_rect_of(s).3,
            ..s.shell
        },
        ..s
    };
    lemma_in_mode(shown, Mode::Terminal);
    lemma_synced(shown);
}

proof fn lemma_shell_toggled(e: EditorView)
    requires
        e.desk.current < e.desk.docs.len(),
    ensures
        held(e.desk, shell_hidden(e).desk),
        held(e.desk, shell_toggled(e).desk),
{
    reveal(shell_hidden);
    lemma_shell_window(e);
    if let Some(win) = e.shell.win {
        lemma_detached(e, win);
        lemma_focus(e, win);
    }
}

proof fn lemma_quit(e: EditorView)
    requires
        e.desk.current < e.desk.docs.len(),
    ensures
        held(e.desk, quit_run(e).desk),
{
    reveal(preview_closed);
    lemma_shell_toggled(e);
    lemma_focus_moves(e, Dir::Up);
    if let Some(win) = e.panes.preview {
        lemma_removed(e.desk, win);
    }
}

proof fn lemma_normal(e: EditorView)
    requires
        e.desk.current < e.desk.docs.len(),
    ensures
        held(e.desk, normal_run(e).desk),
        held(e.desk, command_line_opened(e).desk),
{
    reveal(insert_left);
}

proof fn lemma_places(e: EditorView, c: Command)
    requires
        e.desk.current < e.desk.docs.len(),
        runs_over_shell(c),
        group_of(c) == Group::Places,
    ensures
        held(e.desk, ran_places(e, c).desk),
{
    reveal(ran_places);
    match c {
        Command::Quit => lemma_quit(e),
        Command::Terminal => lemma_shell_toggled(e),
        Command::FocusLeft => lemma_focus_moves(e, Dir::Left),
        Command::FocusRight | Command::NextWindow => lemma_focus_moves(e, Dir::Right),
        Command::FocusUp => lemma_focus_moves(e, Dir::Up),
        Command::FocusDown => lemma_focus_moves(e, Dir::Down),
        Command::SplitVertical => lemma_split_in(e, true),
        Command::SplitHorizontal => lemma_split_in(e, false),
        _ => {},
    }
}

proof fn lemma_prompts(e: EditorView, c: Command)
    requires
        e.desk.current < e.desk.docs.len(),
        runs_over_shell(c),
        group_of(c) == Group::Prompts,
    ensures
        held(e.desk, ran_prompts(e, c).desk),
{
    reveal(ran_prompts);
    match c {
        Command::NormalMode | Command::CommandMode => lemma_normal(e),
        _ => {},
    }
}

proof fn lemma_over_shell(e: EditorView, c: Command)
    requires
        e.desk.current < e.desk.docs.len(),
        runs_over_shell(c),
    ensures
        held(e.desk, ran(e, c).desk),
{
    reveal(ran);
    reveal(group_of);
    assert(group_of(c) == Group::Places || group_of(c) == Group::Prompts);
    if group_of(c) == Group::Places {
        lemma_places(e, c);
    } else {
        lemma_prompts(e, c);
    }
}

proof fn lemma_shell_ran(e: EditorView, c: Command)
    requires
        e.desk.current < e.desk.docs.len(),
    ensures
        held(e.desk, shell_ran(e, c).desk),
{
    reveal(shell_ran);
    let t = crate::editor::count_taken(e);
    if runs_over_shell(c) {
        lemma_over_shell(t, c);
    }
}

proof fn lemma_prefixed(e: EditorView, prefix: Key, key: Key)
    requires
        e.desk.current < e.desk.docs.len(),
    ensures
        held(e.desk, shell_prefixed(e, prefix, key).desk),
{
    reveal(shell_prefixed);
    lemma_normal(e);
    lemma_focus_moves(e, Dir::Up);
    if let KeymapResult::Matched(c) = came_to(e.keymaps.normal, seq![prefix, key]) {
        lemma_shell_ran(e, c);
    }
}

proof fn lemma_looked_up(e: EditorView)
    requires
        e.desk.current < e.desk.docs.len(),
    ensures
        held(e.desk, shell_looked_up(e).desk),
{
    reveal(shell_looked_up);
    if let KeymapResult::Matched(c) = came_to(e.keymaps.normal, e.keys.pending) {
        lemma_shell_ran(pending_cleared(e), c);
    }
}

/// Keys that the shell has never touch a buffer: they change no text.
pub proof fn law_keys_for_the_shell_keep_the_texts(e: EditorView, key: Key)
    requires
        e.desk.current < e.desk.docs.len(),
    ensures
        same_texts(e, shell_keyed(e, key)),
{
    reveal(shell_keyed);
    if let Some(prefix) = e.shell.pending {
        lemma_prefixed(prefix_set(e, None), prefix, key);
    }
}

/// Keys over the shell's window in normal mode never touch a buffer either.
pub proof fn law_keys_over_the_shell_keep_the_texts(e: EditorView, key: Key)
    requires
        e.desk.current < e.desk.docs.len(),
    ensures
        same_texts(e, shell_normal_keyed(e, key)),
{
    reveal(shell_normal_keyed);
    reveal(count_grown);
    lemma_looked_up(pending_with(e, key));
}

// ---- motions ----------------------------------------------------------------------

proof fn lemma_motion(
    d: DocView,
    c: Command,
    count: Option<usize>,
    past_end: bool,
    tab: usize,
    page: usize,
)
    ensures
        motion(d, c, count, past_end, tab, page).text == d.text,
{
    reveal(motion);
    reveal(bare_motion);
}

proof fn lemma_motion_here(e: EditorView, c: Command)
    requires
        e.desk.current < e.desk.docs.len(),
    ensures
        same_texts(e, motion_here(e, c)),
{
    reveal(motion_here);
    reveal(stretched);
    let d = doc_of(e);
    let tab = e.options.tab_width;
    let page = text_height_of(e);
    let past_end = inserting(e);
    lemma_motion(d, c, e.keys.count, past_end, tab, page);
    lemma_motion(as_shown(d), c, e.keys.count, past_end, tab, page);
    assert(as_shown(d).text == d.text);
    let m = motion(as_shown(d), c, e.keys.count, past_end, tab, page);
    assert(included(m).text == m.text);
}

/// A motion changes no text: it moves cursors, however far and whatever it
/// selects.
pub proof fn law_motions_keep_the_texts(e: EditorView, c: Command)
    requires
        e.desk.current < e.desk.docs.len(),
    ensures
        same_texts(e, motion_run(e, c)),
{
    lemma_motion_here(e, c);
    lemma_motion_here(jump_noted(e), c);
}

// ---- the preview ------------------------------------------------------------------

proof fn lemma_nearest(
    wins: Seq<(usize, Rect)>,
    from: Rect,
    focused: usize,
    skip: Option<usize>,
    dir: Dir,
    n: nat,
)
    requires
        n <= wins.len(),
    ensures
        nearest(wins, from, focused, skip, dir, n) matches Some(i) ==> 0 <= i < n && Some(
            wins[i].0,
        ) != skip,
    decreases n,
{
    if n > 0 {
        lemma_nearest(wins, from, focused, skip, dir, (n - 1) as nat);
    }
}

proof fn lemma_cycle(all: Seq<usize>, skip: Option<usize>, focused: usize, n: nat)
    requires
        Some(focused) != skip,
    ensures
        forall|i: int|
            0 <= i < cycle_of(all, skip, focused, n).len() ==> Some(
                #[trigger] cycle_of(all, skip, focused, n)[i],
            ) != skip,
    decreases n,
{
    if n > 0 && n <= all.len() {
        lemma_cycle(all, skip, focused, (n - 1) as nat);
        let head = cycle_of(all, skip, focused, (n - 1) as nat);
        let c = cycle_of(all, skip, focused, n);
        assert forall|i: int| 0 <= i < c.len() implies Some(#[trigger] c[i]) != skip by {
            if i < head.len() {
                assert(c[i] == head[i]);
            }
        }
    }
}

/// The focus never moves into the preview: from another window, neither a
/// step in a direction nor one round the windows leads there.
pub proof fn law_the_focus_stays_out_of_the_preview(e: EditorView, dir: Dir)
    requires
        Some(e.desk.focused) != e.panes.preview,
    ensures
        window_towards(e, dir) matches Some(id) ==> Some(id) != e.panes.preview,
        next_of(e.desk, e.panes.preview) matches Some(id) ==> Some(id) != e.panes.preview,
{
    let wins = rects_of(e.desk.layout, area_of(e));
    lemma_nearest(
        wins,
        focused_rect_of(e),
        e.desk.focused,
        e.panes.preview,
        dir,
        wins.len(),
    );
    let all = ids(e.desk.layout);
    lemma_cycle(all, e.panes.preview, e.desk.focused, all.len());
    let c = cycle_of(all, e.panes.preview, e.desk.focused, all.len());
    let k = place_in(c, e.desk.focused, 0) + 1;
    if c.len() > 1 {
        assert(0 <= k % (c.len() as int) < c.len()) by (nonlinear_arith)
            requires
                c.len() > 1,
        ;
    }
}

} // verus!
