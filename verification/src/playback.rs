//! A playback ends: what is played back may begin to play back more, but only
//! so deep, and every step leaves less to come.

use vstd::prelude::*;
use crate::acts::captured_in;
use crate::commands::Command;
use crate::comment::comment_run;
use crate::completion::{autocompleted, words_offered};
use crate::desk::Dir;
use crate::dispatch::{ran, ran_changes, ran_places, ran_prompts, ran_sets};
use crate::editor::{doc_of, on_doc, EditorView};
use crate::ex::{ex_asked, ex_line_run, ex_run, install_run, theme_run, ExView};
use crate::filetree::TreeView;
use crate::help::help_keyed;
use crate::input::{
    doubled, doubling_keyed, hover_first, keyed, looked_up_keys, menu_first, pane_keyed,
    prefix_keyed, shell_first, unbound, waited_keyed,
};
use crate::keymap::Key;
use crate::keys::{
    block_after, block_before, command_over, counted, dispatched, ran_at, ran_at_each, ran_from,
    ran_where, runs_at_each, traded,
};
use crate::moves::motion_here;
use crate::picker_keys::{
    entry_picked, picked, picker_accepted, picker_cancelled, picker_keyed, picker_queried,
    picker_ran, picker_shown, picker_up, PickKey,
};
use crate::prompts::{search_keyed, search_named, search_settled};
use crate::repeat::{
    replay_begun, replaying, stepped, FrameView, InputView, Recorder, RecorderView,
    MAX_REPLAY_DEPTH,
};
use crate::replays::{input_over, input_played, pasted_in, replay_over, replay_stepped};
use crate::shell::{
    count_grown, shell_keyed, shell_looked_up, shell_normal_keyed, shell_prefixed, shell_ran,
};
use crate::state::{CharWait, CompletionView, PickerKindView, PickerView, TreeInputView};
use crate::suggest::{command_keyed, line_entered, line_shortened, line_tabbed, suggestion_moved};
use crate::tools::{install_begun, shell_install_begun};
use crate::tree_keys::{
    row_opened, tree_clipped, tree_input_keyed, tree_keyed, tree_pasted, tree_prompted, tree_ran,
    TreeKey,
};
use crate::typing::{
    completion_keyed, docs_asked, members_asked, menu_accepted, menu_keyed, menu_recorded,
    name_offered, signature_kept, typed_in,
};
use crate::waits::{
    char_waited, macro_begun, macro_started, object_picked, pair_edited, recording_begun,
};
use crate::windows::{
    focus_next_in, focus_on, focus_towards, preview_closed, shell_hidden, shell_window, split_in,
    window_detached,
};

verus! {

/// Whether frames have stayed, or one has been begun on top of them.
pub open spec fn nests(a: Seq<FrameView>, b: Seq<FrameView>) -> bool {
    b == a || (a.len() < MAX_REPLAY_DEPTH && b.len() == a.len() + 1 && b.drop_last() == a)
}

// ---- what each key does to the frames ---------------------------------------------

broadcast proof fn nests_begun(
    r: RecorderView,
    inputs: Seq<InputView>,
    passes: usize,
    command: Command,
)
    ensures
        (#[trigger] replay_begun(r, inputs, passes, command)).frames.drop_last() == r.frames,
{
    assert(replay_begun(r, inputs, passes, command).frames.drop_last() =~= r.frames);
}

broadcast proof fn keeps_block_after(e: EditorView)
    ensures
        #[trigger] block_after(e).recorder.frames == e.recorder.frames,
{
    reveal(block_after);
}

broadcast proof fn keeps_command_over(e: EditorView, c: Command, stretching: bool)
    ensures
        #[trigger] command_over(e, c, stretching).recorder.frames == e.recorder.frames,
{
    broadcast use keeps_block_after;

    reveal(command_over);
}

broadcast proof fn keeps_input_over(e: EditorView)
    ensures
        #[trigger] input_over(e).recorder.frames == e.recorder.frames,
{
    reveal(input_over);
}

broadcast proof fn keeps_replay_over(e: EditorView, c: Command)
    ensures
        #[trigger] replay_over(e, c).recorder.frames == e.recorder.frames,
{
    broadcast use {keeps_command_over, keeps_input_over};

    reveal(replay_over);
}

broadcast proof fn keeps_pasted_in(e: EditorView, raw: Seq<char>)
    ensures
        #[trigger] pasted_in(e, raw).recorder.frames == e.recorder.frames,
{
    reveal(pasted_in);
}

broadcast proof fn keeps_focus_on(e: EditorView, id: usize)
    ensures
        #[trigger] focus_on(e, id).recorder.frames == e.recorder.frames,
{
    reveal(focus_on);
}

broadcast proof fn keeps_focus_towards(e: EditorView, dir: Dir)
    ensures
        #[trigger] focus_towards(e, dir).recorder.frames == e.recorder.frames,
{
    broadcast use keeps_focus_on;

    reveal(focus_towards);
}

broadcast proof fn keeps_help_keyed(e: EditorView, key: Key, at: usize)
    ensures
        #[trigger] help_keyed(e, key, at).recorder.frames == e.recorder.frames,
{
    broadcast use keeps_focus_towards;

    reveal(help_keyed);
}

broadcast proof fn keeps_signature_kept(e: EditorView, c: char)
    ensures
        #[trigger] signature_kept(e, c).recorder.frames == e.recorder.frames,
{
    reveal(signature_kept);
}

broadcast proof fn keeps_words_offered(e: EditorView)
    ensures
        #[trigger] words_offered(e).recorder.frames == e.recorder.frames,
{
    reveal(words_offered);
}

broadcast proof fn keeps_autocompleted(e: EditorView)
    ensures
        #[trigger] autocompleted(e).recorder.frames == e.recorder.frames,
{
    broadcast use keeps_words_offered;

    reveal(autocompleted);
}

broadcast proof fn keeps_name_offered(e: EditorView)
    ensures
        #[trigger] name_offered(e).recorder.frames == e.recorder.frames,
{
    broadcast use keeps_autocompleted;

    reveal(name_offered);
}

broadcast proof fn keeps_members_asked(e: EditorView, c: char, prev: Option<char>)
    ensures
        #[trigger] members_asked(e, c, prev).recorder.frames == e.recorder.frames,
{
    reveal(members_asked);
}

broadcast proof fn keeps_typed_in(e: EditorView, c: char)
    ensures
        #[trigger] typed_in(e, c).recorder.frames == e.recorder.frames,
{
    broadcast use {keeps_members_asked, keeps_name_offered, keeps_signature_kept};

    reveal(typed_in);
}

broadcast proof fn keeps_unbound(e: EditorView, key: Key)
    ensures
        #[trigger] unbound(e, key).recorder.frames == e.recorder.frames,
{
    broadcast use keeps_typed_in;

    reveal(unbound);
}

broadcast proof fn keeps_block_before(e: EditorView, c: Command)
    ensures
        #[trigger] block_before(e, c).recorder.frames == e.recorder.frames,
{
    reveal(block_before);
}

broadcast proof fn keeps_ran_sets(e: EditorView, c: Command)
    ensures
        #[trigger] ran_sets(e, c).recorder.frames == e.recorder.frames,
{
    reveal(ran_sets);
}

broadcast proof fn keeps_captured_in(e: EditorView, s: Seq<char>)
    ensures
        #[trigger] captured_in(e, s).recorder.frames == e.recorder.frames,
{
    reveal(captured_in);
}

broadcast proof fn keeps_comment_run(e: EditorView)
    ensures
        #[trigger] comment_run(e).recorder.frames == e.recorder.frames,
{
    reveal(comment_run);
}

broadcast proof fn nests_ran_changes(e: EditorView, c: Command)
    ensures
        nests(e.recorder.frames, #[trigger] ran_changes(e, c).recorder.frames),
{
    broadcast use {nests_begun, keeps_captured_in, keeps_comment_run};

    reveal(ran_changes);
}

#[verifier::rlimit(80)]
broadcast proof fn keeps_ran_prompts(e: EditorView, c: Command)
    ensures
        #[trigger] ran_prompts(e, c).recorder.frames == e.recorder.frames,
{
    reveal(ran_prompts);
}

broadcast proof fn keeps_preview_closed(e: EditorView)
    ensures
        #[trigger] preview_closed(e).recorder.frames == e.recorder.frames,
{
    reveal(preview_closed);
}

broadcast proof fn keeps_focus_next_in(e: EditorView)
    ensures
        #[trigger] focus_next_in(e).recorder.frames == e.recorder.frames,
{
    broadcast use keeps_focus_on;

    reveal(focus_next_in);
}

broadcast proof fn keeps_window_detached(e: EditorView, win: usize)
    ensures
        #[trigger] window_detached(e, win).recorder.frames == e.recorder.frames,
{
    broadcast use {keeps_focus_next_in, keeps_focus_towards};

    reveal(window_detached);
}

broadcast proof fn keeps_shell_hidden(e: EditorView)
    ensures
        #[trigger] shell_hidden(e).recorder.frames == e.recorder.frames,
{
    broadcast use keeps_window_detached;

    reveal(shell_hidden);
}

broadcast proof fn keeps_split_in(e: EditorView, vertical: bool)
    ensures
        #[trigger] split_in(e, vertical).recorder.frames == e.recorder.frames,
{
    reveal(split_in);
}

broadcast proof fn keeps_shell_window(e: EditorView)
    ensures
        #[trigger] shell_window(e).recorder.frames == e.recorder.frames,
{
    broadcast use keeps_split_in;

    reveal(shell_window);
}

broadcast proof fn keeps_ran_places(e: EditorView, c: Command)
    ensures
        #[trigger] ran_places(e, c).recorder.frames == e.recorder.frames,
{
    broadcast use {
        keeps_focus_next_in, keeps_focus_on, keeps_focus_towards, keeps_preview_closed,
        keeps_shell_hidden, keeps_shell_window, keeps_split_in,
    };

    reveal(ran_places);
}

broadcast proof fn keeps_motion_here(e: EditorView, c: Command)
    ensures
        #[trigger] motion_here(e, c).recorder.frames == e.recorder.frames,
{
    reveal(motion_here);
}

broadcast proof fn nests_ran(e: EditorView, c: Command)
    ensures
        nests(e.recorder.frames, #[trigger] ran(e, c).recorder.frames),
{
    broadcast use {
        keeps_motion_here, nests_ran_changes, keeps_ran_places, keeps_ran_prompts, keeps_ran_sets,
    };

    reveal(ran);
}

proof fn lemma_ran_keeps(e: EditorView, c: Command)
    requires
        runs_at_each(c),
    ensures
        ran(e, c).recorder.frames == e.recorder.frames,
{
    broadcast use {
        keeps_captured_in, keeps_comment_run, keeps_motion_here, keeps_ran_places,
        keeps_ran_prompts, keeps_ran_sets,
    };

    reveal(ran);
    reveal(ran_changes);
}

proof fn lemma_each_keeps(e: EditorView, c: Command, count: Option<usize>, i: int, n: int)
    requires
        runs_at_each(c),
    ensures
        ran_from(e, c, count, i, n).recorder.frames == e.recorder.frames,
    decreases n - i,
{
    if i < n {
        reveal(ran_at);
        lemma_ran_keeps(counted(on_doc(e, traded(doc_of(e), i)), count), c);
        lemma_each_keeps(ran_at(e, c, count, i), c, count, i + 1, n);
    }
}

broadcast proof fn nests_ran_where(e: EditorView, c: Command)
    ensures
        nests(e.recorder.frames, #[trigger] ran_where(e, c).recorder.frames),
{
    broadcast use nests_ran;

    reveal(ran_where);
    reveal(ran_at_each);
    if runs_at_each(c) {
        let n = doc_of(e).extra.len() as int;
        lemma_each_keeps(e, c, e.keys.count, 0, n);
        lemma_ran_keeps(counted(ran_from(e, c, e.keys.count, 0, n), e.keys.count), c);
    }
}

broadcast proof fn nests_dispatched(e: EditorView, c: Command)
    ensures
        nests(e.recorder.frames, #[trigger] dispatched(e, c).recorder.frames),
{
    broadcast use {keeps_block_before, keeps_command_over, nests_ran_where};

    reveal(dispatched);
}

broadcast proof fn nests_looked_up_keys(e: EditorView, key: Key)
    ensures
        nests(e.recorder.frames, #[trigger] looked_up_keys(e, key).recorder.frames),
{
    broadcast use {nests_dispatched, keeps_unbound};

    reveal(looked_up_keys);
}

broadcast proof fn keeps_count_grown(e: EditorView, digit: nat)
    ensures
        #[trigger] count_grown(e, digit).recorder.frames == e.recorder.frames,
{
    reveal(count_grown);
}

broadcast proof fn nests_prefix_keyed(e: EditorView, key: Key)
    ensures
        nests(e.recorder.frames, #[trigger] prefix_keyed(e, key).recorder.frames),
{
    broadcast use {keeps_count_grown, nests_looked_up_keys};

    reveal(prefix_keyed);
}

broadcast proof fn keeps_object_picked(e: EditorView, c: char, inside: bool)
    ensures
        #[trigger] object_picked(e, c, inside).recorder.frames == e.recorder.frames,
{
    reveal(object_picked);
}

broadcast proof fn keeps_pair_edited(e: EditorView, c: char, new: Option<char>)
    ensures
        #[trigger] pair_edited(e, c, new).recorder.frames == e.recorder.frames,
{
    reveal(pair_edited);
}

broadcast proof fn nests_macro_started(e: EditorView, r: char, count: usize)
    ensures
        nests(e.recorder.frames, #[trigger] macro_started(e, r, count).recorder.frames),
{
    broadcast use nests_begun;

    reveal(macro_started);
}

broadcast proof fn nests_macro_begun(e: EditorView, name: char, count: usize)
    ensures
        nests(e.recorder.frames, #[trigger] macro_begun(e, name, count).recorder.frames),
{
    broadcast use nests_macro_started;

    reveal(macro_begun);
}

broadcast proof fn keeps_recording_begun(e: EditorView, reg: char)
    ensures
        #[trigger] recording_begun(e, reg).recorder.frames == e.recorder.frames,
{
    reveal(recording_begun);
}

broadcast proof fn nests_char_waited(e: EditorView, wait: CharWait, c: char)
    ensures
        nests(e.recorder.frames, #[trigger] char_waited(e, wait, c).recorder.frames),
{
    broadcast use {
        nests_macro_begun, keeps_object_picked, keeps_pair_edited, keeps_recording_begun,
    };

    reveal(char_waited);
}

broadcast proof fn nests_waited_keyed(e: EditorView, key: Key)
    ensures
        nests(e.recorder.frames, #[trigger] waited_keyed(e, key).recorder.frames),
{
    broadcast use {nests_char_waited, nests_prefix_keyed};

    reveal(waited_keyed);
}

broadcast proof fn keeps_menu_accepted(e: EditorView, c: CompletionView)
    ensures
        #[trigger] menu_accepted(e, c).recorder.frames == e.recorder.frames,
{
    broadcast use keeps_autocompleted;

    reveal(menu_accepted);
}

broadcast proof fn keeps_menu_keyed(e: EditorView, c: CompletionView, key: Key)
    ensures
        #[trigger] menu_keyed(e, c, key).0.recorder.frames == e.recorder.frames,
{
    broadcast use {keeps_autocompleted, keeps_menu_accepted};

    reveal(menu_keyed);
}

broadcast proof fn keeps_docs_asked(e: EditorView)
    ensures
        #[trigger] docs_asked(e).recorder.frames == e.recorder.frames,
{
    reveal(docs_asked);
}

broadcast proof fn keeps_menu_recorded(e: EditorView, key: Key)
    ensures
        #[trigger] menu_recorded(e, key).recorder.frames == e.recorder.frames,
{
    reveal(menu_recorded);
}

broadcast proof fn keeps_completion_keyed(e: EditorView, key: Key)
    ensures
        #[trigger] completion_keyed(e, key).0.recorder.frames == e.recorder.frames,
{
    broadcast use {keeps_docs_asked, keeps_menu_keyed, keeps_menu_recorded};

    reveal(completion_keyed);
}

broadcast proof fn nests_menu_first(e: EditorView, key: Key)
    ensures
        nests(e.recorder.frames, #[trigger] menu_first(e, key).recorder.frames),
{
    broadcast use {keeps_completion_keyed, nests_waited_keyed};

    reveal(menu_first);
}

broadcast proof fn keeps_picker_cancelled(e: EditorView, kind: PickerKindView)
    ensures
        #[trigger] picker_cancelled(e, kind).recorder.frames == e.recorder.frames,
{
    reveal(picker_cancelled);
}

broadcast proof fn keeps_picker_shown(e: EditorView, p: PickerView)
    ensures
        #[trigger] picker_shown(e, p).recorder.frames == e.recorder.frames,
{
    reveal(picker_shown);
}

broadcast proof fn keeps_picker_queried(e: EditorView, p: PickerView, query: Seq<char>)
    ensures
        #[trigger] picker_queried(e, p, query).recorder.frames == e.recorder.frames,
{
    broadcast use keeps_picker_shown;

    reveal(picker_queried);
}

broadcast proof fn keeps_picker_up(e: EditorView, p: PickerView)
    ensures
        #[trigger] picker_up(e, p).recorder.frames == e.recorder.frames,
{
    reveal(picker_up);
}

broadcast proof fn keeps_entry_picked(e: EditorView, dir: Seq<char>, label: Seq<char>)
    ensures
        #[trigger] entry_picked(e, dir, label).recorder.frames == e.recorder.frames,
{
    reveal(entry_picked);
}

broadcast proof fn nests_picked(e: EditorView, kind: PickerKindView, label: Seq<char>, index: int)
    ensures
        nests(e.recorder.frames, #[trigger] picked(e, kind, label, index).recorder.frames),
{
    broadcast use {keeps_entry_picked, nests_ran};

    reveal(picked);
}

broadcast proof fn nests_picker_accepted(e: EditorView, p: PickerView)
    ensures
        nests(e.recorder.frames, #[trigger] picker_accepted(e, p).recorder.frames),
{
    broadcast use nests_picked;

    reveal(picker_accepted);
}

broadcast proof fn nests_picker_ran(e: EditorView, p: PickerView, k: PickKey)
    ensures
        nests(e.recorder.frames, #[trigger] picker_ran(e, p, k).recorder.frames),
{
    broadcast use {
        keeps_focus_towards, nests_picker_accepted, keeps_picker_cancelled, keeps_picker_queried,
        keeps_picker_shown, keeps_picker_up,
    };

    reveal(picker_ran);
}

broadcast proof fn nests_picker_keyed(e: EditorView, key: Key)
    ensures
        nests(e.recorder.frames, #[trigger] picker_keyed(e, key).recorder.frames),
{
    broadcast use nests_picker_ran;

    reveal(picker_keyed);
}

broadcast proof fn keeps_search_named(e: EditorView, query: Seq<char>)
    ensures
        #[trigger] search_named(e, query).recorder.frames == e.recorder.frames,
{
    reveal(search_named);
}

broadcast proof fn keeps_search_settled(e: EditorView)
    ensures
        #[trigger] search_settled(e).recorder.frames == e.recorder.frames,
{
    reveal(search_settled);
}

#[verifier::rlimit(80)]
broadcast proof fn keeps_search_keyed(e: EditorView, key: Key)
    ensures
        #[trigger] search_keyed(e, key).recorder.frames == e.recorder.frames,
{
    broadcast use {keeps_search_named, keeps_search_settled};

    reveal(search_keyed);
}

broadcast proof fn nests_shell_ran(e: EditorView, c: Command)
    ensures
        nests(e.recorder.frames, #[trigger] shell_ran(e, c).recorder.frames),
{
    broadcast use nests_ran;

    reveal(shell_ran);
}

broadcast proof fn nests_shell_looked_up(p: EditorView)
    ensures
        nests(p.recorder.frames, #[trigger] shell_looked_up(p).recorder.frames),
{
    broadcast use nests_shell_ran;

    reveal(shell_looked_up);
}

broadcast proof fn nests_shell_normal_keyed(e: EditorView, key: Key)
    ensures
        nests(e.recorder.frames, #[trigger] shell_normal_keyed(e, key).recorder.frames),
{
    broadcast use {keeps_count_grown, nests_shell_looked_up};

    reveal(shell_normal_keyed);
}

broadcast proof fn keeps_ex_asked(e: EditorView, x: ExView)
    ensures
        #[trigger] ex_asked(e, x).recorder.frames == e.recorder.frames,
{
    reveal(ex_asked);
}

broadcast proof fn keeps_install_run(e: EditorView, name: Option<Seq<char>>, lsp_only: bool)
    ensures
        #[trigger] install_run(e, name, lsp_only).recorder.frames == e.recorder.frames,
{
    reveal(install_run);
}

broadcast proof fn keeps_theme_run(e: EditorView, name: Option<Seq<char>>)
    ensures
        #[trigger] theme_run(e, name).recorder.frames == e.recorder.frames,
{
    reveal(theme_run);
}

broadcast proof fn nests_ex_run(e: EditorView, x: ExView)
    ensures
        nests(e.recorder.frames, #[trigger] ex_run(e, x).recorder.frames),
{
    broadcast use {keeps_ex_asked, keeps_install_run, nests_ran, keeps_theme_run};

    reveal(ex_run);
}

broadcast proof fn nests_ex_line_run(e: EditorView, line: Seq<char>)
    ensures
        nests(e.recorder.frames, #[trigger] ex_line_run(e, line).recorder.frames),
{
    broadcast use nests_ex_run;

    reveal(ex_line_run);
}

broadcast proof fn nests_line_entered(e: EditorView)
    ensures
        nests(e.recorder.frames, #[trigger] line_entered(e).recorder.frames),
{
    broadcast use nests_ex_line_run;

    reveal(line_entered);
}

broadcast proof fn keeps_line_tabbed(e: EditorView)
    ensures
        #[trigger] line_tabbed(e).recorder.frames == e.recorder.frames,
{
    reveal(line_tabbed);
}

broadcast proof fn keeps_suggestion_moved(e: EditorView, down: bool)
    ensures
        #[trigger] suggestion_moved(e, down).recorder.frames == e.recorder.frames,
{
    reveal(suggestion_moved);
}

broadcast proof fn keeps_line_shortened(e: EditorView)
    ensures
        #[trigger] line_shortened(e).recorder.frames == e.recorder.frames,
{
    reveal(line_shortened);
}

broadcast proof fn nests_command_keyed(e: EditorView, key: Key)
    ensures
        nests(e.recorder.frames, #[trigger] command_keyed(e, key).recorder.frames),
{
    broadcast use {
        nests_line_entered, keeps_line_shortened, keeps_line_tabbed, keeps_suggestion_moved,
    };

    reveal(command_keyed);
}

broadcast proof fn keeps_tree_prompted(e: EditorView, t: TreeView, k: TreeKey)
    ensures
        #[trigger] tree_prompted(e, t, k).recorder.frames == e.recorder.frames,
{
    reveal(tree_prompted);
}

broadcast proof fn keeps_tree_clipped(e: EditorView, t: TreeView, cut: bool)
    ensures
        #[trigger] tree_clipped(e, t, cut).recorder.frames == e.recorder.frames,
{
    reveal(tree_clipped);
}

broadcast proof fn keeps_tree_pasted(e: EditorView, t: TreeView)
    ensures
        #[trigger] tree_pasted(e, t).recorder.frames == e.recorder.frames,
{
    reveal(tree_pasted);
}

broadcast proof fn keeps_row_opened(e: EditorView, t: TreeView)
    ensures
        #[trigger] row_opened(e, t).recorder.frames == e.recorder.frames,
{
    reveal(row_opened);
}

broadcast proof fn keeps_tree_ran(e: EditorView, t: TreeView, k: TreeKey)
    ensures
        #[trigger] tree_ran(e, t, k).recorder.frames == e.recorder.frames,
{
    broadcast use {keeps_row_opened, keeps_tree_clipped, keeps_tree_pasted, keeps_tree_prompted};

    reveal(tree_ran);
}

broadcast proof fn keeps_tree_input_keyed(e: EditorView, input: TreeInputView, key: Key)
    ensures
        #[trigger] tree_input_keyed(e, input, key).recorder.frames == e.recorder.frames,
{
    reveal(tree_input_keyed);
}

broadcast proof fn keeps_tree_keyed(e: EditorView, key: Key)
    ensures
        #[trigger] tree_keyed(e, key).recorder.frames == e.recorder.frames,
{
    broadcast use {keeps_tree_input_keyed, keeps_tree_ran};

    reveal(tree_keyed);
}

broadcast proof fn nests_pane_keyed(e: EditorView, key: Key)
    ensures
        nests(e.recorder.frames, #[trigger] pane_keyed(e, key).recorder.frames),
{
    broadcast use {
        nests_command_keyed, keeps_help_keyed, nests_menu_first, nests_picker_keyed,
        keeps_search_keyed, nests_shell_normal_keyed, keeps_tree_keyed,
    };

    reveal(pane_keyed);
}

broadcast proof fn nests_doubled(e: EditorView, c: Command, count: usize)
    ensures
        nests(e.recorder.frames, #[trigger] doubled(e, c, count).recorder.frames),
{
    broadcast use nests_ran;

    reveal(doubled);
}

broadcast proof fn nests_doubling_keyed(e: EditorView, key: Key)
    ensures
        nests(e.recorder.frames, #[trigger] doubling_keyed(e, key).recorder.frames),
{
    broadcast use {nests_doubled, nests_pane_keyed};

    reveal(doubling_keyed);
}

broadcast proof fn nests_shell_prefixed(e: EditorView, prefix: Key, key: Key)
    ensures
        nests(e.recorder.frames, #[trigger] shell_prefixed(e, prefix, key).recorder.frames),
{
    broadcast use {keeps_focus_next_in, nests_shell_ran};

    reveal(shell_prefixed);
}

broadcast proof fn nests_shell_keyed(e: EditorView, key: Key)
    ensures
        nests(e.recorder.frames, #[trigger] shell_keyed(e, key).recorder.frames),
{
    broadcast use nests_shell_prefixed;

    reveal(shell_keyed);
}

broadcast proof fn nests_shell_first(e: EditorView, key: Key)
    ensures
        nests(e.recorder.frames, #[trigger] shell_first(e, key).recorder.frames),
{
    broadcast use {nests_doubling_keyed, nests_shell_keyed};

    reveal(shell_first);
}

broadcast proof fn nests_hover_first(e: EditorView, key: Key)
    ensures
        nests(e.recorder.frames, #[trigger] hover_first(e, key).recorder.frames),
{
    broadcast use nests_shell_first;

    reveal(hover_first);
}

broadcast proof fn keeps_shell_install_begun(e: EditorView, program: Seq<char>, cmd: Seq<char>)
    ensures
        #[trigger] shell_install_begun(e, program, cmd).recorder.frames == e.recorder.frames,
{
    broadcast use {keeps_focus_on, keeps_shell_hidden, keeps_shell_window, keeps_split_in};

    reveal(shell_install_begun);
}

broadcast proof fn keeps_install_begun(e: EditorView, program: Seq<char>, cmd: Seq<char>)
    ensures
        #[trigger] install_begun(e, program, cmd).recorder.frames == e.recorder.frames,
{
    broadcast use keeps_shell_install_begun;

    reveal(install_begun);
}

broadcast proof fn nests_keyed(e: EditorView, key: Key)
    ensures
        nests(e.recorder.frames, #[trigger] keyed(e, key).recorder.frames),
{
    broadcast use {nests_hover_first, keeps_install_begun};

    reveal(keyed);
}

// ---- what is left to play back ----------------------------------------------------

/// How many steps a frame still has: one for each input, and the one that
/// ends it.
pub open spec fn steps_left(f: FrameView) -> nat {
    let n = f.inputs.len();
    let here = if f.next < n {
        (n - f.next) as nat
    } else {
        0
    };
    let passes = if f.passes > 1 {
        (f.passes - 1) as nat
    } else {
        0
    };
    here + passes * n + 1
}

/// The steps left at a level of a playback; none where it is not so deep.
pub open spec fn level(r: RecorderView, k: int) -> nat {
    if 0 <= k < r.frames.len() {
        steps_left(r.frames[k])
    } else {
        0
    }
}

/// Whether there is less left to come: less at some level, and the same at
/// every level below it.
pub open spec fn less_left(a: RecorderView, b: RecorderView, k: int) -> bool {
    &&& 0 <= k < MAX_REPLAY_DEPTH
    &&& level(b, k) < level(a, k)
    &&& forall|j: int| 0 <= j < k ==> #[trigger] level(b, j) == level(a, j)
}

/// Whether each frame holds no more inputs than a machine can count.
pub open spec fn countable(r: RecorderView) -> bool {
    forall|k: int| 0 <= k < r.frames.len() ==> (#[trigger] r.frames[k]).inputs.len() <= usize::MAX
}

/// So does every recorder there is.
pub proof fn law_a_recorder_is_countable(r: Recorder)
    ensures
        countable(r@),
{
    assert forall|k: int| 0 <= k < r@.frames.len() implies (#[trigger] r@.frames[k]).inputs.len()
        <= usize::MAX by {
        assert(r.frames@[k].inputs.len() <= usize::MAX);
    }
}

proof fn lemma_frame_steps(r: RecorderView)
    requires
        replaying(r),
        countable(r),
    ensures
        ({
            let s = stepped(r);
            let k = r.frames.len() - 1;
            &&& s.0.frames.len() == r.frames.len() || s.0.frames == r.frames.drop_last()
            &&& s.1 is Input ==> s.0.frames.len() == r.frames.len()
            &&& s.1 !is Nothing
            &&& forall|j: int| 0 <= j < k ==> #[trigger] s.0.frames[j] == r.frames[j]
            &&& s.0.frames.len() == r.frames.len() ==> steps_left(s.0.frames[k]) < steps_left(
                r.frames[k],
            )
        }),
{
    let f = r.frames.last();
    let n = f.inputs.len();
    if f.next >= n && f.passes > 1 && n > 0 {
        let p = (f.passes - 1) as nat;
        assert(p * n == (p - 1) * n + n) by (nonlinear_arith);
    }
}

/// Every step of a playback leaves less to come. An input may begin another
/// playback on top, such as that of the macro that it is itself an input of,
/// but not beyond a depth, and its own level has become less before.
pub proof fn law_every_step_leaves_less(e: EditorView)
    requires
        replaying(e.recorder),
        e.recorder.frames.len() <= MAX_REPLAY_DEPTH,
        countable(e.recorder),
    ensures
        less_left(e.recorder, replay_stepped(e).recorder, e.recorder.frames.len() - 1),
        replay_stepped(e).recorder.frames.len() <= MAX_REPLAY_DEPTH,
{
    broadcast use {nests_keyed, keeps_pasted_in, keeps_replay_over};

    reveal(replay_stepped);
    reveal(input_played);
    lemma_frame_steps(e.recorder);
    let a = e.recorder.frames;
    let s = stepped(e.recorder);
    let m = s.0.frames;
    let k = a.len() - 1;
    let b = replay_stepped(e).recorder.frames;
    if s.1 is Input {
        let p = match s.1->Input_0 {
            InputView::Key(key) => crate::input::keyed(EditorView { recorder: s.0, ..e }, key),
            _ => EditorView { recorder: s.0, ..e },
        };
        assert(nests(m, p.recorder.frames));
    }
    assert forall|j: int| 0 <= j < k implies #[trigger] level(replay_stepped(e).recorder, j)
        == level(e.recorder, j) by {
        assert(m[j] == a[j]);
    }
}

/// The levels of a playback fall as the measure of a recursion falls: what is
/// played back ends.
pub proof fn law_a_playback_ends(e: EditorView)
    requires
        replaying(e.recorder),
        e.recorder.frames.len() <= MAX_REPLAY_DEPTH,
        countable(e.recorder),
    ensures
        ({
            let a = e.recorder;
            let b = replay_stepped(e).recorder;
            decreases_to!(
                level(a, 0), level(a, 1), level(a, 2), level(a, 3), level(a, 4), level(a, 5),
                level(a, 6), level(a, 7), level(a, 8), level(a, 9), level(a, 10), level(a, 11),
                level(a, 12), level(a, 13), level(a, 14), level(a, 15), level(a, 16), level(a, 17),
                level(a, 18), level(a, 19)
                =>
                level(b, 0), level(b, 1), level(b, 2), level(b, 3), level(b, 4), level(b, 5),
                level(b, 6), level(b, 7), level(b, 8), level(b, 9), level(b, 10), level(b, 11),
                level(b, 12), level(b, 13), level(b, 14), level(b, 15), level(b, 16), level(b, 17),
                level(b, 18), level(b, 19)
            )
        }),
{
    law_every_step_leaves_less(e);
    let a = e.recorder;
    let b = replay_stepped(e).recorder;
    let k = a.frames.len() - 1;
    assert(less_left(a, b, k));
    assert(0 < k ==> level(b, 0) == level(a, 0));
    assert(1 < k ==> level(b, 1) == level(a, 1));
    assert(2 < k ==> level(b, 2) == level(a, 2));
    assert(3 < k ==> level(b, 3) == level(a, 3));
    assert(4 < k ==> level(b, 4) == level(a, 4));
    assert(5 < k ==> level(b, 5) == level(a, 5));
    assert(6 < k ==> level(b, 6) == level(a, 6));
    assert(7 < k ==> level(b, 7) == level(a, 7));
    assert(8 < k ==> level(b, 8) == level(a, 8));
    assert(9 < k ==> level(b, 9) == level(a, 9));
    assert(10 < k ==> level(b, 10) == level(a, 10));
    assert(11 < k ==> level(b, 11) == level(a, 11));
    assert(12 < k ==> level(b, 12) == level(a, 12));
    assert(13 < k ==> level(b, 13) == level(a, 13));
    assert(14 < k ==> level(b, 14) == level(a, 14));
    assert(15 < k ==> level(b, 15) == level(a, 15));
    assert(16 < k ==> level(b, 16) == level(a, 16));
    assert(17 < k ==> level(b, 17) == level(a, 17));
    assert(18 < k ==> level(b, 18) == level(a, 18));
    assert(19 < k ==> level(b, 19) == level(a, 19));
}

} // verus!
