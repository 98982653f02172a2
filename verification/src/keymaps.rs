//! The key bindings: the defaults, and the configured ones on top.

use vstd::prelude::*;
use crate::commands::{find, found};
use crate::config::{Config, ConfigView};
use crate::keymap::{bound_str, empty_trie, KeyTrie, Trie};
use crate::state::{Keymaps, KeymapsView};
use crate::strings::{text_pairs, texts};

verus! {

pub open spec fn binding_views(v: Seq<(&'static str, &'static str)>) -> Seq<(Seq<char>, Seq<char>)> {
    Seq::new(v.len(), |i: int| (v[i].0@, v[i].1@))
}

/// The first `n` of a list of bindings, bound in turn.
pub open spec fn bound_upto(t: Trie, list: Seq<(Seq<char>, Seq<char>)>, n: nat) -> Trie
    decreases n,
{
    if n == 0 || n > list.len() {
        t
    } else {
        let head = bound_upto(t, list, (n - 1) as nat);
        bound_str(head, list[n - 1].0, list[n - 1].1)
    }
}

pub open spec fn bound_list(t: Trie, list: Seq<(Seq<char>, Seq<char>)>) -> Trie {
    bound_upto(t, list, list.len())
}

/// Motions.
pub open spec fn motion_bindings() -> Seq<(Seq<char>, Seq<char>)> {
    seq![
        ("h"@, "move_left"@),
        ("<left>"@, "move_left"@),
        ("l"@, "move_right"@),
        ("<right>"@, "move_right"@),
        ("k"@, "move_up"@),
        ("<up>"@, "move_up"@),
        ("j"@, "move_down"@),
        ("<down>"@, "move_down"@),
        ("0"@, "move_line_start"@),
        ("<home>"@, "move_line_start"@),
        ("^"@, "move_line_first_nonblank"@),
        ("$"@, "move_line_end"@),
        ("<end>"@, "move_line_end"@),
        ("w"@, "select_word_next"@),
        ("b"@, "select_word_prev"@),
        ("e"@, "select_word_end"@),
        ("gg"@, "goto_file_start"@),
        ("G"@, "goto_file_end"@),
        ("%"@, "goto_matching_bracket"@),
        ("C-d"@, "half_page_down"@),
        ("C-u"@, "half_page_up"@),
        ("C-f"@, "page_down"@),
        ("C-b"@, "page_up"@),
        ("<pagedown>"@, "page_down"@),
        ("<pageup>"@, "page_up"@),
    ]
}

/// Entering insert mode.
pub open spec fn entering_bindings() -> Seq<(Seq<char>, Seq<char>)> {
    seq![
        ("i"@, "insert_mode"@),
        ("I"@, "insert_at_line_start"@),
        ("a"@, "append"@),
        ("A"@, "append_at_line_end"@),
        ("o"@, "open_below"@),
        ("O"@, "open_above"@),
    ]
}

/// Selecting and editing. Cuts and copies act on the line where their key
/// is doubled.
pub open spec fn editing_bindings() -> Seq<(Seq<char>, Seq<char>)> {
    seq![
        ("V"@, "select_line"@),
        ("v"@, "extend_mode"@),
        ("C-v"@, "block_mode"@),
        ("A-o"@, "expand_selection"@),
        (";"@, "collapse_selection"@),
        ("C"@, "add_cursor_below"@),
        ("A-C"@, "add_cursor_above"@),
        (","@, "remove_extra_cursors"@),
        ("/"@, "search"@),
        ("s"@, "select_matches"@),
        ("n"@, "search_next"@),
        ("N"@, "search_prev"@),
        ("d"@, "delete_selection"@),
        ("x"@, "delete_selection"@),
        ("c"@, "copy"@),
        ("S"@, "change_selection"@),
        ("p"@, "paste_after"@),
        ("P"@, "paste_before"@),
        ("D"@, "delete_to_line_end"@),
        ("J"@, "join_lines"@),
        ("u"@, "undo"@),
        ("C-r"@, "redo"@),
        ("."@, "repeat_last_change"@),
        ("q"@, "macro_record"@),
        ("@"@, "macro_play"@),
    ]
}

/// Text objects and surrounding pairs.
pub open spec fn objects_bindings() -> Seq<(Seq<char>, Seq<char>)> {
    seq![
        ("mi"@, "select_inside"@),
        ("ma"@, "select_around"@),
        ("md"@, "surround_delete"@),
        ("mr"@, "surround_replace"@),
    ]
}

/// The set of selections.
pub open spec fn selection_bindings() -> Seq<(Seq<char>, Seq<char>)> {
    seq![
        ("A-s"@, "split_selection_lines"@),
        ("A-S"@, "split_selection"@),
        ("A-k"@, "keep_selections"@),
        ("A-K"@, "remove_selections"@),
        ("&"@, "align_selections"@),
        (")"@, "rotate_selections_forward"@),
        ("("@, "rotate_selections_backward"@),
        ("_"@, "trim_selections"@),
    ]
}

/// Jumps.
pub open spec fn jump_bindings() -> Seq<(Seq<char>, Seq<char>)> {
    seq![
        ("C-o"@, "jump_back"@),
        ("C-i"@, "jump_forward"@),
        ("<tab>"@, "jump_forward"@),
        ("]d"@, "next_diagnostic"@),
        ("[d"@, "prev_diagnostic"@),
        ("]g"@, "next_change"@),
        ("[g"@, "prev_change"@),
    ]
}

/// Windows, buffers, and what the language server knows.
pub open spec fn window_bindings() -> Seq<(Seq<char>, Seq<char>)> {
    seq![
        ("C-w v"@, "split_vertical"@),
        ("C-w s"@, "split_horizontal"@),
        ("C-w w"@, "next_window"@),
        ("C-w q"@, "quit"@),
        ("gn"@, "next_buffer"@),
        ("gp"@, "prev_buffer"@),
        ("gd"@, "goto_definition"@),
        ("gr"@, "goto_references"@),
        ("K"@, "hover"@),
        ("<space> a"@, "code_action"@),
        ("<space> R"@, "rename"@),
        ("<space> s s"@, "document_symbols"@),
        ("<space> S"@, "workspace_symbols"@),
        ("<space> x"@, "diagnostics"@),
        ("gl"@, "diagnostic_detail"@),
    ]
}

/// Pickers, the sidebar, focus, and the rest of the leader key.
pub open spec fn leader_bindings() -> Seq<(Seq<char>, Seq<char>)> {
    seq![
        ("<space> c"@, "command_palette"@),
        ("<space> f"@, "find_files"@),
        ("<space> g"@, "grep_text"@),
        ("<space> r"@, "recent_files"@),
        ("<space> e"@, "tree_toggle"@),
        ("C-t"@, "tree_toggle"@),
        ("C-h"@, "focus_left"@),
        ("C-<left>"@, "focus_left"@),
        ("C-<bs>"@, "focus_left"@),
        ("C-l"@, "focus_right"@),
        ("C-<right>"@, "focus_right"@),
        ("C-j"@, "focus_up"@),
        ("C-<down>"@, "focus_down"@),
        ("C-k"@, "focus_down"@),
        ("C-<up>"@, "focus_up"@),
        ("C-w h"@, "focus_left"@),
        ("C-w j"@, "focus_up"@),
        ("C-w k"@, "focus_down"@),
        ("C-w l"@, "focus_right"@),
        ("<space> d"@, "file_explorer"@),
        ("<space> t"@, "terminal"@),
        ("<space> T"@, "theme_picker"@),
        ("<space> m"@, "markdown_preview"@),
        ("gc"@, "toggle_comment"@),
        ("ms"@, "surround"@),
        ("<space> s v"@, "split_vertical"@),
        ("<space> s h"@, "split_horizontal"@),
        ("<space> w"@, "save"@),
        ("<space> q"@, "quit"@),
        ("C-s"@, "save"@),
        (":"@, "command_mode"@),
        ("<esc>"@, "normal_mode"@),
    ]
}

/// Insert mode.
pub open spec fn insert_bindings() -> Seq<(Seq<char>, Seq<char>)> {
    seq![
        ("<esc>"@, "normal_mode"@),
        ("<enter>"@, "insert_newline"@),
        ("<tab>"@, "insert_tab"@),
        ("<bs>"@, "delete_backward"@),
        ("<del>"@, "delete_forward"@),
        ("<left>"@, "move_left"@),
        ("<right>"@, "move_right"@),
        ("<up>"@, "move_up"@),
        ("<down>"@, "move_down"@),
        ("<home>"@, "move_line_start"@),
        ("<end>"@, "move_line_end"@),
        ("C-s"@, "save"@),
        ("C-<space>"@, "complete"@),
        ("C-n"@, "complete"@),
    ]
}

/// The default bindings.
pub open spec fn default_keymaps() -> KeymapsView {
    let t1 = bound_list(empty_trie(), motion_bindings());
    let t2 = bound_list(t1, entering_bindings());
    let t3 = bound_list(t2, editing_bindings());
    let t4 = bound_list(t3, objects_bindings());
    let t5 = bound_list(t4, selection_bindings());
    let t6 = bound_list(t5, jump_bindings());
    let t7 = bound_list(t6, window_bindings());
    KeymapsView {
        normal: bound_list(t7, leader_bindings()),
        insert: bound_list(empty_trie(), insert_bindings()),
    }
}

fn bind_all(trie: &mut KeyTrie, list: &[(&'static str, &'static str)])
    requires
        old(trie).wf(),
    ensures
        final(trie)@ == bound_list(old(trie)@, binding_views(list@)),
        final(trie).wf(),
{
    let ghost t = trie@;
    let ghost all = binding_views(list@);
    let mut i: usize = 0;
    while i < list.len()
        invariant
            i <= list@.len(),
            all == binding_views(list@),
            trie.wf(),
            trie@ == bound_upto(t, all, i as nat),
        decreases list@.len() - i,
    {
        assert(all[i as int] == (list@[i as int].0@, list@[i as int].1@));
        trie.bind_str(list[i].0, list[i].1);
        i += 1;
    }
}

fn bind_motion(trie: &mut KeyTrie)
    requires
        old(trie).wf(),
    ensures
        final(trie)@ == bound_list(old(trie)@, motion_bindings()),
        final(trie).wf(),
{
    let list: [(&'static str, &'static str); 25] = [
        ("h", "move_left"),
        ("<left>", "move_left"),
        ("l", "move_right"),
        ("<right>", "move_right"),
        ("k", "move_up"),
        ("<up>", "move_up"),
        ("j", "move_down"),
        ("<down>", "move_down"),
        ("0", "move_line_start"),
        ("<home>", "move_line_start"),
        ("^", "move_line_first_nonblank"),
        ("$", "move_line_end"),
        ("<end>", "move_line_end"),
        ("w", "select_word_next"),
        ("b", "select_word_prev"),
        ("e", "select_word_end"),
        ("gg", "goto_file_start"),
        ("G", "goto_file_end"),
        ("%", "goto_matching_bracket"),
        ("C-d", "half_page_down"),
        ("C-u", "half_page_up"),
        ("C-f", "page_down"),
        ("C-b", "page_up"),
        ("<pagedown>", "page_down"),
        ("<pageup>", "page_up"),
    ];
    assert(binding_views(list@) =~= motion_bindings());
    bind_all(trie, &list);
}

fn bind_entering(trie: &mut KeyTrie)
    requires
        old(trie).wf(),
    ensures
        final(trie)@ == bound_list(old(trie)@, entering_bindings()),
        final(trie).wf(),
{
    let list: [(&'static str, &'static str); 6] = [
        ("i", "insert_mode"),
        ("I", "insert_at_line_start"),
        ("a", "append"),
        ("A", "append_at_line_end"),
        ("o", "open_below"),
        ("O", "open_above"),
    ];
    assert(binding_views(list@) =~= entering_bindings());
    bind_all(trie, &list);
}

fn bind_editing(trie: &mut KeyTrie)
    requires
        old(trie).wf(),
    ensures
        final(trie)@ == bound_list(old(trie)@, editing_bindings()),
        final(trie).wf(),
{
    let list: [(&'static str, &'static str); 25] = [
        ("V", "select_line"),
        ("v", "extend_mode"),
        ("C-v", "block_mode"),
        ("A-o", "expand_selection"),
        (";", "collapse_selection"),
        ("C", "add_cursor_below"),
        ("A-C", "add_cursor_above"),
        (",", "remove_extra_cursors"),
        ("/", "search"),
        ("s", "select_matches"),
        ("n", "search_next"),
        ("N", "search_prev"),
        ("d", "delete_selection"),
        ("x", "delete_selection"),
        ("c", "copy"),
        ("S", "change_selection"),
        ("p", "paste_after"),
        ("P", "paste_before"),
        ("D", "delete_to_line_end"),
        ("J", "join_lines"),
        ("u", "undo"),
        ("C-r", "redo"),
        (".", "repeat_last_change"),
        ("q", "macro_record"),
        ("@", "macro_play"),
    ];
    assert(binding_views(list@) =~= editing_bindings());
    bind_all(trie, &list);
}

fn bind_objects(trie: &mut KeyTrie)
    requires
        old(trie).wf(),
    ensures
        final(trie)@ == bound_list(old(trie)@, objects_bindings()),
        final(trie).wf(),
{
    let list: [(&'static str, &'static str); 4] = [
        ("mi", "select_inside"),
        ("ma", "select_around"),
        ("md", "surround_delete"),
        ("mr", "surround_replace"),
    ];
    assert(binding_views(list@) =~= objects_bindings());
    bind_all(trie, &list);
}

fn bind_selection(trie: &mut KeyTrie)
    requires
        old(trie).wf(),
    ensures
        final(trie)@ == bound_list(old(trie)@, selection_bindings()),
        final(trie).wf(),
{
    let list: [(&'static str, &'static str); 8] = [
        ("A-s", "split_selection_lines"),
        ("A-S", "split_selection"),
        ("A-k", "keep_selections"),
        ("A-K", "remove_selections"),
        ("&", "align_selections"),
        (")", "rotate_selections_forward"),
        ("(", "rotate_selections_backward"),
        ("_", "trim_selections"),
    ];
    assert(binding_views(list@) =~= selection_bindings());
    bind_all(trie, &list);
}

fn bind_jump(trie: &mut KeyTrie)
    requires
        old(trie).wf(),
    ensures
        final(trie)@ == bound_list(old(trie)@, jump_bindings()),
        final(trie).wf(),
{
    let list: [(&'static str, &'static str); 7] = [
        ("C-o", "jump_back"),
        ("C-i", "jump_forward"),
        ("<tab>", "jump_forward"),
        ("]d", "next_diagnostic"),
        ("[d", "prev_diagnostic"),
        ("]g", "next_change"),
        ("[g", "prev_change"),
    ];
    assert(binding_views(list@) =~= jump_bindings());
    bind_all(trie, &list);
}

fn bind_window(trie: &mut KeyTrie)
    requires
        old(trie).wf(),
    ensures
        final(trie)@ == bound_list(old(trie)@, window_bindings()),
        final(trie).wf(),
{
    let list: [(&'static str, &'static str); 15] = [
        ("C-w v", "split_vertical"),
        ("C-w s", "split_horizontal"),
        ("C-w w", "next_window"),
        ("C-w q", "quit"),
        ("gn", "next_buffer"),
        ("gp", "prev_buffer"),
        ("gd", "goto_definition"),
        ("gr", "goto_references"),
        ("K", "hover"),
        ("<space> a", "code_action"),
        ("<space> R", "rename"),
        ("<space> s s", "document_symbols"),
        ("<space> S", "workspace_symbols"),
        ("<space> x", "diagnostics"),
        ("gl", "diagnostic_detail"),
    ];
    assert(binding_views(list@) =~= window_bindings());
    bind_all(trie, &list);
}

fn bind_leader(trie: &mut KeyTrie)
    requires
        old(trie).wf(),
    ensures
        final(trie)@ == bound_list(old(trie)@, leader_bindings()),
        final(trie).wf(),
{
    let list: [(&'static str, &'static str); 32] = [
        ("<space> c", "command_palette"),
        ("<space> f", "find_files"),
        ("<space> g", "grep_text"),
        ("<space> r", "recent_files"),
        ("<space> e", "tree_toggle"),
        ("C-t", "tree_toggle"),
        ("C-h", "focus_left"),
        ("C-<left>", "focus_left"),
        ("C-<bs>", "focus_left"),
        ("C-l", "focus_right"),
        ("C-<right>", "focus_right"),
        ("C-j", "focus_up"),
        ("C-<down>", "focus_down"),
        ("C-k", "focus_down"),
        ("C-<up>", "focus_up"),
        ("C-w h", "focus_left"),
        ("C-w j", "focus_up"),
        ("C-w k", "focus_down"),
        ("C-w l", "focus_right"),
        ("<space> d", "file_explorer"),
        ("<space> t", "terminal"),
        ("<space> T", "theme_picker"),
        ("<space> m", "markdown_preview"),
        ("gc", "toggle_comment"),
        ("ms", "surround"),
        ("<space> s v", "split_vertical"),
        ("<space> s h", "split_horizontal"),
        ("<space> w", "save"),
        ("<space> q", "quit"),
        ("C-s", "save"),
        (":", "command_mode"),
        ("<esc>", "normal_mode"),
    ];
    assert(binding_views(list@) =~= leader_bindings());
    bind_all(trie, &list);
}

fn bind_insert(trie: &mut KeyTrie)
    requires
        old(trie).wf(),
    ensures
        final(trie)@ == bound_list(old(trie)@, insert_bindings()),
        final(trie).wf(),
{
    let list: [(&'static str, &'static str); 14] = [
        ("<esc>", "normal_mode"),
        ("<enter>", "insert_newline"),
        ("<tab>", "insert_tab"),
        ("<bs>", "delete_backward"),
        ("<del>", "delete_forward"),
        ("<left>", "move_left"),
        ("<right>", "move_right"),
        ("<up>", "move_up"),
        ("<down>", "move_down"),
        ("<home>", "move_line_start"),
        ("<end>", "move_line_end"),
        ("C-s", "save"),
        ("C-<space>", "complete"),
        ("C-n", "complete"),
    ];
    assert(binding_views(list@) =~= insert_bindings());
    bind_all(trie, &list);
}

impl Default for Keymaps {
    fn default() -> (r: Self)
        ensures
            r@ == default_keymaps(),
            r.wf(),
    {
        let mut normal = KeyTrie::new();
        bind_motion(&mut normal);
        bind_entering(&mut normal);
        bind_editing(&mut normal);
        bind_objects(&mut normal);
        bind_selection(&mut normal);
        bind_jump(&mut normal);
        bind_window(&mut normal);
        bind_leader(&mut normal);
        let mut insert = KeyTrie::new();
        bind_insert(&mut insert);
        Keymaps { normal, insert }
    }
}

/// The names among the first `n` bindings that name no command.
pub open spec fn unknown_upto(list: Seq<(Seq<char>, Seq<char>)>, n: nat) -> Seq<Seq<char>>
    decreases n,
{
    if n == 0 || n > list.len() {
        Seq::empty()
    } else if found(list[n - 1].1) is None {
        unknown_upto(list, (n - 1) as nat).push(list[n - 1].1)
    } else {
        unknown_upto(list, (n - 1) as nat)
    }
}

/// The defaults with the configured bindings on top. They are always made anew,
/// so a binding taken out of the configuration is the default again.
pub open spec fn configured(c: ConfigView) -> KeymapsView {
    let d = default_keymaps();
    KeymapsView {
        normal: bound_list(d.normal, c.keys_normal),
        insert: bound_list(d.insert, c.keys_insert),
    }
}

/// The configured names that name no command.
pub open spec fn unknown_commands(c: ConfigView) -> Seq<Seq<char>> {
    unknown_upto(c.keys_normal, c.keys_normal.len()) + unknown_upto(
        c.keys_insert,
        c.keys_insert.len(),
    )
}

fn bind_configured(trie: &mut KeyTrie, list: &Vec<(String, String)>, bad: &mut Vec<String>)
    requires
        old(trie).wf(),
    ensures
        final(trie)@ == bound_list(old(trie)@, text_pairs(list@)),
        final(trie).wf(),
        texts(final(bad)@) == texts(old(bad)@) + unknown_upto(text_pairs(list@), list@.len()),
{
    let ghost t = trie@;
    let ghost had = texts(bad@);
    let ghost all = text_pairs(list@);
    let mut i: usize = 0;
    assert(texts(bad@) =~= had + unknown_upto(all, 0));
    while i < list.len()
        invariant
            i <= list@.len(),
            all == text_pairs(list@),
            trie.wf(),
            trie@ == bound_upto(t, all, i as nat),
            texts(bad@) == had + unknown_upto(all, i as nat),
        decreases list@.len() - i,
    {
        assert(all[i as int] == (list@[i as int].0@, list@[i as int].1@));
        if find(list[i].1.as_str()).is_some() {
            trie.bind_str(list[i].0.as_str(), list[i].1.as_str());
        } else {
            let ghost before = bad@;
            let name = list[i].1.clone();
            let ghost nv = name@;
            bad.push(name);
            assert(texts(bad@) =~= texts(before).push(nv));
            assert(texts(bad@) =~= had + unknown_upto(all, (i + 1) as nat));
        }
        i += 1;
    }
}

/// The key bindings of a configuration, and the names in it that name no
/// command.
pub fn keymaps_from(config: &Config) -> (r: (Keymaps, Vec<String>))
    ensures
        r.0@ == configured(config@),
        r.0.wf(),
        texts(r.1@) == unknown_commands(config@),
{
    let mut keymaps = Keymaps::default();
    let mut bad: Vec<String> = Vec::new();
    assert(texts(bad@) =~= Seq::empty());
    bind_configured(&mut keymaps.normal, &config.keys_normal, &mut bad);
    bind_configured(&mut keymaps.insert, &config.keys_insert, &mut bad);
    assert(texts(bad@) =~= unknown_commands(config@));
    (keymaps, bad)
}

/// A configured binding that comes last for its keys is what they run.
pub proof fn law_configured_binding_wins(
    c: ConfigView,
    keys: Seq<char>,
    name: Seq<char>,
    command: crate::commands::Command,
    seq: Seq<crate::keymap::Key>,
)
    requires
        c.keys_normal.len() > 0,
        c.keys_normal.last() == (keys, name),
        found(name) == Some(command),
        crate::keymap::sequence_keys(keys) == Some(seq),
    ensures
        crate::keymap::looked_up(configured(c).normal, seq)
            == crate::keymap::KeymapResult::Matched(command),
{
    let n = c.keys_normal.len();
    let before = bound_upto(default_keymaps().normal, c.keys_normal, (n - 1) as nat);
    crate::keymap::law_bound_is_found(before, seq, command);
}

} // verus!
