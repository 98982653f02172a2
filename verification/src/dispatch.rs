//! What each command does, and running one.

use vstd::prelude::*;
use crate::acts::{
    change_run, command_line_opened, copy_line_run, copy_run, delete_char_run, delete_line_run,
    delete_run, entering_run, is_entering, is_plain_edit, normal_run, paste_run, plain_edit_run,
    search_prompted, search_stepped, undo_run,
};
use crate::commands::Command;
use crate::comment::comment_run;
use crate::desk::{turned, Dir};
use crate::editor::{
    asking, count_of, count_taken, doc_of, on_doc, selection_kept, Editor, EditorView,
};
use crate::moves::{
    align_run, alone, block_toggled, extend_toggled, is_motion, is_selecting, lines_split, motion_run,
    select_prompted, selecting_run, trim_run,
};
use crate::run::{
    hidden_toggled, jumped_back, jumped_forward, left_focused, macro_record_run, quit_run,
    rename_prompted, repeat_run, tree_toggled, waiting, wrap_toggled,
};
use crate::selections::rotated;
use crate::state::{CharWait, Effect, EffectView, KeysView, PickList, SelectPrompt};
use crate::upgrade::upgraded;
use crate::windows::{
    focus_next_in, focus_towards, preview_toggled, shell_toggled, split_in,
};

verus! {

/// The commands that a language server answers.
pub open spec fn is_served(c: Command) -> bool {
    match c {
        Command::GotoDefinition
        | Command::GotoReferences
        | Command::Hover
        | Command::Complete
        | Command::CodeAction
        | Command::DocumentSymbols
        | Command::WorkspaceSymbols
        | Command::Diagnostics
        | Command::DiagnosticDetail
        | Command::NextDiagnostic
        | Command::PrevDiagnostic => true,
        _ => false,
    }
}

/// Which of the groups below a command belongs to.
#[derive(Clone, Copy, PartialEq, Eq, Structural)]
pub enum Group {
    Motion,
    Selecting,
    Entering,
    Editing,
    Served,
    Sets,
    Changes,
    Prompts,
    Places,
}

#[verifier::opaque]
pub open spec fn group_of(c: Command) -> Group {
    if is_motion(c) {
        Group::Motion
    } else if is_selecting(c) {
        Group::Selecting
    } else if is_entering(c) {
        Group::Entering
    } else if is_plain_edit(c) {
        Group::Editing
    } else if is_served(c) {
        Group::Served
    } else {
        match c {
            Command::CollapseSelection
            | Command::RemoveExtraCursors
            | Command::SplitSelectionLines
            | Command::SplitSelection
            | Command::KeepSelections
            | Command::RemoveSelections
            | Command::AlignSelections
            | Command::RotateSelectionsForward
            | Command::RotateSelectionsBackward
            | Command::TrimSelections
            | Command::ExtendMode
            | Command::BlockMode
            | Command::ExpandSelection => Group::Sets,
            Command::DeleteSelection
            | Command::ChangeSelection
            | Command::Copy
            | Command::CopyLine
            | Command::PasteAfter
            | Command::PasteBefore
            | Command::DeleteChar
            | Command::DeleteLine
            | Command::Undo
            | Command::Redo
            | Command::DepUpgrade
            | Command::RepeatLastChange
            | Command::ToggleComment
            | Command::FormatBuffer => Group::Changes,
            Command::NormalMode
            | Command::CommandMode
            | Command::Search
            | Command::SelectMatches
            | Command::SearchNext
            | Command::SearchPrev
            | Command::MacroRecord
            | Command::MacroPlay
            | Command::SelectInside
            | Command::SelectAround
            | Command::Surround
            | Command::SurroundDelete
            | Command::SurroundReplace
            | Command::Rename
            | Command::CommandPalette
            | Command::ThemePicker
            | Command::FindFiles
            | Command::RecentFiles
            | Command::GrepText
            | Command::FileExplorer => Group::Prompts,
            _ => Group::Places,
        }
    }
}

pub fn group(c: Command) -> (r: Group)
    ensures
        r == group_of(c),
{
    reveal(group_of);
    match c {
        Command::MoveLeft
        | Command::MoveRight
        | Command::MoveUp
        | Command::MoveDown
        | Command::MoveLineStart
        | Command::MoveLineFirstNonblank
        | Command::MoveLineEnd
        | Command::GotoFileStart
        | Command::GotoFileEnd
        | Command::GotoMatchingBracket
        | Command::HalfPageDown
        | Command::HalfPageUp
        | Command::PageDown
        | Command::PageUp => Group::Motion,
        Command::SelectWordNext
        | Command::SelectWordPrev
        | Command::SelectWordEnd
        | Command::SelectLine
        | Command::AddCursorBelow
        | Command::AddCursorAbove => Group::Selecting,
        Command::InsertMode
        | Command::InsertAtLineStart
        | Command::Append
        | Command::AppendAtLineEnd
        | Command::OpenBelow
        | Command::OpenAbove => Group::Entering,
        Command::DeleteToLineEnd
        | Command::JoinLines
        | Command::InsertNewline
        | Command::InsertTab
        | Command::DeleteBackward
        | Command::DeleteForward => Group::Editing,
        Command::GotoDefinition
        | Command::GotoReferences
        | Command::Hover
        | Command::Complete
        | Command::CodeAction
        | Command::DocumentSymbols
        | Command::WorkspaceSymbols
        | Command::Diagnostics
        | Command::DiagnosticDetail
        | Command::NextDiagnostic
        | Command::PrevDiagnostic => Group::Served,
        Command::CollapseSelection
        | Command::RemoveExtraCursors
        | Command::SplitSelectionLines
        | Command::SplitSelection
        | Command::KeepSelections
        | Command::RemoveSelections
        | Command::AlignSelections
        | Command::RotateSelectionsForward
        | Command::RotateSelectionsBackward
        | Command::TrimSelections
        | Command::ExtendMode
        | Command::BlockMode
        | Command::ExpandSelection => Group::Sets,
        Command::DeleteSelection
        | Command::ChangeSelection
        | Command::Copy
        | Command::CopyLine
        | Command::PasteAfter
        | Command::PasteBefore
        | Command::DeleteChar
        | Command::DeleteLine
        | Command::Undo
        | Command::Redo
        | Command::DepUpgrade
        | Command::RepeatLastChange
        | Command::ToggleComment
        | Command::FormatBuffer => Group::Changes,
        Command::NormalMode
        | Command::CommandMode
        | Command::Search
        | Command::SelectMatches
        | Command::SearchNext
        | Command::SearchPrev
        | Command::MacroRecord
        | Command::MacroPlay
        | Command::SelectInside
        | Command::SelectAround
        | Command::Surround
        | Command::SurroundDelete
        | Command::SurroundReplace
        | Command::Rename
        | Command::CommandPalette
        | Command::ThemePicker
        | Command::FindFiles
        | Command::RecentFiles
        | Command::GrepText
        | Command::FileExplorer => Group::Prompts,
        _ => Group::Places,
    }
}

/// The commands on the set of selections.
#[verifier::opaque]
pub open spec fn ran_sets(e: EditorView, c: Command) -> EditorView {
    match c {
        Command::CollapseSelection => e,
        Command::RemoveExtraCursors => on_doc(selection_kept(e), alone(doc_of(e))),
        Command::SplitSelectionLines => lines_split(e),
        Command::SplitSelection => select_prompted(e, SelectPrompt::Split),
        Command::KeepSelections => select_prompted(e, SelectPrompt::Keep),
        Command::RemoveSelections => select_prompted(e, SelectPrompt::Remove),
        Command::AlignSelections => align_run(e),
        Command::RotateSelectionsForward => on_doc(selection_kept(e), rotated(doc_of(e), true)),
        Command::RotateSelectionsBackward => on_doc(selection_kept(e), rotated(doc_of(e), false)),
        Command::TrimSelections => trim_run(e),
        Command::ExtendMode => extend_toggled(e),
        Command::BlockMode => block_toggled(e),
        Command::ExpandSelection => asking(selection_kept(e), EffectView::ExpandSelection),
        _ => e,
    }
}

/// The commands that change text, by the register or the history.
#[verifier::opaque]
pub open spec fn ran_changes(e: EditorView, c: Command) -> EditorView {
    match c {
        Command::DeleteSelection => delete_run(e),
        Command::ChangeSelection => change_run(e),
        Command::Copy => copy_run(e),
        Command::CopyLine => copy_line_run(e),
        Command::PasteAfter => paste_run(e, true),
        Command::PasteBefore => paste_run(e, false),
        Command::DeleteChar => delete_char_run(e),
        Command::DeleteLine => delete_line_run(e),
        Command::Undo => undo_run(e, false),
        Command::Redo => undo_run(e, true),
        Command::DepUpgrade => upgraded(e),
        Command::RepeatLastChange => repeat_run(e),
        Command::ToggleComment => comment_run(e),
        Command::FormatBuffer => asking(e, EffectView::Format),
        _ => e,
    }
}

/// The commands that change the mode, search or wait for a key.
#[verifier::opaque]
pub open spec fn ran_prompts(e: EditorView, c: Command) -> EditorView {
    match c {
        Command::NormalMode => normal_run(e),
        Command::CommandMode => command_line_opened(e),
        Command::Search => search_prompted(e, false),
        Command::SelectMatches => search_prompted(e, true),
        Command::SearchNext => search_stepped(e, true),
        Command::SearchPrev => search_stepped(e, false),
        Command::MacroRecord => macro_record_run(e),
        Command::MacroPlay => waiting(selection_kept(count_taken(e)), CharWait::MacroPlay(count_of(e))),
        Command::SelectInside => waiting(selection_kept(e), CharWait::Inside),
        Command::SelectAround => waiting(selection_kept(e), CharWait::Around),
        Command::Surround => EditorView { keys: KeysView { keep_selection: true, awaiting_surround: true, ..e.keys }, ..e },
        Command::SurroundDelete => waiting(selection_kept(e), CharWait::SurroundDelete),
        Command::SurroundReplace => waiting(selection_kept(e), CharWait::SurroundReplace(None)),
        Command::Rename => rename_prompted(e),
        Command::CommandPalette => asking(e, EffectView::Pick(PickList::Commands)),
        Command::ThemePicker => asking(e, EffectView::Pick(PickList::Themes)),
        Command::FindFiles => asking(e, EffectView::Pick(PickList::Files)),
        Command::RecentFiles => asking(e, EffectView::Pick(PickList::Recent)),
        Command::GrepText => asking(e, EffectView::Pick(PickList::Grep)),
        Command::FileExplorer => asking(e, EffectView::Pick(PickList::Explorer)),
        _ => e,
    }
}

/// The commands on windows and buffers.
#[verifier::opaque]
pub open spec fn ran_places(e: EditorView, c: Command) -> EditorView {
    match c {
        Command::FocusLeft => left_focused(e),
        Command::FocusRight => focus_towards(e, Dir::Right),
        Command::FocusDown => focus_towards(e, Dir::Down),
        Command::FocusUp => focus_towards(e, Dir::Up),
        Command::SplitVertical => split_in(e, true),
        Command::SplitHorizontal => split_in(e, false),
        Command::NextWindow => focus_next_in(e),
        Command::Terminal => shell_toggled(e),
        Command::MarkdownPreview => preview_toggled(e),
        Command::TreeToggle => tree_toggled(e),
        Command::ToggleHidden => hidden_toggled(e),
        Command::ToggleWrap => wrap_toggled(e),
        Command::NextBuffer => EditorView { desk: turned(e.desk, true), ..e },
        Command::PrevBuffer => EditorView { desk: turned(e.desk, false), ..e },
        Command::JumpBack => jumped_back(e),
        Command::JumpForward => jumped_forward(e),
        Command::NextChange => asking(e, EffectView::GotoChange { forward: true }),
        Command::PrevChange => asking(e, EffectView::GotoChange { forward: false }),
        Command::Save => asking(e, EffectView::Save { force: false, quit: false }),
        Command::Quit => quit_run(e),
        _ => e,
    }
}

/// What a command does, by itself.
#[verifier::opaque]
pub open spec fn ran(e: EditorView, c: Command) -> EditorView {
    match group_of(c) {
        Group::Motion => motion_run(e, c),
        Group::Selecting => selecting_run(e, c),
        Group::Entering => entering_run(e, c),
        Group::Editing => plain_edit_run(e, c),
        Group::Served => asking(e, EffectView::AskServer(c)),
        Group::Sets => ran_sets(e, c),
        Group::Changes => ran_changes(e, c),
        Group::Prompts => ran_prompts(e, c),
        Group::Places => ran_places(e, c),
    }
}

impl Editor {
    fn go_window(&mut self, dir: Dir)
        requires
            old(self).wf(),
        ensures
            final(self)@ == focus_towards(old(self)@, dir),
            final(self).wf(),
    {
        let _moved = self.focus_window_dir(dir);
    }

    fn run_sets(&mut self, c: Command)
        requires
            old(self).wf(),
        ensures
            final(self)@ == ran_sets(old(self)@, c),
            final(self).wf(),
    {
        reveal(ran_sets);
        match c {
            Command::RemoveExtraCursors => {
                self.drop_extra_cursors();
                return ;
            },
            Command::SplitSelectionLines => {
                self.split_selection_lines();
                return ;
            },
            Command::SplitSelection => {
                self.open_select_prompt(SelectPrompt::Split);
                return ;
            },
            Command::KeepSelections => {
                self.open_select_prompt(SelectPrompt::Keep);
                return ;
            },
            Command::RemoveSelections => {
                self.open_select_prompt(SelectPrompt::Remove);
                return ;
            },
            Command::AlignSelections => {
                self.align_selections();
                return ;
            },
            Command::RotateSelectionsForward => {
                self.rotate_selections(true);
                return ;
            },
            Command::RotateSelectionsBackward => {
                self.rotate_selections(false);
                return ;
            },
            Command::TrimSelections => {
                self.trim_selections();
                return ;
            },
            Command::ExtendMode => {
                self.toggle_extend();
                return ;
            },
            Command::BlockMode => {
                self.toggle_block();
                return ;
            },
            Command::ExpandSelection => {
                self.keep();
                self.ask(Effect::ExpandSelection);
                return ;
            },
            _ => {},
        }
    }

    fn run_changes(&mut self, c: Command)
        requires
            old(self).wf(),
        ensures
            final(self)@ == ran_changes(old(self)@, c),
            final(self).wf(),
    {
        reveal(ran_changes);
        match c {
            Command::DeleteSelection => {
                self.delete_selection();
                return ;
            },
            Command::ChangeSelection => {
                self.change_selection();
                return ;
            },
            Command::Copy => {
                self.copy_selection();
                return ;
            },
            Command::CopyLine => {
                self.copy_line();
                return ;
            },
            Command::PasteAfter => {
                self.paste(true);
                return ;
            },
            Command::PasteBefore => {
                self.paste(false);
                return ;
            },
            Command::DeleteChar => {
                self.delete_char();
                return ;
            },
            Command::DeleteLine => {
                self.delete_line();
                return ;
            },
            Command::Undo => {
                self.undo_or_redo(false);
                return ;
            },
            Command::Redo => {
                self.undo_or_redo(true);
                return ;
            },
            Command::DepUpgrade => {
                self.dep_upgrade();
                return ;
            },
            Command::RepeatLastChange => {
                self.repeat_last_change();
                return ;
            },
            Command::ToggleComment => {
                self.toggle_comment();
                return ;
            },
            Command::FormatBuffer => {
                self.ask(Effect::Format);
                return ;
            },
            _ => {},
        }
    }

    fn run_prompts(&mut self, c: Command)
        requires
            old(self).wf(),
        ensures
            final(self)@ == ran_prompts(old(self)@, c),
            final(self).wf(),
    {
        reveal(ran_prompts);
        match c {
            Command::NormalMode => {
                self.normal_mode();
                return ;
            },
            Command::CommandMode => {
                self.command_mode();
                return ;
            },
            Command::Search => {
                self.open_search_prompt(false);
                return ;
            },
            Command::SelectMatches => {
                self.open_search_prompt(true);
                return ;
            },
            Command::SearchNext => {
                self.search_step(true);
                return ;
            },
            Command::SearchPrev => {
                self.search_step(false);
                return ;
            },
            Command::MacroRecord => {
                self.macro_record();
                return ;
            },
            Command::MacroPlay => {
                self.macro_play();
                return ;
            },
            Command::SelectInside => {
                self.keep_and_wait(CharWait::Inside);
                return ;
            },
            Command::SelectAround => {
                self.keep_and_wait(CharWait::Around);
                return ;
            },
            Command::Surround => {
                self.wait_surround();
                return ;
            },
            Command::SurroundDelete => {
                self.keep_and_wait(CharWait::SurroundDelete);
                return ;
            },
            Command::SurroundReplace => {
                self.keep_and_wait(CharWait::SurroundReplace(None));
                return ;
            },
            Command::Rename => {
                self.prompt_rename();
                return ;
            },
            Command::CommandPalette => {
                self.ask(Effect::Pick(PickList::Commands));
                return ;
            },
            Command::ThemePicker => {
                self.ask(Effect::Pick(PickList::Themes));
                return ;
            },
            Command::FindFiles => {
                self.ask(Effect::Pick(PickList::Files));
                return ;
            },
            Command::RecentFiles => {
                self.ask(Effect::Pick(PickList::Recent));
                return ;
            },
            Command::GrepText => {
                self.ask(Effect::Pick(PickList::Grep));
                return ;
            },
            Command::FileExplorer => {
                self.ask(Effect::Pick(PickList::Explorer));
                return ;
            },
            _ => {},
        }
    }

    fn run_places(&mut self, c: Command)
        requires
            old(self).wf(),
        ensures
            final(self)@ == ran_places(old(self)@, c),
            final(self).wf(),
    {
        reveal(ran_places);
        match c {
            Command::FocusLeft => {
                self.focus_left();
                return ;
            },
            Command::FocusRight => {
                self.go_window(Dir::Right);
                return ;
            },
            Command::FocusDown => {
                self.go_window(Dir::Down);
                return ;
            },
            Command::FocusUp => {
                self.go_window(Dir::Up);
                return ;
            },
            Command::SplitVertical => {
                self.split_window(true);
                return ;
            },
            Command::SplitHorizontal => {
                self.split_window(false);
                return ;
            },
            Command::NextWindow => {
                self.focus_next_window();
                return ;
            },
            Command::Terminal => {
                self.toggle_terminal();
                return ;
            },
            Command::MarkdownPreview => {
                self.toggle_preview();
                return ;
            },
            Command::TreeToggle => {
                self.tree_toggle();
                return ;
            },
            Command::ToggleHidden => {
                self.toggle_hidden();
                return ;
            },
            Command::ToggleWrap => {
                self.toggle_wrap();
                return ;
            },
            Command::NextBuffer => {
                self.turn_buffer(true);
                return ;
            },
            Command::PrevBuffer => {
                self.turn_buffer(false);
                return ;
            },
            Command::JumpBack => {
                self.jump_back();
                return ;
            },
            Command::JumpForward => {
                self.jump_forward();
                return ;
            },
            Command::NextChange => {
                self.ask(Effect::GotoChange { forward: true });
                return ;
            },
            Command::PrevChange => {
                self.ask(Effect::GotoChange { forward: false });
                return ;
            },
            Command::Save => {
                self.ask(Effect::Save { force: false, quit: false });
                return ;
            },
            Command::Quit => {
                self.quit();
                return ;
            },
            _ => {},
        }
    }

    /// Run a command once.
    pub fn run_once(&mut self, c: Command)
        requires
            old(self).wf(),
        ensures
            final(self)@ == ran(old(self)@, c),
            final(self).wf(),
    {
        reveal(ran);
        match group(c) {
            Group::Motion => self.run_motion(c),
            Group::Selecting => self.run_selecting(c),
            Group::Entering => self.run_entering(c),
            Group::Editing => self.run_plain_edit(c),
            Group::Served => self.ask(Effect::AskServer(c)),
            Group::Sets => self.run_sets(c),
            Group::Changes => self.run_changes(c),
            Group::Prompts => self.run_prompts(c),
            Group::Places => self.run_places(c),
        }
    }
}

} // verus!
