//! Every editor action is a named value: a key map holds commands without
//! borrowing the editor, and bindings are looked up by name, which is what a
//! config file needs.

use vstd::prelude::*;
use crate::strings::same;

verus! {

/// A command of the editor.
#[derive(Clone, Copy, PartialEq, Eq, Structural, Debug)]
pub enum Command {
    MoveLeft,
    MoveRight,
    MoveUp,
    MoveDown,
    MoveLineStart,
    MoveLineFirstNonblank,
    MoveLineEnd,
    GotoMatchingBracket,
    SelectWordNext,
    SelectWordPrev,
    SelectWordEnd,
    SelectLine,
    ExpandSelection,
    CollapseSelection,
    AddCursorBelow,
    AddCursorAbove,
    RemoveExtraCursors,
    SplitSelectionLines,
    SplitSelection,
    KeepSelections,
    RemoveSelections,
    AlignSelections,
    RotateSelectionsForward,
    RotateSelectionsBackward,
    TrimSelections,
    GotoDefinition,
    GotoReferences,
    Hover,
    Complete,
    CodeAction,
    Rename,
    DocumentSymbols,
    WorkspaceSymbols,
    Diagnostics,
    DiagnosticDetail,
    CommandPalette,
    FindFiles,
    GrepText,
    RecentFiles,
    FileExplorer,
    TreeToggle,
    ToggleHidden,
    FocusLeft,
    FocusRight,
    FocusDown,
    FocusUp,
    ThemePicker,
    Terminal,
    MarkdownPreview,
    ToggleWrap,
    Search,
    SelectMatches,
    SearchNext,
    SearchPrev,
    GotoFileStart,
    GotoFileEnd,
    JumpBack,
    JumpForward,
    NextDiagnostic,
    PrevDiagnostic,
    NextChange,
    PrevChange,
    ExtendMode,
    BlockMode,
    HalfPageDown,
    HalfPageUp,
    PageDown,
    PageUp,
    InsertMode,
    InsertAtLineStart,
    Append,
    AppendAtLineEnd,
    OpenBelow,
    OpenAbove,
    NormalMode,
    CommandMode,
    DeleteSelection,
    ChangeSelection,
    Copy,
    CopyLine,
    PasteAfter,
    PasteBefore,
    DeleteChar,
    DeleteLine,
    DeleteToLineEnd,
    JoinLines,
    ToggleComment,
    Undo,
    Redo,
    RepeatLastChange,
    MacroRecord,
    MacroPlay,
    SelectInside,
    SelectAround,
    Surround,
    SurroundDelete,
    SurroundReplace,
    InsertNewline,
    InsertTab,
    DeleteBackward,
    DeleteForward,
    FormatBuffer,
    DepUpgrade,
    NextBuffer,
    PrevBuffer,
    SplitVertical,
    SplitHorizontal,
    NextWindow,
    Save,
    Quit,
}

/// The name that a command is bound and called by.
pub open spec fn name_of(c: Command) -> Seq<char> {
    match c {
        Command::MoveLeft => "move_left"@,
        Command::MoveRight => "move_right"@,
        Command::MoveUp => "move_up"@,
        Command::MoveDown => "move_down"@,
        Command::MoveLineStart => "move_line_start"@,
        Command::MoveLineFirstNonblank => "move_line_first_nonblank"@,
        Command::MoveLineEnd => "move_line_end"@,
        Command::GotoMatchingBracket => "goto_matching_bracket"@,
        Command::SelectWordNext => "select_word_next"@,
        Command::SelectWordPrev => "select_word_prev"@,
        Command::SelectWordEnd => "select_word_end"@,
        Command::SelectLine => "select_line"@,
        Command::ExpandSelection => "expand_selection"@,
        Command::CollapseSelection => "collapse_selection"@,
        Command::AddCursorBelow => "add_cursor_below"@,
        Command::AddCursorAbove => "add_cursor_above"@,
        Command::RemoveExtraCursors => "remove_extra_cursors"@,
        Command::SplitSelectionLines => "split_selection_lines"@,
        Command::SplitSelection => "split_selection"@,
        Command::KeepSelections => "keep_selections"@,
        Command::RemoveSelections => "remove_selections"@,
        Command::AlignSelections => "align_selections"@,
        Command::RotateSelectionsForward => "rotate_selections_forward"@,
        Command::RotateSelectionsBackward => "rotate_selections_backward"@,
        Command::TrimSelections => "trim_selections"@,
        Command::GotoDefinition => "goto_definition"@,
        Command::GotoReferences => "goto_references"@,
        Command::Hover => "hover"@,
        Command::Complete => "complete"@,
        Command::CodeAction => "code_action"@,
        Command::Rename => "rename"@,
        Command::DocumentSymbols => "document_symbols"@,
        Command::WorkspaceSymbols => "workspace_symbols"@,
        Command::Diagnostics => "diagnostics"@,
        Command::DiagnosticDetail => "diagnostic_detail"@,
        Command::CommandPalette => "command_palette"@,
        Command::FindFiles => "find_files"@,
        Command::GrepText => "grep_text"@,
        Command::RecentFiles => "recent_files"@,
        Command::FileExplorer => "file_explorer"@,
        Command::TreeToggle => "tree_toggle"@,
        Command::ToggleHidden => "toggle_hidden"@,
        Command::FocusLeft => "focus_left"@,
        Command::FocusRight => "focus_right"@,
        Command::FocusDown => "focus_down"@,
        Command::FocusUp => "focus_up"@,
        Command::ThemePicker => "theme_picker"@,
        Command::Terminal => "terminal"@,
        Command::MarkdownPreview => "markdown_preview"@,
        Command::ToggleWrap => "toggle_wrap"@,
        Command::Search => "search"@,
        Command::SelectMatches => "select_matches"@,
        Command::SearchNext => "search_next"@,
        Command::SearchPrev => "search_prev"@,
        Command::GotoFileStart => "goto_file_start"@,
        Command::GotoFileEnd => "goto_file_end"@,
        Command::JumpBack => "jump_back"@,
        Command::JumpForward => "jump_forward"@,
        Command::NextDiagnostic => "next_diagnostic"@,
        Command::PrevDiagnostic => "prev_diagnostic"@,
        Command::NextChange => "next_change"@,
        Command::PrevChange => "prev_change"@,
        Command::ExtendMode => "extend_mode"@,
        Command::BlockMode => "block_mode"@,
        Command::HalfPageDown => "half_page_down"@,
        Command::HalfPageUp => "half_page_up"@,
        Command::PageDown => "page_down"@,
        Command::PageUp => "page_up"@,
        Command::InsertMode => "insert_mode"@,
        Command::InsertAtLineStart => "insert_at_line_start"@,
        Command::Append => "append"@,
        Command::AppendAtLineEnd => "append_at_line_end"@,
        Command::OpenBelow => "open_below"@,
        Command::OpenAbove => "open_above"@,
        Command::NormalMode => "normal_mode"@,
        Command::CommandMode => "command_mode"@,
        Command::DeleteSelection => "delete_selection"@,
        Command::ChangeSelection => "change_selection"@,
        Command::Copy => "copy"@,
        Command::CopyLine => "copy_line"@,
        Command::PasteAfter => "paste_after"@,
        Command::PasteBefore => "paste_before"@,
        Command::DeleteChar => "delete_char"@,
        Command::DeleteLine => "delete_line"@,
        Command::DeleteToLineEnd => "delete_to_line_end"@,
        Command::JoinLines => "join_lines"@,
        Command::ToggleComment => "toggle_comment"@,
        Command::Undo => "undo"@,
        Command::Redo => "redo"@,
        Command::RepeatLastChange => "repeat_last_change"@,
        Command::MacroRecord => "macro_record"@,
        Command::MacroPlay => "macro_play"@,
        Command::SelectInside => "select_inside"@,
        Command::SelectAround => "select_around"@,
        Command::Surround => "surround"@,
        Command::SurroundDelete => "surround_delete"@,
        Command::SurroundReplace => "surround_replace"@,
        Command::InsertNewline => "insert_newline"@,
        Command::InsertTab => "insert_tab"@,
        Command::DeleteBackward => "delete_backward"@,
        Command::DeleteForward => "delete_forward"@,
        Command::FormatBuffer => "format_buffer"@,
        Command::DepUpgrade => "dep_upgrade"@,
        Command::NextBuffer => "next_buffer"@,
        Command::PrevBuffer => "prev_buffer"@,
        Command::SplitVertical => "split_vertical"@,
        Command::SplitHorizontal => "split_horizontal"@,
        Command::NextWindow => "next_window"@,
        Command::Save => "save"@,
        Command::Quit => "quit"@,
    }
}

/// What a command does, in a few words.
pub open spec fn doc_of(c: Command) -> Seq<char> {
    match c {
        Command::MoveLeft => "move one character left"@,
        Command::MoveRight => "move one character right"@,
        Command::MoveUp => "move one line up"@,
        Command::MoveDown => "move one line down"@,
        Command::MoveLineStart => "move to the start of the line"@,
        Command::MoveLineFirstNonblank => "move to the first non-blank character"@,
        Command::MoveLineEnd => "move to the end of the line"@,
        Command::GotoMatchingBracket => "jump to the bracket matching the one under the cursor"@,
        Command::SelectWordNext => "select to the start of the next word"@,
        Command::SelectWordPrev => "select back to the start of the previous word"@,
        Command::SelectWordEnd => "select through the end of the current word"@,
        Command::SelectLine => "select the current line; repeat to extend"@,
        Command::ExpandSelection => "expand the selection to the enclosing syntax node"@,
        Command::CollapseSelection => "collapse the selection to the cursor"@,
        Command::AddCursorBelow => "add a cursor on the next line"@,
        Command::AddCursorAbove => "add a cursor on the previous line"@,
        Command::RemoveExtraCursors => "keep only the primary cursor"@,
        Command::SplitSelectionLines => "split the selections into lines"@,
        Command::SplitSelection => "split the selections on a pattern"@,
        Command::KeepSelections => "keep the selections that match a pattern"@,
        Command::RemoveSelections => "drop the selections that match a pattern"@,
        Command::AlignSelections => "align the selections in one column"@,
        Command::RotateSelectionsForward => "make the next selection the primary one"@,
        Command::RotateSelectionsBackward => "make the previous selection the primary one"@,
        Command::TrimSelections => "leave out the white space at the ends of the selections"@,
        Command::GotoDefinition => "jump to the definition under the cursor (LSP)"@,
        Command::GotoReferences => "list the references to the symbol under the cursor (LSP)"@,
        Command::Hover => "pop up docs and examples for the symbol under the cursor (LSP)"@,
        Command::Complete => "open the completion menu (LSP)"@,
        Command::CodeAction => "pick a code action for the selection (LSP)"@,
        Command::Rename => "rename the symbol under the cursor everywhere (LSP)"@,
        Command::DocumentSymbols => "pick a symbol of this buffer (LSP)"@,
        Command::WorkspaceSymbols => "pick a symbol of the project (LSP)"@,
        Command::Diagnostics => "list every diagnostic"@,
        Command::DiagnosticDetail => "show the whole diagnostic under the cursor"@,
        Command::CommandPalette => "fuzzy-pick any command by name"@,
        Command::FindFiles => "fuzzy-find a file under the current directory"@,
        Command::GrepText => "search file contents across the project"@,
        Command::RecentFiles => "reopen a recently opened file"@,
        Command::FileExplorer => "browse the current directory in a picker"@,
        Command::TreeToggle => "toggle the file tree sidebar"@,
        Command::ToggleHidden => "show or hide dotfiles and build dirs in the tree, finder, and grep"@,
        Command::FocusLeft => "focus the window to the left, or the open file tree"@,
        Command::FocusRight => "focus the window to the right"@,
        Command::FocusDown => "focus the window below"@,
        Command::FocusUp => "focus the window above"@,
        Command::ThemePicker => "pick a theme with live preview"@,
        Command::Terminal => "toggle the shell split"@,
        Command::MarkdownPreview => "toggle the markdown preview"@,
        Command::ToggleWrap => "toggle soft wrap"@,
        Command::Search => "search forward, selecting the match"@,
        Command::SelectMatches => "select every match of a pattern"@,
        Command::SearchNext => "select the next match of the last search"@,
        Command::SearchPrev => "select the previous match of the last search"@,
        Command::GotoFileStart => "move to the first line, or with a count to that line"@,
        Command::GotoFileEnd => "move to the last line, or with a count to that line"@,
        Command::JumpBack => "jump back through the jumplist"@,
        Command::JumpForward => "jump forward through the jumplist"@,
        Command::NextDiagnostic => "jump to the next diagnostic"@,
        Command::PrevDiagnostic => "jump to the previous diagnostic"@,
        Command::NextChange => "jump to the next change since the last seal"@,
        Command::PrevChange => "jump to the previous change since the last seal"@,
        Command::ExtendMode => "toggle extending selections with every motion"@,
        Command::BlockMode => "stretch a rectangle with every motion, one selection per line"@,
        Command::HalfPageDown => "scroll down half a screen"@,
        Command::HalfPageUp => "scroll up half a screen"@,
        Command::PageDown => "scroll down a screen"@,
        Command::PageUp => "scroll up a screen"@,
        Command::InsertMode => "insert before the cursor"@,
        Command::InsertAtLineStart => "insert at the first non-blank character"@,
        Command::Append => "insert after the cursor"@,
        Command::AppendAtLineEnd => "insert at the end of the line"@,
        Command::OpenBelow => "open a new line below and insert"@,
        Command::OpenAbove => "open a new line above and insert"@,
        Command::NormalMode => "return to normal mode"@,
        Command::CommandMode => "enter a command"@,
        Command::DeleteSelection => "delete the selection, or the character under the cursor"@,
        Command::ChangeSelection => "delete the selection and insert"@,
        Command::Copy => "copy the selection to the register"@,
        Command::CopyLine => "copy the current line to the register (cc)"@,
        Command::PasteAfter => "paste the register after the cursor"@,
        Command::PasteBefore => "paste the register before the cursor"@,
        Command::DeleteChar => "delete the character under the cursor"@,
        Command::DeleteLine => "delete the current line into the register (dd, xx)"@,
        Command::DeleteToLineEnd => "delete to the end of the line"@,
        Command::JoinLines => "join this line with the next"@,
        Command::ToggleComment => "comment or uncomment the selected lines"@,
        Command::Undo => "undo the last change"@,
        Command::Redo => "redo the last undone change"@,
        Command::RepeatLastChange => "repeat the last change where the cursor is now"@,
        Command::MacroRecord => "record a macro into a register, or stop recording"@,
        Command::MacroPlay => "play a recorded macro"@,
        Command::SelectInside => "select inside a text object"@,
        Command::SelectAround => "select around a text object"@,
        Command::Surround => "surround the selection with a pair"@,
        Command::SurroundDelete => "delete the surrounding pair"@,
        Command::SurroundReplace => "replace the surrounding pair"@,
        Command::InsertNewline => "insert a line break"@,
        Command::InsertTab => "insert a tab"@,
        Command::DeleteBackward => "delete the character before the cursor"@,
        Command::DeleteForward => "delete the character under the cursor"@,
        Command::FormatBuffer => "run the file's formatter over the buffer (:fmt)"@,
        Command::DepUpgrade => "rewrite this line's dependency to its latest version (package manifests)"@,
        Command::NextBuffer => "switch to the next buffer"@,
        Command::PrevBuffer => "switch to the previous buffer"@,
        Command::SplitVertical => "split the window side by side"@,
        Command::SplitHorizontal => "split the window stacked"@,
        Command::NextWindow => "focus the next window"@,
        Command::Save => "write the buffer to disk"@,
        Command::Quit => "close the window, or the editor with the last one"@,
    }
}

/// The command of a name.
pub open spec fn found(name: Seq<char>) -> Option<Command> {
    if name == "move_left"@ {
        Some(Command::MoveLeft)
    } else if name == "move_right"@ {
        Some(Command::MoveRight)
    } else if name == "move_up"@ {
        Some(Command::MoveUp)
    } else if name == "move_down"@ {
        Some(Command::MoveDown)
    } else if name == "move_line_start"@ {
        Some(Command::MoveLineStart)
    } else if name == "move_line_first_nonblank"@ {
        Some(Command::MoveLineFirstNonblank)
    } else if name == "move_line_end"@ {
        Some(Command::MoveLineEnd)
    } else if name == "goto_matching_bracket"@ {
        Some(Command::GotoMatchingBracket)
    } else if name == "select_word_next"@ {
        Some(Command::SelectWordNext)
    } else if name == "select_word_prev"@ {
        Some(Command::SelectWordPrev)
    } else if name == "select_word_end"@ {
        Some(Command::SelectWordEnd)
    } else if name == "select_line"@ {
        Some(Command::SelectLine)
    } else if name == "expand_selection"@ {
        Some(Command::ExpandSelection)
    } else if name == "collapse_selection"@ {
        Some(Command::CollapseSelection)
    } else if name == "add_cursor_below"@ {
        Some(Command::AddCursorBelow)
    } else if name == "add_cursor_above"@ {
        Some(Command::AddCursorAbove)
    } else if name == "remove_extra_cursors"@ {
        Some(Command::RemoveExtraCursors)
    } else if name == "split_selection_lines"@ {
        Some(Command::SplitSelectionLines)
    } else if name == "split_selection"@ {
        Some(Command::SplitSelection)
    } else if name == "keep_selections"@ {
        Some(Command::KeepSelections)
    } else if name == "remove_selections"@ {
        Some(Command::RemoveSelections)
    } else if name == "align_selections"@ {
        Some(Command::AlignSelections)
    } else if name == "rotate_selections_forward"@ {
        Some(Command::RotateSelectionsForward)
    } else if name == "rotate_selections_backward"@ {
        Some(Command::RotateSelectionsBackward)
    } else if name == "trim_selections"@ {
        Some(Command::TrimSelections)
    } else if name == "goto_definition"@ {
        Some(Command::GotoDefinition)
    } else if name == "goto_references"@ {
        Some(Command::GotoReferences)
    } else if name == "hover"@ {
        Some(Command::Hover)
    } else if name == "complete"@ {
        Some(Command::Complete)
    } else if name == "code_action"@ {
        Some(Command::CodeAction)
    } else if name == "rename"@ {
        Some(Command::Rename)
    } else if name == "document_symbols"@ {
        Some(Command::DocumentSymbols)
    } else if name == "workspace_symbols"@ {
        Some(Command::WorkspaceSymbols)
    } else if name == "diagnostics"@ {
        Some(Command::Diagnostics)
    } else if name == "diagnostic_detail"@ {
        Some(Command::DiagnosticDetail)
    } else if name == "command_palette"@ {
        Some(Command::CommandPalette)
    } else if name == "find_files"@ {
        Some(Command::FindFiles)
    } else if name == "grep_text"@ {
        Some(Command::GrepText)
    } else if name == "recent_files"@ {
        Some(Command::RecentFiles)
    } else if name == "file_explorer"@ {
        Some(Command::FileExplorer)
    } else if name == "tree_toggle"@ {
        Some(Command::TreeToggle)
    } else if name == "toggle_hidden"@ {
        Some(Command::ToggleHidden)
    } else if name == "focus_left"@ {
        Some(Command::FocusLeft)
    } else if name == "focus_right"@ {
        Some(Command::FocusRight)
    } else if name == "focus_down"@ {
        Some(Command::FocusDown)
    } else if name == "focus_up"@ {
        Some(Command::FocusUp)
    } else if name == "theme_picker"@ {
        Some(Command::ThemePicker)
    } else if name == "terminal"@ {
        Some(Command::Terminal)
    } else if name == "markdown_preview"@ {
        Some(Command::MarkdownPreview)
    } else if name == "toggle_wrap"@ {
        Some(Command::ToggleWrap)
    } else if name == "search"@ {
        Some(Command::Search)
    } else if name == "select_matches"@ {
        Some(Command::SelectMatches)
    } else if name == "search_next"@ {
        Some(Command::SearchNext)
    } else if name == "search_prev"@ {
        Some(Command::SearchPrev)
    } else if name == "goto_file_start"@ {
        Some(Command::GotoFileStart)
    } else if name == "goto_file_end"@ {
        Some(Command::GotoFileEnd)
    } else if name == "jump_back"@ {
        Some(Command::JumpBack)
    } else if name == "jump_forward"@ {
        Some(Command::JumpForward)
    } else if name == "next_diagnostic"@ {
        Some(Command::NextDiagnostic)
    } else if name == "prev_diagnostic"@ {
        Some(Command::PrevDiagnostic)
    } else if name == "next_change"@ {
        Some(Command::NextChange)
    } else if name == "prev_change"@ {
        Some(Command::PrevChange)
    } else if name == "extend_mode"@ {
        Some(Command::ExtendMode)
    } else if name == "block_mode"@ {
        Some(Command::BlockMode)
    } else if name == "half_page_down"@ {
        Some(Command::HalfPageDown)
    } else if name == "half_page_up"@ {
        Some(Command::HalfPageUp)
    } else if name == "page_down"@ {
        Some(Command::PageDown)
    } else if name == "page_up"@ {
        Some(Command::PageUp)
    } else if name == "insert_mode"@ {
        Some(Command::InsertMode)
    } else if name == "insert_at_line_start"@ {
        Some(Command::InsertAtLineStart)
    } else if name == "append"@ {
        Some(Command::Append)
    } else if name == "append_at_line_end"@ {
        Some(Command::AppendAtLineEnd)
    } else if name == "open_below"@ {
        Some(Command::OpenBelow)
    } else if name == "open_above"@ {
        Some(Command::OpenAbove)
    } else if name == "normal_mode"@ {
        Some(Command::NormalMode)
    } else if name == "command_mode"@ {
        Some(Command::CommandMode)
    } else if name == "delete_selection"@ {
        Some(Command::DeleteSelection)
    } else if name == "change_selection"@ {
        Some(Command::ChangeSelection)
    } else if name == "copy"@ {
        Some(Command::Copy)
    } else if name == "copy_line"@ {
        Some(Command::CopyLine)
    } else if name == "paste_after"@ {
        Some(Command::PasteAfter)
    } else if name == "paste_before"@ {
        Some(Command::PasteBefore)
    } else if name == "delete_char"@ {
        Some(Command::DeleteChar)
    } else if name == "delete_line"@ {
        Some(Command::DeleteLine)
    } else if name == "delete_to_line_end"@ {
        Some(Command::DeleteToLineEnd)
    } else if name == "join_lines"@ {
        Some(Command::JoinLines)
    } else if name == "toggle_comment"@ {
        Some(Command::ToggleComment)
    } else if name == "undo"@ {
        Some(Command::Undo)
    } else if name == "redo"@ {
        Some(Command::Redo)
    } else if name == "repeat_last_change"@ {
        Some(Command::RepeatLastChange)
    } else if name == "macro_record"@ {
        Some(Command::MacroRecord)
    } else if name == "macro_play"@ {
        Some(Command::MacroPlay)
    } else if name == "select_inside"@ {
        Some(Command::SelectInside)
    } else if name == "select_around"@ {
        Some(Command::SelectAround)
    } else if name == "surround"@ {
        Some(Command::Surround)
    } else if name == "surround_delete"@ {
        Some(Command::SurroundDelete)
    } else if name == "surround_replace"@ {
        Some(Command::SurroundReplace)
    } else if name == "insert_newline"@ {
        Some(Command::InsertNewline)
    } else if name == "insert_tab"@ {
        Some(Command::InsertTab)
    } else if name == "delete_backward"@ {
        Some(Command::DeleteBackward)
    } else if name == "delete_forward"@ {
        Some(Command::DeleteForward)
    } else if name == "format_buffer"@ {
        Some(Command::FormatBuffer)
    } else if name == "dep_upgrade"@ {
        Some(Command::DepUpgrade)
    } else if name == "next_buffer"@ {
        Some(Command::NextBuffer)
    } else if name == "prev_buffer"@ {
        Some(Command::PrevBuffer)
    } else if name == "split_vertical"@ {
        Some(Command::SplitVertical)
    } else if name == "split_horizontal"@ {
        Some(Command::SplitHorizontal)
    } else if name == "next_window"@ {
        Some(Command::NextWindow)
    } else if name == "save"@ {
        Some(Command::Save)
    } else if name == "quit"@ {
        Some(Command::Quit)
    } else {
        None
    }
}

/// Every command, in the order in which the help window lists them.
pub open spec fn all_commands() -> Seq<Command> {
    seq![
        Command::MoveLeft,
        Command::MoveRight,
        Command::MoveUp,
        Command::MoveDown,
        Command::MoveLineStart,
        Command::MoveLineFirstNonblank,
        Command::MoveLineEnd,
        Command::GotoMatchingBracket,
        Command::SelectWordNext,
        Command::SelectWordPrev,
        Command::SelectWordEnd,
        Command::SelectLine,
        Command::ExpandSelection,
        Command::CollapseSelection,
        Command::AddCursorBelow,
        Command::AddCursorAbove,
        Command::RemoveExtraCursors,
        Command::SplitSelectionLines,
        Command::SplitSelection,
        Command::KeepSelections,
        Command::RemoveSelections,
        Command::AlignSelections,
        Command::RotateSelectionsForward,
        Command::RotateSelectionsBackward,
        Command::TrimSelections,
        Command::GotoDefinition,
        Command::GotoReferences,
        Command::Hover,
        Command::Complete,
        Command::CodeAction,
        Command::Rename,
        Command::DocumentSymbols,
        Command::WorkspaceSymbols,
        Command::Diagnostics,
        Command::DiagnosticDetail,
        Command::CommandPalette,
        Command::FindFiles,
        Command::GrepText,
        Command::RecentFiles,
        Command::FileExplorer,
        Command::TreeToggle,
        Command::ToggleHidden,
        Command::FocusLeft,
        Command::FocusRight,
        Command::FocusDown,
        Command::FocusUp,
        Command::ThemePicker,
        Command::Terminal,
        Command::MarkdownPreview,
        Command::ToggleWrap,
        Command::Search,
        Command::SelectMatches,
        Command::SearchNext,
        Command::SearchPrev,
        Command::GotoFileStart,
        Command::GotoFileEnd,
        Command::JumpBack,
        Command::JumpForward,
        Command::NextDiagnostic,
        Command::PrevDiagnostic,
        Command::NextChange,
        Command::PrevChange,
        Command::ExtendMode,
        Command::BlockMode,
        Command::HalfPageDown,
        Command::HalfPageUp,
        Command::PageDown,
        Command::PageUp,
        Command::InsertMode,
        Command::InsertAtLineStart,
        Command::Append,
        Command::AppendAtLineEnd,
        Command::OpenBelow,
        Command::OpenAbove,
        Command::NormalMode,
        Command::CommandMode,
        Command::DeleteSelection,
        Command::ChangeSelection,
        Command::Copy,
        Command::CopyLine,
        Command::PasteAfter,
        Command::PasteBefore,
        Command::DeleteChar,
        Command::DeleteLine,
        Command::DeleteToLineEnd,
        Command::JoinLines,
        Command::ToggleComment,
        Command::Undo,
        Command::Redo,
        Command::RepeatLastChange,
        Command::MacroRecord,
        Command::MacroPlay,
        Command::SelectInside,
        Command::SelectAround,
        Command::Surround,
        Command::SurroundDelete,
        Command::SurroundReplace,
        Command::InsertNewline,
        Command::InsertTab,
        Command::DeleteBackward,
        Command::DeleteForward,
        Command::FormatBuffer,
        Command::DepUpgrade,
        Command::NextBuffer,
        Command::PrevBuffer,
        Command::SplitVertical,
        Command::SplitHorizontal,
        Command::NextWindow,
        Command::Save,
        Command::Quit,
    ]
}

impl Command {
    /// The name that the command is bound and called by.
    pub fn name(self) -> (r: &'static str)
        ensures
            r@ == name_of(self),
    {
        match self {
            Command::MoveLeft => "move_left",
            Command::MoveRight => "move_right",
            Command::MoveUp => "move_up",
            Command::MoveDown => "move_down",
            Command::MoveLineStart => "move_line_start",
            Command::MoveLineFirstNonblank => "move_line_first_nonblank",
            Command::MoveLineEnd => "move_line_end",
            Command::GotoMatchingBracket => "goto_matching_bracket",
            Command::SelectWordNext => "select_word_next",
            Command::SelectWordPrev => "select_word_prev",
            Command::SelectWordEnd => "select_word_end",
            Command::SelectLine => "select_line",
            Command::ExpandSelection => "expand_selection",
            Command::CollapseSelection => "collapse_selection",
            Command::AddCursorBelow => "add_cursor_below",
            Command::AddCursorAbove => "add_cursor_above",
            Command::RemoveExtraCursors => "remove_extra_cursors",
            Command::SplitSelectionLines => "split_selection_lines",
            Command::SplitSelection => "split_selection",
            Command::KeepSelections => "keep_selections",
            Command::RemoveSelections => "remove_selections",
            Command::AlignSelections => "align_selections",
            Command::RotateSelectionsForward => "rotate_selections_forward",
            Command::RotateSelectionsBackward => "rotate_selections_backward",
            Command::TrimSelections => "trim_selections",
            Command::GotoDefinition => "goto_definition",
            Command::GotoReferences => "goto_references",
            Command::Hover => "hover",
            Command::Complete => "complete",
            Command::CodeAction => "code_action",
            Command::Rename => "rename",
            Command::DocumentSymbols => "document_symbols",
            Command::WorkspaceSymbols => "workspace_symbols",
            Command::Diagnostics => "diagnostics",
            Command::DiagnosticDetail => "diagnostic_detail",
            Command::CommandPalette => "command_palette",
            Command::FindFiles => "find_files",
            Command::GrepText => "grep_text",
            Command::RecentFiles => "recent_files",
            Command::FileExplorer => "file_explorer",
            Command::TreeToggle => "tree_toggle",
            Command::ToggleHidden => "toggle_hidden",
            Command::FocusLeft => "focus_left",
            Command::FocusRight => "focus_right",
            Command::FocusDown => "focus_down",
            Command::FocusUp => "focus_up",
            Command::ThemePicker => "theme_picker",
            Command::Terminal => "terminal",
            Command::MarkdownPreview => "markdown_preview",
            Command::ToggleWrap => "toggle_wrap",
            Command::Search => "search",
            Command::SelectMatches => "select_matches",
            Command::SearchNext => "search_next",
            Command::SearchPrev => "search_prev",
            Command::GotoFileStart => "goto_file_start",
            Command::GotoFileEnd => "goto_file_end",
            Command::JumpBack => "jump_back",
            Command::JumpForward => "jump_forward",
            Command::NextDiagnostic => "next_diagnostic",
            Command::PrevDiagnostic => "prev_diagnostic",
            Command::NextChange => "next_change",
            Command::PrevChange => "prev_change",
            Command::ExtendMode => "extend_mode",
            Command::BlockMode => "block_mode",
            Command::HalfPageDown => "half_page_down",
            Command::HalfPageUp => "half_page_up",
            Command::PageDown => "page_down",
            Command::PageUp => "page_up",
            Command::InsertMode => "insert_mode",
            Command::InsertAtLineStart => "insert_at_line_start",
            Command::Append => "append",
            Command::AppendAtLineEnd => "append_at_line_end",
            Command::OpenBelow => "open_below",
            Command::OpenAbove => "open_above",
            Command::NormalMode => "normal_mode",
            Command::CommandMode => "command_mode",
            Command::DeleteSelection => "delete_selection",
            Command::ChangeSelection => "change_selection",
            Command::Copy => "copy",
            Command::CopyLine => "copy_line",
            Command::PasteAfter => "paste_after",
            Command::PasteBefore => "paste_before",
            Command::DeleteChar => "delete_char",
            Command::DeleteLine => "delete_line",
            Command::DeleteToLineEnd => "delete_to_line_end",
            Command::JoinLines => "join_lines",
            Command::ToggleComment => "toggle_comment",
            Command::Undo => "undo",
            Command::Redo => "redo",
            Command::RepeatLastChange => "repeat_last_change",
            Command::MacroRecord => "macro_record",
            Command::MacroPlay => "macro_play",
            Command::SelectInside => "select_inside",
            Command::SelectAround => "select_around",
            Command::Surround => "surround",
            Command::SurroundDelete => "surround_delete",
            Command::SurroundReplace => "surround_replace",
            Command::InsertNewline => "insert_newline",
            Command::InsertTab => "insert_tab",
            Command::DeleteBackward => "delete_backward",
            Command::DeleteForward => "delete_forward",
            Command::FormatBuffer => "format_buffer",
            Command::DepUpgrade => "dep_upgrade",
            Command::NextBuffer => "next_buffer",
            Command::PrevBuffer => "prev_buffer",
            Command::SplitVertical => "split_vertical",
            Command::SplitHorizontal => "split_horizontal",
            Command::NextWindow => "next_window",
            Command::Save => "save",
            Command::Quit => "quit",
        }
    }

    /// What the command does, in a few words.
    pub fn doc(self) -> (r: &'static str)
        ensures
            r@ == doc_of(self),
    {
        match self {
            Command::MoveLeft => "move one character left",
            Command::MoveRight => "move one character right",
            Command::MoveUp => "move one line up",
            Command::MoveDown => "move one line down",
            Command::MoveLineStart => "move to the start of the line",
            Command::MoveLineFirstNonblank => "move to the first non-blank character",
            Command::MoveLineEnd => "move to the end of the line",
            Command::GotoMatchingBracket => "jump to the bracket matching the one under the cursor",
            Command::SelectWordNext => "select to the start of the next word",
            Command::SelectWordPrev => "select back to the start of the previous word",
            Command::SelectWordEnd => "select through the end of the current word",
            Command::SelectLine => "select the current line; repeat to extend",
            Command::ExpandSelection => "expand the selection to the enclosing syntax node",
            Command::CollapseSelection => "collapse the selection to the cursor",
            Command::AddCursorBelow => "add a cursor on the next line",
            Command::AddCursorAbove => "add a cursor on the previous line",
            Command::RemoveExtraCursors => "keep only the primary cursor",
            Command::SplitSelectionLines => "split the selections into lines",
            Command::SplitSelection => "split the selections on a pattern",
            Command::KeepSelections => "keep the selections that match a pattern",
            Command::RemoveSelections => "drop the selections that match a pattern",
            Command::AlignSelections => "align the selections in one column",
            Command::RotateSelectionsForward => "make the next selection the primary one",
            Command::RotateSelectionsBackward => "make the previous selection the primary one",
            Command::TrimSelections => "leave out the white space at the ends of the selections",
            Command::GotoDefinition => "jump to the definition under the cursor (LSP)",
            Command::GotoReferences => "list the references to the symbol under the cursor (LSP)",
            Command::Hover => "pop up docs and examples for the symbol under the cursor (LSP)",
            Command::Complete => "open the completion menu (LSP)",
            Command::CodeAction => "pick a code action for the selection (LSP)",
            Command::Rename => "rename the symbol under the cursor everywhere (LSP)",
            Command::DocumentSymbols => "pick a symbol of this buffer (LSP)",
            Command::WorkspaceSymbols => "pick a symbol of the project (LSP)",
            Command::Diagnostics => "list every diagnostic",
            Command::DiagnosticDetail => "show the whole diagnostic under the cursor",
            Command::CommandPalette => "fuzzy-pick any command by name",
            Command::FindFiles => "fuzzy-find a file under the current directory",
            Command::GrepText => "search file contents across the project",
            Command::RecentFiles => "reopen a recently opened file",
            Command::FileExplorer => "browse the current directory in a picker",
            Command::TreeToggle => "toggle the file tree sidebar",
            Command::ToggleHidden => "show or hide dotfiles and build dirs in the tree, finder, and grep",
            Command::FocusLeft => "focus the window to the left, or the open file tree",
            Command::FocusRight => "focus the window to the right",
            Command::FocusDown => "focus the window below",
            Command::FocusUp => "focus the window above",
            Command::ThemePicker => "pick a theme with live preview",
            Command::Terminal => "toggle the shell split",
            Command::MarkdownPreview => "toggle the markdown preview",
            Command::ToggleWrap => "toggle soft wrap",
            Command::Search => "search forward, selecting the match",
            Command::SelectMatches => "select every match of a pattern",
            Command::SearchNext => "select the next match of the last search",
            Command::SearchPrev => "select the previous match of the last search",
            Command::GotoFileStart => "move to the first line, or with a count to that line",
            Command::GotoFileEnd => "move to the last line, or with a count to that line",
            Command::JumpBack => "jump back through the jumplist",
            Command::JumpForward => "jump forward through the jumplist",
            Command::NextDiagnostic => "jump to the next diagnostic",
            Command::PrevDiagnostic => "jump to the previous diagnostic",
            Command::NextChange => "jump to the next change since the last seal",
            Command::PrevChange => "jump to the previous change since the last seal",
            Command::ExtendMode => "toggle extending selections with every motion",
            Command::BlockMode => "stretch a rectangle with every motion, one selection per line",
            Command::HalfPageDown => "scroll down half a screen",
            Command::HalfPageUp => "scroll up half a screen",
            Command::PageDown => "scroll down a screen",
            Command::PageUp => "scroll up a screen",
            Command::InsertMode => "insert before the cursor",
            Command::InsertAtLineStart => "insert at the first non-blank character",
            Command::Append => "insert after the cursor",
            Command::AppendAtLineEnd => "insert at the end of the line",
            Command::OpenBelow => "open a new line below and insert",
            Command::OpenAbove => "open a new line above and insert",
            Command::NormalMode => "return to normal mode",
            Command::CommandMode => "enter a command",
            Command::DeleteSelection => "delete the selection, or the character under the cursor",
            Command::ChangeSelection => "delete the selection and insert",
            Command::Copy => "copy the selection to the register",
            Command::CopyLine => "copy the current line to the register (cc)",
            Command::PasteAfter => "paste the register after the cursor",
            Command::PasteBefore => "paste the register before the cursor",
            Command::DeleteChar => "delete the character under the cursor",
            Command::DeleteLine => "delete the current line into the register (dd, xx)",
            Command::DeleteToLineEnd => "delete to the end of the line",
            Command::JoinLines => "join this line with the next",
            Command::ToggleComment => "comment or uncomment the selected lines",
            Command::Undo => "undo the last change",
            Command::Redo => "redo the last undone change",
            Command::RepeatLastChange => "repeat the last change where the cursor is now",
            Command::MacroRecord => "record a macro into a register, or stop recording",
            Command::MacroPlay => "play a recorded macro",
            Command::SelectInside => "select inside a text object",
            Command::SelectAround => "select around a text object",
            Command::Surround => "surround the selection with a pair",
            Command::SurroundDelete => "delete the surrounding pair",
            Command::SurroundReplace => "replace the surrounding pair",
            Command::InsertNewline => "insert a line break",
            Command::InsertTab => "insert a tab",
            Command::DeleteBackward => "delete the character before the cursor",
            Command::DeleteForward => "delete the character under the cursor",
            Command::FormatBuffer => "run the file's formatter over the buffer (:fmt)",
            Command::DepUpgrade => "rewrite this line's dependency to its latest version (package manifests)",
            Command::NextBuffer => "switch to the next buffer",
            Command::PrevBuffer => "switch to the previous buffer",
            Command::SplitVertical => "split the window side by side",
            Command::SplitHorizontal => "split the window stacked",
            Command::NextWindow => "focus the next window",
            Command::Save => "write the buffer to disk",
            Command::Quit => "close the window, or the editor with the last one",
        }
    }
}

/// The command of a name.
pub fn find(name: &str) -> (r: Option<Command>)
    ensures
        r == found(name@),
{
    if same(name, "move_left") {
        Some(Command::MoveLeft)
    } else if same(name, "move_right") {
        Some(Command::MoveRight)
    } else if same(name, "move_up") {
        Some(Command::MoveUp)
    } else if same(name, "move_down") {
        Some(Command::MoveDown)
    } else if same(name, "move_line_start") {
        Some(Command::MoveLineStart)
    } else if same(name, "move_line_first_nonblank") {
        Some(Command::MoveLineFirstNonblank)
    } else if same(name, "move_line_end") {
        Some(Command::MoveLineEnd)
    } else if same(name, "goto_matching_bracket") {
        Some(Command::GotoMatchingBracket)
    } else if same(name, "select_word_next") {
        Some(Command::SelectWordNext)
    } else if same(name, "select_word_prev") {
        Some(Command::SelectWordPrev)
    } else if same(name, "select_word_end") {
        Some(Command::SelectWordEnd)
    } else if same(name, "select_line") {
        Some(Command::SelectLine)
    } else if same(name, "expand_selection") {
        Some(Command::ExpandSelection)
    } else if same(name, "collapse_selection") {
        Some(Command::CollapseSelection)
    } else if same(name, "add_cursor_below") {
        Some(Command::AddCursorBelow)
    } else if same(name, "add_cursor_above") {
        Some(Command::AddCursorAbove)
    } else if same(name, "remove_extra_cursors") {
        Some(Command::RemoveExtraCursors)
    } else if same(name, "split_selection_lines") {
        Some(Command::SplitSelectionLines)
    } else if same(name, "split_selection") {
        Some(Command::SplitSelection)
    } else if same(name, "keep_selections") {
        Some(Command::KeepSelections)
    } else if same(name, "remove_selections") {
        Some(Command::RemoveSelections)
    } else if same(name, "align_selections") {
        Some(Command::AlignSelections)
    } else if same(name, "rotate_selections_forward") {
        Some(Command::RotateSelectionsForward)
    } else if same(name, "rotate_selections_backward") {
        Some(Command::RotateSelectionsBackward)
    } else if same(name, "trim_selections") {
        Some(Command::TrimSelections)
    } else if same(name, "goto_definition") {
        Some(Command::GotoDefinition)
    } else if same(name, "goto_references") {
        Some(Command::GotoReferences)
    } else if same(name, "hover") {
        Some(Command::Hover)
    } else if same(name, "complete") {
        Some(Command::Complete)
    } else if same(name, "code_action") {
        Some(Command::CodeAction)
    } else if same(name, "rename") {
        Some(Command::Rename)
    } else if same(name, "document_symbols") {
        Some(Command::DocumentSymbols)
    } else if same(name, "workspace_symbols") {
        Some(Command::WorkspaceSymbols)
    } else if same(name, "diagnostics") {
        Some(Command::Diagnostics)
    } else if same(name, "diagnostic_detail") {
        Some(Command::DiagnosticDetail)
    } else if same(name, "command_palette") {
        Some(Command::CommandPalette)
    } else if same(name, "find_files") {
        Some(Command::FindFiles)
    } else if same(name, "grep_text") {
        Some(Command::GrepText)
    } else if same(name, "recent_files") {
        Some(Command::RecentFiles)
    } else if same(name, "file_explorer") {
        Some(Command::FileExplorer)
    } else if same(name, "tree_toggle") {
        Some(Command::TreeToggle)
    } else if same(name, "toggle_hidden") {
        Some(Command::ToggleHidden)
    } else if same(name, "focus_left") {
        Some(Command::FocusLeft)
    } else if same(name, "focus_right") {
        Some(Command::FocusRight)
    } else if same(name, "focus_down") {
        Some(Command::FocusDown)
    } else if same(name, "focus_up") {
        Some(Command::FocusUp)
    } else if same(name, "theme_picker") {
        Some(Command::ThemePicker)
    } else if same(name, "terminal") {
        Some(Command::Terminal)
    } else if same(name, "markdown_preview") {
        Some(Command::MarkdownPreview)
    } else if same(name, "toggle_wrap") {
        Some(Command::ToggleWrap)
    } else if same(name, "search") {
        Some(Command::Search)
    } else if same(name, "select_matches") {
        Some(Command::SelectMatches)
    } else if same(name, "search_next") {
        Some(Command::SearchNext)
    } else if same(name, "search_prev") {
        Some(Command::SearchPrev)
    } else if same(name, "goto_file_start") {
        Some(Command::GotoFileStart)
    } else if same(name, "goto_file_end") {
        Some(Command::GotoFileEnd)
    } else if same(name, "jump_back") {
        Some(Command::JumpBack)
    } else if same(name, "jump_forward") {
        Some(Command::JumpForward)
    } else if same(name, "next_diagnostic") {
        Some(Command::NextDiagnostic)
    } else if same(name, "prev_diagnostic") {
        Some(Command::PrevDiagnostic)
    } else if same(name, "next_change") {
        Some(Command::NextChange)
    } else if same(name, "prev_change") {
        Some(Command::PrevChange)
    } else if same(name, "extend_mode") {
        Some(Command::ExtendMode)
    } else if same(name, "block_mode") {
        Some(Command::BlockMode)
    } else if same(name, "half_page_down") {
        Some(Command::HalfPageDown)
    } else if same(name, "half_page_up") {
        Some(Command::HalfPageUp)
    } else if same(name, "page_down") {
        Some(Command::PageDown)
    } else if same(name, "page_up") {
        Some(Command::PageUp)
    } else if same(name, "insert_mode") {
        Some(Command::InsertMode)
    } else if same(name, "insert_at_line_start") {
        Some(Command::InsertAtLineStart)
    } else if same(name, "append") {
        Some(Command::Append)
    } else if same(name, "append_at_line_end") {
        Some(Command::AppendAtLineEnd)
    } else if same(name, "open_below") {
        Some(Command::OpenBelow)
    } else if same(name, "open_above") {
        Some(Command::OpenAbove)
    } else if same(name, "normal_mode") {
        Some(Command::NormalMode)
    } else if same(name, "command_mode") {
        Some(Command::CommandMode)
    } else if same(name, "delete_selection") {
        Some(Command::DeleteSelection)
    } else if same(name, "change_selection") {
        Some(Command::ChangeSelection)
    } else if same(name, "copy") {
        Some(Command::Copy)
    } else if same(name, "copy_line") {
        Some(Command::CopyLine)
    } else if same(name, "paste_after") {
        Some(Command::PasteAfter)
    } else if same(name, "paste_before") {
        Some(Command::PasteBefore)
    } else if same(name, "delete_char") {
        Some(Command::DeleteChar)
    } else if same(name, "delete_line") {
        Some(Command::DeleteLine)
    } else if same(name, "delete_to_line_end") {
        Some(Command::DeleteToLineEnd)
    } else if same(name, "join_lines") {
        Some(Command::JoinLines)
    } else if same(name, "toggle_comment") {
        Some(Command::ToggleComment)
    } else if same(name, "undo") {
        Some(Command::Undo)
    } else if same(name, "redo") {
        Some(Command::Redo)
    } else if same(name, "repeat_last_change") {
        Some(Command::RepeatLastChange)
    } else if same(name, "macro_record") {
        Some(Command::MacroRecord)
    } else if same(name, "macro_play") {
        Some(Command::MacroPlay)
    } else if same(name, "select_inside") {
        Some(Command::SelectInside)
    } else if same(name, "select_around") {
        Some(Command::SelectAround)
    } else if same(name, "surround") {
        Some(Command::Surround)
    } else if same(name, "surround_delete") {
        Some(Command::SurroundDelete)
    } else if same(name, "surround_replace") {
        Some(Command::SurroundReplace)
    } else if same(name, "insert_newline") {
        Some(Command::InsertNewline)
    } else if same(name, "insert_tab") {
        Some(Command::InsertTab)
    } else if same(name, "delete_backward") {
        Some(Command::DeleteBackward)
    } else if same(name, "delete_forward") {
        Some(Command::DeleteForward)
    } else if same(name, "format_buffer") {
        Some(Command::FormatBuffer)
    } else if same(name, "dep_upgrade") {
        Some(Command::DepUpgrade)
    } else if same(name, "next_buffer") {
        Some(Command::NextBuffer)
    } else if same(name, "prev_buffer") {
        Some(Command::PrevBuffer)
    } else if same(name, "split_vertical") {
        Some(Command::SplitVertical)
    } else if same(name, "split_horizontal") {
        Some(Command::SplitHorizontal)
    } else if same(name, "next_window") {
        Some(Command::NextWindow)
    } else if same(name, "save") {
        Some(Command::Save)
    } else if same(name, "quit") {
        Some(Command::Quit)
    } else {
        None
    }
}

/// Every command, in the order in which the help window lists them.
pub fn commands() -> (r: Vec<Command>)
    ensures
        r@ == all_commands(),
{
    vec![
        Command::MoveLeft,
        Command::MoveRight,
        Command::MoveUp,
        Command::MoveDown,
        Command::MoveLineStart,
        Command::MoveLineFirstNonblank,
        Command::MoveLineEnd,
        Command::GotoMatchingBracket,
        Command::SelectWordNext,
        Command::SelectWordPrev,
        Command::SelectWordEnd,
        Command::SelectLine,
        Command::ExpandSelection,
        Command::CollapseSelection,
        Command::AddCursorBelow,
        Command::AddCursorAbove,
        Command::RemoveExtraCursors,
        Command::SplitSelectionLines,
        Command::SplitSelection,
        Command::KeepSelections,
        Command::RemoveSelections,
        Command::AlignSelections,
        Command::RotateSelectionsForward,
        Command::RotateSelectionsBackward,
        Command::TrimSelections,
        Command::GotoDefinition,
        Command::GotoReferences,
        Command::Hover,
        Command::Complete,
        Command::CodeAction,
        Command::Rename,
        Command::DocumentSymbols,
        Command::WorkspaceSymbols,
        Command::Diagnostics,
        Command::DiagnosticDetail,
        Command::CommandPalette,
        Command::FindFiles,
        Command::GrepText,
        Command::RecentFiles,
        Command::FileExplorer,
        Command::TreeToggle,
        Command::ToggleHidden,
        Command::FocusLeft,
        Command::FocusRight,
        Command::FocusDown,
        Command::FocusUp,
        Command::ThemePicker,
        Command::Terminal,
        Command::MarkdownPreview,
        Command::ToggleWrap,
        Command::Search,
        Command::SelectMatches,
        Command::SearchNext,
        Command::SearchPrev,
        Command::GotoFileStart,
        Command::GotoFileEnd,
        Command::JumpBack,
        Command::JumpForward,
        Command::NextDiagnostic,
        Command::PrevDiagnostic,
        Command::NextChange,
        Command::PrevChange,
        Command::ExtendMode,
        Command::BlockMode,
        Command::HalfPageDown,
        Command::HalfPageUp,
        Command::PageDown,
        Command::PageUp,
        Command::InsertMode,
        Command::InsertAtLineStart,
        Command::Append,
        Command::AppendAtLineEnd,
        Command::OpenBelow,
        Command::OpenAbove,
        Command::NormalMode,
        Command::CommandMode,
        Command::DeleteSelection,
        Command::ChangeSelection,
        Command::Copy,
        Command::CopyLine,
        Command::PasteAfter,
        Command::PasteBefore,
        Command::DeleteChar,
        Command::DeleteLine,
        Command::DeleteToLineEnd,
        Command::JoinLines,
        Command::ToggleComment,
        Command::Undo,
        Command::Redo,
        Command::RepeatLastChange,
        Command::MacroRecord,
        Command::MacroPlay,
        Command::SelectInside,
        Command::SelectAround,
        Command::Surround,
        Command::SurroundDelete,
        Command::SurroundReplace,
        Command::InsertNewline,
        Command::InsertTab,
        Command::DeleteBackward,
        Command::DeleteForward,
        Command::FormatBuffer,
        Command::DepUpgrade,
        Command::NextBuffer,
        Command::PrevBuffer,
        Command::SplitVertical,
        Command::SplitHorizontal,
        Command::NextWindow,
        Command::Save,
        Command::Quit,
    ]
}

/// A command found by a name has that name.
pub proof fn law_found_has_the_name(name: Seq<char>)
    ensures
        found(name) is Some ==> name_of(found(name)->0) == name,
{
}

} // verus!
