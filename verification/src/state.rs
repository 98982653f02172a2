//! The editor's state, area by area, and what it asks of the outside.

use serde_json::Value;
use vstd::prelude::*;
use crate::commands::Command;
use crate::deps::Kind;
use crate::filetree::{FileTree, TreeView};
use crate::json::{json_of, jsons, Json};
use crate::keymap::{Key, KeyTrie, Trie};
use crate::lsp::{Client, ClientView, Tag};
use crate::lsp_parse::{
    diagnostic_views, location_views, signature_view, Diagnostic, DiagnosticView, Location,
    LocationView,
};
use crate::selections::Block;
use crate::strings::{opt_text, text_pairs, texts};

verus! {

#[derive(Debug, Clone, Copy, PartialEq, Eq, Structural)]
pub enum Mode {
    Normal,
    Insert,
    Command,
    Search,
    Picker,
    /// The terminal split has focus and keys go to the shell.
    Terminal,
}

/// What the next typed character is for, after a key that asks for one.
#[derive(Debug, Clone, Copy, PartialEq, Eq, Structural)]
pub enum CharWait {
    /// Select inside the object that the character names.
    Inside,
    Around,
    /// Delete the surrounding pair.
    SurroundDelete,
    /// Replace the surrounding pair: first the old, then the new.
    SurroundReplace(Option<char>),
    /// Start recording a macro into the named register.
    MacroRecord,
    /// Play the named macro so many times.
    MacroPlay(usize),
}

/// Which operation on the selections the prompt is collecting a pattern for.
#[derive(Debug, Clone, Copy, PartialEq, Eq, Structural)]
pub enum SelectPrompt {
    /// Split every selection on the pattern's matches.
    Split,
    /// Keep only the selections that hold a match.
    Keep,
    /// Drop the selections that hold a match.
    Remove,
}

// ---- what is half typed -----------------------------------------------------------

pub struct Keys {
    pub mode: Mode,
    /// Keys so far that begin some binding.
    pub pending: Vec<Key>,
    /// Numeric prefix.
    pub count: Option<usize>,
    /// The next key names a register.
    pub awaiting_register: bool,
    /// The next key is the pair to surround with.
    pub awaiting_surround: bool,
    /// Another key is waiting for a character.
    pub awaiting_char: Option<CharWait>,
    /// The search prompt is collecting a pattern for the selections.
    pub select_prompt: Option<SelectPrompt>,
    /// A key that acts on the line when pressed again, with its count.
    pub pending_line_op: Option<(char, usize)>,
    /// Set by selecting commands; after any other the selection collapses.
    pub keep_selection: bool,
    /// Motions grow the selection instead of replacing it.
    pub extend: bool,
    /// Motions stretch a rectangle.
    pub block: Option<Block>,
    /// The prompt is to select every match.
    pub search_select: bool,
    /// Anchor and cursor when the prompt opened.
    pub search_origin: (usize, usize),
}

pub struct KeysView {
    pub mode: Mode,
    pub pending: Seq<Key>,
    pub count: Option<usize>,
    pub awaiting_register: bool,
    pub awaiting_surround: bool,
    pub awaiting_char: Option<CharWait>,
    pub select_prompt: Option<SelectPrompt>,
    pub pending_line_op: Option<(char, usize)>,
    pub keep_selection: bool,
    pub extend: bool,
    pub block: Option<Block>,
    pub search_select: bool,
    pub search_origin: (usize, usize),
}

impl View for Keys {
    type V = KeysView;

    open spec fn view(&self) -> KeysView {
        KeysView {
            mode: self.mode,
            pending: self.pending@,
            count: self.count,
            awaiting_register: self.awaiting_register,
            awaiting_surround: self.awaiting_surround,
            awaiting_char: self.awaiting_char,
            select_prompt: self.select_prompt,
            pending_line_op: self.pending_line_op,
            keep_selection: self.keep_selection,
            extend: self.extend,
            block: self.block,
            search_select: self.search_select,
            search_origin: self.search_origin,
        }
    }
}

// ---- the lines of text ------------------------------------------------------------

pub struct Lines {
    pub command_line: String,
    /// Highlighted row of the suggestions; none until one is stepped to.
    pub command_suggest: Option<usize>,
    pub status: String,
    /// The last committed search pattern.
    pub last_search: String,
}

pub struct LinesView {
    pub command_line: Seq<char>,
    pub command_suggest: Option<usize>,
    pub status: Seq<char>,
    pub last_search: Seq<char>,
}

impl View for Lines {
    type V = LinesView;

    open spec fn view(&self) -> LinesView {
        LinesView {
            command_line: self.command_line@,
            command_suggest: self.command_suggest,
            status: self.status@,
            last_search: self.last_search@,
        }
    }
}

// ---- the completion menu ----------------------------------------------------------

pub struct Completion {
    /// (label, text to insert), narrowed to what is typed.
    pub items: Vec<(String, String)>,
    pub selected: usize,
    /// The word before the cursor when the menu appeared, and since.
    pub prefix: String,
    /// The list has been stepped into. Until then a menu that popped up by
    /// itself highlights nothing.
    pub navigated: bool,
    /// Documentation by label.
    pub docs: Vec<(String, String)>,
}

pub struct CompletionView {
    pub items: Seq<(Seq<char>, Seq<char>)>,
    pub selected: usize,
    pub prefix: Seq<char>,
    pub navigated: bool,
    pub docs: Seq<(Seq<char>, Seq<char>)>,
}

impl View for Completion {
    type V = CompletionView;

    open spec fn view(&self) -> CompletionView {
        CompletionView {
            items: text_pairs(self.items@),
            selected: self.selected,
            prefix: self.prefix@,
            navigated: self.navigated,
            docs: text_pairs(self.docs@),
        }
    }
}

// ---- the picker -------------------------------------------------------------------

/// A row of a picker.
pub struct Item {
    pub label: String,
    pub detail: String,
}

pub open spec fn item_views(v: Seq<Item>) -> Seq<(Seq<char>, Seq<char>)> {
    Seq::new(v.len(), |i: int| (v[i].label@, v[i].detail@))
}

/// What a picker picks.
pub enum PickerKind {
    Command,
    Theme { original: String },
    Files { root: String },
    Grep { root: String },
    Recent,
    Explorer { dir: String },
    Locations { locs: Vec<Location> },
    WorkspaceSymbols { locs: Vec<Location> },
    CodeActions { actions: Vec<Value> },
}

pub enum PickerKindView {
    Command,
    Theme { original: Seq<char> },
    Files { root: Seq<char> },
    Grep { root: Seq<char> },
    Recent,
    Explorer { dir: Seq<char> },
    Locations { locs: Seq<LocationView> },
    WorkspaceSymbols { locs: Seq<LocationView> },
    CodeActions { actions: Seq<Json> },
}

impl View for PickerKind {
    type V = PickerKindView;

    open spec fn view(&self) -> PickerKindView {
        match self {
            PickerKind::Command => PickerKindView::Command,
            PickerKind::Theme { original } => PickerKindView::Theme { original: original@ },
            PickerKind::Files { root } => PickerKindView::Files { root: root@ },
            PickerKind::Grep { root } => PickerKindView::Grep { root: root@ },
            PickerKind::Recent => PickerKindView::Recent,
            PickerKind::Explorer { dir } => PickerKindView::Explorer { dir: dir@ },
            PickerKind::Locations { locs } => PickerKindView::Locations {
                locs: location_views(locs@),
            },
            PickerKind::WorkspaceSymbols { locs } => PickerKindView::WorkspaceSymbols {
                locs: location_views(locs@),
            },
            PickerKind::CodeActions { actions } => PickerKindView::CodeActions {
                actions: jsons(actions@),
            },
        }
    }
}

pub struct Picker {
    pub title: String,
    pub kind: PickerKind,
    pub query: String,
    pub items: Vec<Item>,
    /// The items that match the query, best first.
    pub shown: Vec<usize>,
    pub selected: usize,
}

pub struct PickerView {
    pub title: Seq<char>,
    pub kind: PickerKindView,
    pub query: Seq<char>,
    pub items: Seq<(Seq<char>, Seq<char>)>,
    pub shown: Seq<usize>,
    pub selected: usize,
}

impl View for Picker {
    type V = PickerView;

    open spec fn view(&self) -> PickerView {
        PickerView {
            title: self.title@,
            kind: self.kind@,
            query: self.query@,
            items: item_views(self.items@),
            shown: self.shown@,
            selected: self.selected,
        }
    }
}

// ---- the panes over the text ------------------------------------------------------

pub struct Panes {
    pub completion: Option<Completion>,
    pub picker: Option<Picker>,
    /// The hover popup: its lines and its scroll.
    pub hover: Option<(Vec<String>, usize)>,
    /// The signature being typed, and where its active parameter stands.
    pub signature: Option<(String, Option<(usize, usize)>)>,
    /// Scroll of the help window.
    pub help_scroll: Option<usize>,
    /// The window of the markdown preview.
    pub preview: Option<usize>,
}

pub struct PanesView {
    pub completion: Option<CompletionView>,
    pub picker: Option<PickerView>,
    pub hover: Option<(Seq<Seq<char>>, usize)>,
    pub signature: Option<(Seq<char>, Option<(usize, usize)>)>,
    pub help_scroll: Option<usize>,
    pub preview: Option<usize>,
}

pub open spec fn completion_view(c: Option<Completion>) -> Option<CompletionView> {
    match c {
        Some(x) => Some(x@),
        None => None,
    }
}

pub open spec fn picker_view(p: Option<Picker>) -> Option<PickerView> {
    match p {
        Some(x) => Some(x@),
        None => None,
    }
}

pub open spec fn hover_view(h: Option<(Vec<String>, usize)>) -> Option<(Seq<Seq<char>>, usize)> {
    match h {
        Some((v, n)) => Some((texts(v@), n)),
        None => None,
    }
}

impl View for Panes {
    type V = PanesView;

    open spec fn view(&self) -> PanesView {
        PanesView {
            completion: completion_view(self.completion),
            picker: picker_view(self.picker),
            hover: hover_view(self.hover),
            signature: signature_view(self.signature),
            help_scroll: self.help_scroll,
            preview: self.preview,
        }
    }
}

// ---- the sidebar ------------------------------------------------------------------

/// A file operation begun from the sidebar.
pub enum TreeInput {
    /// Typing a name for something new in `dir`.
    Create { dir: String, name: String },
    /// Waiting for an answer on deleting.
    Delete { path: String },
    /// Editing a new name.
    Rename { path: String, name: String },
}

pub enum TreeInputView {
    Create { dir: Seq<char>, name: Seq<char> },
    Delete { path: Seq<char> },
    Rename { path: Seq<char>, name: Seq<char> },
}

impl View for TreeInput {
    type V = TreeInputView;

    open spec fn view(&self) -> TreeInputView {
        match self {
            TreeInput::Create { dir, name } => TreeInputView::Create { dir: dir@, name: name@ },
            TreeInput::Delete { path } => TreeInputView::Delete { path: path@ },
            TreeInput::Rename { path, name } => TreeInputView::Rename { path: path@, name: name@ },
        }
    }
}

pub struct Sidebar {
    pub tree: Option<FileTree>,
    /// Keys go to the tree.
    pub focused: bool,
    /// A space was pressed in the tree.
    pub leader: bool,
    pub input: Option<TreeInput>,
    /// A path, and whether pasting moves it.
    pub clipboard: Option<(String, bool)>,
}

pub struct SidebarView {
    pub tree: Option<TreeView>,
    pub focused: bool,
    pub leader: bool,
    pub input: Option<TreeInputView>,
    pub clipboard: Option<(Seq<char>, bool)>,
}

pub open spec fn tree_view(t: Option<FileTree>) -> Option<TreeView> {
    match t {
        Some(x) => Some(x@),
        None => None,
    }
}

pub open spec fn tree_input_view(t: Option<TreeInput>) -> Option<TreeInputView> {
    match t {
        Some(x) => Some(x@),
        None => None,
    }
}

pub open spec fn clip_view(c: Option<(String, bool)>) -> Option<(Seq<char>, bool)> {
    match c {
        Some((p, b)) => Some((p@, b)),
        None => None,
    }
}

impl View for Sidebar {
    type V = SidebarView;

    open spec fn view(&self) -> SidebarView {
        SidebarView {
            tree: tree_view(self.tree),
            focused: self.focused,
            leader: self.leader,
            input: tree_input_view(self.input),
            clipboard: clip_view(self.clipboard),
        }
    }
}

// ---- the shell --------------------------------------------------------------------

pub struct Shell {
    /// A shell is running, shown or not.
    pub running: bool,
    /// The window that shows it.
    pub win: Option<usize>,
    /// The rows of its screen.
    pub rows: u16,
    /// A prefix key waiting for the next one.
    pub pending: Option<Key>,
    /// An install in the terminal: the program, and whether the terminal was
    /// started for it.
    pub install: Option<(String, bool)>,
}

pub struct ShellView {
    pub running: bool,
    pub win: Option<usize>,
    pub rows: u16,
    pub pending: Option<Key>,
    pub install: Option<(Seq<char>, bool)>,
}

impl View for Shell {
    type V = ShellView;

    open spec fn view(&self) -> ShellView {
        ShellView {
            running: self.running,
            win: self.win,
            rows: self.rows,
            pending: self.pending,
            install: clip_view(self.install),
        }
    }
}

// ---- the language servers ---------------------------------------------------------

pub struct Servers {
    /// One client for each command that is needed.
    pub clients: Vec<Client>,
    /// File extension and server command, as configured.
    pub table: Vec<(String, String)>,
    /// Commands that could not be started or have died.
    pub failed: Vec<String>,
    /// The diagnostics of each file.
    pub diagnostics: Vec<(String, Vec<Diagnostic>)>,
    /// A completion request owed to the server.
    pub completion_pending: Option<Tag>,
    /// Signature help owed to the server.
    pub signature_pending: bool,
    /// A formatting request under way: the buffer and its revision then.
    pub pending_format: Option<(usize, u64)>,
    /// The file that symbols were asked for.
    pub symbols_path: Option<String>,
}

pub struct ServersView {
    pub clients: Seq<ClientView>,
    pub table: Seq<(Seq<char>, Seq<char>)>,
    pub failed: Seq<Seq<char>>,
    pub diagnostics: Seq<(Seq<char>, Seq<DiagnosticView>)>,
    pub completion_pending: Option<Tag>,
    pub signature_pending: bool,
    pub pending_format: Option<(usize, u64)>,
    pub symbols_path: Option<Seq<char>>,
}

pub open spec fn client_views(v: Seq<Client>) -> Seq<ClientView> {
    Seq::new(v.len(), |i: int| v[i]@)
}

pub open spec fn file_diagnostics(v: Seq<(String, Vec<Diagnostic>)>) -> Seq<
    (Seq<char>, Seq<DiagnosticView>),
> {
    Seq::new(v.len(), |i: int| (v[i].0@, diagnostic_views(v[i].1@)))
}

impl View for Servers {
    type V = ServersView;

    open spec fn view(&self) -> ServersView {
        ServersView {
            clients: client_views(self.clients@),
            table: text_pairs(self.table@),
            failed: texts(self.failed@),
            diagnostics: file_diagnostics(self.diagnostics@),
            completion_pending: self.completion_pending,
            signature_pending: self.signature_pending,
            pending_format: self.pending_format,
            symbols_path: opt_text(self.symbols_path),
        }
    }
}

// ---- tools ------------------------------------------------------------------------

/// What a registry knows of a dependency.
pub struct DepInfo {
    pub kind: Kind,
    pub name: String,
    pub installed: Option<String>,
    pub latest: Option<String>,
}

pub struct DepInfoView {
    pub kind: Kind,
    pub name: Seq<char>,
    pub installed: Option<Seq<char>>,
    pub latest: Option<Seq<char>>,
}

impl View for DepInfo {
    type V = DepInfoView;

    open spec fn view(&self) -> DepInfoView {
        DepInfoView {
            kind: self.kind,
            name: self.name@,
            installed: opt_text(self.installed),
            latest: opt_text(self.latest),
        }
    }
}

pub open spec fn dep_info_views(v: Seq<DepInfo>) -> Seq<DepInfoView> {
    Seq::new(v.len(), |i: int| v[i]@)
}

pub open spec fn offer_view(o: Option<(String, String)>) -> Option<(Seq<char>, Seq<char>)> {
    match o {
        Some((a, b)) => Some((a@, b@)),
        None => None,
    }
}

pub struct Tools {
    /// An offer to install; the next key answers it: program and command.
    pub pending_install: Option<(String, String)>,
    /// The program being installed in the background.
    pub installing: Option<String>,
    /// What is known of dependencies; of two entries the later one counts.
    pub dep_info: Vec<DepInfo>,
    /// The file and revision that could not be written of itself, so that it
    /// is not tried and reported again at every turn.
    pub autosave_failed: Option<(String, u64)>,
}

pub struct ToolsView {
    pub pending_install: Option<(Seq<char>, Seq<char>)>,
    pub installing: Option<Seq<char>>,
    pub dep_info: Seq<DepInfoView>,
    pub autosave_failed: Option<(Seq<char>, u64)>,
}

impl View for Tools {
    type V = ToolsView;

    open spec fn view(&self) -> ToolsView {
        ToolsView {
            pending_install: offer_view(self.pending_install),
            installing: opt_text(self.installing),
            dep_info: dep_info_views(self.dep_info@),
            autosave_failed: match self.autosave_failed {
                Some((p, r)) => Some((p@, r)),
                None => None,
            },
        }
    }
}

// ---- the keymaps ------------------------------------------------------------------

pub struct Keymaps {
    pub normal: KeyTrie,
    pub insert: KeyTrie,
}

pub struct KeymapsView {
    pub normal: Trie,
    pub insert: Trie,
}

impl View for Keymaps {
    type V = KeymapsView;

    open spec fn view(&self) -> KeymapsView {
        KeymapsView { normal: self.normal@, insert: self.insert@ }
    }
}

impl Keymaps {
    pub open spec fn wf(&self) -> bool {
        self.normal.wf() && self.insert.wf()
    }
}

// ---- what is asked of the outside -------------------------------------------------

/// What a file is opened for.
#[derive(Clone, Copy, PartialEq, Eq, Structural, Debug)]
pub enum Opening {
    /// To be edited, as was asked by name.
    Edit,
    /// To be shown at a line and a UTF-16 column.
    Jump { line: usize, col: usize },
    /// To be shown at its start, by its name among the recent files, where
    /// `~/` stands for the home directory.
    Recent,
    /// The configuration.
    Config,
}

/// What the editor asks of the outside: files, processes, the clipboard, the
/// screen. The answers come back through the methods that take them.
pub enum Effect {
    /// Put the text on the system clipboard.
    Clipboard(String),
    /// Write the buffer in front, formatting it first where that is wanted,
    /// and quit if it was written and that is asked.
    Save { force: bool, quit: bool },
    /// Write the buffer in front to a path.
    SaveAs { path: String, force: bool },
    /// Write every modified buffer.
    WriteAll,
    /// Open a file, or the buffer that has it.
    Open { path: String, what: Opening },
    /// Read the file of the buffer in front again.
    Reload,
    /// Read the swap file of the buffer in front.
    Recover,
    /// Delete the swap file of the buffer in front.
    DropSwap,
    /// Run the formatter over the buffer in front.
    Format,
    /// Read the configuration again.
    LoadConfig,
    /// Draw with another theme.
    Theme(String),
    /// Fill and open a picker.
    Pick(PickList),
    /// Bring the buffers and their language servers in step, then ask what the
    /// command asks.
    AskServer(Command),
    /// Ask for the symbols of the project that match a query.
    AskSymbols(String),
    /// Ask for the documentation of a completion.
    AskDocs(String),
    /// Ask for a new name of what is under the cursor.
    AskRename(String),
    /// Carry out a code action.
    RunAction(Value),
    /// Browse a directory in a picker.
    Explore { dir: String },
    /// Open the tree on the working directory.
    OpenTree,
    /// Read the directories that the tree shows.
    ListTree,
    TreeCreate { dir: String, name: String },
    TreeRename { path: String, name: String },
    TreeDelete { path: String },
    TreePaste { path: String, cut: bool, dir: String },
    /// Start a shell of this size.
    StartShell { width: u16, height: u16 },
    /// Start a shell of this size for one command, which ends with it.
    RunInShell { script: String, width: u16, height: u16 },
    /// The shell's screen has another size.
    ResizeShell { width: u16, height: u16 },
    /// A key for the shell.
    ShellKey(Key),
    /// Text for the shell.
    ShellText(String),
    /// Scroll the shell's history, back where it is positive.
    ShellScroll(isize),
    /// Hang up on the shell.
    CloseShell,
    /// Files may have changed on disk.
    CheckDisk,
    /// Run a command in the background, for the program it installs.
    Install { program: String, cmd: String },
    /// Whether a program can be run; with its installer, if it has one.
    FindTool { name: String, lsp_only: bool },
    /// The files of a directory, for the path being typed.
    CompletePath { dir: String, prefix: String },
    /// Grow the selection to the enclosing syntax node.
    ExpandSelection,
    /// Select an object of the syntax tree at every selection.
    SyntaxObject { name: char, inside: bool },
    /// Go to the next stretch changed since the last seal, or the one before.
    GotoChange { forward: bool },
}

/// What a picker is filled with from outside.
#[derive(Clone, Copy, PartialEq, Eq, Structural, Debug)]
pub enum PickList {
    Commands,
    Themes,
    Files,
    Recent,
    Grep,
    Explorer,
}

pub enum EffectView {
    Clipboard(Seq<char>),
    Save { force: bool, quit: bool },
    SaveAs { path: Seq<char>, force: bool },
    WriteAll,
    Open { path: Seq<char>, what: Opening },
    Reload,
    Recover,
    DropSwap,
    Format,
    LoadConfig,
    Theme(Seq<char>),
    Pick(PickList),
    AskServer(Command),
    AskSymbols(Seq<char>),
    AskDocs(Seq<char>),
    AskRename(Seq<char>),
    RunAction(Json),
    Explore { dir: Seq<char> },
    OpenTree,
    ListTree,
    TreeCreate { dir: Seq<char>, name: Seq<char> },
    TreeRename { path: Seq<char>, name: Seq<char> },
    TreeDelete { path: Seq<char> },
    TreePaste { path: Seq<char>, cut: bool, dir: Seq<char> },
    StartShell { width: u16, height: u16 },
    RunInShell { script: Seq<char>, width: u16, height: u16 },
    ResizeShell { width: u16, height: u16 },
    ShellKey(Key),
    ShellText(Seq<char>),
    ShellScroll(isize),
    CloseShell,
    CheckDisk,
    Install { program: Seq<char>, cmd: Seq<char> },
    FindTool { name: Seq<char>, lsp_only: bool },
    CompletePath { dir: Seq<char>, prefix: Seq<char> },
    ExpandSelection,
    SyntaxObject { name: char, inside: bool },
    GotoChange { forward: bool },
}

impl View for Effect {
    type V = EffectView;

    open spec fn view(&self) -> EffectView {
        match self {
            Effect::Clipboard(t) => EffectView::Clipboard(t@),
            Effect::Save { force, quit } => EffectView::Save { force: *force, quit: *quit },
            Effect::SaveAs { path, force } => EffectView::SaveAs { path: path@, force: *force },
            Effect::WriteAll => EffectView::WriteAll,
            Effect::Open { path, what } => EffectView::Open { path: path@, what: *what },
            Effect::Reload => EffectView::Reload,
            Effect::Recover => EffectView::Recover,
            Effect::DropSwap => EffectView::DropSwap,
            Effect::Format => EffectView::Format,
            Effect::LoadConfig => EffectView::LoadConfig,
            Effect::Theme(t) => EffectView::Theme(t@),
            Effect::Pick(p) => EffectView::Pick(*p),
            Effect::AskServer(c) => EffectView::AskServer(*c),
            Effect::AskSymbols(q) => EffectView::AskSymbols(q@),
            Effect::AskDocs(l) => EffectView::AskDocs(l@),
            Effect::AskRename(n) => EffectView::AskRename(n@),
            Effect::RunAction(v) => EffectView::RunAction(json_of(*v)),
            Effect::Explore { dir } => EffectView::Explore { dir: dir@ },
            Effect::OpenTree => EffectView::OpenTree,
            Effect::ListTree => EffectView::ListTree,
            Effect::TreeCreate { dir, name } => EffectView::TreeCreate { dir: dir@, name: name@ },
            Effect::TreeRename { path, name } => EffectView::TreeRename {
                path: path@,
                name: name@,
            },
            Effect::TreeDelete { path } => EffectView::TreeDelete { path: path@ },
            Effect::TreePaste { path, cut, dir } => EffectView::TreePaste {
                path: path@,
                cut: *cut,
                dir: dir@,
            },
            Effect::StartShell { width, height } => EffectView::StartShell {
                width: *width,
                height: *height,
            },
            Effect::RunInShell { script, width, height } => EffectView::RunInShell {
                script: script@,
                width: *width,
                height: *height,
            },
            Effect::ResizeShell { width, height } => EffectView::ResizeShell {
                width: *width,
                height: *height,
            },
            Effect::ShellKey(k) => EffectView::ShellKey(*k),
            Effect::ShellText(t) => EffectView::ShellText(t@),
            Effect::ShellScroll(n) => EffectView::ShellScroll(*n),
            Effect::CloseShell => EffectView::CloseShell,
            Effect::CheckDisk => EffectView::CheckDisk,
            Effect::Install { program, cmd } => EffectView::Install {
                program: program@,
                cmd: cmd@,
            },
            Effect::FindTool { name, lsp_only } => EffectView::FindTool {
                name: name@,
                lsp_only: *lsp_only,
            },
            Effect::CompletePath { dir, prefix } => EffectView::CompletePath {
                dir: dir@,
                prefix: prefix@,
            },
            Effect::ExpandSelection => EffectView::ExpandSelection,
            Effect::SyntaxObject { name, inside } => EffectView::SyntaxObject {
                name: *name,
                inside: *inside,
            },
            Effect::GotoChange { forward } => EffectView::GotoChange { forward: *forward },
        }
    }
}

pub open spec fn effect_views(v: Seq<Effect>) -> Seq<EffectView> {
    Seq::new(v.len(), |i: int| v[i]@)
}

} // verus!
