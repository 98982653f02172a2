//! A new editor, and a changed configuration taken in.

use vstd::prelude::*;
use crate::config::{copy_pairs, Config, ConfigView, Options, OptionsView};
use crate::desk::{doc_ok, doc_views, Desk, DeskView};
use crate::document::{empty_doc, DocView, Document};
use crate::editor::{desk_sound, keymaps_sound, Editor, EditorView};
use crate::jumps::{Jumps, JumpsView};
use crate::keymaps::{configured, keymaps_from, unknown_commands};
use crate::layout::{ids, Layout, Tree, WinView, Window};
use crate::registers::{no_registers, Registers};
use crate::repeat::{nothing_recorded, Recorder};
use crate::state::{
    effect_views, Keys, KeysView, Lines, LinesView, Mode, Panes, PanesView, Servers, ServersView,
    Shell, ShellView, Sidebar, SidebarView, Tools, ToolsView,
};
use crate::strings::{join_texts, joined, text_pairs, texts, with_text};

verus! {

/// A single window on the first buffer.
pub open spec fn first_window() -> Tree {
    Tree::Leaf(
        WinView {
            id: 0,
            doc: 0,
            cursor: 0,
            anchor: 0,
            extra: Seq::empty(),
            view_line: 0,
            view_row: 0,
            view_col: 0,
        },
    )
}

pub open spec fn new_desk(docs: Seq<DocView>) -> DeskView {
    DeskView {
        docs: if docs.len() == 0 {
            seq![empty_doc()]
        } else {
            docs
        },
        current: 0,
        layout: first_window(),
        focused: 0,
        next_id: 1,
    }
}

pub open spec fn new_keys() -> KeysView {
    KeysView {
        mode: Mode::Normal,
        pending: Seq::empty(),
        count: None,
        awaiting_register: false,
        awaiting_surround: false,
        awaiting_char: None,
        select_prompt: None,
        pending_line_op: None,
        keep_selection: false,
        extend: false,
        block: None,
        search_select: false,
        search_origin: (0, 0),
    }
}

/// What the status line says of bindings to commands that there are not.
pub open spec fn unknown_text(names: Seq<Seq<char>>) -> Seq<char> {
    if names.len() == 0 {
        Seq::empty()
    } else {
        "crow.toml: unknown command(s): "@ + joined(names, ", "@, names.len())
    }
}

pub open spec fn new_panes() -> PanesView {
    PanesView {
        completion: None,
        picker: None,
        hover: None,
        signature: None,
        help_scroll: None,
        preview: None,
    }
}

pub open spec fn no_servers(table: Seq<(Seq<char>, Seq<char>)>) -> ServersView {
    ServersView {
        clients: Seq::empty(),
        table,
        failed: Seq::empty(),
        diagnostics: Seq::empty(),
        completion_pending: None,
        signature_pending: false,
        pending_format: None,
        symbols_path: None,
    }
}

/// A new editor on some buffers, or on an empty one.
pub open spec fn new_editor(
    docs: Seq<DocView>,
    size: (u16, u16),
    config: ConfigView,
    options: OptionsView,
) -> EditorView {
    EditorView {
        desk: new_desk(docs),
        keys: new_keys(),
        lines: LinesView {
            command_line: Seq::empty(),
            command_suggest: None,
            status: unknown_text(unknown_commands(config)),
            last_search: Seq::empty(),
        },
        registers: no_registers(),
        recorder: nothing_recorded(),
        jumps: JumpsView { list: Seq::empty(), at: 0 },
        panes: new_panes(),
        sidebar: SidebarView {
            tree: None,
            focused: false,
            leader: false,
            input: None,
            clipboard: None,
        },
        shell: ShellView { running: false, win: None, rows: 0, pending: None, install: None },
        servers: no_servers(config.lsp),
        tools: ToolsView {
            pending_install: None,
            installing: None,
            dep_info: Seq::empty(),
            autosave_failed: None,
        },
        options,
        keymaps: configured(config),
        size,
        splash: docs.len() == 0,
        should_quit: false,
        quit_discarding: false,
        mouse_drag: false,
        effects: Seq::empty(),
    }
}

fn make_desk(documents: Vec<Document>) -> (r: Desk)
    requires
        forall|i: int| 0 <= i < documents@.len() ==> doc_ok((#[trigger] documents@[i])@),
    ensures
        r@ == new_desk(doc_views(documents@)),
        desk_sound(r@),
{
    reveal(desk_sound);
    let mut documents = documents;
    let ghost had = documents@;
    if documents.len() == 0 {
        documents.push(Document::empty());
        assert(doc_views(documents@) =~= seq![empty_doc()]);
    }
    let extra: Vec<(usize, usize)> = Vec::new();
    assert(extra@ =~= Seq::empty());
    let layout = Layout::Leaf(
        Window {
            id: 0,
            doc: 0,
            cursor: 0,
            anchor: 0,
            extra,
            view_line: 0,
            view_row: 0,
            view_col: 0,
        },
    );
    let r = Desk { documents, current: 0, layout, focused: 0, next_window_id: 1 };
    assert(r@.layout == first_window());
    assert(ids(first_window()) =~= seq![0usize]);
    assert(ids(first_window())[0] == 0usize);
    assert forall|i: int| 0 <= i < r@.docs.len() implies doc_ok(#[trigger] r@.docs[i]) by {
        if had.len() > 0 {
            assert(r@.docs[i] == had[i]@);
        }
    }
    r
}

fn make_keys() -> (r: Keys)
    ensures
        r@ == new_keys(),
{
    let r = Keys {
        mode: Mode::Normal,
        pending: Vec::new(),
        count: None,
        awaiting_register: false,
        awaiting_surround: false,
        awaiting_char: None,
        select_prompt: None,
        pending_line_op: None,
        keep_selection: false,
        extend: false,
        block: None,
        search_select: false,
        search_origin: (0, 0),
    };
    assert(r.pending@ =~= Seq::empty());
    r
}

fn make_servers(table: Vec<(String, String)>) -> (r: Servers)
    ensures
        r@ == no_servers(text_pairs(table@)),
{
    let r = Servers {
        clients: Vec::new(),
        table,
        failed: Vec::new(),
        diagnostics: Vec::new(),
        completion_pending: None,
        signature_pending: false,
        pending_format: None,
        symbols_path: None,
    };
    assert(r@.clients =~= Seq::empty());
    assert(r@.failed =~= Seq::empty());
    assert(r@.diagnostics =~= Seq::empty());
    r
}

fn say_unknown(bad: &Vec<String>) -> (r: String)
    ensures
        r@ == unknown_text(texts(bad@)),
{
    assert(texts(bad@).len() == bad@.len());
    if bad.len() == 0 {
        let none = String::new();
        assert(none@ =~= Seq::empty());
        return none;
    }
    let list = join_texts(bad, ", ");
    with_text("crow.toml: unknown command(s): ", list.as_str())
}

fn make_lines(status: String) -> (r: Lines)
    ensures
        r@ == (LinesView {
            command_line: Seq::empty(),
            command_suggest: None,
            status: status@,
            last_search: Seq::empty(),
        }),
{
    let r = Lines {
        command_line: String::new(),
        command_suggest: None,
        status,
        last_search: String::new(),
    };
    assert(r.command_line@ =~= Seq::empty());
    assert(r.last_search@ =~= Seq::empty());
    r
}

fn make_tools() -> (r: Tools)
    ensures
        r@ == (ToolsView {
            pending_install: None,
            installing: None,
            dep_info: Seq::empty(),
            autosave_failed: None,
        }),
{
    let r = Tools {
        pending_install: None,
        installing: None,
        dep_info: Vec::new(),
        autosave_failed: None,
    };
    assert(r@.dep_info =~= Seq::empty());
    r
}

impl Editor {
    /// A new editor on some buffers, or on an empty one, with the options as
    /// they are in force.
    pub fn new(
        documents: Vec<Document>,
        size: (u16, u16),
        config: &Config,
        options: Options,
    ) -> (r: Self)
        requires
            forall|i: int| 0 <= i < documents@.len() ==> doc_ok((#[trigger] documents@[i])@),
        ensures
            r@ == new_editor(doc_views(documents@), size, config@, options@),
            r.wf(),
    {
        reveal(keymaps_sound);
        let splash = documents.len() == 0;
        let (keymaps, bad) = keymaps_from(config);
        let status = say_unknown(&bad);
        let r = Editor {
            desk: make_desk(documents),
            keys: make_keys(),
            lines: make_lines(status),
            registers: Registers::new(),
            recorder: Recorder::new(),
            jumps: Jumps::new(),
            panes: Panes {
                completion: None,
                picker: None,
                hover: None,
                signature: None,
                help_scroll: None,
                preview: None,
            },
            sidebar: Sidebar {
                tree: None,
                focused: false,
                leader: false,
                input: None,
                clipboard: None,
            },
            shell: Shell { running: false, win: None, rows: 0, pending: None, install: None },
            servers: make_servers(copy_pairs(&config.lsp)),
            tools: make_tools(),
            options,
            keymaps,
            size,
            splash,
            should_quit: false,
            quit_discarding: false,
            mouse_drag: false,
            effects: Vec::new(),
        };
        assert(effect_views(r.effects@) =~= Seq::empty());
        r
    }
}

} // verus!
