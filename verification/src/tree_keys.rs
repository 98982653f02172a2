//! The sidebar's keys, and the file operations begun from it.

use vstd::prelude::*;
use crate::document::{file_name, file_name_of};
use crate::editor::{asking, said, Editor, EditorView};
use crate::filetree::{collapsed, landing, moved, selected_of, toggled, FileTree, TreeView};
use crate::keymap::{Key, KeyCode};
use crate::paths::{is_same_path, join_path, joined_path, parent, parent_of, same_path};
use crate::prompts::{char_of_key, plain_char, with_char, without_last_char};
use crate::run::{hidden_toggled, tree_toggled};
use crate::state::{
    clip_view, tree_input_view, tree_view, Effect, EffectView, Opening, SidebarView, TreeInput,
    TreeInputView,
};
use crate::strings::{chars_of, same, string_of, text_between, trim, trimmed};

verus! {

// ---- small changes ----------------------------------------------------------------

pub open spec fn with_tree(e: EditorView, t: TreeView) -> EditorView {
    EditorView { sidebar: SidebarView { tree: Some(t), ..e.sidebar }, ..e }
}

pub open spec fn tree_focus(e: EditorView, on: bool) -> EditorView {
    EditorView { sidebar: SidebarView { focused: on, ..e.sidebar }, ..e }
}

pub open spec fn tree_asked(e: EditorView, i: Option<TreeInputView>) -> EditorView {
    EditorView { sidebar: SidebarView { input: i, ..e.sidebar }, ..e }
}

pub open spec fn tree_closed(e: EditorView) -> EditorView {
    EditorView { sidebar: SidebarView { tree: None, focused: false, ..e.sidebar }, ..e }
}

pub open spec fn with_leader(e: EditorView, on: bool) -> EditorView {
    EditorView { sidebar: SidebarView { leader: on, ..e.sidebar }, ..e }
}

/// A tree that has to be read again, where what it shows changed.
pub open spec fn listed(e: EditorView) -> EditorView {
    asking(e, EffectView::ListTree)
}

impl Editor {
    pub(crate) fn put_tree(&mut self, t: FileTree)
        requires
            old(self).wf(),
        ensures
            final(self)@ == with_tree(old(self)@, t@),
            final(self).wf(),
    {
        self.sidebar.tree = Some(t);
    }

    pub(crate) fn take_tree(&mut self) -> (r: Option<FileTree>)
        requires
            old(self).wf(),
        ensures
            tree_view(r) == old(self)@.sidebar.tree,
            final(self)@ == (EditorView {
                sidebar: SidebarView { tree: None, ..old(self)@.sidebar },
                ..old(self)@
            }),
            final(self).wf(),
    {
        self.sidebar.tree.take()
    }

    fn set_tree_input(&mut self, i: Option<TreeInput>)
        requires
            old(self).wf(),
        ensures
            final(self)@ == tree_asked(old(self)@, tree_input_view(i)),
            final(self).wf(),
    {
        self.sidebar.input = i;
    }

    fn set_leader(&mut self, on: bool)
        requires
            old(self).wf(),
        ensures
            final(self)@ == with_leader(old(self)@, on),
            final(self).wf(),
    {
        self.sidebar.leader = on;
    }

    pub(crate) fn set_clipboard(&mut self, c: Option<(String, bool)>)
        requires
            old(self).wf(),
        ensures
            final(self)@ == (EditorView {
                sidebar: SidebarView { clipboard: clip_view(c), ..old(self)@.sidebar },
                ..old(self)@
            }),
            final(self).wf(),
    {
        self.sidebar.clipboard = c;
    }

    /// Open the tree on a directory.
    pub fn open_tree(&mut self, root: String)
        requires
            old(self).wf(),
        ensures
            final(self)@ == listed(with_tree(old(self)@, crate::filetree::new_tree(root@))),
            final(self).wf(),
    {
        let t = FileTree::new(root);
        self.put_tree(t);
        self.ask(Effect::ListTree);
    }
}

// ---- keys of the tree -------------------------------------------------------------

/// What a key means to the tree.
#[derive(Clone, Copy, PartialEq, Eq, Structural)]
pub enum TreeKey {
    Leave,
    Toggle,
    Close,
    Up,
    Down,
    Collapse,
    Reload,
    Hidden,
    Rename,
    Create,
    Delete,
    Cut,
    Copy,
    Paste,
    Open,
    Nothing,
}

pub open spec fn tree_key(key: Key) -> TreeKey {
    match key.code {
        KeyCode::Esc => TreeKey::Leave,
        KeyCode::Right => if key.ctrl {
            TreeKey::Leave
        } else {
            TreeKey::Open
        },
        KeyCode::Left => TreeKey::Collapse,
        KeyCode::Up => TreeKey::Up,
        KeyCode::Down => TreeKey::Down,
        KeyCode::Enter => TreeKey::Open,
        KeyCode::Char(c) => if c == 'l' && key.ctrl {
            TreeKey::Leave
        } else if c == 't' && key.ctrl {
            TreeKey::Toggle
        } else if c == 'q' {
            TreeKey::Close
        } else if c == 'k' {
            TreeKey::Up
        } else if c == 'j' {
            TreeKey::Down
        } else if c == 'h' {
            TreeKey::Collapse
        } else if c == 'R' {
            TreeKey::Reload
        } else if c == '.' {
            TreeKey::Hidden
        } else if c == 'r' {
            TreeKey::Rename
        } else if c == 'a' {
            TreeKey::Create
        } else if c == 'd' {
            TreeKey::Delete
        } else if c == 'x' {
            TreeKey::Cut
        } else if c == 'c' {
            TreeKey::Copy
        } else if c == 'p' {
            TreeKey::Paste
        } else if c == 'l' {
            TreeKey::Open
        } else {
            TreeKey::Nothing
        },
        _ => TreeKey::Nothing,
    }
}

fn read_tree_key(key: Key) -> (r: TreeKey)
    ensures
        r == tree_key(key),
{
    match key.code {
        KeyCode::Esc => TreeKey::Leave,
        KeyCode::Right => if key.ctrl {
            TreeKey::Leave
        } else {
            TreeKey::Open
        },
        KeyCode::Left => TreeKey::Collapse,
        KeyCode::Up => TreeKey::Up,
        KeyCode::Down => TreeKey::Down,
        KeyCode::Enter => TreeKey::Open,
        KeyCode::Char(c) => if c == 'l' && key.ctrl {
            TreeKey::Leave
        } else if c == 't' && key.ctrl {
            TreeKey::Toggle
        } else if c == 'q' {
            TreeKey::Close
        } else if c == 'k' {
            TreeKey::Up
        } else if c == 'j' {
            TreeKey::Down
        } else if c == 'h' {
            TreeKey::Collapse
        } else if c == 'R' {
            TreeKey::Reload
        } else if c == '.' {
            TreeKey::Hidden
        } else if c == 'r' {
            TreeKey::Rename
        } else if c == 'a' {
            TreeKey::Create
        } else if c == 'd' {
            TreeKey::Delete
        } else if c == 'x' {
            TreeKey::Cut
        } else if c == 'c' {
            TreeKey::Copy
        } else if c == 'p' {
            TreeKey::Paste
        } else if c == 'l' {
            TreeKey::Open
        } else {
            TreeKey::Nothing
        },
        _ => TreeKey::Nothing,
    }
}

/// A prompt for renaming, creating or deleting at the selected row; nothing is
/// renamed or deleted at the root.
#[verifier::opaque]
pub open spec fn tree_prompted(e: EditorView, t: TreeView, k: TreeKey) -> EditorView {
    if k == TreeKey::Create {
        tree_asked(e, Some(TreeInputView::Create { dir: landing(t), name: Seq::empty() }))
    } else {
        match selected_of(t) {
            None => e,
            Some(row) => if row.path == t.root {
                said(
                    e,
                    if k == TreeKey::Rename {
                        "the root can't be renamed from here"@
                    } else {
                        "not deleting the project root"@
                    },
                )
            } else if k == TreeKey::Rename {
                tree_asked(e, Some(TreeInputView::Rename { path: row.path, name: row.name }))
            } else {
                tree_asked(e, Some(TreeInputView::Delete { path: row.path }))
            },
        }
    }
}

/// The selected row cut or copied, to be pasted.
#[verifier::opaque]
pub open spec fn tree_clipped(e: EditorView, t: TreeView, cut: bool) -> EditorView {
    match selected_of(t) {
        None => e,
        Some(row) => if row.path == t.root {
            said(e, "the root can't be cut or copied"@)
        } else {
            said(
                EditorView {
                    sidebar: SidebarView { clipboard: Some((row.path, cut)), ..e.sidebar },
                    ..e
                },
                (if cut {
                    "cut "@
                } else {
                    "copied "@
                }) + row.name + " — p pastes"@,
            )
        },
    }
}

/// What was cut or copied pasted where something new would go.
#[verifier::opaque]
pub open spec fn tree_pasted(e: EditorView, t: TreeView) -> EditorView {
    match e.sidebar.clipboard {
        None => said(e, "nothing cut or copied"@),
        Some((src, cut)) => match file_name_of(src) {
            None => e,
            Some(name) => if same_path(joined_path(landing(t), name), src) {
                said(e, "already there"@)
            } else {
                asking(e, EffectView::TreePaste { path: src, cut, dir: landing(t) })
            },
        },
    }
}

/// The selected row opened: a directory shown or hidden, a file put in front.
#[verifier::opaque]
pub open spec fn row_opened(e: EditorView, t: TreeView) -> EditorView {
    match selected_of(t) {
        None => e,
        Some(row) => if row.is_dir {
            listed(with_tree(e, toggled(t)))
        } else {
            asking(
                tree_focus(e, false),
                EffectView::Open { path: row.path, what: Opening::Jump { line: 0, col: 0 } },
            )
        },
    }
}

/// Whether the selected row is a directory that is shown open.
pub open spec fn shows_open(t: TreeView) -> bool {
    match selected_of(t) {
        Some(row) => row.is_dir && row.expanded,
        None => false,
    }
}

/// A key of the tree.
#[verifier::opaque]
pub open spec fn tree_ran(e: EditorView, t: TreeView, k: TreeKey) -> EditorView {
    match k {
        TreeKey::Leave => tree_focus(e, false),
        TreeKey::Toggle => tree_toggled(e),
        TreeKey::Close => tree_closed(e),
        TreeKey::Up => with_tree(e, moved(t, -1)),
        TreeKey::Down => with_tree(e, moved(t, 1)),
        TreeKey::Collapse => if shows_open(t) {
            listed(with_tree(e, collapsed(t)))
        } else {
            with_tree(e, collapsed(t))
        },
        TreeKey::Reload => listed(e),
        TreeKey::Hidden => hidden_toggled(e),
        TreeKey::Rename | TreeKey::Create | TreeKey::Delete => tree_prompted(e, t, k),
        TreeKey::Cut => tree_clipped(e, t, true),
        TreeKey::Copy => tree_clipped(e, t, false),
        TreeKey::Paste => tree_pasted(e, t),
        TreeKey::Open => row_opened(e, t),
        TreeKey::Nothing => e,
    }
}

impl Editor {
    fn selected(&self) -> (r: Option<(String, String, bool, bool)>)
        ensures
            match (r, self@.sidebar.tree) {
                (Some((path, name, is_dir, is_root)), Some(t)) => match selected_of(t) {
                    Some(row) => row.path == path@ && row.name == name@ && row.is_dir == is_dir
                        && is_root == (row.path == t.root),
                    None => false,
                },
                (None, Some(t)) => selected_of(t) is None,
                (r, None) => r is None,
            },
    {
        match &self.sidebar.tree {
            Some(t) => match t.selected_row() {
                Some(row) => {
                    let is_root = same(row.path.as_str(), t.root.as_str());
                    Some(
                        (
                            row.path.as_str().to_owned(),
                            row.name.as_str().to_owned(),
                            row.is_dir,
                            is_root,
                        ),
                    )
                },
                None => None,
            },
            None => None,
        }
    }

    fn selected_is_open(&self) -> (r: bool)
        requires
            self@.sidebar.tree is Some,
        ensures
            r == shows_open(self@.sidebar.tree->0),
    {
        match &self.sidebar.tree {
            Some(t) => match t.selected_row() {
                Some(row) => row.is_dir && row.expanded,
                None => false,
            },
            None => false,
        }
    }

    fn landing(&self) -> (r: String)
        requires
            self@.sidebar.tree is Some,
        ensures
            r@ == landing(self@.sidebar.tree->0),
    {
        match &self.sidebar.tree {
            Some(t) => t.landing(),
            None => String::new(),
        }
    }

    fn prompt_tree(&mut self, k: TreeKey)
        requires
            old(self).wf(),
            old(self)@.sidebar.tree is Some,
        ensures
            final(self)@ == tree_prompted(old(self)@, old(self)@.sidebar.tree->0, k),
            final(self).wf(),
    {
        reveal(tree_prompted);
        if k == TreeKey::Create {
            let dir = self.landing();
            let name = String::new();
            assert(name@ =~= Seq::empty());
            self.set_tree_input(Some(TreeInput::Create { dir, name }));
            return ;
        }
        if let Some((path, name, _, is_root)) = self.selected() {
            if is_root {
                if k == TreeKey::Rename {
                    self.set_status("the root can't be renamed from here");
                    return ;
                }
                self.set_status("not deleting the project root");
                return ;
            }
            if k == TreeKey::Rename {
                self.set_tree_input(Some(TreeInput::Rename { path, name }));
                return ;
            }
            self.set_tree_input(Some(TreeInput::Delete { path }));
            return ;
        }
    }

    fn clip_tree(&mut self, cut: bool)
        requires
            old(self).wf(),
            old(self)@.sidebar.tree is Some,
        ensures
            final(self)@ == tree_clipped(old(self)@, old(self)@.sidebar.tree->0, cut),
            final(self).wf(),
    {
        reveal(tree_clipped);
        if let Some((path, name, _, is_root)) = self.selected() {
            if is_root {
                self.set_status("the root can't be cut or copied");
                return ;
            }
            let m = text_between(
                if cut {
                    "cut "
                } else {
                    "copied "
                },
                name.as_str(),
                " — p pastes",
            );
            self.set_clipboard(Some((path, cut)));
            self.set_status(m.as_str());
            return ;
        }
    }

    fn clipboard(&self) -> (r: Option<(String, bool)>)
        ensures
            clip_view(r) == self@.sidebar.clipboard,
    {
        match &self.sidebar.clipboard {
            Some(c) => Some((c.0.as_str().to_owned(), c.1)),
            None => None,
        }
    }

    fn paste_tree(&mut self)
        requires
            old(self).wf(),
            old(self)@.sidebar.tree is Some,
        ensures
            final(self)@ == tree_pasted(old(self)@, old(self)@.sidebar.tree->0),
            final(self).wf(),
    {
        reveal(tree_pasted);
        let (src, cut) = match self.clipboard() {
            Some(c) => c,
            None => {
                self.set_status("nothing cut or copied");
                return ;
            },
        };
        let dir = self.landing();
        let name = match file_name(src.as_str()) {
            Some(n) => n,
            None => {
                return ;
            },
        };
        let target = join_path(dir.as_str(), name.as_str());
        if is_same_path(target.as_str(), src.as_str()) {
            self.set_status("already there");
            return ;
        }
        self.ask(Effect::TreePaste { path: src, cut, dir });
    }

    fn change_tree(&mut self, k: TreeKey)
        requires
            old(self).wf(),
            old(self)@.sidebar.tree is Some,
        ensures
            final(self)@ == ({
                let t = old(self)@.sidebar.tree->0;
                with_tree(
                    old(self)@,
                    match k {
                        TreeKey::Up => moved(t, -1),
                        TreeKey::Down => moved(t, 1),
                        TreeKey::Collapse => collapsed(t),
                        _ => toggled(t),
                    },
                )
            }),
            final(self).wf(),
    {
        if let Some(t) = self.take_tree() {
            let mut t = t;
            match k {
                TreeKey::Up => t.move_selection(-1),
                TreeKey::Down => t.move_selection(1),
                TreeKey::Collapse => t.collapse_or_parent(),
                _ => t.toggle_selected(),
            }
            self.put_tree(t);
        }
    }

    fn open_row(&mut self)
        requires
            old(self).wf(),
            old(self)@.sidebar.tree is Some,
        ensures
            final(self)@ == row_opened(old(self)@, old(self)@.sidebar.tree->0),
            final(self).wf(),
    {
        reveal(row_opened);
        if let Some((path, _, is_dir, _)) = self.selected() {
            if is_dir {
                self.change_tree(TreeKey::Open);
                self.ask(Effect::ListTree);
                return ;
            }
            self.set_tree_focus(false);
            self.ask(Effect::Open { path, what: Opening::Jump { line: 0, col: 0 } });
            return ;
        }
    }

    fn run_tree_key(&mut self, k: TreeKey)
        requires
            old(self).wf(),
            old(self)@.sidebar.tree is Some,
        ensures
            final(self)@ == tree_ran(old(self)@, old(self)@.sidebar.tree->0, k),
            final(self).wf(),
    {
        reveal(tree_ran);
        match k {
            TreeKey::Leave => {
                self.set_tree_focus(false);
                return ;
            },
            TreeKey::Toggle => {
                self.tree_toggle();
                return ;
            },
            TreeKey::Close => {
                self.drop_tree();
                return ;
            },
            TreeKey::Up | TreeKey::Down => {
                self.change_tree(k);
                return ;
            },
            TreeKey::Collapse => {
                let closing = self.selected_is_open();
                self.change_tree(k);
                if closing {
                    self.ask(Effect::ListTree);
                }
                return ;
            },
            TreeKey::Reload => {
                self.ask(Effect::ListTree);
                return ;
            },
            TreeKey::Hidden => {
                self.toggle_hidden();
                return ;
            },
            TreeKey::Rename | TreeKey::Create | TreeKey::Delete => {
                self.prompt_tree(k);
                return ;
            },
            TreeKey::Cut => {
                self.clip_tree(true);
                return ;
            },
            TreeKey::Copy => {
                self.clip_tree(false);
                return ;
            },
            TreeKey::Paste => {
                self.paste_tree();
                return ;
            },
            TreeKey::Open => {
                self.open_row();
                return ;
            },
            TreeKey::Nothing => {},
        }
    }
}

// ---- keys of a prompt -------------------------------------------------------------

/// What a key makes of a name being typed: nothing where it ends the prompt.
pub open spec fn name_keyed(name: Seq<char>, key: Key) -> Seq<char> {
    match key.code {
        KeyCode::Backspace => if name.len() > 0 {
            name.drop_last()
        } else {
            name
        },
        _ => match plain_char(key) {
            Some(c) => name.push(c),
            None => name,
        },
    }
}

fn key_name(name: &str, key: Key) -> (r: String)
    ensures
        r@ == name_keyed(name@, key),
{
    if key.code == KeyCode::Backspace {
        return match without_last_char(name) {
            Some(t) => t,
            None => name.to_owned(),
        };
    }
    match char_of_key(key) {
        Some(c) => with_char(name, c),
        None => name.to_owned(),
    }
}

/// A key while the sidebar waited for a name or an answer.
#[verifier::opaque]
pub open spec fn tree_input_keyed(e: EditorView, input: TreeInputView, key: Key) -> EditorView {
    match input {
        TreeInputView::Create { dir, name } => if key.code == KeyCode::Esc {
            e
        } else if key.code == KeyCode::Enter {
            if trim(name).len() == 0 {
                e
            } else {
                asking(e, EffectView::TreeCreate { dir, name: trim(name) })
            }
        } else {
            tree_asked(e, Some(TreeInputView::Create { dir, name: name_keyed(name, key) }))
        },
        TreeInputView::Delete { path } => if key.code == KeyCode::Char('y') {
            asking(e, EffectView::TreeDelete { path })
        } else {
            e
        },
        TreeInputView::Rename { path, name } => if key.code == KeyCode::Esc {
            e
        } else if key.code == KeyCode::Enter {
            if trim(name).len() == 0 || same_path(joined_path(up_from(path), trim(name)), path) {
                e
            } else {
                asking(e, EffectView::TreeRename { path, name: trim(name) })
            }
        } else {
            tree_asked(e, Some(TreeInputView::Rename { path, name: name_keyed(name, key) }))
        },
    }
}

/// The directory that a path lies in.
pub open spec fn up_from(path: Seq<char>) -> Seq<char> {
    match parent_of(path) {
        Some(d) => d,
        None => Seq::empty(),
    }
}

pub fn directory_of(path: &str) -> (r: String)
    ensures
        r@ == up_from(path@),
{
    match parent(path) {
        Some(d) => d,
        None => {
            let none = String::new();
            assert(none@ =~= Seq::empty());
            none
        },
    }
}

impl Editor {
    fn take_tree_input(&mut self) -> (r: Option<TreeInput>)
        requires
            old(self).wf(),
        ensures
            tree_input_view(r) == old(self)@.sidebar.input,
            final(self)@ == tree_asked(old(self)@, None),
            final(self).wf(),
    {
        self.sidebar.input.take()
    }

    fn key_tree_input(&mut self, input: TreeInput, key: Key)
        requires
            old(self).wf(),
        ensures
            final(self)@ == tree_input_keyed(old(self)@, input@, key),
            final(self).wf(),
    {
        reveal(tree_input_keyed);
        match input {
            TreeInput::Create { dir, name } => {
                if key.code == KeyCode::Esc {
                    return ;
                }
                if key.code == KeyCode::Enter {
                    let c = chars_of(name.as_str());
                    let t = trimmed(&c);
                    if t.len() == 0 {
                        return ;
                    }
                    let name = string_of(t);
                    self.ask(Effect::TreeCreate { dir, name });
                    return ;
                }
                let name = key_name(name.as_str(), key);
                self.set_tree_input(Some(TreeInput::Create { dir, name }));
                return ;
            },
            TreeInput::Delete { path } => {
                if key.code == KeyCode::Char('y') {
                    self.ask(Effect::TreeDelete { path });
                    return ;
                }
                return ;
            },
            TreeInput::Rename { path, name } => {
                if key.code == KeyCode::Esc {
                    return ;
                }
                if key.code == KeyCode::Enter {
                    let c = chars_of(name.as_str());
                    let t = trimmed(&c);
                    if t.len() == 0 {
                        return ;
                    }
                    let name = string_of(t);
                    let dir = directory_of(path.as_str());
                    let target = join_path(dir.as_str(), name.as_str());
                    if is_same_path(target.as_str(), path.as_str()) {
                        return ;
                    }
                    self.ask(Effect::TreeRename { path, name });
                    return ;
                }
                let name = key_name(name.as_str(), key);
                self.set_tree_input(Some(TreeInput::Rename { path, name }));
                return ;
            },
        }
    }
}

/// A key while the sidebar has the focus. A space leads to the key that closes
/// it.
#[verifier::opaque]
pub open spec fn tree_keyed(e: EditorView, key: Key) -> EditorView {
    match e.sidebar.input {
        Some(input) => tree_input_keyed(tree_asked(e, None), input, key),
        None => if e.sidebar.leader {
            let l = with_leader(e, false);
            if plain_char(key) == Some('e') {
                tree_toggled(l)
            } else {
                l
            }
        } else if plain_char(key) == Some(' ') {
            with_leader(e, true)
        } else {
            match e.sidebar.tree {
                Some(t) => tree_ran(e, t, tree_key(key)),
                None => tree_focus(e, false),
            }
        },
    }
}

impl Editor {
    /// A key while the sidebar has the focus.
    pub(crate) fn handle_tree_key(&mut self, key: Key)
        requires
            old(self).wf(),
        ensures
            final(self)@ == tree_keyed(old(self)@, key),
            final(self).wf(),
    {
        reveal(tree_keyed);
        if self.sidebar.input.is_some() {
            if let Some(input) = self.take_tree_input() {
                self.key_tree_input(input, key);
            }
            return ;
        }
        let typed = char_of_key(key);
        if self.sidebar.leader {
            self.set_leader(false);
            if let Some(c) = typed {
                if c == 'e' {
                    self.tree_toggle();
                    return ;
                }
            }
            return ;
        }
        if let Some(c) = typed {
            if c == ' ' {
                self.set_leader(true);
                return ;
            }
        }
        if self.sidebar.tree.is_none() {
            self.set_tree_focus(false);
            return ;
        }
        self.run_tree_key(read_tree_key(key));
    }
}

} // verus!
