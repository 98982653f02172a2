//! The picker's keys, and what accepting does.

use vstd::prelude::*;
use crate::commands::{find, found, Command};
use crate::config::OptionsView;
use crate::desk::Dir;
use crate::dispatch::ran;
use crate::editor::{asking, said, Editor, EditorView};
use crate::ex::register_freshened;
use crate::keymap::{Key, KeyCode};
use crate::lsp_parse::{location_views, Location};
use crate::motions::max_of;
use crate::paths::{join_path, joined_path, parent, parent_of};
use crate::picker::{chosen, chosen_label, one_row, picker_closed, refilled, requeried, row_moved};
use crate::prompts::{bare_mode, with_char, without_last_char};
use crate::run::left_focused;
use crate::servers::front_client;
use crate::state::{
    item_views, picker_view, Effect, EffectView, Item, Mode, Opening, PanesView, PickList, Picker,
    PickerKind, PickerKindView, PickerView,
};
use crate::strings::{
    chars_of, find_last, last_before, parse_number, read_usize, same, string_of, strip_suffix,
    with_text, without_suffix,
};
use crate::windows::focus_towards;

verus! {

pub open spec fn with_picker(e: EditorView, p: Option<PickerView>) -> EditorView {
    EditorView { panes: PanesView { picker: p, ..e.panes }, ..e }
}

/// Drawing with a theme.
pub open spec fn themed(e: EditorView, name: Seq<char>) -> EditorView {
    asking(
        EditorView { options: OptionsView { theme: name, ..e.options }, ..e },
        EffectView::Theme(name),
    )
}

/// A file to be shown at a line and a UTF-16 column.
pub open spec fn jumping(e: EditorView, path: Seq<char>, line: usize, col: usize) -> EditorView {
    asking(e, EffectView::Open { path, what: Opening::Jump { line, col } })
}

/// A picker given up; a theme that was tried goes with it.
#[verifier::opaque]
pub open spec fn picker_cancelled(e: EditorView, kind: PickerKindView) -> EditorView {
    match kind {
        PickerKindView::Theme { original } => picker_closed(themed(e, original)),
        _ => picker_closed(e),
    }
}

/// A picker shown, with the theme that it highlights.
#[verifier::opaque]
pub open spec fn picker_shown(e: EditorView, p: PickerView) -> EditorView {
    let w = with_picker(e, Some(p));
    match (p.kind, chosen_label(p)) {
        (PickerKindView::Theme { original }, Some(label)) => themed(w, label),
        _ => w,
    }
}

/// Another query: ranked anew, and what is searched for outside asked for.
#[verifier::opaque]
pub open spec fn picker_queried(e: EditorView, p: PickerView, query: Seq<char>) -> EditorView {
    let r = requeried(p, query);
    let s = picker_shown(e, r);
    match p.kind {
        PickerKindView::WorkspaceSymbols { locs } => if front_client(s) is Some {
            asking(s, EffectView::AskSymbols(query))
        } else {
            s
        },
        PickerKindView::Grep { root } => asking(s, EffectView::Pick(PickList::Grep)),
        _ => s,
    }
}

/// A backspace with nothing typed: the directory above, where directories are
/// browsed.
#[verifier::opaque]
pub open spec fn picker_up(e: EditorView, p: PickerView) -> EditorView {
    let w = with_picker(e, Some(p));
    match p.kind {
        PickerKindView::Explorer { dir } => match parent_of(dir) {
            Some(d) => asking(w, EffectView::Explore { dir: d }),
            None => w,
        },
        _ => w,
    }
}

/// The file and the line of a hit, written as `path:line`.
pub open spec fn hit_of(label: Seq<char>) -> Option<(Seq<char>, usize)> {
    let k = last_before(label, ':', label.len() as int);
    if 0 <= k < label.len() {
        let n = match parse_number(label.skip(k + 1), usize::MAX as nat) {
            Some(n) => n as int,
            None => 1,
        };
        Some((label.take(k), max_of(n - 1, 0) as usize))
    } else {
        None
    }
}

/// A directory's entry picked.
#[verifier::opaque]
pub open spec fn entry_picked(e: EditorView, dir: Seq<char>, label: Seq<char>) -> EditorView {
    if label == "../"@ {
        match parent_of(dir) {
            Some(d) => asking(e, EffectView::Explore { dir: d }),
            None => e,
        }
    } else {
        match without_suffix(label, "/"@) {
            Some(sub) => asking(e, EffectView::Explore { dir: joined_path(dir, sub) }),
            None => jumping(e, joined_path(dir, label), 0, 0),
        }
    }
}

/// What picking an item does, once the picker is closed.
#[verifier::opaque]
pub open spec fn picked(
    e: EditorView,
    kind: PickerKindView,
    label: Seq<char>,
    index: int,
) -> EditorView {
    match kind {
        PickerKindView::Locations { locs } => if index < locs.len() {
            jumping(e, locs[index].path, locs[index].line, locs[index].col)
        } else {
            e
        },
        PickerKindView::WorkspaceSymbols { locs } => if index < locs.len() {
            jumping(e, locs[index].path, locs[index].line, locs[index].col)
        } else {
            e
        },
        PickerKindView::CodeActions { actions } => if index < actions.len() {
            asking(e, EffectView::RunAction(actions[index]))
        } else {
            e
        },
        PickerKindView::Command => match found(label) {
            Some(c) => ran(register_freshened(e), c),
            None => e,
        },
        PickerKindView::Theme { original } => said(themed(e, label), "theme: "@ + label),
        PickerKindView::Files { root } => jumping(e, joined_path(root, label), 0, 0),
        PickerKindView::Grep { root } => match hit_of(label) {
            Some((path, line)) => jumping(e, joined_path(root, path), line, 0),
            None => e,
        },
        PickerKindView::Recent => asking(
            e,
            EffectView::Open { path: label, what: Opening::Recent },
        ),
        PickerKindView::Explorer { dir } => entry_picked(e, dir, label),
    }
}

#[verifier::opaque]
pub open spec fn picker_accepted(e: EditorView, p: PickerView) -> EditorView {
    match (chosen(p), chosen_label(p)) {
        (Some(index), Some(label)) => picked(picker_closed(e), p.kind, label, index as int),
        _ => picker_closed(e),
    }
}

/// What a key means to the picker.
#[derive(Clone, Copy, PartialEq, Eq, Structural)]
pub enum PickKey {
    Cancel,
    CancelLeft,
    CancelRight,
    Accept,
    Move(bool),
    Back,
    Type(char),
    Nothing,
}

pub open spec fn pick_key(key: Key) -> PickKey {
    match key.code {
        KeyCode::Esc => PickKey::Cancel,
        KeyCode::Left => if key.ctrl {
            PickKey::CancelLeft
        } else {
            PickKey::Nothing
        },
        KeyCode::Right => if key.ctrl {
            PickKey::CancelRight
        } else {
            PickKey::Nothing
        },
        KeyCode::Enter => PickKey::Accept,
        KeyCode::Down => PickKey::Move(true),
        KeyCode::Up => PickKey::Move(false),
        KeyCode::Backspace => PickKey::Back,
        KeyCode::Char(c) => if key.ctrl && c == 'h' {
            PickKey::CancelLeft
        } else if key.ctrl && c == 'l' {
            PickKey::CancelRight
        } else if key.ctrl && c == 'n' {
            PickKey::Move(true)
        } else if key.ctrl && c == 'p' {
            PickKey::Move(false)
        } else if !key.ctrl && !key.alt {
            PickKey::Type(c)
        } else {
            PickKey::Nothing
        },
        _ => PickKey::Nothing,
    }
}

fn read_pick_key(key: Key) -> (r: PickKey)
    ensures
        r == pick_key(key),
{
    match key.code {
        KeyCode::Esc => PickKey::Cancel,
        KeyCode::Left => if key.ctrl {
            PickKey::CancelLeft
        } else {
            PickKey::Nothing
        },
        KeyCode::Right => if key.ctrl {
            PickKey::CancelRight
        } else {
            PickKey::Nothing
        },
        KeyCode::Enter => PickKey::Accept,
        KeyCode::Down => PickKey::Move(true),
        KeyCode::Up => PickKey::Move(false),
        KeyCode::Backspace => PickKey::Back,
        KeyCode::Char(c) => if key.ctrl && c == 'h' {
            PickKey::CancelLeft
        } else if key.ctrl && c == 'l' {
            PickKey::CancelRight
        } else if key.ctrl && c == 'n' {
            PickKey::Move(true)
        } else if key.ctrl && c == 'p' {
            PickKey::Move(false)
        } else if !key.ctrl && !key.alt {
            PickKey::Type(c)
        } else {
            PickKey::Nothing
        },
        _ => PickKey::Nothing,
    }
}

/// A key of a picker.
#[verifier::opaque]
pub open spec fn picker_ran(e: EditorView, p: PickerView, k: PickKey) -> EditorView {
    match k {
        PickKey::Cancel => picker_cancelled(e, p.kind),
        PickKey::CancelLeft => left_focused(picker_cancelled(e, p.kind)),
        PickKey::CancelRight => focus_towards(picker_cancelled(e, p.kind), Dir::Right),
        PickKey::Accept => picker_accepted(e, p),
        PickKey::Move(down) => picker_shown(e, row_moved(p, one_row(down))),
        PickKey::Back => if p.query.len() > 0 {
            picker_queried(e, p, p.query.drop_last())
        } else {
            picker_up(e, p)
        },
        PickKey::Type(c) => picker_queried(e, p, p.query.push(c)),
        PickKey::Nothing => with_picker(e, Some(p)),
    }
}

#[verifier::opaque]
pub open spec fn picker_keyed(e: EditorView, key: Key) -> EditorView {
    match e.panes.picker {
        Some(p) => picker_ran(with_picker(e, None), p, pick_key(key)),
        None => bare_mode(e, Mode::Normal),
    }
}

fn read_hit(label: &str) -> (r: Option<(String, usize)>)
    ensures
        match r {
            Some((p, n)) => hit_of(label@) == Some((p@, n)),
            None => hit_of(label@) is None,
        },
{
    let v = chars_of(label);
    match find_last(&v, ':') {
        Some(k) => {
            let path = string_of(vstd::slice::slice_subrange(v.as_slice(), 0, k));
            let rest = vstd::slice::slice_subrange(v.as_slice(), k + 1, v.len());
            assert(path@ =~= label@.take(k as int));
            assert(rest@ =~= label@.skip(k + 1));
            let n: usize = match read_usize(rest) {
                Some(n) => n,
                None => 1,
            };
            let line: usize = if n > 0 {
                n - 1
            } else {
                0
            };
            Some((path, line))
        },
        None => None,
    }
}

impl Editor {
    fn show_theme(&mut self, name: String)
        requires
            old(self).wf(),
        ensures
            final(self)@ == themed(old(self)@, name@),
            final(self).wf(),
    {
        self.put_theme(name.as_str().to_owned());
        self.ask(Effect::Theme(name));
    }

    /// Ask for a file to be shown.
    pub(crate) fn ask_jump(&mut self, path: String, line: usize, col: usize)
        requires
            old(self).wf(),
        ensures
            final(self)@ == jumping(old(self)@, path@, line, col),
            final(self).wf(),
    {
        self.ask(Effect::Open { path, what: Opening::Jump { line, col } });
    }

    fn cancel_picker(&mut self, kind: PickerKind)
        requires
            old(self).wf(),
        ensures
            final(self)@ == picker_cancelled(old(self)@, kind@),
            final(self).wf(),
    {
        reveal(picker_cancelled);
        if let PickerKind::Theme { original } = kind {
            self.show_theme(original);
            self.close_picker();
            return ;
        }
        self.close_picker();
    }

    fn show_picker(&mut self, p: Picker)
        requires
            old(self).wf(),
        ensures
            final(self)@ == picker_shown(old(self)@, p@),
            final(self).wf(),
    {
        reveal(picker_shown);
        let theme = match &p.kind {
            PickerKind::Theme { original } => match p.selected_item() {
                Some(l) => Some(l.as_str().to_owned()),
                None => None,
            },
            _ => None,
        };
        self.put_picker(Some(p));
        if let Some(name) = theme {
            self.show_theme(name);
        }
    }

    fn query_picker(&mut self, p: Picker, query: String)
        requires
            old(self).wf(),
        ensures
            final(self)@ == picker_queried(old(self)@, p@, query@),
            final(self).wf(),
    {
        reveal(picker_queried);
        let mut p = p;
        let kind: u8 = match &p.kind {
            PickerKind::WorkspaceSymbols { locs } => 1,
            PickerKind::Grep { root } => 2,
            _ => 0,
        };
        let q = query.as_str().to_owned();
        p.requery(query);
        self.show_picker(p);
        if kind == 1 {
            if self.lsp_active() {
                self.ask(Effect::AskSymbols(q));
            }
            return ;
        }
        if kind == 2 {
            self.ask(Effect::Pick(PickList::Grep));
        }
    }

    fn go_up(&mut self, p: Picker)
        requires
            old(self).wf(),
        ensures
            final(self)@ == picker_up(old(self)@, p@),
            final(self).wf(),
    {
        reveal(picker_up);
        let above = match &p.kind {
            PickerKind::Explorer { dir } => parent(dir.as_str()),
            _ => None,
        };
        self.put_picker(Some(p));
        if let Some(dir) = above {
            self.ask(Effect::Explore { dir });
        }
    }

    fn pick_entry(&mut self, dir: &str, label: &str)
        requires
            old(self).wf(),
        ensures
            final(self)@ == entry_picked(old(self)@, dir@, label@),
            final(self).wf(),
    {
        reveal(entry_picked);
        if same(label, "../") {
            if let Some(d) = parent(dir) {
                self.ask(Effect::Explore { dir: d });
                return ;
            }
            return ;
        }
        let v = chars_of(label);
        if let Some(sub) = strip_suffix(&v, "/") {
            let s = string_of(sub);
            let d = join_path(dir, s.as_str());
            self.ask(Effect::Explore { dir: d });
            return ;
        }
        let path = join_path(dir, label);
        self.ask_jump(path, 0, 0);
    }

    fn pick_location(&mut self, locs: &Vec<Location>, index: usize)
        requires
            old(self).wf(),
        ensures
            final(self)@ == (if index < locs@.len() {
                let l = location_views(locs@)[index as int];
                jumping(old(self)@, l.path, l.line, l.col)
            } else {
                old(self)@
            }),
            final(self).wf(),
    {
        if index < locs.len() {
            let path = locs[index].path.as_str().to_owned();
            let line = locs[index].line;
            let col = locs[index].col;
            self.ask_jump(path, line, col);
        }
    }

    fn run_by_label(&mut self, label: &str)
        requires
            old(self).wf(),
        ensures
            final(self)@ == (match found(label@) {
                Some(c) => ran(register_freshened(old(self)@), c),
                None => old(self)@,
            }),
            final(self).wf(),
    {
        if let Some(c) = find(label) {
            self.freshen_register();
            self.run_once(c);
        }
    }

    fn pick(&mut self, kind: PickerKind, label: String, index: usize)
        requires
            old(self).wf(),
        ensures
            final(self)@ == picked(old(self)@, kind@, label@, index as int),
            final(self).wf(),
    {
        reveal(picked);
        match kind {
            PickerKind::Locations { locs } => {
                self.pick_location(&locs, index);
                return ;
            },
            PickerKind::WorkspaceSymbols { locs } => {
                self.pick_location(&locs, index);
                return ;
            },
            PickerKind::CodeActions { actions } => {
                let mut actions = actions;
                if index < actions.len() {
                    let a = actions.remove(index);
                    self.ask(Effect::RunAction(a));
                }
                return ;
            },
            PickerKind::Command => {
                self.run_by_label(label.as_str());
                return ;
            },
            PickerKind::Theme { original } => {
                let m = with_text("theme: ", label.as_str());
                self.show_theme(label);
                self.set_status(m.as_str());
                return ;
            },
            PickerKind::Files { root } => {
                let path = join_path(root.as_str(), label.as_str());
                self.ask_jump(path, 0, 0);
                return ;
            },
            PickerKind::Grep { root } => {
                if let Some((p, line)) = read_hit(label.as_str()) {
                    let path = join_path(root.as_str(), p.as_str());
                    self.ask_jump(path, line, 0);
                }
                return ;
            },
            PickerKind::Recent => {
                self.ask(Effect::Open { path: label, what: Opening::Recent });
                return ;
            },
            PickerKind::Explorer { dir } => {
                self.pick_entry(dir.as_str(), label.as_str());
                return ;
            },
        }
    }

    fn accept_picked(&mut self, p: Picker)
        requires
            old(self).wf(),
        ensures
            final(self)@ == picker_accepted(old(self)@, p@),
            final(self).wf(),
    {
        reveal(picker_accepted);
        let label = match p.selected_item() {
            Some(l) => Some(l.as_str().to_owned()),
            None => None,
        };
        let index = p.selected_index();
        self.close_picker();
        if let Some(i) = index {
            if let Some(l) = label {
                self.pick(p.kind, l, i);
                return ;
            }
        }
    }

    fn key_picker(&mut self, p: Picker, k: PickKey)
        requires
            old(self).wf(),
        ensures
            final(self)@ == picker_ran(old(self)@, p@, k),
            final(self).wf(),
    {
        reveal(picker_ran);
        match k {
            PickKey::Cancel => {
                self.cancel_picker(p.kind);
                return ;
            },
            PickKey::CancelLeft => {
                self.cancel_picker(p.kind);
                self.focus_left();
                return ;
            },
            PickKey::CancelRight => {
                self.cancel_picker(p.kind);
                let _moved = self.focus_window_dir(Dir::Right);
                return ;
            },
            PickKey::Accept => {
                self.accept_picked(p);
                return ;
            },
            PickKey::Move(down) => {
                let mut p = p;
                p.move_selection(
                    if down {
                        1
                    } else {
                        -1
                    },
                );
                self.show_picker(p);
                return ;
            },
            PickKey::Back => {
                match without_last_char(p.query.as_str()) {
                    Some(q) => {
                        self.query_picker(p, q);
                    },
                    None => {
                        self.go_up(p);
                    },
                }
                return ;
            },
            PickKey::Type(c) => {
                let q = with_char(p.query.as_str(), c);
                self.query_picker(p, q);
                return ;
            },
            PickKey::Nothing => {
                self.put_picker(Some(p));
                return ;
            },
        }
    }

    fn take_picker(&mut self) -> (r: Option<Picker>)
        requires
            old(self).wf(),
        ensures
            picker_view(r) == old(self)@.panes.picker,
            final(self)@ == with_picker(old(self)@, None),
            final(self).wf(),
    {
        self.panes.picker.take()
    }

    /// A key while a picker is open.
    pub(crate) fn handle_picker_key(&mut self, key: Key)
        requires
            old(self).wf(),
        ensures
            final(self)@ == picker_keyed(old(self)@, key),
            final(self).wf(),
    {
        reveal(picker_keyed);
        if self.panes.picker.is_none() {
            self.set_bare_mode(Mode::Normal);
            return ;
        }
        if let Some(p) = self.take_picker() {
            self.key_picker(p, read_pick_key(key));
        }
    }

    /// Fill the open picker anew, for what is typed in it.
    pub fn refill_picker(&mut self, kind: PickerKind, items: Vec<Item>)
        requires
            old(self).wf(),
        ensures
            final(self)@ == (match old(self)@.panes.picker {
                Some(p) => with_picker(
                    old(self)@,
                    Some(refilled(p, kind@, item_views(items@))),
                ),
                None => old(self)@,
            }),
            final(self).wf(),
    {
        if self.panes.picker.is_none() {
            return ;
        }
        if let Some(p) = self.take_picker() {
            let mut p = p;
            p.refill(kind, items);
            self.put_picker(Some(p));
        }
    }
}

} // verus!
