//! What the screen and the background need of the buffers: the lines to
//! color, the screen's size, what is to be parsed again, and the manifests to
//! look up.

use vstd::prelude::*;
use crate::deps::{kind_of_file, manifest_kind, Kind};
use crate::document::{file_name, file_name_of, Document};
use crate::editor::{windows_of, Editor, EditorView};
use crate::files::doc_at;
use crate::layout::{window_in, Rect};
use crate::state::{dep_info_views, DepInfo, ToolsView};
use crate::strings::texts;

verus! {

// ---- the lines to color -----------------------------------------------------------

/// The buffer that a window shows and its first line, where there is such a
/// window.
pub open spec fn window_top(e: EditorView, id: usize) -> Option<(usize, usize)> {
    if id == e.desk.focused {
        Some((e.desk.current, doc_at(e, e.desk.current as int).view_line))
    } else {
        match window_in(e.desk.layout, id) {
            Some(w) => Some(
                (
                    if w.doc < e.desk.docs.len() {
                        w.doc
                    } else {
                        (e.desk.docs.len() - 1) as usize
                    },
                    w.view_line,
                ),
            ),
            None => None,
        }
    }
}

pub open spec fn line_below(first: usize, rows: u16) -> usize {
    if first + rows > usize::MAX {
        usize::MAX
    } else {
        (first + rows) as usize
    }
}

/// A stretch of a buffer's lines put to those already wanted of it.
pub open spec fn with_range(
    v: Seq<(usize, (usize, usize))>,
    doc: usize,
    want: (usize, usize),
    i: int,
) -> Seq<(usize, (usize, usize))>
    decreases v.len() - i,
{
    if i < 0 || i >= v.len() {
        v.push((doc, want))
    } else if v[i].0 == doc {
        v.update(
            i,
            (
                doc,
                (
                    if v[i].1.0 < want.0 {
                        v[i].1.0
                    } else {
                        want.0
                    },
                    if v[i].1.1 > want.1 {
                        v[i].1.1
                    } else {
                        want.1
                    },
                ),
            ),
        )
    } else {
        with_range(v, doc, want, i + 1)
    }
}

/// The lines that the first `n` windows show, by buffer.
pub open spec fn ranges_upto(e: EditorView, wins: Seq<(usize, Rect)>, n: nat) -> Seq<
    (usize, (usize, usize)),
>
    decreases n,
{
    if n == 0 || n > wins.len() {
        Seq::empty()
    } else {
        let rest = ranges_upto(e, wins, (n - 1) as nat);
        match window_top(e, wins[n - 1].0) {
            Some((doc, first)) => with_range(
                rest,
                doc,
                (first, line_below(first, (wins[n - 1].1).3)),
                0,
            ),
            None => rest,
        }
    }
}

fn put_range(v: &mut Vec<(usize, (usize, usize))>, doc: usize, want: (usize, usize))
    ensures
        final(v)@ == with_range(old(v)@, doc, want, 0),
{
    let ghost had = v@;
    let mut i: usize = 0;
    while i < v.len()
        invariant
            v@ == had,
            had == old(v)@,
            i <= had.len(),
            with_range(had, doc, want, 0) == with_range(had, doc, want, i as int),
        decreases had.len() - i,
    {
        let (d, r) = v[i];
        if d == doc {
            let from: usize = if r.0 < want.0 {
                r.0
            } else {
                want.0
            };
            let to: usize = if r.1 > want.1 {
                r.1
            } else {
                want.1
            };
            v.set(i, (doc, (from, to)));
            assert(v@ =~= had.update(i as int, (doc, (from, to))));
            return ;
        }
        i += 1;
    }
    v.push((doc, want));
}

impl Editor {
    fn top_of(&self, id: usize) -> (r: Option<(usize, usize)>)
        requires
            self.wf(),
        ensures
            r == window_top(self@, id),
    {
        reveal(crate::editor::desk_sound);
        if id == self.desk.focused {
            return Some((self.desk.current, self.doc().view_line));
        }
        match self.desk.layout.find(id) {
            Some(w) => {
                let n = self.desk.documents.len();
                let doc: usize = if w.doc < n {
                    w.doc
                } else {
                    n - 1
                };
                Some((doc, w.view_line))
            },
            None => None,
        }
    }

    /// The lines about to be drawn, by buffer: two windows on one buffer share
    /// its colors, so of both what lies between.
    pub fn refresh_highlights(&self) -> (r: Vec<(usize, (usize, usize))>)
        requires
            self.wf(),
        ensures
            r@ == ranges_upto(self@, windows_of(self@), windows_of(self@).len()),
    {
        let (wins, _lines) = self.window_rects();
        let mut out: Vec<(usize, (usize, usize))> = Vec::new();
        let mut n: usize = 0;
        while n < wins.len()
            invariant
                self.wf(),
                wins@ == windows_of(self@),
                n <= wins@.len(),
                out@ == ranges_upto(self@, wins@, n as nat),
            decreases wins@.len() - n,
        {
            let (id, rect) = wins[n];
            if let Some((doc, first)) = self.top_of(id) {
                let last: usize = first.saturating_add(rect.3 as usize);
                put_range(&mut out, doc, (first, last));
            }
            n += 1;
        }
        out
    }
}

// ---- the screen's size ------------------------------------------------------------

impl Editor {
    /// The window of the markdown preview.
    pub fn preview_win(&self) -> (r: Option<usize>)
        ensures
            r == self@.panes.preview,
    {
        self.panes.preview
    }

    /// The window of the shell.
    pub fn terminal_win(&self) -> (r: Option<usize>)
        ensures
            r == self@.shell.win,
    {
        self.shell.win
    }

    /// The screen has another size, as (columns, rows).
    pub fn resize(&mut self, size: (u16, u16))
        requires
            old(self).wf(),
        ensures
            final(self)@ == (EditorView { size, ..old(self)@ }),
            final(self).wf(),
    {
        self.size = size;
    }
}

// ---- parsing ----------------------------------------------------------------------

impl Editor {
    /// Whether a buffer is owed a parse.
    pub fn needs_reparse(&self) -> (r: bool)
        requires
            self.wf(),
        ensures
            r == (exists|i: int|
                0 <= i < self@.desk.docs.len() && (#[trigger] self@.desk.docs[i]).syntax_dirty),
    {
        let n = self.desk.documents.len();
        let mut i: usize = 0;
        assert(n == self@.desk.docs.len());
        while i < n
            invariant
                self.wf(),
                i <= n,
                n == self@.desk.docs.len(),
                forall|k: int| 0 <= k < i ==> !(#[trigger] self@.desk.docs[k]).syntax_dirty,
            decreases n - i,
        {
            if self.document(i).syntax_stale() {
                return true;
            }
            i += 1;
        }
        false
    }
}

// ---- manifests --------------------------------------------------------------------

/// The kind of manifest that a buffer holds, where it has a file and it was
/// not looked up yet.
pub open spec fn manifest_due(path: Option<Seq<char>>, fetched: Seq<Seq<char>>) -> Option<Kind> {
    match path {
        Some(p) => match file_name_of(p) {
            Some(name) => if fetched.contains(p) {
                None
            } else {
                kind_of_file(name)
            },
            None => None,
        },
        None => None,
    }
}

/// The buffers among the first `n` whose manifests are to be looked up.
pub open spec fn manifests_upto(e: EditorView, fetched: Seq<Seq<char>>, n: nat) -> Seq<
    (usize, Kind),
>
    decreases n,
{
    if n == 0 || n > e.desk.docs.len() {
        Seq::empty()
    } else {
        let rest = manifests_upto(e, fetched, (n - 1) as nat);
        match manifest_due(doc_at(e, n - 1).path, fetched) {
            Some(k) => rest.push(((n - 1) as usize, k)),
            None => rest,
        }
    }
}

impl Document {
    fn manifest_to_fetch(&self, fetched: &Vec<String>) -> (r: Option<Kind>)
        ensures
            r == manifest_due(self@.path, texts(fetched@)),
    {
        match &self.path {
            Some(p) => match file_name(p.as_str()) {
                Some(name) => if crate::sync::listed(fetched, p.as_str()) {
                    None
                } else {
                    manifest_kind(name.as_str())
                },
                None => None,
            },
            None => None,
        }
    }
}

impl Editor {
    /// The buffers whose manifests are to be looked up, `fetched` being the
    /// files that were.
    pub fn deps_tick(&self, fetched: &Vec<String>) -> (r: Vec<(usize, Kind)>)
        requires
            self.wf(),
        ensures
            r@ == manifests_upto(self@, texts(fetched@), self@.desk.docs.len()),
    {
        let total = self.desk.documents.len();
        let mut out: Vec<(usize, Kind)> = Vec::new();
        let mut n: usize = 0;
        assert(total == self@.desk.docs.len());
        while n < total
            invariant
                self.wf(),
                n <= total,
                total == self@.desk.docs.len(),
                out@ == manifests_upto(self@, texts(fetched@), n as nat),
            decreases total - n,
        {
            if let Some(k) = self.document(n).manifest_to_fetch(fetched) {
                out.push((n, k));
            }
            n += 1;
        }
        out
    }

    /// What a registry says of a dependency.
    pub fn learn_dep(&mut self, info: DepInfo)
        requires
            old(self).wf(),
        ensures
            final(self)@ == (EditorView {
                tools: ToolsView {
                    dep_info: old(self)@.tools.dep_info.push(info@),
                    ..old(self)@.tools
                },
                ..old(self)@
            }),
            final(self).wf(),
    {
        let ghost had = self.tools.dep_info@;
        self.tools.dep_info.push(info);
        assert(dep_info_views(self.tools.dep_info@) =~= dep_info_views(had).push(info@));
    }
}

} // verus!
