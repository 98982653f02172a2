//! The open documents and the windows that show them.

use vstd::prelude::*;
use crate::document::{
    clamped, deduped, doc_wf, line_count, min_int, placed, DocView, Document,
};
use crate::layout::{
    closed, copy_selections, ids, is_leaf_of, law_close_keeps_splits, law_close_removes_one,
    law_split_adds_one, law_split_keeps_splits, lemma_put_behind_ids, lemma_window_ids,
    lemma_with_window_same, lemma_without_ids, rects_of, separators_of, split_at, tree_wf,
    window_in, with_window, without, Layout, Rect, Tree, WinView, Window,
};
use crate::text::rope_len;

verus! {

/// The documents, the one in front, and the windows. What the focused window
/// shows lives in its document; the others keep theirs in the layout.
pub struct Desk {
    pub documents: Vec<Document>,
    pub current: usize,
    pub layout: Layout,
    /// The focused window.
    pub focused: usize,
    pub next_window_id: usize,
}

pub struct DeskView {
    pub docs: Seq<DocView>,
    pub current: usize,
    pub layout: Tree,
    pub focused: usize,
    pub next_id: usize,
}

pub open spec fn doc_views(v: Seq<Document>) -> Seq<DocView> {
    Seq::new(v.len(), |i: int| v[i]@)
}

pub broadcast proof fn lemma_doc_update(v: Seq<Document>, i: int, d: Document)
    requires
        0 <= i < v.len(),
    ensures
        #[trigger] doc_views(v.update(i, d)) == doc_views(v).update(i, d@),
{
    assert(doc_views(v.update(i, d)) =~= doc_views(v).update(i, d@));
}

impl View for Desk {
    type V = DeskView;

    open spec fn view(&self) -> DeskView {
        DeskView {
            docs: doc_views(self.documents@),
            current: self.current,
            layout: self.layout@,
            focused: self.focused,
            next_id: self.next_window_id,
        }
    }
}

/// The document in front.
pub open spec fn cur(v: DeskView) -> DocView {
    v.docs[v.current as int]
}

pub open spec fn with_doc(v: DeskView, d: DocView) -> DeskView {
    DeskView { docs: v.docs.update(v.current as int, d), ..v }
}

pub open spec fn doc_ok(d: DocView) -> bool {
    doc_wf(d) && placed(d)
}

/// What every operation keeps: there is a document in front, every selection
/// lies in its text, every history fits it, and the focused window is one of
/// the layout, whose windows differ.
pub open spec fn desk_wf(v: DeskView) -> bool {
    &&& v.current < v.docs.len()
    &&& forall|i: int| 0 <= i < v.docs.len() ==> doc_ok(#[trigger] v.docs[i])
    &&& tree_wf(v.layout)
    &&& ids(v.layout).no_duplicates()
    &&& ids(v.layout).contains(v.focused)
    &&& forall|id: usize| #[trigger] ids(v.layout).contains(id) ==> id < v.next_id
}

/// What a window keeps of its document.
pub open spec fn shown_state(id: usize, current: usize, d: DocView) -> WinView {
    WinView {
        id,
        doc: current,
        cursor: d.cursor,
        anchor: d.anchor,
        extra: d.extra,
        view_line: d.view_line,
        view_row: d.view_row,
        view_col: d.view_col,
    }
}

/// The focused window holding what its document shows.
pub open spec fn focus_saved(v: DeskView) -> DeskView {
    match window_in(v.layout, v.focused) {
        Some(w) => DeskView {
            layout: with_window(v.layout, v.focused, shown_state(w.id, v.current, cur(v))),
            ..v
        },
        None => v,
    }
}

pub open spec fn sels_within(sels: Seq<(usize, usize)>, len: int) -> Seq<(usize, usize)> {
    Seq::new(
        sels.len(),
        |i: int|
            (
                min_int(sels[i].0 as int, len) as usize,
                min_int(sels[i].1 as int, len) as usize,
            ),
    )
}

/// A document showing what a window has kept, as far as its text still allows.
pub open spec fn shown_again(d: DocView, w: WinView) -> DocView {
    let len = d.text.len() as int;
    deduped(
        DocView {
            cursor: clamped(d.text, min_int(w.cursor as int, len), false) as usize,
            anchor: min_int(w.anchor as int, len) as usize,
            extra: sels_within(w.extra, len),
            view_line: min_int(w.view_line as int, line_count(d.text) - 1) as usize,
            view_row: w.view_row,
            view_col: w.view_col,
            ..d
        },
    )
}

/// The document of the focused window in front, showing what it kept.
pub open spec fn focus_restored(v: DeskView) -> DeskView {
    match window_in(v.layout, v.focused) {
        Some(w) => {
            let at = min_int(w.doc as int, v.docs.len() - 1);
            DeskView {
                current: at as usize,
                docs: v.docs.update(at, shown_again(v.docs[at], w)),
                ..v
            }
        },
        None => v,
    }
}

/// The focus moved to another window.
pub open spec fn refocused(v: DeskView, id: usize) -> DeskView {
    focus_restored(DeskView { focused: id, ..focus_saved(v) })
}

/// The focused window split in two, with the focus in the new one. There are
/// only so many windows.
pub open spec fn window_split(v: DeskView, vertical: bool) -> DeskView {
    let s = focus_saved(v);
    if v.next_id == usize::MAX {
        v
    } else {
        match window_in(s.layout, v.focused) {
            None => v,
            Some(w) => match split_at(
                s.layout,
                v.focused,
                vertical,
                WinView { id: v.next_id, ..w },
            ) {
                None => v,
                Some(t) => focus_restored(
                    DeskView {
                        layout: t,
                        focused: v.next_id,
                        next_id: (v.next_id + 1) as usize,
                        ..s
                    },
                ),
            },
        }
    }
}

/// A window taken away that has not the focus.
pub open spec fn window_closed(v: DeskView, id: usize) -> DeskView {
    DeskView { layout: closed(v.layout, id), ..v }
}

/// The windows that the focus can go to in turn: all but the one to skip.
pub open spec fn cycle_of(all: Seq<usize>, skip: Option<usize>, focused: usize, n: nat) -> Seq<usize>
    decreases n,
{
    if n == 0 || n > all.len() {
        Seq::empty()
    } else {
        let head = cycle_of(all, skip, focused, (n - 1) as nat);
        if Some(all[n - 1]) != skip || all[n - 1] == focused {
            head.push(all[n - 1])
        } else {
            head
        }
    }
}

pub open spec fn place_in(v: Seq<usize>, id: usize, i: int) -> int
    decreases v.len() - i,
{
    if i < 0 || i >= v.len() {
        0
    } else if v[i] == id {
        i
    } else {
        place_in(v, id, i + 1)
    }
}

/// The window after the focused one, where there is another.
pub open spec fn next_of(v: DeskView, skip: Option<usize>) -> Option<usize> {
    let c = cycle_of(ids(v.layout), skip, v.focused, ids(v.layout).len());
    if c.len() <= 1 {
        None
    } else {
        Some(c[(place_in(c, v.focused, 0) + 1) % (c.len() as int)])
    }
}

// ---- directions -----------------------------------------------------------------

#[derive(Clone, Copy, PartialEq, Eq, Structural, Debug)]
pub enum Dir {
    Left,
    Right,
    Up,
    Down,
}

pub open spec fn rect_in(wins: Seq<(usize, Rect)>, id: usize, i: int) -> Option<Rect>
    decreases wins.len() - i,
{
    if i < 0 || i >= wins.len() {
        None
    } else if wins[i].0 == id {
        Some(wins[i].1)
    } else {
        rect_in(wins, id, i + 1)
    }
}

/// Whether a window lies in a direction from another.
pub open spec fn lies(dir: Dir, r: Rect, from: Rect) -> bool {
    match dir {
        Dir::Left => r.0 < from.0,
        Dir::Right => r.0 > from.0,
        Dir::Up => r.1 < from.1,
        Dir::Down => r.1 > from.1,
    }
}

pub open spec fn mid_x(r: Rect) -> int {
    r.0 + r.2 / 2
}

pub open spec fn mid_y(r: Rect) -> int {
    r.1 + r.3 / 2
}

pub open spec fn distance(a: int, b: int) -> int {
    if a >= b {
        a - b
    } else {
        b - a
    }
}

/// How far a window is: along the way first, then across it.
pub open spec fn far(dir: Dir, r: Rect, from: Rect) -> (int, int) {
    let x = distance(mid_x(r), mid_x(from));
    let y = distance(mid_y(r), mid_y(from));
    if dir == Dir::Left || dir == Dir::Right {
        (x, y)
    } else {
        (y, x)
    }
}

pub open spec fn nearer(a: (int, int), b: (int, int)) -> bool {
    a.0 < b.0 || (a.0 == b.0 && a.1 < b.1)
}

/// The nearest of the first `n` windows in a direction.
pub open spec fn nearest(
    wins: Seq<(usize, Rect)>,
    from: Rect,
    focused: usize,
    skip: Option<usize>,
    dir: Dir,
    n: nat,
) -> Option<int>
    decreases n,
{
    if n == 0 || n > wins.len() {
        None
    } else {
        let best = nearest(wins, from, focused, skip, dir, (n - 1) as nat);
        let (id, r) = wins[n - 1];
        if id != focused && Some(id) != skip && lies(dir, r, from) && match best {
            None => true,
            Some(b) => nearer(far(dir, r, from), far(dir, wins[b].1, from)),
        } {
            Some(n - 1)
        } else {
            best
        }
    }
}

/// The window to go to in a direction.
pub open spec fn neighbour(v: DeskView, area: Rect, from: Rect, skip: Option<usize>, dir: Dir) -> Option<
    usize,
> {
    let wins = rects_of(v.layout, area);
    match nearest(wins, from, v.focused, skip, dir, wins.len()) {
        Some(i) => Some(wins[i].0),
        None => None,
    }
}

// ---- keeping it -----------------------------------------------------------------

pub proof fn lemma_focus_saved(v: DeskView)
    requires
        desk_wf(v),
    ensures
        desk_wf(focus_saved(v)),
        window_in(v.layout, v.focused) is Some,
        ids(focus_saved(v).layout) == ids(v.layout),
{
    lemma_window_ids(v.layout, v.focused);
    let w = window_in(v.layout, v.focused)->0;
    lemma_with_window_same(v.layout, v.focused, shown_state(w.id, v.current, cur(v)));
}

proof fn lemma_shown_again(d: DocView, w: WinView)
    requires
        doc_ok(d),
        d.text.len() <= usize::MAX,
    ensures
        doc_ok(shown_again(d, w)),
{
    let len = d.text.len() as int;
    let e = DocView {
        cursor: clamped(d.text, min_int(w.cursor as int, len), false) as usize,
        anchor: min_int(w.anchor as int, len) as usize,
        extra: sels_within(w.extra, len),
        view_line: min_int(w.view_line as int, line_count(d.text) - 1) as usize,
        view_row: w.view_row,
        view_col: w.view_col,
        ..d
    };
    crate::document::lemma_cursor_line(d.text, min_int(w.cursor as int, len));
    crate::document::lemma_line_count(d.text);
    let l = crate::document::cursor_line(d.text, min_int(w.cursor as int, len));
    crate::document::lemma_line_parts(d.text, l);
    crate::document::lemma_clamped(d.text, min_int(w.cursor as int, len));
    assert(placed(e));
    crate::document::lemma_deduped_placed(e);
}

impl Desk {
    pub open spec fn wf(&self) -> bool {
        desk_wf(self@)
    }

    /// The document in front.
    pub fn doc(&self) -> (r: &Document)
        requires
            self.current < self.documents@.len(),
        ensures
            r@ == cur(self@),
    {
        &self.documents[self.current]
    }

    /// The document in front, to change.
    pub fn doc_mut(&mut self) -> (r: &mut Document)
        requires
            old(self).current < old(self).documents@.len(),
        ensures
            r@ == cur(old(self)@),
            final(self)@ == with_doc(old(self)@, final(r)@),
    {
        broadcast use lemma_doc_update;

        &mut self.documents[self.current]
    }
}

impl Desk {
    /// Keep what the focused window shows.
    pub fn save_focus(&mut self)
        requires
            old(self).wf(),
        ensures
            final(self)@ == focus_saved(old(self)@),
            final(self).wf(),
            ids(final(self)@.layout) == ids(old(self)@.layout),
            final(self)@.docs.len() == old(self)@.docs.len(),
    {
        proof {
            lemma_focus_saved(self@);
        }
        let current = self.current;
        let d = &self.documents[current];
        let cursor = d.cursor;
        let anchor = d.anchor;
        let extra = copy_selections(&d.extra);
        let view_line = d.view_line;
        let view_row = d.view_row;
        let view_col = d.view_col;
        if let Some(w) = self.layout.find_mut(self.focused) {
            w.doc = current;
            w.cursor = cursor;
            w.anchor = anchor;
            w.extra = extra;
            w.view_line = view_line;
            w.view_row = view_row;
            w.view_col = view_col;
        }
    }

    /// Put the document of the focused window in front, showing what it kept.
    pub fn restore_focus(&mut self)
        requires
            old(self).wf(),
        ensures
            final(self)@ == focus_restored(old(self)@),
            final(self).wf(),
            final(self)@.layout == old(self)@.layout,
            final(self)@.docs.len() == old(self)@.docs.len(),
    {
        broadcast use lemma_doc_update;

        let ghost v = self@;
        let w: Window = match self.layout.find(self.focused) {
            Some(w) => w.copy(),
            None => {
                return ;
            },
        };
        let last: usize = self.documents.len() - 1;
        let at: usize = if w.doc <= last {
            w.doc
        } else {
            last
        };
        self.current = at;
        let ghost wv = w@;
        let ghost d0 = v.docs[at as int];
        let len = rope_len(&self.documents[at].text);
        proof {
            lemma_shown_again(d0, wv);
        }
        let mut extra: Vec<(usize, usize)> = Vec::new();
        let mut i: usize = 0;
        while i < w.extra.len()
            invariant
                i <= w.extra@.len(),
                extra@.len() == i,
                forall|k: int|
                    0 <= k < i ==> #[trigger] extra@[k] == sels_within(w.extra@, len as int)[k],
            decreases w.extra@.len() - i,
        {
            let e = w.extra[i];
            extra.push(
                (
                    if e.0 <= len {
                        e.0
                    } else {
                        len
                    },
                    if e.1 <= len {
                        e.1
                    } else {
                        len
                    },
                ),
            );
            i += 1;
        }
        assert(extra@ =~= sels_within(w.extra@, len as int));
        let d = &mut self.documents[at];
        d.cursor = if w.cursor <= len {
            w.cursor
        } else {
            len
        };
        d.anchor = if w.anchor <= len {
            w.anchor
        } else {
            len
        };
        d.extra = extra;
        let bottom: usize = d.line_count() - 1;
        d.view_line = if w.view_line <= bottom {
            w.view_line
        } else {
            bottom
        };
        d.view_row = w.view_row;
        d.view_col = w.view_col;
        d.clamp_cursor(false);
        d.dedupe_cursors();
    }

    /// Move the focus to another window.
    pub fn refocus(&mut self, id: usize)
        requires
            old(self).wf(),
            ids(old(self)@.layout).contains(id),
        ensures
            final(self)@ == refocused(old(self)@, id),
            final(self).wf(),
            ids(final(self)@.layout) == ids(old(self)@.layout),
            final(self)@.docs.len() == old(self)@.docs.len(),
    {
        self.save_focus();
        self.focused = id;
        self.restore_focus();
    }

    /// Split the focused window.
    pub fn split(&mut self, vertical: bool)
        requires
            old(self).wf(),
        ensures
            final(self)@ == window_split(old(self)@, vertical),
            final(self).wf(),
            final(self)@.docs.len() == old(self)@.docs.len(),
    {
        let ghost v = self@;
        if self.next_window_id == usize::MAX {
            return ;
        }
        proof {
            lemma_focus_saved(v);
            lemma_window_ids(focus_saved(v).layout, v.focused);
        }
        self.save_focus();
        let ghost s = self@;
        let new: Window = match self.layout.find(self.focused) {
            Some(w) => {
                let mut c = w.copy();
                c.id = self.next_window_id;
                c
            },
            None => {
                return ;
            },
        };
        let id = new.id;
        let ghost nv = new@;
        proof {
            law_split_adds_one(s.layout, s.focused, vertical, nv);
            law_split_keeps_splits(s.layout, s.focused, vertical, nv);
            lemma_put_behind_ids(ids(s.layout), s.focused, id, 0);
        }
        let done = self.layout.split(self.focused, vertical, new);
        self.focused = id;
        self.next_window_id = self.next_window_id + 1;
        proof {
            let all = ids(s.layout);
            let k = choose|k: int| 0 <= k < all.len() && all[k] == s.focused;
            assert(all[k] == s.focused);
        }
        self.restore_focus();
    }

    /// Take away a window that has not the focus.
    pub fn close(&mut self, id: usize)
        requires
            old(self).wf(),
            id != old(self).focused,
        ensures
            final(self)@ == window_closed(old(self)@, id),
            final(self).wf(),
    {
        let ghost v = self@;
        proof {
            if is_leaf_of(v.layout, id) {
                let all = ids(v.layout);
                assert(all =~= seq![id]);
                let k = choose|k: int| 0 <= k < all.len() && all[k] == v.focused;
            }
            law_close_removes_one(v.layout, id);
            law_close_keeps_splits(v.layout, id);
            lemma_without_ids(ids(v.layout), id);
        }
        self.layout.close(id);
    }

    pub fn window_count(&self) -> (r: usize)
        ensures
            r == ids(self@.layout).len(),
    {
        self.layout.count()
    }

    /// The window that the focus goes to next.
    pub fn next_window(&self, skip: Option<usize>) -> (r: Option<usize>)
        requires
            self.wf(),
        ensures
            r == next_of(self@, skip),
            r is Some ==> ids(self@.layout).contains(r->0),
    {
        let mut all: Vec<usize> = Vec::new();
        self.layout.leaf_ids(&mut all);
        assert(all@ =~= ids(self@.layout));
        let mut c: Vec<usize> = Vec::new();
        let mut i: usize = 0;
        while i < all.len()
            invariant
                i <= all@.len(),
                c@ == cycle_of(all@, skip, self.focused, i as nat),
                forall|k: int| 0 <= k < c@.len() ==> all@.contains(#[trigger] c@[k]),
            decreases all@.len() - i,
        {
            let id = all[i];
            let skipped = match skip {
                Some(s) => s == id,
                None => false,
            };
            if !skipped || id == self.focused {
                c.push(id);
            }
            i += 1;
        }
        if c.len() <= 1 {
            return None;
        }
        let mut at: usize = 0;
        while at < c.len() && c[at] != self.focused
            invariant
                at <= c@.len(),
                place_in(c@, self.focused, 0) == place_in(c@, self.focused, at as int),
            decreases c@.len() - at,
        {
            at += 1;
        }
        if at == c.len() {
            at = 0;
        }
        let n: usize = c.len();
        let next: usize = if at == n - 1 {
            assert((at + 1) % (n as int) == 0) by (nonlinear_arith)
                requires
                    at == n - 1,
                    n > 0,
            ;
            0
        } else {
            assert((at + 1) % (n as int) == at + 1) by (nonlinear_arith)
                requires
                    0 <= at < n - 1,
            ;
            at + 1
        };
        Some(c[next])
    }

    /// Every window's rectangle, and the separators between them.
    pub fn rects(&self, area: Rect) -> (r: (Vec<(usize, Rect)>, Vec<(Rect, bool)>))
        requires
            tree_wf(self@.layout),
        ensures
            r.0@ == rects_of(self@.layout, area),
            r.1@ == separators_of(self@.layout, area),
    {
        let mut wins: Vec<(usize, Rect)> = Vec::new();
        let mut seps: Vec<(Rect, bool)> = Vec::new();
        self.layout.rects(area, &mut wins, &mut seps);
        assert(wins@ =~= rects_of(self@.layout, area));
        assert(seps@ =~= separators_of(self@.layout, area));
        (wins, seps)
    }

    /// The rectangle of a window.
    pub fn rect_of(&self, area: Rect, id: usize) -> (r: Option<Rect>)
        requires
            tree_wf(self@.layout),
        ensures
            r == rect_in(rects_of(self@.layout, area), id, 0),
    {
        let (wins, _) = self.rects(area);
        let mut i: usize = 0;
        while i < wins.len()
            invariant
                i <= wins@.len(),
                wins@ == rects_of(self@.layout, area),
                rect_in(wins@, id, 0) == rect_in(wins@, id, i as int),
            decreases wins@.len() - i,
        {
            if wins[i].0 == id {
                return Some(wins[i].1);
            }
            i += 1;
        }
        None
    }

    /// The window to go to in a direction from the focused one, which is at
    /// `from`.
    pub fn neighbour(&self, area: Rect, from: Rect, skip: Option<usize>, dir: Dir) -> (r: Option<usize>)
        requires
            self.wf(),
        ensures
            r == neighbour(self@, area, from, skip, dir),
            r is Some ==> ids(self@.layout).contains(r->0),
    {
        let (wins, _) = self.rects(area);
        let mut best: Option<usize> = None;
        let mut i: usize = 0;
        while i < wins.len()
            invariant
                i <= wins@.len(),
                match best {
                    Some(b) => b < i && nearest(
                        wins@,
                        from,
                        self.focused,
                        skip,
                        dir,
                        i as nat,
                    ) == Some(b as int),
                    None => nearest(wins@, from, self.focused, skip, dir, i as nat) is None,
                },
            decreases wins@.len() - i,
        {
            let (id, r) = wins[i];
            let skipped = match skip {
                Some(s) => s == id,
                None => false,
            };
            let that_way = match dir {
                Dir::Left => r.0 < from.0,
                Dir::Right => r.0 > from.0,
                Dir::Up => r.1 < from.1,
                Dir::Down => r.1 > from.1,
            };
            if id != self.focused && !skipped && that_way {
                let better = match best {
                    None => true,
                    Some(b) => {
                        let a = how_far(dir, r, from);
                        let c = how_far(dir, wins[b].1, from);
                        a.0 < c.0 || (a.0 == c.0 && a.1 < c.1)
                    },
                };
                if better {
                    best = Some(i);
                }
            }
            i += 1;
        }
        match best {
            Some(b) => {
                proof {
                    lemma_rect_ids(self@.layout, area);
                    assert(ids(self@.layout)[b as int] == wins@[b as int].0);
                }
                Some(wins[b].0)
            },
            None => None,
        }
    }
}

/// The windows of the rectangles are those of the layout.
pub proof fn lemma_rect_ids(t: Tree, r: Rect)
    ensures
        rects_of(t, r).len() == ids(t).len(),
        forall|k: int|
            0 <= k < rects_of(t, r).len() ==> (#[trigger] rects_of(t, r)[k]).0 == ids(t)[k],
    decreases t, 0nat,
{
    match t {
        Tree::Leaf(w) => {},
        Tree::Split { vertical, children } => {
            lemma_rect_ids_upto(children, vertical, r, children.len());
        },
    }
}

proof fn lemma_rect_ids_upto(children: Seq<Tree>, vertical: bool, r: Rect, n: nat)
    requires
        n <= children.len(),
    ensures
        crate::layout::rects_upto(children, vertical, r, n).len() == crate::layout::ids_upto(
            children,
            n,
        ).len(),
        forall|k: int|
            0 <= k < crate::layout::rects_upto(children, vertical, r, n).len() ==> (
            #[trigger] crate::layout::rects_upto(children, vertical, r, n)[k]).0
                == crate::layout::ids_upto(children, n)[k],
    decreases children, n,
{
    if n > 0 {
        lemma_rect_ids_upto(children, vertical, r, (n - 1) as nat);
        lemma_rect_ids(
            children[n - 1],
            crate::layout::child_rect(vertical, r, children.len() as int, n - 1),
        );
    }
}

fn how_far(dir: Dir, r: Rect, from: Rect) -> (d: (u32, u32))
    ensures
        d.0 == far(dir, r, from).0,
        d.1 == far(dir, r, from).1,
{
    let rx: u32 = r.0 as u32 + r.2 as u32 / 2;
    let ry: u32 = r.1 as u32 + r.3 as u32 / 2;
    let fx: u32 = from.0 as u32 + from.2 as u32 / 2;
    let fy: u32 = from.1 as u32 + from.3 as u32 / 2;
    let x: u32 = if rx >= fx {
        rx - fx
    } else {
        fx - rx
    };
    let y: u32 = if ry >= fy {
        ry - fy
    } else {
        fy - ry
    };
    match dir {
        Dir::Left => (x, y),
        Dir::Right => (x, y),
        Dir::Up => (y, x),
        Dir::Down => (y, x),
    }
}

/// Leaving a window and coming back shows its document as it was left, where
/// no other window has touched it.
pub proof fn law_focus_comes_back(v: DeskView)
    requires
        desk_wf(v),
        cur(v).text.len() <= usize::MAX,
        cur(v).extra == deduped(cur(v)).extra,
        clamped(cur(v).text, cur(v).cursor as int, false) == cur(v).cursor,
        cur(v).view_line < line_count(cur(v).text),
    ensures
        focus_restored(focus_saved(v)).docs == v.docs,
        focus_restored(focus_saved(v)).current == v.current,
{
    lemma_focus_saved(v);
    lemma_window_ids(v.layout, v.focused);
    let s = focus_saved(v);
    let d = cur(v);
    let w = window_in(v.layout, v.focused)->0;
    lemma_with_window_found(v.layout, v.focused, shown_state(w.id, v.current, d));
    let kept = window_in(s.layout, v.focused)->0;
    assert(sels_within(kept.extra, d.text.len() as int) =~= d.extra);
    assert(shown_again(d, kept) == d);
    assert(v.docs.update(v.current as int, d) =~= v.docs);
}

proof fn lemma_with_window_found(t: Tree, id: usize, new: WinView)
    requires
        new.id == id,
        window_in(t, id) is Some,
    ensures
        window_in(with_window(t, id, new), id) == Some(new),
    decreases t, 0nat,
{
    match t {
        Tree::Leaf(w) => {},
        Tree::Split { vertical, children } => {
            lemma_with_window_found_upto(children, id, new, children.len());
        },
    }
}

proof fn lemma_with_window_found_upto(children: Seq<Tree>, id: usize, new: WinView, n: nat)
    requires
        new.id == id,
        n <= children.len(),
    ensures
        crate::layout::with_window_upto(children, id, new, n).len() == n,
        crate::layout::window_upto(children, id, n) is Some ==> crate::layout::window_upto(
            crate::layout::with_window_upto(children, id, new, n),
            id,
            n,
        ) == Some(new),
        crate::layout::window_upto(children, id, n) is None ==> crate::layout::window_upto(
            crate::layout::with_window_upto(children, id, new, n),
            id,
            n,
        ) is None,
    decreases children, n,
{
    if n > 0 {
        let m = (n - 1) as nat;
        lemma_with_window_found_upto(children, id, new, m);
        let a = crate::layout::with_window_upto(children, id, new, m);
        let b = crate::layout::with_window_upto(children, id, new, n);
        lemma_window_prefix(a, b, id, m);
        if crate::layout::window_upto(children, id, m) is None {
            if window_in(children[n - 1], id) is Some {
                lemma_with_window_found(children[n - 1], id, new);
            } else {
                crate::layout::lemma_with_window_none(children[n - 1], id, new);
            }
        }
    }
}

proof fn lemma_window_prefix(a: Seq<Tree>, b: Seq<Tree>, id: usize, n: nat)
    requires
        n <= a.len(),
        n <= b.len(),
        forall|k: int| 0 <= k < n ==> a[k] == b[k],
    ensures
        crate::layout::window_upto(a, id, n) == crate::layout::window_upto(b, id, n),
    decreases n,
{
    if n > 0 {
        lemma_window_prefix(a, b, id, (n - 1) as nat);
    }
}

/// A window taken away; the focus goes to the first one where it was there.
pub open spec fn window_removed(v: DeskView, id: usize) -> DeskView {
    let c = window_closed(v, id);
    if window_in(c.layout, v.focused) is None {
        focus_restored(DeskView { focused: ids(c.layout)[0], ..c })
    } else {
        c
    }
}

proof fn lemma_many_windows(t: Tree)
    requires
        tree_wf(t),
    ensures
        ids(t).len() >= 1,
        t is Split ==> ids(t).len() >= 2,
    decreases t, 0nat,
{
    match t {
        Tree::Leaf(w) => {},
        Tree::Split { vertical, children } => {
            crate::layout::lemma_trees_wf(children, children.len());
            lemma_many_windows_upto(children, children.len());
        },
    }
}

proof fn lemma_many_windows_upto(children: Seq<Tree>, n: nat)
    requires
        n <= children.len(),
        forall|k: int| 0 <= k < children.len() ==> tree_wf(#[trigger] children[k]),
    ensures
        crate::layout::ids_upto(children, n).len() >= n,
    decreases children, n,
{
    if n > 0 {
        lemma_many_windows_upto(children, (n - 1) as nat);
        lemma_many_windows(children[n - 1]);
    }
}

impl Desk {
    /// Take away a window, whichever it is.
    pub fn remove(&mut self, id: usize)
        requires
            old(self).wf(),
        ensures
            final(self)@ == window_removed(old(self)@, id),
            final(self).wf(),
    {
        let ghost v = self@;
        let ghost all = ids(v.layout);
        proof {
            if is_leaf_of(v.layout, id) {
                lemma_window_ids(v.layout, v.focused);
            } else {
                law_close_removes_one(v.layout, id);
                law_close_keeps_splits(v.layout, id);
                lemma_without_ids(all, id);
                lemma_many_windows(v.layout);
                lemma_window_ids(closed(v.layout, id), v.focused);
                if v.layout is Split {
                    assert(all[0] != all[1]);
                    let other = if all[0] != id {
                        all[0]
                    } else {
                        all[1]
                    };
                    assert(all.contains(other));
                    assert(without(all, id).contains(other));
                    assert(without(all, id).len() > 0);
                } else {
                    assert(all.len() == 1);
                    assert(all[0] != id);
                    assert(all.contains(all[0]));
                    assert(without(all, id).contains(all[0]));
                }
            }
        }
        self.layout.close(id);
        if self.layout.find(self.focused).is_none() {
            let mut now: Vec<usize> = Vec::new();
            self.layout.leaf_ids(&mut now);
            assert(now@ =~= ids(self@.layout));
            assert(ids(self@.layout).contains(now@[0]));
            self.focused = now[0];
            self.restore_focus();
        }
    }
}

/// Another buffer in front: the next one, or the one before, round the end.
#[verifier::opaque]
pub open spec fn turned(v: DeskView, forward: bool) -> DeskView {
    let n = v.docs.len() as int;
    DeskView {
        current: (if forward {
            (v.current + 1) % n
        } else {
            (v.current + n - 1) % n
        }) as usize,
        ..v
    }
}

/// A buffer in front by its place.
pub open spec fn in_front(v: DeskView, i: usize) -> DeskView {
    DeskView { current: i, ..v }
}

impl Desk {
    pub fn turn(&mut self, forward: bool)
        requires
            old(self).wf(),
        ensures
            final(self)@ == turned(old(self)@, forward),
            final(self).wf(),
    {
        reveal(turned);
        let n = self.documents.len();
        let c = self.current;
        proof {
            let nn = n as int;
            let cc = c as int;
            assert(0 <= cc < nn);
            if cc + 1 < nn {
                assert((cc + 1) % nn == cc + 1) by (nonlinear_arith)
                    requires
                        0 <= cc,
                        cc + 1 < nn,
                ;
            } else {
                assert((cc + 1) % nn == 0) by (nonlinear_arith)
                    requires
                        cc + 1 == nn,
                        nn > 0,
                ;
            }
            if cc > 0 {
                assert((cc + nn - 1) % nn == cc - 1) by (nonlinear_arith)
                    requires
                        0 < cc < nn,
                ;
            } else {
                assert((cc + nn - 1) % nn == nn - 1) by (nonlinear_arith)
                    requires
                        cc == 0,
                        nn > 0,
                ;
            }
        }
        self.current = if forward {
            if c + 1 < n {
                c + 1
            } else {
                0
            }
        } else if c > 0 {
            c - 1
        } else {
            n - 1
        };
    }
}

} // verus!
