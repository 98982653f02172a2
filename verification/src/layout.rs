//! The window tree: leaves are windows, splits divide their rectangle among
//! their children, side by side or stacked.

use vstd::prelude::*;

verus! {

/// A window's saved view state. The focused window's state lives in its
/// document; it is stashed here whenever focus moves away. Stashed positions
/// are clamped when another window edits the same document.
pub struct Window {
    pub id: usize,
    pub doc: usize,
    pub cursor: usize,
    pub anchor: usize,
    pub extra: Vec<(usize, usize)>,
    pub view_line: usize,
    pub view_row: usize,
    pub view_col: usize,
}

pub struct WinView {
    pub id: usize,
    pub doc: usize,
    pub cursor: usize,
    pub anchor: usize,
    pub extra: Seq<(usize, usize)>,
    pub view_line: usize,
    pub view_row: usize,
    pub view_col: usize,
}

impl View for Window {
    type V = WinView;

    open spec fn view(&self) -> WinView {
        WinView {
            id: self.id,
            doc: self.doc,
            cursor: self.cursor,
            anchor: self.anchor,
            extra: self.extra@,
            view_line: self.view_line,
            view_row: self.view_row,
            view_col: self.view_col,
        }
    }
}

/// A copy of a list of selections.
pub fn copy_selections(v: &Vec<(usize, usize)>) -> (out: Vec<(usize, usize)>)
    ensures
        out@ == v@,
{
    let mut out: Vec<(usize, usize)> = Vec::new();
    let mut i: usize = 0;
    while i < v.len()
        invariant
            i <= v@.len(),
            out@ =~= v@.take(i as int),
        decreases v@.len() - i,
    {
        out.push(v[i]);
        i += 1;
    }
    assert(v@.take(i as int) =~= v@);
    out
}

impl Window {
    pub fn copy(&self) -> (r: Window)
        ensures
            r@ == self@,
    {
        Window {
            id: self.id,
            doc: self.doc,
            cursor: self.cursor,
            anchor: self.anchor,
            extra: copy_selections(&self.extra),
            view_line: self.view_line,
            view_row: self.view_row,
            view_col: self.view_col,
        }
    }
}

/// The window tree: leaves are windows, splits divide their rectangle among
/// their children, side by side (`vertical`) or stacked.
pub enum Layout {
    Leaf(Window),
    Split { vertical: bool, children: Vec<Layout> },
}

/// The window tree over mathematical sequences.
pub enum Tree {
    Leaf(WinView),
    Split { vertical: bool, children: Seq<Tree> },
}

/// (x, y, width, height) in terminal cells.
pub type Rect = (u16, u16, u16, u16);

pub open spec fn tree_of(l: Layout) -> Tree
    decreases l, 0nat,
    via tree_of_decreases
{
    match l {
        Layout::Leaf(w) => Tree::Leaf(w@),
        Layout::Split { vertical, children } => Tree::Split {
            vertical,
            children: trees_upto(children, children@.len()),
        },
    }
}

pub open spec fn trees_upto(v: Vec<Layout>, n: nat) -> Seq<Tree>
    decreases v, n,
    via trees_upto_decreases
{
    if n == 0 || n > v@.len() {
        Seq::empty()
    } else {
        trees_upto(v, (n - 1) as nat).push(tree_of(v@[n - 1]))
    }
}

#[via_fn]
proof fn tree_of_decreases(l: Layout) {
    match l {
        Layout::Split { vertical, children } => {
            assert(decreases_to!(l => l->children));
        },
        _ => {},
    }
}

#[via_fn]
proof fn trees_upto_decreases(v: Vec<Layout>, n: nat) {
    broadcast use vstd::std_specs::vec::axiom_vec_index_decreases;

    if !(n == 0 || n > v@.len()) {
        assert(decreases_to!(v => v@[n - 1]));
    }
}

pub proof fn lemma_trees_upto(v: Vec<Layout>, n: nat)
    requires
        n <= v@.len(),
    ensures
        trees_upto(v, n).len() == n,
        forall|i: int| 0 <= i < n ==> #[trigger] trees_upto(v, n)[i] == tree_of(v@[i]),
    decreases n,
{
    if n > 0 {
        lemma_trees_upto(v, (n - 1) as nat);
    }
}

impl View for Layout {
    type V = Tree;

    open spec fn view(&self) -> Tree {
        tree_of(*self)
    }
}

// ---- the windows of a tree --------------------------------------------------

/// The ids of the windows, in order.
pub open spec fn ids(t: Tree) -> Seq<usize>
    decreases t, 0nat,
{
    match t {
        Tree::Leaf(w) => seq![w.id],
        Tree::Split { vertical, children } => ids_upto(children, children.len()),
    }
}

pub open spec fn ids_upto(children: Seq<Tree>, n: nat) -> Seq<usize>
    decreases children, n,
{
    if n == 0 || n > children.len() {
        Seq::empty()
    } else {
        ids_upto(children, (n - 1) as nat) + ids(children[n - 1])
    }
}

/// The first window with this id.
pub open spec fn window_in(t: Tree, id: usize) -> Option<WinView>
    decreases t, 0nat,
{
    match t {
        Tree::Leaf(w) => if w.id == id {
            Some(w)
        } else {
            None
        },
        Tree::Split { vertical, children } => window_upto(children, id, children.len()),
    }
}

pub open spec fn window_upto(children: Seq<Tree>, id: usize, n: nat) -> Option<WinView>
    decreases children, n,
{
    if n == 0 || n > children.len() {
        None
    } else {
        match window_upto(children, id, (n - 1) as nat) {
            Some(w) => Some(w),
            None => window_in(children[n - 1], id),
        }
    }
}

/// The tree with the first window of this id replaced.
pub open spec fn with_window(t: Tree, id: usize, new: WinView) -> Tree
    decreases t, 0nat,
{
    match t {
        Tree::Leaf(w) => if w.id == id {
            Tree::Leaf(new)
        } else {
            t
        },
        Tree::Split { vertical, children } => Tree::Split {
            vertical,
            children: with_window_upto(children, id, new, children.len()),
        },
    }
}

pub open spec fn with_window_upto(children: Seq<Tree>, id: usize, new: WinView, n: nat) -> Seq<Tree>
    decreases children, n,
{
    if n == 0 || n > children.len() {
        Seq::empty()
    } else {
        with_window_upto(children, id, new, (n - 1) as nat).push(
            if window_upto(children, id, (n - 1) as nat) is Some {
                children[n - 1]
            } else {
                with_window(children[n - 1], id, new)
            },
        )
    }
}

/// A tree in which every split has at least two children.
pub open spec fn tree_wf(t: Tree) -> bool
    decreases t, 0nat,
{
    match t {
        Tree::Leaf(_) => true,
        Tree::Split { vertical, children } => children.len() >= 2 && trees_wf(
            children,
            children.len(),
        ),
    }
}

pub open spec fn trees_wf(children: Seq<Tree>, n: nat) -> bool
    decreases children, n,
{
    n == 0 || n > children.len() || (trees_wf(children, (n - 1) as nat) && tree_wf(children[n - 1]))
}

pub proof fn lemma_trees_wf(children: Seq<Tree>, n: nat)
    requires
        n <= children.len(),
    ensures
        trees_wf(children, n) <==> forall|i: int| 0 <= i < n ==> tree_wf(#[trigger] children[i]),
    decreases n,
{
    if n > 0 {
        lemma_trees_wf(children, (n - 1) as nat);
    }
}

/// The windows of the first `n` children are among the ids.
pub proof fn lemma_window_ids(t: Tree, id: usize)
    ensures
        window_in(t, id) is Some <==> ids(t).contains(id),
        window_in(t, id) is Some ==> window_in(t, id)->0.id == id,
        ids(t).len() >= 1 || t is Split,
    decreases t, 0nat,
{
    match t {
        Tree::Leaf(w) => {
            assert(ids(t)[0] == w.id);
        },
        Tree::Split { vertical, children } => {
            lemma_window_ids_upto(children, id, children.len());
        },
    }
}

proof fn lemma_window_ids_upto(children: Seq<Tree>, id: usize, n: nat)
    requires
        n <= children.len(),
    ensures
        window_upto(children, id, n) is Some <==> ids_upto(children, n).contains(id),
        window_upto(children, id, n) is Some ==> window_upto(children, id, n)->0.id == id,
    decreases children, n,
{
    if n > 0 {
        lemma_window_ids_upto(children, id, (n - 1) as nat);
        lemma_window_ids(children[n - 1], id);
        let a = ids_upto(children, (n - 1) as nat);
        let b = ids(children[n - 1]);
        assert(a + b == ids_upto(children, n));
        if a.contains(id) {
            let i = choose|i: int| 0 <= i < a.len() && a[i] == id;
            assert((a + b)[i] == id);
        }
        if b.contains(id) {
            let i = choose|i: int| 0 <= i < b.len() && b[i] == id;
            assert((a + b)[a.len() + i] == id);
        }
        if (a + b).contains(id) {
            let i = choose|i: int| 0 <= i < (a + b).len() && (a + b)[i] == id;
            if i < a.len() {
                assert(a[i] == id);
            } else {
                assert(b[i - a.len()] == id);
            }
        }
    }
}

// ---- splitting and closing --------------------------------------------------

/// The first direct child from `i` on that is the window `id`.
pub open spec fn own_leaf(children: Seq<Tree>, id: usize, i: int) -> Option<int>
    decreases children.len() - i,
{
    if i < 0 || i >= children.len() {
        None
    } else if children[i] matches Tree::Leaf(w) && w.id == id {
        Some(i)
    } else {
        own_leaf(children, id, i + 1)
    }
}

/// The tree with `new` as the sibling after the window `id`; `None` where
/// there is no such window. A same-direction split of a direct child joins
/// this row or column instead of nesting.
pub open spec fn split_at(t: Tree, id: usize, vertical: bool, new: WinView) -> Option<Tree>
    decreases t, 0nat,
{
    match t {
        Tree::Leaf(w) => if w.id == id {
            Some(Tree::Split { vertical, children: seq![t, Tree::Leaf(new)] })
        } else {
            None
        },
        Tree::Split { vertical: v, children } => if v == vertical && own_leaf(children, id, 0)
            is Some {
            Some(
                Tree::Split {
                    vertical: v,
                    children: children.insert(own_leaf(children, id, 0)->0 + 1, Tree::Leaf(new)),
                },
            )
        } else {
            match split_upto(children, id, vertical, new, children.len()) {
                Some(cs) => Some(Tree::Split { vertical: v, children: cs }),
                None => None,
            }
        },
    }
}

/// The children with the first that holds the window split.
pub open spec fn split_upto(
    children: Seq<Tree>,
    id: usize,
    vertical: bool,
    new: WinView,
    n: nat,
) -> Option<Seq<Tree>>
    decreases children, n,
{
    if n == 0 || n > children.len() {
        None
    } else {
        match split_upto(children, id, vertical, new, (n - 1) as nat) {
            Some(cs) => Some(cs),
            None => match split_at(children[n - 1], id, vertical, new) {
                Some(c) => Some(children.update(n - 1, c)),
                None => None,
            },
        }
    }
}

/// The tree without the window `id`, splits left with a single child
/// collapsed.
pub open spec fn closed(t: Tree, id: usize) -> Tree
    decreases t, 0nat,
{
    match t {
        Tree::Leaf(_) => t,
        Tree::Split { vertical, children } => {
            let kept = closed_upto(children, id, children.len());
            if kept.len() == 1 {
                kept[0]
            } else {
                Tree::Split { vertical, children: kept }
            }
        },
    }
}

pub open spec fn is_leaf_of(t: Tree, id: usize) -> bool {
    t matches Tree::Leaf(w) && w.id == id
}

pub open spec fn closed_upto(children: Seq<Tree>, id: usize, n: nat) -> Seq<Tree>
    decreases children, n,
{
    if n == 0 || n > children.len() {
        Seq::empty()
    } else if is_leaf_of(children[n - 1], id) {
        closed_upto(children, id, (n - 1) as nat)
    } else {
        closed_upto(children, id, (n - 1) as nat).push(closed(children[n - 1], id))
    }
}

/// A list without the places that hold `id`.
pub open spec fn without(s: Seq<usize>, id: usize) -> Seq<usize>
    decreases s.len(),
{
    if s.len() == 0 {
        s
    } else if s.last() == id {
        without(s.drop_last(), id)
    } else {
        without(s.drop_last(), id).push(s.last())
    }
}

proof fn lemma_without_add(a: Seq<usize>, b: Seq<usize>, id: usize)
    ensures
        without(a + b, id) == without(a, id) + without(b, id),
    decreases b.len(),
{
    if b.len() == 0 {
        assert(a + b =~= a);
        assert(without(a, id) + without(b, id) =~= without(a, id));
    } else {
        lemma_without_add(a, b.drop_last(), id);
        assert((a + b).drop_last() =~= a + b.drop_last());
        assert((a + b).last() == b.last());
        assert(without(a, id) + without(b.drop_last(), id).push(b.last()) =~= (without(a, id)
            + without(b.drop_last(), id)).push(b.last()));
        assert(without(a + b, id) =~= without(a, id) + without(b, id));
    }
}

/// Closing a window takes its id out and leaves the others in order; the last
/// window of all cannot be closed.
pub proof fn law_close_removes_one(t: Tree, id: usize)
    requires
        !is_leaf_of(t, id),
    ensures
        ids(closed(t, id)) == without(ids(t), id),
    decreases t, 0nat,
{
    reveal_with_fuel(without, 2);
    match t {
        Tree::Leaf(w) => {
            let s = ids(t);
            assert(s.drop_last() =~= Seq::<usize>::empty());
            assert(without(s, id) =~= s);
        },
        Tree::Split { vertical, children } => {
            lemma_close_upto(children, id, children.len());
            let kept = closed_upto(children, id, children.len());
            if kept.len() == 1 {
                reveal_with_fuel(ids_upto, 2);
                assert(ids_upto(kept, 1) =~= ids(kept[0]));
            }
        },
    }
}

proof fn lemma_close_upto(children: Seq<Tree>, id: usize, n: nat)
    requires
        n <= children.len(),
    ensures
        ids_upto(closed_upto(children, id, n), closed_upto(children, id, n).len()) == without(
            ids_upto(children, n),
            id,
        ),
    decreases children, n,
{
    reveal_with_fuel(without, 2);
    if n > 0 {
        let c = children[n - 1];
        lemma_close_upto(children, id, (n - 1) as nat);
        lemma_without_add(ids_upto(children, (n - 1) as nat), ids(c), id);
        let before = closed_upto(children, id, (n - 1) as nat);
        if is_leaf_of(c, id) {
            assert(ids(c).drop_last() =~= Seq::<usize>::empty());
            assert(without(ids(c), id) =~= Seq::<usize>::empty());
            assert(without(ids_upto(children, (n - 1) as nat), id) + Seq::<usize>::empty()
                =~= without(ids_upto(children, (n - 1) as nat), id));
        } else {
            law_close_removes_one(c, id);
            let now = before.push(closed(c, id));
            lemma_ids_prefix(before, now, before.len());
            assert(ids_upto(now, now.len()) == ids_upto(now, before.len()) + ids(now[now.len() - 1]));
        }
    } else {
        assert(ids_upto(Seq::<Tree>::empty(), 0) =~= Seq::<usize>::empty());
    }
}

proof fn lemma_ids_prefix(a: Seq<Tree>, b: Seq<Tree>, n: nat)
    requires
        n <= a.len(),
        n <= b.len(),
        forall|i: int| 0 <= i < n ==> a[i] == b[i],
    ensures
        ids_upto(a, n) == ids_upto(b, n),
    decreases n,
{
    if n > 0 {
        lemma_ids_prefix(a, b, (n - 1) as nat);
    }
}

/// A list with `new` put behind the first `id`.
pub open spec fn put_behind(s: Seq<usize>, id: usize, new: usize, i: int) -> Seq<usize>
    decreases s.len() - i,
{
    if i < 0 || i >= s.len() {
        s
    } else if s[i] == id {
        s.insert(i + 1, new)
    } else {
        put_behind(s, id, new, i + 1)
    }
}

proof fn lemma_put_behind(a: Seq<usize>, b: Seq<usize>, c: Seq<usize>, id: usize, new: usize, i: int)
    requires
        !a.contains(id),
        b.contains(id),
        0 <= i <= a.len(),
    ensures
        put_behind(a + b + c, id, new, i) == a + put_behind(b, id, new, 0) + c,
    decreases a.len() - i,
{
    let s = a + b + c;
    if i < a.len() {
        assert(s[i] == a[i]);
        assert(a.contains(a[i]));
        lemma_put_behind(a, b, c, id, new, i + 1);
    } else {
        lemma_put_inside(a, b, c, id, new, 0);
    }
}

proof fn lemma_put_inside(a: Seq<usize>, b: Seq<usize>, c: Seq<usize>, id: usize, new: usize, j: int)
    requires
        0 <= j <= b.len(),
        exists|k: int| j <= k < b.len() && b[k] == id,
    ensures
        put_behind(a + b + c, id, new, a.len() + j) == a + put_behind(b, id, new, j) + c,
    decreases b.len() - j,
{
    let s = a + b + c;
    let k = choose|k: int| j <= k < b.len() && b[k] == id;
    assert(s[a.len() + j] == b[j]);
    if b[j] == id {
        assert(s.insert(a.len() + j + 1, new) =~= a + b.insert(j + 1, new) + c);
    } else {
        assert(j + 1 <= k);
        lemma_put_inside(a, b, c, id, new, j + 1);
    }
}

/// The ids of the children `i..n`.
pub open spec fn ids_range(children: Seq<Tree>, i: int, n: int) -> Seq<usize>
    decreases n - i,
{
    if i >= n || n > children.len() || i < 0 {
        Seq::empty()
    } else {
        ids_range(children, i, n - 1) + ids(children[n - 1])
    }
}

proof fn lemma_ids_split(children: Seq<Tree>, i: int, n: nat)
    requires
        0 <= i <= n <= children.len(),
    ensures
        ids_upto(children, n) == ids_upto(children, i as nat) + ids_range(children, i, n as int),
    decreases n,
{
    if i < n {
        lemma_ids_split(children, i, (n - 1) as nat);
        assert(ids_upto(children, i as nat) + (ids_range(children, i, n - 1) + ids(children[n - 1]))
            =~= ids_upto(children, i as nat) + ids_range(children, i, n - 1) + ids(children[n - 1]));
    } else {
        assert(ids_upto(children, n) + Seq::<usize>::empty() =~= ids_upto(children, n));
    }
}

proof fn lemma_range_shift(a: Seq<Tree>, b: Seq<Tree>, i: int, j: int, k: nat)
    requires
        0 <= i,
        0 <= j,
        i + k <= a.len(),
        j + k <= b.len(),
        forall|q: int| 0 <= q < k ==> #[trigger] a[i + q] == b[j + q],
    ensures
        ids_range(a, i, i + k) == ids_range(b, j, j + k),
    decreases k,
{
    if k > 0 {
        lemma_range_shift(a, b, i, j, (k - 1) as nat);
        assert(a[i + (k - 1)] == b[j + (k - 1)]);
    }
}

/// The ids of a row, with those of one child apart.
proof fn lemma_ids_around(children: Seq<Tree>, k: int)
    requires
        0 <= k < children.len(),
    ensures
        ids_upto(children, children.len()) == ids_upto(children, k as nat) + ids(children[k])
            + ids_range(children, k + 1, children.len() as int),
{
    lemma_ids_split(children, k + 1, children.len());
    assert(ids_upto(children, (k + 1) as nat) == ids_upto(children, k as nat) + ids(children[k]));
}

/// Splitting a window adds the new one right behind it, and nothing else.
pub proof fn law_split_adds_one(t: Tree, id: usize, vertical: bool, new: WinView)
    requires
        ids(t).no_duplicates(),
    ensures
        split_at(t, id, vertical, new) is Some <==> ids(t).contains(id),
        split_at(t, id, vertical, new) is Some ==> ids(split_at(t, id, vertical, new)->0)
            == put_behind(ids(t), id, new.id, 0),
    decreases t, 0nat,
{
    match t {
        Tree::Leaf(w) => {
            assert(ids(t)[0] == w.id);
            if w.id == id {
                let cs = seq![t, Tree::Leaf(new)];
                reveal_with_fuel(ids_upto, 3);
                assert(ids_upto(cs, 2) =~= seq![w.id, new.id]);
                assert(ids(t).insert(1, new.id) =~= seq![w.id, new.id]);
            }
        },
        Tree::Split { vertical: v, children } => {
            let all = ids_upto(children, children.len());
            if v == vertical && own_leaf(children, id, 0) is Some {
                lemma_own_leaf(children, id, 0);
                let i = own_leaf(children, id, 0)->0;
                let n = children.len() as int;
                lemma_ids_around(children, i);
                let a = ids_upto(children, i as nat);
                let b = ids(children[i]);
                let c = ids_range(children, i + 1, n);
                assert(b[0] == id);
                assert(b.contains(id));
                assert(all[a.len() as int] == id);
                assert(!a.contains(id)) by {
                    if a.contains(id) {
                        let q = choose|q: int| 0 <= q < a.len() && a[q] == id;
                        assert(all[q] == id);
                    }
                }
                lemma_put_behind(a, b, c, id, new.id, 0);
                let now = children.insert(i + 1, Tree::Leaf(new));
                lemma_ids_around(now, i + 1);
                lemma_ids_prefix(now, children, (i + 1) as nat);
                assert(ids_upto(children, (i + 1) as nat) == a + b);
                lemma_range_shift(now, children, i + 2, i + 1, (n - i - 1) as nat);
                assert(put_behind(b, id, new.id, 0) =~= b + seq![new.id]);
                assert(a + b + seq![new.id] + c =~= a + (b + seq![new.id]) + c);
            } else {
                lemma_split_upto(children, id, vertical, new, children.len());
            }
        },
    }
}

proof fn lemma_child_no_dup(children: Seq<Tree>, k: int)
    requires
        0 <= k < children.len(),
        ids_upto(children, children.len()).no_duplicates(),
    ensures
        ids(children[k]).no_duplicates(),
        forall|id: usize|
            ids(children[k]).contains(id) ==> !#[trigger] ids_upto(children, k as nat).contains(id),
{
    lemma_ids_around(children, k);
    let all = ids_upto(children, children.len());
    let a = ids_upto(children, k as nat);
    let b = ids(children[k]);
    assert forall|i: int, j: int| 0 <= i < j < b.len() implies b[i] != b[j] by {
        assert(all[a.len() + i] == b[i]);
        assert(all[a.len() + j] == b[j]);
    }
    assert forall|id: usize| b.contains(id) implies !#[trigger] a.contains(id) by {
        if a.contains(id) {
            let p = choose|p: int| 0 <= p < a.len() && a[p] == id;
            let q = choose|q: int| 0 <= q < b.len() && b[q] == id;
            assert(all[p] == id);
            assert(all[a.len() + q] == id);
        }
    }
}

proof fn lemma_split_upto(children: Seq<Tree>, id: usize, vertical: bool, new: WinView, n: nat)
    requires
        n <= children.len(),
        ids_upto(children, children.len()).no_duplicates(),
    ensures
        split_upto(children, id, vertical, new, n) is Some <==> ids_upto(children, n).contains(id),
        split_upto(children, id, vertical, new, n) matches Some(cs) ==> ids_upto(cs, cs.len())
            == put_behind(ids_upto(children, children.len()), id, new.id, 0),
    decreases children, n,
{
    if n > 0 {
        lemma_split_upto(children, id, vertical, new, (n - 1) as nat);
        let c = children[n - 1];
        lemma_child_no_dup(children, n - 1);
        law_split_adds_one(c, id, vertical, new);
        let a = ids_upto(children, (n - 1) as nat);
        let b = ids(c);
        assert(ids_upto(children, n) == a + b);
        if a.contains(id) {
            let i = choose|i: int| 0 <= i < a.len() && a[i] == id;
            assert((a + b)[i] == id);
        } else if b.contains(id) {
            let i = choose|i: int| 0 <= i < b.len() && b[i] == id;
            assert((a + b)[a.len() + i] == id);
            let cs = children.update(n - 1, split_at(c, id, vertical, new)->0);
            let tail = ids_range(children, n as int, children.len() as int);
            lemma_ids_around(children, n - 1);
            lemma_ids_around(cs, n - 1);
            lemma_ids_prefix(cs, children, (n - 1) as nat);
            lemma_range_shift(cs, children, n as int, n as int, (children.len() - n) as nat);
            lemma_put_behind(a, b, tail, id, new.id, 0);
        } else if (a + b).contains(id) {
            let i = choose|i: int| 0 <= i < (a + b).len() && (a + b)[i] == id;
            if i < a.len() {
                assert(a[i] == id);
            } else {
                assert(b[i - a.len()] == id);
            }
        }
    }
}

proof fn lemma_own_leaf(children: Seq<Tree>, id: usize, i: int)
    requires
        0 <= i,
    ensures
        own_leaf(children, id, i) matches Some(k) ==> i <= k < children.len() && is_leaf_of(
            children[k],
            id,
        ),
    decreases children.len() - i,
{
    if i < children.len() && !is_leaf_of(children[i], id) {
        lemma_own_leaf(children, id, i + 1);
    }
}

proof fn lemma_closed_upto_wf(children: Seq<Tree>, id: usize, n: nat)
    requires
        n <= children.len(),
        trees_wf(children, children.len()),
        ids_upto(children, children.len()).no_duplicates(),
    ensures
        trees_wf(closed_upto(children, id, n), closed_upto(children, id, n).len()),
        closed_upto(children, id, n).len() <= n,
        closed_upto(children, id, n).len() >= n - 1,
        !ids_upto(children, n).contains(id) ==> closed_upto(children, id, n).len() == n,
    decreases children, n,
{
    lemma_trees_wf(children, children.len());
    if n > 0 {
        let c = children[n - 1];
        lemma_closed_upto_wf(children, id, (n - 1) as nat);
        lemma_child_no_dup(children, n - 1);
        let before = closed_upto(children, id, (n - 1) as nat);
        let a = ids_upto(children, (n - 1) as nat);
        assert(ids_upto(children, n) == a + ids(c));
        if !(a + ids(c)).contains(id) {
            if a.contains(id) {
                let i = choose|i: int| 0 <= i < a.len() && a[i] == id;
                assert((a + ids(c))[i] == id);
            }
        }
        if is_leaf_of(c, id) {
            assert(ids(c)[0] == id);
            assert(ids(c).contains(id));
            assert(!a.contains(id));
            assert((a + ids(c))[a.len() as int] == id);
        } else {
            law_close_keeps_splits(c, id);
            let now = before.push(closed(c, id));
            lemma_trees_wf(before, before.len());
            lemma_trees_wf(now, now.len());
            assert forall|i: int| 0 <= i < now.len() implies tree_wf(#[trigger] now[i]) by {
                if i < before.len() {
                    assert(now[i] == before[i]);
                }
            }
        }
    }
}

/// Closing a window leaves no split with fewer than two children.
pub proof fn law_close_keeps_splits(t: Tree, id: usize)
    requires
        tree_wf(t),
        ids(t).no_duplicates(),
        !is_leaf_of(t, id),
    ensures
        tree_wf(closed(t, id)),
    decreases t, 0nat,
{
    match t {
        Tree::Leaf(_) => {},
        Tree::Split { vertical, children } => {
            lemma_closed_upto_wf(children, id, children.len());
            let kept = closed_upto(children, id, children.len());
            lemma_trees_wf(kept, kept.len());
            if kept.len() == 1 {
                assert(tree_wf(kept[0]));
            }
        },
    }
}

proof fn lemma_split_upto_wf(
    children: Seq<Tree>,
    id: usize,
    vertical: bool,
    new: WinView,
    n: nat,
)
    requires
        n <= children.len(),
        trees_wf(children, children.len()),
    ensures
        split_upto(children, id, vertical, new, n) matches Some(cs) ==> trees_wf(cs, cs.len())
            && cs.len() == children.len(),
    decreases children, n,
{
    lemma_trees_wf(children, children.len());
    if n > 0 {
        lemma_split_upto_wf(children, id, vertical, new, (n - 1) as nat);
        law_split_keeps_splits(children[n - 1], id, vertical, new);
        if let Some(c) = split_at(children[n - 1], id, vertical, new) {
            let cs = children.update(n - 1, c);
            lemma_trees_wf(cs, cs.len());
            assert forall|i: int| 0 <= i < cs.len() implies tree_wf(#[trigger] cs[i]) by {
                if i != n - 1 {
                    assert(cs[i] == children[i]);
                }
            }
        }
    }
}

/// Splitting a window leaves no split with fewer than two children.
pub proof fn law_split_keeps_splits(t: Tree, id: usize, vertical: bool, new: WinView)
    requires
        tree_wf(t),
    ensures
        split_at(t, id, vertical, new) matches Some(s) ==> tree_wf(s),
    decreases t, 0nat,
{
    match t {
        Tree::Leaf(w) => {
            if w.id == id {
                let cs = seq![t, Tree::Leaf(new)];
                lemma_trees_wf(cs, 2);
                assert(tree_wf(cs[0]) && tree_wf(cs[1]));
            }
        },
        Tree::Split { vertical: v, children } => {
            lemma_trees_wf(children, children.len());
            if v == vertical && own_leaf(children, id, 0) is Some {
                lemma_own_leaf(children, id, 0);
                let i = own_leaf(children, id, 0)->0;
                let now = children.insert(i + 1, Tree::Leaf(new));
                lemma_trees_wf(now, now.len());
                assert forall|k: int| 0 <= k < now.len() implies tree_wf(#[trigger] now[k]) by {
                    if k <= i {
                        assert(now[k] == children[k]);
                    } else if k > i + 1 {
                        assert(now[k] == children[k - 1]);
                    }
                }
            } else {
                lemma_split_upto_wf(children, id, vertical, new, children.len());
            }
        },
    }
}

proof fn lemma_absent_below(children: Seq<Tree>, id: usize, n: nat)
    requires
        n <= children.len(),
        !ids_upto(children, n).contains(id),
    ensures
        forall|i: int| 0 <= i < n ==> !ids(#[trigger] children[i]).contains(id),
    decreases n,
{
    if n > 0 {
        let a = ids_upto(children, (n - 1) as nat);
        let b = ids(children[n - 1]);
        assert forall|i: int| 0 <= i < a.len() implies a[i] != id by {
            assert((a + b)[i] == a[i]);
        }
        assert forall|i: int| 0 <= i < b.len() implies b[i] != id by {
            assert((a + b)[i + a.len()] == b[i]);
        }
        lemma_absent_below(children, id, (n - 1) as nat);
    }
}

/// Closing a window that is not there changes nothing.
pub proof fn law_closing_no_window_changes_nothing(t: Tree, id: usize)
    requires
        tree_wf(t),
        !ids(t).contains(id),
    ensures
        closed(t, id) == t,
        !is_leaf_of(t, id),
    decreases t, 0nat,
{
    match t {
        Tree::Leaf(w) => {
            assert(ids(t)[0] == w.id);
        },
        Tree::Split { vertical, children } => {
            lemma_trees_wf(children, children.len());
            lemma_absent_below(children, id, children.len());
            lemma_closing_none(children, id, children.len());
            assert(children.take(children.len() as int) =~= children);
        },
    }
}

proof fn lemma_closing_none(children: Seq<Tree>, id: usize, n: nat)
    requires
        n <= children.len(),
        forall|i: int| 0 <= i < children.len() ==> tree_wf(#[trigger] children[i]),
        forall|i: int| 0 <= i < children.len() ==> !ids(#[trigger] children[i]).contains(id),
    ensures
        closed_upto(children, id, n) == children.take(n as int),
    decreases children, n,
{
    if n > 0 {
        lemma_closing_none(children, id, (n - 1) as nat);
        law_closing_no_window_changes_nothing(children[n - 1], id);
        assert(children.take(n as int) =~= children.take(n - 1).push(children[n - 1]));
    } else {
        assert(children.take(0) =~= Seq::empty());
    }
}

/// A row with a window put in at `j`, closed again.
proof fn lemma_closing_inserted(children: Seq<Tree>, new: WinView, j: int, n: nat)
    requires
        0 <= j <= children.len(),
        n <= children.len() + 1,
        forall|i: int| 0 <= i < children.len() ==> tree_wf(#[trigger] children[i]),
        forall|i: int| 0 <= i < children.len() ==> !ids(#[trigger] children[i]).contains(new.id),
    ensures
        closed_upto(children.insert(j, Tree::Leaf(new)), new.id, n) == children.take(
            if n <= j {
                n as int
            } else {
                n - 1
            },
        ),
    decreases n,
{
    let cs = children.insert(j, Tree::Leaf(new));
    if n == 0 {
        assert(children.take(0) =~= Seq::empty());
    } else {
        lemma_closing_inserted(children, new, j, (n - 1) as nat);
        if n - 1 < j {
            assert(cs[n - 1] == children[n - 1]);
            law_closing_no_window_changes_nothing(children[n - 1], new.id);
            assert(children.take(n as int) =~= children.take(n - 1).push(children[n - 1]));
        } else if n - 1 > j {
            assert(cs[n - 1] == children[n - 2]);
            law_closing_no_window_changes_nothing(children[n - 2], new.id);
            assert(children.take(n - 1) =~= children.take(n - 2).push(children[n - 2]));
        } else {
            assert(cs[n - 1] == Tree::Leaf(new));
        }
    }
}

/// A row in which the `k`th child holds one window more, closed again.
proof fn lemma_closing_updated(children: Seq<Tree>, id: usize, k: int, c: Tree, n: nat)
    requires
        0 <= k < children.len(),
        n <= children.len(),
        closed(c, id) == children[k],
        !is_leaf_of(c, id),
        forall|i: int| 0 <= i < children.len() ==> tree_wf(#[trigger] children[i]),
        forall|i: int| 0 <= i < children.len() ==> !ids(#[trigger] children[i]).contains(id),
    ensures
        closed_upto(children.update(k, c), id, n) == children.take(n as int),
    decreases n,
{
    let cs = children.update(k, c);
    if n == 0 {
        assert(children.take(0) =~= Seq::empty());
    } else {
        lemma_closing_updated(children, id, k, c, (n - 1) as nat);
        if n - 1 != k {
            assert(cs[n - 1] == children[n - 1]);
            law_closing_no_window_changes_nothing(children[n - 1], id);
        }
        assert(children.take(n as int) =~= children.take(n - 1).push(children[n - 1]));
    }
}

proof fn lemma_split_upto_where(
    children: Seq<Tree>,
    id: usize,
    vertical: bool,
    new: WinView,
    n: nat,
) -> (k: int)
    requires
        n <= children.len(),
        split_upto(children, id, vertical, new, n) is Some,
    ensures
        0 <= k < n,
        split_at(children[k], id, vertical, new) is Some,
        split_upto(children, id, vertical, new, n)->0 == children.update(
            k,
            split_at(children[k], id, vertical, new)->0,
        ),
    decreases n,
{
    if split_upto(children, id, vertical, new, (n - 1) as nat) is Some {
        lemma_split_upto_where(children, id, vertical, new, (n - 1) as nat)
    } else {
        n - 1
    }
}

/// Closing the window that a split made gives the layout back.
pub proof fn law_closing_undoes_splitting(t: Tree, id: usize, vertical: bool, new: WinView)
    requires
        tree_wf(t),
        !ids(t).contains(new.id),
        split_at(t, id, vertical, new) is Some,
    ensures
        closed(split_at(t, id, vertical, new)->0, new.id) == t,
    decreases t, 0nat,
{
    let s = split_at(t, id, vertical, new)->0;
    match t {
        Tree::Leaf(w) => {
            assert(ids(t)[0] == w.id);
            let cs = seq![t, Tree::Leaf(new)];
            reveal_with_fuel(closed_upto, 3);
            assert(cs[0] == t && cs[1] == Tree::Leaf(new));
            assert(closed_upto(cs, new.id, 1) =~= seq![t]);
            assert(closed_upto(cs, new.id, 2) =~= seq![t]);
        },
        Tree::Split { vertical: v, children } => {
            lemma_trees_wf(children, children.len());
            lemma_absent_below(children, new.id, children.len());
            assert(children.take(children.len() as int) =~= children);
            if v == vertical && own_leaf(children, id, 0) is Some {
                lemma_own_leaf(children, id, 0);
                let j = own_leaf(children, id, 0)->0 + 1;
                lemma_closing_inserted(children, new, j, (children.len() + 1) as nat);
            } else {
                let k = lemma_split_upto_where(children, id, vertical, new, children.len());
                let c = split_at(children[k], id, vertical, new)->0;
                law_closing_undoes_splitting(children[k], id, vertical, new);
                lemma_closing_updated(children, new.id, k, c, children.len());
            }
        },
    }
}

// ---- rectangles -------------------------------------------------------------

/// A coordinate, kept within what a terminal can have.
pub open spec fn cell(n: int) -> u16 {
    if n > 65535 {
        65535
    } else if n < 0 {
        0
    } else {
        n as u16
    }
}

/// The width (or height) of each of `n` children but the last: what is left
/// of `total` after the separators between them, shared.
pub open spec fn share(total: u16, n: int) -> int {
    if total > n - 1 {
        (total - (n - 1)) / n
    } else {
        0
    }
}

/// Where the `i`th child starts, a separator after each one before it.
pub open spec fn child_start(start: u16, total: u16, n: int, i: int) -> int {
    start + i * (share(total, n) + 1)
}

/// How far the `i`th child reaches: the last takes what is left.
pub open spec fn child_size(start: u16, total: u16, n: int, i: int) -> int {
    if i == n - 1 {
        if start + total > child_start(start, total, n, i) {
            start + total - child_start(start, total, n, i)
        } else {
            0
        }
    } else {
        share(total, n)
    }
}

/// The rectangle of the `i`th of `n` children.
pub open spec fn child_rect(vertical: bool, r: Rect, n: int, i: int) -> Rect {
    if vertical {
        (cell(child_start(r.0, r.2, n, i)), r.1, cell(child_size(r.0, r.2, n, i)), r.3)
    } else {
        (r.0, cell(child_start(r.1, r.3, n, i)), r.2, cell(child_size(r.1, r.3, n, i)))
    }
}

/// The separator behind the `i`th of `n` children.
pub open spec fn separator(vertical: bool, r: Rect, n: int, i: int) -> (Rect, bool) {
    if vertical {
        (
            (
                cell(child_start(r.0, r.2, n, i) + child_size(r.0, r.2, n, i)),
                r.1,
                1,
                r.3,
            ),
            true,
        )
    } else {
        (
            (
                r.0,
                cell(child_start(r.1, r.3, n, i) + child_size(r.1, r.3, n, i)),
                r.2,
                1,
            ),
            false,
        )
    }
}

/// Every window's rectangle, in order.
pub open spec fn rects_of(t: Tree, r: Rect) -> Seq<(usize, Rect)>
    decreases t, 0nat,
{
    match t {
        Tree::Leaf(w) => seq![(w.id, r)],
        Tree::Split { vertical, children } => rects_upto(children, vertical, r, children.len()),
    }
}

pub open spec fn rects_upto(children: Seq<Tree>, vertical: bool, r: Rect, n: nat) -> Seq<
    (usize, Rect),
>
    decreases children, n,
{
    if n == 0 || n > children.len() {
        Seq::empty()
    } else {
        rects_upto(children, vertical, r, (n - 1) as nat) + rects_of(
            children[n - 1],
            child_rect(vertical, r, children.len() as int, n - 1),
        )
    }
}

/// Every separator: those of each child, then the one behind it.
pub open spec fn separators_of(t: Tree, r: Rect) -> Seq<(Rect, bool)>
    decreases t, 0nat,
{
    match t {
        Tree::Leaf(w) => Seq::empty(),
        Tree::Split { vertical, children } => separators_upto(
            children,
            vertical,
            r,
            children.len(),
        ),
    }
}

pub open spec fn separators_upto(children: Seq<Tree>, vertical: bool, r: Rect, n: nat) -> Seq<
    (Rect, bool),
>
    decreases children, n,
{
    if n == 0 || n > children.len() {
        Seq::empty()
    } else {
        let own = separators_upto(children, vertical, r, (n - 1) as nat) + separators_of(
            children[n - 1],
            child_rect(vertical, r, children.len() as int, n - 1),
        );
        if n < children.len() {
            own.push(separator(vertical, r, children.len() as int, n - 1))
        } else {
            own
        }
    }
}

proof fn lemma_share(total: u16, n: int, i: int)
    requires
        n >= 1,
        0 <= i < n,
    ensures
        0 <= share(total, n) <= total,
        0 <= i * (share(total, n) + 1),
        total >= n - 1 ==> i * (share(total, n) + 1) <= total,
        total >= n - 1 && i < n - 1 ==> i * (share(total, n) + 1) + share(total, n) + 1 <= total,
{
    let e = share(total, n);
    if total > n - 1 {
        let rest = total - (n - 1);
        assert(n * e <= rest && 0 <= e <= rest) by (nonlinear_arith)
            requires
                e == rest / n,
                n >= 1,
                rest >= 0,
        ;
        assert(i * (e + 1) <= (n - 1) * (e + 1)) by (nonlinear_arith)
            requires
                0 <= i <= n - 1,
                0 <= e,
        ;
        assert((n - 1) * (e + 1) <= n * e + (n - 1)) by (nonlinear_arith)
            requires
                0 <= e,
                n >= 1,
        ;
        if i < n - 1 {
            assert((i + 1) * (e + 1) <= (n - 1) * (e + 1)) by (nonlinear_arith)
                requires
                    0 <= i + 1 <= n - 1,
                    0 <= e,
            ;
            assert((i + 1) * (e + 1) == i * (e + 1) + e + 1) by (nonlinear_arith);
        }
    } else {
        assert(i * (e + 1) == i) by (nonlinear_arith)
            requires
                e == 0,
        ;
    }
    assert(0 <= i * (e + 1)) by (nonlinear_arith)
        requires
            0 <= i,
            0 <= e,
    ;
}

/// Whether one rectangle lies within another.
pub open spec fn within(a: Rect, b: Rect) -> bool {
    b.0 <= a.0 && a.0 + a.2 <= b.0 + b.2 && b.1 <= a.1 && a.1 + a.3 <= b.1 + b.3
}

/// Whether no cell is in both rectangles.
pub open spec fn apart(a: Rect, b: Rect) -> bool {
    a.0 + a.2 <= b.0 || b.0 + b.2 <= a.0 || a.1 + a.3 <= b.1 || b.1 + b.3 <= a.1
}

/// Whether there is room in `r` for the separators of every split.
pub open spec fn roomy(t: Tree, r: Rect) -> bool
    decreases t, 0nat,
{
    match t {
        Tree::Leaf(_) => true,
        Tree::Split { vertical, children } => {
            (if vertical {
                r.2
            } else {
                r.3
            }) >= children.len() - 1 && roomy_upto(children, vertical, r, children.len())
        },
    }
}

pub open spec fn roomy_upto(children: Seq<Tree>, vertical: bool, r: Rect, n: nat) -> bool
    decreases children, n,
{
    n == 0 || n > children.len() || (roomy_upto(children, vertical, r, (n - 1) as nat) && roomy(
        children[n - 1],
        child_rect(vertical, r, children.len() as int, n - 1),
    ))
}

proof fn lemma_child_rect(vertical: bool, r: Rect, n: int, i: int)
    requires
        0 <= i < n,
        r.0 + r.2 <= 65535,
        r.1 + r.3 <= 65535,
        (if vertical {
            r.2
        } else {
            r.3
        }) >= n - 1,
    ensures
        within(child_rect(vertical, r, n, i), r),
        vertical ==> child_rect(vertical, r, n, i).0 == r.0 + i * (share(r.2, n) + 1),
        !vertical ==> child_rect(vertical, r, n, i).1 == r.1 + i * (share(r.3, n) + 1),
        vertical && i < n - 1 ==> child_rect(vertical, r, n, i).2 == share(r.2, n),
        !vertical && i < n - 1 ==> child_rect(vertical, r, n, i).3 == share(r.3, n),
{
    lemma_share(r.2, n, i);
    lemma_share(r.3, n, i);
}

/// Two children of a split, side by side or stacked, share no cell.
proof fn lemma_children_apart(vertical: bool, r: Rect, n: int, i: int, j: int, a: Rect, b: Rect)
    requires
        0 <= i < j < n,
        r.0 + r.2 <= 65535,
        r.1 + r.3 <= 65535,
        (if vertical {
            r.2
        } else {
            r.3
        }) >= n - 1,
        within(a, child_rect(vertical, r, n, i)),
        within(b, child_rect(vertical, r, n, j)),
    ensures
        apart(a, b),
{
    lemma_child_rect(vertical, r, n, i);
    lemma_child_rect(vertical, r, n, j);
    let e = if vertical {
        share(r.2, n)
    } else {
        share(r.3, n)
    };
    lemma_share(r.2, n, i);
    lemma_share(r.3, n, i);
    assert(i * (e + 1) + e + 1 <= j * (e + 1)) by (nonlinear_arith)
        requires
            0 <= i < j,
            0 <= e,
    ;
}

/// Whether a rectangle lies within one of the first `n` of `m` children.
pub open spec fn in_a_child(a: Rect, vertical: bool, r: Rect, m: int, n: int) -> bool {
    exists|i: int| 0 <= i < n && #[trigger] within(a, child_rect(vertical, r, m, i))
}

proof fn lemma_rects_upto(children: Seq<Tree>, vertical: bool, r: Rect, n: nat)
    requires
        n <= children.len(),
        roomy_upto(children, vertical, r, n),
        r.0 + r.2 <= 65535,
        r.1 + r.3 <= 65535,
        (if vertical {
            r.2
        } else {
            r.3
        }) >= children.len() - 1,
    ensures
        rects_upto(children, vertical, r, n).len() == ids_upto(children, n).len(),
        forall|k: int|
            0 <= k < rects_upto(children, vertical, r, n).len() ==> (#[trigger] rects_upto(
                children,
                vertical,
                r,
                n,
            )[k]).0 == ids_upto(children, n)[k],
        forall|k: int|
            0 <= k < rects_upto(children, vertical, r, n).len() ==> in_a_child(
                (#[trigger] rects_upto(children, vertical, r, n)[k]).1,
                vertical,
                r,
                children.len() as int,
                n as int,
            ),
        forall|k: int, l: int|
            0 <= k < l < rects_upto(children, vertical, r, n).len() ==> apart(
                (#[trigger] rects_upto(children, vertical, r, n)[k]).1,
                (#[trigger] rects_upto(children, vertical, r, n)[l]).1,
            ),
    decreases children, n,
{
    if n > 0 {
        let m = children.len() as int;
        let own = child_rect(vertical, r, m, n - 1);
        let before = rects_upto(children, vertical, r, (n - 1) as nat);
        let mine = rects_of(children[n - 1], own);
        lemma_rects_upto(children, vertical, r, (n - 1) as nat);
        lemma_child_rect(vertical, r, m, n - 1);
        law_windows_do_not_overlap(children[n - 1], own);
        let all = before + mine;
        assert(all == rects_upto(children, vertical, r, n));
        assert forall|k: int| 0 <= k < all.len() implies (#[trigger] all[k]).0 == ids_upto(
            children,
            n,
        )[k] by {
            if k < before.len() {
                assert(all[k] == before[k]);
            } else {
                assert(all[k] == mine[k - before.len()]);
            }
        }
        assert forall|k: int| 0 <= k < all.len() implies in_a_child(
            (#[trigger] all[k]).1,
            vertical,
            r,
            m,
            n as int,
        ) by {
            if k < before.len() {
                let i = choose|i: int|
                    0 <= i < n - 1 && #[trigger] within(
                        before[k].1,
                        child_rect(vertical, r, m, i),
                    );
                assert(within(all[k].1, child_rect(vertical, r, m, i)));
            } else {
                assert(all[k] == mine[k - before.len()]);
                assert(within(all[k].1, child_rect(vertical, r, m, n - 1)));
            }
        }
        assert forall|k: int, l: int| 0 <= k < l < all.len() implies apart(
            (#[trigger] all[k]).1,
            (#[trigger] all[l]).1,
        ) by {
            if l < before.len() {
                assert(all[k] == before[k] && all[l] == before[l]);
            } else if k >= before.len() {
                assert(all[k] == mine[k - before.len()] && all[l] == mine[l - before.len()]);
            } else {
                let i = choose|i: int|
                    0 <= i < n - 1 && #[trigger] within(
                        before[k].1,
                        child_rect(vertical, r, m, i),
                    );
                assert(all[l] == mine[l - before.len()]);
                lemma_children_apart(vertical, r, m, i, n - 1, all[k].1, all[l].1);
            }
        }
    }
}

/// Every window has a rectangle, in order; each lies within the area, and no
/// two share a cell, where there is room for the separators.
pub proof fn law_windows_do_not_overlap(t: Tree, r: Rect)
    requires
        roomy(t, r),
        r.0 + r.2 <= 65535,
        r.1 + r.3 <= 65535,
    ensures
        rects_of(t, r).len() == ids(t).len(),
        forall|k: int|
            0 <= k < rects_of(t, r).len() ==> (#[trigger] rects_of(t, r)[k]).0 == ids(t)[k],
        forall|k: int|
            0 <= k < rects_of(t, r).len() ==> within((#[trigger] rects_of(t, r)[k]).1, r),
        forall|k: int, l: int|
            0 <= k < l < rects_of(t, r).len() ==> apart(
                (#[trigger] rects_of(t, r)[k]).1,
                (#[trigger] rects_of(t, r)[l]).1,
            ),
    decreases t, 0nat,
{
    match t {
        Tree::Leaf(w) => {},
        Tree::Split { vertical, children } => {
            lemma_rects_upto(children, vertical, r, children.len());
            let all = rects_upto(children, vertical, r, children.len());
            assert forall|k: int| 0 <= k < all.len() implies within((#[trigger] all[k]).1, r) by {
                let i = choose|i: int|
                    0 <= i < children.len() && #[trigger] within(
                        all[k].1,
                        child_rect(vertical, r, children.len() as int, i),
                    );
                lemma_child_rect(vertical, r, children.len() as int, i);
            }
        },
    }
}

/// Whether a cell lies in a rectangle.
pub open spec fn holds_cell(r: Rect, x: int, y: int) -> bool {
    r.0 <= x < r.0 + r.2 && r.1 <= y < r.1 + r.3
}

/// How many of the windows hold a cell.
pub open spec fn windows_at(v: Seq<(usize, Rect)>, x: int, y: int) -> nat
    decreases v.len(),
{
    if v.len() == 0 {
        0
    } else {
        windows_at(v.drop_last(), x, y) + (if holds_cell(v.last().1, x, y) {
            1nat
        } else {
            0
        })
    }
}

/// How many of the separators hold a cell.
pub open spec fn separators_at(v: Seq<(Rect, bool)>, x: int, y: int) -> nat
    decreases v.len(),
{
    if v.len() == 0 {
        0
    } else {
        separators_at(v.drop_last(), x, y) + (if holds_cell(v.last().0, x, y) {
            1nat
        } else {
            0
        })
    }
}

proof fn lemma_windows_at_add(a: Seq<(usize, Rect)>, b: Seq<(usize, Rect)>, x: int, y: int)
    ensures
        windows_at(a + b, x, y) == windows_at(a, x, y) + windows_at(b, x, y),
    decreases b.len(),
{
    if b.len() == 0 {
        assert(a + b =~= a);
    } else {
        lemma_windows_at_add(a, b.drop_last(), x, y);
        assert((a + b).drop_last() =~= a + b.drop_last());
    }
}

proof fn lemma_separators_at_add(a: Seq<(Rect, bool)>, b: Seq<(Rect, bool)>, x: int, y: int)
    ensures
        separators_at(a + b, x, y) == separators_at(a, x, y) + separators_at(b, x, y),
    decreases b.len(),
{
    if b.len() == 0 {
        assert(a + b =~= a);
    } else {
        lemma_separators_at_add(a, b.drop_last(), x, y);
        assert((a + b).drop_last() =~= a + b.drop_last());
    }
}

/// Where the first `n` of `m` children, with the separators behind them, end.
spec fn part_end(start: u16, total: u16, m: int, n: int) -> int {
    if n < m {
        child_start(start, total, m, n)
    } else {
        start + total
    }
}

/// One child and the separator behind it take up what lies between where the
/// children before it end and where those up to it end.
proof fn lemma_part(vertical: bool, r: Rect, m: int, i: int, x: int, y: int)
    requires
        0 <= i < m,
        r.0 + r.2 <= 65535,
        r.1 + r.3 <= 65535,
        (if vertical {
            r.2
        } else {
            r.3
        }) >= m - 1,
    ensures
        ({
            let at = if vertical {
                x
            } else {
                y
            };
            let (start, total) = if vertical {
                (r.0, r.2)
            } else {
                (r.1, r.3)
            };
            let a = part_end(start, total, m, i);
            let b = part_end(start, total, m, i + 1);
            let own = child_rect(vertical, r, m, i);
            let sep = separator(vertical, r, m, i).0;
            &&& start <= a <= b <= start + total
            &&& i < m - 1 ==> (holds_cell(own, x, y) <==> holds_cell(r, x, y) && a <= at < b - 1)
            &&& i < m - 1 ==> (holds_cell(sep, x, y) <==> holds_cell(r, x, y) && at == b - 1)
            &&& i == m - 1 ==> (holds_cell(own, x, y) <==> holds_cell(r, x, y) && a <= at < b)
        }),
{
    let (start, total) = if vertical {
        (r.0, r.2)
    } else {
        (r.1, r.3)
    };
    let e = share(total, m);
    lemma_share(total, m, i);
    assert((i + 1) * (e + 1) == i * (e + 1) + e + 1) by (nonlinear_arith);
}

proof fn lemma_owners_upto(
    children: Seq<Tree>,
    vertical: bool,
    r: Rect,
    n: nat,
    x: int,
    y: int,
)
    requires
        n <= children.len(),
        children.len() > 0,
        roomy_upto(children, vertical, r, n),
        trees_wf(children, children.len()),
        r.0 + r.2 <= 65535,
        r.1 + r.3 <= 65535,
        (if vertical {
            r.2
        } else {
            r.3
        }) >= children.len() - 1,
    ensures
        windows_at(rects_upto(children, vertical, r, n), x, y) + separators_at(
            separators_upto(children, vertical, r, n),
            x,
            y,
        ) == (if holds_cell(r, x, y) && (if vertical {
            x < part_end(r.0, r.2, children.len() as int, n as int)
        } else {
            y < part_end(r.1, r.3, children.len() as int, n as int)
        }) {
            1nat
        } else {
            0
        }),
    decreases children, n,
{
    let m = children.len() as int;
    if n > 0 {
        let own = child_rect(vertical, r, m, n - 1);
        let ws = rects_upto(children, vertical, r, (n - 1) as nat);
        let ss = separators_upto(children, vertical, r, (n - 1) as nat);
        let w = rects_of(children[n - 1], own);
        let s = separators_of(children[n - 1], own);
        lemma_trees_wf(children, children.len());
        lemma_owners_upto(children, vertical, r, (n - 1) as nat, x, y);
        lemma_child_rect(vertical, r, m, n - 1);
        lemma_part(vertical, r, m, n - 1, x, y);
        law_every_cell_has_one_owner(children[n - 1], own, x, y);
        lemma_windows_at_add(ws, w, x, y);
        lemma_separators_at_add(ss, s, x, y);
        if n < m {
            let behind = separator(vertical, r, m, n - 1);
            assert((ss + s).push(behind).drop_last() =~= ss + s);
        }
    } else {
        lemma_share(r.2, m, 0);
        lemma_share(r.3, m, 0);
        assert(0 * (share(r.2, m) + 1) == 0 && 0 * (share(r.3, m) + 1) == 0);
    }
}

/// The windows and the separators between them share out the area: each of
/// its cells lies in exactly one of them, and no other cell in any, where
/// there is room for the separators.
pub proof fn law_every_cell_has_one_owner(t: Tree, r: Rect, x: int, y: int)
    requires
        tree_wf(t),
        roomy(t, r),
        r.0 + r.2 <= 65535,
        r.1 + r.3 <= 65535,
    ensures
        windows_at(rects_of(t, r), x, y) + separators_at(separators_of(t, r), x, y) == (
        if holds_cell(r, x, y) {
            1nat
        } else {
            0
        }),
    decreases t, 0nat,
{
    match t {
        Tree::Leaf(w) => {
            let v = seq![(w.id, r)];
            assert(v.drop_last() =~= Seq::empty());
            assert(v.last() == (w.id, r));
            assert(windows_at(v.drop_last(), x, y) == 0);
        },
        Tree::Split { vertical, children } => {
            lemma_owners_upto(children, vertical, r, children.len(), x, y);
        },
    }
}

// ---- the tree itself --------------------------------------------------------

impl Layout {
    pub open spec fn wf(&self) -> bool {
        tree_wf(self@) && ids(self@).no_duplicates()
    }

    /// The ids of the windows, in order, put behind `out`.
    pub(crate) fn leaf_ids(&self, out: &mut Vec<usize>)
        ensures
            final(out)@ == old(out)@ + ids(self@),
        decreases self,
    {
        broadcast use vstd::std_specs::vec::axiom_vec_index_decreases;

        match self {
            Layout::Leaf(w) => {
                let ghost had = out@;
                out.push(w.id);
                assert(out@ =~= had + ids(self@));
            },
            Layout::Split { vertical, children } => {
                let ghost had = out@;
                let mut i: usize = 0;
                proof {
                    lemma_trees_upto(*children, children@.len());
                    assert(had + ids_upto(trees_upto(*children, children@.len()), 0) =~= had);
                }
                while i < children.len()
                    invariant
                        i <= children@.len(),
                        *self == (Layout::Split { vertical: *vertical, children: *children }),
                        trees_upto(*children, children@.len()).len() == children@.len(),
                        forall|k: int|
                            0 <= k < children@.len() ==> #[trigger] trees_upto(
                                *children,
                                children@.len(),
                            )[k] == tree_of(children@[k]),
                        out@ == had + ids_upto(trees_upto(*children, children@.len()), i as nat),
                    decreases children@.len() - i,
                {
                    proof {
                        lemma_child_smaller(*self, i as int);
                        let ts = trees_upto(*children, children@.len());
                        assert(ts[i as int] == tree_of(children@[i as int]));
                        assert(had + (ids_upto(ts, i as nat) + ids(ts[i as int])) =~= had + ids_upto(
                            ts,
                            i as nat,
                        ) + ids(ts[i as int]));
                    }
                    children[i].leaf_ids(out);
                    i += 1;
                }
            },
        }
    }

    /// The window `id`.
    pub fn find(&self, id: usize) -> (r: Option<&Window>)
        ensures
            match r {
                Some(w) => window_in(self@, id) == Some(w@),
                None => window_in(self@, id) is None,
            },
        decreases self,
    {
        match self {
            Layout::Leaf(w) => if w.id == id {
                Some(w)
            } else {
                None
            },
            Layout::Split { vertical, children } => {
                let mut i: usize = 0;
                proof {
                    lemma_trees_upto(*children, children@.len());
                }
                while i < children.len()
                    invariant
                        i <= children@.len(),
                        *self == (Layout::Split { vertical: *vertical, children: *children }),
                        trees_upto(*children, children@.len()).len() == children@.len(),
                        forall|k: int|
                            0 <= k < children@.len() ==> #[trigger] trees_upto(
                                *children,
                                children@.len(),
                            )[k] == tree_of(children@[k]),
                        window_upto(trees_upto(*children, children@.len()), id, i as nat) is None,
                    decreases children@.len() - i,
                {
                    proof {
                        lemma_child_smaller(*self, i as int);
                        let ts = trees_upto(*children, children@.len());
                        assert(ts[i as int] == tree_of(children@[i as int]));
                    }
                    if let Some(w) = children[i].find(id) {
                        proof {
                            let ts = trees_upto(*children, children@.len());
                            lemma_window_found(ts, id, (i + 1) as nat, ts.len());
                        }
                        return Some(w);
                    }
                    i += 1;
                }
                None
            },
        }
    }

    /// How many windows there are.
    pub(crate) fn count(&self) -> (r: usize)
        ensures
            r == ids(self@).len(),
    {
        let mut all: Vec<usize> = Vec::new();
        self.leaf_ids(&mut all);
        assert(all@ =~= ids(self@));
        all.len()
    }
}

proof fn lemma_child_smaller(l: Layout, i: int)
    requires
        l is Split,
        0 <= i < l->children@.len(),
    ensures
        decreases_to!(l => l->children@[i]),
{
    broadcast use vstd::std_specs::vec::axiom_vec_index_decreases;

    let children = l->children;
    assert(decreases_to!(l => l->children));
    assert(decreases_to!(children => children@[i]));
}

proof fn lemma_window_found(children: Seq<Tree>, id: usize, n: nat, m: nat)
    requires
        n <= m <= children.len(),
        window_upto(children, id, n) is Some,
    ensures
        window_upto(children, id, m) == window_upto(children, id, n),
    decreases m,
{
    if n < m {
        lemma_window_found(children, id, n, (m - 1) as nat);
    }
}

proof fn lemma_split_iff_window(t: Tree, id: usize, vertical: bool, new: WinView)
    ensures
        split_at(t, id, vertical, new) is Some <==> window_in(t, id) is Some,
    decreases t, 0nat,
{
    match t {
        Tree::Leaf(w) => {},
        Tree::Split { vertical: v, children } => {
            lemma_split_iff_upto(children, id, vertical, new, children.len());
            lemma_own_leaf(children, id, 0);
            if own_leaf(children, id, 0) is Some {
                let i = own_leaf(children, id, 0)->0;
                lemma_window_here(children, id, i, children.len());
            }
        },
    }
}

proof fn lemma_window_here(children: Seq<Tree>, id: usize, i: int, n: nat)
    requires
        0 <= i < n <= children.len(),
        window_in(children[i], id) is Some,
    ensures
        window_upto(children, id, n) is Some,
    decreases n,
{
    if i < n - 1 {
        lemma_window_here(children, id, i, (n - 1) as nat);
    }
}

proof fn lemma_split_iff_upto(children: Seq<Tree>, id: usize, vertical: bool, new: WinView, n: nat)
    requires
        n <= children.len(),
    ensures
        split_upto(children, id, vertical, new, n) is Some <==> window_upto(children, id, n) is Some,
    decreases children, n,
{
    if n > 0 {
        lemma_split_iff_upto(children, id, vertical, new, (n - 1) as nat);
        lemma_split_iff_window(children[n - 1], id, vertical, new);
    }
}

proof fn lemma_split_found(children: Seq<Tree>, id: usize, vertical: bool, new: WinView, n: nat, m: nat)
    requires
        n <= m <= children.len(),
        split_upto(children, id, vertical, new, n) is Some,
    ensures
        split_upto(children, id, vertical, new, m) == split_upto(children, id, vertical, new, n),
    decreases m,
{
    if n < m {
        lemma_split_found(children, id, vertical, new, n, (m - 1) as nat);
    }
}

/// What the children of a split are, as trees.
pub open spec fn child_trees(v: Vec<Layout>) -> Seq<Tree> {
    trees_upto(v, v@.len())
}

proof fn lemma_child_trees(v: Vec<Layout>)
    ensures
        child_trees(v).len() == v@.len(),
        forall|i: int| 0 <= i < v@.len() ==> #[trigger] child_trees(v)[i] == tree_of(v@[i]),
{
    lemma_trees_upto(v, v@.len());
}

proof fn lemma_with_window_upto(children: Seq<Tree>, id: usize, new: WinView, k: int, n: nat)
    requires
        0 <= k < children.len(),
        n <= children.len(),
        window_upto(children, id, k as nat) is None,
        window_in(children[k], id) is Some,
    ensures
        with_window_upto(children, id, new, n).len() == n,
        forall|i: int|
            0 <= i < n ==> #[trigger] with_window_upto(children, id, new, n)[i] == if i == k {
                with_window(children[k], id, new)
            } else {
                children[i]
            },
    decreases n,
{
    if n > 0 {
        lemma_with_window_upto(children, id, new, k, (n - 1) as nat);
        if n - 1 > k {
            lemma_window_here(children, id, k, (n - 1) as nat);
        } else if n - 1 < k {
            lemma_no_window(children, id, (n - 1) as nat, k as nat);
            lemma_with_window_none(children[n - 1], id, new);
        }
    }
}

/// Where no window of the first `m` has the id, none of fewer has.
proof fn lemma_no_window(children: Seq<Tree>, id: usize, n: nat, m: nat)
    requires
        n < m <= children.len(),
        window_upto(children, id, m) is None,
    ensures
        window_upto(children, id, n) is None,
        window_in(children[n as int], id) is None,
    decreases m,
{
    if n < m - 1 {
        lemma_no_window(children, id, n, (m - 1) as nat);
    }
}

pub proof fn lemma_with_window_none(t: Tree, id: usize, new: WinView)
    requires
        window_in(t, id) is None,
    ensures
        with_window(t, id, new) == t,
    decreases t, 0nat,
{
    match t {
        Tree::Leaf(_) => {},
        Tree::Split { vertical, children } => {
            lemma_with_window_none_upto(children, id, new, children.len());
            assert(with_window_upto(children, id, new, children.len()) =~= children);
        },
    }
}

proof fn lemma_with_window_none_upto(children: Seq<Tree>, id: usize, new: WinView, n: nat)
    requires
        n <= children.len(),
        window_upto(children, id, n) is None,
    ensures
        with_window_upto(children, id, new, n) =~= children.take(n as int),
    decreases children, n,
{
    if n > 0 {
        lemma_with_window_none_upto(children, id, new, (n - 1) as nat);
        lemma_with_window_none(children[n - 1], id, new);
    }
}

impl Layout {
    /// The window `id`, to change.
    pub fn find_mut(&mut self, id: usize) -> (r: Option<&mut Window>)
        ensures
            match r {
                Some(w) => window_in(old(self)@, id) == Some(w@) && final(self)@ == with_window(
                    old(self)@,
                    id,
                    final(w)@,
                ),
                None => window_in(old(self)@, id) is None && final(self)@ == old(self)@,
            },
        decreases *old(self), 1nat,
    {
        let ghost before = *self;
        match self {
            Layout::Leaf(w) => if w.id == id {
                Some(w)
            } else {
                None
            },
            Layout::Split { vertical, children } => {
                let ghost v = *children;
                let ghost vert = *vertical;
                let ghost ts = child_trees(v);
                proof {
                    lemma_child_trees(v);
                    assert(before == (Layout::Split { vertical: vert, children: v }));
                    assert(before@ == (Tree::Split { vertical: vert, children: ts }));
                }
                let i = match Layout::child_with(children, id) {
                    Some(i) => i,
                    None => {
                        return None;
                    },
                };
                proof {
                    assert(ts[i as int] == tree_of(v@[i as int]));
                    lemma_window_here(ts, id, i as int, ts.len());
                    lemma_window_found(ts, id, (i + 1) as nat, ts.len());
                    lemma_child_smaller(before, i as int);
                }
                Layout::find_mut_in(children, i, id)
            },
        }
    }

    /// The first of some trees that holds the window `id`.
    fn child_with(children: &Vec<Layout>, id: usize) -> (r: Option<usize>)
        ensures
            match r {
                Some(i) => i < children@.len() && window_in(tree_of(children@[i as int]), id) is Some
                    && window_upto(child_trees(*children), id, i as nat) is None,
                None => window_upto(child_trees(*children), id, children@.len()) is None,
            },
    {
        let ghost ts = child_trees(*children);
        proof {
            lemma_child_trees(*children);
        }
        let mut i: usize = 0;
        while i < children.len()
            invariant
                i <= children@.len(),
                ts == child_trees(*children),
                ts.len() == children@.len(),
                forall|k: int| 0 <= k < ts.len() ==> #[trigger] ts[k] == tree_of(children@[k]),
                window_upto(ts, id, i as nat) is None,
            decreases children@.len() - i,
        {
            assert(ts[i as int] == tree_of(children@[i as int]));
            if children[i].find(id).is_some() {
                return Some(i);
            }
            i += 1;
        }
        None
    }

    /// The window `id` of the `i`th of some trees, to change.
    fn find_mut_in(children: &mut Vec<Layout>, i: usize, id: usize) -> (r: Option<&mut Window>)
        requires
            i < old(children)@.len(),
            window_in(tree_of(old(children)@[i as int]), id) is Some,
            window_upto(child_trees(*old(children)), id, i as nat) is None,
        ensures
            match r {
                Some(w) => window_in(tree_of(old(children)@[i as int]), id) == Some(w@)
                    && child_trees(*final(children)) == with_window_upto(
                    child_trees(*old(children)),
                    id,
                    final(w)@,
                    old(children)@.len(),
                ),
                None => false,
            },
        decreases *old(children), 0nat,
    {
        broadcast use vstd::std_specs::vec::axiom_vec_index_decreases;

        let ghost v = *children;
        let ghost ts = child_trees(v);
        proof {
            lemma_child_trees(v);
            assert(ts[i as int] == tree_of(v@[i as int]));
            assert forall|now: Vec<Layout>, x: WinView|
                #![trigger child_trees(now), with_window_upto(ts, id, x, ts.len())]
                now@ == v@.update(i as int, now@[i as int]) && tree_of(now@[i as int])
                    == with_window(ts[i as int], id, x) implies child_trees(now)
                == with_window_upto(ts, id, x, ts.len()) by {
                lemma_child_trees(now);
                assert(now@.len() == v@.len());
                lemma_with_window_upto(ts, id, x, i as int, ts.len());
                assert(child_trees(now) =~= with_window_upto(ts, id, x, ts.len()));
            }
        }
        let c = &mut children[i];
        c.find_mut(id)
    }
}

/// The first direct child that is the window `id`.
fn find_own_leaf(children: &Vec<Layout>, id: usize) -> (r: Option<usize>)
    ensures
        match r {
            Some(i) => own_leaf(child_trees(*children), id, 0) == Some(i as int) && i
                < children@.len(),
            None => own_leaf(child_trees(*children), id, 0) is None,
        },
{
    let ghost ts = child_trees(*children);
    proof {
        lemma_child_trees(*children);
    }
    let mut i: usize = 0;
    while i < children.len()
        invariant
            i <= children@.len(),
            ts == child_trees(*children),
            ts.len() == children@.len(),
            forall|k: int| 0 <= k < ts.len() ==> #[trigger] ts[k] == tree_of(children@[k]),
            own_leaf(ts, id, 0) == own_leaf(ts, id, i as int),
        decreases children@.len() - i,
    {
        assert(ts[i as int] == tree_of(children@[i as int]));
        match &children[i] {
            Layout::Leaf(w) => if w.id == id {
                return Some(i);
            },
            _ => {},
        }
        i += 1;
    }
    None
}

impl Layout {
    /// Insert `new` as the sibling after the leaf `id`, splitting in the given
    /// direction. Returns true if the leaf was found.
    pub(crate) fn split(&mut self, id: usize, vertical: bool, new: Window) -> (done: bool)
        ensures
            match split_at(old(self)@, id, vertical, new@) {
                Some(t) => done && final(self)@ == t,
                None => !done && final(self)@ == old(self)@,
            },
    {
        proof {
            lemma_split_iff_window(self@, id, vertical, new@);
        }
        if self.find(id).is_none() {
            return false;
        }
        let mut own = Layout::Split { vertical, children: Vec::new() };
        std::mem::swap(self, &mut own);
        *self = own.split_to(id, vertical, new);
        true
    }

    /// The tree with `new` as the sibling after the leaf `id`.
    fn split_to(self, id: usize, vertical: bool, new: Window) -> (r: Layout)
        requires
            window_in(self@, id) is Some,
        ensures
            split_at(self@, id, vertical, new@) == Some(r@),
        decreases self,
    {
        let ghost whole = self;
        proof {
            lemma_split_iff_window(self@, id, vertical, new@);
        }
        match self {
            Layout::Leaf(w) => {
                let ghost t = Tree::Leaf(w@);
                let mut children: Vec<Layout> = Vec::new();
                children.push(Layout::Leaf(w));
                children.push(Layout::Leaf(new));
                proof {
                    lemma_child_trees(children);
                    assert(child_trees(children) =~= seq![t, Tree::Leaf(new@)]);
                }
                Layout::Split { vertical, children }
            },
            Layout::Split { vertical: v, children } => {
                let mut children = children;
                let n: usize = children.len();
                let ghost had = children;
                let ghost ts = child_trees(had);
                proof {
                    lemma_child_trees(had);
                }
                let own: Option<usize> = if v == vertical {
                    find_own_leaf(&children, id)
                } else {
                    None
                };
                match own {
                    Some(i) => {
                        children.insert(i + 1, Layout::Leaf(new));
                        proof {
                            lemma_child_trees(children);
                            assert(child_trees(children) =~= ts.insert(i + 1, Tree::Leaf(new@)));
                        }
                    },
                    None => {
                        match Layout::child_with(&children, id) {
                            Some(i) => {
                                proof {
                                    lemma_child_smaller(whole, i as int);
                                    assert(ts[i as int] == tree_of(had@[i as int]));
                                    lemma_split_iff_upto(ts, id, vertical, new@, i as nat);
                                    lemma_split_iff_window(ts[i as int], id, vertical, new@);
                                    lemma_split_found(
                                        ts,
                                        id,
                                        vertical,
                                        new@,
                                        (i + 1) as nat,
                                        ts.len(),
                                    );
                                }
                                let c = children.remove(i);
                                let c2 = c.split_to(id, vertical, new);
                                children.insert(i, c2);
                                proof {
                                    lemma_child_trees(children);
                                    assert(child_trees(children) =~= ts.update(i as int, c2@));
                                }
                            },
                            None => {
                                assert(false);
                            },
                        }
                    },
                }
                Layout::Split { vertical: v, children }
            },
        }
    }

    /// Remove the leaf `id`, collapsing single-child splits.
    pub(crate) fn close(&mut self, id: usize)
        ensures
            final(self)@ == closed(old(self)@, id),
    {
        let mut own = Layout::Split { vertical: true, children: Vec::new() };
        std::mem::swap(self, &mut own);
        *self = own.without_window(id);
    }

    /// The tree without the leaf `id`.
    #[verifier::spinoff_prover]
    #[verifier::rlimit(40)]
    fn without_window(self, id: usize) -> (r: Layout)
        ensures
            r@ == closed(self@, id),
        decreases self,
    {
        let ghost whole = self;
        match self {
            Layout::Leaf(w) => Layout::Leaf(w),
            Layout::Split { vertical, children } => {
                let mut rest = children;
                let ghost had = rest;
                let ghost ts = child_trees(had);
                let mut kept: Vec<Layout> = Vec::new();
                let total: usize = rest.len();
                let mut i: usize = 0;
                proof {
                    lemma_child_trees(had);
                    lemma_child_trees(kept);
                    assert(child_trees(kept) =~= closed_upto(ts, id, 0));
                    assert(rest@ =~= had@.skip(0));
                }
                while rest.len() > 0
                    invariant
                        whole == self,
                        total == had@.len(),
                        whole == (Layout::Split { vertical, children: had }),
                        i + rest@.len() == had@.len(),
                        rest@ =~= had@.skip(i as int),
                        ts == child_trees(had),
                        ts.len() == had@.len(),
                        forall|k: int| 0 <= k < ts.len() ==> #[trigger] ts[k] == tree_of(had@[k]),
                        child_trees(kept) == closed_upto(ts, id, i as nat),
                        kept@.len() <= i,
                    decreases rest@.len(),
                {
                    let c = rest.remove(0);
                    proof {
                        lemma_child_smaller(whole, i as int);
                        assert(c == had@[i as int]);
                        assert(ts[i as int] == tree_of(had@[i as int]));
                    }
                    let gone = match &c {
                        Layout::Leaf(w) => w.id == id,
                        _ => false,
                    };
                    if !gone {
                        let ghost before = kept;
                        let c2 = c.without_window(id);
                        kept.push(c2);
                        proof {
                            lemma_child_trees(before);
                            lemma_child_trees(kept);
                            assert(child_trees(kept) =~= child_trees(before).push(c2@));
                        }
                    }
                    i += 1;
                }
                proof {
                    lemma_child_trees(kept);
                }
                if kept.len() == 1 {
                    let ghost all = kept;
                    let one = kept.remove(0);
                    assert(child_trees(all)[0] == tree_of(one));
                    one
                } else {
                    Layout::Split { vertical, children: kept }
                }
            },
        }
    }

    /// Compute every leaf's rectangle plus the separators between children.
    pub(crate) fn rects(&self, rect: Rect, wins: &mut Vec<(usize, Rect)>, seps: &mut Vec<(Rect, bool)>)
        requires
            tree_wf(self@),
        ensures
            final(wins)@ == old(wins)@ + rects_of(self@, rect),
            final(seps)@ == old(seps)@ + separators_of(self@, rect),
        decreases self,
    {
        match self {
            Layout::Leaf(w) => {
                let ghost had = wins@;
                let ghost had_seps = seps@;
                wins.push((w.id, rect));
                assert(wins@ =~= had + rects_of(self@, rect));
                assert(seps@ =~= had_seps + separators_of(self@, rect));
            },
            Layout::Split { vertical, children } => {
                let ghost had = wins@;
                let ghost had_seps = seps@;
                let ghost ts = child_trees(*children);
                let ghost vert = *vertical;
                let n: usize = children.len();
                proof {
                    lemma_child_trees(*children);
                    lemma_trees_wf(ts, ts.len());
                    assert(had + rects_upto(ts, vert, rect, 0) =~= had);
                    assert(had_seps + separators_upto(ts, vert, rect, 0) =~= had_seps);
                }
                let mut i: usize = 0;
                while i < n
                    invariant
                        i <= n,
                        n == children@.len(),
                        n >= 2,
                        *self == (Layout::Split { vertical: *vertical, children: *children }),
                        vert == *vertical,
                        ts == child_trees(*children),
                        ts.len() == n,
                        forall|k: int| 0 <= k < ts.len() ==> #[trigger] ts[k] == tree_of(children@[k]),
                        forall|k: int| 0 <= k < ts.len() ==> tree_wf(#[trigger] ts[k]),
                        wins@ == had + rects_upto(ts, vert, rect, i as nat),
                        seps@ == had_seps + separators_upto(ts, vert, rect, i as nat),
                    decreases n - i,
                {
                    proof {
                        lemma_child_smaller(*self, i as int);
                        assert(ts[i as int] == tree_of(children@[i as int]));
                    }
                    let own = rect_of_child(*vertical, rect, n, i);
                    children[i].rects(own, wins, seps);
                    if i < n - 1 {
                        seps.push(separator_of(*vertical, rect, n, i));
                    }
                    proof {
                        assert(wins@ =~= had + rects_upto(ts, vert, rect, (i + 1) as nat));
                        assert(seps@ =~= had_seps + separators_upto(ts, vert, rect, (i + 1) as nat));
                    }
                    i += 1;
                }
            },
        }
    }
}

fn to_cell(n: u128) -> (r: u16)
    ensures
        r == cell(n as int),
{
    if n > 65535 {
        65535
    } else {
        n as u16
    }
}

/// Where a child starts and how far it reaches.
fn child_span(start: u16, total: u16, n: usize, i: usize) -> (r: (u128, u128))
    requires
        i < n,
    ensures
        r.0 == child_start(start, total, n as int, i as int),
        r.1 == child_size(start, total, n as int, i as int),
        r.0 + r.1 <= 0xffff_ffff_ffff_ffff_ffff,
{
    let t: u128 = total as u128;
    let m: u128 = n as u128;
    let each: u128 = if t > m - 1 {
        (t - (m - 1)) / m
    } else {
        0
    };
    proof {
        lemma_share(total, n as int, i as int);
        assert(each == share(total, n as int));
        assert(i * (each + 1) <= 0xffff_ffff_ffff_ffff * 65536) by (nonlinear_arith)
            requires
                0 <= i <= 0xffff_ffff_ffff_ffff,
                0 <= each <= 65535,
        ;
    }
    let from: u128 = start as u128 + (i as u128) * (each + 1);
    let end: u128 = start as u128 + t;
    let size: u128 = if i == n - 1 {
        if end > from {
            end - from
        } else {
            0
        }
    } else {
        each
    };
    (from, size)
}

fn rect_of_child(vertical: bool, r: Rect, n: usize, i: usize) -> (out: Rect)
    requires
        i < n,
    ensures
        out == child_rect(vertical, r, n as int, i as int),
{
    if vertical {
        let (from, size) = child_span(r.0, r.2, n, i);
        (to_cell(from), r.1, to_cell(size), r.3)
    } else {
        let (from, size) = child_span(r.1, r.3, n, i);
        (r.0, to_cell(from), r.2, to_cell(size))
    }
}

fn separator_of(vertical: bool, r: Rect, n: usize, i: usize) -> (out: (Rect, bool))
    requires
        i < n,
    ensures
        out == separator(vertical, r, n as int, i as int),
{
    if vertical {
        let (from, size) = child_span(r.0, r.2, n, i);
        ((to_cell(from + size), r.1, 1, r.3), true)
    } else {
        let (from, size) = child_span(r.1, r.3, n, i);
        ((r.0, to_cell(from + size), r.2, 1), false)
    }
}

/// Changing what a window shows moves no window.
pub proof fn lemma_with_window_same(t: Tree, id: usize, new: WinView)
    requires
        new.id == id,
    ensures
        ids(with_window(t, id, new)) == ids(t),
        tree_wf(t) ==> tree_wf(with_window(t, id, new)),
    decreases t, 0nat,
{
    match t {
        Tree::Leaf(w) => {},
        Tree::Split { vertical, children } => {
            lemma_with_window_same_upto(children, id, new, children.len());
            let now = with_window_upto(children, id, new, children.len());
            if tree_wf(t) {
                lemma_trees_wf(children, children.len());
                lemma_trees_wf(now, now.len());
            }
        },
    }
}

proof fn lemma_with_window_same_upto(children: Seq<Tree>, id: usize, new: WinView, n: nat)
    requires
        new.id == id,
        n <= children.len(),
    ensures
        with_window_upto(children, id, new, n).len() == n,
        forall|k: int|
            0 <= k < n ==> ids(#[trigger] with_window_upto(children, id, new, n)[k]) == ids(
                children[k],
            ),
        forall|k: int|
            0 <= k < n && tree_wf(children[k]) ==> tree_wf(
                #[trigger] with_window_upto(children, id, new, n)[k],
            ),
        ids_upto(with_window_upto(children, id, new, n), n) == ids_upto(children, n),
    decreases children, n,
{
    if n > 0 {
        let m = (n - 1) as nat;
        lemma_with_window_same_upto(children, id, new, m);
        lemma_with_window_same(children[n - 1], id, new);
        let a = with_window_upto(children, id, new, m);
        let b = with_window_upto(children, id, new, n);
        assert(b.take(m as int) =~= a);
        assert forall|k: int| 0 <= k < m implies #[trigger] b[k] == a[k] by {}
        lemma_ids_prefix(a, b, m);
    }
}

/// A new id put behind another is one more among them.
pub proof fn lemma_put_behind_ids(s: Seq<usize>, id: usize, new: usize, i: int)
    requires
        0 <= i,
        s.no_duplicates(),
        !s.contains(new),
    ensures
        put_behind(s, id, new, i).no_duplicates(),
        forall|x: usize| s.contains(x) ==> #[trigger] put_behind(s, id, new, i).contains(x),
        forall|x: usize| #[trigger]
            put_behind(s, id, new, i).contains(x) ==> s.contains(x) || x == new,
        (exists|k: int| i <= k < s.len() && s[k] == id) ==> put_behind(s, id, new, i).contains(new),
    decreases s.len() - i,
{
    if i < s.len() {
        if s[i] == id {
            let w = s.insert(i + 1, new);
            assert(w[i + 1] == new);
            assert forall|x: usize| s.contains(x) implies #[trigger] w.contains(x) by {
                let k = choose|k: int| 0 <= k < s.len() && s[k] == x;
                if k <= i {
                    assert(w[k] == x);
                } else {
                    assert(w[k + 1] == x);
                }
            }
            assert forall|x: usize| #[trigger] w.contains(x) implies s.contains(x) || x == new by {
                let k = choose|k: int| 0 <= k < w.len() && w[k] == x;
                if k <= i {
                    assert(s[k] == x);
                } else if k > i + 1 {
                    assert(s[k - 1] == x);
                }
            }
            assert(w.no_duplicates()) by {
                assert forall|a: int, b: int| 0 <= a < b < w.len() implies w[a] != w[b] by {
                    let x = if a <= i {
                        a
                    } else {
                        a - 1
                    };
                    let y = if b <= i {
                        b
                    } else {
                        b - 1
                    };
                    if a == i + 1 {
                        assert(s[y] == w[b]);
                    } else if b == i + 1 {
                        assert(s[x] == w[a]);
                    } else {
                        assert(s[x] == w[a] && s[y] == w[b] && x != y);
                    }
                }
            }
        } else {
            lemma_put_behind_ids(s, id, new, i + 1);
        }
    }
}

/// A list without an id holds the others, each once.
pub proof fn lemma_without_ids(s: Seq<usize>, id: usize)
    ensures
        forall|x: usize| #[trigger] without(s, id).contains(x) <==> s.contains(x) && x != id,
        s.no_duplicates() ==> without(s, id).no_duplicates(),
    decreases s.len(),
{
    if s.len() > 0 {
        let d = s.drop_last();
        lemma_without_ids(d, id);
        let w = without(s, id);
        let v = without(d, id);
        assert forall|x: usize| s.contains(x) <==> d.contains(x) || x == s.last() by {
            if s.contains(x) {
                let k = choose|k: int| 0 <= k < s.len() && s[k] == x;
                if k < d.len() {
                    assert(d[k] == x);
                }
            }
            if d.contains(x) {
                let k = choose|k: int| 0 <= k < d.len() && d[k] == x;
                assert(s[k] == x);
            }
            if x == s.last() {
                assert(s[s.len() - 1] == x);
            }
        }
        if s.last() != id {
            assert forall|x: usize| #[trigger] w.contains(x) <==> v.contains(x) || x == s.last() by {
                if w.contains(x) {
                    let k = choose|k: int| 0 <= k < w.len() && w[k] == x;
                    if k < v.len() {
                        assert(v[k] == x);
                    }
                }
                if v.contains(x) {
                    let k = choose|k: int| 0 <= k < v.len() && v[k] == x;
                    assert(w[k] == x);
                }
                if x == s.last() {
                    assert(w[v.len() as int] == x);
                }
            }
        }
        if s.no_duplicates() {
            assert(d.no_duplicates());
            if s.last() != id {
                assert(!v.contains(s.last())) by {
                    if v.contains(s.last()) {
                        assert(d.contains(s.last()));
                        let k = choose|k: int| 0 <= k < d.len() && d[k] == s.last();
                        assert(s[k] == s[s.len() - 1]);
                    }
                }
            }
        }
    }
}

} // verus!
