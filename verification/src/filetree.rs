//! The file tree sidebar: a directory view whose directories open and close.
//!
//! What is kept is which directories are open; the rows are made anew from the
//! listings of those directories, so the tree is what the listings say.

use vstd::prelude::*;
use crate::document::{file_name, file_name_of};
use crate::paths::{
    is_same_path, is_under, join_path, joined_path, lies_under, parent, parent_of, same_path,
};
use crate::strings::{
    chars_of, has_prefix, put_name, same, starts_with, text_before, texts, with_name,
};

verus! {

/// One row of the tree.
pub struct Row {
    pub path: String,
    pub name: String,
    pub depth: usize,
    pub is_dir: bool,
    pub expanded: bool,
}

pub struct RowView {
    pub path: Seq<char>,
    pub name: Seq<char>,
    pub depth: nat,
    pub is_dir: bool,
    pub expanded: bool,
}

impl View for Row {
    type V = RowView;

    open spec fn view(&self) -> RowView {
        RowView {
            path: self.path@,
            name: self.name@,
            depth: self.depth as nat,
            is_dir: self.is_dir,
            expanded: self.expanded,
        }
    }
}

pub open spec fn row_views(v: Seq<Row>) -> Seq<RowView> {
    Seq::new(v.len(), |i: int| v[i]@)
}

/// What a directory holds: names, and whether each is a directory.
pub struct Listing {
    pub dir: String,
    pub entries: Vec<(String, bool)>,
}

pub struct ListingView {
    pub dir: Seq<char>,
    pub entries: Seq<(Seq<char>, bool)>,
}

pub open spec fn entry_views(v: Seq<(String, bool)>) -> Seq<(Seq<char>, bool)> {
    Seq::new(v.len(), |i: int| (v[i].0@, v[i].1))
}

impl View for Listing {
    type V = ListingView;

    open spec fn view(&self) -> ListingView {
        ListingView { dir: self.dir@, entries: entry_views(self.entries@) }
    }
}

pub open spec fn listing_views(v: Seq<Listing>) -> Seq<ListingView> {
    Seq::new(v.len(), |i: int| v[i]@)
}

pub struct FileTree {
    pub root: String,
    /// The directories that are open, the root aside.
    pub expanded: Vec<String>,
    pub rows: Vec<Row>,
    pub selected: usize,
    /// The rows are owed listings.
    pub stale: bool,
}

pub struct TreeView {
    pub root: Seq<char>,
    pub expanded: Seq<Seq<char>>,
    pub rows: Seq<RowView>,
    pub selected: usize,
    pub stale: bool,
}

impl View for FileTree {
    type V = TreeView;

    open spec fn view(&self) -> TreeView {
        TreeView {
            root: self.root@,
            expanded: texts(self.expanded@),
            rows: row_views(self.rows@),
            selected: self.selected,
            stale: self.stale,
        }
    }
}

// ---- the rows -------------------------------------------------------------------

/// Whether the tree shows a name.
pub open spec fn shown(name: Seq<char>, hidden: bool) -> bool {
    hidden || !(starts_with(name, "."@) || name == "target"@ || name == "node_modules"@)
}

/// What the first listing from `i` on of a directory holds.
pub open spec fn listed(ls: Seq<ListingView>, dir: Seq<char>, i: int) -> Seq<(Seq<char>, bool)>
    decreases ls.len() - i,
{
    if i < 0 || i >= ls.len() {
        Seq::empty()
    } else if ls[i].dir == dir {
        ls[i].entries
    } else {
        listed(ls, dir, i + 1)
    }
}

/// The directories among the first `n` entries, or the files, in order.
pub open spec fn names_upto(
    entries: Seq<(Seq<char>, bool)>,
    dirs: bool,
    hidden: bool,
    n: nat,
) -> Seq<Seq<char>>
    decreases n,
{
    if n == 0 || n > entries.len() {
        Seq::empty()
    } else {
        let head = names_upto(entries, dirs, hidden, (n - 1) as nat);
        if entries[n - 1].1 == dirs && shown(entries[n - 1].0, hidden) {
            with_name(head, entries[n - 1].0, 0)
        } else {
            head
        }
    }
}

/// How deep the tree is shown: more than a path can go.
pub const DEEPEST: usize = 0x7fff_ffff;

/// What the rows are made from.
pub struct Source {
    pub listings: Seq<ListingView>,
    pub expanded: Seq<Seq<char>>,
    pub hidden: bool,
}

/// The rows under a directory: its directories, each with what is under it
/// where it is open, and then its files. `room` counts the levels that are
/// still shown.
pub open spec fn rows_under(src: Source, dir: Seq<char>, depth: nat, room: nat) -> Seq<RowView>
    decreases room, 1int, 0int,
{
    let entries = listed(src.listings, dir, 0);
    dir_rows(src, dir, names_upto(entries, true, src.hidden, entries.len()), 0, depth, room)
        + file_rows(dir, names_upto(entries, false, src.hidden, entries.len()), depth)
}

pub open spec fn file_rows(dir: Seq<char>, names: Seq<Seq<char>>, depth: nat) -> Seq<RowView> {
    Seq::new(
        names.len(),
        |i: int|
            RowView {
                path: joined_path(dir, names[i]),
                name: names[i],
                depth,
                is_dir: false,
                expanded: false,
            },
    )
}

pub open spec fn dir_rows(
    src: Source,
    dir: Seq<char>,
    names: Seq<Seq<char>>,
    i: int,
    depth: nat,
    room: nat,
) -> Seq<RowView>
    decreases room, 0int, names.len() - i,
{
    if i < 0 || i >= names.len() {
        Seq::empty()
    } else {
        let path = joined_path(dir, names[i]);
        let open = src.expanded.contains(path);
        seq![RowView { path, name: names[i], depth, is_dir: true, expanded: open }] + (if open
            && room > 0 {
            rows_under(src, path, depth + 1, (room - 1) as nat)
        } else {
            Seq::empty()
        }) + dir_rows(src, dir, names, i + 1, depth, room)
    }
}

/// The row of the root: always the first.
pub open spec fn root_row(root: Seq<char>) -> RowView {
    RowView {
        path: root,
        name: match file_name_of(root) {
            Some(n) => n,
            None => root,
        },
        depth: 0,
        is_dir: true,
        expanded: true,
    }
}

pub open spec fn rows_of(t: TreeView, ls: Seq<ListingView>, hidden: bool) -> Seq<RowView> {
    let src = Source { listings: ls, expanded: t.expanded, hidden };
    seq![root_row(t.root)] + rows_under(src, t.root, 1, DEEPEST as nat)
}

/// The tree with its rows made from listings.
pub open spec fn rebuilt(t: TreeView, ls: Seq<ListingView>, hidden: bool) -> TreeView {
    let rows = rows_of(t, ls, hidden);
    TreeView {
        rows,
        selected: if t.selected < rows.len() {
            t.selected
        } else {
            (rows.len() - 1) as usize
        },
        stale: false,
        ..t
    }
}

fn is_shown(name: &str, hidden: bool) -> (r: bool)
    ensures
        r == shown(name@, hidden),
{
    let c = chars_of(name);
    hidden || !(has_prefix(c.as_slice(), ".") || same(name, "target") || same(name, "node_modules"))
}

fn names(entries: &Vec<(String, bool)>, dirs: bool, hidden: bool) -> (r: Vec<String>)
    ensures
        texts(r@) == names_upto(entry_views(entries@), dirs, hidden, entries@.len()),
{
    let mut out: Vec<String> = Vec::new();
    let mut i: usize = 0;
    let ghost all = entry_views(entries@);
    assert(texts(out@) =~= Seq::empty());
    while i < entries.len()
        invariant
            i <= entries@.len(),
            all == entry_views(entries@),
            texts(out@) == names_upto(all, dirs, hidden, i as nat),
        decreases entries@.len() - i,
    {
        assert(all[i as int] == (entries@[i as int].0@, entries@[i as int].1));
        if entries[i].1 == dirs && is_shown(entries[i].0.as_str(), hidden) {
            put_name(&mut out, entries[i].0.clone());
        }
        i += 1;
    }
    out
}

fn find_listing(ls: &Vec<Listing>, dir: &str) -> (r: Option<usize>)
    ensures
        match r {
            Some(i) => i < ls@.len() && listed(listing_views(ls@), dir@, 0) == entry_views(
                ls@[i as int].entries@,
            ),
            None => listed(listing_views(ls@), dir@, 0) == Seq::<(Seq<char>, bool)>::empty(),
        },
{
    let ghost all = listing_views(ls@);
    let mut i: usize = 0;
    while i < ls.len()
        invariant
            i <= ls@.len(),
            all == listing_views(ls@),
            listed(all, dir@, 0) == listed(all, dir@, i as int),
        decreases ls@.len() - i,
    {
        assert(all[i as int] == ls@[i as int]@);
        if same(ls[i].dir.as_str(), dir) {
            return Some(i);
        }
        i += 1;
    }
    None
}

fn holds(v: &Vec<String>, t: &str) -> (r: bool)
    ensures
        r == texts(v@).contains(t@),
{
    let mut i: usize = 0;
    while i < v.len()
        invariant
            i <= v@.len(),
            forall|k: int| 0 <= k < i ==> #[trigger] texts(v@)[k] != t@,
        decreases v@.len() - i,
    {
        if same(v[i].as_str(), t) {
            assert(texts(v@)[i as int] == t@);
            return true;
        }
        i += 1;
    }
    false
}

fn push_rows(
    ls: &Vec<Listing>,
    expanded: &Vec<String>,
    hidden: bool,
    dir: &str,
    depth: usize,
    room: usize,
    out: &mut Vec<Row>,
)
    requires
        depth + room < usize::MAX,
    ensures
        row_views(final(out)@) == row_views(old(out)@) + rows_under(
            (Source { listings: listing_views(ls@), expanded: texts(expanded@), hidden }),
            dir@,
            depth as nat,
            room as nat,
        ),
    decreases room,
{
    let ghost src = Source { listings: listing_views(ls@), expanded: texts(expanded@), hidden };
    let ghost start = row_views(out@);
    let at = find_listing(ls, dir);
    let none: Vec<(String, bool)> = Vec::new();
    assert(entry_views(none@) =~= Seq::empty());
    let entries: &Vec<(String, bool)> = match at {
        Some(i) => &ls[i].entries,
        None => &none,
    };
    let dirs = names(entries, true, hidden);
    let files = names(entries, false, hidden);
    let ghost ds = texts(dirs@);
    let ghost fs = texts(files@);
    let mut i: usize = 0;
    let ghost all = dir_rows(src, dir@, ds, 0, depth as nat, room as nat);
    assert(row_views(out@) + all =~= start + all);
    while i < dirs.len()
        invariant
            i <= dirs@.len(),
            ds == texts(dirs@),
            depth + room < usize::MAX,
            src == (Source {
                listings: listing_views(ls@),
                expanded: texts(expanded@),
                hidden,
            }),
            row_views(out@) + dir_rows(src, dir@, ds, i as int, depth as nat, room as nat)
                == start + all,
        decreases dirs@.len() - i,
    {
        assert(ds[i as int] == dirs@[i as int]@);
        let ghost had = row_views(out@);
        let path = join_path(dir, dirs[i].as_str());
        let open = holds(expanded, path.as_str());
        let row = Row {
            path: path.clone(),
            name: dirs[i].clone(),
            depth,
            is_dir: true,
            expanded: open,
        };
        let ghost rv = row@;
        out.push(row);
        assert(row_views(out@) =~= had.push(rv));
        if open && room > 0 {
            push_rows(ls, expanded, hidden, path.as_str(), depth + 1, room - 1, out);
        }
        assert(row_views(out@) + dir_rows(src, dir@, ds, i + 1, depth as nat, room as nat) =~= had
            + dir_rows(src, dir@, ds, i as int, depth as nat, room as nat));
        i += 1;
    }
    assert(row_views(out@) =~= start + all);
    let ghost after = row_views(out@);
    let mut k: usize = 0;
    while k < files.len()
        invariant
            k <= files@.len(),
            fs == texts(files@),
            row_views(out@) == after + file_rows(dir@, fs, depth as nat).take(k as int),
        decreases files@.len() - k,
    {
        assert(fs[k as int] == files@[k as int]@);
        let ghost had = row_views(out@);
        let row = Row {
            path: join_path(dir, files[k].as_str()),
            name: files[k].clone(),
            depth,
            is_dir: false,
            expanded: false,
        };
        let ghost rv = row@;
        out.push(row);
        assert(row_views(out@) =~= had.push(rv));
        assert(file_rows(dir@, fs, depth as nat).take(k + 1) =~= file_rows(
            dir@,
            fs,
            depth as nat,
        ).take(k as int).push(rv));
        assert(row_views(out@) =~= after + file_rows(dir@, fs, depth as nat).take(k + 1));
        k += 1;
    }
    assert(file_rows(dir@, fs, depth as nat).take(fs.len() as int) =~= file_rows(
        dir@,
        fs,
        depth as nat,
    ));
    assert(row_views(out@) =~= start + rows_under(src, dir@, depth as nat, room as nat));
}

// ---- walking it -----------------------------------------------------------------

pub open spec fn new_tree(root: Seq<char>) -> TreeView {
    TreeView {
        root,
        expanded: Seq::empty(),
        rows: seq![root_row(root)],
        selected: 0,
        stale: true,
    }
}

pub open spec fn selected_of(t: TreeView) -> Option<RowView> {
    if t.selected < t.rows.len() {
        Some(t.rows[t.selected as int])
    } else {
        None
    }
}

/// A row of `n` so many rows on from another: the first and the last row stop
/// it.
pub open spec fn row_after(at: int, delta: int, n: int) -> int {
    if at + delta < 0 {
        0
    } else if at + delta > n - 1 {
        n - 1
    } else {
        at + delta
    }
}

pub(crate) fn step_rows(at: usize, delta: isize, n: usize) -> (r: usize)
    requires
        n > 0,
    ensures
        r == row_after(at as int, delta as int, n as int),
{
    let last: usize = n - 1;
    if delta >= 0 {
        let on: usize = delta as usize;
        return if at >= last || on > last - at {
            last
        } else {
            at + on
        };
    }
    let less_one: isize = -(delta + 1);
    let back: usize = less_one as usize;
    if at <= back {
        0
    } else if at - back - 1 > last {
        last
    } else {
        at - back - 1
    }
}

/// The selection so many rows on.
pub open spec fn moved(t: TreeView, delta: int) -> TreeView {
    if t.rows.len() == 0 {
        t
    } else {
        TreeView {
            selected: row_after(t.selected as int, delta, t.rows.len() as int) as usize,
            ..t
        }
    }
}

/// The places of a text in a list, from the last back, taken out.
pub open spec fn without(v: Seq<Seq<char>>, t: Seq<char>, n: nat) -> Seq<Seq<char>>
    decreases n,
{
    if n == 0 || n > v.len() {
        Seq::empty()
    } else if v[n - 1] == t {
        without(v, t, (n - 1) as nat)
    } else {
        without(v, t, (n - 1) as nat).push(v[n - 1])
    }
}

/// The selected directory opened, or closed. The root is only read anew:
/// closing it would hide the whole tree.
pub open spec fn toggled(t: TreeView) -> TreeView {
    match selected_of(t) {
        None => t,
        Some(row) => if !row.is_dir {
            t
        } else if row.path == t.root {
            TreeView { stale: true, ..t }
        } else if t.expanded.contains(row.path) {
            TreeView {
                expanded: without(t.expanded, row.path, t.expanded.len()),
                stale: true,
                ..t
            }
        } else {
            TreeView { expanded: t.expanded.push(row.path), stale: true, ..t }
        },
    }
}

/// The last row of the first `n` that is nearer to the root than `depth`.
pub open spec fn parent_row(rows: Seq<RowView>, depth: nat, n: int) -> Option<int>
    decreases n,
{
    if n <= 0 || n > rows.len() {
        None
    } else if rows[n - 1].depth < depth {
        Some(n - 1)
    } else {
        parent_row(rows, depth, n - 1)
    }
}

/// The selected directory closed, or the row of the directory that the
/// selected row is in.
pub open spec fn collapsed(t: TreeView) -> TreeView {
    match selected_of(t) {
        None => t,
        Some(row) => if row.is_dir && row.expanded {
            toggled(t)
        } else if row.depth == 0 {
            t
        } else {
            match parent_row(t.rows, row.depth, t.selected as int) {
                Some(i) => TreeView { selected: i as usize, ..t },
                None => t,
            }
        },
    }
}

/// The directories above a path, up to the root, opened.
pub open spec fn opened_above(expanded: Seq<Seq<char>>, root: Seq<char>, path: Seq<char>) -> Seq<
    Seq<char>,
>
    decreases path.len(),
{
    match parent_of(path) {
        None => expanded,
        Some(d) => if same_path(d, root) || !lies_under(d, root) || d.len() >= path.len() {
            expanded
        } else {
            opened_above(
                if expanded.contains(d) {
                    expanded
                } else {
                    expanded.push(d)
                },
                root,
                d,
            )
        },
    }
}

pub open spec fn row_of(rows: Seq<RowView>, path: Seq<char>, i: int) -> Option<int>
    decreases rows.len() - i,
{
    if i < 0 || i >= rows.len() {
        None
    } else if rows[i].path == path {
        Some(i)
    } else {
        row_of(rows, path, i + 1)
    }
}

/// The selection on the row of a path, where it has one.
pub open spec fn selected_at(t: TreeView, path: Seq<char>) -> TreeView {
    match row_of(t.rows, path, 0) {
        Some(i) => TreeView { selected: i as usize, ..t },
        None => t,
    }
}

/// Where something new goes: into the selected directory, or beside the
/// selected file.
pub open spec fn landing(t: TreeView) -> Seq<char> {
    match selected_of(t) {
        Some(row) => if row.is_dir {
            row.path
        } else {
            match parent_of(row.path) {
                Some(d) => d,
                None => t.root,
            }
        },
        None => t.root,
    }
}

impl FileTree {
    pub fn new(root: String) -> (r: FileTree)
        ensures
            r@ == new_tree(root@),
    {
        let name: String = match file_name(root.as_str()) {
            Some(n) => n,
            None => root.clone(),
        };
        let row = Row { path: root.clone(), name, depth: 0, is_dir: true, expanded: true };
        let ghost rv = row@;
        let mut rows: Vec<Row> = Vec::new();
        rows.push(row);
        assert(row_views(rows@) =~= seq![rv]);
        let t = FileTree { root, expanded: Vec::new(), rows, selected: 0, stale: true };
        assert(t@.expanded =~= Seq::empty());
        t
    }

    /// The directories whose listings the rows are made from.
    pub fn wanted(&self) -> (r: Vec<String>)
        ensures
            texts(r@) == seq![self@.root] + self@.expanded,
    {
        let mut out: Vec<String> = Vec::new();
        out.push(self.root.clone());
        let mut i: usize = 0;
        while i < self.expanded.len()
            invariant
                i <= self.expanded@.len(),
                out@.len() == i + 1,
                out@[0]@ == self.root@,
                forall|k: int| 0 <= k < i ==> (#[trigger] out@[k + 1])@ == self.expanded@[k]@,
            decreases self.expanded@.len() - i,
        {
            out.push(self.expanded[i].clone());
            i += 1;
        }
        assert forall|k: int| 0 <= k < out@.len() implies texts(out@)[k] == (seq![self@.root]
            + self@.expanded)[k] by {
            if k > 0 {
                assert(out@[(k - 1) + 1]@ == self.expanded@[k - 1]@);
            }
        }
        assert(texts(out@) =~= seq![self@.root] + self@.expanded);
        out
    }

    /// Make the rows from listings.
    pub fn rebuild(&mut self, listings: &Vec<Listing>, hidden: bool)
        ensures
            final(self)@ == rebuilt(old(self)@, listing_views(listings@), hidden),
    {
        let name: String = match file_name(self.root.as_str()) {
            Some(n) => n,
            None => self.root.clone(),
        };
        let row = Row {
            path: self.root.clone(),
            name,
            depth: 0,
            is_dir: true,
            expanded: true,
        };
        let ghost rv = row@;
        let mut rows: Vec<Row> = Vec::new();
        rows.push(row);
        assert(row_views(rows@) =~= seq![rv]);
        push_rows(
            listings,
            &self.expanded,
            hidden,
            self.root.as_str(),
            1,
            DEEPEST,
            &mut rows,
        );
        assert(row_views(rows@).len() >= 1);
        self.rows = rows;
        if self.selected >= self.rows.len() {
            self.selected = self.rows.len() - 1;
        }
        self.stale = false;
    }

    pub fn selected_row(&self) -> (r: Option<&Row>)
        ensures
            match r {
                Some(row) => selected_of(self@) == Some(row@),
                None => selected_of(self@) is None,
            },
    {
        if self.selected < self.rows.len() {
            assert(self@.rows[self.selected as int] == self.rows@[self.selected as int]@);
            Some(&self.rows[self.selected])
        } else {
            None
        }
    }

    /// Move the selection by so many rows, back where that is negative.
    pub fn move_selection(&mut self, delta: isize)
        ensures
            final(self)@ == moved(old(self)@, delta as int),
    {
        let n: usize = self.rows.len();
        if n == 0 {
            return ;
        }
        self.selected = step_rows(self.selected, delta, n);
    }

    fn close(&mut self, path: &str)
        ensures
            final(self)@ == (TreeView {
                expanded: without(old(self)@.expanded, path@, old(self)@.expanded.len()),
                ..old(self)@
            }),
    {
        let ghost all = self@.expanded;
        let mut out: Vec<String> = Vec::new();
        let mut i: usize = 0;
        assert(texts(out@) =~= Seq::empty());
        while i < self.expanded.len()
            invariant
                i <= self.expanded@.len(),
                all == texts(self.expanded@),
                *self == *old(self),
                texts(out@) == without(all, path@, i as nat),
            decreases self.expanded@.len() - i,
        {
            assert(all[i as int] == self.expanded@[i as int]@);
            if !same(self.expanded[i].as_str(), path) {
                let ghost had = out@;
                let t = self.expanded[i].clone();
                let ghost tv = t@;
                out.push(t);
                assert(texts(out@) =~= texts(had).push(tv));
            }
            i += 1;
        }
        self.expanded = out;
    }

    /// Open or close the selected directory.
    pub fn toggle_selected(&mut self)
        ensures
            final(self)@ == toggled(old(self)@),
    {
        let ghost t = self@;
        if self.selected >= self.rows.len() {
            return ;
        }
        assert(t.rows[t.selected as int] == self.rows@[self.selected as int]@);
        if !self.rows[self.selected].is_dir {
            return ;
        }
        let path = self.rows[self.selected].path.clone();
        if same(path.as_str(), self.root.as_str()) {
            self.stale = true;
            return ;
        }
        if holds(&self.expanded, path.as_str()) {
            self.close(path.as_str());
        } else {
            let ghost had = self.expanded@;
            let ghost pv = path@;
            self.expanded.push(path);
            assert(texts(self.expanded@) =~= texts(had).push(pv));
        }
        self.stale = true;
    }

    /// Open the directories above a path. The selection goes to its row with
    /// `select`, once the rows are made.
    pub fn reveal_path(&mut self, path: &str)
        ensures
            final(self)@ == (TreeView {
                expanded: opened_above(old(self)@.expanded, old(self)@.root, path@),
                stale: true,
                ..old(self)@
            }),
    {
        let ghost goal = opened_above(self@.expanded, self@.root, path@);
        let ghost t = self@;
        let mut at: String = path.to_owned();
        loop
            invariant
                opened_above(self@.expanded, self@.root, at@) == goal,
                self@ == (TreeView { expanded: self@.expanded, ..t }),
            ensures
                self@ == (TreeView { expanded: goal, ..t }),
            decreases at@.len(),
        {
            match parent(at.as_str()) {
                None => {
                    break ;
                },
                Some(d) => {
                    let dn: usize = chars_of(d.as_str()).len();
                    let an: usize = chars_of(at.as_str()).len();
                    if is_same_path(d.as_str(), self.root.as_str()) || !is_under(
                        d.as_str(),
                        self.root.as_str(),
                    ) || dn >= an {
                        break ;
                    }
                    if !holds(&self.expanded, d.as_str()) {
                        let ghost had = self.expanded@;
                        self.expanded.push(d.clone());
                        assert(texts(self.expanded@) =~= texts(had).push(d@));
                    }
                    at = d;
                },
            }
        }
        self.stale = true;
    }

    /// Put the selection on the row of a path.
    pub fn select(&mut self, path: &str)
        ensures
            final(self)@ == selected_at(old(self)@, path@),
    {
        let ghost rows = self@.rows;
        let mut i: usize = 0;
        while i < self.rows.len()
            invariant
                i <= self.rows@.len(),
                *self == *old(self),
                rows == row_views(self.rows@),
                row_of(rows, path@, 0) == row_of(rows, path@, i as int),
            decreases self.rows@.len() - i,
        {
            assert(rows[i as int] == self.rows@[i as int]@);
            if same(self.rows[i].path.as_str(), path) {
                self.selected = i;
                return ;
            }
            i += 1;
        }
    }

    /// Close the selected directory, or go to the row of the one above.
    pub fn collapse_or_parent(&mut self)
        ensures
            final(self)@ == collapsed(old(self)@),
    {
        let ghost t = self@;
        if self.selected >= self.rows.len() {
            return ;
        }
        assert(t.rows[t.selected as int] == self.rows@[self.selected as int]@);
        if self.rows[self.selected].is_dir && self.rows[self.selected].expanded {
            self.toggle_selected();
            return ;
        }
        let depth = self.rows[self.selected].depth;
        if depth == 0 {
            return ;
        }
        let mut i = self.selected;
        while i > 0
            invariant
                i <= t.selected < self.rows@.len(),
                self@ == t,
                *self == *old(self),
                depth as nat == t.rows[t.selected as int].depth,
                depth > 0,
                selected_of(t) == Some(t.rows[t.selected as int]),
                !(t.rows[t.selected as int].is_dir && t.rows[t.selected as int].expanded),
                parent_row(t.rows, depth as nat, t.selected as int) == parent_row(
                    t.rows,
                    depth as nat,
                    i as int,
                ),
            decreases i,
        {
            i -= 1;
            assert(t.rows[i as int] == self.rows@[i as int]@);
            if self.rows[i].depth < depth {
                self.selected = i;
                return ;
            }
        }
    }

    /// Where something new goes.
    pub fn landing(&self) -> (r: String)
        ensures
            r@ == landing(self@),
    {
        match self.selected_row() {
            Some(row) => if row.is_dir {
                row.path.clone()
            } else {
                match parent(row.path.as_str()) {
                    Some(d) => d,
                    None => self.root.clone(),
                }
            },
            None => self.root.clone(),
        }
    }
}

/// The root is always the first row, and always shown.
pub proof fn law_root_is_first(t: TreeView, ls: Seq<ListingView>, hidden: bool)
    ensures
        rebuilt(t, ls, hidden).rows.len() > 0,
        rebuilt(t, ls, hidden).rows[0] == root_row(t.root),
        rebuilt(t, ls, hidden).selected < rebuilt(t, ls, hidden).rows.len(),
{
}

/// Whether rows made from two lists of open directories are the same up to
/// the first row of the path `p`, which then differs only in being open.
pub open spec fn same_upto(
    a: Seq<RowView>,
    b: Seq<RowView>,
    p: Seq<char>,
    open_a: bool,
    open_b: bool,
) -> bool {
    &&& lacks(a, p, a.len() as int) ==> a == b
    &&& forall|i: int|
        #![trigger a[i]]
        first_at(a, p, i) ==> i < b.len() && a.take(i) == b.take(i) && (if a[i].is_dir {
            a[i].expanded == open_a && b[i] == (RowView { expanded: open_b, ..a[i] })
        } else {
            b[i] == a[i]
        })
}

/// None of the first `n` rows has the path `p`.
pub open spec fn lacks(rows: Seq<RowView>, p: Seq<char>, n: int) -> bool {
    forall|k: int| 0 <= k < n ==> (#[trigger] rows[k]).path != p
}

/// The first row with the path `p`.
pub open spec fn first_at(rows: Seq<RowView>, p: Seq<char>, i: int) -> bool {
    0 <= i < rows.len() && rows[i].path == p && lacks(rows, p, i)
}

proof fn lemma_first(rows: Seq<RowView>, p: Seq<char>, n: int) -> (i: int)
    requires
        0 <= n <= rows.len(),
        !lacks(rows, p, n),
    ensures
        first_at(rows, p, i),
        i < n,
    decreases n,
{
    if lacks(rows, p, n - 1) {
        n - 1
    } else {
        lemma_first(rows, p, n - 1)
    }
}

proof fn lemma_same_joined(
    a: Seq<RowView>,
    b: Seq<RowView>,
    c: Seq<RowView>,
    d: Seq<RowView>,
    p: Seq<char>,
    open_a: bool,
    open_b: bool,
)
    requires
        same_upto(a, b, p, open_a, open_b),
        lacks(a, p, a.len() as int) ==> same_upto(c, d, p, open_a, open_b),
    ensures
        same_upto(a + c, b + d, p, open_a, open_b),
{
    let l = a + c;
    let r = b + d;
    if lacks(a, p, a.len() as int) {
        assert(a == b);
        if lacks(l, p, l.len() as int) {
            assert forall|k: int| 0 <= k < c.len() implies (#[trigger] c[k]).path != p by {
                assert(l[k + a.len()] == c[k]);
            }
        }
        assert forall|i: int| #![trigger l[i]] first_at(l, p, i) implies i < r.len() && l.take(i)
            == r.take(i) && (if l[i].is_dir {
            l[i].expanded == open_a && r[i] == (RowView { expanded: open_b, ..l[i] })
        } else {
            r[i] == l[i]
        }) by {
            if i < a.len() {
                assert(a[i] == l[i]);
            } else {
                let j = i - a.len();
                assert(c[j] == l[i]);
                assert forall|k: int| 0 <= k < j implies (#[trigger] c[k]).path != p by {
                    assert(l[k + a.len()] == c[k]);
                }
                assert(first_at(c, p, j));
                assert(l.take(i) =~= a + c.take(j));
                assert(r.take(i) =~= b + d.take(j));
                assert(r[i] == d[j]);
            }
        }
    } else {
        let f = lemma_first(a, p, a.len() as int);
        assert(a[f] == l[f]);
        assert(l[f].path == p);
        assert forall|i: int| #![trigger l[i]] first_at(l, p, i) implies i < r.len() && l.take(i)
            == r.take(i) && (if l[i].is_dir {
            l[i].expanded == open_a && r[i] == (RowView { expanded: open_b, ..l[i] })
        } else {
            r[i] == l[i]
        }) by {
            if i > f {
                assert(l[f].path != p);
            }
            assert(a[i] == l[i]);
            assert forall|k: int| 0 <= k < i implies (#[trigger] a[k]).path != p by {
                assert(l[k] == a[k]);
            }
            assert(first_at(a, p, i));
            assert(l.take(i) =~= a.take(i));
            assert(r.take(i) =~= b.take(i));
            assert(r[i] == b[i]);
        }
    }
}

/// Two lists of open directories that differ in `p` alone, if at all.
spec fn differ_in(a: Source, b: Source, p: Seq<char>) -> bool {
    &&& a.listings == b.listings
    &&& a.hidden == b.hidden
    &&& forall|q: Seq<char>|
        q != p ==> (#[trigger] a.expanded.contains(q) == b.expanded.contains(q))
}

proof fn lemma_same_under(a: Source, b: Source, p: Seq<char>, dir: Seq<char>, depth: nat, room: nat)
    requires
        differ_in(a, b, p),
    ensures
        same_upto(
            rows_under(a, dir, depth, room),
            rows_under(b, dir, depth, room),
            p,
            a.expanded.contains(p),
            b.expanded.contains(p),
        ),
    decreases room, 1int, 0int,
{
    let entries = listed(a.listings, dir, 0);
    let names = names_upto(entries, true, a.hidden, entries.len());
    let files = file_rows(dir, names_upto(entries, false, a.hidden, entries.len()), depth);
    lemma_same_dirs(a, b, p, dir, names, 0, depth, room);
    lemma_same_joined(
        dir_rows(a, dir, names, 0, depth, room),
        dir_rows(b, dir, names, 0, depth, room),
        files,
        files,
        p,
        a.expanded.contains(p),
        b.expanded.contains(p),
    );
}

proof fn lemma_same_dirs(
    a: Source,
    b: Source,
    p: Seq<char>,
    dir: Seq<char>,
    names: Seq<Seq<char>>,
    i: int,
    depth: nat,
    room: nat,
)
    requires
        differ_in(a, b, p),
        0 <= i <= names.len(),
    ensures
        same_upto(
            dir_rows(a, dir, names, i, depth, room),
            dir_rows(b, dir, names, i, depth, room),
            p,
            a.expanded.contains(p),
            b.expanded.contains(p),
        ),
    decreases room, 0int, names.len() - i,
{
    let open_a = a.expanded.contains(p);
    let open_b = b.expanded.contains(p);
    if i < names.len() {
        let q = joined_path(dir, names[i]);
        let ra = RowView {
            path: q,
            name: names[i],
            depth,
            is_dir: true,
            expanded: a.expanded.contains(q),
        };
        let rb = RowView { expanded: b.expanded.contains(q), ..ra };
        let sub_a = if a.expanded.contains(q) && room > 0 {
            rows_under(a, q, depth + 1, (room - 1) as nat)
        } else {
            Seq::empty()
        };
        let sub_b = if b.expanded.contains(q) && room > 0 {
            rows_under(b, q, depth + 1, (room - 1) as nat)
        } else {
            Seq::empty()
        };
        let rest_a = dir_rows(a, dir, names, i + 1, depth, room);
        let rest_b = dir_rows(b, dir, names, i + 1, depth, room);
        assert(seq![ra][0] == ra);
        assert(seq![ra].take(0) =~= seq![rb].take(0));
        assert(same_upto(seq![ra], seq![rb], p, open_a, open_b));
        if q != p {
            assert(a.expanded.contains(q) == b.expanded.contains(q));
            if a.expanded.contains(q) && room > 0 {
                lemma_same_under(a, b, p, q, depth + 1, (room - 1) as nat);
            }
        }
        if lacks(seq![ra], p, 1) {
            assert(ra.path != p);
        }
        lemma_same_joined(seq![ra], seq![rb], sub_a, sub_b, p, open_a, open_b);
        lemma_same_dirs(a, b, p, dir, names, i + 1, depth, room);
        lemma_same_joined(seq![ra] + sub_a, seq![rb] + sub_b, rest_a, rest_b, p, open_a, open_b);
    }
}

proof fn lemma_same_rows(t: TreeView, u: TreeView, p: Seq<char>, ls: Seq<ListingView>, hidden: bool)
    requires
        t.root == u.root,
        t.root != p,
        forall|q: Seq<char>|
            q != p ==> (#[trigger] t.expanded.contains(q) == u.expanded.contains(q)),
    ensures
        same_upto(
            rows_of(t, ls, hidden),
            rows_of(u, ls, hidden),
            p,
            t.expanded.contains(p),
            u.expanded.contains(p),
        ),
{
    let a = Source { listings: ls, expanded: t.expanded, hidden };
    let b = Source { listings: ls, expanded: u.expanded, hidden };
    let first = seq![root_row(t.root)];
    assert(first[0].path != p);
    assert(same_upto(first, first, p, a.expanded.contains(p), b.expanded.contains(p)));
    lemma_same_under(a, b, p, t.root, 1, DEEPEST as nat);
    lemma_same_joined(
        first,
        first,
        rows_under(a, t.root, 1, DEEPEST as nat),
        rows_under(b, t.root, 1, DEEPEST as nat),
        p,
        a.expanded.contains(p),
        b.expanded.contains(p),
    );
}

/// The rows hang on which directories are open, not on the order in which
/// they were opened.
pub proof fn law_rows_follow_what_is_open(
    t: TreeView,
    u: TreeView,
    ls: Seq<ListingView>,
    hidden: bool,
)
    requires
        t.root == u.root,
        forall|q: Seq<char>| #[trigger] t.expanded.contains(q) == u.expanded.contains(q),
    ensures
        rows_of(t, ls, hidden) == rows_of(u, ls, hidden),
{
    let a = Source { listings: ls, expanded: t.expanded, hidden };
    let b = Source { listings: ls, expanded: u.expanded, hidden };
    lemma_equal_under(a, b, t.root, 1, DEEPEST as nat);
}

proof fn lemma_equal_under(a: Source, b: Source, dir: Seq<char>, depth: nat, room: nat)
    requires
        a.listings == b.listings,
        a.hidden == b.hidden,
        forall|q: Seq<char>| #[trigger] a.expanded.contains(q) == b.expanded.contains(q),
    ensures
        rows_under(a, dir, depth, room) == rows_under(b, dir, depth, room),
    decreases room, 1int, 0int,
{
    let entries = listed(a.listings, dir, 0);
    let names = names_upto(entries, true, a.hidden, entries.len());
    lemma_equal_dirs(a, b, dir, names, 0, depth, room);
}

proof fn lemma_equal_dirs(
    a: Source,
    b: Source,
    dir: Seq<char>,
    names: Seq<Seq<char>>,
    i: int,
    depth: nat,
    room: nat,
)
    requires
        a.listings == b.listings,
        a.hidden == b.hidden,
        forall|q: Seq<char>| #[trigger] a.expanded.contains(q) == b.expanded.contains(q),
        0 <= i <= names.len(),
    ensures
        dir_rows(a, dir, names, i, depth, room) == dir_rows(b, dir, names, i, depth, room),
    decreases room, 0int, names.len() - i,
{
    if i < names.len() {
        let q = joined_path(dir, names[i]);
        assert(a.expanded.contains(q) == b.expanded.contains(q));
        if a.expanded.contains(q) && room > 0 {
            lemma_equal_under(a, b, q, depth + 1, (room - 1) as nat);
        }
        lemma_equal_dirs(a, b, dir, names, i + 1, depth, room);
    }
}

/// Opening or closing a directory changes what is open in that one alone.
proof fn lemma_toggled_open(t: TreeView)
    requires
        selected_of(t) is Some,
        (selected_of(t)->0).is_dir,
        (selected_of(t)->0).path != t.root,
    ensures
        forall|q: Seq<char>|
            q != (selected_of(t)->0).path ==> (#[trigger] toggled(t).expanded.contains(q)
                == t.expanded.contains(q)),
        toggled(t).expanded.contains((selected_of(t)->0).path) == !t.expanded.contains(
            (selected_of(t)->0).path,
        ),
{
    let p = (selected_of(t)->0).path;
    let e = t.expanded;
    if e.contains(p) {
        assert forall|q: Seq<char>| #[trigger] without(e, p, e.len()).contains(q) == (q != p
            && e.contains(q)) by {
            lemma_without_holds(e, p, e.len(), q);
            assert(e.take(e.len() as int) =~= e);
        }
    } else {
        assert forall|q: Seq<char>| #[trigger] e.push(p).contains(q) == (q == p || e.contains(
            q,
        )) by {
            if e.contains(q) {
                let i = choose|i: int| 0 <= i < e.len() && e[i] == q;
                assert(e.push(p)[i] == q);
            }
            assert(e.push(p)[e.len() as int] == p);
        }
    }
}

proof fn lemma_without_holds(v: Seq<Seq<char>>, p: Seq<char>, n: nat, q: Seq<char>)
    requires
        n <= v.len(),
    ensures
        without(v, p, n).contains(q) == (q != p && v.take(n as int).contains(q)),
    decreases n,
{
    if n > 0 {
        let head = without(v, p, (n - 1) as nat);
        let all = v.take(n as int);
        lemma_without_holds(v, p, (n - 1) as nat, q);
        assert(all =~= v.take(n - 1).push(v[n - 1]));
        assert(all.contains(q) == (q == v[n - 1] || v.take(n - 1).contains(q))) by {
            if v.take(n - 1).contains(q) {
                let less = v.take(n - 1);
                let i = choose|i: int| 0 <= i < less.len() && less[i] == q;
                assert(all[i] == q);
            }
            assert(all[n - 1] == v[n - 1]);
        }
        if v[n - 1] != p {
            let out = head.push(v[n - 1]);
            assert(out.contains(q) == (q == v[n - 1] || head.contains(q))) by {
                if head.contains(q) {
                    let i = choose|i: int| 0 <= i < head.len() && head[i] == q;
                    assert(out[i] == q);
                }
                assert(out[head.len() as int] == v[n - 1]);
            }
        }
    }
}

// ---- every row has its own path -----------------------------------------------

/// A name as a directory lists it.
pub open spec fn is_plain(name: Seq<char>) -> bool {
    name.len() > 0 && !name.contains('/')
}

/// A list of entries without a name twice, each of them plain.
pub open spec fn lists_once(entries: Seq<(Seq<char>, bool)>) -> bool {
    &&& forall|i: int| 0 <= i < entries.len() ==> is_plain((#[trigger] entries[i]).0)
    &&& forall|i: int, j: int|
        0 <= i < j < entries.len() ==> (#[trigger] entries[i]).0 != (#[trigger] entries[j]).0
}

/// Listings as a file system gives them: no directory has a name twice.
pub open spec fn true_listings(ls: Seq<ListingView>) -> bool {
    forall|i: int| 0 <= i < ls.len() ==> lists_once((#[trigger] ls[i]).entries)
}

/// What the paths of the entries of a directory start with.
spec fn base_of(dir: Seq<char>) -> Seq<char> {
    if dir.len() == 0 || dir.last() == '/' {
        dir
    } else {
        dir.push('/')
    }
}

/// Whether a path is that of a name behind `base`, or lies under it.
spec fn is_below(path: Seq<char>, base: Seq<char>, name: Seq<char>) -> bool {
    let n = (base + name).len() as int;
    &&& path.len() >= n
    &&& path.take(n) == base + name
    &&& path.len() == n || path[n] == '/'
}

spec fn differ(names: Seq<Seq<char>>) -> bool {
    forall|i: int, j: int|
        0 <= i < j < names.len() ==> (#[trigger] names[i]) != (#[trigger] names[j])
}

spec fn paths_differ(rows: Seq<RowView>) -> bool {
    forall|i: int, j: int|
        0 <= i < j < rows.len() ==> (#[trigger] rows[i]).path != (#[trigger] rows[j]).path
}

/// Whether a path is at or below one of the names from the `i`th on.
spec fn below_some(path: Seq<char>, base: Seq<char>, names: Seq<Seq<char>>, i: int) -> bool {
    exists|m: int| i <= m < names.len() && is_below(path, base, #[trigger] names[m])
}

/// Whether each path is at or below one of the names from the `i`th on.
spec fn all_below(rows: Seq<RowView>, base: Seq<char>, names: Seq<Seq<char>>, i: int) -> bool {
    forall|k: int| 0 <= k < rows.len() ==> below_some((#[trigger] rows[k]).path, base, names, i)
}

proof fn lemma_below_one(path: Seq<char>, base: Seq<char>, a: Seq<char>, b: Seq<char>)
    requires
        is_plain(a),
        is_plain(b),
        is_below(path, base, a),
        is_below(path, base, b),
    ensures
        a == b,
{
    let n = base.len() as int;
    assert forall|k: int| 0 <= k < a.len() && k < b.len() implies a[k] == b[k] by {
        assert(path.take(n + a.len())[n + k] == (base + a)[n + k]);
        assert(path.take(n + b.len())[n + k] == (base + b)[n + k]);
    }
    if a.len() < b.len() {
        assert(path.take(n + b.len())[n + a.len()] == (base + b)[n + a.len()]);
        assert(b[a.len() as int] == '/');
        assert(false);
    }
    if b.len() < a.len() {
        assert(path.take(n + a.len())[n + b.len()] == (base + a)[n + b.len()]);
        assert(a[b.len() as int] == '/');
        assert(false);
    }
    assert(a =~= b);
}

proof fn lemma_joined(dir: Seq<char>, name: Seq<char>)
    requires
        is_plain(name),
    ensures
        joined_path(dir, name) == base_of(dir) + name,
        base_of(joined_path(dir, name)) == (base_of(dir) + name).push('/'),
        is_below(joined_path(dir, name), base_of(dir), name),
        joined_path(dir, name).len() > dir.len(),
{
    assert(name.contains(name[0]));
    assert(name.contains(name.last()));
    let j = joined_path(dir, name);
    assert(j =~= base_of(dir) + name);
    assert(j.last() == name.last());
    assert(j.take(j.len() as int) =~= j);
}

/// What is below something below a name is below the name, and is not the
/// path of the name.
proof fn lemma_deeper(path: Seq<char>, base: Seq<char>, name: Seq<char>, sub: Seq<char>)
    requires
        is_plain(sub),
        is_below(path, (base + name).push('/'), sub),
    ensures
        is_below(path, base, name),
        path != base + name,
{
    let b = (base + name).push('/');
    let n = (base + name).len() as int;
    assert(path.take((b.len() + sub.len()) as int) == b + sub);
    assert(path.take(n) =~= (b + sub).take(n));
    assert((b + sub).take(n) =~= base + name);
    assert(path.take((b.len() + sub.len()) as int)[n] == (b + sub)[n]);
}

proof fn lemma_listed_once(ls: Seq<ListingView>, dir: Seq<char>, i: int)
    requires
        true_listings(ls),
        0 <= i,
    ensures
        lists_once(listed(ls, dir, i)),
    decreases ls.len() - i,
{
    if i < ls.len() {
        assert(lists_once(ls[i].entries));
        if ls[i].dir != dir {
            lemma_listed_once(ls, dir, i + 1);
        }
    }
}

proof fn lemma_put_name(names: Seq<Seq<char>>, name: Seq<char>, i: int)
    requires
        0 <= i <= names.len(),
    ensures
        exists|k: int|
            0 <= k <= names.len() && with_name(names, name, i) == #[trigger] names.insert(k, name),
    decreases names.len() - i,
{
    if i >= names.len() || text_before(name, names[i], 0) {
        assert(names.take(i).push(name) + names.skip(i) =~= names.insert(i, name));
    } else {
        lemma_put_name(names, name, i + 1);
    }
}

proof fn lemma_names(entries: Seq<(Seq<char>, bool)>, dirs: bool, hidden: bool, n: nat)
    requires
        lists_once(entries),
        n <= entries.len(),
    ensures
        differ(names_upto(entries, dirs, hidden, n)),
        forall|i: int|
            0 <= i < names_upto(entries, dirs, hidden, n).len() ==> exists|k: int|
                0 <= k < n && #[trigger] entries[k] == (
                    #[trigger] names_upto(entries, dirs, hidden, n)[i],
                    dirs,
                ),
    decreases n,
{
    if n > 0 {
        let m = (n - 1) as nat;
        let head = names_upto(entries, dirs, hidden, m);
        let all = names_upto(entries, dirs, hidden, n);
        lemma_names(entries, dirs, hidden, m);
        let x = entries[n - 1].0;
        if entries[n - 1].1 == dirs && shown(x, hidden) {
            lemma_put_name(head, x, 0);
            let at = choose|k: int|
                0 <= k <= head.len() && all == #[trigger] head.insert(k, x);
            assert forall|i: int| 0 <= i < head.len() implies #[trigger] head[i] != x by {
                let k = choose|k: int| 0 <= k < m && #[trigger] entries[k] == (head[i], dirs);
                assert(entries[k].0 != entries[n - 1].0);
            }
            assert forall|i: int, j: int| 0 <= i < j < all.len() implies (#[trigger] all[i]) != (
            #[trigger] all[j]) by {
                let a = if i > at {
                    i - 1
                } else {
                    i
                };
                let b = if j > at {
                    j - 1
                } else {
                    j
                };
                if i != at {
                    assert(all[i] == head[a]);
                }
                if j != at {
                    assert(all[j] == head[b]);
                }
            }
            assert forall|i: int| 0 <= i < all.len() implies exists|k: int|
                0 <= k < n && #[trigger] entries[k] == (#[trigger] all[i], dirs) by {
                if i == at {
                    assert(entries[n - 1] == (all[i], dirs));
                } else {
                    let a = if i > at {
                        i - 1
                    } else {
                        i
                    };
                    assert(all[i] == head[a]);
                    let k = choose|k: int| 0 <= k < m && #[trigger] entries[k] == (head[a], dirs);
                    assert(entries[k] == (all[i], dirs));
                }
            }
        } else {
            assert forall|i: int| 0 <= i < all.len() implies exists|k: int|
                0 <= k < n && #[trigger] entries[k] == (#[trigger] all[i], dirs) by {
                let k = choose|k: int| 0 <= k < m && #[trigger] entries[k] == (head[i], dirs);
                assert(entries[k] == (all[i], dirs));
            }
        }
    }
}

proof fn lemma_rows_joined(a: Seq<RowView>, b: Seq<RowView>)
    requires
        paths_differ(a),
        paths_differ(b),
        forall|i: int, j: int|
            0 <= i < a.len() && 0 <= j < b.len() ==> (#[trigger] a[i]).path != (
            #[trigger] b[j]).path,
    ensures
        paths_differ(a + b),
{
    let l = a + b;
    assert forall|i: int, j: int| 0 <= i < j < l.len() implies (#[trigger] l[i]).path != (
    #[trigger] l[j]).path by {
        if i < a.len() {
            assert(l[i] == a[i]);
        } else {
            assert(l[i] == b[i - a.len()]);
        }
        if j < a.len() {
            assert(l[j] == a[j]);
        } else {
            assert(l[j] == b[j - a.len()]);
        }
    }
}

/// The names of a directory, its directories first.
spec fn both_names(src: Source, dir: Seq<char>) -> Seq<Seq<char>> {
    let entries = listed(src.listings, dir, 0);
    names_upto(entries, true, src.hidden, entries.len()) + names_upto(
        entries,
        false,
        src.hidden,
        entries.len(),
    )
}

proof fn lemma_both_names(src: Source, dir: Seq<char>)
    requires
        true_listings(src.listings),
    ensures
        differ(both_names(src, dir)),
        forall|i: int|
            0 <= i < both_names(src, dir).len() ==> is_plain(#[trigger] both_names(src, dir)[i]),
{
    let entries = listed(src.listings, dir, 0);
    lemma_listed_once(src.listings, dir, 0);
    let n = entries.len();
    let ds = names_upto(entries, true, src.hidden, n);
    let fs = names_upto(entries, false, src.hidden, n);
    lemma_names(entries, true, src.hidden, n);
    lemma_names(entries, false, src.hidden, n);
    let all = ds + fs;
    assert forall|i: int| 0 <= i < all.len() implies is_plain(#[trigger] all[i]) && exists|k: int|
        0 <= k < n && #[trigger] entries[k] == (all[i], i < ds.len()) by {
        if i < ds.len() {
            assert(all[i] == ds[i]);
            let k = choose|k: int| 0 <= k < n && #[trigger] entries[k] == (ds[i], true);
            assert(entries[k] == (all[i], i < ds.len()));
        } else {
            let f = i - ds.len();
            assert(all[i] == fs[f]);
            let k = choose|k: int| 0 <= k < n && #[trigger] entries[k] == (fs[f], false);
            assert(entries[k] == (all[i], i < ds.len()));
        }
    }
    assert forall|i: int, j: int| 0 <= i < j < all.len() implies (#[trigger] all[i]) != (
    #[trigger] all[j]) by {
        if j < ds.len() {
            assert(all[i] == ds[i] && all[j] == ds[j]);
        } else if i >= ds.len() {
            assert(all[i] == fs[i - ds.len()] && all[j] == fs[j - ds.len()]);
        } else {
            let a = choose|k: int| 0 <= k < n && #[trigger] entries[k] == (all[i], i < ds.len());
            let b = choose|k: int| 0 <= k < n && #[trigger] entries[k] == (all[j], j < ds.len());
            assert(a != b);
            if a < b {
                assert(entries[a].0 != entries[b].0);
            } else {
                assert(entries[b].0 != entries[a].0);
            }
        }
    }
}

proof fn lemma_under_differ(src: Source, dir: Seq<char>, depth: nat, room: nat)
    requires
        true_listings(src.listings),
    ensures
        paths_differ(rows_under(src, dir, depth, room)),
        all_below(rows_under(src, dir, depth, room), base_of(dir), both_names(src, dir), 0),
        forall|i: int|
            0 <= i < both_names(src, dir).len() ==> is_plain(#[trigger] both_names(src, dir)[i]),
    decreases room, 1int, 0int,
{
    let entries = listed(src.listings, dir, 0);
    let n = entries.len();
    let ds = names_upto(entries, true, src.hidden, n);
    let fs = names_upto(entries, false, src.hidden, n);
    let all = both_names(src, dir);
    let base = base_of(dir);
    lemma_both_names(src, dir);
    lemma_dirs_differ(src, dir, all, ds, 0, depth, room);
    let a = dir_rows(src, dir, ds, 0, depth, room);
    let b = file_rows(dir, fs, depth);
    assert forall|j: int| 0 <= j < b.len() implies is_below(
        (#[trigger] b[j]).path,
        base,
        all[ds.len() + j],
    ) && b[j].path == base + all[ds.len() + j] by {
        assert(all[ds.len() + j] == fs[j]);
        lemma_joined(dir, fs[j]);
    }
    assert forall|i: int, j: int| 0 <= i < j < b.len() implies (#[trigger] b[i]).path != (
    #[trigger] b[j]).path by {
        if b[i].path == b[j].path {
            lemma_below_one(b[i].path, base, all[ds.len() + i], all[ds.len() + j]);
        }
    }
    assert forall|i: int, j: int| 0 <= i < a.len() && 0 <= j < b.len() implies (
    #[trigger] a[i]).path != (#[trigger] b[j]).path by {
        assert(below_some(a[i].path, base, ds, 0));
        let m = choose|m: int| 0 <= m < ds.len() && is_below(a[i].path, base, #[trigger] ds[m]);
        assert(all[m] == ds[m]);
        if a[i].path == b[j].path {
            lemma_below_one(a[i].path, base, all[m], all[ds.len() + j]);
        }
    }
    lemma_rows_joined(a, b);
    let rows = a + b;
    assert forall|k: int| 0 <= k < rows.len() implies below_some(
        (#[trigger] rows[k]).path,
        base,
        all,
        0,
    ) by {
        if k < a.len() {
            assert(rows[k] == a[k]);
            assert(below_some(a[k].path, base, ds, 0));
            let m = choose|m: int| 0 <= m < ds.len() && is_below(a[k].path, base, #[trigger] ds[m]);
            assert(all[m] == ds[m]);
        } else {
            let j = k - a.len();
            assert(rows[k] == b[j]);
            assert(is_below(rows[k].path, base, all[ds.len() + j]));
        }
    }
}

proof fn lemma_dirs_differ(
    src: Source,
    dir: Seq<char>,
    all: Seq<Seq<char>>,
    names: Seq<Seq<char>>,
    i: int,
    depth: nat,
    room: nat,
)
    requires
        true_listings(src.listings),
        0 <= i <= names.len() <= all.len(),
        forall|k: int| 0 <= k < names.len() ==> names[k] == #[trigger] all[k],
        differ(all),
        forall|k: int| 0 <= k < all.len() ==> is_plain(#[trigger] all[k]),
    ensures
        paths_differ(dir_rows(src, dir, names, i, depth, room)),
        all_below(dir_rows(src, dir, names, i, depth, room), base_of(dir), names, i),
    decreases room, 0int, names.len() - i,
{
    if i < names.len() {
        let base = base_of(dir);
        let name = names[i];
        assert(name == all[i]);
        lemma_joined(dir, name);
        let q = joined_path(dir, name);
        let open = src.expanded.contains(q);
        let first = seq![RowView { path: q, name, depth, is_dir: true, expanded: open }];
        let sub = if open && room > 0 {
            rows_under(src, q, depth + 1, (room - 1) as nat)
        } else {
            Seq::empty()
        };
        if open && room > 0 {
            lemma_under_differ(src, q, depth + 1, (room - 1) as nat);
        }
        assert forall|k: int| 0 <= k < sub.len() implies is_below(
            (#[trigger] sub[k]).path,
            base,
            name,
        ) && sub[k].path != q by {
            let inner = both_names(src, q);
            assert(below_some(sub[k].path, base_of(q), inner, 0));
            let m = choose|m: int|
                0 <= m < inner.len() && is_below(sub[k].path, base_of(q), #[trigger] inner[m]);
            lemma_deeper(sub[k].path, base, name, inner[m]);
        }
        lemma_rows_joined(first, sub);
        let head = first + sub;
        assert forall|k: int| 0 <= k < head.len() implies is_below(
            (#[trigger] head[k]).path,
            base,
            name,
        ) by {
            if k > 0 {
                assert(head[k] == sub[k - 1]);
            }
        }
        let rest = dir_rows(src, dir, names, i + 1, depth, room);
        lemma_dirs_differ(src, dir, all, names, i + 1, depth, room);
        assert forall|a: int, b: int| 0 <= a < head.len() && 0 <= b < rest.len() implies (
        #[trigger] head[a]).path != (#[trigger] rest[b]).path by {
            assert(below_some(rest[b].path, base, names, i + 1));
            let m = choose|m: int|
                i + 1 <= m < names.len() && is_below(rest[b].path, base, #[trigger] names[m]);
            assert(names[m] == all[m]);
            if head[a].path == rest[b].path {
                lemma_below_one(rest[b].path, base, all[i], all[m]);
            }
        }
        lemma_rows_joined(head, rest);
        let rows = head + rest;
        assert forall|k: int| 0 <= k < rows.len() implies below_some(
            (#[trigger] rows[k]).path,
            base,
            names,
            i,
        ) by {
            if k < head.len() {
                assert(rows[k] == head[k]);
                assert(is_below(rows[k].path, base, names[i]));
            } else {
                assert(rows[k] == rest[k - head.len()]);
                assert(below_some(rest[k - head.len()].path, base, names, i + 1));
                let m = choose|m: int|
                    i + 1 <= m < names.len() && is_below(
                        rest[k - head.len()].path,
                        base,
                        #[trigger] names[m],
                    );
                assert(is_below(rows[k].path, base, names[m]));
            }
        }
    }
}

/// Every row has its own path, where no directory lists a name twice.
pub proof fn law_rows_have_their_own_paths(
    t: TreeView,
    ls: Seq<ListingView>,
    hidden: bool,
    i: int,
    j: int,
)
    requires
        true_listings(ls),
        0 <= i < j < rows_of(t, ls, hidden).len(),
    ensures
        rows_of(t, ls, hidden)[i].path != rows_of(t, ls, hidden)[j].path,
{
    let src = Source { listings: ls, expanded: t.expanded, hidden };
    let sub = rows_under(src, t.root, 1, DEEPEST as nat);
    lemma_under_differ(src, t.root, 1, DEEPEST as nat);
    let rows = rows_of(t, ls, hidden);
    assert(rows[j] == sub[j - 1]);
    if i == 0 {
        let names = both_names(src, t.root);
        assert(below_some(sub[j - 1].path, base_of(t.root), names, 0));
        let m = choose|m: int|
            0 <= m < names.len() && is_below(sub[j - 1].path, base_of(t.root), #[trigger] names[m]);
        assert(is_plain(names[m]));
    } else {
        assert(rows[i] == sub[i - 1]);
    }
}

/// Opening a directory and closing it again, or the other way round, gives
/// the rows back. In between the same row is selected, and only that
/// directory is open where it was closed, or closed where it was open. No
/// directory lists a name twice.
pub proof fn law_toggle_twice(t: TreeView, ls: Seq<ListingView>, hidden: bool)
    requires
        t.rows == rows_of(t, ls, hidden),
        selected_of(t) is Some,
        (selected_of(t)->0).is_dir,
        (selected_of(t)->0).path != t.root,
        true_listings(ls),
    ensures
        ({
            let once = rebuilt(toggled(t), ls, hidden);
            let twice = rebuilt(toggled(once), ls, hidden);
            &&& once.selected == t.selected
            &&& once.rows[t.selected as int] == (RowView {
                expanded: !t.rows[t.selected as int].expanded,
                ..t.rows[t.selected as int]
            })
            &&& once.rows.take(t.selected as int) == t.rows.take(t.selected as int)
            &&& twice.rows == t.rows
            &&& twice.selected == t.selected
            &&& forall|q: Seq<char>| #[trigger]
                twice.expanded.contains(q) == t.expanded.contains(q)
        }),
{
    let p = (selected_of(t)->0).path;
    let i = t.selected as int;
    lemma_toggled_open(t);
    lemma_same_rows(t, toggled(t), p, ls, hidden);
    assert forall|k: int| 0 <= k < i implies (#[trigger] t.rows[k]).path != p by {
        law_rows_have_their_own_paths(t, ls, hidden, k, i);
    }
    assert(first_at(t.rows, p, i));
    let once = rebuilt(toggled(t), ls, hidden);
    assert(t.rows[i].path == p);
    lemma_toggled_open(once);
    let twice = rebuilt(toggled(once), ls, hidden);
    assert forall|q: Seq<char>| #[trigger] twice.expanded.contains(q) == t.expanded.contains(q) by {
        assert(toggled(t).expanded.contains(q) == toggled(t).expanded.contains(q));
        assert(toggled(once).expanded.contains(q) == toggled(once).expanded.contains(q));
        if q != p {
            assert(toggled(t).expanded.contains(q) == t.expanded.contains(q));
            assert(toggled(once).expanded.contains(q) == once.expanded.contains(q));
        }
    }
    law_rows_follow_what_is_open(toggled(once), t, ls, hidden);
}

/// Toggling a file changes nothing; toggling the root only has it read anew.
pub proof fn law_toggle_elsewhere(t: TreeView)
    requires
        selected_of(t) is Some,
    ensures
        !(selected_of(t)->0).is_dir ==> toggled(t) == t,
        (selected_of(t)->0).is_dir && (selected_of(t)->0).path == t.root ==> toggled(t) == (
        TreeView { stale: true, ..t }),
{
}

} // verus!
