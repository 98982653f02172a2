//! Picking by typing: how names are matched and ranked, and the picker.

use vstd::prelude::*;
use crate::filetree::{row_after, step_rows};
use crate::editor::{in_mode, Editor, EditorView};
use crate::state::{
    item_views, picker_view, Item, Mode, PanesView, Picker, PickerKind, PickerKindView, PickerView,
};
use crate::strings::{ascii_lower_all, chars_of, find_sub, find_sub_from, lower_chars};

verus! {

// ---- matching ---------------------------------------------------------------------

/// Whether the characters of `q` from `j` on occur in `s` from `i` on, in
/// order.
pub open spec fn occurs(s: Seq<char>, q: Seq<char>, i: int, j: int) -> bool
    decreases s.len() - i,
{
    if j >= q.len() {
        true
    } else if i < 0 || i >= s.len() {
        false
    } else if s[i] == q[j] {
        occurs(s, q, i + 1, j + 1)
    } else {
        occurs(s, q, i + 1, j)
    }
}

/// How well a query matches a text, whatever the case of its letters: best
/// where it stands in it as it is, early, in a short text; nothing where its
/// characters do not even occur in order.
#[verifier::opaque]
pub open spec fn score_of(query: Seq<char>, text: Seq<char>) -> Option<int> {
    let q = ascii_lower_all(query);
    let t = ascii_lower_all(text);
    let k = find_sub_from(t, q, 0);
    if 0 <= k < t.len() || q.len() == 0 {
        Some(1000 - 10 * (if q.len() == 0 {
            0
        } else {
            k
        }) - t.len())
    } else if occurs(t, q, 0, 0) {
        Some(-(t.len() as int))
    } else {
        None
    }
}

/// How well a query matches a text.
pub fn fuzzy_score(query: &str, text: &str) -> (r: Option<i128>)
    ensures
        match r {
            Some(n) => score_of(query@, text@) == Some(n as int),
            None => score_of(query@, text@) is None,
        },
{
    reveal(score_of);
    let qc = chars_of(query);
    let tc = chars_of(text);
    let q = lower_chars(&qc);
    let t = lower_chars(&tc);
    let len: i128 = t.len() as i128;
    if q.len() == 0 {
        return Some(1000 - len);
    }
    match find_sub(&t, &q, 0) {
        Some(k) => {
            return Some(1000 - 10 * (k as i128) - len);
        },
        None => {},
    }
    let mut i: usize = 0;
    let mut j: usize = 0;
    while i < t.len() && j < q.len()
        invariant
            i <= t@.len(),
            j <= q@.len(),
            occurs(t@, q@, 0, 0) == occurs(t@, q@, i as int, j as int),
        decreases t@.len() - i,
    {
        if t[i] == q[j] {
            j += 1;
        }
        i += 1;
    }
    if j >= q.len() {
        Some(-len)
    } else {
        None
    }
}

/// Place `n` put into a list of places, behind those that match as well.
pub open spec fn with_place(
    list: Seq<usize>,
    labels: Seq<Seq<char>>,
    query: Seq<char>,
    n: usize,
    i: int,
) -> Seq<usize>
    decreases list.len() - i,
{
    if i < 0 || i >= list.len() {
        list.push(n)
    } else if score_of(query, labels[list[i] as int])->0 < score_of(query, labels[n as int])->0 {
        list.insert(i, n)
    } else {
        with_place(list, labels, query, n, i + 1)
    }
}

/// The places of the first `n` labels that match, best first.
pub open spec fn ranked_upto(labels: Seq<Seq<char>>, query: Seq<char>, n: nat) -> Seq<usize>
    decreases n,
{
    if n == 0 || n > labels.len() {
        Seq::empty()
    } else if query.len() == 0 {
        ranked_upto(labels, query, (n - 1) as nat).push((n - 1) as usize)
    } else if score_of(query, labels[n - 1]) is None {
        ranked_upto(labels, query, (n - 1) as nat)
    } else {
        with_place(
            ranked_upto(labels, query, (n - 1) as nat),
            labels,
            query,
            (n - 1) as usize,
            0,
        )
    }
}

#[verifier::opaque]
pub open spec fn ranked(labels: Seq<Seq<char>>, query: Seq<char>) -> Seq<usize> {
    ranked_upto(labels, query, labels.len())
}

pub open spec fn labels_of(v: Seq<Item>) -> Seq<Seq<char>> {
    Seq::new(v.len(), |i: int| v[i].label@)
}

pub open spec fn firsts(v: Seq<(Seq<char>, Seq<char>)>) -> Seq<Seq<char>> {
    Seq::new(v.len(), |i: int| v[i].0)
}

proof fn lemma_with_place_in(
    list: Seq<usize>,
    labels: Seq<Seq<char>>,
    query: Seq<char>,
    n: usize,
    i: int,
    bound: int,
)
    requires
        n < bound,
        forall|k: int| 0 <= k < list.len() ==> (#[trigger] list[k]) < bound,
    ensures
        forall|k: int|
            0 <= k < with_place(list, labels, query, n, i).len() ==> (#[trigger] with_place(
                list,
                labels,
                query,
                n,
                i,
            )[k]) < bound,
    decreases list.len() - i,
{
    if 0 <= i < list.len() && !(score_of(query, labels[list[i] as int])->0 < score_of(
        query,
        labels[n as int],
    )->0) {
        lemma_with_place_in(list, labels, query, n, i + 1, bound);
        let r = with_place(list, labels, query, n, i);
        let next = with_place(list, labels, query, n, i + 1);
        assert(r == next);
        assert forall|k: int| 0 <= k < r.len() implies (#[trigger] r[k]) < bound by {
            assert(next[k] < bound);
        }
    } else {
        let r = with_place(list, labels, query, n, i);
        assert forall|k: int| 0 <= k < r.len() implies (#[trigger] r[k]) < bound by {
            if 0 <= i < list.len() {
                if k < i {
                    assert(r[k] == list[k]);
                } else if k > i {
                    assert(r[k] == list[k - 1]);
                }
            } else if k < list.len() {
                assert(r[k] == list[k]);
            }
        }
    }
}

/// Where place `n` goes.
fn place_for(list: &Vec<usize>, items: &Vec<Item>, query: &str, n: usize, score: i128) -> (r: usize)
    requires
        n < items@.len(),
        score_of(query@, items@[n as int].label@) == Some(score as int),
        forall|k: int| 0 <= k < list@.len() ==> (#[trigger] list@[k]) < items@.len(),
        forall|k: int|
            0 <= k < list@.len() ==> score_of(query@, items@[(#[trigger] list@[k]) as int].label@) is Some,
    ensures
        r <= list@.len(),
        list@.insert(r as int, n) == with_place(list@, labels_of(items@), query@, n, 0),
{
    let ghost labels = labels_of(items@);
    let mut i: usize = 0;
    while i < list.len()
        invariant
            i <= list@.len(),
            n < items@.len(),
            labels == labels_of(items@),
            score_of(query@, items@[n as int].label@) == Some(score as int),
            forall|k: int| 0 <= k < list@.len() ==> (#[trigger] list@[k]) < items@.len(),
            forall|k: int|
                0 <= k < list@.len() ==> score_of(
                    query@,
                    items@[(#[trigger] list@[k]) as int].label@,
                ) is Some,
            with_place(list@, labels, query@, n, 0) == with_place(
                list@,
                labels,
                query@,
                n,
                i as int,
            ),
        decreases list@.len() - i,
    {
        let at = list[i];
        if let Some(s) = fuzzy_score(query, items[at].label.as_str()) {
            if s < score {
                return i;
            }
        }
        i += 1;
    }
    assert(list@.insert(list@.len() as int, n) =~= list@.push(n));
    i
}

/// The places of the items that match a query, best first.
pub fn rank(items: &Vec<Item>, query: &str) -> (r: Vec<usize>)
    ensures
        r@ == ranked(labels_of(items@), query@),
        forall|k: int| 0 <= k < r@.len() ==> (#[trigger] r@[k]) < items@.len(),
{
    reveal(ranked);
    let ghost labels = labels_of(items@);
    let none = query.is_empty();
    let mut out: Vec<usize> = Vec::new();
    let mut n: usize = 0;
    while n < items.len()
        invariant
            n <= items@.len(),
            labels == labels_of(items@),
            none == (query@.len() == 0),
            out@ == ranked_upto(labels, query@, n as nat),
            forall|k: int| 0 <= k < out@.len() ==> (#[trigger] out@[k]) < n,
            query@.len() > 0 ==> forall|k: int|
                0 <= k < out@.len() ==> score_of(
                    query@,
                    items@[(#[trigger] out@[k]) as int].label@,
                ) is Some,
        decreases items@.len() - n,
    {
        let ghost had = out@;
        if none {
            out.push(n);
        } else if let Some(s) = fuzzy_score(query, items[n].label.as_str()) {
            let at = place_for(&out, items, query, n, s);
            proof {
                lemma_with_place_in(had, labels, query@, n, 0, n as int + 1);
            }
            out.insert(at, n);
        }
        n += 1;
    }
    out
}

// ---- the picker -------------------------------------------------------------------

pub open spec fn new_picker(
    title: Seq<char>,
    kind: PickerKindView,
    items: Seq<(Seq<char>, Seq<char>)>,
) -> PickerView {
    PickerView {
        title,
        kind,
        query: Seq::empty(),
        items,
        shown: ranked(firsts(items), Seq::empty()),
        selected: 0,
    }
}

/// The picker with another query: ranked anew, on its first row.
pub open spec fn requeried(p: PickerView, query: Seq<char>) -> PickerView {
    PickerView { query, shown: ranked(firsts(p.items), query), selected: 0, ..p }
}

/// The picker with other items for its query.
pub open spec fn refilled(
    p: PickerView,
    kind: PickerKindView,
    items: Seq<(Seq<char>, Seq<char>)>,
) -> PickerView {
    PickerView { kind, items, shown: ranked(firsts(items), p.query), selected: 0, ..p }
}

/// The place of the highlighted item.
pub open spec fn chosen(p: PickerView) -> Option<usize> {
    if p.selected < p.shown.len() {
        Some(p.shown[p.selected as int])
    } else {
        None
    }
}

pub open spec fn chosen_label(p: PickerView) -> Option<Seq<char>> {
    match chosen(p) {
        Some(i) => if i < p.items.len() {
            Some(p.items[i as int].0)
        } else {
            None
        },
        None => None,
    }
}

/// One row down or up.
pub open spec fn one_row(down: bool) -> int {
    if down {
        1
    } else {
        -1
    }
}

/// The highlighted row so many rows on.
pub open spec fn row_moved(p: PickerView, delta: int) -> PickerView {
    if p.shown.len() == 0 {
        p
    } else {
        PickerView {
            selected: row_after(p.selected as int, delta, p.shown.len() as int) as usize,
            ..p
        }
    }
}

impl Picker {
    pub fn new(title: String, kind: PickerKind, items: Vec<Item>) -> (r: Self)
        ensures
            r@ == new_picker(title@, kind@, item_views(items@)),
    {
        let query = String::new();
        let shown = rank(&items, query.as_str());
        assert(labels_of(items@) =~= firsts(item_views(items@)));
        assert(query@ =~= Seq::empty());
        Picker { title, kind, query, items, shown, selected: 0 }
    }

    pub fn requery(&mut self, query: String)
        ensures
            final(self)@ == requeried(old(self)@, query@),
    {
        self.shown = rank(&self.items, query.as_str());
        assert(labels_of(self.items@) =~= firsts(item_views(self.items@)));
        self.query = query;
        self.selected = 0;
    }

    pub fn refill(&mut self, kind: PickerKind, items: Vec<Item>)
        ensures
            final(self)@ == refilled(old(self)@, kind@, item_views(items@)),
    {
        self.shown = rank(&items, self.query.as_str());
        assert(labels_of(items@) =~= firsts(item_views(items@)));
        self.kind = kind;
        self.items = items;
        self.selected = 0;
    }

    pub fn selected_index(&self) -> (r: Option<usize>)
        ensures
            r == chosen(self@),
    {
        if self.selected < self.shown.len() {
            Some(self.shown[self.selected])
        } else {
            None
        }
    }

    /// The label of the highlighted item.
    pub fn selected_item(&self) -> (r: Option<&String>)
        ensures
            match r {
                Some(s) => chosen_label(self@) == Some(s@),
                None => chosen_label(self@) is None,
            },
    {
        match self.selected_index() {
            Some(i) => if i < self.items.len() {
                Some(&self.items[i].label)
            } else {
                None
            },
            None => None,
        }
    }

    /// Move the highlighted row by so many rows, back where that is negative.
    pub fn move_selection(&mut self, delta: isize)
        ensures
            final(self)@ == row_moved(old(self)@, delta as int),
    {
        let n: usize = self.shown.len();
        if n == 0 {
            return ;
        }
        self.selected = step_rows(self.selected, delta, n);
    }
}

pub open spec fn picker_opened(e: EditorView, p: PickerView) -> EditorView {
    in_mode(EditorView { panes: PanesView { picker: Some(p), ..e.panes }, ..e }, Mode::Picker)
}

pub open spec fn picker_closed(e: EditorView) -> EditorView {
    in_mode(EditorView { panes: PanesView { picker: None, ..e.panes }, ..e }, Mode::Normal)
}

impl Editor {
    pub(crate) fn put_picker(&mut self, p: Option<Picker>)
        requires
            old(self).wf(),
        ensures
            final(self)@ == (EditorView {
                panes: PanesView { picker: picker_view(p), ..old(self)@.panes },
                ..old(self)@
            }),
            final(self).wf(),
    {
        self.panes.picker = p;
    }

    pub fn open_picker(&mut self, p: Picker)
        requires
            old(self).wf(),
        ensures
            final(self)@ == picker_opened(old(self)@, p@),
            final(self).wf(),
    {
        self.put_picker(Some(p));
        self.set_mode(Mode::Picker);
    }

    pub(crate) fn close_picker(&mut self)
        requires
            old(self).wf(),
        ensures
            final(self)@ == picker_closed(old(self)@),
            final(self).wf(),
    {
        self.put_picker(None);
        self.set_mode(Mode::Normal);
    }
}

} // verus!
