//! Change markers: which buffers to ask about, and what an answer does. The
//! asking itself, and how a buffer differs from its sealed text, are others'.

use vstd::prelude::*;
use crate::editor::{Editor, EditorView};
use crate::files::doc_at;
use crate::layout::{ids, window_in};

verus! {

/// How often, in milliseconds, the buffers on screen are asked about again.
pub const REFRESH_EVERY: u64 = 30_000;

/// How long, in milliseconds, typing must have paused for marks to be made.
pub const MARK_GAP: u64 = 150;

/// What is known of a file as the last seal has it.
#[derive(Clone, Copy, Debug, PartialEq, Eq, Structural)]
pub enum Base {
    /// Nothing yet.
    Unknown,
    /// It is in no repository, or not on disk.
    NoRepo,
    /// Its sealed text is there.
    Sealed,
}

/// The state of a buffer's markers.
#[derive(Clone, Copy, Debug, PartialEq, Eq, Structural)]
pub struct Marks {
    pub base: Base,
    /// It has been asked about, and there is no answer yet.
    pub pending: bool,
    /// The revision that its marks were made for.
    pub marked: Option<u64>,
}

pub open spec fn no_marks() -> Marks {
    Marks { base: Base::Unknown, pending: false, marked: None }
}

/// The markers of the buffers, one state for each.
pub struct Gutter {
    pub marks: Vec<Marks>,
}

impl View for Gutter {
    type V = Seq<Marks>;

    open spec fn view(&self) -> Seq<Marks> {
        self.marks@
    }
}

/// The states for `n` buffers: a buffer that is new has none.
pub open spec fn grown(g: Seq<Marks>, n: nat) -> Seq<Marks> {
    Seq::new(
        if g.len() < n {
            n
        } else {
            g.len()
        },
        |i: int|
            if i < g.len() {
                g[i]
            } else {
                no_marks()
            },
    )
}

/// Whether a window shows the `i`th buffer.
pub open spec fn in_a_window(e: EditorView, i: int, n: nat) -> bool
    decreases n,
{
    n > 0 && n <= ids(e.desk.layout).len() && (match window_in(
        e.desk.layout,
        ids(e.desk.layout)[n - 1],
    ) {
        Some(w) => w.doc == i,
        None => false,
    } || in_a_window(e, i, (n - 1) as nat))
}

/// Whether the `i`th buffer is on screen: in front, or in a window.
pub open spec fn on_screen(e: EditorView, i: int) -> bool {
    i == e.desk.current || in_a_window(e, i, ids(e.desk.layout).len())
}

/// Whether the `i`th buffer is to be asked about: it has a file and no answer
/// is awaited; and either nothing is known of it, or a refresh is due and it
/// is on screen.
pub open spec fn to_ask(e: EditorView, g: Seq<Marks>, refresh: bool, i: int) -> bool {
    &&& e.options.vcs_gutter
    &&& doc_at(e, i).path is Some
    &&& !grown(g, e.desk.docs.len())[i].pending
    &&& grown(g, e.desk.docs.len())[i].base == Base::Unknown || (refresh && on_screen(e, i))
}

/// Whether the marks of the `i`th buffer are to be made: it is on screen,
/// typing has paused, something is known of its file, and it has changed
/// since they were made last.
pub open spec fn to_mark(e: EditorView, g: Seq<Marks>, idle: u64, i: int) -> bool {
    let m = grown(g, e.desk.docs.len())[i];
    &&& e.options.vcs_gutter
    &&& idle >= MARK_GAP
    &&& on_screen(e, i)
    &&& m.base != Base::Unknown
    &&& m.marked != Some(doc_at(e, i).revision)
}

/// The buffers among the first `n` to ask about, in order.
pub open spec fn asked_upto(e: EditorView, g: Seq<Marks>, refresh: bool, n: nat) -> Seq<usize>
    decreases n,
{
    if n == 0 {
        Seq::empty()
    } else {
        let head = asked_upto(e, g, refresh, (n - 1) as nat);
        if to_ask(e, g, refresh, n - 1) {
            head.push((n - 1) as usize)
        } else {
            head
        }
    }
}

/// The buffers among the first `n` whose marks are to be made, in order.
pub open spec fn marked_upto(e: EditorView, g: Seq<Marks>, idle: u64, n: nat) -> Seq<usize>
    decreases n,
{
    if n == 0 {
        Seq::empty()
    } else {
        let head = marked_upto(e, g, idle, (n - 1) as nat);
        if to_mark(e, g, idle, n - 1) {
            head.push((n - 1) as usize)
        } else {
            head
        }
    }
}

/// A buffer asked about, where it has a file: `on_disk` tells whether there
/// is one of its name. One that is not on disk yet is in no repository.
pub open spec fn requested(m: Marks, on_disk: bool) -> Marks {
    if on_disk {
        Marks { pending: true, ..m }
    } else {
        Marks { base: Base::NoRepo, ..m }
    }
}

/// An answer: nothing is awaited any more. It counts where the buffer is
/// still that of the file it is about.
pub open spec fn answered(m: Marks, base: Base, still_there: bool) -> Marks {
    if still_there {
        Marks { base, pending: false, marked: None }
    } else {
        Marks { pending: false, ..m }
    }
}

/// The state once the settings have been read again: markers turned off go
/// away, and turned on they are asked for again.
pub open spec fn read_again(m: Marks, on: bool) -> Marks {
    if on {
        Marks { base: Base::Unknown, ..m }
    } else {
        no_marks()
    }
}

impl Gutter {
    pub fn new() -> (r: Gutter)
        ensures
            r@ == Seq::<Marks>::empty(),
    {
        Gutter { marks: Vec::new() }
    }

    /// Make room for `n` buffers.
    pub fn grow(&mut self, n: usize)
        ensures
            final(self)@ == grown(old(self)@, n as nat),
    {
        let ghost had = self@;
        while self.marks.len() < n
            invariant
                had.len() <= self@.len(),
                self@.len() <= n || self@.len() == had.len(),
                forall|i: int|
                    0 <= i < self@.len() ==> #[trigger] self@[i] == (if i < had.len() {
                        had[i]
                    } else {
                        no_marks()
                    }),
            decreases n - self.marks@.len(),
        {
            self.marks.push(Marks { base: Base::Unknown, pending: false, marked: None });
        }
        assert(self@ =~= grown(had, n as nat));
    }

    fn at(&self, i: usize, n: usize) -> (r: Marks)
        requires
            i < n,
        ensures
            r == grown(self@, n as nat)[i as int],
    {
        if i < self.marks.len() {
            self.marks[i]
        } else {
            Marks { base: Base::Unknown, pending: false, marked: None }
        }
    }

    /// The buffers to ask about.
    pub fn to_ask(&self, editor: &Editor, refresh: bool) -> (r: Vec<usize>)
        requires
            editor.wf(),
        ensures
            r@ == asked_upto(editor@, self@, refresh, editor@.desk.docs.len()),
    {
        let ghost e = editor@;
        let mut out: Vec<usize> = Vec::new();
        let n: usize = editor.desk.documents.len();
        let mut i: usize = 0;
        while i < n
            invariant
                i <= n,
                n == e.desk.docs.len(),
                n == editor.desk.documents@.len(),
                e == editor@,
                out@ == asked_upto(e, self@, refresh, i as nat),
            decreases n - i,
        {
            let m = self.at(i, n);
            assert(doc_at(e, i as int) == editor.desk.documents@[i as int]@);
            let known = m.base != Base::Unknown;
            if editor.options.vcs_gutter && editor.desk.documents[i].path.is_some() && !m.pending
                && (!known || (refresh && editor.shows(i))) {
                out.push(i);
            }
            i += 1;
        }
        out
    }

    /// The buffers whose marks are to be made, `idle` milliseconds after the
    /// last key.
    pub fn to_mark(&self, editor: &Editor, idle: u64) -> (r: Vec<usize>)
        requires
            editor.wf(),
        ensures
            r@ == marked_upto(editor@, self@, idle, editor@.desk.docs.len()),
    {
        let ghost e = editor@;
        let mut out: Vec<usize> = Vec::new();
        let n: usize = editor.desk.documents.len();
        let mut i: usize = 0;
        while i < n
            invariant
                i <= n,
                n == e.desk.docs.len(),
                n == editor.desk.documents@.len(),
                e == editor@,
                out@ == marked_upto(e, self@, idle, i as nat),
            decreases n - i,
        {
            let m = self.at(i, n);
            assert(doc_at(e, i as int) == editor.desk.documents@[i as int]@);
            let fresh = match m.marked {
                Some(v) => v == editor.desk.documents[i].revision,
                None => false,
            };
            if editor.options.vcs_gutter && idle >= MARK_GAP && editor.shows(i) && m.base
                != Base::Unknown && !fresh {
                out.push(i);
            }
            i += 1;
        }
        out
    }

    /// Ask about a buffer: whether its sealed text is to be fetched.
    pub fn request(&mut self, i: usize, editor: &Editor, on_disk: bool) -> (fetch: bool)
        requires
            i < editor@.desk.docs.len(),
        ensures
            fetch == (editor@.options.vcs_gutter && doc_at(editor@, i as int).path is Some
                && on_disk),
            final(self)@ == ({
                let g = grown(old(self)@, editor@.desk.docs.len());
                if editor@.options.vcs_gutter && doc_at(editor@, i as int).path is Some {
                    g.update(i as int, requested(g[i as int], on_disk))
                } else {
                    g
                }
            }),
    {
        let n: usize = editor.desk.documents.len();
        assert(editor@.desk.docs.len() == n);
        self.grow(n);
        let ghost g = self@;
        assert(doc_at(editor@, i as int) == editor.desk.documents@[i as int]@);
        if !editor.options.vcs_gutter || editor.desk.documents[i].path.is_none() {
            return false;
        }
        let mut m = self.marks[i];
        if on_disk {
            m.pending = true;
        } else {
            m.base = Base::NoRepo;
        }
        self.marks.set(i, m);
        assert(self@ =~= g.update(i as int, requested(g[i as int], on_disk)));
        on_disk
    }

    /// Take an answer: whether the screen has changed.
    pub fn answer(&mut self, i: usize, base: Base, still_there: bool) -> (changed: bool)
        ensures
            changed == (i < old(self)@.len() && still_there),
            final(self)@ == (if i < old(self)@.len() {
                old(self)@.update(i as int, answered(old(self)@[i as int], base, still_there))
            } else {
                old(self)@
            }),
    {
        let ghost had = self@;
        if i >= self.marks.len() {
            return false;
        }
        let mut m = self.marks[i];
        m.pending = false;
        if still_there {
            m.base = base;
            m.marked = None;
        }
        self.marks.set(i, m);
        assert(self@ =~= had.update(i as int, answered(had[i as int], base, still_there)));
        still_there
    }

    /// The marks of a buffer have been made for a revision.
    pub fn mark(&mut self, i: usize, revision: u64)
        ensures
            final(self)@ == (if i < old(self)@.len() {
                old(self)@.update(
                    i as int,
                    (Marks { marked: Some(revision), ..old(self)@[i as int] }),
                )
            } else {
                old(self)@
            }),
    {
        if i < self.marks.len() {
            let mut m = self.marks[i];
            m.marked = Some(revision);
            self.marks.set(i, m);
        }
    }

    /// The settings have been read again.
    pub fn read_again(&mut self, on: bool)
        ensures
            final(self)@ == Seq::new(
                old(self)@.len(),
                |i: int| read_again(old(self)@[i], on),
            ),
    {
        let ghost had = self@;
        let mut i: usize = 0;
        while i < self.marks.len()
            invariant
                i <= self@.len(),
                self@.len() == had.len(),
                forall|k: int| 0 <= k < i ==> #[trigger] self@[k] == read_again(had[k], on),
                forall|k: int| i <= k < had.len() ==> #[trigger] self@[k] == had[k],
            decreases self.marks@.len() - i,
        {
            let mut m = self.marks[i];
            assert(m == had[i as int]);
            if on {
                m.base = Base::Unknown;
            } else {
                m = Marks { base: Base::Unknown, pending: false, marked: None };
            }
            self.marks.set(i, m);
            i += 1;
        }
        assert(self@ =~= Seq::new(had.len(), |i: int| read_again(had[i], on)));
    }
}

impl Editor {
    /// Whether a buffer is on screen.
    pub fn shows(&self, i: usize) -> (r: bool)
        ensures
            r == on_screen(self@, i as int),
    {
        if i == self.desk.current {
            return true;
        }
        let mut all: Vec<usize> = Vec::new();
        self.desk.layout.leaf_ids(&mut all);
        assert(all@ =~= ids(self@.desk.layout));
        let n: usize = all.len();
        let mut k: usize = n;
        while k > 0
            invariant
                k <= n == all@.len(),
                all@ == ids(self@.desk.layout),
                in_a_window(self@, i as int, n as nat) == in_a_window(self@, i as int, k as nat),
            decreases k,
        {
            if let Some(w) = self.desk.layout.find(all[k - 1]) {
                if w.doc == i {
                    return true;
                }
            }
            k -= 1;
        }
        false
    }
}

// ---- laws ---------------------------------------------------------------------

/// Every buffer with a file is asked about once: as long as nothing is known
/// of it and no answer is awaited it is asked about, on screen or not; from
/// then on it is asked about again only on screen, when a refresh is due.
pub proof fn law_every_file_is_asked_about(e: EditorView, g: Seq<Marks>, refresh: bool, i: int)
    requires
        0 <= i < e.desk.docs.len(),
        i < g.len(),
        e.options.vcs_gutter,
        doc_at(e, i).path is Some,
    ensures
        g[i].base == Base::Unknown && !g[i].pending ==> to_ask(e, g, refresh, i),
        to_ask(e, g, refresh, i) && g[i].base != Base::Unknown ==> refresh && on_screen(e, i),
        !to_ask(e, g.update(i, requested(g[i], true)), refresh, i),
{
    let asked = g.update(i, requested(g[i], true));
    assert(grown(asked, e.desk.docs.len())[i] == requested(g[i], true));
}

/// An answer always ends the waiting, even one about another file: a buffer
/// that was asked about can be asked about again.
pub proof fn law_an_answer_ends_the_waiting(m: Marks, base: Base, still_there: bool)
    ensures
        !answered(requested(m, true), base, still_there).pending,
        !still_there ==> answered(requested(m, true), base, still_there) == (Marks {
            pending: false,
            ..m
        }),
{
}

} // verus!
