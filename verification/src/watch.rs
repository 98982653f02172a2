//! Files that change underneath their buffers.

use vstd::prelude::*;
use crate::document::{doc_name, DocView};
use crate::editor::{said, Editor, EditorView};
use crate::files::{disk_news_of, doc_at, on_doc_at, reread, DiskNews};
use crate::strings::{joined, opt_text, texts};

verus! {

/// What reading a file again gave.
pub enum Reading {
    /// It was not read.
    Unread,
    Text(String),
    /// Why it could not be read.
    Failed(String),
}

pub enum ReadingView {
    Unread,
    Text(Seq<char>),
    Failed(Seq<char>),
}

impl View for Reading {
    type V = ReadingView;

    open spec fn view(&self) -> ReadingView {
        match self {
            Reading::Unread => ReadingView::Unread,
            Reading::Text(t) => ReadingView::Text(t@),
            Reading::Failed(t) => ReadingView::Failed(t@),
        }
    }
}

pub open spec fn seen_views(v: Seq<(Option<u64>, Reading)>) -> Seq<(Option<u64>, ReadingView)> {
    Seq::new(v.len(), |i: int| (v[i].0, v[i].1@))
}

pub open spec fn conflicted(e: EditorView, i: int, now: Option<u64>) -> EditorView {
    on_doc_at(e, i, DocView { disk_conflict: now, ..doc_at(e, i) })
}

/// What becomes of a buffer whose file was looked at, and what is said of it:
/// one without changes of its own is read again, as one step that undo takes
/// back; of another it is said once.
#[verifier::opaque]
pub open spec fn buffer_checked(
    e: EditorView,
    i: int,
    now: Option<u64>,
    read: ReadingView,
) -> (EditorView, Option<Seq<char>>) {
    let d = doc_at(e, i);
    match disk_news_of(d, now, e.options.auto_reload) {
        DiskNews::Nothing | DiskNews::Known => (e, None),
        DiskNews::Conflict => (
            conflicted(e, i, now),
            Some(doc_name(d) + " changed on disk — :e! loads it, :w! keeps yours"@),
        ),
        DiskNews::Reload => match read {
            ReadingView::Unread => (e, None),
            ReadingView::Text(t) => {
                let after = on_doc_at(e, i, reread(d, t, now));
                (
                    after,
                    if d.text != t {
                        Some(doc_name(doc_at(after, i)) + " reloaded from disk (u undoes)"@)
                    } else {
                        None
                    },
                )
            },
            ReadingView::Failed(why) => if d.disk_conflict == now {
                (e, None)
            } else {
                (conflicted(e, i, now), Some(doc_name(d) + ": "@ + why))
            },
        },
    }
}

/// The first `n` buffers checked, and what is said of them.
pub open spec fn buffers_checked(
    e: EditorView,
    seen: Seq<(Option<u64>, ReadingView)>,
    n: nat,
) -> (EditorView, Seq<Seq<char>>)
    decreases n,
{
    if n == 0 || n > seen.len() {
        (e, Seq::empty())
    } else {
        let (t, notes) = buffers_checked(e, seen, (n - 1) as nat);
        let (u, note) = buffer_checked(t, n - 1, seen[n - 1].0, seen[n - 1].1);
        (
            u,
            match note {
                Some(x) => notes.push(x),
                None => notes,
            },
        )
    }
}

/// All buffers checked, and what is said of them on the status line.
pub open spec fn disk_checked(e: EditorView, seen: Seq<(Option<u64>, ReadingView)>) -> EditorView {
    let (t, notes) = buffers_checked(e, seen, seen.len());
    if notes.len() > 0 {
        said(t, joined(notes, "; "@, notes.len()))
    } else {
        t
    }
}

impl Editor {
    fn check_buffer(&mut self, i: usize, now: Option<u64>, read: &Reading) -> (note: Option<String>)
        requires
            old(self).wf(),
            i < old(self)@.desk.docs.len(),
        ensures
            (final(self)@, opt_text(note)) == buffer_checked(old(self)@, i as int, now, read@),
            final(self)@.desk.docs.len() == old(self)@.desk.docs.len(),
            final(self).wf(),
    {
        reveal(buffer_checked);
        match self.disk_news(i, now) {
            DiskNews::Nothing => None,
            DiskNews::Known => None,
            DiskNews::Conflict => Some(self.disk_conflict(i, now)),
            DiskNews::Reload => match read {
                Reading::Unread => None,
                Reading::Text(t) => {
                    if self.reread_buffer(i, t.as_str(), now) {
                        return Some(self.reload_note(i));
                    }
                    None
                },
                Reading::Failed(why) => self.disk_unreadable(i, now, why.as_str()),
            },
        }
    }

    /// Take in what the files of the buffers are on disk: of each its time of
    /// change and, where it is to be read again, what that gave. True where
    /// something is said.
    pub fn check_disk(&mut self, seen: &Vec<(Option<u64>, Reading)>) -> (r: bool)
        requires
            old(self).wf(),
            seen@.len() == old(self)@.desk.docs.len(),
        ensures
            r == (buffers_checked(old(self)@, seen_views(seen@), seen@.len()).1.len() > 0),
            final(self)@ == disk_checked(old(self)@, seen_views(seen@)),
            final(self).wf(),
    {
        let ghost e = self@;
        let ghost all = seen_views(seen@);
        let mut notes: Vec<String> = Vec::new();
        let mut n: usize = 0;
        assert(texts(notes@) =~= Seq::empty());
        while n < seen.len()
            invariant
                self.wf(),
                n <= seen@.len(),
                seen@.len() == self@.desk.docs.len(),
                all == seen_views(seen@),
                (self@, texts(notes@)) == buffers_checked(e, all, n as nat),
            decreases seen@.len() - n,
        {
            let ghost had = notes@;
            assert(all[n as int] == (seen@[n as int].0, seen@[n as int].1@));
            let note = self.check_buffer(n, seen[n].0, &seen[n].1);
            if let Some(t) = note {
                let ghost x = t@;
                notes.push(t);
                assert(texts(notes@) =~= texts(had).push(x));
            }
            n += 1;
        }
        assert(texts(notes@).len() == notes@.len());
        self.say_notes(&notes)
    }
}

} // verus!
