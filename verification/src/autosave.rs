//! Writing a buffer once typing has paused: as typed, and never over a file
//! that has changed on disk.

use vstd::prelude::*;
use crate::document::{save_allowed, DocView, Document};
use crate::editor::{said, Editor, EditorView};
use crate::files::{doc_at, on_doc_at, saved_doc};
use crate::state::ToolsView;
use crate::strings::{same, with_text};

verus! {

/// Whether a buffer's text at its revision could not be written before.
pub open spec fn failed_before(e: EditorView, d: DocView) -> bool {
    match (d.path, e.tools.autosave_failed) {
        (Some(p), Some(f)) => f == (p, d.revision),
        _ => false,
    }
}

/// Whether the `i`th buffer is to be written of itself, `idle` milliseconds
/// after the last key, where its file was last changed at `now`: the option
/// is on and the pause long enough, there is something to write and a file
/// that has not changed since it was read, and the same text has not failed
/// to be written before.
pub open spec fn autosave_due(e: EditorView, i: int, idle: u64, now: Option<u64>) -> bool {
    let d = doc_at(e, i);
    &&& e.options.autosave > 0
    &&& idle >= e.options.autosave
    &&& d.modified
    &&& d.path is Some
    &&& save_allowed(d, false, now) is Ok
    &&& !failed_before(e, d)
}

/// The `i`th buffer has been written of itself: nothing is said of it.
pub open spec fn kept(e: EditorView, i: int, mtime: Option<u64>) -> EditorView {
    on_doc_at(e, i, saved_doc(doc_at(e, i), mtime))
}

/// The `i`th buffer could not be written of itself: that is said, and the
/// text remembered.
#[verifier::opaque]
pub open spec fn not_kept(e: EditorView, i: int, mtime: Option<u64>, why: Seq<char>) -> EditorView {
    let d = doc_at(e, i);
    let s = on_doc_at(e, i, DocView { disk_mtime: mtime, ..d });
    let t = match d.path {
        Some(p) => EditorView {
            tools: ToolsView { autosave_failed: Some((p, d.revision)), ..s.tools },
            ..s
        },
        None => s,
    };
    said(t, "Error: "@ + why)
}

impl Editor {
    fn has_failed(&self, d: &Document) -> (r: bool)
        ensures
            r == failed_before(self@, d@),
    {
        match (&d.path, &self.tools.autosave_failed) {
            (Some(p), Some(f)) => f.1 == d.revision && same(f.0.as_str(), p.as_str()),
            _ => false,
        }
    }

    /// Whether a buffer is to be written of itself, so many milliseconds after
    /// the last key, given when its file was last changed.
    pub fn autosaves(&self, i: usize, idle: u64, now: Option<u64>) -> (r: bool)
        requires
            self.wf(),
            i < self@.desk.docs.len(),
        ensures
            r == autosave_due(self@, i as int, idle, now),
    {
        if self.options.autosave == 0 || idle < self.options.autosave as u64 {
            return false;
        }
        let d = self.document(i);
        d.modified && d.path.is_some() && d.save(false, now).is_ok() && !self.has_failed(d)
    }

    /// A buffer has been written of itself. True where its swap file is to go.
    pub fn autosaved(&mut self, i: usize, mtime: Option<u64>) -> (r: bool)
        requires
            old(self).wf(),
            i < old(self)@.desk.docs.len(),
        ensures
            r == !doc_at(old(self)@, i as int).swap_found,
            final(self)@ == kept(old(self)@, i as int, mtime),
            final(self).wf(),
    {
        self.document_mut(i).mark_saved(mtime)
    }

    fn remember_failure(&mut self, i: usize)
        requires
            old(self).wf(),
            i < old(self)@.desk.docs.len(),
        ensures
            final(self)@ == (match doc_at(old(self)@, i as int).path {
                Some(p) => EditorView {
                    tools: ToolsView {
                        autosave_failed: Some((p, doc_at(old(self)@, i as int).revision)),
                        ..old(self)@.tools
                    },
                    ..old(self)@
                },
                None => old(self)@,
            }),
            final(self).wf(),
    {
        let d = self.document(i);
        let at = d.revision;
        let path = match &d.path {
            Some(p) => p.clone(),
            None => {
                return ;
            },
        };
        self.tools.autosave_failed = Some((path, at));
    }

    /// A buffer could not be written of itself.
    pub fn autosave_lost(&mut self, i: usize, mtime: Option<u64>, why: &str)
        requires
            old(self).wf(),
            i < old(self)@.desk.docs.len(),
        ensures
            final(self)@ == not_kept(old(self)@, i as int, mtime, why@),
            final(self).wf(),
    {
        reveal(not_kept);
        self.document_mut(i).mark_touched(mtime);
        self.remember_failure(i);
        let m = with_text("Error: ", why);
        self.set_status(m.as_str());
    }
}

/// Nothing is written of itself where the option is off.
pub proof fn law_no_autosave_unless_asked(e: EditorView, i: int, idle: u64, now: Option<u64>)
    requires
        e.options.autosave == 0,
    ensures
        !autosave_due(e, i, idle, now),
{
}

/// Nothing is written of itself over a file that has changed on disk since it
/// was read or written.
pub proof fn law_autosave_spares_a_changed_file(e: EditorView, i: int, idle: u64, now: Option<u64>)
    requires
        now is Some,
        doc_at(e, i).disk_mtime != now,
    ensures
        !autosave_due(e, i, idle, now),
{
}

/// A buffer that has been written of itself holds the text as it was typed,
/// and is not written again.
pub proof fn law_autosave_writes_as_typed(
    e: EditorView,
    i: int,
    mtime: Option<u64>,
    idle: u64,
    now: Option<u64>,
)
    requires
        0 <= i < e.desk.docs.len(),
    ensures
        doc_at(kept(e, i, mtime), i).text == doc_at(e, i).text,
        !autosave_due(kept(e, i, mtime), i, idle, now),
{
    reveal(saved_doc);
}

/// A text that could not be written is not tried again.
pub proof fn law_a_lost_write_is_not_tried_again(
    e: EditorView,
    i: int,
    mtime: Option<u64>,
    why: Seq<char>,
    idle: u64,
    now: Option<u64>,
)
    requires
        0 <= i < e.desk.docs.len(),
    ensures
        !autosave_due(not_kept(e, i, mtime, why), i, idle, now),
{
    reveal(not_kept);
}

} // verus!
