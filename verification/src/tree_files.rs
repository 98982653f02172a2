//! What becomes of the tree and the buffers when files are made, moved and
//! deleted.

use vstd::prelude::*;
use crate::desk::{doc_ok, DeskView};
use crate::document::{file_name_of, DocView, Document};
use crate::editor::{said, Editor, EditorView};
use crate::filetree::{listing_views, opened_above, rebuilt, selected_at, Listing, TreeView};
use crate::paths::{is_under, join_path, joined_path, lies_under, parent, parent_of};
use crate::state::{Effect, SidebarView};
use crate::strings::{debug_text, opt_text, quote_text, same, text_between, with_text};
use crate::tree_keys::{listed, with_tree};

verus! {

// ---- the tree's rows --------------------------------------------------------------

/// The tree with the rows that the directories give.
pub open spec fn tree_listed(
    e: EditorView,
    ls: Seq<crate::filetree::ListingView>,
) -> EditorView {
    match e.sidebar.tree {
        Some(t) => with_tree(e, rebuilt(t, ls, e.options.show_hidden)),
        None => e,
    }
}

/// The tree opened down to a file, and to be listed again.
pub open spec fn tree_opened_to(e: EditorView, path: Seq<char>) -> EditorView {
    match e.sidebar.tree {
        Some(t) => listed(
            with_tree(
                e,
                TreeView { expanded: opened_above(t.expanded, t.root, path), stale: true, ..t },
            ),
        ),
        None => e,
    }
}

impl Editor {
    /// Take in what the directories of the tree hold.
    pub fn list_tree(&mut self, listings: &Vec<Listing>)
        requires
            old(self).wf(),
        ensures
            final(self)@ == tree_listed(old(self)@, listing_views(listings@)),
            final(self).wf(),
    {
        let hidden = self.options.show_hidden;
        if let Some(t) = self.take_tree() {
            let mut t = t;
            t.rebuild(listings, hidden);
            self.put_tree(t);
        }
    }

    /// Put the highlight of the tree on a file, where it is shown.
    pub fn select_in_tree(&mut self, path: &str)
        requires
            old(self).wf(),
        ensures
            final(self)@ == (match old(self)@.sidebar.tree {
                Some(t) => with_tree(old(self)@, selected_at(t, path@)),
                None => old(self)@,
            }),
            final(self).wf(),
    {
        if let Some(t) = self.take_tree() {
            let mut t = t;
            t.select(path);
            self.put_tree(t);
        }
    }

    fn open_tree_to(&mut self, path: &str)
        requires
            old(self).wf(),
        ensures
            final(self)@ == tree_opened_to(old(self)@, path@),
            final(self).wf(),
    {
        if let Some(t) = self.take_tree() {
            let mut t = t;
            t.reveal_path(path);
            self.put_tree(t);
            self.ask(Effect::ListTree);
        }
    }
}

// ---- buffers that follow their file ------------------------------------------------

/// A buffer of a file that has moved.
pub open spec fn retargeted(d: DocView, from: Seq<char>, to: Seq<char>) -> DocView {
    if d.path == Some(from) {
        DocView { path: Some(to), syntax_dirty: true, ..d }
    } else {
        d
    }
}

pub open spec fn first_retargeted(
    docs: Seq<DocView>,
    from: Seq<char>,
    to: Seq<char>,
    n: int,
) -> Seq<DocView> {
    Seq::new(
        docs.len(),
        |i: int|
            if i < n {
                retargeted(docs[i], from, to)
            } else {
                docs[i]
            },
    )
}

/// The buffers of a file that has moved follow it.
#[verifier::opaque]
pub open spec fn buffers_followed(e: EditorView, from: Seq<char>, to: Seq<char>) -> EditorView {
    EditorView {
        desk: DeskView {
            docs: first_retargeted(e.desk.docs, from, to, e.desk.docs.len() as int),
            ..e.desk
        },
        ..e
    }
}

impl Document {
    fn retarget(&mut self, from: &str, to: &str)
        requires
            doc_ok(old(self)@),
        ensures
            final(self)@ == retargeted(old(self)@, from@, to@),
            doc_ok(final(self)@),
    {
        let here = match &self.path {
            Some(p) => same(p.as_str(), from),
            None => false,
        };
        if here {
            self.path = Some(to.to_owned());
            self.syntax_dirty = true;
        }
    }
}

impl Editor {
    /// Point the buffers of a file at where it has moved.
    pub fn retarget_buffers(&mut self, from: &str, to: &str)
        requires
            old(self).wf(),
        ensures
            final(self)@ == buffers_followed(old(self)@, from@, to@),
            final(self).wf(),
    {
        reveal(buffers_followed);
        let ghost e = self@;
        let n = self.desk.documents.len();
        let mut i: usize = 0;
        assert(first_retargeted(e.desk.docs, from@, to@, 0) =~= e.desk.docs);
        assert(n == e.desk.docs.len());
        while i < n
            invariant
                self.wf(),
                i <= n,
                n == e.desk.docs.len(),
                self@ == (EditorView {
                    desk: DeskView {
                        docs: first_retargeted(e.desk.docs, from@, to@, i as int),
                        ..e.desk
                    },
                    ..e
                }),
            decreases n - i,
        {
            self.document_mut(i).retarget(from, to);
            assert(self@.desk.docs =~= first_retargeted(e.desk.docs, from@, to@, i + 1));
            i += 1;
        }
    }
}

// ---- what was done ----------------------------------------------------------------

#[verifier::opaque]
pub open spec fn file_created(e: EditorView, target: Seq<char>, name: Seq<char>) -> EditorView {
    said(tree_opened_to(e, target), "created "@ + name)
}

#[verifier::opaque]
pub open spec fn file_renamed(
    e: EditorView,
    path: Seq<char>,
    target: Seq<char>,
    name: Seq<char>,
) -> EditorView {
    said(tree_opened_to(buffers_followed(e, path, target), target), "renamed to "@ + name)
}

pub open spec fn clip_emptied(e: EditorView) -> EditorView {
    EditorView { sidebar: SidebarView { clipboard: None, ..e.sidebar }, ..e }
}

/// A file has been moved or copied. The buffers follow one that moved, and it
/// is not pasted again.
#[verifier::opaque]
pub open spec fn file_pasted(
    e: EditorView,
    src: Seq<char>,
    target: Seq<char>,
    name: Seq<char>,
    cut: bool,
) -> EditorView {
    if cut {
        said(
            tree_opened_to(clip_emptied(buffers_followed(e, src, target)), target),
            "moved "@ + name,
        )
    } else {
        said(tree_opened_to(e, target), "copied "@ + name)
    }
}

#[verifier::opaque]
pub open spec fn file_deleted(e: EditorView, path: Seq<char>) -> EditorView {
    let name = match file_name_of(path) {
        Some(n) => n,
        None => Seq::empty(),
    };
    said(
        match e.sidebar.tree {
            Some(_) => listed(e),
            None => e,
        },
        "deleted "@ + name,
    )
}

/// Where renaming puts a file: beside where it is, or nowhere where the name is
/// empty or the one it has.
pub open spec fn rename_place(path: Seq<char>, name: Seq<char>) -> Option<Seq<char>> {
    let dir = match parent_of(path) {
        Some(p) => p,
        None => Seq::empty(),
    };
    if name.len() == 0 || joined_path(dir, name) == path {
        None
    } else {
        Some(joined_path(dir, name))
    }
}

/// Where renaming puts a file.
pub fn rename_target(path: &str, name: &str) -> (r: Option<String>)
    ensures
        opt_text(r) == rename_place(path@, name@),
{
    if name.is_empty() {
        return None;
    }
    let dir = match parent(path) {
        Some(p) => p,
        None => {
            let none = String::new();
            assert(none@ =~= Seq::empty());
            none
        },
    };
    let target = join_path(dir.as_str(), name);
    if same(target.as_str(), path) {
        return None;
    }
    Some(target)
}

/// Why something cannot be pasted into a directory.
pub open spec fn paste_refusal(
    src: Seq<char>,
    dir: Seq<char>,
    name: Seq<char>,
    exists_there: bool,
    is_dir: bool,
) -> Option<Seq<char>> {
    if exists_there {
        Some("Error: "@ + debug_text(name) + " already exists here"@)
    } else if is_dir && lies_under(dir, src) {
        Some("Error: can't paste a directory into itself"@)
    } else {
        None
    }
}

/// Why something cannot be pasted into a directory. `exists_there` where the
/// directory has something of that name, `is_dir` where a directory is pasted.
pub fn may_not_paste(
    src: &str,
    dir: &str,
    name: &str,
    exists_there: bool,
    is_dir: bool,
) -> (r: Option<String>)
    ensures
        opt_text(r) == paste_refusal(src@, dir@, name@, exists_there, is_dir),
{
    if exists_there {
        let q = quote_text(name);
        return Some(text_between("Error: ", q.as_str(), " already exists here"));
    }
    if is_dir && is_under(dir, src) {
        return Some("Error: can't paste a directory into itself".to_owned());
    }
    None
}

impl Editor {
    /// A file or directory has been made.
    pub fn tree_created(&mut self, target: &str, name: &str)
        requires
            old(self).wf(),
        ensures
            final(self)@ == file_created(old(self)@, target@, name@),
            final(self).wf(),
    {
        reveal(file_created);
        self.open_tree_to(target);
        let m = with_text("created ", name);
        self.set_status(m.as_str());
    }

    /// A name is taken already.
    pub fn name_taken(&mut self, name: &str)
        requires
            old(self).wf(),
        ensures
            final(self)@ == said(
                old(self)@,
                "Error: "@ + debug_text(name@) + " already exists"@,
            ),
            final(self).wf(),
    {
        let q = quote_text(name);
        let m = text_between("Error: ", q.as_str(), " already exists");
        self.set_status(m.as_str());
    }

    /// A file or directory has another name.
    pub fn tree_renamed(&mut self, path: &str, target: &str, name: &str)
        requires
            old(self).wf(),
        ensures
            final(self)@ == file_renamed(old(self)@, path@, target@, name@),
            final(self).wf(),
    {
        reveal(file_renamed);
        self.retarget_buffers(path, target);
        self.open_tree_to(target);
        let m = with_text("renamed to ", name);
        self.set_status(m.as_str());
    }

    /// A file or directory has been moved or copied.
    pub fn tree_pasted(&mut self, src: &str, target: &str, name: &str, cut: bool)
        requires
            old(self).wf(),
        ensures
            final(self)@ == file_pasted(old(self)@, src@, target@, name@, cut),
            final(self).wf(),
    {
        reveal(file_pasted);
        if cut {
            self.retarget_buffers(src, target);
            self.set_clipboard(None);
            self.open_tree_to(target);
            let m = with_text("moved ", name);
            self.set_status(m.as_str());
            return ;
        }
        self.open_tree_to(target);
        let m = with_text("copied ", name);
        self.set_status(m.as_str());
    }

    /// A file or directory has been deleted.
    pub fn tree_deleted(&mut self, path: &str)
        requires
            old(self).wf(),
        ensures
            final(self)@ == file_deleted(old(self)@, path@),
            final(self).wf(),
    {
        reveal(file_deleted);
        let name = match crate::document::file_name(path) {
            Some(n) => n,
            None => {
                let none = String::new();
                assert(none@ =~= Seq::empty());
                none
            },
        };
        let m = with_text("deleted ", name.as_str());
        if self.sidebar.tree.is_some() {
            self.ask(Effect::ListTree);
        }
        self.set_status(m.as_str());
    }
}

// ---- laws -------------------------------------------------------------------------

/// A file moved away and back: the buffers have the paths they had, where none
/// was on the other place.
pub proof fn law_moving_back_restores_the_paths(
    docs: Seq<DocView>,
    from: Seq<char>,
    to: Seq<char>,
)
    requires
        forall|i: int| 0 <= i < docs.len() ==> (#[trigger] docs[i]).path != Some(to),
    ensures
        ({
            let n = docs.len() as int;
            let there = first_retargeted(docs, from, to, n);
            let back = first_retargeted(there, to, from, n);
            back.len() == docs.len() && forall|i: int|
                0 <= i < n ==> (#[trigger] back[i]).path == docs[i].path && back[i].text
                    == docs[i].text
        }),
{
}

} // verus!
