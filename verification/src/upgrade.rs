//! Rewriting a dependency to its latest version.

use vstd::prelude::*;
use crate::deps::{
    dep_on_line, kind_of_file, line_dep, manifest_kind, span_of_version, version_span, Kind,
};
use crate::desk::doc_ok;
use crate::document::{
    clamped, cursor_line, file_name, file_name_of, min_int, true_to_edits, DocView, Document,
};
use crate::editor::{doc_of, on_doc, said, Editor, EditorView};
use crate::edits::spliced;
use crate::state::{DepInfo, DepInfoView};
use crate::strings::{chars_of, opt_text, push_lit, same, string_of, text_between};
use crate::text::{line_start, line_text, rope_len};

verus! {

/// What a registry said last of a dependency.
pub open spec fn known_latest(v: Seq<DepInfoView>, kind: Kind, name: Seq<char>, n: nat) -> Option<
    Seq<char>,
>
    decreases n,
{
    if n == 0 || n > v.len() {
        None
    } else if v[n - 1].kind == kind && v[n - 1].name == name {
        v[n - 1].latest
    } else {
        known_latest(v, kind, name, (n - 1) as nat)
    }
}

pub enum Upgrade {
    NoManifest,
    NoDep,
    NoInfo { name: String },
    NoVersion,
    Same { name: String, version: String },
    Rewrite { from: usize, to: usize, name: String, old: String, latest: String },
}

pub enum UpgradeView {
    NoManifest,
    NoDep,
    NoInfo { name: Seq<char> },
    NoVersion,
    Same { name: Seq<char>, version: Seq<char> },
    Rewrite { from: int, to: int, name: Seq<char>, old: Seq<char>, latest: Seq<char> },
}

impl View for Upgrade {
    type V = UpgradeView;

    open spec fn view(&self) -> UpgradeView {
        match self {
            Upgrade::NoManifest => UpgradeView::NoManifest,
            Upgrade::NoDep => UpgradeView::NoDep,
            Upgrade::NoInfo { name } => UpgradeView::NoInfo { name: name@ },
            Upgrade::NoVersion => UpgradeView::NoVersion,
            Upgrade::Same { name, version } => UpgradeView::Same { name: name@, version: version@ },
            Upgrade::Rewrite { from, to, name, old, latest } => UpgradeView::Rewrite {
                from: *from as int,
                to: *to as int,
                name: name@,
                old: old@,
                latest: latest@,
            },
        }
    }
}

pub open spec fn manifest_of(path: Option<Seq<char>>) -> Option<Kind> {
    match path {
        Some(p) => match file_name_of(p) {
            Some(n) => kind_of_file(n),
            None => None,
        },
        None => None,
    }
}

/// What upgrading the dependency on the cursor's line comes to.
#[verifier::opaque]
pub open spec fn upgrade_of(d: DocView, info: Seq<DepInfoView>) -> UpgradeView {
    let at = cursor_line(d.text, d.cursor as int);
    let line = line_text(d.text, at);
    match manifest_of(d.path) {
        None => UpgradeView::NoManifest,
        Some(kind) => match dep_on_line(kind, line) {
            None => UpgradeView::NoDep,
            Some(name) => match known_latest(info, kind, name, info.len()) {
                None => UpgradeView::NoInfo { name },
                Some(latest) => match span_of_version(kind, line) {
                    None => UpgradeView::NoVersion,
                    Some((from, to)) => if line.subrange(from, to) == latest {
                        UpgradeView::Same { name, version: latest }
                    } else {
                        UpgradeView::Rewrite {
                            from: line_start(d.text, at) + from,
                            to: line_start(d.text, at) + to,
                            name,
                            old: line.subrange(from, to),
                            latest,
                        }
                    },
                },
            },
        },
    }
}

/// A stretch of the text replaced, with the cursor where it was.
#[verifier::opaque]
pub open spec fn rewritten(d: DocView, from: int, to: int, t: Seq<char>) -> DocView {
    let len = d.text.len() - (to - from) + t.len();
    let s = spliced(d, from, to, t, min_int(d.cursor as int, len));
    DocView { cursor: clamped(s.text, s.cursor as int, false) as usize, ..s }
}

#[verifier::opaque]
pub open spec fn upgrade_text(u: UpgradeView) -> Seq<char> {
    match u {
        UpgradeView::NoManifest => "not a package manifest"@,
        UpgradeView::NoDep => "no dependency on this line"@,
        UpgradeView::NoInfo { name } => "no version info for "@ + name + " (still fetching?)"@,
        UpgradeView::NoVersion => "no version number on this line to rewrite"@,
        UpgradeView::Same { name, version } => name + " is already "@ + version,
        UpgradeView::Rewrite { from, to, name, old, latest } => name + ": "@ + old + " → "@
            + latest + " (reinstall to apply)"@,
    }
}

pub open spec fn upgraded(e: EditorView) -> EditorView {
    let u = upgrade_of(doc_of(e), e.tools.dep_info);
    said(
        match u {
            UpgradeView::Rewrite { from, to, name, old, latest } => on_doc(
                e,
                rewritten(doc_of(e), from, to, latest),
            ),
            _ => e,
        },
        upgrade_text(u),
    )
}

fn find_latest(v: &Vec<DepInfo>, kind: Kind, name: &str) -> (r: Option<String>)
    ensures
        opt_text(r) == known_latest(
            crate::state::dep_info_views(v@),
            kind,
            name@,
            crate::state::dep_info_views(v@).len(),
        ),
{
    let ghost views = crate::state::dep_info_views(v@);
    let mut n: usize = v.len();
    while n > 0
        invariant
            n <= v@.len(),
            views == crate::state::dep_info_views(v@),
            known_latest(views, kind, name@, views.len()) == known_latest(
                views,
                kind,
                name@,
                n as nat,
            ),
        decreases n,
    {
        let d = &v[n - 1];
        assert(views[n - 1] == d@);
        if d.kind == kind && same(d.name.as_str(), name) {
            return match &d.latest {
                Some(x) => Some(x.as_str().to_owned()),
                None => None,
            };
        }
        n -= 1;
    }
    None
}

impl Document {
    pub fn upgrade_here(&self, info: &Vec<DepInfo>) -> (r: Upgrade)
        requires
            doc_ok(self@),
        ensures
            r@ == upgrade_of(self@, crate::state::dep_info_views(info@)),
            r matches Upgrade::Rewrite { from, to, .. } ==> from <= to <= self@.text.len(),
    {
        reveal(upgrade_of);
        let kind = match &self.path {
            Some(p) => match file_name(p.as_str()) {
                Some(n) => manifest_kind(n.as_str()),
                None => None,
            },
            None => None,
        };
        let kind = match kind {
            Some(k) => k,
            None => {
                return Upgrade::NoManifest;
            },
        };
        let at = self.cursor_line();
        let chars = self.line(at);
        let line = string_of(&chars);
        let name = match line_dep(kind, line.as_str()) {
            Some(n) => n,
            None => {
                return Upgrade::NoDep;
            },
        };
        let latest = match find_latest(info, kind, name.as_str()) {
            Some(l) => l,
            None => {
                return Upgrade::NoInfo { name };
            },
        };
        let (from, to) = match version_span(kind, line.as_str()) {
            Some(s) => s,
            None => {
                return Upgrade::NoVersion;
            },
        };
        let old = string_of(vstd::slice::slice_subrange(chars.as_slice(), from, to));
        assert(old@ == line@.subrange(from as int, to as int));
        if same(old.as_str(), latest.as_str()) {
            return Upgrade::Same { name, version: latest };
        }
        let start = self.line_start(at);
        let len = rope_len(&self.text);
        proof {
            crate::document::lemma_line_parts(self@.text, at as int);
        }
        Upgrade::Rewrite { from: start + from, to: start + to, name, old, latest }
    }

    pub(crate) fn rewrite(&mut self, from: usize, to: usize, t: &str)
        requires
            doc_ok(old(self)@),
            from <= to <= old(self)@.text.len(),
        ensures
            final(self)@ == rewritten(old(self)@, from as int, to as int, t@),
            doc_ok(final(self)@),
            true_to_edits(old(self)@) ==> true_to_edits(final(self)@),
    {
        reveal(rewritten);
        let len = rope_len(&self.text);
        let added = chars_of(t);
        let kept: usize = len - (to - from);
        let room: usize = added.len();
        let c = if self.cursor <= kept || self.cursor - kept <= room {
            self.cursor
        } else {
            kept + room
        };
        self.splice(from, to, t, c);
        self.clamp_cursor(false);
    }
}

fn say_plan(u: &Upgrade) -> (r: String)
    ensures
        r@ == upgrade_text(u@),
{
    reveal(upgrade_text);
    match u {
        Upgrade::NoManifest => "not a package manifest".to_owned(),
        Upgrade::NoDep => "no dependency on this line".to_owned(),
        Upgrade::NoInfo { name } => text_between(
            "no version info for ",
            name.as_str(),
            " (still fetching?)",
        ),
        Upgrade::NoVersion => "no version number on this line to rewrite".to_owned(),
        Upgrade::Same { name, version } => text_between(
            name.as_str(),
            " is already ",
            version.as_str(),
        ),
        Upgrade::Rewrite { from, to, name, old, latest } => {
            let mut v = chars_of(name.as_str());
            push_lit(&mut v, ": ");
            push_lit(&mut v, old.as_str());
            push_lit(&mut v, " → ");
            push_lit(&mut v, latest.as_str());
            push_lit(&mut v, " (reinstall to apply)");
            assert(v@ =~= upgrade_text(u@));
            string_of(&v)
        },
    }
}

impl Editor {
    fn plan_upgrade(&self) -> (r: Upgrade)
        requires
            self.wf(),
        ensures
            r@ == upgrade_of(doc_of(self@), self@.tools.dep_info),
            r matches Upgrade::Rewrite { from, to, .. } ==> from <= to <= doc_of(self@).text.len(),
    {
        self.doc().upgrade_here(&self.tools.dep_info)
    }

    /// Rewrite the version on the cursor's line of a package manifest to the
    /// latest one that its registry reported.
    pub fn dep_upgrade(&mut self)
        requires
            old(self).wf(),
        ensures
            final(self)@ == upgraded(old(self)@),
            final(self).wf(),
    {
        let plan = self.plan_upgrade();
        let m = say_plan(&plan);
        if let Upgrade::Rewrite { from, to, name, old, latest } = plan {
            self.doc_mut().rewrite(from, to, latest.as_str());
            self.set_status(m.as_str());
            return ;
        }
        self.set_status(m.as_str());
    }
}

} // verus!
