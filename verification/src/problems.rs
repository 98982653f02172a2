//! The diagnostics of all files in a picker, and one in full.

use vstd::prelude::*;
use crate::document::cursor_line;
use crate::editor::{doc_of, said, Editor, EditorView};
use crate::events::{diagnostics_of, hover_shown};
use crate::lsp_parse::{
    detail_of, diagnostic_views, location_views, notes_of, Diagnostic, DiagnosticView, Location,
    LocationView,
};
use crate::paths::{below, lies_under, path_below};
use crate::picker::{new_picker, picker_opened};
use crate::state::{file_diagnostics, item_views, Item, Picker, PickerKind, PickerKindView};
use crate::strings::{chars_of, decimal, opt_text, push_lit, same, string_of};
use crate::view::push_after;

verus! {

// ---- their order ------------------------------------------------------------------

/// Whether one path comes before another, by their components: a slash is
/// below all other characters.
pub open spec fn path_before_from(a: Seq<char>, b: Seq<char>, i: int) -> bool
    decreases b.len() - i,
{
    if i < 0 || i >= b.len() {
        false
    } else if i >= a.len() {
        true
    } else if a[i] != b[i] {
        a[i] == '/' || (b[i] != '/' && a[i] < b[i])
    } else {
        path_before_from(a, b, i + 1)
    }
}

fn path_before(a: &[char], b: &[char]) -> (r: bool)
    ensures
        r == path_before_from(a@, b@, 0),
{
    let mut i: usize = 0;
    while i < b.len()
        invariant
            i <= b@.len(),
            path_before_from(a@, b@, 0) == path_before_from(a@, b@, i as int),
        decreases b@.len() - i,
    {
        if i >= a.len() {
            return true;
        }
        if a[i] != b[i] {
            return a[i] == '/' || (b[i] != '/' && a[i] < b[i]);
        }
        i += 1;
    }
    false
}

/// Whether one diagnostic is listed before another: those of the buffer in
/// front first, then by file, severity and line.
pub open spec fn problem_before(
    v: Seq<(Seq<char>, Seq<DiagnosticView>)>,
    here: Option<Seq<char>>,
    a: (usize, usize),
    b: (usize, usize),
) -> bool {
    let p = v[a.0 as int].0;
    let q = v[b.0 as int].0;
    let x = v[a.0 as int].1[a.1 as int];
    let y = v[b.0 as int].1[b.1 as int];
    if (here == Some(p)) != (here == Some(q)) {
        here == Some(p)
    } else if path_before_from(p, q, 0) {
        true
    } else if path_before_from(q, p, 0) {
        false
    } else if x.severity != y.severity {
        x.severity < y.severity
    } else {
        x.line < y.line
    }
}

/// A diagnostic behind those in the list that it does not come before.
pub open spec fn with_problem(
    v: Seq<(Seq<char>, Seq<DiagnosticView>)>,
    here: Option<Seq<char>>,
    list: Seq<(usize, usize)>,
    x: (usize, usize),
    i: int,
) -> Seq<(usize, usize)>
    decreases list.len() - i,
{
    if i < 0 || i >= list.len() {
        list.push(x)
    } else if problem_before(v, here, x, list[i]) {
        list.insert(i, x)
    } else {
        with_problem(v, here, list, x, i + 1)
    }
}

/// The first `n` diagnostics of a file put into the list.
pub open spec fn with_file(
    v: Seq<(Seq<char>, Seq<DiagnosticView>)>,
    here: Option<Seq<char>>,
    list: Seq<(usize, usize)>,
    f: usize,
    n: nat,
) -> Seq<(usize, usize)>
    decreases n,
{
    if n == 0 {
        list
    } else {
        with_problem(v, here, with_file(v, here, list, f, (n - 1) as nat), (f, (n - 1) as usize), 0)
    }
}

/// The places of the diagnostics of the first `n` files, in order.
pub open spec fn problems_upto(
    v: Seq<(Seq<char>, Seq<DiagnosticView>)>,
    here: Option<Seq<char>>,
    n: nat,
) -> Seq<(usize, usize)>
    decreases n,
{
    if n == 0 || n > v.len() {
        Seq::empty()
    } else {
        with_file(
            v,
            here,
            problems_upto(v, here, (n - 1) as nat),
            (n - 1) as usize,
            v[n - 1].1.len(),
        )
    }
}

pub open spec fn in_files(
    v: Seq<(Seq<char>, Seq<DiagnosticView>)>,
    list: Seq<(usize, usize)>,
) -> bool {
    forall|i: int|
        #![trigger list[i]]
        0 <= i < list.len() ==> list[i].0 < v.len() && list[i].1 < v[list[i].0 as int].1.len()
}

fn is_here(here: &Option<String>, p: &str) -> (r: bool)
    ensures
        r == (opt_text(*here) == Some(p@)),
{
    match here {
        Some(h) => same(h.as_str(), p),
        None => false,
    }
}

proof fn lemma_files(v: Seq<(String, Vec<Diagnostic>)>, a: (usize, usize))
    requires
        a.0 < v.len(),
        a.1 < file_diagnostics(v)[a.0 as int].1.len(),
    ensures
        file_diagnostics(v)[a.0 as int].0 == v[a.0 as int].0@,
        a.1 < v[a.0 as int].1@.len(),
        file_diagnostics(v)[a.0 as int].1[a.1 as int] == v[a.0 as int].1@[a.1 as int]@,
{
}

fn goes_before(
    v: &Vec<(String, Vec<Diagnostic>)>,
    here: &Option<String>,
    a: (usize, usize),
    b: (usize, usize),
) -> (r: bool)
    requires
        in_files(file_diagnostics(v@), seq![a, b]),
    ensures
        r == problem_before(file_diagnostics(v@), opt_text(*here), a, b),
{
    proof {
        let two = seq![a, b];
        assert(two[0] == a && two[1] == b);
        lemma_files(v@, a);
        lemma_files(v@, b);
    }
    let pa = is_here(here, v[a.0].0.as_str());
    let pb = is_here(here, v[b.0].0.as_str());
    if pa != pb {
        return pa;
    }
    let p = chars_of(v[a.0].0.as_str());
    let q = chars_of(v[b.0].0.as_str());
    if path_before(p.as_slice(), q.as_slice()) {
        return true;
    }
    if path_before(q.as_slice(), p.as_slice()) {
        return false;
    }
    let x = &v[a.0].1[a.1];
    let y = &v[b.0].1[b.1];
    if x.severity != y.severity {
        return x.severity < y.severity;
    }
    x.line < y.line
}

fn put_problem(
    v: &Vec<(String, Vec<Diagnostic>)>,
    here: &Option<String>,
    list: &mut Vec<(usize, usize)>,
    x: (usize, usize),
)
    requires
        in_files(file_diagnostics(v@), old(list)@),
        in_files(file_diagnostics(v@), seq![x]),
    ensures
        final(list)@ == with_problem(file_diagnostics(v@), opt_text(*here), old(list)@, x, 0),
        in_files(file_diagnostics(v@), final(list)@),
{
    let ghost all = file_diagnostics(v@);
    let ghost h = opt_text(*here);
    let ghost had = list@;
    let mut i: usize = 0;
    proof {
        let one = seq![x];
        assert(one[0] == x);
    }
    while i < list.len()
        invariant
            all == file_diagnostics(v@),
            h == opt_text(*here),
            list@ == had,
            had == old(list)@,
            i <= had.len(),
            in_files(all, had),
            x.0 < all.len(),
            x.1 < all[x.0 as int].1.len(),
            with_problem(all, h, had, x, 0) == with_problem(all, h, had, x, i as int),
        decreases had.len() - i,
    {
        let y = list[i];
        assert(had[i as int] == y);
        proof {
            let two = seq![x, y];
            assert forall|k: int|
                #![trigger two[k]]
                0 <= k < two.len() implies two[k].0 < all.len() && two[k].1
                < all[two[k].0 as int].1.len() by {
                assert(two[k] == x || two[k] == y);
            }
        }
        if goes_before(v, here, x, y) {
            list.insert(i, x);
            assert(list@ =~= had.insert(i as int, x));
            assert forall|k: int|
                #![trigger list@[k]]
                0 <= k < list@.len() implies list@[k].0 < all.len() && list@[k].1
                < all[list@[k].0 as int].1.len() by {
                if k < i {
                    assert(list@[k] == had[k]);
                } else if k > i {
                    assert(list@[k] == had[k - 1]);
                }
            }
            return ;
        }
        i += 1;
    }
    list.push(x);
    assert forall|k: int|
        #![trigger list@[k]]
        0 <= k < list@.len() implies list@[k].0 < all.len() && list@[k].1
        < all[list@[k].0 as int].1.len() by {
        if k < had.len() {
            assert(list@[k] == had[k]);
        }
    }
}

fn put_file(
    v: &Vec<(String, Vec<Diagnostic>)>,
    here: &Option<String>,
    list: &mut Vec<(usize, usize)>,
    f: usize,
)
    requires
        in_files(file_diagnostics(v@), old(list)@),
        f < v@.len(),
    ensures
        final(list)@ == with_file(
            file_diagnostics(v@),
            opt_text(*here),
            old(list)@,
            f,
            file_diagnostics(v@)[f as int].1.len(),
        ),
        in_files(file_diagnostics(v@), final(list)@),
{
    let ghost all = file_diagnostics(v@);
    let ghost had = list@;
    let n = v[f].1.len();
    let mut k: usize = 0;
    while k < n
        invariant
            all == file_diagnostics(v@),
            f < v@.len(),
            k <= n,
            n == all[f as int].1.len(),
            in_files(all, list@),
            list@ == with_file(all, opt_text(*here), had, f, k as nat),
        decreases n - k,
    {
        proof {
            let one = seq![(f, k)];
            assert(one[0] == (f, k));
        }
        put_problem(v, here, list, (f, k));
        k += 1;
    }
}

fn order_problems(v: &Vec<(String, Vec<Diagnostic>)>, here: &Option<String>) -> (r: Vec<
    (usize, usize),
>)
    ensures
        r@ == problems_upto(file_diagnostics(v@), opt_text(*here), v@.len()),
        in_files(file_diagnostics(v@), r@),
{
    let ghost all = file_diagnostics(v@);
    let mut list: Vec<(usize, usize)> = Vec::new();
    let mut n: usize = 0;
    while n < v.len()
        invariant
            all == file_diagnostics(v@),
            all.len() == v@.len(),
            n <= v@.len(),
            in_files(all, list@),
            list@ == problems_upto(all, opt_text(*here), n as nat),
        decreases v@.len() - n,
    {
        put_file(v, here, &mut list, n);
        n += 1;
    }
    list
}

// ---- their rows -------------------------------------------------------------------

/// A path as it is shown: from a directory on, where it lies under it.
pub open spec fn shown_path(p: Seq<char>, root: Seq<char>) -> Seq<char> {
    if lies_under(p, root) {
        below(p, root)
    } else {
        p
    }
}

pub open spec fn problem_row(path: Seq<char>, d: DiagnosticView, root: Seq<char>) -> (
    Seq<char>,
    Seq<char>,
) {
    (
        (if d.severity == 1 {
            "●"@
        } else {
            "▲"@
        }) + " "@ + shown_path(path, root) + ":"@ + decimal((d.line + 1) as nat),
        d.message,
    )
}

pub open spec fn problem_rows(
    v: Seq<(Seq<char>, Seq<DiagnosticView>)>,
    list: Seq<(usize, usize)>,
    root: Seq<char>,
) -> Seq<(Seq<char>, Seq<char>)> {
    Seq::new(
        list.len(),
        |i: int|
            problem_row(
                v[list[i].0 as int].0,
                v[list[i].0 as int].1[list[i].1 as int],
                root,
            ),
    )
}

pub open spec fn problem_places(
    v: Seq<(Seq<char>, Seq<DiagnosticView>)>,
    list: Seq<(usize, usize)>,
) -> Seq<LocationView> {
    Seq::new(
        list.len(),
        |i: int|
            LocationView {
                path: v[list[i].0 as int].0,
                line: v[list[i].0 as int].1[list[i].1 as int].line,
                col: v[list[i].0 as int].1[list[i].1 as int].col,
            },
    )
}

fn push_shown(out: &mut Vec<char>, p: &str, root: &str)
    ensures
        final(out)@ == old(out)@ + shown_path(p@, root@),
{
    match path_below(p, root) {
        Some(t) => push_lit(out, t.as_str()),
        None => push_lit(out, p),
    }
}

fn row_item(path: &str, d: &Diagnostic, root: &str) -> (r: Item)
    ensures
        (r.label@, r.detail@) == problem_row(path@, d@, root@),
{
    let mut v: Vec<char> = Vec::new();
    if d.severity == 1 {
        push_lit(&mut v, "●");
    } else {
        push_lit(&mut v, "▲");
    }
    push_lit(&mut v, " ");
    push_shown(&mut v, path, root);
    push_lit(&mut v, ":");
    push_after(&mut v, d.line);
    let r = Item { label: string_of(&v), detail: d.message.as_str().to_owned() };
    assert(r.label@ =~= problem_row(path@, d@, root@).0);
    r
}

fn rows_and_places(
    v: &Vec<(String, Vec<Diagnostic>)>,
    list: &Vec<(usize, usize)>,
    root: &str,
) -> (r: (Vec<Item>, Vec<Location>))
    requires
        in_files(file_diagnostics(v@), list@),
    ensures
        item_views(r.0@) == problem_rows(file_diagnostics(v@), list@, root@),
        location_views(r.1@) == problem_places(file_diagnostics(v@), list@),
{
    let ghost all = file_diagnostics(v@);
    let ghost rows = problem_rows(all, list@, root@);
    let ghost places = problem_places(all, list@);
    let mut items: Vec<Item> = Vec::new();
    let mut locs: Vec<Location> = Vec::new();
    let mut i: usize = 0;
    assert(item_views(items@) =~= rows.take(0));
    assert(location_views(locs@) =~= places.take(0));
    while i < list.len()
        invariant
            all == file_diagnostics(v@),
            in_files(all, list@),
            i <= list@.len(),
            rows == problem_rows(all, list@, root@),
            places == problem_places(all, list@),
            item_views(items@) == rows.take(i as int),
            location_views(locs@) == places.take(i as int),
        decreases list@.len() - i,
    {
        let (f, k) = list[i];
        let ghost at = list@[i as int];
        proof {
            lemma_files(v@, at);
        }
        let d = &v[f].1[k];
        let ghost had = items@;
        let ghost were = locs@;
        let item = row_item(v[f].0.as_str(), d, root);
        assert(rows[i as int] == (item.label@, item.detail@));
        items.push(item);
        locs.push(Location { path: v[f].0.as_str().to_owned(), line: d.line, col: d.col });
        assert(item_views(items@) =~= item_views(had).push(rows[i as int]));
        assert(location_views(locs@) =~= location_views(were).push(places[i as int]));
        assert(item_views(items@) =~= rows.take(i + 1));
        assert(location_views(locs@) =~= places.take(i + 1));
        i += 1;
    }
    assert(rows.take(rows.len() as int) =~= rows);
    assert(places.take(places.len() as int) =~= places);
    (items, locs)
}

/// Every diagnostic of every file in a picker, those of the file `here` first.
#[verifier::opaque]
pub open spec fn problems_shown(
    e: EditorView,
    here: Option<Seq<char>>,
    root: Seq<char>,
) -> EditorView {
    let v = e.servers.diagnostics;
    let list = problems_upto(v, here, v.len());
    if list.len() == 0 {
        said(e, "no diagnostics"@)
    } else {
        picker_opened(
            e,
            new_picker(
                "diagnostics"@,
                PickerKindView::Locations { locs: problem_places(v, list) },
                problem_rows(v, list, root),
            ),
        )
    }
}

impl Editor {
    /// Show every diagnostic in a picker. `here` is the file in front and
    /// `root` the working directory, by their absolute names.
    pub fn diagnostics_picker(&mut self, here: Option<String>, root: &str)
        requires
            old(self).wf(),
        ensures
            final(self)@ == problems_shown(old(self)@, opt_text(here), root@),
            final(self).wf(),
    {
        reveal(problems_shown);
        let list = order_problems(&self.servers.diagnostics, &here);
        if list.len() == 0 {
            self.set_status("no diagnostics");
            return ;
        }
        let (items, locs) = rows_and_places(&self.servers.diagnostics, &list, root);
        let p = Picker::new("diagnostics".to_owned(), PickerKind::Locations { locs }, items);
        self.open_picker(p);
    }
}

// ---- one in full ------------------------------------------------------------------

/// The one of the first `n` diagnostics on a line that matters most: the most
/// severe, and one with notes rather than one without.
pub open spec fn weightiest(v: Seq<DiagnosticView>, line: int, n: nat) -> Option<int>
    decreases n,
{
    if n == 0 || n > v.len() {
        None
    } else {
        let best = weightiest(v, line, (n - 1) as nat);
        if v[n - 1].line != line {
            best
        } else {
            match best {
                None => Some(n - 1),
                Some(b) => if outranks(v[n - 1], v[b]) {
                    Some(n - 1)
                } else {
                    best
                },
            }
        }
    }
}

pub open spec fn outranks(a: DiagnosticView, b: DiagnosticView) -> bool {
    a.severity < b.severity || (a.severity == b.severity && notes_of(a).len() > 0 && notes_of(
        b,
    ).len() == 0)
}

/// The diagnostic of the cursor's line in full.
#[verifier::opaque]
pub open spec fn problem_told(e: EditorView, file: Seq<char>) -> EditorView {
    let v = diagnostics_of(e.servers.diagnostics, file);
    match weightiest(v, cursor_line(doc_of(e).text, doc_of(e).cursor as int), v.len()) {
        Some(i) => hover_shown(e, detail_of(v[i])),
        None => said(e, "no diagnostic on this line"@),
    }
}

fn find_weightiest(v: &Vec<Diagnostic>, line: usize) -> (r: Option<usize>)
    ensures
        match r {
            Some(i) => weightiest(diagnostic_views(v@), line as int, v@.len()) == Some(i as int)
                && i < v@.len(),
            None => weightiest(diagnostic_views(v@), line as int, v@.len()) is None,
        },
{
    let ghost all = diagnostic_views(v@);
    let mut best: Option<usize> = None;
    let mut n: usize = 0;
    while n < v.len()
        invariant
            all == diagnostic_views(v@),
            n <= v@.len(),
            match best {
                Some(i) => weightiest(all, line as int, n as nat) == Some(i as int) && i < n,
                None => weightiest(all, line as int, n as nat) is None,
            },
        decreases v@.len() - n,
    {
        assert(all[n as int] == v@[n as int]@);
        if v[n].line == line {
            match best {
                None => {
                    best = Some(n);
                },
                Some(b) => {
                    assert(all[b as int] == v@[b as int]@);
                    let (s, bare) = v[n].rank();
                    let (t, plain) = v[b].rank();
                    if s < t || (s == t && !bare && plain) {
                        best = Some(n);
                    }
                },
            }
        }
        n += 1;
    }
    best
}

impl Editor {
    fn detail_here(&self, file: &str) -> (r: Option<String>)
        requires
            self.wf(),
        ensures
            ({
                let v = diagnostics_of(self@.servers.diagnostics, file@);
                let line = cursor_line(doc_of(self@).text, doc_of(self@).cursor as int);
                match (r, weightiest(v, line, v.len())) {
                    (Some(t), Some(i)) => t@ == detail_of(v[i]),
                    (None, None) => true,
                    _ => false,
                }
            }),
    {
        let line = self.doc().cursor_line();
        match self.take_diagnostics(file) {
            Some(v) => match find_weightiest(v, line) {
                Some(i) => {
                    assert(diagnostic_views(v@)[i as int] == v@[i as int]@);
                    Some(v[i].detail())
                },
                None => None,
            },
            None => None,
        }
    }

    /// Show the diagnostic of the cursor's line in full.
    pub fn diagnostic_detail(&mut self, file: &str)
        requires
            old(self).wf(),
        ensures
            final(self)@ == problem_told(old(self)@, file@),
            final(self).wf(),
    {
        reveal(problem_told);
        match self.detail_here(file) {
            Some(t) => {
                self.open_hover(t.as_str());
                return ;
            },
            None => {
                self.set_status("no diagnostic on this line");
                return ;
            },
        }
    }
}

} // verus!
