//! What else comes back from outside: formatters, swap files, changes since
//! the last seal, the syntax tree, the configuration, and the sidebar's files.

use vstd::prelude::*;
use crate::config::{
    apply, applied, copy_pairs, formatter, formatter_of, is_theme, Config, ConfigView,
};
use crate::desk::doc_ok;
use crate::document::{
    clamped, doc_name, extension, extension_of, min_int, placed, replaced, DocView, Document,
};
use crate::editor::{desk_sound, doc_of, keymaps_sound, on_doc, said, Editor, EditorView};
use crate::edits::spliced;
use crate::keymaps::{configured, keymaps_from, unknown_commands};
use crate::motions::at_line;
use crate::moves::jump_noted;
use crate::state::{Keymaps, ServersView};
use crate::strings::{
    chars_of, debug_text, has_sub, holds_sub, join_texts, joined, lines, lines_of, opt_text, push_lit,
    quote_text, replace_all, replaced_from, same, slices, string_of, text_between, text_pairs, texts,
    trim, trimmed, with_text, words, words_of,
};
use crate::text::{rope_len, rope_string};

verus! {

// ---- formatters -------------------------------------------------------------------

/// How a formatter is run.
pub struct FormatPlan {
    pub program: String,
    pub args: Vec<String>,
    /// It was handed the file, and may rewrite that itself.
    pub in_place: bool,
    /// It rewrites a copy of the buffer.
    pub on_copy: bool,
}

/// The words of a formatter's command line, with the file and the copy filled
/// in.
#[verifier::opaque]
pub open spec fn format_words(command: Seq<char>, path: Seq<char>, copy: Seq<char>) -> Seq<
    Seq<char>,
> {
    let to = if has_sub(command, "{tmp}"@) {
        copy
    } else {
        path
    };
    words(replaced_from(replaced_from(command, "{file}"@, path, 0), "{tmp}"@, to, 0))
}

/// The formatter's command line for a buffer.
#[verifier::opaque]
pub open spec fn front_formatter(e: EditorView) -> Option<Seq<char>> {
    match doc_of(e).path {
        Some(p) => formatter_of(
            e.options.fmt,
            match extension_of(p) {
                Some(x) => x,
                None => Seq::empty(),
            },
        ),
        None => None,
    }
}

fn copy_words(v: &Vec<&[char]>, from: usize) -> (r: Vec<String>)
    ensures
        texts(r@) == (if from <= v@.len() {
            slices(v@).skip(from as int)
        } else {
            Seq::empty()
        }),
{
    let ghost all = slices(v@);
    let mut out: Vec<String> = Vec::new();
    let mut i = from;
    assert(texts(out@) =~= Seq::empty());
    while i < v.len()
        invariant
            from <= i,
            all == slices(v@),
            i <= v@.len() || from > v@.len(),
            from <= v@.len() ==> texts(out@) == all.subrange(from as int, i as int),
            from > v@.len() ==> texts(out@) == Seq::<Seq<char>>::empty(),
        decreases v@.len() - i,
    {
        let ghost had = out@;
        assert(all[i as int] == v@[i as int]@);
        let s = string_of(v[i]);
        out.push(s);
        assert(texts(out@) =~= texts(had).push(all[i as int]));
        assert(texts(out@) =~= all.subrange(from as int, i + 1));
        i += 1;
    }
    assert(from <= v@.len() ==> all.subrange(from as int, v@.len() as int) =~= all.skip(
        from as int,
    ));
    out
}

fn plan_format(command: &str, path: &str, copy: &str) -> (r: FormatPlan)
    ensures
        r.in_place == has_sub(command@, "{file}"@),
        r.on_copy == has_sub(command@, "{tmp}"@),
        ({
            let w = format_words(command@, path@, copy@);
            &&& r.program@ == (if w.len() > 0 {
                w[0]
            } else {
                Seq::empty()
            })
            &&& texts(r.args@) == (if w.len() > 0 {
                w.skip(1)
            } else {
                Seq::empty()
            })
        }),
{
    reveal(format_words);
    let c = chars_of(command);
    let p = chars_of(path);
    let t = chars_of(copy);
    let file = chars_of("{file}");
    let tmp = chars_of("{tmp}");
    proof {
        reveal_strlit("{file}");
        reveal_strlit("{tmp}");
    }
    let in_place = holds_sub(&c, "{file}");
    let on_copy = holds_sub(&c, "{tmp}");
    let a = replace_all(&c, &file, &p);
    let b = if on_copy {
        replace_all(&a, &tmp, &t)
    } else {
        replace_all(&a, &tmp, &p)
    };
    let w = words_of(&b);
    let ghost all = words(b@);
    assert(slices(w@) == all);
    assert(all.len() == w@.len());
    let args = copy_words(&w, 1);
    if w.len() > 0 {
        assert(all[0] == w@[0]@);
        FormatPlan { program: string_of(w[0]), args, in_place, on_copy }
    } else {
        let none = String::new();
        assert(none@ =~= Seq::empty());
        FormatPlan { program: none, args, in_place, on_copy }
    }
}

/// A document with its text replaced as a whole by what a formatter made of
/// it.
#[verifier::opaque]
pub open spec fn reformatted(d: DocView, new: Seq<char>) -> DocView {
    let at = min_int(d.cursor as int, new.len() as int);
    let s = spliced(d, 0, d.text.len() as int, new, at);
    DocView {
        cursor: clamped(s.text, at, false) as usize,
        anchor: at as usize,
        extra: Seq::empty(),
        ..s
    }
}

/// A formatter has run over the buffer in front. One that was handed the
/// file's name may have written the file itself: that write is ours.
pub open spec fn stamped_anew(e: EditorView, in_place: bool, mtime: Option<u64>) -> EditorView {
    if in_place {
        on_doc(e, DocView { disk_mtime: mtime, ..doc_of(e) })
    } else {
        e
    }
}

/// What a formatter gave taken in: an empty text is none.
pub open spec fn format_taken(e: EditorView, new: Seq<char>) -> EditorView {
    if new.len() == 0 || new == doc_of(e).text {
        e
    } else {
        on_doc(e, reformatted(doc_of(e), new))
    }
}

/// The reason that a program gave for its failure: the first line that says
/// something.
pub open spec fn reason_from(all: Seq<Seq<char>>, i: int) -> Seq<char>
    decreases all.len() - i,
{
    if i < 0 || i >= all.len() {
        "failed"@
    } else if trim(all[i]).len() > 0 {
        all[i]
    } else {
        reason_from(all, i + 1)
    }
}

/// What a failed formatter is said to have said.
#[verifier::opaque]
pub open spec fn failure_text(program: Seq<char>, err: Seq<char>) -> Seq<char> {
    program + ": "@ + reason_from(lines(err), 0)
}

fn find_reason(err: &str) -> (r: String)
    ensures
        r@ == reason_from(lines(err@), 0),
{
    let v = chars_of(err);
    let all = lines_of(&v);
    let ghost views = lines(err@);
    let mut i: usize = 0;
    while i < all.len()
        invariant
            i <= all@.len(),
            views == lines(err@),
            slices(all@) == views,
            reason_from(views, 0) == reason_from(views, i as int),
        decreases all@.len() - i,
    {
        assert(views[i as int] == all@[i as int]@);
        if trimmed(all[i]).len() > 0 {
            return string_of(all[i]);
        }
        i += 1;
    }
    "failed".to_owned()
}

/// What a failed formatter is said to have said.
pub fn say_failure(program: &str, err: &str) -> (r: String)
    ensures
        r@ == failure_text(program@, err@),
{
    reveal(failure_text);
    let why = find_reason(err);
    text_between(program, ": ", why.as_str())
}

impl Document {
    fn reformat(&mut self, new: &str)
        requires
            doc_ok(old(self)@),
        ensures
            final(self)@ == reformatted(old(self)@, new@),
            doc_ok(final(self)@),
    {
        reveal(reformatted);
        let len = rope_len(&self.text);
        let n = chars_of(new).len();
        let at = if self.cursor <= n {
            self.cursor
        } else {
            n
        };
        self.splice(0, len, new, at);
        self.drop_extra();
        self.cursor = at;
        self.anchor = at;
        assert(placed(self@));
        self.clamp_cursor(false);
    }

    fn stamp_own(&mut self, mtime: Option<u64>)
        requires
            doc_ok(old(self)@),
        ensures
            final(self)@ == (DocView { disk_mtime: mtime, ..old(self)@ }),
            doc_ok(final(self)@),
    {
        let ghost d = self@;
        self.restamp(mtime);
        assert(self@.extra == d.extra);
    }

    fn same_text(&self, new: &str) -> (r: bool)
        ensures
            r == (self@.text == new@),
    {
        let t = rope_string(&self.text);
        same(t.as_str(), new)
    }
}

impl Editor {
    fn formatter_command(&self) -> (r: Option<String>)
        requires
            self.wf(),
        ensures
            opt_text(r) == front_formatter(self@),
    {
        reveal(front_formatter);
        match &self.doc().path {
            Some(p) => {
                let ext = match extension(p.as_str()) {
                    Some(x) => x,
                    None => {
                        let none = String::new();
                        assert(none@ =~= Seq::empty());
                        none
                    },
                };
                formatter(&self.options, ext.as_str())
            },
            None => None,
        }
    }

    /// How the formatter of the buffer in front is run; nothing where there is
    /// none. `copy` is where a copy of the buffer would be put.
    pub fn format_plan(&self, copy: &str) -> (r: Option<FormatPlan>)
        requires
            self.wf(),
        ensures
            match r {
                Some(plan) => front_formatter(self@) is Some && doc_of(self@).path is Some && ({
                    let command = front_formatter(self@)->0;
                    let w = format_words(command, doc_of(self@).path->0, copy@);
                    &&& plan.in_place == has_sub(command, "{file}"@)
                    &&& plan.on_copy == has_sub(command, "{tmp}"@)
                    &&& plan.program@ == (if w.len() > 0 {
                        w[0]
                    } else {
                        Seq::empty()
                    })
                    &&& texts(plan.args@) == (if w.len() > 0 {
                        w.skip(1)
                    } else {
                        Seq::empty()
                    })
                }),
                None => front_formatter(self@) is None || doc_of(self@).path is None,
            },
    {
        match self.formatter_command() {
            Some(c) => match &self.doc().path {
                Some(p) => Some(plan_format(c.as_str(), p.as_str(), copy)),
                None => None,
            },
            None => None,
        }
    }

    fn is_front_text(&self, new: &str) -> (r: bool)
        requires
            self.wf(),
        ensures
            r == (doc_of(self@).text == new@),
    {
        self.doc().same_text(new)
    }

    fn stamp_anew(&mut self, in_place: bool, mtime: Option<u64>)
        requires
            old(self).wf(),
        ensures
            final(self)@ == stamped_anew(old(self)@, in_place, mtime),
            doc_of(final(self)@).text == doc_of(old(self)@).text,
            final(self).wf(),
    {
        reveal(desk_sound);
        if in_place {
            self.doc_mut().stamp_own(mtime);
        }
    }

    /// Take in what the formatter of the buffer in front gave. `in_place` says
    /// whether it was handed the file's name, `mtime` when that file was last
    /// changed.
    pub fn formatted(&mut self, new: &str, in_place: bool, mtime: Option<u64>) -> (what:
        &'static str)
        requires
            old(self).wf(),
        ensures
            what@ == (if new@.len() == 0 || new@ == doc_of(old(self)@).text {
                "already formatted"@
            } else {
                "formatted"@
            }),
            final(self)@ == format_taken(stamped_anew(old(self)@, in_place, mtime), new@),
            final(self).wf(),
    {
        self.stamp_anew(in_place, mtime);
        if new.is_empty() || self.is_front_text(new) {
            return "already formatted";
        }
        self.doc_mut().reformat(new);
        "formatted"
    }

    /// There is no formatter for the buffer in front.
    pub fn no_formatter(&mut self)
        requires
            old(self).wf(),
        ensures
            final(self)@ == (if old(self)@.tools.pending_install is Some {
                old(self)@
            } else {
                said(
                    old(self)@,
                    "no formatter for this buffer (see [fmt] in crow.toml)"@,
                )
            }),
            final(self).wf(),
    {
        if self.tools.pending_install.is_none() {
            self.set_status("no formatter for this buffer (see [fmt] in crow.toml)");
        }
    }
}

// ---- swap files -------------------------------------------------------------------

#[verifier::opaque]
pub open spec fn recovered_doc(d: DocView, text: Seq<char>) -> DocView {
    DocView { swap_found: false, ..replaced(d, text) }
}

/// What a swap file held taken in, as a change that can be undone.
pub open spec fn swap_taken(e: EditorView, text: Option<Seq<char>>) -> EditorView {
    match text {
        None => said(e, "no swap file for this buffer"@),
        Some(t) => said(
            on_doc(e, recovered_doc(doc_of(e), t)),
            if doc_of(e).text != t {
                "recovered the unsaved changes — :w keeps them, u takes them back"@
            } else {
                "the swap file matches the buffer"@
            },
        ),
    }
}

/// The notice that a swap file was found, once.
pub open spec fn swap_noticed(e: EditorView) -> EditorView {
    let d = doc_of(e);
    if !d.swap_found || d.swap_notified {
        e
    } else {
        said(
            on_doc(e, DocView { swap_notified: true, ..d }),
            doc_name(d)
                + ": unsaved changes from an earlier session — :recover restores them, :recover! discards"@,
        )
    }
}

/// Whether a buffer's swap file goes when the editor is left.
pub open spec fn swap_goes(d: DocView, discard: bool) -> bool {
    discard || (!d.modified && !d.swap_found)
}

impl Document {
    fn recover(&mut self, text: &str) -> (changed: bool)
        requires
            doc_ok(old(self)@),
        ensures
            changed == (old(self)@.text != text@),
            final(self)@ == recovered_doc(old(self)@, text@),
            doc_ok(final(self)@),
    {
        reveal(recovered_doc);
        let changed = self.replace_all(text);
        let ghost d = self@;
        self.swap_found = false;
        assert(self@.extra == d.extra);
        changed
    }

    fn mark_notified(&mut self)
        requires
            doc_ok(old(self)@),
        ensures
            final(self)@ == (DocView { swap_notified: true, ..old(self)@ }),
            doc_ok(final(self)@),
    {
        let ghost d = self@;
        self.swap_notified = true;
        assert(self@.extra == d.extra);
    }
}

impl Editor {
    /// What the swap file of the buffer in front held.
    pub fn recover_swap(&mut self, text: Option<String>)
        requires
            old(self).wf(),
        ensures
            final(self)@ == swap_taken(old(self)@, opt_text(text)),
            final(self).wf(),
    {
        match text {
            None => {
                self.set_status("no swap file for this buffer");
                return ;
            },
            Some(t) => {
                let changed = self.doc_mut().recover(t.as_str());
                if changed {
                    self.set_status(
                        "recovered the unsaved changes — :w keeps them, u takes them back",
                    );
                    return ;
                }
                self.set_status("the swap file matches the buffer");
                return ;
            },
        }
    }

    fn swap_unsaid(&self) -> (r: Option<String>)
        requires
            self.wf(),
        ensures
            opt_text(r) == (if !doc_of(self@).swap_found || doc_of(self@).swap_notified {
                None
            } else {
                Some(doc_name(doc_of(self@)))
            }),
    {
        let d = self.doc();
        if !d.swap_found || d.swap_notified {
            None
        } else {
            Some(d.name())
        }
    }

    /// Say once that a swap file was found for the buffer in front.
    pub fn swap_notice(&mut self) -> (said_it: bool)
        requires
            old(self).wf(),
        ensures
            said_it == (doc_of(old(self)@).swap_found && !doc_of(old(self)@).swap_notified),
            final(self)@ == swap_noticed(old(self)@),
            final(self).wf(),
    {
        if let Some(name) = self.swap_unsaid() {
            let m = with_text(
                name.as_str(),
                ": unsaved changes from an earlier session — :recover restores them, :recover! discards",
            );
            self.doc_mut().mark_notified();
            self.set_status(m.as_str());
            return true;
        }
        false
    }

    /// Whether a buffer's swap file goes when the editor is left.
    pub fn drops_swap(&self, i: usize) -> (r: bool)
        requires
            self.wf(),
            i < self@.desk.docs.len(),
        ensures
            r == swap_goes(self@.desk.docs[i as int], self@.quit_discarding),
    {
        let d = self.document(i);
        self.quit_discarding || (!d.modified && !d.swap_found)
    }
}

// ---- changes and syntax -----------------------------------------------------------

/// The first of some lines behind one, round the end.
pub open spec fn next_start(starts: Seq<usize>, line: int, i: int) -> Option<usize>
    decreases starts.len() - i,
{
    if i < 0 || i >= starts.len() {
        if starts.len() > 0 {
            Some(starts[0])
        } else {
            None
        }
    } else if starts[i] > line {
        Some(starts[i])
    } else {
        next_start(starts, line, i + 1)
    }
}

/// The last of the first `n` lines before one, round the end.
pub open spec fn prev_start(starts: Seq<usize>, line: int, n: nat) -> Option<usize>
    decreases n,
{
    if n == 0 || n > starts.len() {
        if starts.len() > 0 {
            Some(starts.last())
        } else {
            None
        }
    } else if starts[n - 1] < line {
        Some(starts[n - 1])
    } else {
        prev_start(starts, line, (n - 1) as nat)
    }
}

#[verifier::opaque]
pub open spec fn bare_on_line(d: DocView, line: usize) -> DocView {
    let a = at_line(d, line as int);
    DocView { anchor: a.cursor, ..a }
}

#[verifier::opaque]
pub open spec fn change_line(d: DocView, starts: Seq<usize>, forward: bool) -> Option<usize> {
    let line = crate::document::cursor_line(d.text, d.cursor as int);
    if forward {
        next_start(starts, line, 0)
    } else {
        prev_start(starts, line, starts.len())
    }
}

/// The next stretch that has changed, or the one before.
pub open spec fn change_found(e: EditorView, starts: Seq<usize>, forward: bool) -> EditorView {
    match change_line(doc_of(e), starts, forward) {
        None => said(e, "no changes since the last seal"@),
        Some(line) => on_doc(jump_noted(e), bare_on_line(doc_of(e), line)),
    }
}

fn find_start(starts: &Vec<usize>, line: usize, forward: bool) -> (r: Option<usize>)
    ensures
        r == (if forward {
            next_start(starts@, line as int, 0)
        } else {
            prev_start(starts@, line as int, starts@.len())
        }),
{
    if forward {
        let mut i: usize = 0;
        while i < starts.len()
            invariant
                i <= starts@.len(),
                forward,
                next_start(starts@, line as int, 0) == next_start(starts@, line as int, i as int),
            decreases starts@.len() - i,
        {
            if starts[i] > line {
                return Some(starts[i]);
            }
            i += 1;
        }
        if starts.len() > 0 {
            Some(starts[0])
        } else {
            None
        }
    } else {
        let mut n: usize = starts.len();
        while n > 0
            invariant
                n <= starts@.len(),
                !forward,
                prev_start(starts@, line as int, starts@.len()) == prev_start(
                    starts@,
                    line as int,
                    n as nat,
                ),
            decreases n,
        {
            if starts[n - 1] < line {
                return Some(starts[n - 1]);
            }
            n -= 1;
        }
        if starts.len() > 0 {
            Some(starts[starts.len() - 1])
        } else {
            None
        }
    }
}

impl Document {
    fn go_bare_line(&mut self, line: usize)
        requires
            doc_ok(old(self)@),
        ensures
            final(self)@ == bare_on_line(old(self)@, line),
            doc_ok(final(self)@),
    {
        reveal(bare_on_line);
        let ghost d = self@;
        self.goto_line(line);
        self.anchor = self.cursor;
        assert(self@.extra == d.extra);
        assert(placed(self@));
    }

    fn find_change(&self, starts: &Vec<usize>, forward: bool) -> (r: Option<usize>)
        ensures
            r == change_line(self@, starts@, forward),
    {
        reveal(change_line);
        find_start(starts, self.cursor_line(), forward)
    }

    fn expand_to(&mut self, s: usize, e: usize)
        requires
            doc_ok(old(self)@),
        ensures
            final(self)@ == expanded_to(old(self)@, s, e),
            doc_ok(final(self)@),
    {
        reveal(expanded_to);
        let len = rope_len(&self.text);
        self.select_range(
            if s <= len {
                s
            } else {
                len
            },
            if e <= len {
                e
            } else {
                len
            },
        );
    }
}

#[verifier::opaque]
pub open spec fn expanded_to(d: DocView, s: usize, e: usize) -> DocView {
    let len = d.text.len() as int;
    DocView {
        anchor: min_int(s as int, len) as usize,
        cursor: min_int(e as int, len) as usize,
        goal_col: None,
        ..d
    }
}

impl Editor {
    /// Go to the next stretch that has changed since the last seal, or the one
    /// before, given where they start.
    pub fn goto_change(&mut self, starts: &Vec<usize>, forward: bool)
        requires
            old(self).wf(),
        ensures
            final(self)@ == change_found(old(self)@, starts@, forward),
            final(self).wf(),
    {
        let to = self.doc().find_change(starts, forward);
        match to {
            None => {
                self.set_status("no changes since the last seal");
                return ;
            },
            Some(line) => {
                self.push_jump();
                self.doc_mut().go_bare_line(line);
                return ;
            },
        }
    }

    /// The syntax node around the selection: nothing without a syntax tree,
    /// none where it is the whole of it.
    pub fn expand_selection(&mut self, node: Option<Option<(usize, usize)>>)
        requires
            old(self).wf(),
        ensures
            final(self)@ == (match node {
                None => said(old(self)@, "no syntax tree for this buffer"@),
                Some(None) => old(self)@,
                Some(Some((s, e))) => on_doc(old(self)@, expanded_to(doc_of(old(self)@), s, e)),
            }),
            final(self).wf(),
    {
        match node {
            None => {
                self.set_status("no syntax tree for this buffer");
                return ;
            },
            Some(None) => {
                return ;
            },
            Some(Some((s, e))) => {
                self.doc_mut().expand_to(s, e);
                return ;
            },
        }
    }
}

// ---- the configuration ------------------------------------------------------------

#[verifier::opaque]
pub open spec fn reload_text(c: ConfigView, restarted: bool) -> Seq<char> {
    let bad = unknown_commands(c);
    let a = if is_theme(c.theme) {
        "crow.toml reloaded"@
    } else {
        "crow.toml reloaded; unknown theme "@ + debug_text(c.theme)
    };
    let b = if bad.len() == 0 {
        a
    } else {
        a + "; unknown command(s): "@ + joined(bad, ", "@, bad.len())
    };
    if restarted {
        b + "; language servers restarting"@
    } else {
        b
    }
}

/// A changed configuration taken in: the options, the keys, and where their
/// table changed, the language servers, which are begun anew.
#[verifier::opaque]
pub open spec fn config_taken(e: EditorView, c: ConfigView) -> EditorView {
    let changed = e.servers.table != c.lsp;
    let servers = ServersView { failed: Seq::empty(), ..e.servers };
    said(
        EditorView {
            options: applied(c, e.options),
            keymaps: configured(c),
            servers: if changed {
                ServersView {
                    clients: Seq::empty(),
                    diagnostics: Seq::empty(),
                    table: c.lsp,
                    ..servers
                }
            } else {
                servers
            },
            ..e
        },
        reload_text(c, changed && e.servers.clients.len() > 0),
    )
}

fn pairs_agree(a: &Vec<(String, String)>, b: &Vec<(String, String)>) -> (r: bool)
    ensures
        r == (text_pairs(a@) == text_pairs(b@)),
{
    let ghost x = text_pairs(a@);
    let ghost y = text_pairs(b@);
    if a.len() != b.len() {
        assert(x.len() != y.len());
        return false;
    }
    let mut i: usize = 0;
    while i < a.len()
        invariant
            i <= a@.len(),
            a@.len() == b@.len(),
            x == text_pairs(a@),
            y == text_pairs(b@),
            forall|k: int| 0 <= k < i ==> x[k] == y[k],
        decreases a@.len() - i,
    {
        assert(x[i as int] == (a@[i as int].0@, a@[i as int].1@));
        assert(y[i as int] == (b@[i as int].0@, b@[i as int].1@));
        if !same(a[i].0.as_str(), b[i].0.as_str()) || !same(a[i].1.as_str(), b[i].1.as_str()) {
            assert(x[i as int] != y[i as int]);
            return false;
        }
        i += 1;
    }
    assert(x =~= y);
    true
}

fn say_reload(theme: &str, known: bool, bad: &Vec<String>, restarted: bool) -> (r: String)
    ensures
        forall|c: ConfigView|
            c.theme == theme@ && known == is_theme(c.theme) && #[trigger] unknown_commands(c)
                == texts(bad@) ==> r@ == reload_text(c, restarted),
{
    reveal(reload_text);
    assert(texts(bad@).len() == bad@.len());
    let mut v: Vec<char> = Vec::new();
    push_lit(&mut v, "crow.toml reloaded");
    if !known {
        let q = quote_text(theme);
        v = chars_of("crow.toml reloaded; unknown theme ");
        push_lit(&mut v, q.as_str());
    }
    assert(v@ =~= (if known {
        "crow.toml reloaded"@
    } else {
        "crow.toml reloaded; unknown theme "@ + debug_text(theme@)
    }));
    if bad.len() > 0 {
        let list = join_texts(bad, ", ");
        push_lit(&mut v, "; unknown command(s): ");
        push_lit(&mut v, list.as_str());
    }
    if restarted {
        push_lit(&mut v, "; language servers restarting");
    }
    string_of(&v)
}

impl Editor {
    fn take_servers(&mut self, table: Vec<(String, String)>, changed: bool)
        requires
            old(self).wf(),
        ensures
            final(self)@ == ({
                let servers = ServersView { failed: Seq::empty(), ..old(self)@.servers };
                EditorView {
                    servers: if changed {
                        ServersView {
                            clients: Seq::empty(),
                            diagnostics: Seq::empty(),
                            table: text_pairs(table@),
                            ..servers
                        }
                    } else {
                        servers
                    },
                    ..old(self)@
                }
            }),
            final(self).wf(),
    {
        self.servers.failed = Vec::new();
        assert(texts(self.servers.failed@) =~= Seq::empty());
        if changed {
            self.servers.clients = Vec::new();
            self.servers.diagnostics = Vec::new();
            self.servers.table = table;
            assert(self.servers@.clients =~= Seq::empty());
            assert(self.servers@.diagnostics =~= Seq::empty());
        }
    }

    fn take_keys(&mut self, k: Keymaps)
        requires
            old(self).wf(),
            k.wf(),
        ensures
            final(self)@ == (EditorView { keymaps: k@, ..old(self)@ }),
            final(self).wf(),
    {
        reveal(keymaps_sound);
        self.keymaps = k;
    }

    fn take_options(&mut self, config: &Config) -> (known: bool)
        requires
            old(self).wf(),
        ensures
            known == is_theme(config@.theme),
            final(self)@ == (EditorView {
                options: applied(config@, old(self)@.options),
                ..old(self)@
            }),
            final(self).wf(),
    {
        apply(config, &mut self.options)
    }

    fn table_changed(&self, config: &Config) -> (r: bool)
        ensures
            r == (self@.servers.table != config@.lsp),
    {
        !pairs_agree(&self.servers.table, &config.lsp)
    }

    /// Take in a configuration that has been read again.
    pub fn reload_config(&mut self, config: &Config)
        requires
            old(self).wf(),
        ensures
            final(self)@ == config_taken(old(self)@, config@),
            final(self).wf(),
    {
        reveal(config_taken);
        let changed = self.table_changed(config);
        let restarted = changed && self.servers.clients.len() > 0;
        let (keymaps, bad) = keymaps_from(config);
        let known = self.take_options(config);
        self.take_keys(keymaps);
        self.take_servers(copy_pairs(&config.lsp), changed);
        let m = say_reload(config.theme.as_str(), known, &bad, restarted);
        self.set_status(m.as_str());
    }
}

} // verus!
