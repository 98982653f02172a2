//! Blanks at the ends of lines, cut when a file is written.

use vstd::prelude::*;
use crate::desk::doc_ok;
use crate::document::{extension, extension_of, replaced, DocView, Document};
use crate::editor::{Editor, EditorView};
use crate::files::{doc_at, on_doc_at};
use crate::strings::{chars_of, same, string_of};
use crate::text::rope_string;

verus! {

pub open spec fn is_blank(c: char) -> bool {
    c == ' ' || c == '\t'
}

/// Where the blanks from `i` on end.
pub open spec fn blanks_end(s: Seq<char>, i: int) -> int
    decreases s.len() - i,
{
    if i < 0 || i >= s.len() || !is_blank(s[i]) {
        i
    } else {
        blanks_end(s, i + 1)
    }
}

/// Whether nothing but blanks stands from `i` to the end of the line.
pub open spec fn blank_to_end(s: Seq<char>, i: int) -> bool {
    let end = blanks_end(s, i);
    end >= s.len() || s[end] == '\n' || s[end] == '\r'
}

/// A text from `i` on without the blanks at the ends of its lines.
pub open spec fn cut_from(s: Seq<char>, i: int) -> Seq<char>
    decreases s.len() - i,
{
    if i < 0 || i >= s.len() {
        Seq::empty()
    } else if is_blank(s[i]) && blank_to_end(s, i) {
        cut_from(s, i + 1)
    } else {
        seq![s[i]] + cut_from(s, i + 1)
    }
}

/// A text without the blanks at the ends of its lines.
pub open spec fn cut_text(s: Seq<char>) -> Seq<char> {
    cut_from(s, 0)
}

proof fn lemma_same_end(s: Seq<char>, i: int)
    requires
        0 <= i < s.len(),
        is_blank(s[i]),
    ensures
        blanks_end(s, i) == blanks_end(s, i + 1),
        blank_to_end(s, i) == blank_to_end(s, i + 1),
{
}

proof fn lemma_cut_last(s: Seq<char>, i: int)
    requires
        0 <= i < s.len(),
    ensures
        cut_from(s, i) == (if is_blank(s[i]) && blank_to_end(s, i) {
            Seq::empty()
        } else {
            seq![s[i]]
        }) + cut_from(s, i + 1),
{
    if is_blank(s[i]) && blank_to_end(s, i) {
        assert(Seq::<char>::empty() + cut_from(s, i + 1) =~= cut_from(s, i + 1));
    }
}

/// A text without the blanks at the ends of its lines.
pub fn cut_blanks(s: &str) -> (r: String)
    ensures
        r@ == cut_text(s@),
{
    let v = chars_of(s);
    let ghost t = s@;
    let mut back: Vec<char> = Vec::new();
    let mut i: usize = v.len();
    let mut at_end = true;
    assert(back@.reverse() =~= cut_from(t, i as int));
    while i > 0
        invariant
            v@ == t,
            i <= t.len(),
            back@.reverse() == cut_from(t, i as int),
            at_end == blank_to_end(t, i as int),
        decreases i,
    {
        i -= 1;
        let c = v[i];
        let ghost had = back@;
        proof {
            lemma_cut_last(t, i as int);
            if is_blank(c) {
                lemma_same_end(t, i as int);
            }
        }
        if c == ' ' || c == '\t' {
            if !at_end {
                back.push(c);
                assert(back@.reverse() =~= seq![c] + had.reverse());
            } else {
                assert(Seq::<char>::empty() + had.reverse() =~= had.reverse());
            }
        } else {
            at_end = c == '\n' || c == '\r';
            back.push(c);
            assert(back@.reverse() =~= seq![c] + had.reverse());
        }
    }
    let n = back.len();
    let mut out: Vec<char> = Vec::new();
    let mut k: usize = 0;
    while k < n
        invariant
            k <= n,
            n == back@.len(),
            out@ == back@.reverse().take(k as int),
        decreases n - k,
    {
        let c = back[n - 1 - k];
        assert(back@.reverse()[k as int] == c);
        out.push(c);
        assert(out@ =~= back@.reverse().take(k + 1));
        k += 1;
    }
    assert(out@ =~= back@.reverse());
    string_of(&out)
}

/// Whether a file is markdown, where two blanks at the end of a line break it.
pub open spec fn is_markdown(path: Option<Seq<char>>) -> bool {
    match path {
        Some(p) => match extension_of(p) {
            Some(e) => e == "md"@ || e == "markdown"@,
            None => false,
        },
        None => false,
    }
}

/// A document with the blanks at the ends of its lines cut, as one undo step.
#[verifier::opaque]
pub open spec fn cut_doc(d: DocView) -> DocView {
    if is_markdown(d.path) {
        d
    } else {
        replaced(d, cut_text(d.text))
    }
}

/// A buffer made ready to be written.
pub open spec fn trimmed_for_writing(e: EditorView, i: int) -> EditorView {
    if e.options.strip_trailing_whitespace {
        on_doc_at(e, i, cut_doc(doc_at(e, i)))
    } else {
        e
    }
}

impl Document {
    fn is_markdown(&self) -> (r: bool)
        ensures
            r == is_markdown(self@.path),
    {
        match &self.path {
            Some(p) => match extension(p.as_str()) {
                Some(e) => same(e.as_str(), "md") || same(e.as_str(), "markdown"),
                None => false,
            },
            None => false,
        }
    }

    fn cut_trailing_blanks(&mut self)
        requires
            doc_ok(old(self)@),
        ensures
            final(self)@ == cut_doc(old(self)@),
            doc_ok(final(self)@),
    {
        reveal(cut_doc);
        if self.is_markdown() {
            return ;
        }
        let text = rope_string(&self.text);
        let new = cut_blanks(text.as_str());
        let _changed = self.replace_all(new.as_str());
    }
}

impl Editor {
    /// Cut the blanks at the ends of a buffer's lines, where that is wanted and
    /// it is not markdown.
    pub fn strip_before_write(&mut self, i: usize)
        requires
            old(self).wf(),
            i < old(self)@.desk.docs.len(),
        ensures
            final(self)@ == trimmed_for_writing(old(self)@, i as int),
            final(self).wf(),
    {
        if self.options.strip_trailing_whitespace {
            self.document_mut(i).cut_trailing_blanks();
        }
    }
}

proof fn lemma_cut_ends(s: Seq<char>, i: int)
    requires
        0 <= i <= s.len(),
    ensures
        blank_to_end(s, i) ==> (cut_from(s, i).len() == 0 || cut_from(s, i)[0] == '\n' || cut_from(
            s,
            i,
        )[0] == '\r'),
        cut_from(s, i).len() > 0 && !blank_to_end(s, i) ==> !(cut_from(s, i)[0] == '\n'
            || cut_from(s, i)[0] == '\r'),
        !blank_to_end(s, i) ==> cut_from(s, i).len() > 0,
    decreases s.len() - i,
{
    if i < s.len() {
        lemma_cut_ends(s, i + 1);
        lemma_cut_last(s, i);
        if is_blank(s[i]) {
            lemma_same_end(s, i);
        }
    }
}

proof fn lemma_none_left(s: Seq<char>, i: int, k: int)
    requires
        0 <= i <= s.len(),
        0 <= k < cut_from(s, i).len(),
        is_blank(cut_from(s, i)[k]),
    ensures
        k + 1 < cut_from(s, i).len(),
        cut_from(s, i)[k + 1] != '\n',
        cut_from(s, i)[k + 1] != '\r',
    decreases s.len() - i,
{
    lemma_cut_last(s, i);
    let rest = cut_from(s, i + 1);
    if is_blank(s[i]) && blank_to_end(s, i) {
        assert(cut_from(s, i) =~= rest);
        lemma_none_left(s, i + 1, k);
    } else if k > 0 {
        assert(cut_from(s, i)[k] == rest[k - 1]);
        lemma_none_left(s, i + 1, k - 1);
        assert(cut_from(s, i)[k + 1] == rest[k]);
    } else {
        lemma_same_end(s, i);
        lemma_cut_ends(s, i + 1);
        assert(cut_from(s, i)[1] == rest[0]);
    }
}

/// What is written has no blank at the end of a line: each one has something
/// other than a line's end behind it.
pub proof fn law_no_blank_ends_a_line(s: Seq<char>, k: int)
    requires
        0 <= k < cut_text(s).len(),
        is_blank(cut_text(s)[k]),
    ensures
        k + 1 < cut_text(s).len(),
        cut_text(s)[k + 1] != '\n',
        cut_text(s)[k + 1] != '\r',
{
    lemma_none_left(s, 0, k);
}

proof fn lemma_blanks_moved(x: Seq<char>, i: int, y: Seq<char>, j: int)
    requires
        0 <= i <= x.len(),
        0 <= j <= y.len(),
        x.skip(i) == y.skip(j),
    ensures
        blanks_end(x, i) - i == blanks_end(y, j) - j,
        blank_to_end(x, i) == blank_to_end(y, j),
        cut_from(x, i) == cut_from(y, j),
    decreases x.len() - i,
{
    assert(x.skip(i).len() == x.len() - i && y.skip(j).len() == y.len() - j);
    lemma_blanks_within(x, i);
    lemma_blanks_within(y, j);
    if i < x.len() {
        assert(x.skip(i)[0] == x[i] && y.skip(j)[0] == y[j]);
        assert(x.skip(i + 1) =~= x.skip(i).skip(1));
        assert(y.skip(j + 1) =~= y.skip(j).skip(1));
        lemma_blanks_moved(x, i + 1, y, j + 1);
    }
    let e = blanks_end(x, i);
    if e < x.len() {
        assert(x.skip(i)[e - i] == x[e]);
        assert(y.skip(j)[e - i] == y[j + e - i]);
    }
}

proof fn lemma_blanks_within(s: Seq<char>, i: int)
    requires
        0 <= i <= s.len(),
    ensures
        i <= blanks_end(s, i) <= s.len(),
        forall|k: int| i <= k < blanks_end(s, i) ==> is_blank(#[trigger] s[k]),
        blanks_end(s, i) < s.len() ==> !is_blank(s[blanks_end(s, i)]),
    decreases s.len() - i,
{
    if i < s.len() && is_blank(s[i]) {
        lemma_blanks_within(s, i + 1);
    }
}

/// A line that is not ended by a blank keeps all it has.
proof fn lemma_line_kept(l: Seq<char>, t: Seq<char>)
    requires
        l.len() > 0 ==> !is_blank(l.last()),
        forall|k: int| 0 <= k < l.len() ==> #[trigger] l[k] != '\n' && l[k] != '\r',
    ensures
        cut_text(l + t) == l + cut_text(t),
    decreases l.len(),
{
    let s = l + t;
    if l.len() == 0 {
        assert(s =~= t);
        assert(l + cut_text(t) =~= cut_text(t));
    } else {
        let m = l.skip(1);
        assert(m.len() > 0 ==> m.last() == l.last());
        assert forall|k: int| 0 <= k < m.len() implies #[trigger] m[k] != '\n' && m[k] != '\r' by {
            assert(m[k] == l[k + 1]);
        }
        lemma_line_kept(m, t);
        assert(s.skip(1) =~= (m + t).skip(0));
        lemma_blanks_moved(s, 1, m + t, 0);
        assert(s[0] == l[0]);
        if is_blank(s[0]) && blank_to_end(s, 0) {
            let e = blanks_end(s, 0);
            lemma_blanks_within(s, 0);
            if e < l.len() {
                assert(s[e] == l[e]);
            } else {
                assert(s[l.len() - 1] == l.last());
            }
        }
        assert(seq![l[0]] + (m + cut_text(t)) =~= l + cut_text(t));
    }
}

proof fn lemma_blanks_go(w: Seq<char>, t: Seq<char>)
    requires
        forall|k: int| 0 <= k < w.len() ==> is_blank(#[trigger] w[k]),
        t.len() > 0 ==> t[0] == '\n' || t[0] == '\r',
    ensures
        cut_text(w + t) == cut_text(t),
    decreases w.len(),
{
    let s = w + t;
    if w.len() == 0 {
        assert(s =~= t);
    } else {
        let v = w.skip(1);
        assert forall|k: int| 0 <= k < v.len() implies is_blank(#[trigger] v[k]) by {
            assert(v[k] == w[k + 1]);
        }
        lemma_blanks_go(v, t);
        assert(s.skip(1) =~= (v + t).skip(0));
        lemma_blanks_moved(s, 1, v + t, 0);
        assert(s[0] == w[0]);
        lemma_blanks_within(s, 0);
        let e = blanks_end(s, 0);
        assert(e == w.len()) by {
            if e < w.len() {
                assert(s[e] == w[e]);
            }
            if e > w.len() {
                assert(s[w.len() as int] == t[0]);
            }
        }
    }
}

/// Line by line, what is written is the line without the blanks it ends in,
/// and its ending as it was.
pub proof fn law_only_the_blanks_at_the_ends_go(
    l: Seq<char>,
    w: Seq<char>,
    b: char,
    rest: Seq<char>,
)
    requires
        l.len() > 0 ==> !is_blank(l.last()),
        forall|k: int| 0 <= k < l.len() ==> #[trigger] l[k] != '\n' && l[k] != '\r',
        forall|k: int| 0 <= k < w.len() ==> is_blank(#[trigger] w[k]),
        b == '\n' || b == '\r',
    ensures
        cut_text(l + w) == l,
        cut_text(l + (w + (seq![b] + rest))) == l + (seq![b] + cut_text(rest)),
{
    let none = Seq::<char>::empty();
    let t = seq![b] + rest;
    lemma_line_kept(l, w + t);
    lemma_blanks_go(w, t);
    assert(t.skip(1) =~= rest.skip(0));
    lemma_blanks_moved(t, 1, rest, 0);
    assert(cut_text(t) =~= seq![b] + cut_text(rest));
    lemma_line_kept(l, w);
    lemma_blanks_go(w, none);
    assert(w + none =~= w);
    assert(l + cut_text(none) =~= l);
}

} // verus!
