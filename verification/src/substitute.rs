//! `:s` and `:%s`: reading them, and replacing.

use vstd::prelude::*;
use crate::desk::doc_ok;
use crate::document::{
    applied, clamped, committed, cursor_line, line_end, ride, true_to_edits, DocView, Document,
};
use crate::editor::{doc_of, on_doc, said, Editor, EditorView};
use crate::search::{
    replacement_views, replacements, replacements_fit, substitutions,
};
use crate::state::LinesView;
use crate::strings::{
    alphanumeric, char_is_alphanumeric, char_is_white, chars_of, decimal, has_char, is_white,
    push_lit, push_number, string_of, texts, with_text,
};
use crate::text::{line_start, rope_len};
use crate::transaction::{
    change_ops, edit_views, edits_fit, law_change_makes_the_edits, law_mapped_in_bounds, Transaction,
};

verus! {

/// A substitution as it was asked for.
pub struct Substitute {
    pub whole_buffer: bool,
    pub pattern: String,
    pub replacement: String,
    /// Every match, not the first of each line only.
    pub global: bool,
    pub insensitive: bool,
    /// It lacks a part.
    pub malformed: bool,
}

pub struct SubstituteView {
    pub whole_buffer: bool,
    pub pattern: Seq<char>,
    pub replacement: Seq<char>,
    pub global: bool,
    pub insensitive: bool,
    pub malformed: bool,
}

impl View for Substitute {
    type V = SubstituteView;

    open spec fn view(&self) -> SubstituteView {
        SubstituteView {
            whole_buffer: self.whole_buffer,
            pattern: self.pattern@,
            replacement: self.replacement@,
            global: self.global,
            insensitive: self.insensitive,
            malformed: self.malformed,
        }
    }
}

/// The parts of `s` from `i` on between delimiters, the first one begun with
/// `part`. A backslash before a delimiter makes it a character like others.
pub open spec fn fields_from(s: Seq<char>, delim: char, i: int, part: Seq<char>) -> Seq<Seq<char>>
    decreases s.len() - i,
{
    if i < 0 || i >= s.len() {
        seq![part]
    } else if s[i] == '\\' && i + 1 < s.len() && s[i + 1] == delim {
        fields_from(s, delim, i + 2, part.push(delim))
    } else if s[i] == delim {
        seq![part] + fields_from(s, delim, i + 1, Seq::empty())
    } else {
        fields_from(s, delim, i + 1, part.push(s[i]))
    }
}

/// What a substitution's parts say.
pub open spec fn substitute_of(whole_buffer: bool, fields: Seq<Seq<char>>) -> SubstituteView {
    if fields.len() < 2 {
        SubstituteView {
            whole_buffer,
            pattern: Seq::empty(),
            replacement: Seq::empty(),
            global: false,
            insensitive: false,
            malformed: true,
        }
    } else {
        SubstituteView {
            whole_buffer,
            pattern: fields[0],
            replacement: fields[1],
            global: fields.len() > 2 && fields[2].contains('g'),
            insensitive: fields.len() > 2 && fields[2].contains('i'),
            malformed: false,
        }
    }
}

/// The substitution that a line asks for: `s` or `%s`, a delimiter that is
/// neither a letter, a digit nor blank, and the parts behind it. Nothing where
/// the line is no substitution.
#[verifier::opaque]
pub open spec fn substitution(line: Seq<char>) -> Option<SubstituteView> {
    let whole = line.len() > 0 && line[0] == '%';
    let rest = if whole {
        line.skip(1)
    } else {
        line
    };
    if rest.len() < 2 || rest[0] != 's' || alphanumeric(rest[1]) || is_white(rest[1]) {
        None
    } else {
        Some(substitute_of(whole, fields_from(rest, rest[1], 2, Seq::empty())))
    }
}

fn split_fields(s: &[char], delim: char, from: usize) -> (r: Vec<String>)
    requires
        from <= s@.len(),
    ensures
        texts(r@) == fields_from(s@, delim, from as int, Seq::empty()),
        r@.len() >= 1,
{
    let mut out: Vec<String> = Vec::new();
    let mut part: Vec<char> = Vec::new();
    let mut i = from;
    let n = s.len();
    assert(part@ =~= Seq::empty());
    assert(texts(out@) + fields_from(s@, delim, from as int, part@) =~= fields_from(
        s@,
        delim,
        from as int,
        Seq::empty(),
    ));
    while i < n
        invariant
            n == s@.len(),
            i <= n,
            texts(out@) + fields_from(s@, delim, i as int, part@) == fields_from(
                s@,
                delim,
                from as int,
                Seq::empty(),
            ),
        decreases n - i,
    {
        let c = s[i];
        if c == '\\' && n - i > 1 && s[i + 1] == delim {
            part.push(delim);
            i += 2;
        } else if c == delim {
            let ghost had = out@;
            let ghost p = part@;
            let text = string_of(&part);
            out.push(text);
            part = Vec::new();
            assert(part@ =~= Seq::empty());
            assert(texts(out@) =~= texts(had).push(p));
            assert(texts(had) + (seq![p] + fields_from(s@, delim, i + 1, part@)) =~= texts(out@)
                + fields_from(s@, delim, i + 1, part@));
            i += 1;
        } else {
            part.push(c);
            i += 1;
        }
    }
    let ghost had = out@;
    let text = string_of(&part);
    out.push(text);
    assert(texts(out@) =~= texts(had) + seq![part@]);
    out
}

/// The substitution that a line asks for.
pub fn parse_substitute(line: &str) -> (r: Option<Substitute>)
    ensures
        match r {
            Some(s) => substitution(line@) == Some(s@),
            None => substitution(line@) is None,
        },
{
    reveal(substitution);
    let all = chars_of(line);
    let whole_buffer = all.len() > 0 && all[0] == '%';
    let rest: &[char] = if whole_buffer {
        vstd::slice::slice_subrange(all.as_slice(), 1, all.len())
    } else {
        all.as_slice()
    };
    assert(whole_buffer ==> rest@ =~= line@.skip(1));
    if rest.len() < 2 {
        return None;
    }
    if rest[0] != 's' || char_is_alphanumeric(rest[1]) || char_is_white(rest[1]) {
        return None;
    }
    let fields = split_fields(rest, rest[1], 2);
    let ghost views = texts(fields@);
    if fields.len() < 2 {
        let blank = String::new();
        let none = String::new();
        assert(blank@ =~= Seq::empty());
        assert(none@ =~= Seq::empty());
        return Some(
            Substitute {
                whole_buffer,
                pattern: blank,
                replacement: none,
                global: false,
                insensitive: false,
                malformed: true,
            },
        );
    }
    let (global, insensitive) = if fields.len() > 2 {
        let flags = chars_of(fields[2].as_str());
        assert(flags@ == views[2]);
        (has_char(&flags, 'g'), has_char(&flags, 'i'))
    } else {
        (false, false)
    };
    assert(fields@[0]@ == views[0]);
    assert(fields@[1]@ == views[1]);
    Some(
        Substitute {
            whole_buffer,
            pattern: fields[0].as_str().to_owned(),
            replacement: fields[1].as_str().to_owned(),
            global,
            insensitive,
            malformed: false,
        },
    )
}

// ---- replacing --------------------------------------------------------------------

/// Where a substitution looks: the whole text, or the cursor's line.
pub open spec fn scope_of(d: DocView, whole: bool) -> (int, int) {
    let line = cursor_line(d.text, d.cursor as int);
    if whole {
        (0, d.text.len() as int)
    } else {
        (line_start(d.text, line), line_end(d.text, line))
    }
}

/// What a substitution replaces.
#[verifier::opaque]
pub open spec fn found_for(d: DocView, s: SubstituteView, pattern: Seq<char>) -> Seq<
    (int, int, Seq<char>),
> {
    let scope = scope_of(d, s.whole_buffer);
    replacements(d.text, scope.0, scope.1, pattern, s.replacement, s.global, s.insensitive)
}

pub open spec fn as_edits(v: Seq<(int, int, Seq<char>)>) -> Seq<(int, int, Option<Seq<char>>)> {
    Seq::new(v.len(), |i: int| (v[i].0, v[i].1, Some(v[i].2)))
}

/// A document with stretches replaced, as one step to undo.
#[verifier::opaque]
pub open spec fn all_replaced(d: DocView, v: Seq<(int, int, Seq<char>)>) -> DocView {
    let ops = change_ops(as_edits(v), d.text.len() as int);
    let a = applied(d, ops, ride(ops, d.cursor));
    committed(DocView { cursor: clamped(a.text, a.cursor as int, false) as usize, ..a })
}

#[verifier::opaque]
pub open spec fn substitutions_text(n: nat) -> Seq<char> {
    decimal(n) + (if n == 1 {
        " substitution"@
    } else {
        " substitutions"@
    })
}

/// A substitution carried out.
pub open spec fn substituted(e: EditorView, s: SubstituteView) -> EditorView {
    let d = doc_of(e);
    let pattern = if s.pattern.len() == 0 {
        e.lines.last_search
    } else {
        s.pattern
    };
    let v = found_for(d, s, pattern);
    if s.malformed {
        said(e, "Usage: :s/pat/repl/[g]  (%s for the whole buffer)"@)
    } else if pattern.len() == 0 {
        said(e, "no previous search pattern"@)
    } else if v.len() == 0 {
        said(e, "pattern not found: "@ + pattern)
    } else {
        let r = on_doc(e, all_replaced(d, v));
        said(
            EditorView { lines: LinesView { last_search: pattern, ..r.lines }, ..r },
            substitutions_text(v.len()),
        )
    }
}

impl Document {
    pub(crate) fn find_for(&self, s: &Substitute, pattern: &str) -> (r: Vec<(usize, usize, String)>)
        ensures
            replacement_views(r@) == found_for(self@, s@, pattern@),
            replacements_fit(replacement_views(r@), self@.text.len() as int),
    {
        reveal(found_for);
        let (from, to) = if s.whole_buffer {
            (0, rope_len(&self.text))
        } else {
            let line = self.cursor_line();
            let a = self.line_start(line);
            let b = self.line_end(line);
            (a, b)
        };
        substitutions(
            &self.text,
            from,
            to,
            pattern,
            s.replacement.as_str(),
            s.global,
            s.insensitive,
        )
    }

    pub(crate) fn replace_these(&mut self, v: Vec<(usize, usize, String)>)
        requires
            doc_ok(old(self)@),
            replacements_fit(replacement_views(v@), old(self)@.text.len() as int),
        ensures
            final(self)@ == all_replaced(old(self)@, replacement_views(v@)),
            doc_ok(final(self)@),
            true_to_edits(old(self)@) ==> true_to_edits(final(self)@),
    {
        reveal(all_replaced);
        let ghost d = self@;
        let ghost views = replacement_views(v@);
        let mut edits: Vec<(usize, usize, Option<String>)> = Vec::new();
        let mut i: usize = 0;
        while i < v.len()
            invariant
                i <= v@.len(),
                views == replacement_views(v@),
                edits@.len() == i,
                forall|k: int| 0 <= k < i ==> #[trigger] edit_views(edits@)[k] == as_edits(views)[k],
            decreases v@.len() - i,
        {
            let ghost had = edits@;
            let (a, b) = (v[i].0, v[i].1);
            let t = v[i].2.as_str().to_owned();
            edits.push((a, b, Some(t)));
            assert forall|k: int| 0 <= k <= i implies #[trigger] edit_views(edits@)[k] == as_edits(
                views,
            )[k] by {
                if k < i {
                    assert(edit_views(had)[k] == as_edits(views)[k]);
                } else {
                    assert(views[k] == (v@[k].0 as int, v@[k].1 as int, v@[k].2@));
                }
            }
            i += 1;
        }
        let ghost ev = edit_views(edits@);
        assert(ev =~= as_edits(views));
        assert(edits_fit(ev, d.text.len() as int)) by {
            assert forall|k: int| 0 <= k < ev.len() implies 0 <= (#[trigger] ev[k]).0 <= ev[k].1
                <= d.text.len() by {
                assert(views[k].0 <= views[k].1);
            }
            assert forall|a: int, b: int| 0 <= a < b < ev.len() implies (#[trigger] ev[a]).1 <= (
            #[trigger] ev[b]).0 by {
                assert(views[a].1 <= views[b].0);
            }
        }
        let tx = Transaction::change(&self.text, edits);
        proof {
            law_change_makes_the_edits(ev, d.text);
            law_mapped_in_bounds(tx@, d.cursor as int, false, d.text);
        }
        let cursor = tx.map_pos(self.cursor, false);
        self.apply(tx, cursor);
        self.clamp_cursor(false);
        self.commit_undo_group();
    }
}

fn say_substitutions(n: usize) -> (r: String)
    ensures
        r@ == substitutions_text(n as nat),
{
    reveal(substitutions_text);
    let mut v: Vec<char> = Vec::new();
    push_number(&mut v, n as u64);
    if n == 1 {
        push_lit(&mut v, " substitution");
    } else {
        push_lit(&mut v, " substitutions");
    }
    assert(v@ =~= substitutions_text(n as nat));
    string_of(&v)
}

impl Editor {
    pub(crate) fn set_search(&mut self, pattern: String)
        requires
            old(self).wf(),
        ensures
            final(self)@ == (EditorView {
                lines: LinesView { last_search: pattern@, ..old(self)@.lines },
                ..old(self)@
            }),
            final(self).wf(),
    {
        self.lines.last_search = pattern;
    }

    fn pattern_for(&self, s: &Substitute) -> (r: String)
        ensures
            r@ == (if s@.pattern.len() == 0 {
                self@.lines.last_search
            } else {
                s@.pattern
            }),
    {
        if s.pattern.as_str().is_empty() {
            self.lines.last_search.as_str().to_owned()
        } else {
            s.pattern.as_str().to_owned()
        }
    }

    fn find_all_for(&self, s: &Substitute, pattern: &str) -> (r: Vec<(usize, usize, String)>)
        requires
            self.wf(),
        ensures
            replacement_views(r@) == found_for(doc_of(self@), s@, pattern@),
            replacements_fit(replacement_views(r@), doc_of(self@).text.len() as int),
            r@.len() == found_for(doc_of(self@), s@, pattern@).len(),
    {
        self.doc().find_for(s, pattern)
    }

    /// Carry out a substitution.
    pub fn substitute(&mut self, s: Substitute)
        requires
            old(self).wf(),
        ensures
            final(self)@ == substituted(old(self)@, s@),
            final(self).wf(),
    {
        if s.malformed {
            self.set_status("Usage: :s/pat/repl/[g]  (%s for the whole buffer)");
            return ;
        }
        let pattern = self.pattern_for(&s);
        if pattern.as_str().is_empty() {
            self.set_status("no previous search pattern");
            return ;
        }
        let v = self.find_all_for(&s, pattern.as_str());
        if v.len() == 0 {
            let m = with_text("pattern not found: ", pattern.as_str());
            self.set_status(m.as_str());
            return ;
        }
        let m = say_substitutions(v.len());
        self.doc_mut().replace_these(v);
        self.set_search(pattern);
        self.set_status(m.as_str());
    }
}

} // verus!
