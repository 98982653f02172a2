//! Moving the cursor and the selection over one document.

use vstd::prelude::*;
use crate::document::{
    clamped, cluster_start, cursor_line, deduped, lemma_cursor_line, lemma_line_count,
    lemma_line_parts, line_content, line_count, line_end, line_len, min_int, placed, true_to_edits,
    DocView, Document,
};
use crate::position::{
    capped_col, char_at_column, char_to_display_col, class_at, classes_of, display_col,
    display_col_to_char, next_boundary, next_grapheme_boundary, prev_boundary, prev_grapheme_boundary,
    CharClass,
};
use crate::text::{line_of, line_start, lines_in, rope_len};

verus! {

// ---- left and right ---------------------------------------------------------

/// One step to the left: a cluster back, and from the start of a line onto the
/// last character of the line before it, or, where the cursor may stand there,
/// behind it.
pub open spec fn left_of(s: Seq<char>, pos: int, past_end: bool) -> int {
    let line = cursor_line(s, pos);
    let start = line_start(s, line);
    if pos <= start {
        if line == 0 {
            start
        } else if past_end || line_len(s, line - 1) == 0 {
            line_end(s, line - 1)
        } else {
            max_of(prev_boundary(s, line_end(s, line - 1)), line_start(s, line - 1))
        }
    } else {
        max_of(prev_boundary(s, min_int(pos, s.len() as int)), start)
    }
}

pub open spec fn max_of(a: int, b: int) -> int {
    if a >= b {
        a
    } else {
        b
    }
}

/// One step to the right: a cluster on, and from the last character of a line
/// onto the first of the next.
pub open spec fn right_of(s: Seq<char>, pos: int, past_end: bool) -> int {
    let line = cursor_line(s, pos);
    let end = line_end(s, line);
    let next = next_boundary(s, pos);
    if past_end && pos < end {
        min_int(next, end)
    } else if !past_end && next < end {
        next
    } else if line + 1 < line_count(s) {
        line_start(s, line + 1)
    } else {
        pos
    }
}

/// A step taken `n` times.
pub open spec fn times(step: spec_fn(int) -> int, pos: int, n: nat) -> int
    decreases n,
{
    if n == 0 {
        pos
    } else {
        step(times(step, pos, (n - 1) as nat))
    }
}

/// A step that goes nowhere goes nowhere however often it is taken.
pub proof fn lemma_rests(step: spec_fn(int) -> int, pos: int, k: nat, n: nat)
    requires
        k <= n,
        step(times(step, pos, k)) == times(step, pos, k),
    ensures
        times(step, pos, n) == times(step, pos, k),
    decreases n,
{
    if k < n {
        lemma_rests(step, pos, k, (n - 1) as nat);
    }
}

pub open spec fn to_left(s: Seq<char>, past_end: bool) -> spec_fn(int) -> int {
    |p: int| left_of(s, p, past_end)
}

pub open spec fn to_right(s: Seq<char>, past_end: bool) -> spec_fn(int) -> int {
    |p: int| right_of(s, p, past_end)
}

pub open spec fn left_n(s: Seq<char>, pos: int, past_end: bool, n: nat) -> int {
    times(to_left(s, past_end), pos, n)
}

pub open spec fn right_n(s: Seq<char>, pos: int, past_end: bool, n: nat) -> int {
    times(to_right(s, past_end), pos, n)
}

impl Document {
    /// The line of a position that may lie past the text.
    fn line_near(&self, pos: usize) -> (r: usize)
        ensures
            r == cursor_line(self@.text, pos as int),
            r < line_count(self@.text) <= lines_in(self@.text),
            line_start(self@.text, r as int) <= pos,
    {
        proof {
            lemma_cursor_line(self@.text, pos as int);
            lemma_line_count(self@.text);
        }
        let len = rope_len(&self.text);
        let at: usize = if pos <= len {
            pos
        } else {
            len
        };
        let idx = self.line_at(at);
        let last: usize = self.line_count() - 1;
        if idx <= last {
            idx
        } else {
            last
        }
    }

    /// One step to the left of a position.
    fn step_left(&self, pos: usize, past_end: bool) -> (r: usize)
        ensures
            r == left_of(self@.text, pos as int, past_end),
            r <= self@.text.len(),
    {
        let line = self.line_near(pos);
        let start = self.line_start(line);
        let len = rope_len(&self.text);
        if pos <= start {
            if line == 0 {
                return start;
            }
            proof {
                lemma_line_parts(self@.text, line - 1);
            }
            let end = self.line_end(line - 1);
            if past_end || self.line_len(line - 1) == 0 {
                end
            } else {
                let before = self.line_start(line - 1);
                let back = prev_grapheme_boundary(&self.text, end);
                if back >= before {
                    back
                } else {
                    before
                }
            }
        } else {
            let at: usize = if pos <= len {
                pos
            } else {
                len
            };
            let back = prev_grapheme_boundary(&self.text, at);
            if back >= start {
                back
            } else {
                start
            }
        }
    }

    /// One step to the right of a position.
    fn step_right(&self, pos: usize, past_end: bool) -> (r: usize)
        ensures
            r == right_of(self@.text, pos as int, past_end),
            pos <= self@.text.len() ==> r <= self@.text.len(),
    {
        let line = self.line_near(pos);
        proof {
            lemma_line_parts(self@.text, line as int);
        }
        let end = self.line_end(line);
        let next = next_grapheme_boundary(&self.text, pos);
        if past_end && pos < end {
            if next <= end {
                next
            } else {
                end
            }
        } else if !past_end && next < end {
            next
        } else if line < self.line_count() - 1 {
            self.line_start(line + 1)
        } else {
            pos
        }
    }

    /// Move `count` characters left, onto the line before from a line's start.
    pub fn move_left(&mut self, count: usize, past_end: bool)
        ensures
            final(self)@ == moved_left(old(self)@, count, past_end),
            old(self)@.cursor <= old(self)@.text.len() ==> final(self)@.cursor
                <= final(self)@.text.len(),
            true_to_edits(old(self)@) ==> true_to_edits(final(self)@),
    {
        let ghost d = self@;
        let mut at = self.cursor;
        let mut k: usize = 0;
        while k < count
            invariant
                k <= count,
                self@ == d,
                at == left_n(d.text, d.cursor as int, past_end, k as nat),
                d.cursor <= d.text.len() ==> at <= d.text.len(),
            ensures
                at == left_n(d.text, d.cursor as int, past_end, count as nat),
                d.cursor <= d.text.len() ==> at <= d.text.len(),
                self@ == d,
            decreases count - k,
        {
            let next = self.step_left(at, past_end);
            if next == at {
                proof {
                    lemma_rests(to_left(d.text, past_end), d.cursor as int, k as nat, count as nat);
                }
                break ;
            }
            at = next;
            k += 1;
        }
        self.cursor = at;
        self.goal_col = None;
    }

    /// Move `count` characters right, onto the next line from a line's end.
    pub fn move_right(&mut self, count: usize, past_end: bool)
        ensures
            final(self)@ == moved_right(old(self)@, count, past_end),
            old(self)@.cursor <= old(self)@.text.len() ==> final(self)@.cursor
                <= final(self)@.text.len(),
            true_to_edits(old(self)@) ==> true_to_edits(final(self)@),
    {
        let ghost d = self@;
        let mut at = self.cursor;
        let mut k: usize = 0;
        while k < count
            invariant
                k <= count,
                self@ == d,
                at == right_n(d.text, d.cursor as int, past_end, k as nat),
                d.cursor <= d.text.len() ==> at <= d.text.len(),
            ensures
                at == right_n(d.text, d.cursor as int, past_end, count as nat),
                d.cursor <= d.text.len() ==> at <= d.text.len(),
                self@ == d,
            decreases count - k,
        {
            let next = self.step_right(at, past_end);
            if next == at {
                proof {
                    lemma_rests(to_right(d.text, past_end), d.cursor as int, k as nat, count as nat);
                }
                break ;
            }
            at = next;
            k += 1;
        }
        self.cursor = at;
        self.goal_col = None;
    }

    // ---- up and down ---------------------------------------------------------

    /// Move `n` lines up or down, keeping to the display column that the
    /// cursor set out from.
    pub fn move_vertical(&mut self, up: bool, n: usize, past_end: bool, tab: usize)
        ensures
            final(self)@ == moved_vertically(old(self)@, up, n, past_end, tab),
            final(self)@.cursor <= final(self)@.text.len(),
            true_to_edits(old(self)@) ==> true_to_edits(final(self)@),
    {
        let (line, col) = self.cursor_display(tab);
        let goal: usize = match self.goal_col {
            Some(g) => g,
            None => col,
        };
        let last: usize = self.line_count() - 1;
        let target: usize = if up {
            if n <= line {
                line - n
            } else {
                0
            }
        } else if n <= last - line {
            line + n
        } else {
            last
        };
        let l = self.line_content(target);
        proof {
            lemma_line_parts(self@.text, target as int);
        }
        let offset = display_col_to_char(l.as_slice(), goal, tab);
        let len = rope_len(&self.text);
        self.cursor = self.line_start(target) + offset;
        self.clamp_cursor(past_end);
        self.goal_col = Some(goal);
    }

    // ---- within the line -----------------------------------------------------

    pub fn move_line_start(&mut self)
        ensures
            final(self)@ == at_line_start(old(self)@),
            final(self)@.cursor <= final(self)@.text.len(),
            true_to_edits(old(self)@) ==> true_to_edits(final(self)@),
    {
        self.cursor = self.line_start(self.cursor_line());
        self.goal_col = None;
    }

    pub fn move_line_first_nonblank(&mut self)
        ensures
            final(self)@ == at_first_nonblank(old(self)@),
            final(self)@.cursor <= final(self)@.text.len(),
            true_to_edits(old(self)@) ==> true_to_edits(final(self)@),
    {
        let line = self.cursor_line();
        proof {
            lemma_line_parts(self@.text, line as int);
        }
        let start = self.line_start(line);
        let end = self.line_end(line);
        let l = self.line_content(line);
        let k = crate::strings::first_nonwhite(l.as_slice(), 0);
        let len: usize = l.len();
        let offset: usize = if len == 0 {
            0
        } else if k > len - 1 {
            len - 1
        } else {
            k
        };
        self.cursor = start + offset;
        self.goal_col = None;
    }

    pub fn move_line_end(&mut self, past_end: bool)
        ensures
            final(self)@ == at_line_end(old(self)@, past_end),
            final(self)@.cursor <= final(self)@.text.len(),
            true_to_edits(old(self)@) ==> true_to_edits(final(self)@),
    {
        let line = self.cursor_line();
        self.cursor = self.line_end(line);
        self.clamp_cursor(past_end);
        self.goal_col = None;
    }

    /// The cursor to the start of a line, or of the last one.
    pub fn goto_line(&mut self, line: usize)
        ensures
            final(self)@ == at_line(old(self)@, line as int),
            final(self)@.cursor <= final(self)@.text.len(),
            true_to_edits(old(self)@) ==> true_to_edits(final(self)@),
    {
        let last: usize = self.line_count() - 1;
        self.cursor = self.line_start(
            if line <= last {
                line
            } else {
                last
            },
        );
        self.goal_col = None;
    }
}

pub open spec fn moved_left(d: DocView, count: usize, past_end: bool) -> DocView {
    DocView {
        cursor: left_n(d.text, d.cursor as int, past_end, count as nat) as usize,
        goal_col: None,
        ..d
    }
}

pub open spec fn moved_right(d: DocView, count: usize, past_end: bool) -> DocView {
    DocView {
        cursor: right_n(d.text, d.cursor as int, past_end, count as nat) as usize,
        goal_col: None,
        ..d
    }
}

/// The display column that vertical motion keeps to.
pub open spec fn goal_of(d: DocView, tab: usize) -> usize {
    match d.goal_col {
        Some(g) => g,
        None => {
            let line = cursor_line(d.text, d.cursor as int);
            capped_col(
                display_col(
                    line_content(d.text, line),
                    d.cursor - line_start(d.text, line),
                    tab,
                ),
            ) as usize
        },
    }
}

pub open spec fn moved_vertically(d: DocView, up: bool, n: usize, past_end: bool, tab: usize) -> DocView {
    let line = cursor_line(d.text, d.cursor as int);
    let goal = goal_of(d, tab);
    let target = if up {
        max_of(line - n, 0)
    } else {
        min_int(line + n, line_count(d.text) - 1)
    };
    let at = line_start(d.text, target) + char_at_column(
        line_content(d.text, target),
        goal as int,
        tab,
    );
    DocView { cursor: clamped(d.text, at, past_end) as usize, goal_col: Some(goal), ..d }
}

pub open spec fn at_line_start(d: DocView) -> DocView {
    DocView {
        cursor: line_start(d.text, cursor_line(d.text, d.cursor as int)) as usize,
        goal_col: None,
        ..d
    }
}

pub open spec fn at_first_nonblank(d: DocView) -> DocView {
    let line = cursor_line(d.text, d.cursor as int);
    let len = line_len(d.text, line);
    let k = crate::strings::skip_white(line_content(d.text, line), 0);
    DocView {
        cursor: (line_start(d.text, line) + min_int(k, max_of(len - 1, 0))) as usize,
        goal_col: None,
        ..d
    }
}

pub open spec fn at_line_end(d: DocView, past_end: bool) -> DocView {
    let end = line_end(d.text, cursor_line(d.text, d.cursor as int));
    DocView { cursor: clamped(d.text, end, past_end) as usize, goal_col: None, ..d }
}

pub open spec fn at_line(d: DocView, line: int) -> DocView {
    DocView {
        cursor: line_start(d.text, min_int(line, line_count(d.text) - 1)) as usize,
        goal_col: None,
        ..d
    }
}

// ---- words ------------------------------------------------------------------

/// The first place at or after `pos` that is not of this class.
pub open spec fn class_end(s: Seq<char>, class: CharClass, pos: int) -> int
    decreases s.len() - pos,
{
    if pos < 0 || pos >= s.len() || class_at(s, pos) != class {
        pos
    } else {
        class_end(s, class, pos + 1)
    }
}

/// The start of the next word: past the rest of this one, and the white space
/// after it.
pub open spec fn word_after(s: Seq<char>, pos: int) -> int {
    if pos >= s.len() {
        s.len() as int
    } else {
        let class = class_at(s, pos);
        let e = if class != CharClass::Whitespace {
            class_end(s, class, pos)
        } else {
            pos
        };
        class_end(s, CharClass::Whitespace, e)
    }
}

/// The first of the places before `pos`, from there back, that is not white
/// space, or the start.
pub open spec fn back_over_white(s: Seq<char>, pos: int) -> int
    decreases pos,
{
    if pos <= 0 || class_at(s, pos) != CharClass::Whitespace {
        pos
    } else {
        back_over_white(s, pos - 1)
    }
}

/// The start of the stretch of one class that `pos` is in.
pub open spec fn class_start(s: Seq<char>, class: CharClass, pos: int) -> int
    decreases pos,
{
    if pos <= 0 || class_at(s, pos - 1) != class {
        pos
    } else {
        class_start(s, class, pos - 1)
    }
}

/// The start of the word before.
pub open spec fn word_before(s: Seq<char>, pos: int) -> int {
    if pos == 0 {
        0
    } else {
        let p = back_over_white(s, pos - 1);
        let class = class_at(s, p);
        if class == CharClass::Whitespace {
            p
        } else {
            class_start(s, class, p)
        }
    }
}

/// The last character of the word that ends after `pos`.
pub open spec fn word_last(s: Seq<char>, pos: int) -> int {
    if s.len() == 0 {
        0
    } else if pos + 1 >= s.len() {
        s.len() - 1
    } else {
        let p = class_end(s, CharClass::Whitespace, pos + 1);
        if p >= s.len() {
            s.len() - 1
        } else {
            class_end(s, class_at(s, p), p) - 1
        }
    }
}

/// Whether these are the classes of the places of a text.
spec fn are_classes(v: Seq<CharClass>, s: Seq<char>) -> bool {
    v.len() == s.len() && forall|i: int| 0 <= i < v.len() ==> #[trigger] v[i] == class_at(s, i)
}

fn end_of_class(classes: &Vec<CharClass>, class: CharClass, from: usize, s: Ghost<Seq<char>>) -> (r:
    usize)
    requires
        are_classes(classes@, s@),
        from <= s@.len(),
    ensures
        r == class_end(s@, class, from as int),
        from <= r <= s@.len(),
        from < s@.len() && class_at(s@, from as int) == class ==> r > from,
{
    let mut k: usize = from;
    while k < classes.len() && classes[k] == class
        invariant
            from <= k <= classes@.len(),
            are_classes(classes@, s@),
            class_end(s@, class, from as int) == class_end(s@, class, k as int),
        decreases classes@.len() - k,
    {
        k += 1;
    }
    k
}

/// The start of the next word.
pub fn next_word_start(doc: &Document, pos: usize) -> (r: usize)
    ensures
        r == word_after(doc@.text, pos as int),
        r <= doc@.text.len(),
{
    let len = rope_len(&doc.text);
    if pos >= len {
        return len;
    }
    let classes = classes_of(&doc.text);
    let class = classes[pos];
    let e: usize = if class != CharClass::Whitespace {
        end_of_class(&classes, class, pos, Ghost(doc@.text))
    } else {
        pos
    };
    end_of_class(&classes, CharClass::Whitespace, e, Ghost(doc@.text))
}

/// The start of the word before.
pub fn prev_word_start(doc: &Document, pos: usize) -> (r: usize)
    requires
        pos <= doc@.text.len(),
    ensures
        r == word_before(doc@.text, pos as int),
        r <= pos,
{
    if pos == 0 {
        return 0;
    }
    let classes = classes_of(&doc.text);
    let mut p: usize = pos - 1;
    while p > 0 && classes[p] == CharClass::Whitespace
        invariant
            p < pos <= doc@.text.len(),
            are_classes(classes@, doc@.text),
            back_over_white(doc@.text, pos - 1) == back_over_white(doc@.text, p as int),
        decreases p,
    {
        p -= 1;
    }
    let class = classes[p];
    if class == CharClass::Whitespace {
        return p;
    }
    let ghost from = p;
    while p > 0 && classes[p - 1] == class
        invariant
            p <= from < pos <= doc@.text.len(),
            are_classes(classes@, doc@.text),
            class_start(doc@.text, class, from as int) == class_start(doc@.text, class, p as int),
        decreases p,
    {
        p -= 1;
    }
    p
}

/// The last character of the word that ends after `pos`.
pub fn word_end(doc: &Document, pos: usize) -> (r: usize)
    requires
        pos <= doc@.text.len(),
    ensures
        r == word_last(doc@.text, pos as int),
        r <= doc@.text.len(),
        doc@.text.len() > 0 ==> r < doc@.text.len(),
{
    let len = rope_len(&doc.text);
    if len == 0 {
        return 0;
    }
    if pos >= len - 1 {
        return len - 1;
    }
    let classes = classes_of(&doc.text);
    let p = end_of_class(&classes, CharClass::Whitespace, pos + 1, Ghost(doc@.text));
    if p >= len {
        return len - 1;
    }
    let class = classes[p];
    end_of_class(&classes, class, p, Ghost(doc@.text)) - 1
}

// ---- selecting motions ------------------------------------------------------

pub open spec fn to_next_word(s: Seq<char>) -> spec_fn(int) -> int {
    |p: int| word_after(s, p)
}

pub open spec fn to_prev_word(s: Seq<char>) -> spec_fn(int) -> int {
    |p: int| word_before(s, p)
}

pub open spec fn to_word_end(s: Seq<char>) -> spec_fn(int) -> int {
    |p: int| word_last(s, p)
}

proof fn lemma_class_end(s: Seq<char>, class: CharClass, pos: int)
    requires
        0 <= pos <= s.len(),
    ensures
        pos <= class_end(s, class, pos) <= s.len(),
    decreases s.len() - pos,
{
    if pos < s.len() && class_at(s, pos) == class {
        lemma_class_end(s, class, pos + 1);
    }
}

proof fn lemma_class_back(s: Seq<char>, class: CharClass, pos: int)
    requires
        0 <= pos,
    ensures
        0 <= class_start(s, class, pos) <= pos,
        0 <= back_over_white(s, pos) <= pos,
    decreases pos,
{
    if pos > 0 {
        lemma_class_back(s, class, pos - 1);
    }
}

/// A word motion stays within the text.
pub proof fn lemma_word_steps(s: Seq<char>, pos: int, n: nat)
    requires
        0 <= pos <= s.len(),
    ensures
        0 <= times(to_next_word(s), pos, n) <= s.len(),
        0 <= times(to_prev_word(s), pos, n) <= s.len(),
        0 <= times(to_word_end(s), pos, n) <= s.len(),
    decreases n,
{
    if n > 0 {
        lemma_word_steps(s, pos, (n - 1) as nat);
        let a = times(to_next_word(s), pos, (n - 1) as nat);
        let b = times(to_prev_word(s), pos, (n - 1) as nat);
        let c = times(to_word_end(s), pos, (n - 1) as nat);
        if a < s.len() {
            lemma_class_end(s, class_at(s, a), a);
            lemma_class_end(s, CharClass::Whitespace, class_end(s, class_at(s, a), a));
            lemma_class_end(s, CharClass::Whitespace, a);
        }
        if b > 0 {
            lemma_class_back(s, CharClass::Whitespace, b - 1);
            let p = back_over_white(s, b - 1);
            lemma_class_back(s, class_at(s, p), p);
        }
        if c + 1 < s.len() {
            let p = class_end(s, CharClass::Whitespace, c + 1);
            lemma_class_end(s, CharClass::Whitespace, c + 1);
            lemma_class_end(s, class_at(s, p), p);
        }
    }
}

/// Where a selection that a motion makes is held: at the cursor, or, while the
/// selection is being extended, where it was.
pub open spec fn held(d: DocView, extend: bool) -> usize {
    if extend {
        d.anchor
    } else {
        d.cursor
    }
}

pub open spec fn word_next_selected(d: DocView, count: usize, extend: bool) -> DocView {
    DocView {
        anchor: held(d, extend),
        cursor: cluster_start(
            d.text,
            times(to_next_word(d.text), d.cursor as int, count as nat),
        ) as usize,
        goal_col: None,
        ..d
    }
}

pub open spec fn word_prev_selected(d: DocView, count: usize, extend: bool) -> DocView {
    DocView {
        anchor: held(d, extend),
        cursor: cluster_start(
            d.text,
            times(to_prev_word(d.text), d.cursor as int, count as nat),
        ) as usize,
        goal_col: None,
        ..d
    }
}

/// Selected through the last character of the word: a selection is exclusive
/// at the cursor's end.
pub open spec fn word_end_selected(d: DocView, count: usize, extend: bool) -> DocView {
    DocView {
        anchor: held(d, extend),
        cursor: cluster_start(
            d.text,
            min_int(
                times(to_word_end(d.text), d.cursor as int, count as nat) + 1,
                d.text.len() as int,
            ),
        ) as usize,
        goal_col: None,
        ..d
    }
}

/// Where the next press of the line selection takes the anchor and the
/// cursor. One that is already at line starts grows downwards.
pub open spec fn line_step(s: Seq<char>, sel: (usize, usize), extend: bool) -> (usize, usize) {
    let (anchor, cursor) = sel;
    let line = cursor_line(s, cursor as int);
    let anchor_line = line_of(s, min_int(anchor as int, s.len() as int)) as int;
    let extending = anchor == line_start(s, anchor_line) && anchor < cursor && (cursor
        == line_start(s, line) || cursor == s.len());
    (
        if !extending && !extend {
            line_start(s, line) as usize
        } else {
            anchor
        },
        if line + 1 < line_count(s) {
            line_start(s, line + 1) as usize
        } else {
            s.len() as usize
        },
    )
}

pub open spec fn line_steps(s: Seq<char>, sel: (usize, usize), extend: bool, n: nat) -> (
    usize,
    usize,
)
    decreases n,
{
    if n == 0 {
        sel
    } else {
        line_step(s, line_steps(s, sel, extend, (n - 1) as nat), extend)
    }
}

proof fn lemma_line_rests(s: Seq<char>, sel: (usize, usize), extend: bool, k: nat, n: nat)
    requires
        k <= n,
        line_step(s, line_steps(s, sel, extend, k), extend) == line_steps(s, sel, extend, k),
    ensures
        line_steps(s, sel, extend, n) == line_steps(s, sel, extend, k),
    decreases n,
{
    if k < n {
        lemma_line_rests(s, sel, extend, k, (n - 1) as nat);
    }
}

#[verifier::opaque]
pub open spec fn line_selected(d: DocView, count: usize, extend: bool) -> DocView {
    let sel = line_steps(d.text, (d.anchor, d.cursor), extend, count as nat);
    DocView { anchor: sel.0, cursor: sel.1, goal_col: None, ..d }
}

/// The selection to act on, as (start, end): what is selected, or the
/// character under the cursor.
#[verifier::opaque]
pub open spec fn range_of(d: DocView) -> (usize, usize) {
    let len = d.text.len() as int;
    let a = min_int(d.anchor as int, len);
    let c = min_int(d.cursor as int, len);
    if a == c {
        (c as usize, min_int(c + 1, len) as usize)
    } else {
        (min_int(a, c) as usize, max_of(a, c) as usize)
    }
}

/// The ends of a selection as they are shown while it is being extended: the
/// character it was started on and the one the cursor is on.
pub open spec fn shown_ends(d: DocView) -> (int, int) {
    if d.anchor < d.cursor {
        (d.anchor as int, prev_boundary(d.text, d.cursor as int))
    } else if d.cursor < d.anchor {
        (prev_boundary(d.text, d.anchor as int), d.cursor as int)
    } else {
        (d.cursor as int, d.cursor as int)
    }
}

/// The selection from one character through another, both included.
pub open spec fn through(s: Seq<char>, a: int, c: int) -> (int, int) {
    if c >= a {
        (a, next_boundary(s, c))
    } else {
        (next_boundary(s, a), c)
    }
}

pub open spec fn as_shown(d: DocView) -> DocView {
    let ends = shown_ends(d);
    DocView { anchor: ends.0 as usize, cursor: ends.1 as usize, ..d }
}

pub open spec fn included(d: DocView) -> DocView {
    let ends = through(d.text, d.anchor as int, d.cursor as int);
    DocView { anchor: ends.0 as usize, cursor: ends.1 as usize, ..d }
}

/// Where the cursor is shown: on the last character of a selection that is
/// being stretched forward.
pub open spec fn shown_cursor(d: DocView, inclusive: bool) -> int {
    if inclusive && d.anchor < d.cursor {
        prev_boundary(d.text, min_int(d.cursor as int, d.text.len() as int))
    } else {
        d.cursor as int
    }
}

/// The outermost of the primary selection and the first `n` others: the one
/// whose cursor is furthest down, or up.
pub open spec fn outermost(d: DocView, down: bool, n: nat) -> (usize, usize)
    decreases n,
{
    if n == 0 || n > d.extra.len() {
        (d.anchor, d.cursor)
    } else {
        let best = outermost(d, down, (n - 1) as nat);
        let e = d.extra[n - 1];
        if (down && e.1 >= best.1) || (!down && e.1 <= best.1) {
            e
        } else {
            best
        }
    }
}

/// The column of a position on a line, and the position in that column of
/// another line.
pub open spec fn carried(s: Seq<char>, line: int, pos: int, target: int, tab: usize) -> int {
    line_start(s, target) + char_at_column(
        line_content(s, target),
        capped_col(display_col(line_content(s, line), pos - line_start(s, line), tab)),
        tab,
    )
}

/// One more cursor, on the line below or above the outermost one; nothing
/// where there is no such line.
pub open spec fn cursor_added(d: DocView, down: bool, tab: usize) -> Option<DocView> {
    let s = d.text;
    let (a, c) = outermost(d, down, d.extra.len());
    let line = cursor_line(s, c as int);
    let target = if down {
        line + 1
    } else {
        line - 1
    };
    if target < 0 || target >= line_count(s) {
        None
    } else {
        let new_c = carried(s, line, c as int, target, tab) as usize;
        let new_a = if cursor_line(s, a as int) == line && a != c {
            carried(s, line, a as int, target, tab) as usize
        } else {
            new_c
        };
        Some(deduped(DocView { extra: d.extra.push((new_a, new_c)), ..d }))
    }
}

pub open spec fn cursors_added(d: DocView, down: bool, n: nat, tab: usize) -> DocView
    decreases n,
{
    if n == 0 {
        d
    } else {
        match cursor_added(d, down, tab) {
            None => d,
            Some(more) => cursors_added(more, down, (n - 1) as nat, tab),
        }
    }
}

/// Every selection collapsed onto its cursor.
pub open spec fn collapsed(d: DocView) -> DocView {
    DocView {
        anchor: d.cursor,
        extra: Seq::new(d.extra.len(), |i: int| (d.extra[i].1, d.extra[i].1)),
        ..d
    }
}

impl Document {
    pub fn select_word_next(&mut self, count: usize, extend: bool)
        ensures
            final(self)@ == word_next_selected(old(self)@, count, extend),
            placed(old(self)@) ==> placed(final(self)@),
            true_to_edits(old(self)@) ==> true_to_edits(final(self)@),
    {
        let ghost d = self@;
        let mut at = self.cursor;
        let mut k: usize = 0;
        while k < count
            invariant
                k <= count,
                self@ == d,
                at == times(to_next_word(d.text), d.cursor as int, k as nat),
                placed(d) ==> at <= d.text.len(),
            ensures
                at == times(to_next_word(d.text), d.cursor as int, count as nat),
                placed(d) ==> at <= d.text.len(),
                self@ == d,
            decreases count - k,
        {
            let next = next_word_start(&*self, at);
            if next == at {
                proof {
                    lemma_rests(to_next_word(d.text), d.cursor as int, k as nat, count as nat);
                }
                break ;
            }
            at = next;
            k += 1;
        }
        if !extend {
            self.anchor = self.cursor;
        }
        self.cursor = at;
        self.goal_col = None;
        self.to_cluster_start();
    }

    pub fn select_word_prev(&mut self, count: usize, extend: bool)
        requires
            old(self)@.cursor <= old(self)@.text.len(),
        ensures
            final(self)@ == word_prev_selected(old(self)@, count, extend),
            placed(old(self)@) ==> placed(final(self)@),
            true_to_edits(old(self)@) ==> true_to_edits(final(self)@),
    {
        let ghost d = self@;
        let mut at = self.cursor;
        let mut k: usize = 0;
        while k < count
            invariant
                k <= count,
                self@ == d,
                at == times(to_prev_word(d.text), d.cursor as int, k as nat),
                at <= d.text.len(),
            ensures
                at == times(to_prev_word(d.text), d.cursor as int, count as nat),
                at <= d.text.len(),
                self@ == d,
            decreases count - k,
        {
            let next = prev_word_start(&*self, at);
            if next == at {
                proof {
                    lemma_rests(to_prev_word(d.text), d.cursor as int, k as nat, count as nat);
                }
                break ;
            }
            at = next;
            k += 1;
        }
        if !extend {
            self.anchor = self.cursor;
        }
        self.cursor = at;
        self.goal_col = None;
        self.to_cluster_start();
    }

    pub fn select_word_end(&mut self, count: usize, extend: bool)
        requires
            old(self)@.cursor <= old(self)@.text.len(),
        ensures
            final(self)@ == word_end_selected(old(self)@, count, extend),
            placed(old(self)@) ==> placed(final(self)@),
            true_to_edits(old(self)@) ==> true_to_edits(final(self)@),
    {
        let ghost d = self@;
        let len = rope_len(&self.text);
        let mut at = self.cursor;
        let mut k: usize = 0;
        while k < count
            invariant
                k <= count,
                self@ == d,
                at == times(to_word_end(d.text), d.cursor as int, k as nat),
                at <= d.text.len(),
            ensures
                at == times(to_word_end(d.text), d.cursor as int, count as nat),
                at <= d.text.len(),
                self@ == d,
            decreases count - k,
        {
            let next = word_end(&*self, at);
            if next == at {
                proof {
                    lemma_rests(to_word_end(d.text), d.cursor as int, k as nat, count as nat);
                }
                break ;
            }
            at = next;
            k += 1;
        }
        if !extend {
            self.anchor = self.cursor;
        }
        self.cursor = if at < len {
            at + 1
        } else {
            len
        };
        self.goal_col = None;
        self.to_cluster_start();
    }

    /// Select the cursor's line; again, the next one too.
    pub fn select_line(&mut self, count: usize, extend: bool)
        ensures
            final(self)@ == line_selected(old(self)@, count, extend),
            placed(old(self)@) ==> placed(final(self)@),
            true_to_edits(old(self)@) ==> true_to_edits(final(self)@),
    {
        reveal(line_selected);
        let ghost d = self@;
        let ghost first = (self.anchor, self.cursor);
        let mut k: usize = 0;
        while k < count
            invariant
                k <= count,
                d.anchor == first.0 && d.cursor == first.1,
                self@ == (DocView { anchor: self.anchor, cursor: self.cursor, ..d }),
                (self.anchor, self.cursor) == line_steps(d.text, first, extend, k as nat),
                placed(d) ==> placed(self@),
            ensures
                self@ == (DocView { anchor: self.anchor, cursor: self.cursor, ..d }),
                (self.anchor, self.cursor) == line_steps(d.text, first, extend, count as nat),
                placed(d) ==> placed(self@),
            decreases count - k,
        {
            let len = rope_len(&self.text);
            let line = self.cursor_line();
            let held: usize = if self.anchor <= len {
                self.anchor
            } else {
                len
            };
            let anchor_line = self.line_at(held);
            let extending = self.anchor == self.line_start(anchor_line) && self.anchor < self.cursor
                && (self.cursor == self.line_start(line) || self.cursor == len);
            let anchor: usize = if !extending && !extend {
                self.line_start(line)
            } else {
                self.anchor
            };
            let cursor: usize = if line < self.line_count() - 1 {
                self.line_start(line + 1)
            } else {
                len
            };
            if anchor == self.anchor && cursor == self.cursor {
                proof {
                    lemma_line_rests(d.text, first, extend, k as nat, count as nat);
                }
                break ;
            }
            self.anchor = anchor;
            self.cursor = cursor;
            k += 1;
        }
        self.goal_col = None;
    }

    /// The characters that the next action applies to.
    pub fn selection_range(&self) -> (r: (usize, usize))
        ensures
            r == range_of(self@),
            r.0 <= r.1 <= self@.text.len(),
    {
        reveal(range_of);
        let len = rope_len(&self.text);
        let a: usize = if self.anchor <= len {
            self.anchor
        } else {
            len
        };
        let c: usize = if self.cursor <= len {
            self.cursor
        } else {
            len
        };
        if a == c {
            (
                c,
                if c < len {
                    c + 1
                } else {
                    len
                },
            )
        } else if a <= c {
            (a, c)
        } else {
            (c, a)
        }
    }

    /// Put the ends of the selection onto the characters they are shown on.
    pub fn show_ends(&mut self)
        requires
            placed(old(self)@),
        ensures
            final(self)@ == as_shown(old(self)@),
            placed(final(self)@),
            true_to_edits(old(self)@) ==> true_to_edits(final(self)@),
    {
        if self.anchor < self.cursor {
            self.cursor = prev_grapheme_boundary(&self.text, self.cursor);
        } else if self.cursor < self.anchor {
            self.anchor = prev_grapheme_boundary(&self.text, self.anchor);
        }
    }

    /// Take in the characters at both ends.
    pub fn include_ends(&mut self)
        requires
            placed(old(self)@),
        ensures
            final(self)@ == included(old(self)@),
            placed(final(self)@),
            true_to_edits(old(self)@) ==> true_to_edits(final(self)@),
    {
        if self.cursor >= self.anchor {
            self.cursor = next_grapheme_boundary(&self.text, self.cursor);
        } else {
            self.anchor = next_grapheme_boundary(&self.text, self.anchor);
        }
    }

    /// Where the cursor is shown.
    pub fn shown_cursor(&self, inclusive: bool) -> (r: usize)
        ensures
            r == shown_cursor(self@, inclusive),
            placed(self@) ==> r <= self@.text.len(),
    {
        if inclusive && self.anchor < self.cursor {
            let len = rope_len(&self.text);
            let c: usize = if self.cursor <= len {
                self.cursor
            } else {
                len
            };
            prev_grapheme_boundary(&self.text, c)
        } else {
            self.cursor
        }
    }

    fn outermost(&self, down: bool) -> (r: (usize, usize))
        ensures
            r == outermost(self@, down, self@.extra.len()),
            placed(self@) ==> r.0 <= self@.text.len() && r.1 <= self@.text.len(),
    {
        let mut best = (self.anchor, self.cursor);
        let mut i: usize = 0;
        while i < self.extra.len()
            invariant
                i <= self.extra@.len(),
                best == outermost(self@, down, i as nat),
                placed(self@) ==> best.0 <= self@.text.len() && best.1 <= self@.text.len(),
            decreases self.extra@.len() - i,
        {
            let e = self.extra[i];
            assert(self@.extra[i as int] == e);
            if (down && e.1 >= best.1) || (!down && e.1 <= best.1) {
                best = e;
            }
            i += 1;
        }
        best
    }

    fn carry(&self, line: usize, pos: usize, target: usize, tab: usize) -> (r: usize)
        requires
            line < lines_in(self@.text),
            target < lines_in(self@.text),
            line_start(self@.text, line as int) <= pos,
        ensures
            r == carried(self@.text, line as int, pos as int, target as int, tab),
            r <= self@.text.len(),
    {
        let l = self.line_content(line);
        let t = self.line_content(target);
        proof {
            lemma_line_parts(self@.text, target as int);
        }
        let len = rope_len(&self.text);
        let col = char_to_display_col(l.as_slice(), pos - self.line_start(line), tab);
        self.line_start(target) + display_col_to_char(t.as_slice(), col, tab)
    }

    /// Copy the outermost selection to the next line, column for column; it
    /// keeps its shape only where it lies on one line.
    pub fn add_cursor(&mut self, down: bool, count: usize, tab: usize)
        ensures
            final(self)@ == cursors_added(old(self)@, down, count as nat, tab),
            placed(old(self)@) ==> placed(final(self)@),
            true_to_edits(old(self)@) ==> true_to_edits(final(self)@),
    {
        let ghost goal = cursors_added(self@, down, count as nat, tab);
        let ghost fits = placed(self@);
        let ghost honest = true_to_edits(self@);
        let mut left = count;
        while left > 0
            invariant
                goal == cursors_added(self@, down, left as nat, tab),
                fits ==> placed(self@),
                honest ==> true_to_edits(self@),
            ensures
                goal == self@,
                fits ==> placed(self@),
                honest ==> true_to_edits(self@),
            decreases left,
        {
            let ghost d = self@;
            let last: usize = self.line_count() - 1;
            let (a, c) = self.outermost(down);
            let line = self.line_near(c);
            if (down && line >= last) || (!down && line == 0) {
                break ;
            }
            let target: usize = if down {
                line + 1
            } else {
                line - 1
            };
            let new_c = self.carry(line, c, target, tab);
            let aline = self.line_near(a);
            let new_a = if aline == line && a != c {
                self.carry(line, a, target, tab)
            } else {
                new_c
            };
            self.extra.push((new_a, new_c));
            assert(self@.extra =~= d.extra.push((new_a, new_c)));
            self.dedupe_cursors();
            left -= 1;
        }
    }

    /// Collapse every selection onto its cursor.
    pub fn collapse(&mut self)
        ensures
            final(self)@ == collapsed(old(self)@),
            placed(old(self)@) ==> placed(final(self)@),
            true_to_edits(old(self)@) ==> true_to_edits(final(self)@),
    {
        let ghost d = self@;
        self.anchor = self.cursor;
        let mut i: usize = 0;
        while i < self.extra.len()
            invariant
                i <= self.extra@.len(),
                self.extra@.len() == d.extra.len(),
                self@ == (DocView { anchor: d.cursor, extra: self.extra@, ..d }),
                forall|k: int|
                    0 <= k < i ==> #[trigger] self.extra@[k] == (d.extra[k].1, d.extra[k].1),
                forall|k: int| i <= k < d.extra.len() ==> #[trigger] self.extra@[k] == d.extra[k],
            decreases self.extra@.len() - i,
        {
            let c = self.extra[i].1;
            self.extra.set(i, (c, c));
            i += 1;
        }
        assert(self@.extra =~= collapsed(d).extra);
        proof {
            if placed(d) {
                assert forall|k: int| 0 <= k < self@.extra.len() implies (#[trigger] self@.extra[k]).0
                    <= d.text.len() && self@.extra[k].1 <= d.text.len() by {
                    assert(d.extra[k].1 <= d.text.len());
                }
            }
        }
    }
}

} // verus!
