//! The text of a buffer, as the `ropey` crate holds it, and where its lines
//! start and end. A rope is opaque here; `rope_chars` names its contents, and
//! each `rope_` function is one call into the crate, stated over that.

use ropey::Rope;
use vstd::prelude::*;
use crate::strings::chars_of;

verus! {

#[verifier::external_type_specification]
#[verifier::external_body]
pub struct ExRope(ropey::Rope);

/// The characters of a rope, in order.
pub uninterp spec fn rope_chars(r: ropey::Rope) -> Seq<char>;

// ---- lines ------------------------------------------------------------------

/// The characters that can end a line.
pub open spec fn is_break(c: char) -> bool {
    ||| c == '\n'
    ||| c == '\r'
    ||| c as u32 == 0xb
    ||| c as u32 == 0xc
    ||| c as u32 == 0x85
    ||| c as u32 == 0x2028
    ||| c as u32 == 0x2029
}

pub fn char_is_break(c: char) -> (r: bool)
    ensures
        r == is_break(c),
{
    let n: u32 = c as u32;
    c == '\n' || c == '\r' || n == 0xb || n == 0xc || n == 0x85 || n == 0x2028 || n == 0x2029
}

/// Whether a line ends with the character at `i`; the `\r` of a `\r\n` ends
/// none, the `\n` after it does.
pub open spec fn ends_line(s: Seq<char>, i: int) -> bool {
    0 <= i < s.len() && is_break(s[i]) && !(s[i] == '\r' && i + 1 < s.len() && s[i + 1] == '\n')
}

/// The line that `pos` is on: how many lines end before it.
pub open spec fn line_of(s: Seq<char>, pos: int) -> nat
    decreases pos,
{
    if pos <= 0 {
        0
    } else {
        line_of(s, pos - 1) + if ends_line(s, pos - 1) {
            1nat
        } else {
            0nat
        }
    }
}

/// How many lines there are: one more than end.
pub open spec fn lines_in(s: Seq<char>) -> nat {
    line_of(s, s.len() as int) + 1
}

/// Where the `n`th line from `i` on starts, `i` being the start of a line.
pub open spec fn start_from(s: Seq<char>, n: int, i: int) -> int
    decreases s.len() - i,
{
    if n <= 0 || i < 0 || i >= s.len() {
        i
    } else if ends_line(s, i) {
        start_from(s, n - 1, i + 1)
    } else {
        start_from(s, n, i + 1)
    }
}

/// Where a line starts; the length of the text for the line after the last.
pub open spec fn line_start(s: Seq<char>, line: int) -> int {
    start_from(s, line, 0)
}

/// A line with its ending.
pub open spec fn line_text(s: Seq<char>, line: int) -> Seq<char> {
    s.subrange(line_start(s, line), line_start(s, line + 1))
}

/// How much of a line comes before its ending.
pub open spec fn content_len(l: Seq<char>) -> int {
    if l.len() > 0 && is_break(l.last()) {
        if l.last() == '\n' && l.len() > 1 && l[l.len() - 2] == '\r' {
            l.len() - 2
        } else {
            l.len() - 1
        }
    } else {
        l.len() as int
    }
}

pub proof fn lemma_line_of_grows(s: Seq<char>, a: int, b: int)
    requires
        0 <= a <= b,
    ensures
        line_of(s, a) <= line_of(s, b),
    decreases b,
{
    if a < b {
        lemma_line_of_grows(s, a, b - 1);
    }
}

/// What `start_from` finds: the first place at or after `i` with `n` more
/// line ends before it than `i` has.
pub proof fn lemma_start_from(s: Seq<char>, n: int, i: int)
    requires
        0 <= n,
        0 <= i <= s.len(),
    ensures
        i <= start_from(s, n, i) <= s.len(),
        line_of(s, i) + n <= line_of(s, s.len() as int) ==> line_of(s, start_from(s, n, i))
            == line_of(s, i) + n,
        line_of(s, i) + n > line_of(s, s.len() as int) ==> start_from(s, n, i) == s.len(),
        forall|k: int| i <= k < start_from(s, n, i) ==> #[trigger] line_of(s, k) < line_of(s, i) + n,
    decreases s.len() - i,
{
    if n > 0 && i < s.len() {
        if ends_line(s, i) {
            lemma_start_from(s, n - 1, i + 1);
        } else {
            lemma_start_from(s, n, i + 1);
        }
    } else if n == 0 {
        lemma_line_of_grows(s, i, s.len() as int);
    }
}

/// A line's start: within the text, on that line, and nothing before it is.
pub proof fn lemma_line_start(s: Seq<char>, line: int)
    requires
        0 <= line,
    ensures
        0 <= line_start(s, line) <= s.len(),
        line < lines_in(s) ==> line_of(s, line_start(s, line)) == line,
        line >= lines_in(s) ==> line_start(s, line) == s.len(),
        forall|k: int| 0 <= k < line_start(s, line) ==> #[trigger] line_of(s, k) < line,
{
    lemma_start_from(s, line, 0);
}

/// A position is at or after the start of its line and before the next.
pub proof fn lemma_line_bounds(s: Seq<char>, pos: int)
    requires
        0 <= pos <= s.len(),
    ensures
        line_of(s, pos) < lines_in(s),
        line_start(s, line_of(s, pos) as int) <= pos,
        pos <= line_start(s, line_of(s, pos) as int + 1),
        pos < s.len() ==> pos < line_start(s, line_of(s, pos) as int + 1),
{
    let l = line_of(s, pos) as int;
    lemma_line_of_grows(s, pos, s.len() as int);
    lemma_line_start(s, l);
    lemma_line_start(s, l + 1);
    if line_start(s, l) > pos {
        assert(line_of(s, pos) < l);
    }
    let e = line_start(s, l + 1);
    if e < pos || (e == pos && pos < s.len()) {
        if l + 1 < lines_in(s) {
            assert(line_of(s, e) == l + 1);
            lemma_line_of_grows(s, e, pos);
        }
    }
}

pub proof fn lemma_line_start_grows(s: Seq<char>, a: int, b: int)
    requires
        0 <= a <= b,
    ensures
        line_start(s, a) <= line_start(s, b),
{
    lemma_line_start(s, a);
    lemma_line_start(s, b);
    if line_start(s, b) < line_start(s, a) {
        let p = line_start(s, b);
        assert(line_of(s, p) < a);
        assert(b < lines_in(s));
    }
}

// ---- UTF-16 -----------------------------------------------------------------

/// How many UTF-16 units the first `n` characters take.
pub open spec fn utf16_upto(s: Seq<char>, n: int) -> nat
    decreases n,
{
    if n <= 0 {
        0
    } else {
        utf16_upto(s, n - 1) + if s[n - 1] as u32 >= 0x10000 {
            2nat
        } else {
            1nat
        }
    }
}

pub proof fn lemma_utf16_grows(s: Seq<char>, a: int, b: int)
    requires
        0 <= a <= b,
    ensures
        utf16_upto(s, a) + (b - a) <= utf16_upto(s, b),
        utf16_upto(s, b) <= utf16_upto(s, a) + 2 * (b - a),
    decreases b,
{
    if a < b {
        lemma_utf16_grows(s, a, b - 1);
    }
}

// ---- bytes ------------------------------------------------------------------

/// How many bytes a character takes in UTF-8.
pub open spec fn bytes_of(c: char) -> nat {
    if (c as u32) < 0x80 {
        1
    } else if (c as u32) < 0x800 {
        2
    } else if (c as u32) < 0x10000 {
        3
    } else {
        4
    }
}

/// How many bytes the first `n` characters take.
pub open spec fn bytes_upto(s: Seq<char>, n: int) -> nat
    decreases n,
{
    if n <= 0 || n > s.len() {
        0
    } else {
        bytes_upto(s, n - 1) + bytes_of(s[n - 1])
    }
}

/// The character that a byte belongs to, counting both from character `i` on.
pub open spec fn char_at_byte(s: Seq<char>, byte: int, i: int) -> int
    decreases s.len() - i,
{
    if i < 0 || i >= s.len() || byte < bytes_of(s[i]) {
        i
    } else {
        char_at_byte(s, byte - bytes_of(s[i]), i + 1)
    }
}

pub proof fn lemma_char_at_byte(s: Seq<char>, a: int, b: int, i: int)
    requires
        a <= b,
        0 <= i <= s.len(),
    ensures
        i <= char_at_byte(s, a, i) <= char_at_byte(s, b, i) <= s.len(),
    decreases s.len() - i,
{
    if i < s.len() {
        if b >= bytes_of(s[i]) {
            lemma_char_at_byte(s, a - bytes_of(s[i]), b - bytes_of(s[i]), i + 1);
        }
    }
}

// ---- the rope ---------------------------------------------------------------

/// `Rope::new`: an empty rope.
#[verifier::external_body]
pub(crate) fn rope_new() -> (r: Rope)
    ensures
        rope_chars(r) == Seq::<char>::empty(),
{
    Rope::new()
}

/// `Rope::from_str`: a rope with the contents of a string.
#[verifier::external_body]
pub(crate) fn rope_from(s: &str) -> (r: Rope)
    ensures
        rope_chars(r) == s@,
{
    Rope::from_str(s)
}

/// `Rope::to_string`: the contents as a string.
#[verifier::external_body]
pub(crate) fn rope_string(t: &Rope) -> (r: String)
    ensures
        r@ == rope_chars(*t),
{
    t.to_string()
}

/// `Rope::len_chars`: how many characters there are.
#[verifier::external_body]
pub(crate) fn rope_len(t: &Rope) -> (r: usize)
    ensures
        r == rope_chars(*t).len(),
{
    t.len_chars()
}

/// `Rope::char`: the character at a place; it panics past the end.
#[verifier::external_body]
pub(crate) fn rope_char(t: &Rope, i: usize) -> (r: char)
    requires
        i < rope_chars(*t).len(),
    ensures
        r == rope_chars(*t)[i as int],
{
    t.char(i)
}

/// `Rope::slice`, and the string of it: the characters of a range; it panics
/// on a range that is not one of the text.
#[verifier::external_body]
pub(crate) fn rope_slice(t: &Rope, from: usize, to: usize) -> (r: String)
    requires
        from <= to <= rope_chars(*t).len(),
    ensures
        r@ == rope_chars(*t).subrange(from as int, to as int),
{
    t.slice(from..to).to_string()
}

/// `Rope::insert`: puts a string before the character at `at`; it panics past
/// the end.
#[verifier::external_body]
pub(crate) fn rope_insert(t: &mut Rope, at: usize, s: &str)
    requires
        at <= rope_chars(*old(t)).len(),
    ensures
        rope_chars(*final(t)) == rope_chars(*old(t)).take(at as int) + s@ + rope_chars(
            *old(t),
        ).skip(at as int),
{
    t.insert(at, s)
}

/// `Rope::remove`: takes a range of characters out; it panics on a range that
/// is not one of the text.
#[verifier::external_body]
pub(crate) fn rope_remove(t: &mut Rope, from: usize, to: usize)
    requires
        from <= to <= rope_chars(*old(t)).len(),
    ensures
        rope_chars(*final(t)) == rope_chars(*old(t)).take(from as int) + rope_chars(*old(t)).skip(
            to as int,
        ),
{
    t.remove(from..to)
}

/// `Rope::len_lines`: one more than the line breaks of the text, `\r\n` being
/// one break.
#[verifier::external_body]
pub(crate) fn rope_lines(t: &Rope) -> (r: usize)
    ensures
        r == lines_in(rope_chars(*t)),
{
    t.len_lines()
}

/// `Rope::char_to_line`: the line breaks before a place; it panics past the
/// end.
#[verifier::external_body]
pub(crate) fn rope_line_of(t: &Rope, pos: usize) -> (r: usize)
    requires
        pos <= rope_chars(*t).len(),
    ensures
        r == line_of(rope_chars(*t), pos as int),
{
    t.char_to_line(pos)
}

/// `Rope::line_to_char`: where a line starts, the end for the line after the
/// last; it panics on a line after that.
#[verifier::external_body]
pub(crate) fn rope_line_start(t: &Rope, line: usize) -> (r: usize)
    requires
        line <= lines_in(rope_chars(*t)),
    ensures
        r == line_start(rope_chars(*t), line as int),
{
    t.line_to_char(line)
}

/// `Rope::char_to_utf16_cu`: the UTF-16 units before a place; it panics past
/// the end.
#[verifier::external_body]
pub(crate) fn rope_utf16(t: &Rope, pos: usize) -> (r: usize)
    requires
        pos <= rope_chars(*t).len(),
    ensures
        r == utf16_upto(rope_chars(*t), pos as int),
{
    t.char_to_utf16_cu(pos)
}

/// A line of the rope, with its ending.
pub fn rope_line(t: &Rope, line: usize) -> (r: Vec<char>)
    requires
        line < lines_in(rope_chars(*t)),
    ensures
        r@ == line_text(rope_chars(*t), line as int),
{
    let n = rope_lines(t);
    assert(line < n);
    let a = rope_line_start(t, line);
    let b = rope_line_start(t, line + 1);
    proof {
        lemma_line_start_grows(rope_chars(*t), line as int, line + 1);
        lemma_line_start(rope_chars(*t), line + 1);
    }
    let s = rope_slice(t, a, b);
    chars_of(s.as_str())
}

/// How much of a line comes before its ending.
pub fn line_len_without_newline(line: &[char]) -> (r: usize)
    ensures
        r == content_len(line@),
        r <= line@.len(),
{
    let n: usize = line.len();
    if n > 0 && char_is_break(line[n - 1]) {
        if line[n - 1] == '\n' && n > 1 && line[n - 2] == '\r' {
            n - 2
        } else {
            n - 1
        }
    } else {
        n
    }
}

/// `Rope::byte_to_char`: the character that a byte belongs to; it panics past
/// the end.
#[verifier::external_body]
pub(crate) fn rope_char_at_byte(t: &Rope, byte: usize) -> (r: usize)
    requires
        byte <= bytes_upto(rope_chars(*t), rope_chars(*t).len() as int),
    ensures
        r == char_at_byte(rope_chars(*t), byte as int, 0),
{
    t.byte_to_char(byte)
}

} // verus!
