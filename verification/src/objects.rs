//! Text objects: the stretches of text that a character names, around a
//! selection.

use vstd::prelude::*;
use crate::position::{class_of, classify, CharClass};
use crate::strings::{char_is_white, is_white};
use crate::text::is_break;

verus! {

/// The pair that a character names.
pub open spec fn pair_of(c: char) -> Option<(char, char)> {
    if c == '(' || c == ')' {
        Some(('(', ')'))
    } else if c == '[' || c == ']' {
        Some(('[', ']'))
    } else if c == '{' || c == '}' {
        Some(('{', '}'))
    } else if c == '<' || c == '>' {
        Some(('<', '>'))
    } else if c == '"' || c == '\'' || c == '`' {
        Some((c, c))
    } else {
        None
    }
}

/// The pair that a character names.
pub fn pair_for(c: char) -> (r: Option<(char, char)>)
    ensures
        r == pair_of(c),
{
    if c == '(' || c == ')' {
        Some(('(', ')'))
    } else if c == '[' || c == ']' {
        Some(('[', ']'))
    } else if c == '{' || c == '}' {
        Some(('{', '}'))
    } else if c == '<' || c == '>' {
        Some(('<', '>'))
    } else if c == '"' || c == '\'' || c == '`' {
        Some((c, c))
    } else {
        None
    }
}

// ---- brackets ---------------------------------------------------------------

/// The opening bracket before place `i` that `depth` closed pairs lie between,
/// looking at the first `i` characters from the last one back.
pub open spec fn open_before(s: Seq<char>, i: int, depth: nat, open: char, close: char) -> Option<int>
    decreases i,
{
    if i <= 0 || i > s.len() {
        None
    } else if s[i - 1] == open {
        if depth == 0 {
            Some(i - 1)
        } else {
            open_before(s, i - 1, (depth - 1) as nat, open, close)
        }
    } else if s[i - 1] == close {
        open_before(s, i - 1, depth + 1, open, close)
    } else {
        open_before(s, i - 1, depth, open, close)
    }
}

/// The closing bracket from place `i` on that ends what `depth` brackets more
/// have opened.
pub open spec fn close_after(s: Seq<char>, i: int, depth: nat, open: char, close: char) -> Option<int>
    decreases s.len() - i,
{
    if i < 0 || i >= s.len() {
        None
    } else if s[i] == close {
        if depth == 0 {
            Some(i)
        } else {
            close_after(s, i + 1, (depth - 1) as nat, open, close)
        }
    } else if s[i] == open {
        close_after(s, i + 1, depth + 1, open, close)
    } else {
        close_after(s, i + 1, depth, open, close)
    }
}

/// The innermost pair that opens before place `i` and closes at or after `to`.
pub open spec fn pair_around(s: Seq<char>, i: int, to: int, open: char, close: char) -> Option<(int, int)>
    decreases i,
{
    match open_before(s, i, 0, open, close) {
        None => None,
        Some(o) => if o >= i || o < 0 {
            None
        } else {
            match close_after(s, o + 1, 0, open, close) {
                Some(c) => if c >= to {
                    Some((o, c))
                } else {
                    pair_around(s, o, to, open, close)
                },
                None => pair_around(s, o, to, open, close),
            }
        },
    }
}

/// The pair of brackets around a selection; a bare cursor on an opening
/// bracket is in that pair.
pub open spec fn brackets_around(s: Seq<char>, from: int, to: int, open: char, close: char) -> Option<
    (int, int),
> {
    pair_around(
        s,
        if from == to && from < s.len() && s[from] == open {
            from + 1
        } else {
            from
        },
        to,
        open,
        close,
    )
}

fn find_open(s: &[char], i: usize, open: char, close: char) -> (r: Option<usize>)
    requires
        i <= s@.len(),
    ensures
        match r {
            Some(o) => open_before(s@, i as int, 0, open, close) == Some(o as int) && o < i,
            None => open_before(s@, i as int, 0, open, close) is None,
        },
{
    let mut k: usize = i;
    let mut depth: usize = 0;
    while k > 0
        invariant
            k <= i <= s@.len(),
            depth <= i - k,
            open_before(s@, i as int, 0, open, close) == open_before(
                s@,
                k as int,
                depth as nat,
                open,
                close,
            ),
        decreases k,
    {
        let c = s[k - 1];
        if c == open {
            if depth == 0 {
                return Some(k - 1);
            }
            depth -= 1;
        } else if c == close {
            depth += 1;
        }
        k -= 1;
    }
    None
}

fn find_close(s: &[char], i: usize, open: char, close: char) -> (r: Option<usize>)
    requires
        i <= s@.len(),
    ensures
        match r {
            Some(c) => close_after(s@, i as int, 0, open, close) == Some(c as int) && i <= c
                < s@.len(),
            None => close_after(s@, i as int, 0, open, close) is None,
        },
{
    let mut k: usize = i;
    let mut depth: usize = 0;
    while k < s.len()
        invariant
            i <= k <= s@.len(),
            depth <= k - i,
            close_after(s@, i as int, 0, open, close) == close_after(
                s@,
                k as int,
                depth as nat,
                open,
                close,
            ),
        decreases s@.len() - k,
    {
        let c = s[k];
        if c == close {
            if depth == 0 {
                return Some(k);
            }
            depth -= 1;
        } else if c == open {
            depth += 1;
        }
        k += 1;
    }
    None
}

fn find_pair(s: &[char], from: usize, to: usize, open: char, close: char) -> (r: Option<
    (usize, usize),
>)
    requires
        from <= s@.len(),
    ensures
        match r {
            Some((o, c)) => pair_around(s@, from as int, to as int, open, close) == Some(
                (o as int, c as int),
            ) && o < c < s@.len() && o < from && c >= to,
            None => pair_around(s@, from as int, to as int, open, close) is None,
        },
{
    let mut i: usize = from;
    loop
        invariant
            i <= from <= s@.len(),
            pair_around(s@, from as int, to as int, open, close) == pair_around(
                s@,
                i as int,
                to as int,
                open,
                close,
            ),
        decreases i,
    {
        match find_open(s, i, open, close) {
            None => {
                return None;
            },
            Some(o) => {
                if let Some(c) = find_close(s, o + 1, open, close) {
                    if c >= to {
                        return Some((o, c));
                    }
                }
                i = o;
            },
        }
    }
}

/// The pair of brackets around a selection, as the places of the two.
pub fn bracket_pair(s: &[char], from: usize, to: usize, open: char, close: char) -> (r: Option<
    (usize, usize),
>)
    requires
        from <= to <= s@.len(),
    ensures
        match r {
            Some((o, c)) => brackets_around(s@, from as int, to as int, open, close) == Some(
                (o as int, c as int),
            ) && o < c < s@.len(),
            None => brackets_around(s@, from as int, to as int, open, close) is None,
        },
{
    if from == to && from < s.len() && s[from] == open {
        find_pair(s, from + 1, to, open, close)
    } else {
        find_pair(s, from, to, open, close)
    }
}

/// The bracket that the one at a place matches.
pub open spec fn matching_bracket(s: Seq<char>, at: int) -> Option<int> {
    if at < 0 || at >= s.len() {
        None
    } else if s[at] == '(' {
        close_after(s, at + 1, 0, '(', ')')
    } else if s[at] == '[' {
        close_after(s, at + 1, 0, '[', ']')
    } else if s[at] == '{' {
        close_after(s, at + 1, 0, '{', '}')
    } else if s[at] == ')' {
        open_before(s, at, 0, '(', ')')
    } else if s[at] == ']' {
        open_before(s, at, 0, '[', ']')
    } else if s[at] == '}' {
        open_before(s, at, 0, '{', '}')
    } else {
        None
    }
}

/// The bracket that the one at a place matches.
pub fn find_matching(s: &[char], at: usize) -> (r: Option<usize>)
    ensures
        match r {
            Some(m) => matching_bracket(s@, at as int) == Some(m as int) && m < s@.len(),
            None => matching_bracket(s@, at as int) is None,
        },
{
    if at >= s.len() {
        return None;
    }
    let c = s[at];
    if c == '(' {
        find_close(s, at + 1, '(', ')')
    } else if c == '[' {
        find_close(s, at + 1, '[', ']')
    } else if c == '{' {
        find_close(s, at + 1, '{', '}')
    } else if c == ')' {
        find_open(s, at, '(', ')')
    } else if c == ']' {
        find_open(s, at, '[', ']')
    } else if c == '}' {
        find_open(s, at, '{', '}')
    } else {
        None
    }
}

// ---- quotes -----------------------------------------------------------------

/// The first quote from place `i` on, on this line.
pub open spec fn quote_after(s: Seq<char>, i: int, quote: char) -> Option<int>
    decreases s.len() - i,
{
    if i < 0 || i >= s.len() || is_break(s[i]) {
        None
    } else if s[i] == '\\' {
        if i + 1 < s.len() {
            quote_after(s, i + 2, quote)
        } else {
            None
        }
    } else if s[i] == quote {
        Some(i)
    } else {
        quote_after(s, i + 1, quote)
    }
}

/// The first pair of quotes from place `i` on that closes at or after `to`;
/// the quotes of a line are taken in pairs, from its start.
pub open spec fn quotes_from(s: Seq<char>, i: int, to: int, quote: char) -> Option<(int, int)>
    decreases s.len() - i,
{
    match quote_after(s, i, quote) {
        None => None,
        Some(o) => match quote_after(s, o + 1, quote) {
            None => None,
            Some(c) => if o < i || c < o || c >= s.len() {
                None
            } else if c >= to {
                Some((o, c))
            } else {
                quotes_from(s, c + 1, to, quote)
            },
        },
    }
}

/// Where the line of a place starts.
pub open spec fn line_begin(s: Seq<char>, i: int) -> int
    decreases i,
{
    if i <= 0 || i > s.len() || is_break(s[i - 1]) {
        i
    } else {
        line_begin(s, i - 1)
    }
}

/// The quotes of its line that close at or after a selection's end: those
/// around it, or the next along the line.
pub open spec fn quotes_near(s: Seq<char>, from: int, to: int, quote: char) -> Option<(int, int)> {
    quotes_from(s, line_begin(s, from), to, quote)
}

/// The quotes around a selection.
pub open spec fn quotes_around(s: Seq<char>, from: int, to: int, quote: char) -> Option<(int, int)> {
    match quotes_near(s, from, to, quote) {
        Some((o, c)) => if o <= from {
            Some((o, c))
        } else {
            None
        },
        None => None,
    }
}

fn find_quote(s: &[char], i: usize, quote: char) -> (r: Option<usize>)
    ensures
        match r {
            Some(k) => quote_after(s@, i as int, quote) == Some(k as int) && i <= k < s@.len(),
            None => quote_after(s@, i as int, quote) is None,
        },
{
    let mut k: usize = i;
    while k < s.len() && !crate::text::char_is_break(s[k])
        invariant
            i <= k,
            quote_after(s@, i as int, quote) == quote_after(s@, k as int, quote),
        decreases s@.len() - k,
    {
        if s[k] == '\\' {
            if s.len() - k < 2 {
                return None;
            }
            k += 2;
        } else if s[k] == quote {
            return Some(k);
        } else {
            k += 1;
        }
    }
    None
}

/// The quotes of its line that close at or after a selection's end.
pub fn quote_pair(s: &[char], from: usize, to: usize, quote: char) -> (r: Option<(usize, usize)>)
    requires
        from <= to <= s@.len(),
    ensures
        match r {
            Some((o, c)) => quotes_near(s@, from as int, to as int, quote) == Some(
                (o as int, c as int),
            ) && o < c < s@.len(),
            None => quotes_near(s@, from as int, to as int, quote) is None,
        },
{
    let mut b: usize = from;
    while b > 0 && !crate::text::char_is_break(s[b - 1])
        invariant
            b <= from <= s@.len(),
            line_begin(s@, from as int) == line_begin(s@, b as int),
        decreases b,
    {
        b -= 1;
    }
    let mut i: usize = b;
    while i < s.len()
        invariant
            quotes_near(s@, from as int, to as int, quote) == quotes_from(
                s@,
                i as int,
                to as int,
                quote,
            ),
        decreases s@.len() - i,
    {
        match find_quote(s, i, quote) {
            None => {
                return None;
            },
            Some(o) => match find_quote(s, o + 1, quote) {
                None => {
                    return None;
                },
                Some(c) => {
                    if c >= to {
                        return Some((o, c));
                    }
                    i = c + 1;
                },
            },
        }
    }
    None
}

/// The quotes around a selection, never the next along the line.
pub fn quote_pair_enclosing(s: &[char], from: usize, to: usize, quote: char) -> (r: Option<
    (usize, usize),
>)
    requires
        from <= to <= s@.len(),
    ensures
        match r {
            Some((o, c)) => quotes_around(s@, from as int, to as int, quote) == Some(
                (o as int, c as int),
            ) && o < c < s@.len(),
            None => quotes_around(s@, from as int, to as int, quote) is None,
        },
{
    match quote_pair(s, from, to, quote) {
        Some((o, c)) => if o <= from {
            Some((o, c))
        } else {
            None
        },
        None => None,
    }
}

// ---- words ------------------------------------------------------------------

/// Whether a character belongs to the stretch that the object takes: a word is
/// of one class, a WORD of anything but white space.
pub open spec fn in_word(c: char, like: char, big: bool) -> bool {
    if big {
        class_of(c) != CharClass::Whitespace && class_of(like) != CharClass::Whitespace
    } else {
        class_of(c) == class_of(like) && !is_break(c)
    }
}

pub open spec fn word_from(s: Seq<char>, i: int, like: char, big: bool) -> int
    decreases i,
{
    if i <= 0 || i > s.len() || !in_word(s[i - 1], like, big) {
        i
    } else {
        word_from(s, i - 1, like, big)
    }
}

pub open spec fn word_to(s: Seq<char>, i: int, like: char, big: bool) -> int
    decreases s.len() - i,
{
    if i < 0 || i >= s.len() || !in_word(s[i], like, big) {
        i
    } else {
        word_to(s, i + 1, like, big)
    }
}

pub open spec fn spaces_to(s: Seq<char>, i: int) -> int
    decreases s.len() - i,
{
    if i < 0 || i >= s.len() || class_of(s[i]) != CharClass::Whitespace || is_break(s[i]) {
        i
    } else {
        spaces_to(s, i + 1)
    }
}

/// The word at a place, and around it the spaces that follow.
pub open spec fn word_around(s: Seq<char>, at: int, big: bool, inside: bool) -> Option<(int, int)> {
    if at < 0 || at >= s.len() || is_break(s[at]) || !in_word(s[at], s[at], big) {
        None
    } else {
        let to = word_to(s, at, s[at], big);
        Some(
            (
                word_from(s, at, s[at], big),
                if inside {
                    to
                } else {
                    spaces_to(s, to)
                },
            ),
        )
    }
}

fn is_in_word(c: char, like: char, big: bool) -> (r: bool)
    ensures
        r == in_word(c, like, big),
{
    if big {
        classify(c) != CharClass::Whitespace && classify(like) != CharClass::Whitespace
    } else {
        classify(c) == classify(like) && !crate::text::char_is_break(c)
    }
}

fn word_at(s: &[char], at: usize, big: bool, inside: bool) -> (r: Option<(usize, usize)>)
    ensures
        match r {
            Some((a, b)) => word_around(s@, at as int, big, inside) == Some((a as int, b as int))
                && a <= b <= s@.len(),
            None => word_around(s@, at as int, big, inside) is None,
        },
{
    if at >= s.len() || crate::text::char_is_break(s[at]) || !is_in_word(s[at], s[at], big) {
        return None;
    }
    let like = s[at];
    let mut a: usize = at;
    while a > 0 && is_in_word(s[a - 1], like, big)
        invariant
            a <= at < s@.len(),
            word_from(s@, at as int, like, big) == word_from(s@, a as int, like, big),
        decreases a,
    {
        a -= 1;
    }
    let mut b: usize = at;
    while b < s.len() && is_in_word(s[b], like, big)
        invariant
            at <= b <= s@.len(),
            word_to(s@, at as int, like, big) == word_to(s@, b as int, like, big),
        decreases s@.len() - b,
    {
        b += 1;
    }
    if inside {
        return Some((a, b));
    }
    let mut e: usize = b;
    while e < s.len() && classify(s[e]) == CharClass::Whitespace && !crate::text::char_is_break(s[e])
        invariant
            b <= e <= s@.len(),
            spaces_to(s@, b as int) == spaces_to(s@, e as int),
        decreases s@.len() - e,
    {
        e += 1;
    }
    Some((a, e))
}

// ---- the object a character names -------------------------------------------

/// What lies between a pair, or the pair with it.
pub open spec fn pair_range(p: (int, int), inside: bool) -> (int, int) {
    if inside {
        (p.0 + 1, p.1)
    } else {
        (p.0, p.1 + 1)
    }
}

// ---- paragraphs -------------------------------------------------------------------

/// Where the line of `i` begins.
pub open spec fn begins_at(s: Seq<char>, i: int) -> int
    decreases i,
{
    if i <= 0 || i > s.len() || s[i - 1] == '\n' {
        i
    } else {
        begins_at(s, i - 1)
    }
}

/// Where the line after that of `i` begins, or the end of the text.
pub open spec fn next_begins(s: Seq<char>, i: int) -> int
    decreases s.len() - i,
{
    if i < 0 || i >= s.len() {
        i
    } else if s[i] == '\n' {
        i + 1
    } else {
        next_begins(s, i + 1)
    }
}

/// Whether nothing but white space stands from `i` to the end of its line.
pub open spec fn white_line(s: Seq<char>, i: int) -> bool
    decreases s.len() - i,
{
    if i < 0 || i >= s.len() || s[i] == '\n' {
        true
    } else {
        is_white(s[i]) && white_line(s, i + 1)
    }
}

/// Where the paragraph begins that the line at `i` belongs to.
pub open spec fn paragraph_begins(s: Seq<char>, i: int) -> int
    decreases i,
{
    let above = begins_at(s, i - 1);
    if i <= 0 || i > s.len() || above >= i || above < 0 || white_line(s, above) {
        i
    } else {
        paragraph_begins(s, above)
    }
}

/// Where the paragraph ends that the line at `i` belongs to.
pub open spec fn paragraph_ends(s: Seq<char>, i: int) -> int
    decreases s.len() - i,
{
    let below = next_begins(s, i);
    if i < 0 || i >= s.len() || below <= i {
        i
    } else if below >= s.len() || white_line(s, below) {
        below
    } else {
        paragraph_ends(s, below)
    }
}

/// Where the blank lines from `i` on end.
pub open spec fn white_ends(s: Seq<char>, i: int) -> int
    decreases s.len() - i,
{
    let below = next_begins(s, i);
    if i < 0 || i >= s.len() || below <= i || below > s.len() || !white_line(s, i) {
        i
    } else {
        white_ends(s, below)
    }
}

/// The paragraph around a place; with the blank lines below it where those
/// are not left out. A blank line belongs to none.
pub open spec fn paragraph_around(s: Seq<char>, at: int, inside: bool) -> Option<(int, int)> {
    let line = begins_at(s, at);
    if white_line(s, line) {
        None
    } else {
        let end = paragraph_ends(s, line);
        Some(
            (
                paragraph_begins(s, line),
                if inside {
                    end
                } else {
                    white_ends(s, end)
                },
            ),
        )
    }
}

fn find_begin(s: &[char], at: usize) -> (r: usize)
    requires
        at <= s@.len(),
    ensures
        r == begins_at(s@, at as int),
        r <= at,
{
    let mut i: usize = at;
    while i > 0 && s[i - 1] != '\n'
        invariant
            i <= at <= s@.len(),
            begins_at(s@, at as int) == begins_at(s@, i as int),
        decreases i,
    {
        i -= 1;
    }
    i
}

fn find_next_line(s: &[char], at: usize) -> (r: usize)
    requires
        at <= s@.len(),
    ensures
        r == next_begins(s@, at as int),
        at <= r <= s@.len(),
        at < s@.len() ==> at < r,
{
    let mut i: usize = at;
    while i < s.len()
        invariant
            at <= i <= s@.len(),
            next_begins(s@, at as int) == next_begins(s@, i as int),
        decreases s@.len() - i,
    {
        if s[i] == '\n' {
            return i + 1;
        }
        i += 1;
    }
    i
}

fn is_white_line(s: &[char], at: usize) -> (r: bool)
    requires
        at <= s@.len(),
    ensures
        r == white_line(s@, at as int),
{
    let mut i: usize = at;
    while i < s.len() && s[i] != '\n'
        invariant
            at <= i <= s@.len(),
            white_line(s@, at as int) == white_line(s@, i as int),
        decreases s@.len() - i,
    {
        if !char_is_white(s[i]) {
            return false;
        }
        i += 1;
    }
    true
}

fn find_paragraph_begin(s: &[char], line: usize) -> (r: usize)
    requires
        line <= s@.len(),
    ensures
        r == paragraph_begins(s@, line as int),
        r <= line,
{
    let mut i: usize = line;
    while i > 0
        invariant
            i <= line <= s@.len(),
            paragraph_begins(s@, line as int) == paragraph_begins(s@, i as int),
        decreases i,
    {
        let above = find_begin(s, i - 1);
        if is_white_line(s, above) {
            return i;
        }
        i = above;
    }
    i
}

fn find_paragraph_end(s: &[char], line: usize) -> (r: usize)
    requires
        line <= s@.len(),
    ensures
        r == paragraph_ends(s@, line as int),
        line <= r <= s@.len(),
{
    let mut i: usize = line;
    while i < s.len()
        invariant
            line <= i <= s@.len(),
            paragraph_ends(s@, line as int) == paragraph_ends(s@, i as int),
        decreases s@.len() - i,
    {
        let below = find_next_line(s, i);
        if below >= s.len() || is_white_line(s, below) {
            return below;
        }
        i = below;
    }
    i
}

fn find_white_end(s: &[char], from: usize) -> (r: usize)
    requires
        from <= s@.len(),
    ensures
        r == white_ends(s@, from as int),
        from <= r <= s@.len(),
{
    let mut i: usize = from;
    while i < s.len()
        invariant
            from <= i <= s@.len(),
            white_ends(s@, from as int) == white_ends(s@, i as int),
        decreases s@.len() - i,
    {
        if !is_white_line(s, i) {
            return i;
        }
        i = find_next_line(s, i);
    }
    i
}

/// The paragraph around a place, as (start, end).
pub fn paragraph(s: &[char], at: usize, inside: bool) -> (r: Option<(usize, usize)>)
    requires
        at <= s@.len(),
    ensures
        match r {
            Some((a, b)) => paragraph_around(s@, at as int, inside) == Some((a as int, b as int))
                && a <= b <= s@.len(),
            None => paragraph_around(s@, at as int, inside) is None,
        },
{
    let line = find_begin(s, at);
    if is_white_line(s, line) {
        return None;
    }
    let from = find_paragraph_begin(s, line);
    let end = find_paragraph_end(s, line);
    Some(
        (
            from,
            if inside {
                end
            } else {
                find_white_end(s, end)
            },
        ),
    )
}

// ---- any object --------------------------------------------------------------------

/// The object around a selection. One that is selected already grows to the
/// one enclosing it.
pub open spec fn object_of(s: Seq<char>, from: int, to: int, c: char, inside: bool) -> Option<
    (int, int),
> {
    match pair_of(c) {
        Some((open, close)) => if open == close {
            match quotes_near(s, from, to, open) {
                Some(p) => Some(pair_range(p, inside)),
                None => None,
            }
        } else {
            match brackets_around(s, from, to, open, close) {
                Some(p) => if pair_range(p, inside) == (from, to) {
                    match pair_around(s, p.0, p.1 + 1, open, close) {
                        Some(q) => Some(pair_range(q, inside)),
                        None => None,
                    }
                } else {
                    Some(pair_range(p, inside))
                },
                None => None,
            }
        },
        None => if c == 'w' {
            word_around(s, from, false, inside)
        } else if c == 'W' {
            word_around(s, from, true, inside)
        } else if c == 'p' {
            paragraph_around(s, from, inside)
        } else {
            None
        },
    }
}

/// The object around a selection, as (start, end).
pub fn find(s: &[char], from: usize, to: usize, c: char, inside: bool) -> (r: Option<(usize, usize)>)
    requires
        from <= to <= s@.len(),
    ensures
        match r {
            Some((a, b)) => object_of(s@, from as int, to as int, c, inside) == Some(
                (a as int, b as int),
            ) && a <= b <= s@.len(),
            None => object_of(s@, from as int, to as int, c, inside) is None,
        },
{
    let len: usize = s.len();
    match pair_for(c) {
        Some((open, close)) => {
            if open == close {
                return match quote_pair(s, from, to, open) {
                    Some((o, e)) => Some(
                        if inside {
                            (o + 1, e)
                        } else {
                            (o, e + 1)
                        },
                    ),
                    None => None,
                };
            }
            match bracket_pair(s, from, to, open, close) {
                Some((o, e)) => {
                    let r: (usize, usize) = if inside {
                        (o + 1, e)
                    } else {
                        (o, e + 1)
                    };
                    if r.0 == from && r.1 == to {
                        match find_pair(s, o, e + 1, open, close) {
                            Some((x, y)) => Some(
                                if inside {
                                    (x + 1, y)
                                } else {
                                    (x, y + 1)
                                },
                            ),
                            None => None,
                        }
                    } else {
                        Some(r)
                    }
                },
                None => None,
            }
        },
        None => if c == 'w' {
            word_at(s, from, false, inside)
        } else if c == 'W' {
            word_at(s, from, true, inside)
        } else if c == 'p' {
            paragraph(s, from, inside)
        } else {
            None
        },
    }
}

/// Matching is mutual: the bracket that one matches matches that one.
pub proof fn law_brackets_match_each_other(s: Seq<char>, at: int)
    requires
        matching_bracket(s, at) is Some,
    ensures
        matching_bracket(s, matching_bracket(s, at)->0) == Some(at),
{
    let m = matching_bracket(s, at)->0;
    if s[at] == '(' {
        lemma_close_then_open(s, at, at + 1, 0, '(', ')');
    } else if s[at] == '[' {
        lemma_close_then_open(s, at, at + 1, 0, '[', ']');
    } else if s[at] == '{' {
        lemma_close_then_open(s, at, at + 1, 0, '{', '}');
    } else if s[at] == ')' {
        lemma_open_then_close(s, at, at, 0, '(', ')');
    } else if s[at] == ']' {
        lemma_open_then_close(s, at, at, 0, '[', ']');
    } else if s[at] == '}' {
        lemma_open_then_close(s, at, at, 0, '{', '}');
    }
}

proof fn lemma_close_then_open(s: Seq<char>, at: int, i: int, depth: nat, open: char, close: char)
    requires
        open != close,
        0 <= at < i <= s.len(),
        close_after(s, i, depth, open, close) is Some,
        open_before(s, i, depth, open, close) == Some(at),
    ensures
        i <= close_after(s, i, depth, open, close)->0 < s.len(),
        s[close_after(s, i, depth, open, close)->0] == close,
        open_before(s, close_after(s, i, depth, open, close)->0, 0, open, close) == Some(at),
    decreases s.len() - i,
{
    if s[i] == close {
        if depth > 0 {
            lemma_close_then_open(s, at, i + 1, (depth - 1) as nat, open, close);
        }
    } else if s[i] == open {
        lemma_close_then_open(s, at, i + 1, depth + 1, open, close);
    } else {
        lemma_close_then_open(s, at, i + 1, depth, open, close);
    }
}

proof fn lemma_open_then_close(s: Seq<char>, at: int, i: int, depth: nat, open: char, close: char)
    requires
        open != close,
        0 <= i <= at < s.len(),
        open_before(s, i, depth, open, close) is Some,
        close_after(s, i, depth, open, close) == Some(at),
    ensures
        0 <= open_before(s, i, depth, open, close)->0 < i,
        s[open_before(s, i, depth, open, close)->0] == open,
        close_after(s, open_before(s, i, depth, open, close)->0 + 1, 0, open, close) == Some(at),
    decreases i,
{
    if s[i - 1] == open {
        if depth > 0 {
            lemma_open_then_close(s, at, i - 1, (depth - 1) as nat, open, close);
        }
    } else if s[i - 1] == close {
        lemma_open_then_close(s, at, i - 1, depth + 1, open, close);
    } else {
        lemma_open_then_close(s, at, i - 1, depth, open, close);
    }
}

} // verus!
