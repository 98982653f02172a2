//! Strings as sequences of characters: searching, trimming, splitting and
//! numbers, each stated over `Seq<char>`.

use vstd::prelude::*;
use vstd::slice::slice_subrange;

verus! {

/// `String::push`: puts one character at the end of the string.
pub assume_specification[ String::push ](s: &mut String, c: char)
    ensures
        final(s)@ == old(s)@.push(c),
;

/// Whether std's `char::is_alphanumeric` holds of a character: Unicode's
/// letters and numbers.
pub uninterp spec fn alphanumeric(c: char) -> bool;

/// `char::is_alphanumeric`; which characters these are is not said here.
#[verifier::external_body]
pub(crate) fn char_is_alphanumeric(c: char) -> (r: bool)
    ensures
        r == alphanumeric(c),
{
    c.is_alphanumeric()
}

/// What std's `str::to_lowercase` makes of a string.
pub uninterp spec fn lowercase(s: Seq<char>) -> Seq<char>;

/// `str::to_lowercase`: the lower case of a string by Unicode's tables, which
/// are not stated here.
pub assume_specification[ str::to_lowercase ](s: &str) -> (r: String)
    ensures
        r@ == lowercase(s@),
;

/// How std's `Debug` writes a string: between quotes, with escapes.
pub uninterp spec fn debug_text(s: Seq<char>) -> Seq<char>;

/// `str` written by its `Debug` impl; which characters are escaped is not
/// said here.
#[verifier::external_body]
pub(crate) fn quote_text(s: &str) -> (r: String)
    ensures
        r@ == debug_text(s@),
{
    format!("{s:?}")
}

/// How std's `Debug` writes a character: between quotes, with escapes.
pub uninterp spec fn debug_char(c: char) -> Seq<char>;

/// `char` written by its `Debug` impl; which characters are escaped is not
/// said here.
#[verifier::external_body]
pub(crate) fn quote_char(c: char) -> (r: String)
    ensures
        r@ == debug_char(c),
{
    format!("{c:?}")
}

// ---- characters -------------------------------------------------------------

/// The characters of Unicode's `White_Space` property.
pub open spec fn is_white(c: char) -> bool {
    ||| 0x9 <= c as u32 <= 0xd
    ||| c as u32 == 0x20
    ||| c as u32 == 0x85
    ||| c as u32 == 0xa0
    ||| c as u32 == 0x1680
    ||| 0x2000 <= c as u32 <= 0x200a
    ||| c as u32 == 0x2028
    ||| c as u32 == 0x2029
    ||| c as u32 == 0x202f
    ||| c as u32 == 0x205f
    ||| c as u32 == 0x3000
}

pub fn char_is_white(c: char) -> (r: bool)
    ensures
        r == is_white(c),
{
    let n: u32 = c as u32;
    (0x9 <= n && n <= 0xd) || n == 0x20 || n == 0x85 || n == 0xa0 || n == 0x1680 || (0x2000 <= n
        && n <= 0x200a) || n == 0x2028 || n == 0x2029 || n == 0x202f || n == 0x205f || n == 0x3000
}

pub open spec fn is_digit(c: char) -> bool {
    '0' <= c <= '9'
}

pub open spec fn digit_value(c: char) -> nat {
    (c as u32 - 48) as nat
}

pub fn char_is_digit(c: char) -> (r: bool)
    ensures
        r == is_digit(c),
{
    '0' <= c && c <= '9'
}

/// ASCII capitals become small letters; every other character stays.
pub open spec fn ascii_lower(c: char) -> char {
    if 'A' <= c <= 'Z' {
        ((c as u32 + 32) as u32) as char
    } else {
        c
    }
}

pub fn char_ascii_lower(c: char) -> (r: char)
    ensures
        r == ascii_lower(c),
{
    if 'A' <= c && c <= 'Z' {
        let n: u32 = c as u32;
        let m: u8 = (n + 32) as u8;
        m as char
    } else {
        c
    }
}

pub open spec fn ascii_lower_all(s: Seq<char>) -> Seq<char> {
    Seq::new(s.len(), |i: int| ascii_lower(s[i]))
}

// ---- moving between strings and character slices ----------------------------

/// The characters of a string, one by one.
pub fn chars_of(s: &str) -> (out: Vec<char>)
    ensures
        out@ == s@,
{
    let mut out: Vec<char> = Vec::new();
    for c in it: s.chars()
        invariant
            it.seq() == s@,
            out@ == it.seq().take(it.index()),
    {
        out.push(c);
    }
    out
}

/// The string made of these characters.
pub fn string_of(v: &[char]) -> (out: String)
    ensures
        out@ == v@,
{
    let mut out = String::new();
    let mut i: usize = 0;
    while i < v.len()
        invariant
            i <= v@.len(),
            out@ == v@.take(i as int),
        decreases v@.len() - i,
    {
        out.push(v[i]);
        i += 1;
    }
    assert(v@.take(i as int) =~= v@);
    out
}

/// Whether two strings hold the same characters.
pub fn same(a: &str, b: &str) -> (r: bool)
    ensures
        r == (a@ == b@),
{
    a.to_owned() == b.to_owned()
}

/// Whether two slices hold the same characters.
pub fn same_chars(a: &[char], b: &[char]) -> (r: bool)
    ensures
        r == (a@ == b@),
{
    if a.len() != b.len() {
        return false;
    }
    let mut i: usize = 0;
    while i < a.len()
        invariant
            i <= a@.len(),
            a@.len() == b@.len(),
            forall|k: int| 0 <= k < i ==> a@[k] == b@[k],
        decreases a@.len() - i,
    {
        if a[i] != b[i] {
            assert(a@[i as int] != b@[i as int]);
            return false;
        }
        i += 1;
    }
    assert(a@ =~= b@);
    true
}

/// Whether a slice spells `lit`.
pub fn spells(s: &[char], lit: &str) -> (r: bool)
    ensures
        r == (s@ == lit@),
{
    let l = chars_of(lit);
    same_chars(s, l.as_slice())
}

/// A copy of a slice.
/// A string of one character.
pub fn char_string(c: char) -> (r: String)
    ensures
        r@ == seq![c],
{
    let mut r = String::new();
    r.push(c);
    assert(r@ =~= seq![c]);
    r
}

pub fn copy_chars(s: &[char]) -> (out: Vec<char>)
    ensures
        out@ == s@,
{
    vstd::slice::slice_to_vec(s)
}

pub fn push_all(out: &mut Vec<char>, s: &[char])
    ensures
        final(out)@ == old(out)@ + s@,
{
    let ghost start = out@;
    let mut i: usize = 0;
    while i < s.len()
        invariant
            i <= s@.len(),
            out@ =~= start + s@.take(i as int),
        decreases s@.len() - i,
    {
        out.push(s[i]);
        i += 1;
    }
    assert(s@.take(i as int) =~= s@);
}

pub fn push_lit(out: &mut Vec<char>, lit: &str)
    ensures
        final(out)@ == old(out)@ + lit@,
{
    let l = chars_of(lit);
    push_all(out, l.as_slice());
}

/// A text behind a literal.
pub fn with_text(lit: &str, s: &str) -> (r: String)
    ensures
        r@ == lit@ + s@,
{
    let mut v: Vec<char> = Vec::new();
    push_lit(&mut v, lit);
    push_lit(&mut v, s);
    assert(v@ =~= lit@ + s@);
    string_of(&v)
}

/// A text between two literals.
pub fn text_between(a: &str, s: &str, b: &str) -> (r: String)
    ensures
        r@ == a@ + s@ + b@,
{
    let mut v: Vec<char> = Vec::new();
    push_lit(&mut v, a);
    push_lit(&mut v, s);
    push_lit(&mut v, b);
    assert(v@ =~= a@ + s@ + b@);
    string_of(&v)
}

pub fn lower_chars(s: &[char]) -> (out: Vec<char>)
    ensures
        out@ == ascii_lower_all(s@),
{
    let mut out: Vec<char> = Vec::new();
    let mut i: usize = 0;
    while i < s.len()
        invariant
            i <= s@.len(),
            out@ =~= ascii_lower_all(s@).take(i as int),
        decreases s@.len() - i,
    {
        out.push(char_ascii_lower(s[i]));
        i += 1;
    }
    assert(ascii_lower_all(s@).take(i as int) =~= ascii_lower_all(s@));
    out
}

/// What the strings of a list hold.
pub open spec fn texts(v: Seq<String>) -> Seq<Seq<char>> {
    Seq::new(v.len(), |i: int| v[i]@)
}

/// What the slices of a list hold.
pub open spec fn slices(v: Seq<&[char]>) -> Seq<Seq<char>> {
    Seq::new(v.len(), |i: int| v[i]@)
}

/// What the pairs of strings of a list hold.
pub open spec fn text_pairs(v: Seq<(String, String)>) -> Seq<(Seq<char>, Seq<char>)> {
    Seq::new(v.len(), |i: int| (v[i].0@, v[i].1@))
}

/// The text of an optional string.
pub open spec fn opt_text(o: Option<String>) -> Option<Seq<char>> {
    match o {
        Some(s) => Some(s@),
        None => None,
    }
}

pub open spec fn opt_str(o: Option<&str>) -> Option<Seq<char>> {
    match o {
        Some(s) => Some(s@),
        None => None,
    }
}

// ---- searching --------------------------------------------------------------

/// The first place at or after `i` that holds `c`; the length where none does.
pub open spec fn first_from(s: Seq<char>, c: char, i: int) -> int
    decreases s.len() - i,
{
    if i < 0 || i >= s.len() {
        s.len() as int
    } else if s[i] == c {
        i
    } else {
        first_from(s, c, i + 1)
    }
}

pub proof fn lemma_first_from(s: Seq<char>, c: char, i: int)
    requires
        0 <= i <= s.len(),
    ensures
        i <= first_from(s, c, i) <= s.len(),
        first_from(s, c, i) < s.len() ==> s[first_from(s, c, i)] == c,
        forall|k: int| i <= k < first_from(s, c, i) ==> s[k] != c,
    decreases s.len() - i,
{
    if i < s.len() && s[i] != c {
        lemma_first_from(s, c, i + 1);
    }
}

pub fn find_from(s: &[char], c: char, i: usize) -> (r: usize)
    requires
        i <= s@.len(),
    ensures
        r == first_from(s@, c, i as int),
        i <= r <= s@.len(),
        r < s@.len() ==> s@[r as int] == c,
{
    let mut k: usize = i;
    while k < s.len() && s[k] != c
        invariant
            i <= k <= s@.len(),
            first_from(s@, c, i as int) == first_from(s@, c, k as int),
        decreases s@.len() - k,
    {
        k += 1;
    }
    k
}

/// The last place before `i` that holds `c`, or -1.
pub open spec fn last_before(s: Seq<char>, c: char, i: int) -> int
    decreases i,
{
    if i <= 0 || i > s.len() {
        -1
    } else if s[i - 1] == c {
        i - 1
    } else {
        last_before(s, c, i - 1)
    }
}

pub fn find_last(s: &[char], c: char) -> (r: Option<usize>)
    ensures
        match r {
            Some(k) => k == last_before(s@, c, s@.len() as int) && k < s@.len() && s@[k as int] == c,
            None => last_before(s@, c, s@.len() as int) == -1,
        },
{
    let mut k: usize = s.len();
    while k > 0
        invariant
            k <= s@.len(),
            last_before(s@, c, s@.len() as int) == last_before(s@, c, k as int),
        decreases k,
    {
        if s[k - 1] == c {
            return Some(k - 1);
        }
        k -= 1;
    }
    None
}

/// Whether `p` stands in `s` at `i`.
pub open spec fn stands_at(s: Seq<char>, p: Seq<char>, i: int) -> bool {
    0 <= i && i + p.len() <= s.len() && s.subrange(i, i + p.len()) == p
}

/// The first place at or after `i` where `p` stands, or -1.
pub open spec fn find_sub_from(s: Seq<char>, p: Seq<char>, i: int) -> int
    decreases s.len() - i,
{
    if i < 0 || i > s.len() {
        -1
    } else if stands_at(s, p, i) {
        i
    } else if i == s.len() {
        -1
    } else {
        find_sub_from(s, p, i + 1)
    }
}

pub fn is_at(s: &[char], p: &[char], i: usize) -> (r: bool)
    requires
        i <= s@.len(),
    ensures
        r == stands_at(s@, p@, i as int),
{
    if s.len() - i < p.len() {
        return false;
    }
    let part = slice_subrange(s, i, i + p.len());
    same_chars(part, p)
}

pub fn find_sub(s: &[char], p: &[char], i: usize) -> (r: Option<usize>)
    requires
        i <= s@.len(),
    ensures
        match r {
            Some(k) => k == find_sub_from(s@, p@, i as int) && stands_at(s@, p@, k as int) && k >= i,
            None => find_sub_from(s@, p@, i as int) == -1,
        },
{
    let mut k: usize = i;
    while k < s.len()
        invariant
            i <= k <= s@.len(),
            find_sub_from(s@, p@, i as int) == find_sub_from(s@, p@, k as int),
        decreases s@.len() - k,
    {
        if is_at(s, p, k) {
            return Some(k);
        }
        k += 1;
    }
    if is_at(s, p, k) {
        Some(k)
    } else {
        None
    }
}

pub open spec fn starts_with(s: Seq<char>, p: Seq<char>) -> bool {
    stands_at(s, p, 0)
}

pub open spec fn ends_with(s: Seq<char>, p: Seq<char>) -> bool {
    stands_at(s, p, s.len() - p.len())
}

pub fn has_prefix(s: &[char], lit: &str) -> (r: bool)
    ensures
        r == starts_with(s@, lit@),
        r ==> lit@.len() <= s@.len(),
{
    let l = chars_of(lit);
    is_at(s, l.as_slice(), 0)
}

pub fn has_suffix(s: &[char], lit: &str) -> (r: bool)
    ensures
        r == ends_with(s@, lit@),
        r ==> lit@.len() <= s@.len(),
{
    let l = chars_of(lit);
    if l.len() > s.len() {
        return false;
    }
    is_at(s, l.as_slice(), s.len() - l.len())
}

/// What is left of `s` after the prefix `p`, where it has it.
pub open spec fn without_prefix(s: Seq<char>, p: Seq<char>) -> Option<Seq<char>> {
    if starts_with(s, p) {
        Some(s.skip(p.len() as int))
    } else {
        None
    }
}

pub fn strip_prefix<'a>(s: &'a [char], lit: &str) -> (r: Option<&'a [char]>)
    ensures
        match r {
            Some(x) => without_prefix(s@, lit@) == Some(x@),
            None => without_prefix(s@, lit@) is None,
        },
{
    if has_prefix(s, lit) {
        let l = chars_of(lit);
        Some(slice_subrange(s, l.len(), s.len()))
    } else {
        None
    }
}

pub open spec fn without_suffix(s: Seq<char>, p: Seq<char>) -> Option<Seq<char>> {
    if ends_with(s, p) {
        Some(s.take(s.len() - p.len()))
    } else {
        None
    }
}

pub fn strip_suffix<'a>(s: &'a [char], lit: &str) -> (r: Option<&'a [char]>)
    ensures
        match r {
            Some(x) => without_suffix(s@, lit@) == Some(x@),
            None => without_suffix(s@, lit@) is None,
        },
{
    if has_suffix(s, lit) {
        let l = chars_of(lit);
        Some(slice_subrange(s, 0, s.len() - l.len()))
    } else {
        None
    }
}

/// Whether `c` is among the characters of `s`.
pub fn has_char(s: &[char], c: char) -> (r: bool)
    ensures
        r == s@.contains(c),
{
    let k = find_from(s, c, 0);
    proof {
        lemma_first_from(s@, c, 0);
        if k < s@.len() {
            assert(s@[k as int] == c);
        }
    }
    k < s.len()
}

// ---- trimming ---------------------------------------------------------------

/// The first place at or after `i` that is not white space.
pub open spec fn skip_white(s: Seq<char>, i: int) -> int
    decreases s.len() - i,
{
    if i < 0 || i >= s.len() || !is_white(s[i]) {
        i
    } else {
        skip_white(s, i + 1)
    }
}

/// The place after the last character before `i` that is not white space.
pub open spec fn drop_white(s: Seq<char>, i: int) -> int
    decreases i,
{
    if i <= 0 || i > s.len() || !is_white(s[i - 1]) {
        i
    } else {
        drop_white(s, i - 1)
    }
}

pub open spec fn trim_start(s: Seq<char>) -> Seq<char> {
    s.skip(skip_white(s, 0))
}

pub open spec fn trim_end(s: Seq<char>) -> Seq<char> {
    s.take(drop_white(s, s.len() as int))
}

/// `s` without the white space at its two ends.
pub open spec fn trim(s: Seq<char>) -> Seq<char> {
    trim_end(trim_start(s))
}

pub proof fn lemma_skip_white(s: Seq<char>, i: int)
    requires
        0 <= i <= s.len(),
    ensures
        i <= skip_white(s, i) <= s.len(),
        skip_white(s, i) < s.len() ==> !is_white(s[skip_white(s, i)]),
        forall|k: int| i <= k < skip_white(s, i) ==> is_white(#[trigger] s[k]),
    decreases s.len() - i,
{
    if i < s.len() && is_white(s[i]) {
        lemma_skip_white(s, i + 1);
    }
}

pub fn first_nonwhite(s: &[char], i: usize) -> (r: usize)
    requires
        i <= s@.len(),
    ensures
        r == skip_white(s@, i as int),
        i <= r <= s@.len(),
{
    let mut k: usize = i;
    while k < s.len() && char_is_white(s[k])
        invariant
            i <= k <= s@.len(),
            skip_white(s@, i as int) == skip_white(s@, k as int),
        decreases s@.len() - k,
    {
        k += 1;
    }
    k
}

pub fn trim_left<'a>(s: &'a [char]) -> (r: &'a [char])
    ensures
        r@ == trim_start(s@),
{
    let k = first_nonwhite(s, 0);
    slice_subrange(s, k, s.len())
}

pub fn trim_right<'a>(s: &'a [char]) -> (r: &'a [char])
    ensures
        r@ == trim_end(s@),
{
    let mut k: usize = s.len();
    while k > 0 && char_is_white(s[k - 1])
        invariant
            k <= s@.len(),
            drop_white(s@, s@.len() as int) == drop_white(s@, k as int),
        decreases k,
    {
        k -= 1;
    }
    slice_subrange(s, 0, k)
}

pub fn trimmed<'a>(s: &'a [char]) -> (r: &'a [char])
    ensures
        r@ == trim(s@),
{
    trim_right(trim_left(s))
}

/// The first place at or after `i` that holds neither `a` nor `b`.
pub open spec fn skip_set(s: Seq<char>, a: char, b: char, i: int) -> int
    decreases s.len() - i,
{
    if i < 0 || i >= s.len() || (s[i] != a && s[i] != b) {
        i
    } else {
        skip_set(s, a, b, i + 1)
    }
}

/// The place after the last character before `i` that is neither `a` nor `b`.
pub open spec fn drop_set(s: Seq<char>, a: char, b: char, i: int) -> int
    decreases i,
{
    if i <= 0 || i > s.len() || (s[i - 1] != a && s[i - 1] != b) {
        i
    } else {
        drop_set(s, a, b, i - 1)
    }
}

pub open spec fn trim_start_set(s: Seq<char>, a: char, b: char) -> Seq<char> {
    s.skip(skip_set(s, a, b, 0))
}

pub open spec fn trim_end_set(s: Seq<char>, a: char, b: char) -> Seq<char> {
    s.take(drop_set(s, a, b, s.len() as int))
}

/// `s` without the `a`s and `b`s at its two ends.
pub open spec fn trim_set(s: Seq<char>, a: char, b: char) -> Seq<char> {
    trim_end_set(trim_start_set(s, a, b), a, b)
}

pub fn trim_left_of<'a>(s: &'a [char], a: char, b: char) -> (r: &'a [char])
    ensures
        r@ == trim_start_set(s@, a, b),
{
    let mut k: usize = 0;
    while k < s.len() && (s[k] == a || s[k] == b)
        invariant
            k <= s@.len(),
            skip_set(s@, a, b, 0) == skip_set(s@, a, b, k as int),
        decreases s@.len() - k,
    {
        k += 1;
    }
    slice_subrange(s, k, s.len())
}

pub fn trim_right_of<'a>(s: &'a [char], a: char, b: char) -> (r: &'a [char])
    ensures
        r@ == trim_end_set(s@, a, b),
{
    let mut k: usize = s.len();
    while k > 0 && (s[k - 1] == a || s[k - 1] == b)
        invariant
            k <= s@.len(),
            drop_set(s@, a, b, s@.len() as int) == drop_set(s@, a, b, k as int),
        decreases k,
    {
        k -= 1;
    }
    slice_subrange(s, 0, k)
}

pub fn trimmed_of<'a>(s: &'a [char], a: char, b: char) -> (r: &'a [char])
    ensures
        r@ == trim_set(s@, a, b),
{
    trim_right_of(trim_left_of(s, a, b), a, b)
}

/// What stands before the first `c`; all of `s` where there is none.
pub open spec fn before(s: Seq<char>, c: char) -> Seq<char> {
    s.take(first_from(s, c, 0))
}

pub fn part_before<'a>(s: &'a [char], c: char) -> (r: &'a [char])
    ensures
        r@ == before(s@, c),
{
    let k = find_from(s, c, 0);
    slice_subrange(s, 0, k)
}

/// The two sides of the first `c`.
pub open spec fn split_once(s: Seq<char>, c: char) -> Option<(Seq<char>, Seq<char>)> {
    let k = first_from(s, c, 0);
    if k < s.len() {
        Some((s.take(k), s.skip(k + 1)))
    } else {
        None
    }
}

pub fn split_in_two<'a>(s: &'a [char], c: char) -> (r: Option<(&'a [char], &'a [char])>)
    ensures
        match r {
            Some((x, y)) => split_once(s@, c) == Some((x@, y@)),
            None => split_once(s@, c) is None,
        },
{
    let k = find_from(s, c, 0);
    if k < s.len() {
        Some((slice_subrange(s, 0, k), slice_subrange(s, k + 1, s.len())))
    } else {
        None
    }
}

/// What stands before the first `p`; all of `s` where there is none.
pub open spec fn before_sub(s: Seq<char>, p: Seq<char>) -> Seq<char> {
    let k = find_sub_from(s, p, 0);
    if k < 0 {
        s
    } else {
        s.take(k)
    }
}

pub fn part_before_sub<'a>(s: &'a [char], lit: &str) -> (r: &'a [char])
    ensures
        r@ == before_sub(s@, lit@),
{
    let p = chars_of(lit);
    match find_sub(s, p.as_slice(), 0) {
        Some(k) => slice_subrange(s, 0, k),
        None => s,
    }
}

/// Whether `p` stands anywhere in `s`.
pub open spec fn has_sub(s: Seq<char>, p: Seq<char>) -> bool {
    find_sub_from(s, p, 0) >= 0
}

pub fn holds_sub(s: &[char], lit: &str) -> (r: bool)
    ensures
        r == has_sub(s@, lit@),
{
    let p = chars_of(lit);
    find_sub(s, p.as_slice(), 0).is_some()
}

// ---- splitting --------------------------------------------------------------

/// One line of a text without its end: `\n`, or `\r\n` where it ends in `\n`.
pub open spec fn without_cr(s: Seq<char>) -> Seq<char> {
    if s.len() > 0 && s.last() == '\r' {
        s.drop_last()
    } else {
        s
    }
}

/// The lines of `s` from `i` on: each ends at a `\n`, which, with a `\r`
/// before it, is not part of it. A text that ends in `\n` has no empty last
/// line.
pub open spec fn lines_from(s: Seq<char>, i: int) -> Seq<Seq<char>>
    decreases s.len() - i,
{
    if i < 0 || i >= s.len() {
        Seq::empty()
    } else {
        let e = first_from(s, '\n', i);
        if e >= s.len() || e < i {
            seq![s.skip(i)]
        } else {
            seq![without_cr(s.subrange(i, e))] + lines_from(s, e + 1)
        }
    }
}

pub open spec fn lines(s: Seq<char>) -> Seq<Seq<char>> {
    lines_from(s, 0)
}

pub fn lines_of<'a>(s: &'a [char]) -> (out: Vec<&'a [char]>)
    ensures
        slices(out@) == lines(s@),
{
    let mut out: Vec<&'a [char]> = Vec::new();
    let mut i: usize = 0;
    while i < s.len()
        invariant
            i <= s@.len(),
            slices(out@) + lines_from(s@, i as int) =~= lines(s@),
        decreases s@.len() - i,
    {
        let e = find_from(s, '\n', i);
        let ghost before = out@;
        proof {
            lemma_first_from(s@, '\n', i as int);
        }
        if e >= s.len() {
            let line = slice_subrange(s, i, s.len());
            out.push(line);
            assert(s@.subrange(i as int, s@.len() as int) =~= s@.skip(i as int));
            assert(slices(out@) =~= slices(before) + seq![line@]);
            i = s.len();
        } else {
            let end: usize = if e > i && s[e - 1] == '\r' {
                e - 1
            } else {
                e
            };
            let line = slice_subrange(s, i, end);
            out.push(line);
            assert(line@ =~= without_cr(s@.subrange(i as int, e as int)));
            assert(slices(out@) =~= slices(before) + seq![line@]);
            assert(lines_from(s@, i as int) =~= seq![line@] + lines_from(s@, e + 1));
            i = e + 1;
        }
    }
    out
}

/// The pieces of `s` from `i` on between the places that hold `c`.
pub open spec fn pieces_from(s: Seq<char>, c: char, i: int) -> Seq<Seq<char>>
    decreases s.len() - i,
{
    if i < 0 || i > s.len() {
        Seq::empty()
    } else {
        let e = first_from(s, c, i);
        if e >= s.len() || e < i {
            seq![s.skip(i)]
        } else {
            seq![s.subrange(i, e)] + pieces_from(s, c, e + 1)
        }
    }
}

pub open spec fn pieces(s: Seq<char>, c: char) -> Seq<Seq<char>> {
    pieces_from(s, c, 0)
}

pub fn split_at_char<'a>(s: &'a [char], c: char) -> (out: Vec<&'a [char]>)
    ensures
        slices(out@) == pieces(s@, c),
        out@.len() >= 1,
{
    let mut out: Vec<&'a [char]> = Vec::new();
    let mut i: usize = 0;
    loop
        invariant
            i <= s@.len(),
            slices(out@) + pieces_from(s@, c, i as int) =~= pieces(s@, c),
        decreases s@.len() - i,
    {
        let e = find_from(s, c, i);
        let ghost before = out@;
        proof {
            lemma_first_from(s@, c, i as int);
        }
        let part = slice_subrange(s, i, e);
        out.push(part);
        assert(slices(out@) =~= slices(before) + seq![part@]);
        if e >= s.len() {
            assert(part@ =~= s@.skip(i as int));
            return out;
        }
        assert(pieces_from(s@, c, i as int) =~= seq![part@] + pieces_from(s@, c, e + 1));
        i = e + 1;
    }
}

/// The first place at or after `i` that is white space, or the length.
pub open spec fn word_end(s: Seq<char>, i: int) -> int
    decreases s.len() - i,
{
    if i < 0 || i >= s.len() || is_white(s[i]) {
        i
    } else {
        word_end(s, i + 1)
    }
}

pub proof fn lemma_word_end(s: Seq<char>, i: int)
    requires
        0 <= i <= s.len(),
    ensures
        i <= word_end(s, i) <= s.len(),
        i < s.len() && !is_white(s[i]) ==> i < word_end(s, i),
    decreases s.len() - i,
{
    if i < s.len() && !is_white(s[i]) {
        lemma_word_end(s, i + 1);
    }
}

/// The words of `s` from `i` on: its longest stretches without white space.
pub open spec fn words_from(s: Seq<char>, i: int) -> Seq<Seq<char>>
    decreases s.len() - i,
{
    let a = skip_white(s, i);
    if i < 0 || a >= s.len() || a < i {
        Seq::empty()
    } else {
        let e = word_end(s, a);
        if e <= a || e > s.len() {
            Seq::empty()
        } else {
            seq![s.subrange(a, e)] + words_from(s, e)
        }
    }
}

pub open spec fn words(s: Seq<char>) -> Seq<Seq<char>> {
    words_from(s, 0)
}

pub fn end_of_word(s: &[char], i: usize) -> (r: usize)
    requires
        i <= s@.len(),
    ensures
        r == word_end(s@, i as int),
        i <= r <= s@.len(),
{
    let mut k: usize = i;
    while k < s.len() && !char_is_white(s[k])
        invariant
            i <= k <= s@.len(),
            word_end(s@, i as int) == word_end(s@, k as int),
        decreases s@.len() - k,
    {
        k += 1;
    }
    k
}

pub fn words_of<'a>(s: &'a [char]) -> (out: Vec<&'a [char]>)
    ensures
        slices(out@) == words(s@),
{
    let mut out: Vec<&'a [char]> = Vec::new();
    let mut i: usize = 0;
    loop
        invariant
            i <= s@.len(),
            slices(out@) + words_from(s@, i as int) =~= words(s@),
        decreases s@.len() - i,
    {
        let a = first_nonwhite(s, i);
        proof {
            lemma_skip_white(s@, i as int);
        }
        if a >= s.len() {
            assert(words_from(s@, i as int) =~= Seq::<Seq<char>>::empty());
            return out;
        }
        let e = end_of_word(s, a);
        proof {
            lemma_word_end(s@, a as int);
        }
        let ghost before = out@;
        let part = slice_subrange(s, a, e);
        out.push(part);
        assert(slices(out@) =~= slices(before) + seq![part@]);
        assert(words_from(s@, i as int) =~= seq![part@] + words_from(s@, e as int));
        i = e;
    }
}

/// The pieces joined, with `sep` between them.
pub open spec fn joined(parts: Seq<Seq<char>>, sep: Seq<char>, n: nat) -> Seq<char>
    decreases n,
{
    if n == 0 {
        Seq::empty()
    } else if n == 1 {
        parts[0]
    } else {
        joined(parts, sep, (n - 1) as nat) + sep + parts[n - 1]
    }
}

/// The texts of a list with a separator between them.
pub fn join_texts(parts: &Vec<String>, sep: &str) -> (r: String)
    ensures
        r@ == joined(texts(parts@), sep@, parts@.len()),
{
    let mut out: Vec<char> = Vec::new();
    let mut i: usize = 0;
    assert(out@ =~= joined(texts(parts@), sep@, 0));
    while i < parts.len()
        invariant
            i <= parts@.len(),
            out@ == joined(texts(parts@), sep@, i as nat),
        decreases parts@.len() - i,
    {
        assert(texts(parts@)[i as int] == parts@[i as int]@);
        if i > 0 {
            push_lit(&mut out, sep);
        }
        push_lit(&mut out, parts[i].as_str());
        assert(out@ =~= joined(texts(parts@), sep@, (i + 1) as nat));
        i += 1;
    }
    string_of(out.as_slice())
}

/// `s` with every `p` in it from `i` on, read from the left, replaced by `r`.
pub open spec fn replaced_from(s: Seq<char>, p: Seq<char>, r: Seq<char>, i: int) -> Seq<char>
    decreases s.len() - i,
{
    if p.len() == 0 || i < 0 || i >= s.len() {
        Seq::empty()
    } else if stands_at(s, p, i) {
        r + replaced_from(s, p, r, i + p.len())
    } else {
        seq![s[i]] + replaced_from(s, p, r, i + 1)
    }
}

pub fn replace_all(s: &[char], p: &[char], r: &[char]) -> (out: Vec<char>)
    requires
        p@.len() > 0,
    ensures
        out@ == replaced_from(s@, p@, r@, 0),
{
    let mut out: Vec<char> = Vec::new();
    let mut i: usize = 0;
    while i < s.len()
        invariant
            i <= s@.len(),
            p@.len() > 0,
            out@ + replaced_from(s@, p@, r@, i as int) =~= replaced_from(s@, p@, r@, 0),
        decreases s@.len() - i,
    {
        let ghost before = out@;
        if is_at(s, p, i) {
            push_all(&mut out, r);
            assert(out@ + replaced_from(s@, p@, r@, i + p@.len()) =~= before + (r@ + replaced_from(
                s@,
                p@,
                r@,
                i + p@.len(),
            )));
            i += p.len();
        } else {
            out.push(s[i]);
            assert(out@ + replaced_from(s@, p@, r@, i + 1) =~= before + (seq![s@[i as int]]
                + replaced_from(s@, p@, r@, i + 1)));
            i += 1;
        }
    }
    out
}

// ---- numbers ----------------------------------------------------------------

pub open spec fn all_digits(s: Seq<char>) -> bool {
    forall|i: int| 0 <= i < s.len() ==> is_digit(#[trigger] s[i])
}

/// The number that the first `n` characters, digits all, write.
pub open spec fn number(s: Seq<char>, n: nat) -> nat
    decreases n,
{
    if n == 0 || n > s.len() {
        0
    } else {
        (number(s, (n - 1) as nat) * 10 + digit_value(s[n - 1])) as nat
    }
}

/// `s` without a `+` at its start.
pub open spec fn without_plus(s: Seq<char>) -> Seq<char> {
    if s.len() > 0 && s[0] == '+' {
        s.skip(1)
    } else {
        s
    }
}

/// What std reads from `s` as an unsigned number of at most `max`: digits,
/// with at most one `+` before them.
pub open spec fn parse_number(s: Seq<char>, max: nat) -> Option<nat> {
    let d = without_plus(s);
    if d.len() > 0 && all_digits(d) && number(d, d.len()) <= max {
        Some(number(d, d.len()))
    } else {
        None
    }
}

pub proof fn lemma_number_grows(s: Seq<char>, n: nat, m: nat)
    requires
        n <= m <= s.len(),
        all_digits(s),
    ensures
        number(s, n) <= number(s, m),
    decreases m,
{
    if n < m {
        lemma_number_grows(s, n, (m - 1) as nat);
        let a = number(s, (m - 1) as nat);
        assert(a <= a * 10 + digit_value(s[m - 1]));
    }
}

pub fn read_u64(s: &[char], max: u64) -> (r: Option<u64>)
    ensures
        match r {
            Some(n) => parse_number(s@, max as nat) == Some(n as nat) && n <= max,
            None => parse_number(s@, max as nat) is None,
        },
{
    let start: usize = if s.len() > 0 && s[0] == '+' {
        1
    } else {
        0
    };
    let d = slice_subrange(s, start, s.len());
    assert(d@ =~= without_plus(s@));
    if d.len() == 0 {
        return None;
    }
    let mut n: u64 = 0;
    let mut i: usize = 0;
    let mut fits = true;
    while i < d.len()
        invariant
            i <= d@.len(),
            d@ == without_plus(s@),
            fits ==> n as nat == number(d@, i as nat) && n <= max,
            !fits ==> number(d@, i as nat) > max,
            forall|k: int| 0 <= k < i ==> is_digit(#[trigger] d@[k]),
        decreases d@.len() - i,
    {
        let c = d[i];
        if !char_is_digit(c) {
            assert(!is_digit(d@[i as int]));
            return None;
        }
        let v: u64 = (c as u32 - 48) as u64;
        if fits {
            let wide: u128 = (n as u128) * 10 + (v as u128);
            if wide <= max as u128 {
                n = wide as u64;
            } else {
                fits = false;
            }
        } else {
            assert(number(d@, (i + 1) as nat) == number(d@, i as nat) * 10 + digit_value(
                d@[i as int],
            ));
        }
        i += 1;
    }
    if fits {
        Some(n)
    } else {
        None
    }
}

pub fn read_usize(s: &[char]) -> (r: Option<usize>)
    ensures
        match r {
            Some(n) => parse_number(s@, usize::MAX as nat) == Some(n as nat),
            None => parse_number(s@, usize::MAX as nat) is None,
        },
{
    match read_u64(s, usize::MAX as u64) {
        Some(n) => Some(n as usize),
        None => None,
    }
}

/// What std reads from `s` as a truth value.
pub open spec fn parse_bool(s: Seq<char>) -> Option<bool> {
    if s == "true"@ {
        Some(true)
    } else if s == "false"@ {
        Some(false)
    } else {
        None
    }
}

pub fn read_bool(s: &[char]) -> (r: Option<bool>)
    ensures
        r == parse_bool(s@),
{
    if spells(s, "true") {
        Some(true)
    } else if spells(s, "false") {
        Some(false)
    } else {
        None
    }
}

/// The decimal digits of `n`.
pub open spec fn decimal(n: nat) -> Seq<char>
    decreases n,
{
    let last = ((48 + n % 10) as u8) as char;
    if n < 10 {
        seq![last]
    } else {
        decimal(n / 10).push(last)
    }
}

proof fn lemma_number_start(a: Seq<char>, c: char, n: nat)
    requires
        n <= a.len(),
    ensures
        number(a.push(c), n) == number(a, n),
    decreases n,
{
    if n > 0 {
        lemma_number_start(a, c, (n - 1) as nat);
        assert(a.push(c)[n - 1] == a[n - 1]);
    }
}

/// A number reads back as it is written.
pub proof fn law_a_written_number_reads_back(n: nat, max: nat)
    requires
        n <= max,
    ensures
        decimal(n).len() > 0,
        all_digits(decimal(n)),
        number(decimal(n), decimal(n).len()) == n,
        parse_number(decimal(n), max) == Some(n),
    decreases n,
{
    let last = ((48 + n % 10) as u8) as char;
    assert(last as u32 == 48 + n % 10);
    assert(is_digit(last));
    if n < 10 {
        let d = seq![last];
        assert(number(d, 0) == 0);
        assert(d[0] == last);
    } else {
        let head = decimal(n / 10);
        law_a_written_number_reads_back(n / 10, max);
        lemma_number_start(head, last, head.len());
        let d = head.push(last);
        assert(d[head.len() as int] == last);
        assert forall|i: int| 0 <= i < d.len() implies is_digit(#[trigger] d[i]) by {
            if i < head.len() {
                assert(d[i] == head[i]);
            }
        }
    }
    let d = decimal(n);
    assert(is_digit(d[0]));
    assert(without_plus(d) == d);
}

pub fn push_number(out: &mut Vec<char>, n: u64)
    ensures
        final(out)@ == old(out)@ + decimal(n as nat),
    decreases n,
{
    let ghost before = out@;
    let last = (48u8 + (n % 10) as u8) as char;
    if n >= 10 {
        push_number(out, n / 10);
    }
    let ghost mid = out@;
    out.push(last);
    assert(out@ =~= before + decimal(n as nat)) by {
        if n < 10 {
            assert(decimal(n as nat) =~= seq![last]);
        } else {
            assert(decimal(n as nat) == decimal((n / 10) as nat).push(last));
            assert(mid.push(last) =~= before + decimal((n / 10) as nat).push(last));
        }
    }
}

// ---- order ----------------------------------------------------------------------

/// Whether a text comes before another, by its characters from `i` on.
pub open spec fn text_before(a: Seq<char>, b: Seq<char>, i: int) -> bool
    decreases a.len() - i,
{
    if i < 0 || i >= a.len() {
        0 <= i < b.len()
    } else if i >= b.len() {
        false
    } else if a[i] != b[i] {
        (a[i] as u32) < (b[i] as u32)
    } else {
        text_before(a, b, i + 1)
    }
}

/// Whether a text comes before another.
pub fn comes_before(a: &str, b: &str) -> (r: bool)
    ensures
        r == text_before(a@, b@, 0),
{
    let x = chars_of(a);
    let y = chars_of(b);
    let mut i: usize = 0;
    while i < x.len() && i < y.len() && x[i] == y[i]
        invariant
            i <= x@.len(),
            i <= y@.len(),
            text_before(x@, y@, 0) == text_before(x@, y@, i as int),
        decreases x@.len() - i,
    {
        i += 1;
    }
    if i >= x.len() {
        i < y.len()
    } else if i >= y.len() {
        false
    } else {
        (x[i] as u32) < (y[i] as u32)
    }
}

/// A name put into a list in order, in front of the first that comes after it.
pub open spec fn with_name(names: Seq<Seq<char>>, name: Seq<char>, i: int) -> Seq<Seq<char>>
    decreases names.len() - i,
{
    if i < 0 || i >= names.len() || text_before(name, names[i], 0) {
        names.take(i).push(name) + names.skip(i)
    } else {
        with_name(names, name, i + 1)
    }
}

/// Put a name into a list in order.
pub fn put_name(names: &mut Vec<String>, name: String)
    ensures
        texts(final(names)@) == with_name(texts(old(names)@), name@, 0),
{
    let ghost all = texts(names@);
    let ghost had = names@;
    let ghost t = name@;
    let mut i: usize = 0;
    while i < names.len() && !comes_before(name.as_str(), names[i].as_str())
        invariant
            i <= names@.len(),
            names@ == had,
            all == texts(had),
            t == name@,
            with_name(all, t, 0) == with_name(all, t, i as int),
        decreases names@.len() - i,
    {
        i += 1;
    }
    names.insert(i, name);
    assert(texts(names@) =~= all.take(i as int).push(t) + all.skip(i as int));
}

} // verus!
