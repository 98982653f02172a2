//! What a language server's answers say: diagnostics, places, signatures,
//! symbols, completions and hover texts, read out of JSON, and the paths and
//! frames that messages are made of.

use serde_json::Value;
use vstd::prelude::*;
use vstd::string::StringSliceAdditionalSpecFns;
use vstd::utf8::{decode_utf8, encode_utf8, encode_utf8_decode_utf8, encode_utf8_valid_utf8, valid_utf8};
use crate::document::{extension, extension_of};
use crate::json::{
    array_of, as_array, as_text, as_u64, at, copy, field, get, json_of, json_read, jsons, kind,
    member, parse_json, plain_json, text_of, u64_of, Json, JsonKind,
};
use crate::position::{utf16_char, utf16_to_char};
use crate::strings::{
    char_is_digit, chars_of, find_sub, find_sub_from, has_prefix, is_digit, join_texts, joined, lines,
    lines_of, opt_text, parse_number, push_all, push_lit, read_usize, same, slices, spells, split_in_two,
    split_once, starts_with, string_of, strip_prefix, texts, trim, trim_end, trim_left, trim_right,
    trim_start, trimmed, without_prefix,
};
use crate::text::bytes_of;

verus! {

/// The member of a member, with `Null` in place of one that is not there.
pub open spec fn deep(j: Json, a: Seq<char>, b: Seq<char>) -> Json {
    field(field(j, a), b)
}

pub open spec fn or_zero(n: Option<u64>) -> usize {
    match n {
        Some(n) => n as usize,
        None => 0,
    }
}

pub(crate) fn to_size(n: u64) -> (r: usize)
    ensures
        r == n as usize,
{
    #[verifier::truncate]
    (n as usize)
}

// ---- diagnostics ------------------------------------------------------------

pub struct Diagnostic {
    pub line: usize,
    /// Start column, in UTF-16 code units.
    pub col: usize,
    /// From the worst: errors, warnings, information, hints.
    pub severity: u8,
    pub message: String,
    /// The diagnostic as the server sent it: code actions want it back.
    pub raw: Value,
}

pub struct DiagnosticView {
    pub line: usize,
    pub col: usize,
    pub severity: u8,
    pub message: Seq<char>,
    pub raw: Json,
}

impl View for Diagnostic {
    type V = DiagnosticView;

    open spec fn view(&self) -> DiagnosticView {
        DiagnosticView {
            line: self.line,
            col: self.col,
            severity: self.severity,
            message: self.message@,
            raw: json_of(self.raw),
        }
    }
}

pub open spec fn diagnostic_views(v: Seq<Diagnostic>) -> Seq<DiagnosticView> {
    Seq::new(v.len(), |i: int| v[i]@)
}

/// The diagnostic that a server sent; it needs a line and a message.
pub open spec fn diagnostic_of(j: Json) -> Option<DiagnosticView> {
    let start = deep(j, "range"@, "start"@);
    match (u64_of(field(start, "line"@)), text_of(field(j, "message"@))) {
        (Some(line), Some(text)) => if lines(text).len() == 0 {
            None
        } else {
            Some(
                DiagnosticView {
                    line: line as usize,
                    col: or_zero(u64_of(field(start, "character"@))),
                    severity: match u64_of(field(j, "severity"@)) {
                        Some(n) => n as u8,
                        None => 2,
                    },
                    message: lines(text)[0],
                    raw: j,
                },
            )
        },
        _ => None,
    }
}

/// The back-pointer from a help to the error it is for.
pub open spec fn back_pointer() -> Seq<char> {
    "original diagnostic"@
}

/// The messages of the first `n` related pieces of information, back-pointers
/// left out.
pub open spec fn notes_upto(items: Seq<Json>, n: nat) -> Seq<Seq<char>>
    decreases n,
{
    if n == 0 || n > items.len() {
        Seq::empty()
    } else {
        let head = notes_upto(items, (n - 1) as nat);
        match text_of(field(items[n - 1], "message"@)) {
            Some(t) => if t != back_pointer() {
                head.push(t)
            } else {
                head
            },
            None => head,
        }
    }
}

pub open spec fn related(j: Json) -> Seq<Json> {
    match array_of(field(j, "relatedInformation"@)) {
        Some(items) => items,
        None => Seq::empty(),
    }
}

pub open spec fn notes_of(d: DiagnosticView) -> Seq<Seq<char>> {
    notes_upto(related(d.raw), related(d.raw).len())
}

/// Whether a diagnostic is a help published a second time.
pub open spec fn echoes(d: DiagnosticView) -> bool {
    exists|i: int|
        0 <= i < related(d.raw).len() && text_of(
            field(#[trigger] related(d.raw)[i], "message"@),
        ) == Some(back_pointer())
}

/// The notes of a diagnostic, each behind an arrow on a line of its own.
pub open spec fn notes_text(notes: Seq<Seq<char>>, n: nat) -> Seq<char>
    decreases n,
{
    if n == 0 || n > notes.len() {
        Seq::empty()
    } else {
        notes_text(notes, (n - 1) as nat) + "\n➜ "@ + notes[n - 1]
    }
}

/// Everything there is to read of a diagnostic: the compiler's own rendering
/// where it came along, else the whole message and its notes.
pub open spec fn detail_of(d: DiagnosticView) -> Seq<char> {
    match text_of(deep(d.raw, "data"@, "rendered"@)) {
        Some(t) => trim_end(t),
        None => trim_end(
            match text_of(field(d.raw, "message"@)) {
                Some(t) => t,
                None => d.message,
            },
        ) + notes_text(notes_of(d), notes_of(d).len()),
    }
}

/// Read a diagnostic.
pub fn parse_diagnostic(v: &Value) -> (r: Option<Diagnostic>)
    ensures
        match r {
            Some(d) => diagnostic_of(json_of(*v)) == Some(d@),
            None => diagnostic_of(json_of(*v)) is None,
        },
{
    let start = at(at(v, "range"), "start");
    let line = match as_u64(at(start, "line")) {
        Some(n) => n,
        None => {
            return None;
        },
    };
    let text = match as_text(at(v, "message")) {
        Some(t) => t,
        None => {
            return None;
        },
    };
    let c = chars_of(text);
    let ls = lines_of(c.as_slice());
    assert(slices(ls@).len() == ls@.len());
    if ls.len() == 0 {
        return None;
    }
    assert(slices(ls@)[0] == ls@[0]@);
    let col: usize = match as_u64(at(start, "character")) {
        Some(n) => to_size(n),
        None => 0,
    };
    let severity: u8 = match as_u64(at(v, "severity")) {
        Some(n) => {
            #[verifier::truncate]
            (n as u8)
        },
        None => 2,
    };
    Some(
        Diagnostic {
            line: to_size(line),
            col,
            severity,
            message: string_of(ls[0]),
            raw: copy(v),
        },
    )
}

impl Diagnostic {
    /// What the server attached beyond the headline.
    pub fn notes(&self) -> (r: Vec<String>)
        ensures
            texts(r@) == notes_of(self@),
    {
        let mut out: Vec<String> = Vec::new();
        assert(texts(out@) =~= Seq::empty());
        if let Some(items) = as_array(at(&self.raw, "relatedInformation")) {
            let ghost all = jsons(items@);
            let mut i: usize = 0;
            while i < items.len()
                invariant
                    i <= items@.len(),
                    all == jsons(items@),
                    texts(out@) == notes_upto(all, i as nat),
                decreases items@.len() - i,
            {
                assert(all[i as int] == json_of(items@[i as int]));
                if let Some(t) = as_text(at(&items[i], "message")) {
                    if !same(t, "original diagnostic") {
                        let ghost had = out@;
                        out.push(t.to_owned());
                        assert(texts(out@) =~= texts(had).push(t@));
                    }
                }
                i += 1;
            }
        }
        out
    }

    /// Whether this is a help published a second time.
    pub fn is_echo(&self) -> (r: bool)
        ensures
            r == echoes(self@),
    {
        if let Some(items) = as_array(at(&self.raw, "relatedInformation")) {
            let ghost all = jsons(items@);
            assert(all == related(self@.raw));
            let mut i: usize = 0;
            while i < items.len()
                invariant
                    i <= items@.len(),
                    all == jsons(items@),
                    all == related(self@.raw),
                    forall|k: int|
                        0 <= k < i ==> text_of(field(#[trigger] all[k], "message"@)) != Some(
                            back_pointer(),
                        ),
                decreases items@.len() - i,
            {
                assert(all[i as int] == json_of(items@[i as int]));
                if let Some(t) = as_text(at(&items[i], "message")) {
                    if same(t, "original diagnostic") {
                        assert(text_of(field(related(self@.raw)[i as int], "message"@)) == Some(
                            back_pointer(),
                        ));
                        return true;
                    }
                }
                i += 1;
            }
        }
        false
    }

    /// How much a line wants this one shown, least first: the worst severity,
    /// and among equals the one that comes with a suggestion.
    pub fn rank(&self) -> (r: (u8, bool))
        ensures
            r == (self@.severity, notes_of(self@).len() == 0),
    {
        let notes = self.notes();
        assert(texts(notes@).len() == notes@.len());
        (self.severity, notes.len() == 0)
    }

    /// Everything there is to read.
    pub fn detail(&self) -> (r: String)
        ensures
            r@ == detail_of(self@),
    {
        if let Some(t) = as_text(at(at(&self.raw, "data"), "rendered")) {
            let c = chars_of(t);
            return string_of(trim_right(c.as_slice()));
        }
        let whole = match as_text(at(&self.raw, "message")) {
            Some(t) => chars_of(t),
            None => chars_of(self.message.as_str()),
        };
        let mut out: Vec<char> = Vec::new();
        push_all(&mut out, trim_right(whole.as_slice()));
        let ghost head = out@;
        let notes = self.notes();
        let ghost all = texts(notes@);
        let mut i: usize = 0;
        assert(out@ =~= head + notes_text(all, 0));
        while i < notes.len()
            invariant
                i <= notes@.len(),
                all == texts(notes@),
                out@ == head + notes_text(all, i as nat),
            decreases notes@.len() - i,
        {
            assert(all[i as int] == notes@[i as int]@);
            push_lit(&mut out, "\n➜ ");
            push_lit(&mut out, notes[i].as_str());
            assert(out@ =~= head + notes_text(all, (i + 1) as nat));
            i += 1;
        }
        string_of(out.as_slice())
    }
}

// ---- paths and addresses ----------------------------------------------------

pub open spec fn hex_upper(n: u8) -> u8 {
    if n < 10 {
        (48 + n) as u8
    } else {
        (55 + n) as u8
    }
}

/// Bytes that stand for themselves in an address.
pub open spec fn plain_byte(b: u8) -> bool {
    ||| 65 <= b <= 90
    ||| 97 <= b <= 122
    ||| 48 <= b <= 57
    ||| b == 47
    ||| b == 46
    ||| b == 45
    ||| b == 95
    ||| b == 126
}

/// A byte as an address has it: itself, or a percent sign and two digits.
pub open spec fn escaped(b: u8) -> Seq<char> {
    if plain_byte(b) {
        seq![b as char]
    } else {
        seq!['%', hex_upper(b / 16) as char, hex_upper((b % 16) as u8) as char]
    }
}

pub open spec fn escaped_from(bytes: Seq<u8>, i: int) -> Seq<char>
    decreases bytes.len() - i,
{
    if i < 0 || i >= bytes.len() {
        Seq::empty()
    } else {
        escaped(bytes[i]) + escaped_from(bytes, i + 1)
    }
}

/// The address of a file.
pub open spec fn uri_of(path: Seq<char>) -> Seq<char> {
    "file://"@ + escaped_from(encode_utf8(path), 0)
}

pub open spec fn hex_value(c: char) -> Option<u8> {
    if '0' <= c <= '9' {
        Some((c as u32 - 48) as u8)
    } else if 'a' <= c <= 'f' {
        Some((c as u32 - 87) as u8)
    } else if 'A' <= c <= 'F' {
        Some((c as u32 - 55) as u8)
    } else {
        None
    }
}

/// The bytes that an address from place `i` on stands for.
pub open spec fn unescaped(s: Seq<char>, i: int) -> Option<Seq<u8>>
    decreases s.len() - i,
{
    if i < 0 || i >= s.len() {
        Some(Seq::empty())
    } else if s[i] == '%' {
        if i + 2 < s.len() {
            match (hex_value(s[i + 1]), hex_value(s[i + 2]), unescaped(s, i + 3)) {
                (Some(a), Some(b), Some(rest)) => Some(seq![(a * 16 + b) as u8] + rest),
                _ => None,
            }
        } else {
            None
        }
    } else {
        match unescaped(s, i + 1) {
            Some(rest) => Some(encode_utf8(seq![s[i]]) + rest),
            None => None,
        }
    }
}

/// The file that an address names.
pub open spec fn path_of(uri: Seq<char>) -> Option<Seq<char>> {
    match without_prefix(uri, "file://"@) {
        None => None,
        Some(rest) => match unescaped(rest, 0) {
            None => None,
            Some(bytes) => if valid_utf8(bytes) {
                Some(decode_utf8(bytes))
            } else {
                None
            },
        },
    }
}

/// `String::from_utf8`: the text of the bytes, where they are valid UTF-8.
#[verifier::external_body]
fn text_from_bytes(bytes: Vec<u8>) -> (r: Option<String>)
    ensures
        match r {
            Some(t) => valid_utf8(bytes@) && t@ == decode_utf8(bytes@),
            None => !valid_utf8(bytes@),
        },
{
    String::from_utf8(bytes).ok()
}

fn hex_char(n: u8) -> (r: char)
    requires
        n < 16,
    ensures
        r == hex_upper(n) as char,
{
    if n < 10 {
        (48 + n) as char
    } else {
        (55 + n) as char
    }
}

/// The address of a file, given by its canonical path.
pub fn uri_from_path(path: &str) -> (r: String)
    ensures
        r@ == uri_of(path@),
{
    let bytes = path.as_bytes();
    let mut out: Vec<char> = Vec::new();
    push_lit(&mut out, "file://");
    let ghost head = out@;
    let ghost all = encode_utf8(path@);
    let mut i: usize = 0;
    while i < bytes.len()
        invariant
            i <= bytes@.len(),
            all == bytes@,
            out@ + escaped_from(all, i as int) == head + escaped_from(all, 0),
        decreases bytes@.len() - i,
    {
        let b = bytes[i];
        let ghost had = out@;
        if (65 <= b && b <= 90) || (97 <= b && b <= 122) || (48 <= b && b <= 57) || b == 47 || b == 46
            || b == 45 || b == 95 || b == 126 {
            out.push(b as char);
            assert(out@ =~= had + escaped(b));
        } else {
            out.push('%');
            out.push(hex_char(b / 16));
            out.push(hex_char(b % 16));
            assert(out@ =~= had + escaped(b));
        }
        assert(out@ + escaped_from(all, i + 1) =~= had + escaped_from(all, i as int));
        i += 1;
    }
    assert(out@ =~= head + escaped_from(all, 0));
    string_of(out.as_slice())
}

fn read_hex(c: char) -> (r: Option<u8>)
    ensures
        r == hex_value(c),
        r is Some ==> r->0 < 16,
{
    if '0' <= c && c <= '9' {
        Some((c as u32 - 48) as u8)
    } else if 'a' <= c && c <= 'f' {
        Some((c as u32 - 87) as u8)
    } else if 'A' <= c && c <= 'F' {
        Some((c as u32 - 55) as u8)
    } else {
        None
    }
}

fn unescape(s: &[char]) -> (r: Option<Vec<u8>>)
    ensures
        match r {
            Some(b) => unescaped(s@, 0) == Some(b@),
            None => unescaped(s@, 0) is None,
        },
{
    let mut out: Vec<u8> = Vec::new();
    let mut i: usize = 0;
    while i < s.len()
        invariant
            i <= s@.len(),
            match unescaped(s@, i as int) {
                Some(rest) => unescaped(s@, 0) == Some(out@ + rest),
                None => unescaped(s@, 0) is None,
            },
        decreases s@.len() - i,
    {
        let ghost had = out@;
        if s[i] == '%' {
            if s.len() - i < 3 {
                return None;
            }
            match (read_hex(s[i + 1]), read_hex(s[i + 2])) {
                (Some(a), Some(b)) => {
                    out.push(a * 16 + b);
                    proof {
                        if unescaped(s@, i + 3) is Some {
                            assert(had + (seq![(a * 16 + b) as u8] + unescaped(s@, i + 3)->0)
                                =~= out@ + unescaped(s@, i + 3)->0);
                        }
                    }
                    i += 3;
                },
                _ => {
                    return None;
                },
            }
        } else {
            let one = crate::strings::char_string(s[i]);
            let bytes = one.as_str().as_bytes();
            let ghost bv = bytes@;
            assert(bv == encode_utf8(seq![s@[i as int]]));
            let mut k: usize = 0;
            while k < bytes.len()
                invariant
                    k <= bytes@.len(),
                    out@ == had + bytes@.take(k as int),
                decreases bytes@.len() - k,
            {
                out.push(bytes[k]);
                assert(bytes@.take(k + 1) =~= bytes@.take(k as int).push(bytes@[k as int]));
                k += 1;
            }
            assert(bytes@.take(bytes@.len() as int) =~= bytes@);
            proof {
                if unescaped(s@, i + 1) is Some {
                    assert(had + (bv + unescaped(s@, i + 1)->0) =~= out@ + unescaped(
                        s@,
                        i + 1,
                    )->0);
                }
            }
            i += 1;
        }
    }
    assert(out@ + Seq::<u8>::empty() =~= out@);
    Some(out)
}

/// The file that an address names.
pub fn path_from_uri(uri: &str) -> (r: Option<String>)
    ensures
        opt_text(r) == path_of(uri@),
{
    let c = chars_of(uri);
    match strip_prefix(c.as_slice(), "file://") {
        None => None,
        Some(rest) => match unescape(rest) {
            None => None,
            Some(bytes) => text_from_bytes(bytes),
        },
    }
}

proof fn lemma_ascii_byte(b: u8)
    requires
        b < 128,
    ensures
        encode_utf8(seq![b as char]) == seq![b],
        (b as char) as u32 == b as u32,
{
    reveal_with_fuel(encode_utf8, 2);
    let c = b as char;
    assert(c as u32 == b as u32);
    let rest = seq![c].drop_first();
    assert(rest =~= Seq::<char>::empty());
    let n = b as u32;
    assert((n & 0x7f) as u8 == n as u8 && n <= 0x7f) by (bit_vector)
        requires
            n < 128,
    ;
    assert(vstd::utf8::leading_byte_width_1(n) == b);
    assert(encode_utf8(seq![c]) =~= seq![b]);
}

proof fn lemma_hex(n: u8)
    requires
        n < 16,
    ensures
        hex_value(hex_upper(n) as char) == Some(n),
{
    let c = hex_upper(n) as char;
    assert(c as u32 == hex_upper(n) as u32);
}

proof fn lemma_unescaped(s: Seq<char>, p: int, bytes: Seq<u8>, i: int)
    requires
        0 <= p <= s.len(),
        0 <= i <= bytes.len(),
        s.skip(p) == escaped_from(bytes, i),
    ensures
        unescaped(s, p) == Some(bytes.skip(i)),
    decreases bytes.len() - i,
{
    let rest = s.skip(p);
    if i == bytes.len() {
        assert(rest.len() == 0);
        assert(bytes.skip(i) =~= Seq::empty());
    } else {
        let b = bytes[i];
        let e = escaped(b);
        assert(rest.len() >= e.len());
        assert forall|k: int| 0 <= k < e.len() implies s[p + k] == e[k] by {
            assert(rest[k] == s[p + k]);
        }
        assert(s.skip(p + e.len()) =~= rest.skip(e.len() as int));
        assert(rest.skip(e.len() as int) =~= escaped_from(bytes, i + 1));
        lemma_unescaped(s, p + e.len(), bytes, i + 1);
        assert(bytes.skip(i) =~= seq![b] + bytes.skip(i + 1));
        if plain_byte(b) {
            lemma_ascii_byte(b);
            assert(s[p] == b as char);
            assert(s[p] != '%');
        } else {
            lemma_hex((b / 16) as u8);
            lemma_hex((b % 16) as u8);
            assert(s[p + 0] == '%');
            assert(s[p + 1] == e[1]);
            assert(s[p + 2] == e[2]);
            assert((b / 16) * 16 + (b % 16) == b);
        }
    }
}

/// The address of a file names that file.
pub proof fn law_uri_names_the_file(path: Seq<char>)
    ensures
        path_of(uri_of(path)) == Some(path),
{
    let bytes = encode_utf8(path);
    let uri = uri_of(path);
    let head = "file://"@;
    let rest = uri.skip(head.len() as int);
    assert(rest =~= escaped_from(bytes, 0));
    assert(crate::strings::stands_at(uri, head, 0)) by {
        assert(uri.subrange(0, head.len() as int) =~= head);
    }
    assert(rest.skip(0) =~= rest);
    lemma_unescaped(rest, 0, bytes, 0);
    assert(bytes.skip(0) =~= bytes);
    encode_utf8_valid_utf8(path);
    encode_utf8_decode_utf8(path);
}

// ---- places -----------------------------------------------------------------

/// A place in a file: path, line, UTF-16 column.
#[derive(Debug)]
pub struct Location {
    pub path: String,
    pub line: usize,
    pub col: usize,
}

pub struct LocationView {
    pub path: Seq<char>,
    pub line: usize,
    pub col: usize,
}

impl View for Location {
    type V = LocationView;

    open spec fn view(&self) -> LocationView {
        LocationView { path: self.path@, line: self.line, col: self.col }
    }
}

pub open spec fn location_views(v: Seq<Location>) -> Seq<LocationView> {
    Seq::new(v.len(), |i: int| v[i]@)
}

/// The address and the range of a place: of a location, or of a link to one.
pub open spec fn address_and_range(j: Json) -> Option<(Json, Json)> {
    match member(j, "uri"@) {
        Some(u) => match member(j, "range"@) {
            Some(r) => Some((u, r)),
            None => None,
        },
        None => match member(j, "targetUri"@) {
            None => None,
            Some(u) => match member(j, "targetSelectionRange"@) {
                Some(r) => Some((u, r)),
                None => match member(j, "targetRange"@) {
                    Some(r) => Some((u, r)),
                    None => None,
                },
            },
        },
    }
}

pub open spec fn location_of(j: Json) -> Option<LocationView> {
    match address_and_range(j) {
        None => None,
        Some((uri, range)) => {
            let start = field(range, "start"@);
            match (
                text_of(uri),
                u64_of(field(start, "line"@)),
                u64_of(field(start, "character"@)),
            ) {
                (Some(u), Some(line), Some(col)) => match path_of(u) {
                    Some(path) => Some(
                        LocationView { path, line: line as usize, col: col as usize },
                    ),
                    None => None,
                },
                _ => None,
            }
        },
    }
}

pub open spec fn locations_upto(items: Seq<Json>, n: nat) -> Seq<LocationView>
    decreases n,
{
    if n == 0 || n > items.len() {
        Seq::empty()
    } else {
        let head = locations_upto(items, (n - 1) as nat);
        match location_of(items[n - 1]) {
            Some(l) => head.push(l),
            None => head,
        }
    }
}

/// Every place in a location, a list of them, or a list of links.
pub open spec fn locations_of(j: Json) -> Seq<LocationView> {
    match j {
        Json::Array(items) => locations_upto(items, items.len()),
        Json::Null => Seq::empty(),
        _ => match location_of(j) {
            Some(l) => seq![l],
            None => Seq::empty(),
        },
    }
}

/// The place, or the first of a list.
pub open spec fn first_location(j: Json) -> Option<LocationView> {
    match j {
        Json::Array(items) => if items.len() > 0 {
            location_of(items[0])
        } else {
            None
        },
        _ => location_of(j),
    }
}

fn read_location(v: &Value) -> (r: Option<Location>)
    ensures
        match r {
            Some(l) => location_of(json_of(*v)) == Some(l@),
            None => location_of(json_of(*v)) is None,
        },
{
    let (uri, range) = match get(v, "uri") {
        Some(u) => match get(v, "range") {
            Some(r) => (u, r),
            None => {
                return None;
            },
        },
        None => match get(v, "targetUri") {
            None => {
                return None;
            },
            Some(u) => match get(v, "targetSelectionRange") {
                Some(r) => (u, r),
                None => match get(v, "targetRange") {
                    Some(r) => (u, r),
                    None => {
                        return None;
                    },
                },
            },
        },
    };
    let start = at(range, "start");
    match (as_text(uri), as_u64(at(start, "line")), as_u64(at(start, "character"))) {
        (Some(u), Some(line), Some(col)) => match path_from_uri(u) {
            Some(path) => Some(Location { path, line: to_size(line), col: to_size(col) }),
            None => None,
        },
        _ => None,
    }
}

/// Every place in an answer.
pub fn parse_locations(result: &Value) -> (r: Vec<Location>)
    ensures
        location_views(r@) == locations_of(json_of(*result)),
{
    let mut out: Vec<Location> = Vec::new();
    assert(location_views(out@) =~= Seq::empty());
    match as_array(result) {
        Some(items) => {
            let ghost all = jsons(items@);
            let mut i: usize = 0;
            while i < items.len()
                invariant
                    i <= items@.len(),
                    all == jsons(items@),
                    location_views(out@) == locations_upto(all, i as nat),
                decreases items@.len() - i,
            {
                assert(all[i as int] == json_of(items@[i as int]));
                if let Some(l) = read_location(&items[i]) {
                    let ghost had = out@;
                    let ghost lv = l@;
                    out.push(l);
                    assert(location_views(out@) =~= location_views(had).push(lv));
                }
                i += 1;
            }
        },
        None => {
            if kind(result) != JsonKind::Null {
                if let Some(l) = read_location(result) {
                    let ghost lv = l@;
                    out.push(l);
                    assert(location_views(out@) =~= seq![lv]);
                }
            } else {
                assert(json_of(*result) is Null);
            }
        },
    }
    out
}

/// The place in an answer, or the first of them.
pub fn parse_location(result: &Value) -> (r: Option<Location>)
    ensures
        match r {
            Some(l) => first_location(json_of(*result)) == Some(l@),
            None => first_location(json_of(*result)) is None,
        },
{
    match as_array(result) {
        Some(items) => {
            if items.len() > 0 {
                assert(jsons(items@)[0] == json_of(items@[0]));
                read_location(&items[0])
            } else {
                None
            }
        },
        None => read_location(result),
    }
}

// ---- signatures -------------------------------------------------------------

/// Where a parameter stands in a signature's label: found as text, or given
/// in UTF-16 units.
pub open spec fn parameter_range(label: Seq<char>, p: Json) -> Option<(usize, usize)> {
    match field(p, "label"@) {
        Json::Text(t) => {
            let k = find_sub_from(label, t, 0);
            if k < 0 {
                None
            } else {
                Some((k as usize, (k + t.len()) as usize))
            }
        },
        Json::Array(pair) => if pair.len() < 2 {
            None
        } else {
            match (u64_of(pair[0]), u64_of(pair[1])) {
                (Some(a), Some(b)) => Some(
                    (
                        utf16_char(label, (a as usize) as int) as usize,
                        utf16_char(label, (b as usize) as int) as usize,
                    ),
                ),
                _ => None,
            }
        },
        _ => None,
    }
}

pub open spec fn active_parameter(result: Json, sig: Json) -> Option<Json> {
    let index = match u64_of(field(sig, "activeParameter"@)) {
        Some(n) => Some(n),
        None => u64_of(field(result, "activeParameter"@)),
    };
    match (index, array_of(field(sig, "parameters"@))) {
        (Some(n), Some(ps)) => if (n as usize) < ps.len() {
            Some(ps[n as usize as int])
        } else {
            None
        },
        _ => None,
    }
}

/// The signature that is active, or the first.
pub open spec fn active_signature(result: Json) -> Option<Json> {
    match array_of(field(result, "signatures"@)) {
        None => None,
        Some(sigs) => {
            let n = or_zero(u64_of(field(result, "activeSignature"@)));
            if n < sigs.len() {
                Some(sigs[n as int])
            } else if sigs.len() > 0 {
                Some(sigs[0])
            } else {
                None
            }
        },
    }
}

/// A signature's label, and where its active parameter stands in it.
pub open spec fn signature_of(result: Json) -> Option<(Seq<char>, Option<(usize, usize)>)> {
    match active_signature(result) {
        None => None,
        Some(sig) => match text_of(field(sig, "label"@)) {
            None => None,
            Some(label) => Some(
                (
                    label,
                    match active_parameter(result, sig) {
                        Some(p) => parameter_range(label, p),
                        None => None,
                    },
                ),
            ),
        },
    }
}

pub open spec fn signature_view(s: Option<(String, Option<(usize, usize)>)>) -> Option<
    (Seq<char>, Option<(usize, usize)>),
> {
    match s {
        Some((l, r)) => Some((l@, r)),
        None => None,
    }
}

fn find_parameter(label: &[char], p: &Value) -> (r: Option<(usize, usize)>)
    ensures
        r == parameter_range(label@, json_of(*p)),
{
    let l = at(p, "label");
    if let Some(t) = as_text(l) {
        let c = chars_of(t);
        return match find_sub(label, c.as_slice(), 0) {
            Some(k) => {
                let len: usize = label.len();
                Some((k, k + c.len()))
            },
            None => None,
        };
    }
    match as_array(l) {
        None => None,
        Some(pair) => {
            if pair.len() < 2 {
                return None;
            }
            assert(jsons(pair@)[0] == json_of(pair@[0]));
            assert(jsons(pair@)[1] == json_of(pair@[1]));
            match (as_u64(&pair[0]), as_u64(&pair[1])) {
                (Some(a), Some(b)) => Some(
                    (utf16_to_char(label, to_size(a)), utf16_to_char(label, to_size(b))),
                ),
                _ => None,
            }
        },
    }
}

/// The active signature's label and where its active parameter stands.
pub fn parse_signature(result: &Value) -> (r: Option<(String, Option<(usize, usize)>)>)
    ensures
        signature_view(r) == signature_of(json_of(*result)),
{
    let sigs = match as_array(at(result, "signatures")) {
        Some(s) => s,
        None => {
            return None;
        },
    };
    let n: usize = match as_u64(at(result, "activeSignature")) {
        Some(n) => to_size(n),
        None => 0,
    };
    if sigs.len() == 0 {
        return None;
    }
    let i: usize = if n < sigs.len() {
        n
    } else {
        0
    };
    assert(jsons(sigs@)[i as int] == json_of(sigs@[i as int]));
    let sig = &sigs[i];
    let label = match as_text(at(sig, "label")) {
        Some(l) => l,
        None => {
            return None;
        },
    };
    let index = match as_u64(at(sig, "activeParameter")) {
        Some(n) => Some(n),
        None => as_u64(at(result, "activeParameter")),
    };
    let c = chars_of(label);
    let range = match (index, as_array(at(sig, "parameters"))) {
        (Some(n), Some(ps)) => {
            let k = to_size(n);
            if k < ps.len() {
                assert(jsons(ps@)[k as int] == json_of(ps@[k as int]));
                find_parameter(c.as_slice(), &ps[k])
            } else {
                None
            }
        },
        _ => None,
    };
    Some((label.to_owned(), range))
}

// ---- symbols ----------------------------------------------------------------

/// One entry of a list of symbols.
#[derive(Debug)]
pub struct Symbol {
    pub name: String,
    pub kind: &'static str,
    /// Nesting depth in an outline.
    pub depth: usize,
    /// The name of the enclosing symbol, where the server said.
    pub container: String,
    pub location: Location,
}

pub struct SymbolView {
    pub name: Seq<char>,
    pub kind: Seq<char>,
    pub depth: usize,
    pub container: Seq<char>,
    pub location: LocationView,
}

impl View for Symbol {
    type V = SymbolView;

    open spec fn view(&self) -> SymbolView {
        SymbolView {
            name: self.name@,
            kind: self.kind@,
            depth: self.depth,
            container: self.container@,
            location: self.location@,
        }
    }
}

pub open spec fn symbol_views(v: Seq<Symbol>) -> Seq<SymbolView> {
    Seq::new(v.len(), |i: int| v[i]@)
}

pub open spec fn kind_name(n: u64) -> Seq<char> {
    if n == 1 {
        "file"@
    } else if n == 2 {
        "module"@
    } else if n == 3 {
        "namespace"@
    } else if n == 4 {
        "package"@
    } else if n == 5 {
        "class"@
    } else if n == 6 {
        "method"@
    } else if n == 7 {
        "property"@
    } else if n == 8 {
        "field"@
    } else if n == 9 {
        "constructor"@
    } else if n == 10 {
        "enum"@
    } else if n == 11 {
        "interface"@
    } else if n == 12 {
        "function"@
    } else if n == 13 {
        "variable"@
    } else if n == 14 {
        "constant"@
    } else if n == 15 {
        "string"@
    } else if n == 16 {
        "number"@
    } else if n == 17 {
        "boolean"@
    } else if n == 18 {
        "array"@
    } else if n == 19 {
        "object"@
    } else if n == 20 {
        "key"@
    } else if n == 21 {
        "null"@
    } else if n == 22 {
        "enum member"@
    } else if n == 23 {
        "struct"@
    } else if n == 24 {
        "event"@
    } else if n == 25 {
        "operator"@
    } else if n == 26 {
        "type parameter"@
    } else {
        "symbol"@
    }
}

/// The name of a kind of symbol.
pub fn symbol_kind(n: u64) -> (r: &'static str)
    ensures
        r@ == kind_name(n),
{
    if n == 1 {
        "file"
    } else if n == 2 {
        "module"
    } else if n == 3 {
        "namespace"
    } else if n == 4 {
        "package"
    } else if n == 5 {
        "class"
    } else if n == 6 {
        "method"
    } else if n == 7 {
        "property"
    } else if n == 8 {
        "field"
    } else if n == 9 {
        "constructor"
    } else if n == 10 {
        "enum"
    } else if n == 11 {
        "interface"
    } else if n == 12 {
        "function"
    } else if n == 13 {
        "variable"
    } else if n == 14 {
        "constant"
    } else if n == 15 {
        "string"
    } else if n == 16 {
        "number"
    } else if n == 17 {
        "boolean"
    } else if n == 18 {
        "array"
    } else if n == 19 {
        "object"
    } else if n == 20 {
        "key"
    } else if n == 21 {
        "null"
    } else if n == 22 {
        "enum member"
    } else if n == 23 {
        "struct"
    } else if n == 24 {
        "event"
    } else if n == 25 {
        "operator"
    } else if n == 26 {
        "type parameter"
    } else {
        "symbol"
    }
}

/// Where a symbol is: a range in the file that was asked about, which has no
/// path here, or a place of its own.
pub open spec fn symbol_location(item: Json) -> Option<LocationView> {
    let range = match member(item, "selectionRange"@) {
        Some(r) => Some(r),
        None => member(item, "range"@),
    };
    match range {
        Some(r) => {
            let start = field(r, "start"@);
            Some(
                LocationView {
                    path: Seq::empty(),
                    line: or_zero(u64_of(field(start, "line"@))),
                    col: or_zero(u64_of(field(start, "character"@))),
                },
            )
        },
        None => {
            let all = locations_of(field(item, "location"@));
            if all.len() > 0 {
                Some(all[0])
            } else {
                None
            }
        },
    }
}

pub open spec fn symbol_of(item: Json, depth: usize, container: Seq<char>) -> Option<SymbolView> {
    match (text_of(field(item, "name"@)), symbol_location(item)) {
        (Some(name), Some(location)) => Some(
            SymbolView {
                name,
                kind: kind_name(
                    match u64_of(field(item, "kind"@)) {
                        Some(n) => n,
                        None => 0,
                    },
                ),
                depth,
                container: match text_of(field(item, "containerName"@)) {
                    Some(c) => c,
                    None => container,
                },
                location,
            },
        ),
        _ => None,
    }
}

pub open spec fn deeper(depth: usize) -> usize {
    if depth < usize::MAX {
        (depth + 1) as usize
    } else {
        depth
    }
}

pub open spec fn children_of(item: Json) -> Seq<Json> {
    match array_of(field(item, "children"@)) {
        Some(c) => c,
        None => Seq::empty(),
    }
}

/// The symbols of a tree from its `i`th on, each followed by those in it.
pub open spec fn symbols_from(items: Seq<Json>, i: int, depth: usize, container: Seq<char>) -> Seq<
    SymbolView,
>
    decreases items, items.len() - i,
    via symbols_decrease
{
    if i < 0 || i >= items.len() {
        Seq::empty()
    } else {
        (match symbol_of(items[i], depth, container) {
            Some(sym) => seq![sym] + symbols_from(
                children_of(items[i]),
                0,
                deeper(depth),
                sym.name,
            ),
            None => Seq::empty(),
        }) + symbols_from(items, i + 1, depth, container)
    }
}

proof fn lemma_entry_smaller(entries: Seq<(Seq<char>, Json)>, key: Seq<char>, i: int)
    requires
        0 <= i,
        crate::json::entry_from(entries, key, i) is Some,
    ensures
        decreases_to!(entries => crate::json::entry_from(entries, key, i)->0),
    decreases entries.len() - i,
{
    if entries[i].0 == key {
        vstd::seq::axiom_seq_index_decreases(entries, i);
    } else {
        lemma_entry_smaller(entries, key, i + 1);
    }
}

proof fn lemma_children_smaller(items: Seq<Json>, i: int)
    requires
        0 <= i < items.len(),
        children_of(items[i]).len() > 0,
    ensures
        decreases_to!(items => children_of(items[i])),
{
    vstd::seq::axiom_seq_index_decreases(items, i);
    let item = items[i];
    match item {
        Json::Object(entries) => {
            lemma_entry_smaller(entries, "children"@, 0);
            let v = crate::json::entry_from(entries, "children"@, 0)->0;
            assert(field(item, "children"@) == v);
            assert(v == Json::Array(children_of(item)));
        },
        _ => {},
    }
}

#[via_fn]
proof fn symbols_decrease(items: Seq<Json>, i: int, depth: usize, container: Seq<char>) {
    if 0 <= i < items.len() {
        if children_of(items[i]).len() > 0 {
            lemma_children_smaller(items, i);
        } else {
            vstd::seq::axiom_seq_len_decreases(items, children_of(items[i]));
        }
    }
}

fn read_symbol_location(item: &Value) -> (r: Option<Location>)
    ensures
        match r {
            Some(l) => symbol_location(json_of(*item)) == Some(l@),
            None => symbol_location(json_of(*item)) is None,
        },
{
    let range = match get(item, "selectionRange") {
        Some(r) => Some(r),
        None => get(item, "range"),
    };
    match range {
        Some(r) => {
            let start = at(r, "start");
            let line: usize = match as_u64(at(start, "line")) {
                Some(n) => to_size(n),
                None => 0,
            };
            let col: usize = match as_u64(at(start, "character")) {
                Some(n) => to_size(n),
                None => 0,
            };
            let l = Location { path: String::new(), line, col };
            assert(l@.path =~= Seq::empty());
            Some(l)
        },
        None => {
            let all = parse_locations(at(item, "location"));
            let ghost views = location_views(all@);
            assert(views.len() == all@.len());
            let mut all = all;
            if all.len() > 0 {
                assert(views[0] == all@[0]@);
                Some(all.remove(0))
            } else {
                None
            }
        },
    }
}

fn push_symbols(items: &Vec<Value>, depth: usize, container: &str, out: &mut Vec<Symbol>)
    ensures
        symbol_views(final(out)@) == symbol_views(old(out)@) + symbols_from(
            jsons(items@),
            0,
            depth,
            container@,
        ),
    decreases jsons(items@),
{
    let ghost start = symbol_views(out@);
    let ghost all = jsons(items@);
    let ghost goal = symbols_from(all, 0, depth, container@);
    let mut i: usize = 0;
    assert(symbol_views(out@) + goal =~= start + goal);
    while i < items.len()
        invariant
            i <= items@.len(),
            all == jsons(items@),
            symbol_views(out@) + symbols_from(all, i as int, depth, container@) == start + goal,
        decreases items@.len() - i,
    {
        let ghost had = symbol_views(out@);
        let item = &items[i];
        assert(all[i as int] == json_of(*item));
        let name = as_text(at(item, "name"));
        let location = read_symbol_location(item);
        match (name, location) {
            (Some(name), Some(location)) => {
                let n: u64 = match as_u64(at(item, "kind")) {
                    Some(n) => n,
                    None => 0,
                };
                let own = match as_text(at(item, "containerName")) {
                    Some(c) => c,
                    None => container,
                };
                let sym = Symbol {
                    name: name.to_owned(),
                    kind: symbol_kind(n),
                    depth,
                    container: own.to_owned(),
                    location,
                };
                let ghost sv = sym@;
                assert(symbol_of(all[i as int], depth, container@) == Some(sv));
                out.push(sym);
                assert(symbol_views(out@) =~= had.push(sv));
                let ghost mid = symbol_views(out@);
                let ghost kids = symbols_from(
                    children_of(all[i as int]),
                    0,
                    deeper(depth),
                    name@,
                );
                let child_list = as_array(at(item, "children"));
                if let Some(children) = child_list {
                    proof {
                        if children@.len() > 0 {
                            lemma_children_smaller(all, i as int);
                        } else {
                            vstd::seq::axiom_seq_len_decreases(all, jsons(children@));
                        }
                    }
                    let below: usize = if depth < usize::MAX {
                        depth + 1
                    } else {
                        depth
                    };
                    push_symbols(children, below, name, out);
                } else {
                    assert(kids =~= Seq::empty());
                }
                assert(symbol_views(out@) =~= mid + kids);
                assert(symbol_views(out@) + symbols_from(all, i + 1, depth, container@) =~= had
                    + symbols_from(all, i as int, depth, container@));
            },
            _ => {
                assert(symbol_views(out@) + symbols_from(all, i + 1, depth, container@) =~= had
                    + symbols_from(all, i as int, depth, container@));
            },
        }
        i += 1;
    }
    assert(symbol_views(out@) =~= start + goal);
}

pub open spec fn symbols_of(j: Json) -> Seq<SymbolView> {
    match array_of(j) {
        Some(items) => symbols_from(items, 0, 0, Seq::empty()),
        None => Seq::empty(),
    }
}

/// The symbols of an answer: a tree, flattened, or a list.
pub fn parse_symbols(result: &Value) -> (r: Vec<Symbol>)
    ensures
        symbol_views(r@) == symbols_of(json_of(*result)),
{
    let mut out: Vec<Symbol> = Vec::new();
    assert(symbol_views(out@) =~= Seq::empty());
    if let Some(items) = as_array(result) {
        let none = String::new();
        assert(none@ =~= Seq::empty());
        push_symbols(items, 0, none.as_str(), &mut out);
        assert(symbol_views(out@) =~= symbols_from(jsons(items@), 0, 0, Seq::empty()));
    }
    out
}

// ---- completions ------------------------------------------------------------

/// An insert text from place `i` on without its snippet syntax: a placeholder
/// keeps its text, a stop leaves nothing.
pub open spec fn plain_snippet(s: Seq<char>, i: int) -> Seq<char>
    decreases s.len() - i,
{
    if i < 0 || i >= s.len() {
        Seq::empty()
    } else if s[i] != '$' {
        seq![s[i]] + plain_snippet(s, i + 1)
    } else if i + 1 < s.len() && s[i + 1] == '{' {
        let e = crate::strings::first_from(s, '}', i + 1);
        let inner = s.subrange(i + 1, e);
        (match split_once(inner, ':') {
            Some((_, placeholder)) => placeholder,
            None => Seq::empty(),
        }) + (if i < e < s.len() {
            plain_snippet(s, e + 1)
        } else {
            Seq::empty()
        })
    } else if i + 1 < s.len() && is_digit(s[i + 1]) {
        let e = digits_end(s, i + 1);
        if i < e <= s.len() {
            plain_snippet(s, e)
        } else {
            Seq::empty()
        }
    } else {
        seq!['$'] + plain_snippet(s, i + 1)
    }
}

pub open spec fn digits_end(s: Seq<char>, i: int) -> int
    decreases s.len() - i,
{
    if i < 0 || i >= s.len() || !is_digit(s[i]) {
        i
    } else {
        digits_end(s, i + 1)
    }
}

/// An insert text without its snippet syntax.
pub fn strip_snippet(text: &str) -> (r: String)
    ensures
        r@ == plain_snippet(text@, 0),
{
    let s = chars_of(text);
    let mut out: Vec<char> = Vec::new();
    let mut i: usize = 0;
    assert(out@ + plain_snippet(s@, 0) =~= plain_snippet(s@, 0));
    while i < s.len()
        invariant
            i <= s@.len(),
            s@ == text@,
            out@ + plain_snippet(s@, i as int) == plain_snippet(s@, 0),
        decreases s@.len() - i,
    {
        let ghost had = out@;
        let ghost was = i as int;
        if s[i] != '$' {
            out.push(s[i]);
            i += 1;
        } else if i < s.len() - 1 && s[i + 1] == '{' {
            proof {
                crate::strings::lemma_first_from(s@, '}', i + 1);
            }
            let e = crate::strings::find_from(s.as_slice(), '}', i + 1);
            let inner = vstd::slice::slice_subrange(s.as_slice(), i + 1, e);
            if let Some((_, placeholder)) = split_in_two(inner, ':') {
                push_all(&mut out, placeholder);
            }
            i = if e < s.len() {
                e + 1
            } else {
                s.len()
            };
        } else if i < s.len() - 1 && char_is_digit(s[i + 1]) {
            let mut e: usize = i + 1;
            while e < s.len() && char_is_digit(s[e])
                invariant
                    i < e <= s@.len(),
                    digits_end(s@, i + 1) == digits_end(s@, e as int),
                decreases s@.len() - e,
            {
                e += 1;
            }
            i = e;
        } else {
            out.push('$');
            i += 1;
        }
        assert(out@ + plain_snippet(s@, i as int) =~= had + plain_snippet(s@, was));
    }
    assert(out@ =~= plain_snippet(s@, 0));
    string_of(out.as_slice())
}

/// Whether a line of markdown is text: no fence and no rule.
pub open spec fn prose_line(l: Seq<char>) -> bool {
    !starts_with(trim_start(trim_end(l)), "```"@) && trim(trim_end(l)) != "---"@
}

pub open spec fn prose_upto(ls: Seq<Seq<char>>, n: nat) -> Seq<Seq<char>>
    decreases n,
{
    if n == 0 || n > ls.len() {
        Seq::empty()
    } else if prose_line(ls[n - 1]) {
        prose_upto(ls, (n - 1) as nat).push(trim_end(ls[n - 1]))
    } else {
        prose_upto(ls, (n - 1) as nat)
    }
}

/// Markdown without its fence lines and rules; what is in the fences stays.
pub open spec fn without_fences(s: Seq<char>) -> Seq<char> {
    let kept = prose_upto(lines(s), lines(s).len());
    trim(joined(kept, "\n"@, kept.len()))
}

/// Markdown without its fence lines and rules.
pub fn strip_fences(markdown: &str) -> (r: String)
    ensures
        r@ == without_fences(markdown@),
{
    let c = chars_of(markdown);
    let ls = lines_of(c.as_slice());
    let ghost all = lines(markdown@);
    let mut kept: Vec<String> = Vec::new();
    let mut i: usize = 0;
    assert(texts(kept@) =~= Seq::empty());
    assert(all.len() == ls@.len());
    while i < ls.len()
        invariant
            i <= ls@.len(),
            all == slices(ls@),
            texts(kept@) == prose_upto(all, i as nat),
        decreases ls@.len() - i,
    {
        assert(all[i as int] == ls@[i as int]@);
        let l = trim_right(ls[i]);
        if !has_prefix(trim_left(l), "```") && !spells(trimmed(l), "---") {
            let ghost had = kept@;
            kept.push(string_of(l));
            assert(texts(kept@) =~= texts(had).push(l@));
        }
        i += 1;
    }
    let all_text = join_texts(&kept, "\n");
    assert(texts(kept@).len() == kept@.len());
    let j = chars_of(all_text.as_str());
    string_of(trimmed(j.as_slice()))
}

/// The signature and the documentation of a completion.
pub open spec fn info_of(item: Json) -> Seq<char> {
    let detail = trim(
        match text_of(field(item, "detail"@)) {
            Some(t) => t,
            None => Seq::empty(),
        },
    );
    let doc = without_fences(
        match text_of(field(item, "documentation"@)) {
            Some(t) => t,
            None => match text_of(deep(item, "documentation"@, "value"@)) {
                Some(t) => t,
                None => Seq::empty(),
            },
        },
    );
    if detail.len() > 0 && doc.len() > 0 {
        detail + "\n\n"@ + doc
    } else if detail.len() > 0 {
        detail
    } else {
        doc
    }
}

/// The signature and the documentation of a completion.
pub fn item_info(item: &Value) -> (r: String)
    ensures
        r@ == info_of(json_of(*item)),
{
    let empty = String::new();
    assert(empty@ =~= Seq::empty());
    let detail_text = match as_text(at(item, "detail")) {
        Some(t) => t,
        None => empty.as_str(),
    };
    let dc = chars_of(detail_text);
    let detail = trimmed(dc.as_slice());
    let documentation = at(item, "documentation");
    let doc_text = match as_text(documentation) {
        Some(t) => t,
        None => match as_text(at(documentation, "value")) {
            Some(t) => t,
            None => empty.as_str(),
        },
    };
    let doc = strip_fences(doc_text);
    let d = chars_of(doc.as_str());
    if detail.len() > 0 && d.len() > 0 {
        let mut out: Vec<char> = Vec::new();
        push_all(&mut out, detail);
        push_lit(&mut out, "\n\n");
        push_all(&mut out, d.as_slice());
        assert(out@ =~= detail@ + "\n\n"@ + doc@);
        string_of(out.as_slice())
    } else if detail.len() > 0 {
        string_of(detail)
    } else {
        doc
    }
}

/// The items of an answer: a list, or a list with something about it.
pub open spec fn items_of(result: Json) -> Seq<Json> {
    match member(result, "items"@) {
        Some(Json::Array(items)) => items,
        _ => match array_of(result) {
            Some(items) => items,
            None => Seq::empty(),
        },
    }
}

/// A completion as (label, text to insert, documentation).
pub open spec fn completion_of(item: Json) -> Option<(Seq<char>, Seq<char>, Seq<char>)> {
    match text_of(field(item, "label"@)) {
        None => None,
        Some(l) => Some(
            (
                trim(l),
                match text_of(deep(item, "textEdit"@, "newText"@)) {
                    Some(t) => plain_snippet(t, 0),
                    None => match text_of(field(item, "insertText"@)) {
                        Some(t) => plain_snippet(t, 0),
                        None => trim(l),
                    },
                },
                info_of(item),
            ),
        ),
    }
}

pub open spec fn completions_upto(items: Seq<Json>, n: nat) -> Seq<(Seq<char>, Seq<char>, Seq<char>)>
    decreases n,
{
    if n == 0 || n > items.len() {
        Seq::empty()
    } else {
        let head = completions_upto(items, (n - 1) as nat);
        match completion_of(items[n - 1]) {
            Some(c) => head.push(c),
            None => head,
        }
    }
}

/// Items looked at in one answer.
pub const COMPLETION_ITEMS: usize = 100;

pub open spec fn looked_at(items: Seq<Json>) -> nat {
    if items.len() <= COMPLETION_ITEMS {
        items.len()
    } else {
        COMPLETION_ITEMS as nat
    }
}

pub open spec fn completions_of(result: Json) -> Seq<(Seq<char>, Seq<char>, Seq<char>)> {
    completions_upto(items_of(result), looked_at(items_of(result)))
}

pub open spec fn triple_views(v: Seq<(String, String, String)>) -> Seq<
    (Seq<char>, Seq<char>, Seq<char>),
> {
    Seq::new(v.len(), |i: int| (v[i].0@, v[i].1@, v[i].2@))
}

pub(crate) fn items_in<'a>(result: &'a Value, none: &'a Vec<Value>) -> (r: &'a Vec<Value>)
    requires
        none@.len() == 0,
    ensures
        jsons(r@) == items_of(json_of(*result)),
{
    if let Some(v) = get(result, "items") {
        if let Some(items) = as_array(v) {
            return items;
        }
    }
    match as_array(result) {
        Some(items) => items,
        None => {
            assert(jsons(none@) =~= Seq::empty());
            none
        },
    }
}

/// The completions of an answer, as (label, text to insert, documentation).
pub fn parse_completions(result: &Value) -> (r: Vec<(String, String, String)>)
    ensures
        triple_views(r@) == completions_of(json_of(*result)),
{
    let none: Vec<Value> = Vec::new();
    let items = items_in(result, &none);
    let ghost all = jsons(items@);
    let n: usize = if items.len() <= COMPLETION_ITEMS {
        items.len()
    } else {
        COMPLETION_ITEMS
    };
    let mut out: Vec<(String, String, String)> = Vec::new();
    let mut i: usize = 0;
    assert(triple_views(out@) =~= Seq::empty());
    while i < n
        invariant
            i <= n <= items@.len(),
            all == jsons(items@),
            triple_views(out@) == completions_upto(all, i as nat),
        decreases n - i,
    {
        let item = &items[i];
        assert(all[i as int] == json_of(*item));
        if let Some(l) = as_text(at(item, "label")) {
            let lc = chars_of(l);
            let label = string_of(trimmed(lc.as_slice()));
            let text = match as_text(at(at(item, "textEdit"), "newText")) {
                Some(t) => strip_snippet(t),
                None => match as_text(at(item, "insertText")) {
                    Some(t) => strip_snippet(t),
                    None => label.clone(),
                },
            };
            let info = item_info(item);
            let ghost had = out@;
            let ghost new = (label@, text@, info@);
            out.push((label, text, info));
            assert(triple_views(out@) =~= triple_views(had).push(new));
        }
        i += 1;
    }
    out
}

// ---- hover ------------------------------------------------------------------

pub open spec fn hover_part(j: Json) -> Option<Seq<char>> {
    match text_of(j) {
        Some(t) => Some(t),
        None => match member(j, "value"@) {
            Some(v) => text_of(v),
            None => None,
        },
    }
}

pub open spec fn hover_parts(items: Seq<Json>, n: nat) -> Seq<Seq<char>>
    decreases n,
{
    if n == 0 || n > items.len() {
        Seq::empty()
    } else {
        let head = hover_parts(items, (n - 1) as nat);
        match hover_part(items[n - 1]) {
            Some(t) => head.push(t),
            None => head,
        }
    }
}

pub open spec fn hover_raw(contents: Json) -> Option<Seq<char>> {
    match hover_part(contents) {
        Some(t) => Some(t),
        None => match array_of(contents) {
            None => None,
            Some(items) => {
                let parts = hover_parts(items, items.len());
                if parts.len() == 0 {
                    None
                } else {
                    Some(joined(parts, "\n\n"@, parts.len()))
                }
            },
        },
    }
}

/// The text to show on hovering, in whichever shape it came.
pub open spec fn hover_of(result: Json) -> Option<Seq<char>> {
    match member(result, "contents"@) {
        None => None,
        Some(contents) => match hover_raw(contents) {
            None => None,
            Some(raw) => if without_fences(raw).len() == 0 {
                None
            } else {
                Some(without_fences(raw))
            },
        },
    }
}

fn read_hover_part(v: &Value) -> (r: Option<String>)
    ensures
        opt_text(r) == hover_part(json_of(*v)),
{
    if let Some(t) = as_text(v) {
        return Some(t.to_owned());
    }
    match get(v, "value") {
        Some(x) => match as_text(x) {
            Some(t) => Some(t.to_owned()),
            None => None,
        },
        None => None,
    }
}

fn read_hover(contents: &Value) -> (r: Option<String>)
    ensures
        opt_text(r) == hover_raw(json_of(*contents)),
{
    if let Some(t) = read_hover_part(contents) {
        return Some(t);
    }
    match as_array(contents) {
        None => None,
        Some(items) => {
            let ghost all = jsons(items@);
            let mut parts: Vec<String> = Vec::new();
            let mut i: usize = 0;
            assert(texts(parts@) =~= Seq::empty());
            while i < items.len()
                invariant
                    i <= items@.len(),
                    all == jsons(items@),
                    texts(parts@) == hover_parts(all, i as nat),
                decreases items@.len() - i,
            {
                assert(all[i as int] == json_of(items@[i as int]));
                if let Some(t) = read_hover_part(&items[i]) {
                    let ghost had = parts@;
                    let ghost tv = t@;
                    parts.push(t);
                    assert(texts(parts@) =~= texts(had).push(tv));
                }
                i += 1;
            }
            assert(texts(parts@).len() == parts@.len());
            if parts.len() == 0 {
                None
            } else {
                Some(join_texts(&parts, "\n\n"))
            }
        },
    }
}

/// The text to show on hovering.
pub fn hover_text(result: &Value) -> (r: Option<String>)
    ensures
        opt_text(r) == hover_of(json_of(*result)),
{
    match get(result, "contents") {
        None => None,
        Some(contents) => match read_hover(contents) {
            None => None,
            Some(raw) => {
                let text = strip_fences(raw.as_str());
                if chars_of(text.as_str()).len() == 0 {
                    None
                } else {
                    Some(text)
                }
            },
        },
    }
}

// ---- frames and names -------------------------------------------------------

/// The name that servers have for a file's language: the extension where it
/// has no other.
pub open spec fn language_of(ext: Seq<char>) -> Seq<char> {
    if ext == "rs"@ {
        "rust"@
    } else if ext == "py"@ {
        "python"@
    } else if ext == "ts"@ {
        "typescript"@
    } else if ext == "tsx"@ {
        "typescriptreact"@
    } else if ext == "js"@ {
        "javascript"@
    } else if ext == "c"@ {
        "c"@
    } else if ext == "h"@ {
        "c"@
    } else if ext == "cc"@ {
        "cpp"@
    } else if ext == "cpp"@ {
        "cpp"@
    } else if ext == "hpp"@ {
        "cpp"@
    } else if ext == "rb"@ {
        "ruby"@
    } else if ext == "kt"@ {
        "kotlin"@
    } else if ext == "hs"@ {
        "haskell"@
    } else if ext == "ex"@ {
        "elixir"@
    } else if ext == "exs"@ {
        "elixir"@
    } else if ext == "md"@ {
        "markdown"@
    } else if ext == "sh"@ {
        "shellscript"@
    } else if ext == "oxi"@ {
        "oxigen"@
    } else {
        ext
    }
}

fn language_for(ext: &str) -> (r: String)
    ensures
        r@ == language_of(ext@),
{
    if same(ext, "rs") {
        "rust".to_owned()
    } else if same(ext, "py") {
        "python".to_owned()
    } else if same(ext, "ts") {
        "typescript".to_owned()
    } else if same(ext, "tsx") {
        "typescriptreact".to_owned()
    } else if same(ext, "js") {
        "javascript".to_owned()
    } else if same(ext, "c") {
        "c".to_owned()
    } else if same(ext, "h") {
        "c".to_owned()
    } else if same(ext, "cc") {
        "cpp".to_owned()
    } else if same(ext, "cpp") {
        "cpp".to_owned()
    } else if same(ext, "hpp") {
        "cpp".to_owned()
    } else if same(ext, "rb") {
        "ruby".to_owned()
    } else if same(ext, "kt") {
        "kotlin".to_owned()
    } else if same(ext, "hs") {
        "haskell".to_owned()
    } else if same(ext, "ex") {
        "elixir".to_owned()
    } else if same(ext, "exs") {
        "elixir".to_owned()
    } else if same(ext, "md") {
        "markdown".to_owned()
    } else if same(ext, "sh") {
        "shellscript".to_owned()
    } else if same(ext, "oxi") {
        "oxigen".to_owned()
    } else {
        ext.to_owned()
    }
}

/// The name that servers have for a file's language.
pub fn language_id(path: &str) -> (r: String)
    ensures
        r@ == language_of(
            match extension_of(path@) {
                Some(e) => e,
                None => Seq::empty(),
            },
        ),
{
    match extension(path) {
        Some(e) => language_for(e.as_str()),
        None => {
            let none = String::new();
            assert(none@ =~= Seq::empty());
            language_for(none.as_str())
        },
    }
}

/// What the header of a message says of the body's length after one more
/// line.
pub open spec fn length_after(len: Option<nat>, line: Seq<char>) -> Option<nat> {
    match without_prefix(trim_end(line), "Content-Length:"@) {
        Some(v) => parse_number(trim(v), usize::MAX as nat),
        None => len,
    }
}

/// One more line of a message's header: the length that the header gives so
/// far. An empty line ends it.
pub fn header_line(len: Option<usize>, line: &str) -> (r: Option<usize>)
    ensures
        match r {
            Some(n) => length_after(
                match len {
                    Some(n) => Some(n as nat),
                    None => None,
                },
                line@,
            ) == Some(n as nat),
            None => length_after(
                match len {
                    Some(n) => Some(n as nat),
                    None => None,
                },
                line@,
            ) is None,
        },
{
    let c = chars_of(line);
    match strip_prefix(trim_right(c.as_slice()), "Content-Length:") {
        Some(v) => read_usize(trimmed(v)),
        None => len,
    }
}

/// A message as it goes over the wire: its length in bytes, and the body.
pub open spec fn framed(body: Seq<char>) -> Seq<char> {
    "Content-Length: "@ + crate::strings::decimal(encode_utf8(body).len()) + "\r\n\r\n"@ + body
}

/// A message as it goes over the wire.
pub fn frame(body: &str) -> (r: String)
    ensures
        r@ == framed(body@),
{
    let mut out: Vec<char> = Vec::new();
    push_lit(&mut out, "Content-Length: ");
    let n: usize = body.as_bytes().len();
    crate::strings::push_number(&mut out, n as u64);
    push_lit(&mut out, "\r\n\r\n");
    push_lit(&mut out, body);
    assert(out@ =~= framed(body@));
    string_of(out.as_slice())
}

/// A message written and framed: one that is plain reads back as it is.
pub fn frame_message(v: &Value) -> (r: String)
    ensures
        plain_json(json_of(*v), 127) ==> message_from(r@, 0, None) == Some(json_of(*v)),
        exists|body: Seq<char>| r@ == #[trigger] framed(body) && (plain_json(json_of(*v), 127)
            ==> json_read(body) == Some(json_of(*v))),
{
    let body = crate::json::write_json(v);
    let n: usize = body.as_str().as_bytes().len();
    assert(encode_utf8(body@).len() == n);
    proof {
        law_a_framed_message_reads_back(body@, Seq::empty());
        assert(framed(body@) + Seq::<char>::empty() =~= framed(body@));
    }
    frame(body.as_str())
}

/// How many characters from place `i` on take exactly so many bytes.
pub open spec fn chars_for(s: Seq<char>, i: int, bytes: nat) -> Option<int>
    decreases s.len() - i,
{
    if bytes == 0 {
        Some(0)
    } else if i < 0 || i >= s.len() || bytes < bytes_of(s[i]) {
        None
    } else {
        match chars_for(s, i + 1, (bytes - bytes_of(s[i])) as nat) {
            Some(n) => Some(n + 1),
            None => None,
        }
    }
}

/// The message of an input from place `i` on, where the header has given a
/// length so far. A header ends with an empty line.
pub open spec fn message_from(s: Seq<char>, i: int, len: Option<nat>) -> Option<Json>
    decreases s.len() - i,
{
    if i < 0 || i >= s.len() {
        None
    } else {
        let e = crate::strings::first_from(s, '\n', i);
        let line = s.subrange(i, e);
        let next = if e < s.len() {
            e + 1
        } else {
            s.len() as int
        };
        if e < i {
            None
        } else if trim_end(line).len() == 0 {
            match len {
                None => None,
                Some(n) => match chars_for(s, next, n) {
                    None => None,
                    Some(k) => json_read(s.subrange(next, next + k)),
                },
            }
        } else {
            message_from(s, next, length_after(len, line))
        }
    }
}

fn count_chars(s: &[char], i: usize, bytes: usize) -> (r: Option<usize>)
    requires
        i <= s@.len(),
    ensures
        match r {
            Some(n) => chars_for(s@, i as int, bytes as nat) == Some(n as int) && i + n <= s@.len(),
            None => chars_for(s@, i as int, bytes as nat) is None,
        },
{
    let mut k: usize = i;
    let mut left: usize = bytes;
    while left > 0
        invariant
            i <= k <= s@.len(),
            match chars_for(s@, k as int, left as nat) {
                Some(n) => chars_for(s@, i as int, bytes as nat) == Some(n + (k - i)),
                None => chars_for(s@, i as int, bytes as nat) is None,
            },
        decreases left,
    {
        if k >= s.len() {
            return None;
        }
        let c = s[k] as u32;
        let n: usize = if c < 0x80 {
            1
        } else if c < 0x800 {
            2
        } else if c < 0x10000 {
            3
        } else {
            4
        };
        if left < n {
            return None;
        }
        left -= n;
        k += 1;
    }
    Some(k - i)
}

/// The message that an input starts with: a header that gives the length of
/// the body, an empty line, and the body.
pub fn read_message(input: &str) -> (r: Option<Value>)
    ensures
        match r {
            Some(v) => message_from(input@, 0, None) == Some(json_of(v)),
            None => message_from(input@, 0, None) is None,
        },
{
    let s = chars_of(input);
    let mut i: usize = 0;
    let mut len: Option<usize> = None;
    let ghost mut seen: Option<nat> = None;
    while i < s.len()
        invariant
            i <= s@.len(),
            s@ == input@,
            seen == (match len {
                Some(n) => Some(n as nat),
                None => None::<nat>,
            }),
            message_from(s@, 0, None) == message_from(s@, i as int, seen),
        decreases s@.len() - i,
    {
        proof {
            crate::strings::lemma_first_from(s@, '\n', i as int);
        }
        let e = crate::strings::find_from(s.as_slice(), '\n', i);
        let line = vstd::slice::slice_subrange(s.as_slice(), i, e);
        let next: usize = if e < s.len() {
            e + 1
        } else {
            s.len()
        };
        if trim_right(line).len() == 0 {
            let n = match len {
                Some(n) => n,
                None => {
                    return None;
                },
            };
            let k = match count_chars(s.as_slice(), next, n) {
                Some(k) => k,
                None => {
                    return None;
                },
            };
            let body = string_of(vstd::slice::slice_subrange(s.as_slice(), next, next + k));
            return parse_json(body.as_str());
        }
        let text = string_of(line);
        len = header_line(len, text.as_str());
        proof {
            seen = length_after(seen, line@);
        }
        i = next;
    }
    None
}

proof fn lemma_bytes_of_head(body: Seq<char>)
    requires
        body.len() > 0,
    ensures
        encode_utf8(body).len() == bytes_of(body[0]) + encode_utf8(body.drop_first()).len(),
{
    let c = body[0] as u32;
    vstd::utf8::char_is_scalar(body[0]);
    assert(vstd::utf8::encode_scalar(c).len() == bytes_of(body[0]));
}

/// As many bytes as a text takes are its characters, wherever it stands.
proof fn lemma_chars_for(s: Seq<char>, i: int, body: Seq<char>)
    requires
        0 <= i,
        i + body.len() <= s.len(),
        s.subrange(i, i + body.len()) == body,
    ensures
        chars_for(s, i, encode_utf8(body).len()) == Some(body.len() as int),
    decreases body.len(),
{
    if body.len() > 0 {
        let rest = body.drop_first();
        assert(s[i] == body[0]) by {
            assert(s.subrange(i, i + body.len())[0] == s[i]);
        }
        assert(s.subrange(i + 1, i + 1 + rest.len()) =~= rest) by {
            assert forall|k: int| 0 <= k < rest.len() implies s[i + 1 + k] == rest[k] by {
                assert(s.subrange(i, i + body.len())[k + 1] == s[i + 1 + k]);
            }
        }
        lemma_bytes_of_head(body);
        lemma_chars_for(s, i + 1, rest);
    }
}

proof fn lemma_first_is(s: Seq<char>, c: char, i: int, e: int)
    requires
        0 <= i <= e < s.len(),
        s[e] == c,
        forall|k: int| i <= k < e ==> s[k] != c,
    ensures
        crate::strings::first_from(s, c, i) == e,
{
    crate::strings::lemma_first_from(s, c, i);
}

/// The length that the first line of a framed message gives.
proof fn lemma_length_line(digits: Seq<char>, n: nat)
    requires
        n <= usize::MAX,
        digits == crate::strings::decimal(n),
    ensures
        trim_end("Content-Length: "@ + digits + seq!['\r']) == "Content-Length: "@ + digits,
        length_after(None, "Content-Length: "@ + digits + seq!['\r']) == Some(n),
{
    crate::strings::law_a_written_number_reads_back(n, usize::MAX as nat);
    reveal_strlit("Content-Length: ");
    reveal_strlit("Content-Length:");
    let h = "Content-Length: "@;
    let p = "Content-Length:"@;
    let m = digits.len() as int;
    let text = h + digits;
    let line = text + seq!['\r'];
    assert(is_digit(digits[m - 1]));
    assert(line[16 + m] == '\r' && line[16 + m - 1] == digits[m - 1]);
    reveal_with_fuel(crate::strings::drop_white, 3);
    assert(crate::strings::drop_white(line, line.len() as int) == 16 + m);
    assert(line.take(16 + m) =~= text);
    assert(text.subrange(0, 15) =~= p);
    assert(starts_with(text, p));
    let v = text.skip(15);
    assert(v =~= seq![' '] + digits);
    assert(v[0] == ' ' && v[1] == digits[0]);
    assert(is_digit(digits[0]));
    reveal_with_fuel(crate::strings::skip_white, 3);
    assert(crate::strings::skip_white(v, 0) == 1);
    assert(v.skip(1) =~= digits);
    assert(crate::strings::drop_white(digits, m) == m);
    assert(digits.take(m) =~= digits);
}

/// What has been framed is read back, whatever comes behind it.
pub proof fn law_a_framed_message_reads_back(body: Seq<char>, rest: Seq<char>)
    requires
        encode_utf8(body).len() <= usize::MAX,
    ensures
        message_from(framed(body) + rest, 0, None) == json_read(body),
{
    let n = encode_utf8(body).len();
    let digits = crate::strings::decimal(n);
    crate::strings::law_a_written_number_reads_back(n, usize::MAX as nat);
    lemma_length_line(digits, n);
    reveal_strlit("Content-Length: ");
    reveal_strlit("\r\n\r\n");
    let h = "Content-Length: "@;
    let m = digits.len() as int;
    let s = framed(body) + rest;
    let e = 16 + m + 1;
    assert forall|k: int| 0 <= k < e implies s[k] != '\n' by {
        if k < 16 {
            assert(s[k] == h[k]);
        } else if k < 16 + m {
            assert(s[k] == digits[k - 16]);
            assert(is_digit(digits[k - 16]));
        } else {
            assert(s[k] == "\r\n\r\n"@[0]);
        }
    }
    assert(s[e] == "\r\n\r\n"@[1]);
    assert(s[e + 1] == "\r\n\r\n"@[2]);
    assert(s[e + 2] == "\r\n\r\n"@[3]);
    lemma_first_is(s, '\n', 0, e);
    assert(s.subrange(0, e) =~= h + digits + seq!['\r']);
    lemma_first_is(s, '\n', e + 1, e + 2);
    let blank = s.subrange(e + 1, e + 2);
    assert(blank =~= seq!['\r']);
    reveal_with_fuel(crate::strings::drop_white, 3);
    assert(crate::strings::drop_white(blank, 1) == 0);
    assert(trim_end(blank).len() == 0);
    let at = e + 3;
    assert(s.subrange(at, at + body.len()) =~= body);
    lemma_chars_for(s, at, body);
    assert(message_from(s, e + 1, Some(n)) == json_read(body));
}

} // verus!
