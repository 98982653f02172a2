//! Dependency versions of package manifests: the version a manifest has and
//! the latest a registry knows, and the rewrite of one to the other. Rust
//! (Cargo.toml), JS/TS (package.json), Python (pyproject.toml,
//! requirements.txt), Go (go.mod).

use vstd::prelude::*;
use vstd::slice::slice_subrange;
use vstd::string::StringSliceAdditionalSpecFns;
use vstd::utf8::{decode_utf8, encode_utf8, is_char_boundary, valid_utf8};
use serde_json::Value;
use crate::json::{
    array_of, as_array, as_bool, as_object, as_text, at, bool_of, field, json_entries, json_of,
    json_read, jsons, parse_json, text_of, Json,
};
use crate::strings::{
    alphanumeric, ascii_lower, before, before_sub, char_ascii_lower, char_is_alphanumeric,
    char_is_digit, char_is_white, chars_of, ends_with, find_from, first_from, first_nonwhite,
    has_char, has_prefix, has_sub, has_suffix, holds_sub, is_digit, is_white, lemma_first_from,
    lines, lines_of, lowercase, opt_text, parse_number, part_before, part_before_sub, pieces,
    push_all, push_lit, read_u64, replace_all, replaced_from, same, skip_white, slices, spells,
    split_at_char, split_in_two, split_once, starts_with, string_of, strip_prefix, texts, trim,
    trim_end_set, trim_left_of, trim_right_of, trim_set, trim_start_set, trimmed, trimmed_of,
    without_prefix, words, words_of,
};

verus! {

#[derive(Clone, Copy, PartialEq, Eq, Structural, Debug)]
pub enum Kind {
    Cargo,
    Npm,
    Pypi,
    Requirements,
    Go,
}

/// A dependency: its name, and its version where the manifest says one.
pub type Dep = (String, Option<String>);

/// The same over mathematical strings.
pub type DepView = (Seq<char>, Option<Seq<char>>);

pub open spec fn dep_views(v: Seq<Dep>) -> Seq<DepView> {
    Seq::new(v.len(), |i: int| (v[i].0@, opt_text(v[i].1)))
}

pub open spec fn kind_of_file(name: Seq<char>) -> Option<Kind> {
    if name == "Cargo.toml"@ {
        Some(Kind::Cargo)
    } else if name == "package.json"@ {
        Some(Kind::Npm)
    } else if name == "pyproject.toml"@ {
        Some(Kind::Pypi)
    } else if name == "requirements.txt"@ {
        Some(Kind::Requirements)
    } else if name == "go.mod"@ {
        Some(Kind::Go)
    } else {
        None
    }
}

/// The ecosystem a manifest file belongs to, by file name.
pub fn manifest_kind(file_name: &str) -> (r: Option<Kind>)
    ensures
        r == kind_of_file(file_name@),
{
    if same(file_name, "Cargo.toml") {
        Some(Kind::Cargo)
    } else if same(file_name, "package.json") {
        Some(Kind::Npm)
    } else if same(file_name, "pyproject.toml") {
        Some(Kind::Pypi)
    } else if same(file_name, "requirements.txt") {
        Some(Kind::Requirements)
    } else if same(file_name, "go.mod") {
        Some(Kind::Go)
    } else {
        None
    }
}

// ---- little parsers ---------------------------------------------------------

/// The characters of a Python package's name.
pub open spec fn is_name_char(c: char) -> bool {
    alphanumeric(c) || c == '-' || c == '_' || c == '.'
}

/// The first place at or after `i` that no name reaches over.
pub open spec fn name_end(s: Seq<char>, i: int) -> int
    decreases s.len() - i,
{
    if i < 0 || i >= s.len() || !is_name_char(s[i]) {
        i
    } else {
        name_end(s, i + 1)
    }
}

fn end_of_name(s: &[char], from: usize) -> (r: usize)
    requires
        from <= s@.len(),
    ensures
        r == name_end(s@, from as int),
        from <= r <= s@.len(),
{
    let mut k: usize = from;
    while k < s.len() && (char_is_alphanumeric(s[k]) || s[k] == '-' || s[k] == '_' || s[k] == '.')
        invariant
            from <= k <= s@.len(),
            name_end(s@, from as int) == name_end(s@, k as int),
        decreases s@.len() - k,
    {
        k += 1;
    }
    k
}

/// Where what stands in brackets at `i`, behind blanks, ends: the extras that
/// a requirement asks for. `i` itself where there is none.
pub open spec fn extras_end(s: Seq<char>, i: int) -> int {
    let j = skip_white(s, i);
    let k = first_from(s, ']', j);
    if 0 <= j < s.len() && s[j] == '[' && j < k < s.len() {
        k + 1
    } else {
        i
    }
}

fn end_of_extras(s: &[char], from: usize) -> (r: usize)
    requires
        from <= s@.len(),
    ensures
        r == extras_end(s@, from as int),
        from <= r <= s@.len(),
{
    let j = first_nonwhite(s, from);
    if j < s.len() && s[j] == '[' {
        let k = find_from(s, ']', j);
        if j < k && k < s.len() {
            return k + 1;
        }
    }
    from
}

/// What a requirement asks of the version: what stands behind its name and its
/// extras, before a marker.
pub open spec fn specifier(req: Seq<char>) -> Seq<char> {
    before(req.skip(extras_end(req, name_end(req, 0))), ';')
}

fn specifier_of<'a>(req: &'a [char]) -> (r: &'a [char])
    ensures
        r@ == specifier(req@),
{
    let e = end_of_extras(req, end_of_name(req, 0));
    let rest = slice_subrange(req, e, req.len());
    assert(rest@ =~= req@.skip(e as int));
    part_before(rest, ';')
}

/// PEP 503 normalization of the first `n` characters: lower case, and each
/// run of `-`, `_` and `.` becomes one `-`.
pub open spec fn normalized_upto(s: Seq<char>, n: nat) -> Seq<char>
    decreases n,
{
    if n == 0 || n > s.len() {
        Seq::empty()
    } else {
        let done = normalized_upto(s, (n - 1) as nat);
        let c = s[n - 1];
        if c == '-' || c == '_' || c == '.' {
            if done.len() > 0 && done.last() == '-' {
                done
            } else {
                done.push('-')
            }
        } else {
            done.push(ascii_lower(c))
        }
    }
}

pub open spec fn normalized(s: Seq<char>) -> Seq<char> {
    normalized_upto(s, s.len())
}

fn normalize(s: &[char]) -> (out: Vec<char>)
    ensures
        out@ == normalized(s@),
{
    let mut out: Vec<char> = Vec::new();
    let mut i: usize = 0;
    while i < s.len()
        invariant
            i <= s@.len(),
            out@ == normalized_upto(s@, i as nat),
        decreases s@.len() - i,
    {
        let c = s[i];
        if c == '-' || c == '_' || c == '.' {
            let n: usize = out.len();
            if !(n > 0 && out[n - 1] == '-') {
                out.push('-');
            }
        } else {
            out.push(char_ascii_lower(c));
        }
        i += 1;
    }
    out
}

/// PEP 503 normalization: lowercase, `-`/`_`/`.` runs become one `-`.
pub fn normalize_py(name: &str) -> (r: String)
    ensures
        r@ == normalized(name@),
{
    let c = chars_of(name);
    let n = normalize(c.as_slice());
    string_of(n.as_slice())
}

/// The package name at the front of a Python requirement, normalized.
pub open spec fn requirement_name(req: Seq<char>) -> Option<Seq<char>> {
    let e = name_end(req, 0);
    if e == 0 {
        None
    } else {
        Some(normalized(req.take(e)))
    }
}

fn req_name(req: &[char]) -> (r: Option<String>)
    ensures
        opt_text(r) == requirement_name(req@),
{
    let e = end_of_name(req, 0);
    if e == 0 {
        None
    } else {
        let n = normalize(slice_subrange(req, 0, e));
        Some(string_of(n.as_slice()))
    }
}

/// The first digit at or after `i`, or the length.
pub open spec fn digit_from(s: Seq<char>, i: int) -> int
    decreases s.len() - i,
{
    if i < 0 || i >= s.len() {
        s.len() as int
    } else if is_digit(s[i]) {
        i
    } else {
        digit_from(s, i + 1)
    }
}

/// The first place at or after `i` that holds neither a digit nor a dot.
pub open spec fn version_end(s: Seq<char>, i: int) -> int
    decreases s.len() - i,
{
    if i < 0 || i >= s.len() || !(is_digit(s[i]) || s[i] == '.') {
        i
    } else {
        version_end(s, i + 1)
    }
}

fn find_digit(s: &[char], from: usize) -> (r: usize)
    requires
        from <= s@.len(),
    ensures
        r == digit_from(s@, from as int),
        from <= r <= s@.len(),
        r < s@.len() ==> is_digit(s@[r as int]),
{
    let mut k: usize = from;
    while k < s.len() && !char_is_digit(s[k])
        invariant
            from <= k <= s@.len(),
            digit_from(s@, from as int) == digit_from(s@, k as int),
        decreases s@.len() - k,
    {
        k += 1;
    }
    k
}

fn end_of_version(s: &[char], from: usize) -> (r: usize)
    requires
        from <= s@.len(),
    ensures
        r == version_end(s@, from as int),
        from <= r <= s@.len(),
        from < s@.len() && is_digit(s@[from as int]) ==> from < r,
{
    let mut k: usize = from;
    while k < s.len() && (char_is_digit(s[k]) || s[k] == '.')
        invariant
            from <= k <= s@.len(),
            version_end(s@, from as int) == version_end(s@, k as int),
            from < s@.len() && is_digit(s@[from as int]) && k < s@.len() && !(is_digit(s@[k as int])
                || s@[k as int] == '.') ==> from < k,
        decreases s@.len() - k,
    {
        k += 1;
    }
    k
}

/// The concrete version inside a range spec: `^1.2.3` / `>=0.100` -> digits.
pub open spec fn version_in(spec: Seq<char>) -> Option<Seq<char>> {
    let d = digit_from(spec, 0);
    if d < spec.len() {
        Some(spec.subrange(d, version_end(spec, d)))
    } else {
        None
    }
}

fn spec_version(spec: &[char]) -> (r: Option<String>)
    ensures
        opt_text(r) == version_in(spec@),
{
    let d = find_digit(spec, 0);
    if d < spec.len() {
        let e = end_of_version(spec, d);
        Some(string_of(slice_subrange(spec, d, e)))
    } else {
        None
    }
}

/// The quoted strings of `s` from `i` on, and whether a `]` outside quotes
/// stands before the end or before a quote that is never closed.
pub open spec fn quoted_from(s: Seq<char>, i: int) -> (Seq<Seq<char>>, bool)
    decreases s.len() - i,
{
    if i < 0 || i > s.len() {
        (Seq::empty(), false)
    } else {
        let q = first_from(s, '"', i);
        if q < i || q >= s.len() {
            (Seq::empty(), s.skip(i).contains(']'))
        } else {
            let closed = s.subrange(i, q).contains(']');
            let e = first_from(s, '"', q + 1);
            if e <= q || e >= s.len() {
                (Seq::empty(), closed)
            } else {
                let rest = quoted_from(s, e + 1);
                (seq![s.subrange(q + 1, e)] + rest.0, closed || rest.1)
            }
        }
    }
}

/// The quoted strings in a line, plus whether an unquoted `]` closed an array.
fn quoted_items<'a>(s: &'a [char]) -> (r: (Vec<&'a [char]>, bool))
    ensures
        (slices(r.0@), r.1) == quoted_from(s@, 0),
{
    let mut items: Vec<&'a [char]> = Vec::new();
    let mut closed = false;
    let mut i: usize = 0;
    loop
        invariant
            i <= s@.len(),
            slices(items@) + quoted_from(s@, i as int).0 =~= quoted_from(s@, 0).0,
            (closed || quoted_from(s@, i as int).1) == quoted_from(s@, 0).1,
        decreases s@.len() - i,
    {
        let q = find_from(s, '"', i);
        if q >= s.len() {
            let tail = slice_subrange(s, i, s.len());
            assert(tail@ =~= s@.skip(i as int));
            if has_char(tail, ']') {
                closed = true;
            }
            return (items, closed);
        }
        if has_char(slice_subrange(s, i, q), ']') {
            closed = true;
        }
        let e = find_from(s, '"', q + 1);
        if e >= s.len() {
            return (items, closed);
        }
        let ghost had = items@;
        let item = slice_subrange(s, q + 1, e);
        items.push(item);
        assert(slices(items@) =~= slices(had) + seq![item@]);
        assert(quoted_from(s@, i as int).0 =~= seq![item@] + quoted_from(s@, e + 1).0);
        i = e + 1;
    }
}

// ---- manifest parsers -------------------------------------------------------

/// The crate that a `key = value` line of a dependency table names:
/// `serde.workspace = true` names the crate before the dot.
pub open spec fn cargo_key(line: Seq<char>) -> Option<Seq<char>> {
    match split_once(line, '=') {
        Some((key, _)) => {
            let name = before(trim_set(trim(key), '"', '"'), '.');
            if name.len() == 0 {
                None
            } else {
                Some(name)
            }
        },
        None => None,
    }
}

fn cargo_name<'a>(line: &'a [char]) -> (r: Option<&'a [char]>)
    ensures
        match r {
            Some(n) => cargo_key(line@) == Some(n@),
            None => cargo_key(line@) is None,
        },
{
    match split_in_two(line, '=') {
        Some((key, _)) => {
            let name = part_before(trimmed_of(trimmed(key), '"', '"'), '.');
            if name.len() == 0 {
                None
            } else {
                Some(name)
            }
        },
        None => None,
    }
}

pub struct CargoReading {
    pub in_deps: bool,
    pub names: Seq<Seq<char>>,
}

pub open spec fn cargo_line(st: CargoReading, raw: Seq<char>) -> CargoReading {
    let line = trim(raw);
    if let Some(section) = without_prefix(line, "["@) {
        CargoReading {
            in_deps: ends_with(trim_end_set(section, ']', ']'), "dependencies"@),
            names: st.names,
        }
    } else if !st.in_deps || starts_with(line, "#"@) {
        st
    } else if let Some(name) = cargo_key(line) {
        CargoReading { in_deps: st.in_deps, names: st.names.push(name) }
    } else {
        st
    }
}

pub open spec fn cargo_lines(all: Seq<Seq<char>>, n: nat) -> CargoReading
    decreases n,
{
    if n == 0 || n > all.len() {
        CargoReading { in_deps: false, names: Seq::empty() }
    } else {
        cargo_line(cargo_lines(all, (n - 1) as nat), all[n - 1])
    }
}

/// The dependency names in the `[…dependencies]` sections of a Cargo.toml.
pub open spec fn cargo_names(toml: Seq<char>) -> Seq<Seq<char>> {
    cargo_lines(lines(toml), lines(toml).len()).names
}

/// Dependency names in the `[…dependencies]` sections of a Cargo.toml.
pub(crate) fn cargo_dep_names(toml: &str) -> (out: Vec<String>)
    ensures
        texts(out@) == cargo_names(toml@),
{
    let chars = chars_of(toml);
    let all = lines_of(chars.as_slice());
    let mut out: Vec<String> = Vec::new();
    let mut in_deps = false;
    let mut i: usize = 0;
    assert(texts(out@) =~= Seq::<Seq<char>>::empty());
    while i < all.len()
        invariant
            i <= all@.len(),
            cargo_lines(slices(all@), i as nat).in_deps == in_deps,
            cargo_lines(slices(all@), i as nat).names == texts(out@),
        decreases all@.len() - i,
    {
        let line = trimmed(all[i]);
        assert(slices(all@)[i as int] == all@[i as int]@);
        match strip_prefix(line, "[") {
            Some(section) => {
                in_deps = has_suffix(trim_right_of(section, ']', ']'), "dependencies");
            },
            None => {
                if in_deps && !has_prefix(line, "#") {
                    match cargo_name(line) {
                        Some(name) => {
                            let ghost had = out@;
                            out.push(string_of(name));
                            assert(texts(out@) =~= texts(had).push(name@));
                        },
                        None => {},
                    }
                }
            },
        }
        i += 1;
    }
    out
}

/// Each name without a version: Cargo.lock has the truth.
pub open spec fn unversioned(names: Seq<Seq<char>>) -> Seq<DepView> {
    Seq::new(names.len(), |i: int| (names[i], None))
}

/// Dependency names in the `[…dependencies]` sections of a Cargo.toml.
pub fn cargo_deps(toml: &str) -> (out: Vec<Dep>)
    ensures
        dep_views(out@) == unversioned(cargo_names(toml@)),
{
    let names = cargo_dep_names(toml);
    let mut out: Vec<Dep> = Vec::new();
    let mut i: usize = 0;
    while i < names.len()
        invariant
            i <= names@.len(),
            out@.len() == i,
            forall|k: int| 0 <= k < i ==> out@[k].0@ == names@[k]@ && out@[k].1 is None,
        decreases names@.len() - i,
    {
        out.push((names[i].clone(), None));
        i += 1;
    }
    assert(dep_views(out@) =~= unversioned(texts(names@)));
    out
}

/// Versions by package name.
pub struct Versions {
    entries: Vec<(String, String)>,
}

impl Versions {
    /// What the first `n` entries say, each later one over the earlier.
    pub closed spec fn upto(&self, n: nat) -> Map<Seq<char>, Seq<char>>
        decreases n,
    {
        if n == 0 || n > self.entries@.len() {
            Map::empty()
        } else {
            self.upto((n - 1) as nat).insert(
                self.entries@[n - 1].0@,
                self.entries@[n - 1].1@,
            )
        }
    }

    fn new() -> (r: Self)
        ensures
            r@ == Map::<Seq<char>, Seq<char>>::empty(),
    {
        Versions { entries: Vec::new() }
    }

    proof fn lemma_same_prefix(a: &Self, b: &Self, n: nat)
        requires
            n <= a.entries@.len(),
            n <= b.entries@.len(),
            forall|i: int| 0 <= i < n ==> a.entries@[i] == b.entries@[i],
        ensures
            a.upto(n) == b.upto(n),
        decreases n,
    {
        if n > 0 {
            Self::lemma_same_prefix(a, b, (n - 1) as nat);
        }
    }

    fn insert(&mut self, name: String, version: String)
        ensures
            final(self)@ == old(self)@.insert(name@, version@),
    {
        let ghost had = *self;
        self.entries.push((name, version));
        proof {
            Self::lemma_same_prefix(&had, self, had.entries@.len());
        }
    }

    /// The version of `name`.
    pub fn get(&self, name: &str) -> (r: Option<&String>)
        ensures
            match r {
                Some(v) => self@.contains_key(name@) && self@[name@] == v@,
                None => !self@.contains_key(name@),
            },
    {
        let mut i: usize = self.entries.len();
        while i > 0
            invariant
                i <= self.entries@.len(),
                self@.contains_key(name@) == self.upto(i as nat).contains_key(name@),
                self@.contains_key(name@) ==> self@[name@] == self.upto(i as nat)[name@],
            decreases i,
        {
            if same(self.entries[i - 1].0.as_str(), name) {
                return Some(&self.entries[i - 1].1);
            }
            i -= 1;
        }
        None
    }

    pub fn contains_key(&self, name: &str) -> (r: bool)
        ensures
            r == self@.contains_key(name@),
    {
        self.get(name).is_some()
    }
}

impl View for Versions {
    type V = Map<Seq<char>, Seq<char>>;

    closed spec fn view(&self) -> Map<Seq<char>, Seq<char>> {
        self.upto(self.entries@.len())
    }
}

pub struct LockReading {
    pub name: Option<Seq<char>>,
    pub versions: Map<Seq<char>, Seq<char>>,
}

pub open spec fn lock_line(st: LockReading, raw: Seq<char>) -> LockReading {
    let line = trim(raw);
    if starts_with(line, "[["@) {
        LockReading { name: None, ..st }
    } else if let Some(v) = without_prefix(line, "name = "@) {
        LockReading { name: Some(trim_set(v, '"', '"')), ..st }
    } else if let Some(v) = without_prefix(line, "version = "@) {
        match st.name {
            Some(n) => LockReading {
                name: None,
                versions: if st.versions.contains_key(n) {
                    st.versions
                } else {
                    st.versions.insert(n, trim_set(v, '"', '"'))
                },
            },
            None => st,
        }
    } else {
        st
    }
}

pub open spec fn lock_lines(all: Seq<Seq<char>>, n: nat) -> LockReading
    decreases n,
{
    if n == 0 || n > all.len() {
        LockReading { name: None, versions: Map::empty() }
    } else {
        lock_line(lock_lines(all, (n - 1) as nat), all[n - 1])
    }
}

/// The locked versions of a Cargo.lock: in each `[[package]]` block the
/// `version` line follows the `name` line, and a name's first version counts.
pub open spec fn cargo_lock(lock: Seq<char>) -> Map<Seq<char>, Seq<char>> {
    lock_lines(lines(lock), lines(lock).len()).versions
}

/// Locked versions from a Cargo.lock.
pub fn cargo_locked(lock: &str) -> (out: Versions)
    ensures
        out@ == cargo_lock(lock@),
{
    let chars = chars_of(lock);
    let all = lines_of(chars.as_slice());
    let mut out = Versions::new();
    let mut name: Option<String> = None;
    let mut i: usize = 0;
    while i < all.len()
        invariant
            i <= all@.len(),
            lock_lines(slices(all@), i as nat) == (LockReading {
                name: opt_text(name),
                versions: out@,
            }),
        decreases all@.len() - i,
    {
        let line = trimmed(all[i]);
        assert(slices(all@)[i as int] == all@[i as int]@);
        if has_prefix(line, "[[") {
            name = None;
        } else {
            match strip_prefix(line, "name = ") {
                Some(v) => {
                    name = Some(string_of(trimmed_of(v, '"', '"')));
                },
                None => match strip_prefix(line, "version = ") {
                    Some(v) => {
                        if let Some(n) = name {
                            if !out.contains_key(n.as_str()) {
                                out.insert(n, string_of(trimmed_of(v, '"', '"')));
                            }
                        }
                        name = None;
                    },
                    None => {},
                },
            }
        }
        i += 1;
    }
    out
}

/// The dependencies that the entries of one section of a package.json name.
pub open spec fn npm_entries(entries: Seq<(Seq<char>, Json)>) -> Seq<DepView> {
    Seq::new(
        entries.len(),
        |i: int|
            (
                entries[i].0,
                match text_of(entries[i].1) {
                    Some(spec) => version_in(spec),
                    None => None,
                },
            ),
    )
}

pub open spec fn npm_section(j: Json, section: Seq<char>) -> Seq<DepView> {
    match field(j, section) {
        Json::Object(entries) => npm_entries(entries),
        _ => Seq::empty(),
    }
}

/// The dependencies of a package.json: those of its four sections in turn.
pub open spec fn npm_of(j: Json) -> Seq<DepView> {
    npm_section(j, "dependencies"@) + npm_section(j, "devDependencies"@) + npm_section(
        j,
        "peerDependencies"@,
    ) + npm_section(j, "optionalDependencies"@)
}

fn npm_push_section(v: &Value, section: &str, out: &mut Vec<Dep>)
    ensures
        dep_views(final(out)@) == dep_views(old(out)@) + npm_section(json_of(*v), section@),
{
    let part = at(v, section);
    let ghost start = dep_views(out@);
    match as_object(part) {
        Some(entries) => {
            let ghost all = npm_entries(json_entries(entries@));
            let mut i: usize = 0;
            while i < entries.len()
                invariant
                    i <= entries@.len(),
                    all == npm_entries(json_entries(entries@)),
                    dep_views(out@) =~= start + all.take(i as int),
                decreases entries@.len() - i,
            {
                let version: Option<String> = match as_text(&entries[i].1) {
                    Some(spec) => {
                        let c = chars_of(spec);
                        spec_version(c.as_slice())
                    },
                    None => None,
                };
                let ghost had = out@;
                let dep: Dep = (entries[i].0.clone(), version);
                out.push(dep);
                assert(dep_views(out@) =~= dep_views(had).push((dep.0@, opt_text(dep.1))));
                i += 1;
            }
            assert(all.take(i as int) =~= all);
        },
        None => {
            assert(start + Seq::<DepView>::empty() =~= start);
        },
    }
}

/// The dependencies that a package.json names, once it is parsed.
pub fn npm_deps_of(v: &Value) -> (out: Vec<Dep>)
    ensures
        dep_views(out@) == npm_of(json_of(*v)),
{
    let mut out: Vec<Dep> = Vec::new();
    assert(dep_views(out@) =~= Seq::<DepView>::empty());
    npm_push_section(v, "dependencies", &mut out);
    npm_push_section(v, "devDependencies", &mut out);
    npm_push_section(v, "peerDependencies", &mut out);
    npm_push_section(v, "optionalDependencies", &mut out);
    assert(dep_views(out@) =~= npm_of(json_of(*v)));
    out
}

pub open spec fn npm_parsed(text: Seq<char>) -> Seq<DepView> {
    match json_read(text) {
        Some(j) => npm_of(j),
        None => Seq::empty(),
    }
}

/// The dependency sections of a package.json; none where it is no JSON.
pub fn npm_deps(text: &str) -> (out: Vec<Dep>)
    ensures
        dep_views(out@) == npm_parsed(text@),
{
    match parse_json(text) {
        Some(v) => npm_deps_of(&v),
        None => {
            let out: Vec<Dep> = Vec::new();
            assert(dep_views(out@) =~= Seq::<DepView>::empty());
            out
        },
    }
}

/// The package that a path of a package-lock.json installs at the top level.
pub open spec fn top_level(path: Seq<char>) -> Option<Seq<char>> {
    match without_prefix(path, "node_modules/"@) {
        Some(name) => if has_sub(name, "node_modules"@) {
            None
        } else {
            Some(name)
        },
        None => None,
    }
}

pub open spec fn npm_lock_entries(entries: Seq<(Seq<char>, Json)>, n: nat) -> Map<
    Seq<char>,
    Seq<char>,
>
    decreases n,
{
    if n == 0 || n > entries.len() {
        Map::empty()
    } else {
        let done = npm_lock_entries(entries, (n - 1) as nat);
        match (top_level(entries[n - 1].0), text_of(field(entries[n - 1].1, "version"@))) {
            (Some(name), Some(version)) => done.insert(name, version),
            _ => done,
        }
    }
}

/// Top-level installed versions of a package-lock.json.
pub open spec fn npm_lock_of(j: Json) -> Map<Seq<char>, Seq<char>> {
    match field(j, "packages"@) {
        Json::Object(entries) => npm_lock_entries(entries, entries.len()),
        _ => Map::empty(),
    }
}

/// Top-level installed versions from a package-lock.json, once it is parsed.
pub fn npm_locked_of(v: &Value) -> (out: Versions)
    ensures
        out@ == npm_lock_of(json_of(*v)),
{
    let mut out = Versions::new();
    match as_object(at(v, "packages")) {
        Some(entries) => {
            let mut i: usize = 0;
            while i < entries.len()
                invariant
                    i <= entries@.len(),
                    out@ == npm_lock_entries(json_entries(entries@), i as nat),
                decreases entries@.len() - i,
            {
                let path = chars_of(entries[i].0.as_str());
                assert(json_entries(entries@)[i as int].0 == path@);
                match strip_prefix(path.as_slice(), "node_modules/") {
                    Some(name) => {
                        if !holds_sub(name, "node_modules") {
                            match as_text(at(&entries[i].1, "version")) {
                                Some(version) => out.insert(string_of(name), version.to_owned()),
                                None => {},
                            }
                        }
                    },
                    None => {},
                }
                i += 1;
            }
        },
        None => {},
    }
    out
}

pub open spec fn npm_lock_parsed(text: Seq<char>) -> Map<Seq<char>, Seq<char>> {
    match json_read(text) {
        Some(j) => npm_lock_of(j),
        None => Map::empty(),
    }
}

/// Top-level installed versions from a package-lock.json.
pub fn npm_locked(text: &str) -> (out: Versions)
    ensures
        out@ == npm_lock_parsed(text@),
{
    match parse_json(text) {
        Some(v) => npm_locked_of(&v),
        None => Versions::new(),
    }
}

/// The dependencies that the first `n` requirements name.
pub open spec fn requirements_upto(items: Seq<Seq<char>>, n: nat) -> Seq<DepView>
    decreases n,
{
    if n == 0 || n > items.len() {
        Seq::empty()
    } else {
        let done = requirements_upto(items, (n - 1) as nat);
        match requirement_name(items[n - 1]) {
            Some(name) => done.push((name, version_in(specifier(items[n - 1])))),
            None => done,
        }
    }
}

fn push_requirements(items: &Vec<&[char]>, out: &mut Vec<Dep>)
    ensures
        dep_views(final(out)@) == dep_views(old(out)@) + requirements_upto(
            slices(items@),
            items@.len(),
        ),
{
    let ghost start = dep_views(out@);
    let mut i: usize = 0;
    while i < items.len()
        invariant
            i <= items@.len(),
            dep_views(out@) =~= start + requirements_upto(slices(items@), i as nat),
        decreases items@.len() - i,
    {
        assert(slices(items@)[i as int] == items@[i as int]@);
        match req_name(items[i]) {
            Some(name) => {
                let ghost had = out@;
                let dep: Dep = (name, spec_version(specifier_of(items[i])));
                out.push(dep);
                assert(dep_views(out@) =~= dep_views(had).push((dep.0@, opt_text(dep.1))));
            },
            None => {},
        }
        i += 1;
    }
}

pub struct PyReading {
    pub section: Seq<char>,
    pub in_array: bool,
    pub deps: Seq<DepView>,
}

pub open spec fn is_poetry(section: Seq<char>) -> bool {
    starts_with(section, "tool.poetry."@) && ends_with(section, "dependencies"@)
}

/// Whether a line of this section opens an array of requirements.
pub open spec fn opens_array(section: Seq<char>, line: Seq<char>) -> bool {
    ||| section == "project"@ && starts_with(line, "dependencies"@)
    ||| (section == "project.optional-dependencies"@ || section == "dependency-groups"@)
        && line.contains('=')
}

/// The requirements quoted in `part`, added to what was read.
pub open spec fn with_items(st: PyReading, part: Seq<char>) -> PyReading {
    let (items, closed) = quoted_from(part, 0);
    PyReading {
        in_array: !closed,
        deps: st.deps + requirements_upto(items, items.len()),
        ..st
    }
}

pub open spec fn py_line(st: PyReading, raw: Seq<char>) -> PyReading {
    let line = trim(raw);
    if starts_with(line, "#"@) {
        st
    } else if st.in_array {
        with_items(st, line)
    } else if starts_with(line, "["@) {
        PyReading { section: trim_set(line, '[', ']'), ..st }
    } else if is_poetry(st.section) {
        match split_once(line, '=') {
            Some((key, spec)) => {
                let name = trim_set(trim(key), '"', '"');
                if name.len() == 0 || name == "python"@ {
                    st
                } else {
                    PyReading { deps: st.deps.push((normalized(name), version_in(spec))), ..st }
                }
            },
            None => st,
        }
    } else if opens_array(st.section, line) && line.contains('[') {
        with_items(st, line.skip(first_from(line, '[', 0) + 1))
    } else {
        st
    }
}

pub open spec fn py_lines(all: Seq<Seq<char>>, n: nat) -> PyReading
    decreases n,
{
    if n == 0 || n > all.len() {
        PyReading { section: Seq::empty(), in_array: false, deps: Seq::empty() }
    } else {
        py_line(py_lines(all, (n - 1) as nat), all[n - 1])
    }
}

/// The dependencies of a pyproject.toml.
pub open spec fn pyproject(text: Seq<char>) -> Seq<DepView> {
    py_lines(lines(text), lines(text).len()).deps
}

/// One line of a pyproject.toml.
fn read_py_line(
    raw: &[char],
    section: &mut Vec<char>,
    in_array: &mut bool,
    out: &mut Vec<Dep>,
)
    ensures
        (PyReading {
            section: final(section)@,
            in_array: *final(in_array),
            deps: dep_views(final(out)@),
        }) == py_line(
            PyReading {
                section: old(section)@,
                in_array: *old(in_array),
                deps: dep_views(old(out)@),
            },
            raw@,
        ),
{
    let line = trimmed(raw);
    if has_prefix(line, "#") {
        return;
    }
    if *in_array {
        let (items, closed) = quoted_items(line);
        push_requirements(&items, out);
        *in_array = !closed;
        return;
    }
    if has_prefix(line, "[") {
        *section = vstd::slice::slice_to_vec(trimmed_of(line, '[', ']'));
        return;
    }
    if has_prefix(section.as_slice(), "tool.poetry.") && has_suffix(
        section.as_slice(),
        "dependencies",
    ) {
        match split_in_two(line, '=') {
            Some((key, spec)) => {
                let name = trimmed_of(trimmed(key), '"', '"');
                if name.len() > 0 && !spells(name, "python") {
                    let n = normalize(name);
                    let ghost had = out@;
                    let dep: Dep = (string_of(n.as_slice()), spec_version(spec));
                    out.push(dep);
                    assert(dep_views(out@) =~= dep_views(had).push((dep.0@, opt_text(dep.1))));
                }
            },
            None => {},
        }
        return;
    }
    let dep_array = (spells(section.as_slice(), "project") && has_prefix(line, "dependencies")) || (
    (spells(section.as_slice(), "project.optional-dependencies") || spells(
        section.as_slice(),
        "dependency-groups",
    )) && has_char(line, '='));
    if dep_array {
        let open = find_from(line, '[', 0);
        proof {
            lemma_first_from(line@, '[', 0);
        }
        if open < line.len() {
            assert(line@[open as int] == '[');
            let part = slice_subrange(line, open + 1, line.len());
            assert(part@ =~= line@.skip(open + 1));
            let (items, closed) = quoted_items(part);
            push_requirements(&items, out);
            *in_array = !closed;
        }
    }
}

/// PEP 621 `dependencies` arrays, dependency groups, and poetry tables in a
/// pyproject.toml.
pub fn pyproject_deps(text: &str) -> (out: Vec<Dep>)
    ensures
        dep_views(out@) == pyproject(text@),
{
    let chars = chars_of(text);
    let all = lines_of(chars.as_slice());
    let mut out: Vec<Dep> = Vec::new();
    let mut section: Vec<char> = Vec::new();
    let mut in_array = false;
    let mut i: usize = 0;
    assert(dep_views(out@) =~= Seq::<DepView>::empty());
    assert(section@ =~= Seq::<char>::empty());
    while i < all.len()
        invariant
            i <= all@.len(),
            py_lines(slices(all@), i as nat) == (PyReading {
                section: section@,
                in_array,
                deps: dep_views(out@),
            }),
        decreases all@.len() - i,
    {
        assert(slices(all@)[i as int] == all@[i as int]@);
        read_py_line(all[i], &mut section, &mut in_array, &mut out);
        i += 1;
    }
    out
}

/// The requirement on a line of a requirements.txt, without its comment.
pub open spec fn requirement_on(raw: Seq<char>) -> Option<DepView> {
    let line = trim(before(raw, '#'));
    if line.len() == 0 || starts_with(line, "-"@) {
        None
    } else {
        match requirement_name(line) {
            Some(name) => Some((name, version_in(specifier(line)))),
            None => None,
        }
    }
}

pub open spec fn requirements_lines(all: Seq<Seq<char>>, n: nat) -> Seq<DepView>
    decreases n,
{
    if n == 0 || n > all.len() {
        Seq::empty()
    } else {
        let done = requirements_lines(all, (n - 1) as nat);
        match requirement_on(all[n - 1]) {
            Some(dep) => done.push(dep),
            None => done,
        }
    }
}

/// One requirement per line: `fastapi==0.100`, extras and markers ignored.
pub fn requirements_deps(text: &str) -> (out: Vec<Dep>)
    ensures
        dep_views(out@) == requirements_lines(lines(text@), lines(text@).len()),
{
    let chars = chars_of(text);
    let all = lines_of(chars.as_slice());
    let mut out: Vec<Dep> = Vec::new();
    let mut i: usize = 0;
    assert(dep_views(out@) =~= Seq::<DepView>::empty());
    while i < all.len()
        invariant
            i <= all@.len(),
            dep_views(out@) == requirements_lines(slices(all@), i as nat),
        decreases all@.len() - i,
    {
        assert(slices(all@)[i as int] == all@[i as int]@);
        let line = trimmed(part_before(all[i], '#'));
        if line.len() > 0 && !has_prefix(line, "-") {
            match req_name(line) {
                Some(name) => {
                    let ghost had = out@;
                    let dep: Dep = (name, spec_version(specifier_of(line)));
                    out.push(dep);
                    assert(dep_views(out@) =~= dep_views(had).push((dep.0@, opt_text(dep.1))));
                },
                None => {},
            }
        }
        i += 1;
    }
    out
}

/// The module and the version, without its `v`, that the words of a `require`
/// entry name: the module has a dot, the version starts with `v`.
pub open spec fn go_entry(entry: Seq<char>) -> Option<DepView> {
    let w = words(entry);
    if w.len() >= 2 && w[0].contains('.') && starts_with(w[1], "v"@) {
        Some((w[0], Some(trim_start_set(w[1], 'v', 'v'))))
    } else {
        None
    }
}

pub struct GoReading {
    pub in_block: bool,
    pub deps: Seq<DepView>,
}

pub open spec fn go_line(st: GoReading, raw: Seq<char>) -> GoReading {
    let line = trim(before_sub(raw, "//"@));
    if starts_with(line, "require ("@) {
        GoReading { in_block: true, ..st }
    } else if st.in_block && line == ")"@ {
        GoReading { in_block: false, ..st }
    } else {
        let entry = match without_prefix(line, "require "@) {
            Some(rest) => Some(rest),
            None => if st.in_block {
                Some(line)
            } else {
                None
            },
        };
        match entry {
            Some(e) => match go_entry(e) {
                Some(dep) => GoReading { deps: st.deps.push(dep), ..st },
                None => st,
            },
            None => st,
        }
    }
}

pub open spec fn go_lines(all: Seq<Seq<char>>, n: nat) -> GoReading
    decreases n,
{
    if n == 0 || n > all.len() {
        GoReading { in_block: false, deps: Seq::empty() }
    } else {
        go_line(go_lines(all, (n - 1) as nat), all[n - 1])
    }
}

fn push_go_entry(entry: &[char], out: &mut Vec<Dep>)
    ensures
        dep_views(final(out)@) == match go_entry(entry@) {
            Some(dep) => dep_views(old(out)@).push(dep),
            None => dep_views(old(out)@),
        },
{
    let w = words_of(entry);
    if w.len() >= 2 {
        assert(slices(w@)[0] == w@[0]@ && slices(w@)[1] == w@[1]@);
        if has_char(w[0], '.') && has_prefix(w[1], "v") {
            let ghost had = out@;
            let dep: Dep = (string_of(w[0]), Some(string_of(trim_left_of(w[1], 'v', 'v'))));
            out.push(dep);
            assert(dep_views(out@) =~= dep_views(had).push((dep.0@, opt_text(dep.1))));
        }
    }
}

/// `require` lines and blocks of a go.mod; the version is right there.
pub fn go_deps(text: &str) -> (out: Vec<Dep>)
    ensures
        dep_views(out@) == go_lines(lines(text@), lines(text@).len()).deps,
{
    let chars = chars_of(text);
    let all = lines_of(chars.as_slice());
    let mut out: Vec<Dep> = Vec::new();
    let mut in_block = false;
    let mut i: usize = 0;
    assert(dep_views(out@) =~= Seq::<DepView>::empty());
    while i < all.len()
        invariant
            i <= all@.len(),
            go_lines(slices(all@), i as nat) == (GoReading { in_block, deps: dep_views(out@) }),
        decreases all@.len() - i,
    {
        assert(slices(all@)[i as int] == all@[i as int]@);
        let line = trimmed(part_before_sub(all[i], "//"));
        if has_prefix(line, "require (") {
            in_block = true;
        } else if in_block && spells(line, ")") {
            in_block = false;
        } else {
            match strip_prefix(line, "require ") {
                Some(rest) => push_go_entry(rest, &mut out),
                None => if in_block {
                    push_go_entry(line, &mut out);
                },
            }
        }
        i += 1;
    }
    out
}

/// What each kind of manifest names.
pub open spec fn parsed(kind: Kind, text: Seq<char>) -> Seq<DepView> {
    match kind {
        Kind::Cargo => unversioned(cargo_names(text)),
        Kind::Npm => npm_parsed(text),
        Kind::Pypi => pyproject(text),
        Kind::Requirements => requirements_lines(lines(text), lines(text).len()),
        Kind::Go => go_lines(lines(text), lines(text).len()).deps,
    }
}

/// (name, version from the manifest itself) for every dependency.
pub fn parse(kind: Kind, text: &str) -> (out: Vec<Dep>)
    ensures
        dep_views(out@) == parsed(kind, text@),
{
    match kind {
        Kind::Cargo => cargo_deps(text),
        Kind::Npm => npm_deps(text),
        Kind::Pypi => pyproject_deps(text),
        Kind::Requirements => requirements_deps(text),
        Kind::Go => go_deps(text),
    }
}

// ---- one line of a manifest -------------------------------------------------

/// Whether a line gives a key a value that is no array: an `=` stands before
/// every quote, and behind it no `[`.
pub open spec fn sets_a_key(line: Seq<char>) -> bool {
    match split_once(line, '=') {
        Some((key, value)) => !key.contains('"') && !starts_with(trim(value), "["@),
        None => false,
    }
}

/// The key of a poetry table.
pub open spec fn poetry_key(line: Seq<char>) -> Option<Seq<char>> {
    match split_once(line, '=') {
        Some((key, _)) => {
            let name = trim_set(trim(key), '"', '"');
            if name.len() == 0 {
                None
            } else {
                Some(normalized(name))
            }
        },
        None => None,
    }
}

/// The key of a poetry table, or a Python requirement quoted on the line.
pub open spec fn py_line_dep(line: Seq<char>) -> Option<Seq<char>> {
    let items = quoted_from(line, 0).0;
    let quoted = if items.len() > 0 && !sets_a_key(line) {
        requirement_name(items[0])
    } else {
        None
    };
    match quoted {
        Some(name) => Some(name),
        None => poetry_key(line),
    }
}

fn key_is_set(line: &[char]) -> (r: bool)
    ensures
        r == sets_a_key(line@),
{
    match split_in_two(line, '=') {
        Some((key, value)) => !has_char(key, '"') && !has_prefix(trimmed(value), "["),
        None => false,
    }
}

fn find_poetry_key(line: &[char]) -> (r: Option<String>)
    ensures
        opt_text(r) == poetry_key(line@),
{
    match split_in_two(line, '=') {
        Some((key, _)) => {
            let name = trimmed_of(trimmed(key), '"', '"');
            if name.len() == 0 {
                None
            } else {
                let n = normalize(name);
                Some(string_of(n.as_slice()))
            }
        },
        None => None,
    }
}

pub open spec fn go_line_dep(line: Seq<char>) -> Option<Seq<char>> {
    let code = trim(before_sub(line, "//"@));
    let entry = trim(
        match without_prefix(code, "require"@) {
            Some(rest) => rest,
            None => code,
        },
    );
    match go_entry(entry) {
        Some((module, _)) => Some(module),
        None => None,
    }
}

pub open spec fn dep_on_line(kind: Kind, raw: Seq<char>) -> Option<Seq<char>> {
    let line = trim(raw);
    match kind {
        Kind::Cargo => cargo_key(line),
        Kind::Npm => {
            let items = quoted_from(line, 0).0;
            if items.len() > 0 {
                Some(items[0])
            } else {
                None
            }
        },
        Kind::Pypi => py_line_dep(line),
        Kind::Requirements => requirement_name(line),
        Kind::Go => go_line_dep(line),
    }
}

/// The dependency named on a rendered manifest line, for the badge lookup
/// and the upgrade.
pub fn line_dep(kind: Kind, line: &str) -> (r: Option<String>)
    ensures
        opt_text(r) == dep_on_line(kind, line@),
{
    let chars = chars_of(line);
    let line = trimmed(chars.as_slice());
    match kind {
        Kind::Cargo => match cargo_name(line) {
            Some(name) => Some(string_of(name)),
            None => None,
        },
        Kind::Npm => {
            let (items, _) = quoted_items(line);
            assert(slices(items@).len() == items@.len());
            if items.len() > 0 {
                assert(slices(items@)[0] == items@[0]@);
                Some(string_of(items[0]))
            } else {
                None
            }
        },
        Kind::Pypi => {
            let (items, _) = quoted_items(line);
            assert(slices(items@).len() == items@.len());
            if items.len() > 0 && !key_is_set(line) {
                assert(slices(items@)[0] == items@[0]@);
                if let Some(name) = req_name(items[0]) {
                    return Some(name);
                }
            }
            find_poetry_key(line)
        },
        Kind::Requirements => req_name(line),
        Kind::Go => {
            let code = trimmed(part_before_sub(line, "//"));
            let entry = trimmed(
                match strip_prefix(code, "require") {
                    Some(rest) => rest,
                    None => code,
                },
            );
            let mut found: Vec<Dep> = Vec::new();
            assert(dep_views(found@) =~= Seq::<DepView>::empty());
            push_go_entry(entry, &mut found);
            proof {
                assert(dep_views(found@).len() == found@.len());
                if found@.len() > 0 {
                    assert(dep_views(found@)[0].0 == found@[0].0@);
                }
            }
            match found.pop() {
                Some(dep) => Some(dep.0),
                None => None,
            }
        },
    }
}

/// Whether a `vN` word starts at `i`.
pub open spec fn go_version_at(s: Seq<char>, i: int) -> bool {
    &&& 0 <= i < s.len()
    &&& !is_white(s[i])
    &&& (i == 0 || is_white(s[i - 1]))
    &&& s[i] == 'v'
    &&& i + 1 < s.len()
    &&& is_digit(s[i + 1])
}

/// The place after the `v` of the last such word among the first `n` places.
pub open spec fn go_version_upto(s: Seq<char>, n: nat) -> Option<int>
    decreases n,
{
    if n == 0 {
        None
    } else if go_version_at(s, n - 1) {
        Some(n as int)
    } else {
        go_version_upto(s, (n - 1) as nat)
    }
}

/// The first `=` or `:` at or after `i`, or the length.
pub open spec fn assign_from(s: Seq<char>, i: int) -> int
    decreases s.len() - i,
{
    if i < 0 || i >= s.len() {
        s.len() as int
    } else if s[i] == '=' || s[i] == ':' {
        i
    } else {
        assign_from(s, i + 1)
    }
}

/// Where the name on a line starts: behind blanks and one opening quote.
pub open spec fn name_start(line: Seq<char>) -> int {
    let i = skip_white(line, 0);
    if i < line.len() && (line[i] == '"' || line[i] == '\'') {
        i + 1
    } else {
        i
    }
}

fn start_of_name(s: &[char]) -> (r: usize)
    ensures
        r == name_start(s@),
        r <= s@.len(),
{
    let i = first_nonwhite(s, 0);
    if i < s.len() && (s[i] == '"' || s[i] == '\'') {
        i + 1
    } else {
        i
    }
}

/// Where the version number of a line starts, if it has one. In a go.mod it
/// is the last `vN.N.N` word, without its `v`; elsewhere the first digit after
/// the `=` or `:` (or the name and its extras), so that a digit in the name
/// itself is never taken for it.
pub open spec fn version_start(kind: Kind, line: Seq<char>) -> Option<int> {
    match kind {
        Kind::Go => go_version_upto(line, line.len()),
        _ => {
            let sign = assign_from(line, 0);
            let off = if sign < line.len() {
                sign + 1
            } else {
                extras_end(line, name_end(line, name_start(line)))
            };
            let d = digit_from(line, off);
            if d < line.len() {
                Some(d)
            } else {
                None
            }
        },
    }
}

pub open spec fn span_of_version(kind: Kind, line: Seq<char>) -> Option<(int, int)> {
    match version_start(kind, line) {
        Some(start) => Some((start, version_end(line, start))),
        None => None,
    }
}

fn find_assign(s: &[char]) -> (r: usize)
    ensures
        r == assign_from(s@, 0),
        r <= s@.len(),
{
    let mut k: usize = 0;
    while k < s.len() && s[k] != '=' && s[k] != ':'
        invariant
            k <= s@.len(),
            assign_from(s@, 0) == assign_from(s@, k as int),
        decreases s@.len() - k,
    {
        k += 1;
    }
    k
}

fn find_go_version(s: &[char]) -> (r: Option<usize>)
    ensures
        match r {
            Some(k) => go_version_upto(s@, s@.len()) == Some(k as int) && k < s@.len() && is_digit(
                s@[k as int],
            ),
            None => go_version_upto(s@, s@.len()) is None,
        },
{
    let mut start: Option<usize> = None;
    let mut i: usize = 0;
    while i < s.len()
        invariant
            i <= s@.len(),
            match start {
                Some(k) => go_version_upto(s@, i as nat) == Some(k as int) && k < s@.len()
                    && is_digit(s@[k as int]),
                None => go_version_upto(s@, i as nat) is None,
            },
        decreases s@.len() - i,
    {
        let word_start = !char_is_white(s[i]) && (i == 0 || char_is_white(s[i - 1]));
        if word_start && s[i] == 'v' && i + 1 < s.len() && char_is_digit(s[i + 1]) {
            start = Some(i + 1);
        }
        i += 1;
    }
    start
}

/// The char span of the version number to rewrite on a manifest line.
pub fn version_span(kind: Kind, line: &str) -> (r: Option<(usize, usize)>)
    ensures
        match r {
            Some((a, b)) => span_of_version(kind, line@) == Some((a as int, b as int)) && a < b
                <= line@.len(),
            None => span_of_version(kind, line@) is None,
        },
{
    let chars = chars_of(line);
    let s = chars.as_slice();
    let start: usize = match kind {
        Kind::Go => match find_go_version(s) {
            Some(k) => k,
            None => {
                return None;
            },
        },
        _ => {
            let sign = find_assign(s);
            let off: usize = if sign < s.len() {
                sign + 1
            } else {
                end_of_extras(s, end_of_name(s, start_of_name(s)))
            };
            let d = find_digit(s, off);
            if d >= s.len() {
                return None;
            }
            d
        },
    };
    let end = end_of_version(s, start);
    Some((start, end))
}

// ---- registries -------------------------------------------------------------

/// The first place at or after `i` that holds `-` or `+`, or the length.
pub open spec fn tail_from(s: Seq<char>, i: int) -> int
    decreases s.len() - i,
{
    if i < 0 || i >= s.len() {
        s.len() as int
    } else if s[i] == '-' || s[i] == '+' {
        i
    } else {
        tail_from(s, i + 1)
    }
}

/// The number that the `i`th part of a version writes; 0 where it is none.
pub open spec fn version_part(parts: Seq<Seq<char>>, i: int) -> u64 {
    if i < parts.len() {
        match parse_number(parts[i], u64::MAX as nat) {
            Some(n) => n as u64,
            None => 0,
        }
    } else {
        0
    }
}

/// Loose semver sort key: `major.minor.patch`, ignoring pre-release and
/// build-metadata tails.
pub open spec fn version_key(v: Seq<char>) -> (u64, u64, u64) {
    let parts = pieces(v.take(tail_from(v, 0)), '.');
    (version_part(parts, 0), version_part(parts, 1), version_part(parts, 2))
}

fn read_part(parts: &Vec<&[char]>, i: usize) -> (r: u64)
    ensures
        r == version_part(slices(parts@), i as int),
{
    if i < parts.len() {
        assert(slices(parts@)[i as int] == parts@[i as int]@);
        match read_u64(parts[i], u64::MAX) {
            Some(n) => n,
            None => 0,
        }
    } else {
        0
    }
}

/// Loose semver sort key: `major.minor.patch`, ignoring pre-release and
/// build-metadata tails.
pub fn semver_key(v: &str) -> (r: (u64, u64, u64))
    ensures
        r == version_key(v@),
{
    let chars = chars_of(v);
    let s = chars.as_slice();
    let mut k: usize = 0;
    while k < s.len() && s[k] != '-' && s[k] != '+'
        invariant
            k <= s@.len(),
            tail_from(s@, 0) == tail_from(s@, k as int),
        decreases s@.len() - k,
    {
        k += 1;
    }
    let parts = split_at_char(slice_subrange(s, 0, k), '.');
    (read_part(&parts, 0), read_part(&parts, 1), read_part(&parts, 2))
}

/// Whether the key `a` comes after `b`.
pub open spec fn key_after(a: (u64, u64, u64), b: (u64, u64, u64)) -> bool {
    a.0 > b.0 || (a.0 == b.0 && (a.1 > b.1 || (a.1 == b.1 && a.2 > b.2)))
}

/// Whether the version `v` is newer than the best so far.
pub open spec fn beats(v: Seq<char>, best: Option<Seq<char>>) -> bool {
    match best {
        Some(b) => key_after(version_key(v), version_key(b)),
        None => true,
    }
}

pub(crate) fn is_newer(v: &str, best: &Option<String>) -> (r: bool)
    ensures
        r == beats(v@, opt_text(*best)),
{
    match best {
        Some(b) => {
            let a = semver_key(v);
            let b = semver_key(b.as_str());
            a.0 > b.0 || (a.0 == b.0 && (a.1 > b.1 || (a.1 == b.1 && a.2 > b.2)))
        },
        None => true,
    }
}

/// A plain `N.N.N` release: digits and dots alone.
pub open spec fn is_plain(v: Seq<char>) -> bool {
    version_end(v, 0) == v.len()
}

/// The best stable and the best pre-release of the first `n` versions.
pub open spec fn best_upto(versions: Seq<Seq<char>>, n: nat) -> (
    Option<Seq<char>>,
    Option<Seq<char>>,
)
    decreases n,
{
    if n == 0 || n > versions.len() {
        (None, None)
    } else {
        let (stable, pre) = best_upto(versions, (n - 1) as nat);
        let v = versions[n - 1];
        if is_plain(v) {
            (
                if beats(v, stable) {
                    Some(v)
                } else {
                    stable
                },
                pre,
            )
        } else {
            (
                stable,
                if beats(v, pre) {
                    Some(v)
                } else {
                    pre
                },
            )
        }
    }
}

/// The highest version, preferring plain releases; pre-releases (anything
/// with letters) only when nothing else exists.
pub open spec fn best_of(versions: Seq<Seq<char>>) -> Option<Seq<char>> {
    let (stable, pre) = best_upto(versions, versions.len());
    if stable is Some {
        stable
    } else {
        pre
    }
}

/// The highest version, preferring plain `N.N.N` releases; pre-releases
/// (anything with letters) only when nothing else exists.
pub fn best_version(versions: &Vec<String>) -> (r: Option<String>)
    ensures
        opt_text(r) == best_of(texts(versions@)),
{
    let mut stable: Option<String> = None;
    let mut pre: Option<String> = None;
    let mut i: usize = 0;
    while i < versions.len()
        invariant
            i <= versions@.len(),
            best_upto(texts(versions@), i as nat) == (opt_text(stable), opt_text(pre)),
        decreases versions@.len() - i,
    {
        assert(texts(versions@)[i as int] == versions@[i as int]@);
        let v = versions[i].as_str();
        let chars = chars_of(v);
        let plain = end_of_version(chars.as_slice(), 0) == chars.len();
        if plain {
            if is_newer(v, &stable) {
                stable = Some(versions[i].clone());
            }
        } else if is_newer(v, &pre) {
            pre = Some(versions[i].clone());
        }
        i += 1;
    }
    if stable.is_some() {
        stable
    } else {
        pre
    }
}

/// Module-proxy escaping of the first `n` characters: an uppercase letter
/// becomes `!` and its lowercase.
pub open spec fn escaped_upto(s: Seq<char>, n: nat) -> Seq<char>
    decreases n,
{
    if n == 0 || n > s.len() {
        Seq::empty()
    } else {
        let c = s[n - 1];
        if 'A' <= c <= 'Z' {
            escaped_upto(s, (n - 1) as nat).push('!').push(ascii_lower(c))
        } else {
            escaped_upto(s, (n - 1) as nat).push(c)
        }
    }
}

/// Module-proxy escaping: an uppercase letter becomes `!` + lowercase.
pub fn go_escape(module: &str) -> (r: String)
    ensures
        r@ == escaped_upto(module@, module@.len()),
{
    let s = chars_of(module);
    let mut out = String::new();
    let mut i: usize = 0;
    while i < s.len()
        invariant
            i <= s@.len(),
            out@ == escaped_upto(s@, i as nat),
        decreases s@.len() - i,
    {
        let c = s[i];
        if 'A' <= c && c <= 'Z' {
            out.push('!');
            out.push(char_ascii_lower(c));
        } else {
            out.push(c);
        }
        i += 1;
    }
    out
}

/// What an index of `n`, in lower case, is cut into: bytes, as the registry
/// counts them. It is there where the cuts fall between characters.
pub open spec fn has_index_path(n: Seq<char>) -> bool {
    let b = encode_utf8(n);
    ||| b.len() == 1
    ||| b.len() == 2
    ||| b.len() == 3 && is_char_boundary(b, 1)
    ||| b.len() >= 4 && is_char_boundary(b, 2) && is_char_boundary(b, 4)
}

pub open spec fn index_path_of(n: Seq<char>) -> Seq<char> {
    let b = encode_utf8(n);
    if b.len() == 1 {
        "1/"@ + n
    } else if b.len() == 2 {
        "2/"@ + n
    } else if b.len() == 3 {
        "3/"@ + decode_utf8(b.subrange(0, 1)) + "/"@ + n
    } else {
        decode_utf8(b.subrange(0, 2)) + "/"@ + decode_utf8(b.subrange(2, 4)) + "/"@ + n
    }
}

/// Whether the name, in lower case, has a path in the sparse index.
fn indexable(n: &str) -> (r: bool)
    ensures
        r == has_index_path(n@),
{
    let len = n.as_bytes().len();
    len == 1 || len == 2 || (len == 3 && n.is_char_boundary(1)) || (len >= 4 && n.is_char_boundary(2)
        && n.is_char_boundary(4))
}

/// The crates.io sparse-index path for a crate name.
pub fn crates_index_path(name: &str) -> (r: String)
    requires
        has_index_path(lowercase(name@)),
    ensures
        r@ == index_path_of(lowercase(name@)),
{
    broadcast use {vstd::utf8::encode_utf8_decode_utf8, vstd::utf8::encode_utf8_valid_utf8};

    let n = name.to_lowercase();
    let n = n.as_str();
    let mut out: Vec<char> = Vec::new();
    let len = n.as_bytes().len();
    if len == 1 {
        push_lit(&mut out, "1/");
    } else if len == 2 {
        push_lit(&mut out, "2/");
    } else if len == 3 {
        let (first, _) = n.split_at(1);
        push_lit(&mut out, "3/");
        push_lit(&mut out, first);
        push_lit(&mut out, "/");
        assert(first@ == decode_utf8(first.spec_bytes()));
    } else {
        let (first, _) = n.split_at(2);
        let (upto, _) = n.split_at(4);
        assert(upto.spec_bytes() =~= n.spec_bytes().subrange(0, 4));
        proof {
            lemma_boundary_in_prefix(n.spec_bytes(), 2, 4);
        }
        let (_, second) = upto.split_at(2);
        assert(second.spec_bytes() =~= n.spec_bytes().subrange(2, 4));
        push_lit(&mut out, first);
        push_lit(&mut out, "/");
        push_lit(&mut out, second);
        push_lit(&mut out, "/");
        assert(first@ == decode_utf8(first.spec_bytes()));
        assert(second@ == decode_utf8(second.spec_bytes()));
    }
    push_lit(&mut out, n);
    assert(out@ =~= index_path_of(n@));
    string_of(out.as_slice())
}

/// `crates_index_path` for a name that may have no path in the index.
pub fn checked_index_path(name: &str) -> (r: Option<String>)
    ensures
        match r {
            Some(path) => has_index_path(lowercase(name@)) && path@ == index_path_of(
                lowercase(name@),
            ),
            None => !has_index_path(lowercase(name@)),
        },
{
    let n = name.to_lowercase();
    if indexable(n.as_str()) {
        Some(crates_index_path(name))
    } else {
        None
    }
}

/// Where a registry is asked for the newest version of a package.
pub open spec fn registry_url(kind: Kind, name: Seq<char>) -> Option<Seq<char>> {
    match kind {
        Kind::Cargo => if has_index_path(lowercase(name)) {
            Some("https://index.crates.io/"@ + index_path_of(lowercase(name)))
        } else {
            None
        },
        Kind::Npm => Some(
            "https://registry.npmjs.org/"@ + replaced_from(name, "/"@, "%2F"@, 0) + "/latest"@,
        ),
        Kind::Pypi | Kind::Requirements => Some(
            "https://pypi.org/simple/"@ + normalized(name) + "/"@,
        ),
        Kind::Go => Some(
            "https://proxy.golang.org/"@ + escaped_upto(name, name.len()) + "/@latest"@,
        ),
    }
}

/// What a registry is asked: where, and with which headers.
pub struct Request {
    pub url: String,
    pub headers: Vec<&'static str>,
}

/// The headers that a registry's answer needs: PyPI gives HTML unless JSON is
/// asked for.
pub open spec fn registry_headers(kind: Kind) -> Seq<Seq<char>> {
    match kind {
        Kind::Pypi | Kind::Requirements => seq!["Accept: application/vnd.pypi.simple.v1+json"@],
        _ => Seq::empty(),
    }
}

/// Texts that stand in the program.
pub open spec fn literals(v: Seq<&'static str>) -> Seq<Seq<char>> {
    v.map_values(|t: &'static str| t@)
}

/// What a registry is asked for the newest version of `name`; `None` for a
/// crate name that the index has no path for.
pub fn latest_request(kind: Kind, name: &str) -> (r: Option<Request>)
    ensures
        match r {
            Some(q) => registry_url(kind, name@) == Some(q.url@) && literals(q.headers@)
                == registry_headers(kind),
            None => registry_url(kind, name@) is None,
        },
{
    let url = match latest_url(kind, name) {
        Some(u) => u,
        None => {
            return None;
        },
    };
    let mut headers: Vec<&'static str> = Vec::new();
    match kind {
        Kind::Pypi | Kind::Requirements => {
            headers.push("Accept: application/vnd.pypi.simple.v1+json");
        },
        _ => {},
    }
    assert(literals(headers@) =~= registry_headers(kind));
    Some(Request { url, headers })
}

/// The address that a registry answers with the newest version of `name`;
/// `None` for a crate name that the index has no path for.
fn latest_url(kind: Kind, name: &str) -> (r: Option<String>)
    ensures
        opt_text(r) == registry_url(kind, name@),
{
    let mut out: Vec<char> = Vec::new();
    match kind {
        Kind::Cargo => match checked_index_path(name) {
            Some(path) => {
                push_lit(&mut out, "https://index.crates.io/");
                push_lit(&mut out, path.as_str());
            },
            None => {
                return None;
            },
        },
        Kind::Npm => {
            let chars = chars_of(name);
            let slash = chars_of("/");
            let code = chars_of("%2F");
            proof {
                reveal_strlit("/");
            }
            let escaped = replace_all(chars.as_slice(), slash.as_slice(), code.as_slice());
            push_lit(&mut out, "https://registry.npmjs.org/");
            push_all(&mut out, escaped.as_slice());
            push_lit(&mut out, "/latest");
        },
        Kind::Pypi | Kind::Requirements => {
            let n = normalize_py(name);
            push_lit(&mut out, "https://pypi.org/simple/");
            push_lit(&mut out, n.as_str());
            push_lit(&mut out, "/");
        },
        Kind::Go => {
            let n = go_escape(name);
            push_lit(&mut out, "https://proxy.golang.org/");
            push_lit(&mut out, n.as_str());
            push_lit(&mut out, "/@latest");
        },
    }
    assert(out@ =~= registry_url(kind, name@)->0);
    Some(string_of(out.as_slice()))
}

/// The version that a line of the crates.io index publishes; a yanked one
/// counts as none.
pub open spec fn published(j: Json) -> Option<Seq<char>> {
    if bool_of(field(j, "yanked"@)) == Some(true) {
        None
    } else {
        text_of(field(j, "vers"@))
    }
}

pub fn published_version(v: &Value) -> (r: Option<String>)
    ensures
        opt_text(r) == published(json_of(*v)),
{
    match as_bool(at(v, "yanked")) {
        Some(true) => None,
        _ => match as_text(at(v, "vers")) {
            Some(s) => Some(s.to_owned()),
            None => None,
        },
    }
}

/// The versions that the first `n` lines of an index publish.
pub open spec fn published_upto(all: Seq<Seq<char>>, n: nat) -> Seq<Seq<char>>
    decreases n,
{
    if n == 0 || n > all.len() {
        Seq::empty()
    } else {
        let done = published_upto(all, (n - 1) as nat);
        match json_read(all[n - 1]) {
            Some(j) => match published(j) {
                Some(v) => done.push(v),
                None => done,
            },
            None => done,
        }
    }
}

/// The versions that an answer of the crates.io index publishes.
pub(crate) fn published_versions(body: &str) -> (out: Vec<String>)
    ensures
        texts(out@) == published_upto(lines(body@), lines(body@).len()),
{
    let chars = chars_of(body);
    let all = lines_of(chars.as_slice());
    let mut out: Vec<String> = Vec::new();
    let mut i: usize = 0;
    assert(texts(out@) =~= Seq::<Seq<char>>::empty());
    while i < all.len()
        invariant
            i <= all@.len(),
            texts(out@) == published_upto(slices(all@), i as nat),
        decreases all@.len() - i,
    {
        assert(slices(all@)[i as int] == all@[i as int]@);
        let line = string_of(all[i]);
        match parse_json(line.as_str()) {
            Some(v) => match published_version(&v) {
                Some(version) => {
                    let ghost had = out@;
                    out.push(version);
                    assert(texts(out@) =~= texts(had).push(version@));
                },
                None => {},
            },
            None => {},
        }
        i += 1;
    }
    out
}

/// The texts among the first `n` items of an array.
pub open spec fn texts_upto(items: Seq<Json>, n: nat) -> Seq<Seq<char>>
    decreases n,
{
    if n == 0 || n > items.len() {
        Seq::empty()
    } else {
        let done = texts_upto(items, (n - 1) as nat);
        match text_of(items[n - 1]) {
            Some(t) => done.push(t),
            None => done,
        }
    }
}

/// The newest version in an answer of a registry other than crates.io.
pub open spec fn answered(kind: Kind, j: Json) -> Option<Seq<char>> {
    match kind {
        Kind::Npm => text_of(field(j, "version"@)),
        Kind::Go => match text_of(field(j, "Version"@)) {
            Some(v) => Some(trim_start_set(v, 'v', 'v')),
            None => None,
        },
        _ => match array_of(field(j, "versions"@)) {
            Some(items) => best_of(texts_upto(items, items.len())),
            None => None,
        },
    }
}

/// The newest version in an answer of a registry other than crates.io, once
/// it is parsed.
pub fn answered_version(kind: Kind, v: &Value) -> (r: Option<String>)
    ensures
        opt_text(r) == answered(kind, json_of(*v)),
{
    match kind {
        Kind::Npm => match as_text(at(v, "version")) {
            Some(s) => Some(s.to_owned()),
            None => None,
        },
        Kind::Go => match as_text(at(v, "Version")) {
            Some(s) => {
                let chars = chars_of(s);
                Some(string_of(trim_left_of(chars.as_slice(), 'v', 'v')))
            },
            None => None,
        },
        _ => match as_array(at(v, "versions")) {
            Some(items) => {
                let mut all: Vec<String> = Vec::new();
                let mut i: usize = 0;
                assert(texts(all@) =~= Seq::<Seq<char>>::empty());
                while i < items.len()
                    invariant
                        i <= items@.len(),
                        texts(all@) == texts_upto(jsons(items@), i as nat),
                    decreases items@.len() - i,
                {
                    assert(jsons(items@)[i as int] == json_of(items@[i as int]));
                    match as_text(&items[i]) {
                        Some(s) => {
                            let ghost had = all@;
                            all.push(s.to_owned());
                            assert(texts(all@) =~= texts(had).push(s@));
                        },
                        None => {},
                    }
                    i += 1;
                }
                best_version(&all)
            },
            None => None,
        },
    }
}

/// The newest version that a registry's answer knows.
pub open spec fn latest_of(kind: Kind, body: Seq<char>) -> Option<Seq<char>> {
    match kind {
        Kind::Cargo => best_of(published_upto(lines(body), lines(body).len())),
        _ => match json_read(body) {
            Some(j) => answered(kind, j),
            None => None,
        },
    }
}

/// The newest version the ecosystem's registry knows, from its answer.
pub fn latest(kind: Kind, body: &str) -> (r: Option<String>)
    ensures
        opt_text(r) == latest_of(kind, body@),
{
    match kind {
        Kind::Cargo => {
            let all = published_versions(body);
            best_version(&all)
        },
        _ => match parse_json(body) {
            Some(v) => answered_version(kind, &v),
            None => None,
        },
    }
}

/// A place that is between characters stays so in a prefix that ends between
/// characters.
proof fn lemma_boundary_in_prefix(b: Seq<u8>, i: int, n: int)
    requires
        valid_utf8(b),
        0 <= i <= n <= b.len(),
        is_char_boundary(b, i),
        is_char_boundary(b, n),
    ensures
        is_char_boundary(b.subrange(0, n), i),
{
    let p = b.subrange(0, n);
    vstd::utf8::valid_utf8_split(b, n);
    if i < n {
        assert(p[i] == b[i]);
        vstd::utf8::is_char_boundary_iff_not_is_continuation_byte(b, i);
        vstd::utf8::is_char_boundary_iff_not_is_continuation_byte(p, i);
    } else {
        vstd::utf8::is_char_boundary_start_end_of_seq(p);
    }
}

} // verus!
