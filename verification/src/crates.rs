//! Cargo.toml versions: the locked version (Cargo.lock) and the latest on
//! crates.io of each dependency.

use vstd::prelude::*;
use crate::deps::{
    beats, cargo_dep_names, cargo_key, cargo_line, cargo_lines, cargo_lock, cargo_locked,
    cargo_names, crates_index_path, has_index_path, index_path_of, is_newer, published_upto,
    published_versions, version_key, CargoReading, Versions,
};
use crate::strings::{
    chars_of, drop_white, first_from, has_char, is_white, lemma_first_from, lemma_skip_white, lines,
    lines_from, lowercase, opt_text, skip_white, split_once, starts_with, texts, trim, trim_start,
    without_cr, without_prefix,
};

verus! {

/// Dependency names in the `[…dependencies]` sections of a Cargo.toml.
pub fn dep_names(toml: &str) -> (out: Vec<String>)
    ensures
        texts(out@) == cargo_names(toml@),
{
    cargo_dep_names(toml)
}

/// Locked versions from a Cargo.lock: name -> version. In each `[[package]]`
/// block the `version` line follows the `name` line.
pub fn locked_versions(lock: &str) -> (out: Versions)
    ensures
        out@ == cargo_lock(lock@),
{
    cargo_locked(lock)
}

/// Loose semver sort key: `major.minor.patch`, ignoring pre-release and
/// build-metadata tails.
pub fn semver_key(v: &str) -> (r: (u64, u64, u64))
    ensures
        r == version_key(v@),
{
    crate::deps::semver_key(v)
}

/// The sparse-index path for a crate name.
pub fn index_path(name: &str) -> (r: String)
    requires
        has_index_path(lowercase(name@)),
    ensures
        r@ == index_path_of(lowercase(name@)),
{
    crates_index_path(name)
}

/// `index_path` for a name that may have no path in the index.
pub fn checked_index_path(name: &str) -> (r: Option<String>)
    ensures
        match r {
            Some(path) => has_index_path(lowercase(name@)) && path@ == index_path_of(
                lowercase(name@),
            ),
            None => !has_index_path(lowercase(name@)),
        },
{
    match crate::deps::checked_index_path(name) {
        Some(_) => Some(index_path(name)),
        None => None,
    }
}

/// The best stable version and the best pre-release, which has a `-`, of the
/// first `n`.
pub open spec fn newest_upto(versions: Seq<Seq<char>>, n: nat) -> (
    Option<Seq<char>>,
    Option<Seq<char>>,
)
    decreases n,
{
    if n == 0 || n > versions.len() {
        (None, None)
    } else {
        let (stable, pre) = newest_upto(versions, (n - 1) as nat);
        let v = versions[n - 1];
        if v.contains('-') {
            (
                stable,
                if beats(v, pre) {
                    Some(v)
                } else {
                    pre
                },
            )
        } else {
            (
                if beats(v, stable) {
                    Some(v)
                } else {
                    stable
                },
                pre,
            )
        }
    }
}

/// The newest version, preferring stable releases over pre-releases.
pub open spec fn newest_of(versions: Seq<Seq<char>>) -> Option<Seq<char>> {
    let (stable, pre) = newest_upto(versions, versions.len());
    if stable is Some {
        stable
    } else {
        pre
    }
}

/// The newest non-yanked version in an answer of the crates.io index,
/// preferring stable releases over pre-releases.
pub fn latest(body: &str) -> (r: Option<String>)
    ensures
        opt_text(r) == newest_of(published_upto(lines(body@), lines(body@).len())),
{
    let versions = published_versions(body);
    newest(&versions)
}

/// The newest version, preferring stable releases over pre-releases.
pub fn newest(versions: &Vec<String>) -> (r: Option<String>)
    ensures
        opt_text(r) == newest_of(texts(versions@)),
{
    let mut stable: Option<String> = None;
    let mut pre: Option<String> = None;
    let mut i: usize = 0;
    while i < versions.len()
        invariant
            i <= versions@.len(),
            newest_upto(texts(versions@), i as nat) == (opt_text(stable), opt_text(pre)),
        decreases versions@.len() - i,
    {
        assert(texts(versions@)[i as int] == versions@[i as int]@);
        let v = versions[i].as_str();
        let chars = chars_of(v);
        if has_char(chars.as_slice(), '-') {
            if is_newer(v, &pre) {
                pre = Some(versions[i].clone());
            }
        } else if is_newer(v, &stable) {
            stable = Some(versions[i].clone());
        }
        i += 1;
    }
    if stable.is_some() {
        stable
    } else {
        pre
    }
}

// ---- two manifests put together ---------------------------------------------

/// What the first `n` lines come to, read on from what came before.
pub open spec fn read_on(st: CargoReading, all: Seq<Seq<char>>, n: nat) -> CargoReading
    decreases n,
{
    if n == 0 || n > all.len() {
        st
    } else {
        cargo_line(read_on(st, all, (n - 1) as nat), all[n - 1])
    }
}

proof fn lemma_read_on(x: Seq<Seq<char>>, y: Seq<Seq<char>>, n: nat)
    requires
        n <= x.len() + y.len(),
    ensures
        cargo_lines(x + y, n) == (if n <= x.len() {
            cargo_lines(x, n)
        } else {
            read_on(cargo_lines(x, x.len()), y, (n - x.len()) as nat)
        }),
    decreases n,
{
    if n > 0 {
        lemma_read_on(x, y, (n - 1) as nat);
        if n <= x.len() {
            assert((x + y)[n - 1] == x[n - 1]);
        } else {
            assert((x + y)[n - 1] == y[n - 1 - x.len()]);
            assert(read_on(cargo_lines(x, x.len()), y, 0) == cargo_lines(x, x.len()));
        }
    }
}

proof fn lemma_read_first(st: CargoReading, l: Seq<char>, rest: Seq<Seq<char>>, n: nat)
    requires
        n <= rest.len(),
    ensures
        read_on(st, seq![l] + rest, n + 1) == read_on(cargo_line(st, l), rest, n),
    decreases n,
{
    let all = seq![l] + rest;
    if n > 0 {
        lemma_read_first(st, l, rest, (n - 1) as nat);
        assert(all[n as int] == rest[n - 1]);
    } else {
        assert(all[0] == l);
        assert(read_on(st, all, 0) == st);
    }
}

proof fn lemma_white_from(s: Seq<char>, t: Seq<char>, i: int)
    requires
        0 <= i <= t.len() < s.len(),
        t == s.take(t.len() as int),
        skip_white(s, i) < t.len(),
    ensures
        skip_white(t, i) == skip_white(s, i),
    decreases t.len() - i,
{
    lemma_skip_white(s, i);
    if i < t.len() {
        assert(t[i] == s[i]);
        if is_white(s[i]) {
            lemma_white_from(s, t, i + 1);
        }
    }
}

proof fn lemma_white_before(s: Seq<char>, t: Seq<char>, i: int)
    requires
        0 <= i <= t.len() <= s.len(),
        t == s.take(t.len() as int),
    ensures
        drop_white(t, i) == drop_white(s, i),
    decreases i,
{
    if i > 0 {
        assert(t[i - 1] == s[i - 1]);
        if is_white(s[i - 1]) {
            lemma_white_before(s, t, i - 1);
        }
    }
}

/// A carriage return at the end of a line is white space like any other.
proof fn lemma_trim_cr(s: Seq<char>)
    ensures
        trim(without_cr(s)) == trim(s),
{
    if s.len() > 0 && s.last() == '\r' {
        let t = s.drop_last();
        assert(t =~= s.take(t.len() as int));
        assert(is_white('\r'));
        lemma_skip_white(s, 0);
        lemma_skip_white(t, 0);
        let k = skip_white(s, 0);
        if k < t.len() {
            lemma_white_from(s, t, 0);
            let u = s.skip(k);
            let v = t.skip(k);
            assert(v =~= u.take(v.len() as int));
            assert(u[u.len() - 1] == '\r');
            assert(drop_white(u, u.len() as int) == drop_white(u, u.len() - 1));
            lemma_white_before(u, v, v.len() as int);
            let e = drop_white(v, v.len() as int);
            lemma_drop_white(v, v.len() as int);
            assert(u.take(e) =~= v.take(e));
        } else {
            if skip_white(t, 0) < t.len() {
                let j = skip_white(t, 0);
                assert(t[j] == s[j]);
                assert(is_white(s[j]));
            }
            if k < s.len() {
                assert(s[k] == '\r');
            }
            assert(trim_start(s) =~= Seq::empty());
            assert(trim_start(t) =~= Seq::empty());
        }
    }
}

proof fn lemma_drop_white(s: Seq<char>, i: int)
    requires
        0 <= i <= s.len(),
    ensures
        0 <= drop_white(s, i) <= i,
    decreases i,
{
    if i > 0 && is_white(s[i - 1]) {
        lemma_drop_white(s, i - 1);
    }
}

/// The lines of a text from `i` on that has a line break put behind it.
spec fn broken_lines(a: Seq<char>, i: int) -> Seq<Seq<char>>
    decreases a.len() - i,
{
    if i < 0 || i > a.len() {
        Seq::empty()
    } else {
        let e = first_from(a, '\n', i);
        if e >= a.len() || e < i {
            seq![without_cr(a.skip(i))]
        } else {
            seq![without_cr(a.subrange(i, e))] + broken_lines(a, e + 1)
        }
    }
}

proof fn lemma_break_in(a: Seq<char>, b: Seq<char>, i: int)
    requires
        0 <= i <= a.len(),
    ensures
        first_from(a + seq!['\n'] + b, '\n', i) == first_from(a, '\n', i),
    decreases a.len() - i,
{
    let s = a + seq!['\n'] + b;
    if i < a.len() {
        assert(s[i] == a[i]);
        if a[i] != '\n' {
            lemma_break_in(a, b, i + 1);
        }
    } else {
        assert(s[i] == '\n');
    }
}

proof fn lemma_break_behind(p: Seq<char>, b: Seq<char>, j: int)
    requires
        0 <= j <= b.len(),
    ensures
        first_from(p + b, '\n', p.len() + j) == p.len() + first_from(b, '\n', j),
    decreases b.len() - j,
{
    if j < b.len() {
        assert((p + b)[p.len() + j] == b[j]);
        if b[j] != '\n' {
            lemma_break_behind(p, b, j + 1);
        }
    }
}

proof fn lemma_lines_behind(p: Seq<char>, b: Seq<char>, j: int)
    requires
        0 <= j <= b.len(),
    ensures
        lines_from(p + b, p.len() + j) == lines_from(b, j),
    decreases b.len() - j,
{
    if j < b.len() {
        let s = p + b;
        let e = first_from(b, '\n', j);
        lemma_break_behind(p, b, j);
        lemma_first_from(b, '\n', j);
        if e >= b.len() {
            assert(s.skip(p.len() + j) =~= b.skip(j));
        } else {
            assert(s.subrange(p.len() + j, p.len() + e) =~= b.subrange(j, e));
            lemma_lines_behind(p, b, e + 1);
        }
    }
}

proof fn lemma_lines_joined(a: Seq<char>, b: Seq<char>, i: int)
    requires
        0 <= i <= a.len(),
    ensures
        lines_from(a + seq!['\n'] + b, i) == broken_lines(a, i) + lines(b),
    decreases a.len() - i,
{
    let p = a + seq!['\n'];
    let s = p + b;
    let e = first_from(a, '\n', i);
    lemma_break_in(a, b, i);
    lemma_first_from(a, '\n', i);
    if e < a.len() {
        assert(s.subrange(i, e) =~= a.subrange(i, e));
        lemma_lines_joined(a, b, e + 1);
        let l = seq![without_cr(a.subrange(i, e))];
        assert(l + (broken_lines(a, e + 1) + lines(b)) =~= l + broken_lines(a, e + 1) + lines(b));
    } else {
        assert(s.subrange(i, e) =~= a.skip(i));
        lemma_lines_behind(p, b, 0);
        assert(p.len() + 0 == e + 1);
    }
}

proof fn lemma_empty_line(st: CargoReading)
    ensures
        cargo_line(st, Seq::empty()) == st,
{
    let none = Seq::<char>::empty();
    reveal_strlit("[");
    reveal_strlit("#");
    assert(trim_start(none) =~= none);
    assert(trim(none) =~= none);
    assert(split_once(none, '=') is None);
}

proof fn lemma_broken_reads(st: CargoReading, a: Seq<char>, i: int)
    requires
        0 <= i <= a.len(),
    ensures
        read_on(st, broken_lines(a, i), broken_lines(a, i).len()) == read_on(
            st,
            lines_from(a, i),
            lines_from(a, i).len(),
        ),
    decreases a.len() - i,
{
    let e = first_from(a, '\n', i);
    lemma_first_from(a, '\n', i);
    let none = Seq::<Seq<char>>::empty();
    if e < a.len() {
        let l = without_cr(a.subrange(i, e));
        lemma_read_first(st, l, broken_lines(a, e + 1), broken_lines(a, e + 1).len());
        lemma_read_first(st, l, lines_from(a, e + 1), lines_from(a, e + 1).len());
        lemma_broken_reads(cargo_line(st, l), a, e + 1);
    } else {
        let l = without_cr(a.skip(i));
        lemma_read_first(st, l, none, 0);
        assert(seq![l] + none =~= seq![l]);
        lemma_trim_cr(a.skip(i));
        if i < a.len() {
            lemma_read_first(st, a.skip(i), none, 0);
            assert(seq![a.skip(i)] + none =~= seq![a.skip(i)]);
        } else {
            assert(l =~= Seq::empty());
            lemma_empty_line(st);
        }
    }
}

proof fn lemma_read_from_none(all: Seq<Seq<char>>, n: nat)
    requires
        n <= all.len(),
    ensures
        cargo_lines(all, n) == read_on(
            CargoReading { in_deps: false, names: Seq::empty() },
            all,
            n,
        ),
    decreases n,
{
    if n > 0 {
        lemma_read_from_none(all, (n - 1) as nat);
    }
}

proof fn lemma_read_section(st: CargoReading, all: Seq<Seq<char>>, n: nat)
    requires
        0 < n <= all.len(),
        starts_with(trim(all[0]), "["@),
    ensures
        read_on(st, all, n).names == st.names + cargo_lines(all, n).names,
        read_on(st, all, n).in_deps == cargo_lines(all, n).in_deps,
    decreases n,
{
    let a = read_on(st, all, (n - 1) as nat);
    let b = cargo_lines(all, (n - 1) as nat);
    if n > 1 {
        lemma_read_section(st, all, (n - 1) as nat);
        let line = trim(all[n - 1]);
        if without_prefix(line, "["@) is None && b.in_deps && !starts_with(line, "#"@)
            && cargo_key(line) is Some {
            let name = cargo_key(line)->0;
            assert(a.names.push(name) =~= st.names + b.names.push(name));
        }
    } else {
        assert(a == st);
        assert(st.names + Seq::<Seq<char>>::empty() =~= st.names);
    }
}

/// The names of two manifests put together, the second beginning with a
/// section of its own, are those of the first and then those of the second.
pub proof fn law_manifests_add_up(a: Seq<char>, b: Seq<char>)
    requires
        lines(b).len() > 0,
        starts_with(trim(lines(b)[0]), "["@),
    ensures
        cargo_names(a + seq!['\n'] + b) == cargo_names(a) + cargo_names(b),
{
    let front = broken_lines(a, 0);
    let behind = lines(b);
    let none = CargoReading { in_deps: false, names: Seq::empty() };
    lemma_lines_joined(a, b, 0);
    lemma_read_on(front, behind, (front + behind).len());
    lemma_read_from_none(front, front.len());
    lemma_broken_reads(none, a, 0);
    lemma_read_from_none(lines(a), lines(a).len());
    lemma_read_section(cargo_lines(lines(a), lines(a).len()), behind, behind.len());
}

} // verus!
