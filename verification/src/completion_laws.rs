//! What a completion menu offers, and what accepting an item puts in.

use vstd::prelude::*;
use crate::completion::{offers, prefix_of, with_word, word_back, words_in};
use crate::document::DocView;
use crate::edit_laws::{is_on, lemma_is_on};
use crate::edits::word_char;
use crate::state::CompletionView;
use crate::strings::{lowercase, starts_with, with_name};
use crate::typing::{accepted_text, beginning_with, menu_narrowed, menu_stepped};

verus! {

// ---- the menu ----------------------------------------------------------------------

/// Stepping through the menu goes round: down and up again is where it was,
/// and behind the last item comes the first.
pub proof fn law_the_menu_goes_round(c: CompletionView)
    requires
        c.selected < c.items.len() <= usize::MAX,
    ensures
        menu_stepped(menu_stepped(c, true), false).selected == c.selected,
        menu_stepped(menu_stepped(c, false), true).selected == c.selected,
        menu_stepped(c, true).selected == (if c.selected + 1 < c.items.len() {
            c.selected + 1
        } else {
            0
        }),
        menu_stepped(c, true).items == c.items,
        menu_stepped(c, false).items == c.items,
{
}

proof fn lemma_beginning(
    items: Seq<(Seq<char>, Seq<char>)>,
    low: Seq<char>,
    n: nat,
    x: (Seq<char>, Seq<char>),
)
    requires
        n <= items.len(),
    ensures
        beginning_with(items, low, n).contains(x) <==> starts_with(lowercase(x.0), low)
            && exists|i: int| 0 <= i < n && #[trigger] items[i] == x,
    decreases n,
{
    if n > 0 {
        let m = (n - 1) as nat;
        lemma_beginning(items, low, m, x);
        let head = beginning_with(items, low, m);
        let v = beginning_with(items, low, n);
        if starts_with(lowercase(items[n - 1].0), low) {
            assert(v == head.push(items[n - 1]));
            assert(v[head.len() as int] == items[n - 1]);
            if head.contains(x) {
                let j = choose|j: int| 0 <= j < head.len() && head[j] == x;
                assert(v[j] == x);
            }
            if v.contains(x) {
                let j = choose|j: int| 0 <= j < v.len() && v[j] == x;
                if j < head.len() {
                    assert(head[j] == x);
                }
            }
        }
    }
}

/// Typing on narrows the menu to the items that begin with what is typed,
/// whatever the case: all of these and no other.
pub proof fn law_typing_narrows_the_menu(c: CompletionView, ch: char, x: (Seq<char>, Seq<char>))
    ensures
        menu_narrowed(c, ch).prefix == c.prefix.push(ch),
        menu_narrowed(c, ch).items.contains(x) <==> c.items.contains(x) && starts_with(
            lowercase(x.0),
            lowercase(c.prefix.push(ch)),
        ),
        menu_narrowed(c, ch).selected == 0,
{
    reveal(menu_narrowed);
    lemma_beginning(c.items, lowercase(c.prefix.push(ch)), c.items.len(), x);
}

/// Accepting an item makes what is typed into the item: where the item begins
/// with it, the rest is put behind it; else it is replaced.
pub proof fn law_accepting_completes_what_is_typed(c: CompletionView)
    requires
        c.selected < c.items.len(),
    ensures
        ({
            let text = c.items[c.selected as int].1;
            let begins = starts_with(lowercase(text), lowercase(c.prefix));
            match accepted_text(c) {
                Some((n, t)) => if begins {
                    n == 0 && (starts_with(text, c.prefix) ==> c.prefix + t == text) && (
                    c.prefix.len() <= text.len() ==> t.len() + c.prefix.len() == text.len())
                } else {
                    n == c.prefix.len() && t == text
                },
                None => false,
            }
        }),
{
    reveal(accepted_text);
    let text = c.items[c.selected as int].1;
    if starts_with(text, c.prefix) {
        let k = c.prefix.len() as int;
        assert(text.subrange(0, k) + text.skip(k) =~= text);
    }
}

// ---- what is typed -----------------------------------------------------------------

proof fn lemma_word_back(l: Seq<char>, i: int)
    requires
        0 <= i <= l.len(),
    ensures
        0 <= word_back(l, i) <= i,
        forall|k: int| word_back(l, i) <= k < i ==> word_char(#[trigger] l[k]),
        word_back(l, i) > 0 ==> !word_char(l[word_back(l, i) - 1]),
    decreases i,
{
    if i > 0 && word_char(l[i - 1]) {
        lemma_word_back(l, i - 1);
    }
}

/// What is typed so far is the longest run of word characters before the
/// cursor on its line.
pub proof fn law_what_is_typed_is_the_run_before_the_cursor(d: DocView, a: int, e: int, n: int)
    requires
        d.cursor <= d.text.len(),
        is_on(d.text, d.cursor as int, a, e, n),
    ensures
        ({
            let s = d.text;
            let c = d.cursor as int;
            let p = prefix_of(d);
            &&& a <= c - p.len()
            &&& p == s.subrange(c - p.len(), c)
            &&& forall|k: int| c - p.len() <= k < c ==> word_char(#[trigger] s[k])
            &&& c - p.len() > a ==> !word_char(s[c - p.len() - 1])
        }),
{
    reveal(prefix_of);
    let s = d.text;
    let c = d.cursor as int;
    lemma_is_on(s, c, a, e, n);
    let l = s.subrange(a, n);
    lemma_word_back(l, c - a);
    let w = word_back(l, c - a);
    assert(l.subrange(w, c - a) =~= s.subrange(a + w, c));
    assert forall|k: int| a + w <= k < c implies word_char(#[trigger] s[k]) by {
        assert(l[k - a] == s[k]);
    }
    if w > 0 {
        assert(l[w - 1] == s[a + w - 1]);
    }
}

// ---- words of the buffers ------------------------------------------------------------

/// Whether a stretch of a text is one of its words.
pub open spec fn is_word_at(s: Seq<char>, a: int, b: int) -> bool {
    &&& 0 <= a <= b <= s.len()
    &&& forall|k: int| a <= k < b ==> word_char(#[trigger] s[k])
    &&& a > 0 ==> !word_char(s[a - 1])
    &&& b < s.len() ==> !word_char(s[b])
}

/// Whether a text has a word, ended at `i` or later.
pub open spec fn has_word(s: Seq<char>, w: Seq<char>, i: int) -> bool {
    exists|a: int, b: int| #[trigger] is_word_at(s, a, b) && i <= b && s.subrange(a, b) == w
}

proof fn lemma_with_name(names: Seq<Seq<char>>, name: Seq<char>, i: int, x: Seq<char>)
    requires
        0 <= i <= names.len(),
    ensures
        with_name(names, name, i).contains(x) <==> names.contains(x) || x == name,
    decreases names.len() - i,
{
    let r = with_name(names, name, i);
    if i >= names.len() || crate::strings::text_before(name, names[i], 0) {
        assert(r == names.take(i).push(name) + names.skip(i));
        assert forall|k: int| 0 <= k < r.len() implies #[trigger] r[k] == (if k < i {
            names[k]
        } else if k == i {
            name
        } else {
            names[k - 1]
        }) by {}
        assert(r[i] == name);
        if names.contains(x) {
            let k = choose|k: int| 0 <= k < names.len() && names[k] == x;
            assert(r[if k < i {
                k
            } else {
                k + 1
            }] == x);
        }
        if r.contains(x) {
            let k = choose|k: int| 0 <= k < r.len() && r[k] == x;
            if k < i {
                assert(names[k] == x);
            } else if k > i {
                assert(names[k - 1] == x);
            }
        }
    } else {
        lemma_with_name(names, name, i + 1, x);
    }
}

proof fn lemma_with_word(names: Seq<Seq<char>>, word: Seq<char>, prefix: Seq<char>, x: Seq<char>)
    ensures
        with_word(names, word, prefix).contains(x) <==> names.contains(x) || (x == word && offers(
            word,
            prefix,
        )),
{
    if offers(word, prefix) && !names.contains(word) {
        lemma_with_name(names, word, 0, x);
    }
}

proof fn lemma_words_in(
    s: Seq<char>,
    i: int,
    word: Seq<char>,
    prefix: Seq<char>,
    names: Seq<Seq<char>>,
    x: Seq<char>,
)
    requires
        0 <= i <= s.len(),
        word.len() <= i,
        word == s.subrange(i - word.len(), i),
        forall|k: int| i - word.len() <= k < i ==> word_char(#[trigger] s[k]),
        i - word.len() > 0 ==> !word_char(s[i - word.len() - 1]),
    ensures
        words_in(s, i, word, prefix, names).contains(x) <==> names.contains(x) || (offers(x, prefix)
            && has_word(s, x, i)),
    decreases s.len() - i,
{
    let a = i - word.len();
    if i >= s.len() {
        lemma_with_word(names, word, prefix, x);
        if offers(x, prefix) && has_word(s, x, i) {
            let (p, q) = choose|p: int, q: int| #[trigger]
                is_word_at(s, p, q) && i <= q && s.subrange(p, q) == x;
            lemma_one_word(s, p, q, a, i);
        }
        if x == word {
            assert(is_word_at(s, a, i));
        }
    } else if word_char(s[i]) {
        let w = word.push(s[i]);
        assert(w =~= s.subrange(i + 1 - w.len(), i + 1));
        lemma_words_in(s, i + 1, w, prefix, names, x);
        if has_word(s, x, i) {
            let (p, q) = choose|p: int, q: int| #[trigger]
                is_word_at(s, p, q) && i <= q && s.subrange(p, q) == x;
            assert(q != i);
            assert(is_word_at(s, p, q));
        }
        if has_word(s, x, i + 1) {
            let (p, q) = choose|p: int, q: int| #[trigger]
                is_word_at(s, p, q) && i + 1 <= q && s.subrange(p, q) == x;
            assert(is_word_at(s, p, q));
        }
    } else {
        let none = Seq::<char>::empty();
        assert(none =~= s.subrange(i + 1, i + 1));
        let more = with_word(names, word, prefix);
        lemma_with_word(names, word, prefix, x);
        lemma_words_in(s, i + 1, none, prefix, more, x);
        if offers(x, prefix) && has_word(s, x, i) {
            let (p, q) = choose|p: int, q: int| #[trigger]
                is_word_at(s, p, q) && i <= q && s.subrange(p, q) == x;
            if q == i {
                lemma_one_word(s, p, q, a, i);
            } else {
                assert(is_word_at(s, p, q));
            }
        }
        if x == word {
            assert(is_word_at(s, a, i));
        }
        if has_word(s, x, i + 1) {
            let (p, q) = choose|p: int, q: int| #[trigger]
                is_word_at(s, p, q) && i + 1 <= q && s.subrange(p, q) == x;
            assert(is_word_at(s, p, q));
        }
    }
}

/// Two words that end at one place are one.
proof fn lemma_one_word(s: Seq<char>, p: int, q: int, a: int, b: int)
    requires
        is_word_at(s, p, q),
        q == b,
        0 <= a <= b,
        forall|k: int| a <= k < b ==> word_char(#[trigger] s[k]),
        a > 0 ==> !word_char(s[a - 1]),
    ensures
        p == a,
{
    if p < a {
        assert(word_char(s[a - 1]));
    }
    if a < p {
        assert(word_char(s[p - 1]));
    }
}

/// The words of a text that are offered for a prefix are its words of three
/// characters or more that begin with it, whatever the case, and are not just
/// it: all of these and no other.
pub proof fn law_the_words_that_begin_so_are_offered(s: Seq<char>, prefix: Seq<char>, w: Seq<char>)
    requires
        w.len() >= 3,
    ensures
        words_in(s, 0, Seq::empty(), prefix, Seq::empty()).contains(w) <==> has_word(s, w, 0)
            && starts_with(lowercase(w), lowercase(prefix)) && w != prefix,
{
    let none = Seq::<char>::empty();
    let names = Seq::<Seq<char>>::empty();
    assert(none =~= s.subrange(0, 0));
    lemma_words_in(s, 0, none, prefix, names, w);
    assert(!names.contains(w));
}

} // verus!
