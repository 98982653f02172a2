//! The registers that cuts and copies fill and pastes read.

use vstd::prelude::*;

verus! {

/// The unnamed register and the named ones, and which of them the next
/// command uses.
pub struct Registers {
    /// What was last cut or copied without a name.
    pub unnamed: String,
    /// Each name once.
    pub named: Vec<(char, String)>,
    /// The register that the next capture or paste uses instead of the
    /// unnamed one.
    pub active: Option<char>,
    /// True until the first capture of a keypress, so that the captures of one
    /// edit at many cursors accumulate.
    pub fresh: bool,
}

pub struct RegistersView {
    pub unnamed: Seq<char>,
    pub named: Map<char, Seq<char>>,
    pub active: Option<char>,
    pub fresh: bool,
}

/// What the first entry from `i` on with this name holds.
pub open spec fn entry_from(v: Seq<(char, String)>, name: char, i: int) -> Option<Seq<char>>
    decreases v.len() - i,
{
    if i < 0 || i >= v.len() {
        None
    } else if v[i].0 == name {
        Some(v[i].1@)
    } else {
        entry_from(v, name, i + 1)
    }
}

pub open spec fn named_view(v: Seq<(char, String)>) -> Map<char, Seq<char>> {
    Map::new(|c: char| entry_from(v, c, 0) is Some, |c: char| entry_from(v, c, 0)->0)
}

impl View for Registers {
    type V = RegistersView;

    open spec fn view(&self) -> RegistersView {
        RegistersView {
            unnamed: self.unnamed@,
            named: named_view(self.named@),
            active: self.active,
            fresh: self.fresh,
        }
    }
}

pub open spec fn no_registers() -> RegistersView {
    RegistersView { unnamed: Seq::empty(), named: Map::empty(), active: None, fresh: true }
}

/// A register with one more capture in it: a line of its own after the ones
/// before, of which the first of a keypress leaves none.
pub open spec fn captured(buf: Seq<char>, fresh: bool, s: Seq<char>) -> Seq<char> {
    let kept = if fresh {
        Seq::empty()
    } else {
        buf
    };
    (if kept.len() > 0 && kept.last() != '\n' {
        kept.push('\n')
    } else {
        kept
    }) + s
}

/// What the register that the next command uses holds.
pub open spec fn register_text(r: RegistersView) -> Seq<char> {
    match r.active {
        Some(c) => if r.named.dom().contains(c) {
            r.named[c]
        } else {
            Seq::empty()
        },
        None => r.unnamed,
    }
}

/// The registers after a capture.
pub open spec fn register_pushed(r: RegistersView, s: Seq<char>) -> RegistersView {
    let text = captured(register_text(r), r.fresh, s);
    match r.active {
        Some(c) => RegistersView { named: r.named.insert(c, text), fresh: false, ..r },
        None => RegistersView { unnamed: text, fresh: false, ..r },
    }
}

proof fn lemma_entry_set(v: Seq<(char, String)>, k: int, t: (char, String), name: char, i: int)
    requires
        0 <= i <= k < v.len(),
        t.0 == v[k].0,
        forall|j: int| i <= j < k ==> (#[trigger] v[j]).0 != t.0,
    ensures
        entry_from(v.update(k, t), name, i) == (if name == t.0 {
            Some(t.1@)
        } else {
            entry_from(v, name, i)
        }),
    decreases k - i,
{
    let w = v.update(k, t);
    if i < k {
        assert(w[i] == v[i]);
        lemma_entry_set(v, k, t, name, i + 1);
    } else {
        lemma_entry_same(v, w, name, k + 1);
    }
}

proof fn lemma_entry_same(v: Seq<(char, String)>, w: Seq<(char, String)>, name: char, i: int)
    requires
        0 <= i,
        v.len() == w.len(),
        forall|j: int| i <= j < v.len() ==> v[j] == w[j],
    ensures
        entry_from(v, name, i) == entry_from(w, name, i),
    decreases v.len() - i,
{
    if i < v.len() {
        lemma_entry_same(v, w, name, i + 1);
    }
}

proof fn lemma_entry_push(v: Seq<(char, String)>, t: (char, String), name: char, i: int)
    requires
        0 <= i <= v.len(),
    ensures
        entry_from(v.push(t), name, i) == (match entry_from(v, name, i) {
            Some(x) => Some(x),
            None => if name == t.0 {
                Some(t.1@)
            } else {
                None
            },
        }),
    decreases v.len() - i,
{
    if i < v.len() {
        lemma_entry_push(v, t, name, i + 1);
    } else {
        reveal_with_fuel(entry_from, 2);
    }
}

impl Registers {
    pub fn new() -> (r: Self)
        ensures
            r@ == no_registers(),
    {
        let r = Registers {
            unnamed: String::new(),
            named: Vec::new(),
            active: None,
            fresh: true,
        };
        assert(r@.named =~= Map::empty());
        assert(r@.unnamed =~= Seq::empty());
        r
    }

    fn position(&self, name: char) -> (r: Option<usize>)
        ensures
            match r {
                Some(k) => k < self.named@.len() && self.named@[k as int].0 == name && (forall|j: int|
                    0 <= j < k ==> (#[trigger] self.named@[j]).0 != name) && entry_from(
                    self.named@,
                    name,
                    0,
                ) == Some(self.named@[k as int].1@),
                None => entry_from(self.named@, name, 0) is None,
            },
    {
        let mut i: usize = 0;
        while i < self.named.len()
            invariant
                i <= self.named@.len(),
                forall|j: int| 0 <= j < i ==> (#[trigger] self.named@[j]).0 != name,
                entry_from(self.named@, name, 0) == entry_from(self.named@, name, i as int),
            decreases self.named@.len() - i,
        {
            if self.named[i].0 == name {
                return Some(i);
            }
            i += 1;
        }
        None
    }

    /// What a named register holds, if it was ever filled.
    pub fn get(&self, name: char) -> (r: Option<String>)
        ensures
            match r {
                Some(t) => self@.named.dom().contains(name) && t@ == self@.named[name],
                None => !self@.named.dom().contains(name),
            },
    {
        match self.position(name) {
            Some(k) => Some(self.named[k].1.clone()),
            None => None,
        }
    }

    /// Fill a named register.
    pub fn set(&mut self, name: char, text: String)
        ensures
            final(self)@ == (RegistersView {
                named: old(self)@.named.insert(name, text@),
                ..old(self)@
            }),
    {
        let ghost v = self.named@;
        let ghost t = (name, text);
        match self.position(name) {
            Some(k) => {
                self.named.set(k, (name, text));
                assert forall|c: char| entry_from(self.named@, c, 0) == (if c == name {
                    Some(t.1@)
                } else {
                    entry_from(v, c, 0)
                }) by {
                    lemma_entry_set(v, k as int, t, c, 0);
                }
            },
            None => {
                self.named.push((name, text));
                assert forall|c: char| entry_from(self.named@, c, 0) == (if c == name {
                    Some(t.1@)
                } else {
                    entry_from(v, c, 0)
                }) by {
                    lemma_entry_push(v, t, c, 0);
                }
            },
        }
        assert(self@.named =~= named_view(v).insert(name, t.1@));
    }

    /// What the register in use holds.
    pub fn text(&self) -> (r: String)
        ensures
            r@ == register_text(self@),
    {
        match self.active {
            Some(c) => match self.get(c) {
                Some(t) => t,
                None => {
                    let t = String::new();
                    assert(t@ =~= Seq::empty());
                    t
                },
            },
            None => self.unnamed.clone(),
        }
    }

    /// Add captured text to the register in use.
    pub fn push(&mut self, s: &str)
        ensures
            final(self)@ == register_pushed(old(self)@, s@),
    {
        let mut buf = self.text();
        if self.fresh {
            buf = String::new();
            assert(buf@ =~= Seq::empty());
        }
        let c = crate::strings::chars_of(buf.as_str());
        if c.len() > 0 && c[c.len() - 1] != '\n' {
            buf.push('\n');
        }
        buf.append(s);
        self.fresh = false;
        match self.active {
            Some(c) => self.set(c, buf),
            None => self.unnamed = buf,
        }
    }
}

/// What one keypress captures replaces what was there, and a second capture
/// of it goes on a line of its own.
pub proof fn law_captures_gather(r: RegistersView, a: Seq<char>, b: Seq<char>)
    requires
        r.fresh,
        a.len() > 0,
        a.last() != '\n',
    ensures
        register_text(register_pushed(r, a)) == a,
        register_text(register_pushed(register_pushed(r, a), b)) == a.push('\n') + b,
{
    assert(captured(register_text(r), true, a) =~= a);
}

/// A named register and the others do not touch each other.
pub proof fn law_registers_are_apart(r: RegistersView, s: Seq<char>, other: char)
    requires
        r.active != Some(other),
    ensures
        register_pushed(r, s).named.dom().contains(other) == r.named.dom().contains(other),
        r.named.dom().contains(other) ==> register_pushed(r, s).named[other] == r.named[other],
        r.active is Some ==> register_pushed(r, s).unnamed == r.unnamed,
{
}

} // verus!
