//! The string interner: a bijection between distinct strings and dense
//! integer symbols assigned in insertion order.

use vstd::prelude::*;

verus! {

/// An opaque handle for an interned string: its index in insertion order.
pub type Symbol = usize;

/// Maps string content to stable symbols and back. Abstractly, a sequence
/// of pairwise-distinct strings; a symbol is an index into it. The table
/// is searched linearly rather than hashed: the FNV-1a hasher keeps its
/// own exact contract in `crate::fnv`, but nothing here depends on it.
#[derive(Debug)]
pub struct Interner {
    names: Vec<String>,
}

impl View for Interner {
    type V = Seq<Seq<char>>;

    closed spec fn view(&self) -> Seq<Seq<char>> {
        self.names@.map_values(|s: String| s@)
    }
}

/// The interner's invariant: no string is recorded twice.
pub open spec fn interner_wf(m: Seq<Seq<char>>) -> bool {
    forall|i: int, j: int| 0 <= i < j < m.len() ==> m[i] != m[j]
}

/// The index of `s` in `m`, or `-1` if it does not occur.
pub open spec fn spec_find(m: Seq<Seq<char>>, s: Seq<char>) -> int
    decreases m.len(),
{
    if m.len() == 0 {
        -1
    } else if m[0] == s {
        0
    } else {
        let r = spec_find(m.drop_first(), s);
        if r == -1 {
            -1
        } else {
            r + 1
        }
    }
}

/// What `intern` does to the model: the existing index for a recorded
/// string, a fresh final index for a new one.
pub open spec fn spec_intern(m: Seq<Seq<char>>, s: Seq<char>) -> (Seq<Seq<char>>, int) {
    let i = spec_find(m, s);
    if i >= 0 {
        (m, i)
    } else {
        (m.push(s), m.len() as int)
    }
}

/// `spec_find` returns either `-1` for an absent string, or the unique
/// index holding it.
pub proof fn lemma_find_characterizes(m: Seq<Seq<char>>, s: Seq<char>)
    ensures
        spec_find(m, s) >= -1,
        spec_find(m, s) == -1 ==> forall|i: int| 0 <= i < m.len() ==> m[i] != s,
        spec_find(m, s) >= 0 ==> spec_find(m, s) < m.len() && m[spec_find(m, s)] == s,
    decreases m.len(),
{
    if m.len() > 0 {
        lemma_find_characterizes(m.drop_first(), s);
        assert forall|i: int| 1 <= i < m.len() implies m[i] == m.drop_first()[i - 1] by {}
    }
}

impl Interner {
    /// An interner with no strings recorded.
    pub fn new() -> (r: Interner)
        ensures
            r@ == Seq::<Seq<char>>::empty(),
    {
        let r = Interner { names: Vec::new() };
        proof {
            assert(r@ =~= Seq::<Seq<char>>::empty());
        }
        r
    }

    /// The symbol for `name`: the one already recorded for this content if
    /// present, else a fresh symbol equal to the table's size. Idempotent
    /// on equal content, and keeps every recorded string distinct.
    pub fn intern(&mut self, name: &str) -> (r: Symbol)
        requires
            interner_wf(old(self)@),
        ensures
            interner_wf(final(self)@),
            (final(self)@, r as int) == spec_intern(old(self)@, name@),
            r < final(self)@.len(),
            final(self)@[r as int] == name@,
    {
        let ghost m = self@;
        proof {
            lemma_find_characterizes(m, name@);
        }
        let owned = name.to_owned();
        let n = self.names.len();
        let mut i: usize = 0;
        while i < n
            invariant
                n == self.names.len(),
                m == self@,
                m == old(self)@,
                interner_wf(m),
                owned@ == name@,
                0 <= i <= n,
                forall|j: int| 0 <= j < i ==> self@[j] != name@,
            decreases n - i,
        {
            if self.names[i] == owned {
                proof {
                    lemma_find_characterizes(m, name@);
                    let f = spec_find(m, name@);
                    assert(m[i as int] == name@);
                    if f == -1 {
                        assert(false);
                    }
                    assert(m[f] == name@);
                    if f < i as int {
                        assert(m[f] != m[i as int]);
                        assert(false);
                    }
                    if f > i as int {
                        assert(m[i as int] != m[f]);
                        assert(false);
                    }
                }
                return i;
            }
            i = i + 1;
        }
        proof {
            if spec_find(m, name@) >= 0 {
                assert(m[spec_find(m, name@)] == name@);
                assert(false);
            }
        }
        self.names.push(owned);
        proof {
            assert(self@ =~= m.push(name@));
        }
        n
    }

    /// The string recorded for `idx`, which must have been produced by
    /// this interner.
    pub fn lookup(&self, idx: Symbol) -> (r: &str)
        requires
            idx < self@.len(),
        ensures
            r@ == self@[idx as int],
    {
        self.names[idx].as_str()
    }
}

/// Looking up the symbol that interning a string produced yields that
/// string back, for every string.
pub proof fn lemma_lookup_intern(m: Seq<Seq<char>>, s: Seq<char>)
    requires
        interner_wf(m),
    ensures
        0 <= spec_intern(m, s).1 < spec_intern(m, s).0.len(),
        spec_intern(m, s).0[spec_intern(m, s).1] == s,
{
    lemma_find_characterizes(m, s);
}

/// Interning two strings, one after the other, yields equal symbols
/// exactly when the strings are equal.
pub proof fn lemma_intern_injective(m: Seq<Seq<char>>, s: Seq<char>, t: Seq<char>)
    requires
        interner_wf(m),
    ensures
        ({
            let (m1, a) = spec_intern(m, s);
            let (m2, b) = spec_intern(m1, t);
            a == b <==> s == t
        }),
{
    lemma_find_characterizes(m, s);
    let (m1, a) = spec_intern(m, s);
    lemma_intern_wf(m, s);
    lemma_find_characterizes(m1, t);
    let (m2, b) = spec_intern(m1, t);
    assert(m1[a] == s);
    if a == b {
        assert(m1[b] == t);
    }
    if s == t {
        assert(m1[a] == t);
        if spec_find(m1, t) == -1 {
            assert(false);
        }
        assert(m1[spec_find(m1, t)] == t);
        if spec_find(m1, t) != a {
            assert(false);
        }
    }
}

/// Interning preserves the interner's invariant.
pub proof fn lemma_intern_wf(m: Seq<Seq<char>>, s: Seq<char>)
    requires
        interner_wf(m),
    ensures
        interner_wf(spec_intern(m, s).0),
{
    lemma_find_characterizes(m, s);
    let m2 = spec_intern(m, s).0;
    if spec_find(m, s) == -1 {
        assert forall|i: int, j: int| 0 <= i < j < m2.len() implies m2[i] != m2[j] by {
            if j == m.len() as int {
                assert(m2[i] == m[i]);
            }
        }
    }
}

} // verus!
