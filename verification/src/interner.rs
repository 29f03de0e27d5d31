//! The string interner: deduplicates every string met during a session and
//! hands out dense integer identities for them. Everything above it refers
//! to strings only through these identities.

use vstd::prelude::*;

verus! {

/// Identity of an interned string, dense from zero within one session.
#[derive(Clone, Copy, PartialEq, Eq, Structural, Debug, Hash)]
pub struct StringId(pub usize);

/// True when no two distinct ids hold the same text.
pub open spec fn interner_injective(m: Seq<Seq<char>>) -> bool {
    forall|i: int, j: int| 0 <= i < j < m.len() ==> m[i] != m[j]
}

/// Whether some id of `m` holds the text `s`.
pub open spec fn interner_contains(m: Seq<Seq<char>>, s: Seq<char>) -> bool {
    exists|i: int| 0 <= i < m.len() && m[i] == s
}

/// The id holding `s` (meaningful only when `interner_contains(m, s)`).
pub open spec fn interner_id_of(m: Seq<Seq<char>>, s: Seq<char>) -> int {
    choose|i: int| 0 <= i < m.len() && m[i] == s
}

/// The id that interning `s` into state `m` returns.
pub open spec fn intern_id(m: Seq<Seq<char>>, s: Seq<char>) -> int {
    if interner_contains(m, s) {
        interner_id_of(m, s)
    } else {
        m.len() as int
    }
}

/// The interner state after interning `s` into state `m`.
pub open spec fn intern_state(m: Seq<Seq<char>>, s: Seq<char>) -> Seq<Seq<char>> {
    if interner_contains(m, s) {
        m
    } else {
        m.push(s)
    }
}

/// An id holding a given text is unique in an injective interner.
pub proof fn lemma_interner_index_unique(m: Seq<Seq<char>>, s: Seq<char>, i: int)
    requires
        interner_injective(m),
        0 <= i < m.len(),
        m[i] == s,
    ensures
        interner_contains(m, s),
        interner_id_of(m, s) == i,
{
    assert(interner_contains(m, s));
    let j = interner_id_of(m, s);
    if i < j {
        assert(m[i] != m[j]);
    } else if j < i {
        assert(m[j] != m[i]);
    }
}

/// Interning is idempotent: interning a text a second time changes nothing
/// and yields the same id as the first time.
pub proof fn lemma_intern_idempotent(m: Seq<Seq<char>>, s: Seq<char>)
    requires
        interner_injective(m),
    ensures
        intern_state(intern_state(m, s), s) == intern_state(m, s),
        intern_id(intern_state(m, s), s) == intern_id(m, s),
{
    if interner_contains(m, s) {
        assert(intern_state(m, s) == m);
    } else {
        let m1 = m.push(s);
        assert(m1[m.len() as int] == s);
        assert forall|i: int, j: int| 0 <= i < j < m1.len() implies m1[i] != m1[j] by {
            if j < m.len() {
                assert(m[i] != m[j]);
            } else {
                assert(m1[j] == s);
                assert(m1[i] == m[i]);
            }
        }
        lemma_interner_index_unique(m1, s, m.len() as int);
    }
}

/// Two different ids always resolve to different text.
pub proof fn lemma_distinct_ids_distinct_text(m: Seq<Seq<char>>, i: int, j: int)
    requires
        interner_injective(m),
        0 <= i < m.len(),
        0 <= j < m.len(),
        i != j,
    ensures
        m[i] != m[j],
{
    if i < j {
        assert(m[i] != m[j]);
    } else {
        assert(m[j] != m[i]);
    }
}

/// The interner itself. It only grows; ids are never reused within a
/// session, and no id survives the session that issued it.
#[derive(Debug)]
pub struct StringInterner {
    strings: Vec<String>,
}

impl View for StringInterner {
    type V = Seq<Seq<char>>;

    closed spec fn view(&self) -> Seq<Seq<char>> {
        self.strings@.map(|i: int, s: String| s@)
    }
}

impl StringInterner {
    /// Well-formed: distinct ids hold distinct text.
    pub open spec fn wf(&self) -> bool {
        interner_injective(self@)
    }

    /// An empty interner.
    pub fn new() -> (r: StringInterner)
        ensures
            r.wf(),
            r@ == Seq::<Seq<char>>::empty(),
    {
        let r = StringInterner { strings: Vec::new() };
        proof {
            assert(r@ =~= Seq::<Seq<char>>::empty());
        }
        r
    }

    /// How many distinct strings have been interned.
    pub fn len(&self) -> (r: usize)
        ensures
            r == self@.len(),
    {
        self.strings.len()
    }

    /// Return the id already holding `text`, or allocate the next id for it.
    pub fn intern(&mut self, text: &String) -> (id: StringId)
        requires
            old(self).wf(),
        ensures
            final(self).wf(),
            final(self)@ == intern_state(old(self)@, text@),
            id.0 as int == intern_id(old(self)@, text@),
            id.0 < final(self)@.len(),
            final(self)@[id.0 as int] == text@,
            final(self)@.len() <= old(self)@.len() + 1,
    {
        let ghost m = self@;
        let mut i: usize = 0;
        while i < self.strings.len()
            invariant
                self == old(self),
                m == old(self)@,
                interner_injective(m),
                i <= self.strings.len(),
                forall|k: int| 0 <= k < i ==> m[k] != text@,
            decreases self.strings.len() - i,
        {
            if self.strings[i] == *text {
                proof {
                    lemma_interner_index_unique(m, text@, i as int);
                }
                return StringId(i);
            }
            i += 1;
        }
        proof {
            assert(!interner_contains(m, text@));
        }
        let id = StringId(self.strings.len());
        self.strings.push(text.clone());
        proof {
            assert(self@ =~= m.push(text@));
            assert forall|p: int, q: int| 0 <= p < q < self@.len() implies self@[p] != self@[q] by {
                if q < m.len() {
                    assert(m[p] != m[q]);
                } else {
                    assert(self@[q] == text@);
                }
            }
        }
        id
    }

    /// The text an id of this session holds. Calling this with a foreign id
    /// is a programming error, excluded by precondition rather than reported.
    pub fn resolve(&self, id: StringId) -> (r: &String)
        requires
            id.0 < self@.len(),
        ensures
            r@ == self@[id.0 as int],
    {
        &self.strings[id.0]
    }

    /// The text an id holds, or `None` for a foreign id.
    pub fn get(&self, id: StringId) -> (r: Option<&String>)
        ensures
            id.0 < self@.len() ==> r is Some && r->0@ == self@[id.0 as int],
            id.0 >= self@.len() ==> r is None,
    {
        if id.0 < self.strings.len() {
            Some(&self.strings[id.0])
        } else {
            None
        }
    }
}

} // verus!
