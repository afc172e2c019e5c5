use vstd::prelude::*;

verus! {

/// Number of 64-bit words in a service mask.
pub const WORDS: usize = 3;

/// Largest number of services a mask can index.
pub const MAX_SERVICES: usize = 192;

/// Whether bit `b` of `w` is one.
pub open spec fn bit_of(w: u64, b: u64) -> bool {
    (w >> b) & 1u64 == 1u64
}

/// A fixed-capacity bit set of service indexes below `MAX_SERVICES`.
#[derive(Clone, Copy, Debug, Eq, PartialEq)]
pub struct ServiceMask([u64; 3]);

proof fn lemma_bit_and_shift(w: u64, b: u64)
    requires
        b < 64,
    ensures
        (w & (1u64 << b) != 0) == bit_of(w, b),
{
    assert((w & (1u64 << b) != 0) == ((w >> b) & 1u64 == 1u64)) by (bit_vector)
        requires
            b < 64,
    ;
}

proof fn lemma_bit_or(a: u64, c: u64)
    ensures
        forall|b: u64| #![trigger bit_of(a | c, b)] b < 64 ==> (bit_of(a | c, b) == (bit_of(a, b) || bit_of(c, b))),
{
    assert forall|b: u64| #![trigger bit_of(a | c, b)] b < 64 implies (bit_of(a | c, b) == (bit_of(a, b) || bit_of(c, b))) by {
        assert((((a | c) >> b) & 1u64 == 1u64) == (((a >> b) & 1u64 == 1u64) || ((c >> b) & 1u64 == 1u64))) by (bit_vector)
            requires
                b < 64,
        ;
    }
}

proof fn lemma_bit_andnot(a: u64, c: u64)
    ensures
        forall|b: u64| #![trigger bit_of(a & !c, b)] b < 64 ==> (bit_of(a & !c, b) == (bit_of(a, b) && !bit_of(c, b))),
{
    assert forall|b: u64| #![trigger bit_of(a & !c, b)] b < 64 implies (bit_of(a & !c, b) == (bit_of(a, b) && !bit_of(c, b))) by {
        assert((((a & !c) >> b) & 1u64 == 1u64) == (((a >> b) & 1u64 == 1u64) && !((c >> b) & 1u64 == 1u64))) by (bit_vector)
            requires
                b < 64,
        ;
    }
}

proof fn lemma_bit_set_one(w: u64, k: u64)
    requires
        k < 64,
    ensures
        forall|b: u64| #![trigger bit_of(w | (1u64 << k), b)] b < 64 ==> (bit_of(w | (1u64 << k), b) == (b == k || bit_of(w, b))),
{
    assert forall|b: u64| #![trigger bit_of(w | (1u64 << k), b)] b < 64 implies (bit_of(w | (1u64 << k), b) == (b == k || bit_of(w, b))) by {
        assert((((w | (1u64 << k)) >> b) & 1u64 == 1u64) == (b == k || ((w >> b) & 1u64 == 1u64))) by (bit_vector)
            requires
                b < 64,
                k < 64,
        ;
    }
}

proof fn lemma_zero_has_no_bits()
    ensures
        forall|b: u64| #![trigger bit_of(0u64, b)] b < 64 ==> !bit_of(0u64, b),
{
    assert forall|b: u64| #![trigger bit_of(0u64, b)] b < 64 implies !bit_of(0u64, b) by {
        assert(!((0u64 >> b) & 1u64 == 1u64)) by (bit_vector);
    }
}

impl ServiceMask {
    /// Whether `index` is a member of the mask.
    pub closed spec fn has(self, index: int) -> bool {
        &&& 0 <= index < MAX_SERVICES
        &&& bit_of(self.0[index / 64], (index % 64) as u64)
    }

    /// The mask as a set of service indexes.
    pub closed spec fn members(self) -> Set<int> {
        Set::new(|index: int| self.has(index))
    }

    /// Every member of a mask is an index below `MAX_SERVICES`.
    pub proof fn lemma_members_bounded(self)
        ensures
            forall|i: int| #[trigger] self.members().contains(i) ==> 0 <= i < MAX_SERVICES,
    {
    }

    /// The empty mask.
    pub fn new() -> (mask: Self)
        ensures
            mask.members() == Set::<int>::empty(),
    {
        proof {
            lemma_zero_has_no_bits();
        }
        let mask = ServiceMask([0u64, 0u64, 0u64]);
        assert(mask.members() =~= Set::<int>::empty()) by {
            assert forall|index: int| !mask.has(index) by {
                if 0 <= index < 192 {
                    assert(!bit_of(0u64, (index % 64) as u64));
                }
            }
        }
        mask
    }

    /// Adds `index` to the mask.
    pub fn insert(&mut self, index: usize)
        requires
            index < MAX_SERVICES,
        ensures
            final(self).members() == old(self).members().insert(index as int),
    {
        let word = index / 64;
        let bit = (index % 64) as u64;
        let old_word = self.0[word];
        let new_word = old_word | (1u64 << bit);
        proof {
            lemma_bit_set_one(old_word, bit);
        }
        let ghost before = *self;
        if word == 0 {
            self.0 = [new_word, self.0[1], self.0[2]];
        } else if word == 1 {
            self.0 = [self.0[0], new_word, self.0[2]];
        } else {
            self.0 = [self.0[0], self.0[1], new_word];
        }
        assert(self.members() =~= before.members().insert(index as int)) by {
            assert forall|i: int| self.has(i) == (before.has(i) || i == index) by {
                if 0 <= i < 192 {
                    let b = (i % 64) as u64;
                    assert(b < 64);
                    if i / 64 == word as int {
                        assert(bit_of(new_word, b) == (b == bit || bit_of(old_word, b)));
                    }
                }
            }
        }
    }

    /// Whether `index` is a member of the mask; indexes beyond capacity are not.
    pub fn contains(self, index: usize) -> (found: bool)
        ensures
            found == self.members().contains(index as int),
    {
        if index >= MAX_SERVICES {
            return false;
        }
        let bit = (index % 64) as u64;
        let w = self.0[index / 64];
        proof {
            lemma_bit_and_shift(w, bit);
        }
        w & (1u64 << bit) != 0
    }

    /// Members of either mask.
    pub fn union(self, other: Self) -> (result: Self)
        ensures
            result.members() == self.members().union(other.members()),
    {
        let result = ServiceMask([self.0[0] | other.0[0], self.0[1] | other.0[1], self.0[2] | other.0[2]]);
        proof {
            lemma_bit_or(self.0[0], other.0[0]);
            lemma_bit_or(self.0[1], other.0[1]);
            lemma_bit_or(self.0[2], other.0[2]);
        }
        assert(result.members() =~= self.members().union(other.members())) by {
            assert forall|i: int| result.has(i) == (self.has(i) || other.has(i)) by {
                if 0 <= i < 192 {
                    let b = (i % 64) as u64;
                    assert(b < 64);
                    assert(bit_of(result.0[i / 64], b) == (bit_of(self.0[i / 64], b) || bit_of(other.0[i / 64], b)));
                }
            }
        }
        result
    }

    /// Members of `self` that are not members of `other`.
    pub fn difference(self, other: Self) -> (result: Self)
        ensures
            result.members() == self.members().difference(other.members()),
    {
        let result = ServiceMask([self.0[0] & !other.0[0], self.0[1] & !other.0[1], self.0[2] & !other.0[2]]);
        proof {
            lemma_bit_andnot(self.0[0], other.0[0]);
            lemma_bit_andnot(self.0[1], other.0[1]);
            lemma_bit_andnot(self.0[2], other.0[2]);
        }
        assert(result.members() =~= self.members().difference(other.members())) by {
            assert forall|i: int| result.has(i) == (self.has(i) && !other.has(i)) by {
                if 0 <= i < 192 {
                    let b = (i % 64) as u64;
                    assert(b < 64);
                    assert(bit_of(result.0[i / 64], b) == (bit_of(self.0[i / 64], b) && !bit_of(other.0[i / 64], b)));
                }
            }
        }
        result
    }
}

impl Default for ServiceMask {
    fn default() -> (mask: Self)
        ensures
            mask.members() == Set::<int>::empty(),
    {
        ServiceMask::new()
    }
}

} // verus!
