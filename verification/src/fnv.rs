//! The FNV-1a 64-bit hash, as the interner's table hashes its keys.

use vstd::prelude::*;

verus! {

/// FNV-1a offset basis.
pub const FNV_OFFSET_BASIS: u64 = 0xcbf29ce484222325;

/// FNV-1a prime.
pub const FNV_PRIME: u64 = 0x100000001b3;

/// One FNV-1a round: fold a byte into the state.
pub open spec fn fnv1a_step(h: u64, b: u8) -> u64 {
    ((((h ^ (b as u64)) as nat) * (FNV_PRIME as nat)) % 0x1_0000_0000_0000_0000) as u64
}

/// FNV-1a folded over a byte sequence, starting from state `h`.
pub open spec fn fnv1a(h: u64, s: Seq<u8>) -> u64
    decreases s.len(),
{
    if s.len() == 0 {
        h
    } else {
        fnv1a(fnv1a_step(h, s[0]), s.drop_first())
    }
}

/// An incremental FNV-1a 64-bit hasher.
#[derive(Debug, Clone, Copy)]
pub struct FnvHasher(pub u64);

impl Default for FnvHasher {
    /// A hasher in the offset-basis state.
    fn default() -> (r: Self)
        ensures
            r.0 == FNV_OFFSET_BASIS,
    {
        FnvHasher(FNV_OFFSET_BASIS)
    }
}

impl FnvHasher {
    /// The current hash state.
    pub fn finish(&self) -> (r: u64)
        ensures
            r == self.0,
    {
        self.0
    }

    /// Fold the bytes into the state, one FNV-1a round each.
    pub fn write(&mut self, bytes: &[u8])
        ensures
            final(self).0 == fnv1a(old(self).0, bytes@),
    {
        let mut hash = self.0;
        let ghost h0 = self.0;
        let mut i: usize = 0;
        proof {
            assert(bytes@.subrange(0, bytes@.len() as int) =~= bytes@);
        }
        while i < bytes.len()
            invariant
                0 <= i <= bytes@.len(),
                fnv1a(h0, bytes@) == fnv1a(hash, bytes@.subrange(i as int, bytes@.len() as int)),
            decreases bytes@.len() - i,
        {
            let b = bytes[i];
            proof {
                let rest = bytes@.subrange(i as int, bytes@.len() as int);
                assert(rest[0] == b);
                assert(rest.drop_first() =~= bytes@.subrange(i as int + 1, bytes@.len() as int));
            }
            hash = (hash ^ (b as u64)).wrapping_mul(FNV_PRIME);
            i = i + 1;
        }
        proof {
            assert(bytes@.subrange(bytes@.len() as int, bytes@.len() as int) =~= Seq::<
                u8,
            >::empty());
        }
        self.0 = hash;
    }
}

} // verus!
