//! The hash-function capability that a filter is built from, and two
//! verified implementations of it.
//!
//! A filter needs `k` deterministic functions from byte sequences to unsigned
//! integers. The trait below states determinism by construction: every
//! implementation names the mathematical function it computes as a spec
//! function, and the executable method must return exactly that value.

use vstd::prelude::*;

verus! {

/// A deterministic hash function over byte sequences.
///
/// Implementations are supplied by the caller at construction time; the
/// filter only ever calls `hash` and reasons through `hash_spec`.
pub trait HashFunction: Sized {
    /// The mathematical function this hasher computes.
    spec fn hash_spec(&self, key: Seq<u8>) -> u128;

    /// Computes the hash of `key`; the result is exactly `hash_spec`.
    fn hash(&self, key: &[u8]) -> (r: u128)
        ensures
            r == self.hash_spec(key@),
    ;
}

/// The 64-bit offset basis of the FNV-1a hash.
pub const FNV_OFFSET_BASIS: u64 = 0xcbf29ce484222325;

/// The 64-bit prime of the FNV-1a hash.
pub const FNV_PRIME: u64 = 0x100000001b3;

/// One FNV-1a round: fold `byte` into the accumulator.
pub open spec fn fnv1a_step(acc: u64, byte: u8) -> u64 {
    (((acc ^ (byte as u64)) * FNV_PRIME) % 0x1_0000_0000_0000_0000) as u64
}

/// FNV-1a folded over `key`, starting from the accumulator `acc`.
pub open spec fn fnv1a_acc(acc: u64, key: Seq<u8>) -> u64
    decreases key.len(),
{
    if key.len() == 0 {
        acc
    } else {
        fnv1a_acc(fnv1a_step(acc, key[0]), key.subrange(1, key.len() as int))
    }
}

/// The FNV-1a hash of a byte sequence, seeded by xor-ing the seed into the
/// offset basis, which yields pairwise-distinct functions of one family.
#[derive(Clone, Copy, PartialEq, Eq, Structural, Debug)]
pub struct SeededFnv {
    pub seed: u64,
}

impl HashFunction for SeededFnv {
    open spec fn hash_spec(&self, key: Seq<u8>) -> u128 {
        fnv1a_acc(self.seed ^ FNV_OFFSET_BASIS, key) as u128
    }

    fn hash(&self, key: &[u8]) -> (r: u128)
        ensures
            r == self.hash_spec(key@),
    {
        let init: u64 = self.seed ^ FNV_OFFSET_BASIS;
        let mut acc: u64 = init;
        let mut i: usize = 0;
        proof {
            assert(key@.subrange(0, key@.len() as int) =~= key@);
        }
        while i < key.len()
            invariant
                i <= key@.len(),
                fnv1a_acc(acc, key@.subrange(i as int, key@.len() as int)) == fnv1a_acc(
                    init,
                    key@,
                ),
            decreases key@.len() - i,
        {
            let ghost rest = key@.subrange(i as int, key@.len() as int);
            let x: u64 = acc ^ (key[i] as u64);
            let wide: u128 = (x as u128) * (FNV_PRIME as u128);
            let next: u64 = (wide % 0x1_0000_0000_0000_0000u128) as u64;
            proof {
                assert(rest.len() > 0);
                assert(rest[0] == key@[i as int]);
                assert(rest.subrange(1, rest.len() as int) =~= key@.subrange(
                    i + 1,
                    key@.len() as int,
                ));
                assert(next == fnv1a_step(acc, key@[i as int]));
            }
            acc = next;
            i = i + 1;
        }
        proof {
            assert(key@.subrange(i as int, key@.len() as int) =~= Seq::<u8>::empty());
        }
        acc as u128
    }
}

/// The sum of the bytes of a sequence, as an unbounded integer.
pub open spec fn byte_sum(key: Seq<u8>) -> int
    decreases key.len(),
{
    if key.len() == 0 {
        0
    } else {
        byte_sum(key.drop_last()) + key.last()
    }
}

/// The byte sum never exceeds 255 per byte.
pub proof fn lemma_byte_sum_bound(key: Seq<u8>)
    ensures
        0 <= byte_sum(key) <= 255 * key.len(),
    decreases key.len(),
{
    if key.len() > 0 {
        lemma_byte_sum_bound(key.drop_last());
    }
}

/// A deliberately weak hash: the sum of the key's bytes. Collisions are easy
/// to exhibit (any permutation of a key collides with it), which makes it
/// useful for demonstrating false positives.
#[derive(Clone, Copy, PartialEq, Eq, Structural, Debug)]
pub struct ByteSumHash;

impl HashFunction for ByteSumHash {
    open spec fn hash_spec(&self, key: Seq<u8>) -> u128 {
        byte_sum(key) as u128
    }

    fn hash(&self, key: &[u8]) -> (r: u128)
        ensures
            r == self.hash_spec(key@),
    {
        let mut sum: u128 = 0;
        let mut i: usize = 0;
        while i < key.len()
            invariant
                i <= key@.len(),
                sum == byte_sum(key@.subrange(0, i as int)),
                sum <= 255 * i,
            decreases key@.len() - i,
        {
            proof {
                let pref = key@.subrange(0, i + 1);
                assert(pref.drop_last() =~= key@.subrange(0, i as int));
                assert(pref.last() == key@[i as int]);
            }
            sum = sum + (key[i] as u128);
            i = i + 1;
        }
        proof {
            assert(key@.subrange(0, i as int) =~= key@);
            lemma_byte_sum_bound(key@);
        }
        sum
    }
}

} // verus!
