//! The bloom filter itself: construction, insertion, membership query, and
//! the laws that hold of them.

use bit_vec::BitVec;
use vstd::prelude::*;

use crate::bits::bit_vec_bits;
use crate::bits::bits_get;
use crate::bits::bits_len;
use crate::bits::bits_new;
use crate::bits::bits_set;
use crate::hash::HashFunction;

verus! {

/// Why a configuration was rejected.
#[derive(Clone, Copy, PartialEq, Eq, Structural, Debug)]
pub enum BloomFilterError {
    /// The bit array would be empty, or no hash function was supplied, or a
    /// capacity-planning input lies outside its mathematical domain.
    InvalidConfiguration,
}

/// Operations of a bloom filter: monotone insertion, and a membership query
/// that may report false positives but never false negatives.
pub trait BloomFilterOperation: Sized {
    /// The structure is well formed.
    spec fn valid(&self) -> bool;

    /// The key would be reported present.
    spec fn member(&self, key: Seq<u8>) -> bool;

    /// Inserts `key`: afterwards the key is a member, and every earlier
    /// member still is (bits are only ever set, never cleared).
    fn insert(&mut self, key: &[u8])
        requires
            old(self).valid(),
        ensures
            final(self).valid(),
            final(self).member(key@),
            forall|q: Seq<u8>| old(self).member(q) ==> final(self).member(q),
    ;

    /// Reports whether `key` may have been inserted.
    fn contains_key(&self, key: &[u8]) -> (r: bool)
        requires
            self.valid(),
        ensures
            r == self.member(key@),
    ;
}

/// A bloom filter: a fixed-length packed bit array and an ordered, non-empty
/// family of hash functions, both fixed at construction.
pub struct BloomFilter<H: HashFunction> {
    bitfield: BitVec,
    hash_functions: Vec<H>,
}

impl<H: HashFunction> BloomFilter<H> {
    /// The boolean flags of the underlying bit array.
    pub closed spec fn bits(&self) -> Seq<bool> {
        bit_vec_bits(self.bitfield)
    }

    /// The hash functions, in the order they are applied.
    pub closed spec fn hashers(&self) -> Seq<H> {
        self.hash_functions@
    }

    /// Well-formed: at least one bit and at least one hash function.
    pub open spec fn wf(&self) -> bool {
        self.bits().len() > 0 && self.hashers().len() > 0
    }

    /// The bit position that hash function `j` derives for `key`.
    pub open spec fn position(&self, j: int, key: Seq<u8>) -> int {
        self.hashers()[j].hash_spec(key) as int % (self.bits().len() as int)
    }

    /// Some hash function of this filter maps `key` to bit `i`.
    pub open spec fn hits(&self, key: Seq<u8>, i: int) -> bool {
        exists|j: int| 0 <= j < self.hashers().len() && #[trigger] self.position(j, key) == i
    }

    /// One of the first `n` hash functions maps `key` to bit `i`.
    pub open spec fn hits_among(&self, key: Seq<u8>, n: int, i: int) -> bool {
        exists|j: int| 0 <= j < n && #[trigger] self.position(j, key) == i
    }

    /// Extending the prefix of hash functions by one adds exactly the
    /// position that the next function derives.
    pub proof fn lemma_hits_among_step(f: Self, key: Seq<u8>, n: int, i: int)
        requires
            0 <= n,
        ensures
            f.hits_among(key, n + 1, i) == (f.hits_among(key, n, i) || f.position(n, key) == i),
    {
        if f.hits_among(key, n + 1, i) {
            let j = choose|j: int| 0 <= j < n + 1 && #[trigger] f.position(j, key) == i;
            if j < n {
                assert(f.hits_among(key, n, i));
            }
        }
        if f.hits_among(key, n, i) {
            let j = choose|j: int| 0 <= j < n && #[trigger] f.position(j, key) == i;
            assert(0 <= j < n + 1 && f.position(j, key) == i);
        }
        if f.position(n, key) == i {
            assert(0 <= n < n + 1 && f.position(n, key) == i);
        }
    }

    /// Over the whole family, `hits_among` is exactly `hits`.
    pub proof fn lemma_hits_among_all(f: Self, key: Seq<u8>, i: int)
        ensures
            f.hits_among(key, f.hashers().len() as int, i) == f.hits(key, i),
    {
        if f.hits_among(key, f.hashers().len() as int, i) {
            let j = choose|j: int|
                0 <= j < f.hashers().len() as int && #[trigger] f.position(j, key) == i;
            assert(0 <= j < f.hashers().len() && f.position(j, key) == i);
        }
        if f.hits(key, i) {
            let j = choose|j: int|
                0 <= j < f.hashers().len() && #[trigger] f.position(j, key) == i;
            assert(0 <= j < f.hashers().len() as int && f.position(j, key) == i);
        }
    }

    /// Every hash-derived position of `key` is set.
    pub open spec fn key_present(&self, key: Seq<u8>) -> bool {
        forall|j: int|
            0 <= j < self.hashers().len() ==> self.bits()[#[trigger] self.position(j, key)]
    }

    /// How one insertion changes a filter: the hash functions and the bit
    /// count stay, and a bit is set exactly when it was set before or some
    /// hash function maps the inserted key to it.
    pub open spec fn insert_relates(pre: Self, post: Self, key: Seq<u8>) -> bool {
        &&& post.hashers() == pre.hashers()
        &&& post.bits().len() == pre.bits().len()
        &&& forall|i: int|
            0 <= i < pre.bits().len() ==> post.bits()[i] == (pre.bits()[i] || pre.hits(key, i))
    }

    /// A hash-derived position always lies inside the bit array.
    pub proof fn lemma_position_in_range(self, j: int, key: Seq<u8>)
        requires
            self.wf(),
        ensures
            0 <= self.position(j, key) < self.bits().len(),
    {
    }

    /// Two filters with the same bit count and hash functions derive the
    /// same positions, so one's hash functions hit a bit exactly when the
    /// other's do.
    pub proof fn lemma_same_shape_same_hits(a: Self, b: Self, key: Seq<u8>, i: int)
        requires
            a.hashers() == b.hashers(),
            a.bits().len() == b.bits().len(),
        ensures
            a.hits(key, i) == b.hits(key, i),
    {
        if a.hits(key, i) {
            let j = choose|j: int| 0 <= j < a.hashers().len() && #[trigger] a.position(j, key)
                == i;
            assert(b.position(j, key) == i);
        }
        if b.hits(key, i) {
            let j = choose|j: int| 0 <= j < b.hashers().len() && #[trigger] b.position(j, key)
                == i;
            assert(a.position(j, key) == i);
        }
    }

    /// Two filters with the same bits and hash functions answer every
    /// membership question alike.
    pub proof fn lemma_same_shape_same_members(a: Self, b: Self, key: Seq<u8>)
        requires
            a.bits() == b.bits(),
            a.hashers() == b.hashers(),
        ensures
            a.key_present(key) == b.key_present(key),
    {
        if a.key_present(key) {
            assert forall|j: int|
                0 <= j < b.hashers().len() implies b.bits()[#[trigger] b.position(j, key)] by {
                assert(a.bits()[a.position(j, key)]);
            }
        }
        if b.key_present(key) {
            assert forall|j: int|
                0 <= j < a.hashers().len() implies a.bits()[#[trigger] a.position(j, key)] by {
                assert(b.bits()[b.position(j, key)]);
            }
        }
    }

    /// Law: an insertion makes the inserted key a member.
    pub proof fn lemma_insert_makes_member(pre: Self, post: Self, key: Seq<u8>)
        requires
            pre.wf(),
            Self::insert_relates(pre, post, key),
        ensures
            post.wf(),
            post.key_present(key),
    {
        assert forall|j: int|
            0 <= j < post.hashers().len() implies post.bits()[#[trigger] post.position(
            j,
            key,
        )] by {
            pre.lemma_position_in_range(j, key);
            assert(post.position(j, key) == pre.position(j, key));
            assert(pre.hits(key, pre.position(j, key)));
        }
    }

    /// Law (no false negatives): an insertion keeps every present key
    /// present, whatever key was inserted; bits only ever go from false to
    /// true.
    pub proof fn lemma_insert_keeps_members(pre: Self, post: Self, key: Seq<u8>, q: Seq<u8>)
        requires
            pre.wf(),
            Self::insert_relates(pre, post, key),
            pre.key_present(q),
        ensures
            post.key_present(q),
    {
        assert forall|j: int|
            0 <= j < post.hashers().len() implies post.bits()[#[trigger] post.position(j, q)] by {
            pre.lemma_position_in_range(j, q);
            assert(post.position(j, q) == pre.position(j, q));
            assert(pre.bits()[pre.position(j, q)]);
        }
    }

    /// Law (idempotence): inserting a key whose positions are all set —
    /// in particular, a key inserted before — leaves the bit array, and so
    /// every membership answer, unchanged.
    pub proof fn lemma_insert_idempotent(pre: Self, post: Self, key: Seq<u8>)
        requires
            pre.wf(),
            pre.key_present(key),
            Self::insert_relates(pre, post, key),
        ensures
            post.bits() == pre.bits(),
            forall|q: Seq<u8>| post.key_present(q) == pre.key_present(q),
    {
        assert forall|i: int|
            0 <= i < pre.bits().len() implies post.bits()[i] == pre.bits()[i] by {
            if pre.hits(key, i) {
                let j = choose|j: int|
                    0 <= j < pre.hashers().len() && #[trigger] pre.position(j, key) == i;
                assert(pre.bits()[pre.position(j, key)]);
            }
        }
        assert(post.bits() =~= pre.bits());
        assert forall|q: Seq<u8>| post.key_present(q) == pre.key_present(q) by {
            Self::lemma_same_shape_same_members(post, pre, q);
        }
    }

    /// Law (empty-filter soundness): a filter whose bits are all false
    /// contains no key at all.
    pub proof fn lemma_all_clear_contains_nothing(f: Self, key: Seq<u8>)
        requires
            f.wf(),
            forall|i: int| 0 <= i < f.bits().len() ==> !f.bits()[i],
        ensures
            !f.key_present(key),
    {
        f.lemma_position_in_range(0, key);
        assert(!f.bits()[f.position(0, key)]);
    }

    /// Law (order independence): inserting two keys yields the same bits,
    /// and so the same membership answers, in either order.
    pub proof fn lemma_insert_order_independent(
        s0: Self,
        sa: Self,
        sab: Self,
        sb: Self,
        sba: Self,
        a: Seq<u8>,
        b: Seq<u8>,
    )
        requires
            s0.wf(),
            Self::insert_relates(s0, sa, a),
            Self::insert_relates(sa, sab, b),
            Self::insert_relates(s0, sb, b),
            Self::insert_relates(sb, sba, a),
        ensures
            sab.bits() == sba.bits(),
            forall|q: Seq<u8>| sab.key_present(q) == sba.key_present(q),
    {
        assert forall|i: int|
            0 <= i < s0.bits().len() implies sab.bits()[i] == sba.bits()[i] by {
            Self::lemma_same_shape_same_hits(sa, s0, b, i);
            Self::lemma_same_shape_same_hits(sb, s0, a, i);
            assert(sab.bits()[i] == (s0.bits()[i] || s0.hits(a, i) || s0.hits(b, i)));
            assert(sba.bits()[i] == (s0.bits()[i] || s0.hits(b, i) || s0.hits(a, i)));
        }
        assert(sab.bits() =~= sba.bits());
        assert forall|q: Seq<u8>| sab.key_present(q) == sba.key_present(q) by {
            Self::lemma_same_shape_same_members(sab, sba, q);
        }
    }

    /// Builds a filter of exactly `bit_array_size` bits, all false, keeping
    /// the hash functions in their given order; rejects a zero-size bit
    /// array or an empty hash family, and only those.
    pub fn new(bit_array_size: usize, hash_functions: Vec<H>) -> (r: Result<
        Self,
        BloomFilterError,
    >)
        ensures
            match r {
                Ok(f) => {
                    &&& bit_array_size > 0
                    &&& hash_functions@.len() > 0
                    &&& f.wf()
                    &&& f.bits().len() == bit_array_size
                    &&& f.hashers() == hash_functions@
                    &&& forall|i: int| 0 <= i < f.bits().len() ==> !f.bits()[i]
                },
                Err(e) => {
                    &&& (bit_array_size == 0 || hash_functions@.len() == 0)
                    &&& e == BloomFilterError::InvalidConfiguration
                },
            },
    {
        if bit_array_size == 0 || hash_functions.len() == 0 {
            return Err(BloomFilterError::InvalidConfiguration);
        }
        let bitfield = bits_new(bit_array_size, false);
        Ok(BloomFilter { bitfield, hash_functions })
    }
}

impl<H: HashFunction> BloomFilterOperation for BloomFilter<H> {
    /// Well-formed exactly when the bit array and the hash family are
    /// non-empty, which construction guarantees.
    open spec fn valid(&self) -> bool {
        self.wf()
    }

    /// A key is a member exactly when all its hash-derived positions are
    /// set.
    open spec fn member(&self, key: Seq<u8>) -> bool {
        self.key_present(key)
    }

    /// Sets the bit at `hash(key) mod m` for each hash function, leaving
    /// every other bit as it was.
    fn insert(&mut self, key: &[u8])
        ensures
            Self::insert_relates(*old(self), *final(self), key@),
    {
        let ghost pre = *self;
        let m = bits_len(&self.bitfield);
        let k = self.hash_functions.len();
        let mut j: usize = 0;
        while j < k
            invariant
                j <= k,
                pre.wf(),
                m == self.bits().len(),
                k == self.hashers().len(),
                self.hash_functions == pre.hash_functions,
                self.bits().len() == pre.bits().len(),
                forall|i: int|
                    0 <= i < pre.bits().len() ==> #[trigger] self.bits()[i] == (pre.bits()[i]
                        || pre.hits_among(key@, j as int, i)),
            decreases k - j,
        {
            let h = self.hash_functions[j].hash(key);
            let pos_wide = h % (m as u128);
            let pos = pos_wide as usize;
            proof {
                pre.lemma_position_in_range(j as int, key@);
                assert(pos as int == pre.position(j as int, key@));
            }
            let ghost bits_before = self.bits();
            bits_set(&mut self.bitfield, pos, true);
            proof {
                assert forall|i: int|
                    0 <= i < pre.bits().len() implies #[trigger] self.bits()[i] == (pre.bits()[i]
                    || pre.hits_among(key@, j + 1, i)) by {
                    Self::lemma_hits_among_step(pre, key@, j as int, i);
                    assert(bits_before[i] == (pre.bits()[i] || pre.hits_among(key@, j as int, i)));
                    if i == pos as int {
                        assert(self.bits()[i]);
                    } else {
                        assert(self.bits()[i] == bits_before[i]);
                    }
                }
            }
            j = j + 1;
        }
        proof {
            assert forall|i: int|
                0 <= i < pre.bits().len() implies #[trigger] self.bits()[i] == (pre.bits()[i]
                || pre.hits(key@, i)) by {
                Self::lemma_hits_among_all(pre, key@, i);
                assert(self.bits()[i] == (pre.bits()[i] || pre.hits_among(key@, k as int, i)));
            }
            Self::lemma_insert_makes_member(pre, *self, key@);
            assert forall|q: Seq<u8>| pre.key_present(q) implies self.key_present(q) by {
                Self::lemma_insert_keeps_members(pre, *self, key@, q);
            }
        }
    }

    /// Checks the bit at `hash(key) mod m` for each hash function in order,
    /// answering false as soon as one is clear, true when all are set.
    fn contains_key(&self, key: &[u8]) -> (r: bool)
        ensures
            r == self.key_present(key@),
    {
        let m = bits_len(&self.bitfield);
        let k = self.hash_functions.len();
        let mut j: usize = 0;
        while j < k
            invariant
                j <= k,
                self.wf(),
                m == self.bits().len(),
                k == self.hashers().len(),
                forall|jj: int| 0 <= jj < j ==> self.bits()[#[trigger] self.position(jj, key@)],
            decreases k - j,
        {
            let h = self.hash_functions[j].hash(key);
            let pos_wide = h % (m as u128);
            let pos = pos_wide as usize;
            proof {
                self.lemma_position_in_range(j as int, key@);
                assert(pos as int == self.position(j as int, key@));
            }
            if !bits_get(&self.bitfield, pos) {
                return false;
            }
            j = j + 1;
        }
        true
    }
}

} // verus!
