//! A bloom filter: a fixed-size bit array combined with a family of hash
//! functions, giving approximate set membership with a bounded false-positive
//! rate and no false negatives.

mod bits;
mod filter;
mod hash;

pub use filter::BloomFilter;
pub use filter::BloomFilterError;
pub use filter::BloomFilterOperation;
pub use hash::ByteSumHash;
pub use hash::HashFunction;
pub use hash::SeededFnv;
