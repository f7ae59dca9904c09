use bloom_filter::BloomFilter;
use bloom_filter::BloomFilterError;
use bloom_filter::BloomFilterOperation;
use bloom_filter::ByteSumHash;
use bloom_filter::HashFunction;
use bloom_filter::SeededFnv;

fn three_hashes() -> Vec<SeededFnv> {
    vec![SeededFnv { seed: 1 }, SeededFnv { seed: 2 }, SeededFnv { seed: 3 }]
}

const PROBES: [&[u8]; 6] = [b"", b"key", b"yek", b"alpha", b"beta", b"gamma"];

#[test]
fn no_false_negatives() {
    let mut bf = BloomFilter::new(32, three_hashes()).unwrap();
    bf.insert(b"alpha");
    assert!(bf.contains_key(b"alpha"));
    bf.insert(b"beta");
    bf.insert(b"gamma");
    bf.insert(b"");
    assert!(bf.contains_key(b"alpha"));
    assert!(bf.contains_key(b"beta"));
    assert!(bf.contains_key(b"gamma"));
    assert!(bf.contains_key(b""));
}

#[test]
fn repeated_insert_is_idempotent() {
    let mut bf = BloomFilter::new(32, three_hashes()).unwrap();
    bf.insert(b"key");
    let before: Vec<bool> = PROBES.iter().map(|p| bf.contains_key(p)).collect();
    bf.insert(b"key");
    bf.insert(b"key");
    let after: Vec<bool> = PROBES.iter().map(|p| bf.contains_key(p)).collect();
    assert_eq!(before, after);
}

#[test]
fn fresh_filter_contains_nothing() {
    let bf = BloomFilter::new(1, vec![SeededFnv { seed: 0 }]).unwrap();
    for p in PROBES.iter() {
        assert!(!bf.contains_key(p));
    }
    let bf = BloomFilter::new(64, three_hashes()).unwrap();
    for p in PROBES.iter() {
        assert!(!bf.contains_key(p));
    }
}

#[test]
fn insertion_order_does_not_matter() {
    let mut ab = BloomFilter::new(32, three_hashes()).unwrap();
    ab.insert(b"a");
    ab.insert(b"b");
    let mut ba = BloomFilter::new(32, three_hashes()).unwrap();
    ba.insert(b"b");
    ba.insert(b"a");
    for p in PROBES.iter() {
        assert_eq!(ab.contains_key(p), ba.contains_key(p));
    }
    assert_eq!(ab.contains_key(b"a"), ba.contains_key(b"a"));
    assert_eq!(ab.contains_key(b"b"), ba.contains_key(b"b"));
}

#[test]
fn concrete_scenario_with_demonstrated_false_positive() {
    // The byte-sum hash maps "key" to 107 + 101 + 121 = 329, so with ten
    // bits the derived position is 9; "yek" permutes the same bytes and
    // collides on purpose.
    let mut bf = BloomFilter::new(10, vec![ByteSumHash]).unwrap();
    assert!(!bf.contains_key(b"key"));
    bf.insert(b"key");
    assert!(bf.contains_key(b"key"));
    assert!(bf.contains_key(b"yek"));
}

#[test]
fn degenerate_inputs_are_rejected() {
    let zero_bits = BloomFilter::new(0, vec![SeededFnv { seed: 0 }]);
    assert!(matches!(zero_bits, Err(BloomFilterError::InvalidConfiguration)));
    let no_hashes = BloomFilter::<SeededFnv>::new(10, vec![]);
    assert!(matches!(no_hashes, Err(BloomFilterError::InvalidConfiguration)));
}

#[test]
fn fnv_matches_published_vectors() {
    let h = SeededFnv { seed: 0 };
    assert_eq!(h.hash(b""), 0xcbf29ce484222325u128);
    assert_eq!(h.hash(b"a"), 0xaf63dc4c8601ec8cu128);
    assert_eq!(h.hash(b"foobar"), 0x85944171f73967e8u128);
}

#[test]
fn seeds_give_distinct_functions() {
    let a = SeededFnv { seed: 0 };
    let b = SeededFnv { seed: 1 };
    assert_ne!(a.hash(b"a"), b.hash(b"a"));
}

#[test]
fn byte_sum_hash_is_the_byte_sum() {
    assert_eq!(ByteSumHash.hash(b""), 0);
    assert_eq!(ByteSumHash.hash(b"key"), 329);
    assert_eq!(ByteSumHash.hash(&[255u8, 255u8, 2u8]), 512);
}

#[test]
fn empty_key_is_a_valid_key() {
    let mut bf = BloomFilter::new(16, three_hashes()).unwrap();
    assert!(!bf.contains_key(b""));
    bf.insert(b"");
    assert!(bf.contains_key(b""));
}
