use bloom_filter::BloomFilter;
use bloom_filter::BloomFilterOperation;
use bloom_filter::SeededFnv;
use rand::Rng;

fn ean_code() -> Vec<u8> {
    let num = rand::thread_rng()
        .gen_range(100_000_000_000u64..999_999_999_999u64)
        .to_string();
    let mut checknum: u8 = 0;
    let mut multiplier: u8 = 3;
    if num.len() % 2 == 1 {
        multiplier = 1
    }
    for n in num.chars() {
        checknum += (multiplier * n.to_digit(10).unwrap() as u8) % 10;
    }
    let res = format!("{}{}", num, checknum);
    res.into_bytes()
}

#[test]
fn init() {
    BloomFilter::new(10, vec![SeededFnv { seed: 0 }]).unwrap();
}

#[test]
fn add_key() {
    let mut bf = BloomFilter::new(10, vec![SeededFnv { seed: 0 }]).unwrap();
    let key = b"key";
    bf.insert(key);
}

#[test]
fn contains_key() {
    let mut bf = BloomFilter::new(10, vec![SeededFnv { seed: 0 }]).unwrap();
    let key = ean_code();
    let result = bf.contains_key(&key);
    assert_eq!(result, false);
    bf.insert(&key);
    let result = bf.contains_key(&key);
    assert_eq!(result, true);
}
