use deterministic_bloom::common::BloomParams;
use deterministic_bloom::runtime_size::BloomFilter;

#[test]
fn serialization_round_trip() {
    // The size that a capacity of 100 items at a false-positive rate of 0.001 calls for.
    let mut filter = BloomFilter::new_from_size(180, 100);
    filter.insert(b"Hello");
    filter.insert(b"World!");
    let serialized_bytes = filter.as_bytes();
    let serialized_k = filter.hash_count();
    let deserialized = BloomFilter::new_with(serialized_k, serialized_bytes.to_vec());
    assert!(deserialized.contains(b"Hello"));
    assert!(!deserialized.contains(b"abc"));
    assert_eq!(deserialized, filter);
}

#[test]
fn empty_bloom_filter() {
    let filter = BloomFilter::new_with(3, Vec::new());
    // Technically an empty bloom "contains" anything, since everything is a false positive.
    assert!(filter.contains(&[1, 2, 3]));
}

#[test]
fn new_with_keeps_its_parts() {
    let bytes: Vec<u8> = vec![1, 2, 3, 250];
    let filter = BloomFilter::new_with(7, bytes.clone());
    assert_eq!(filter.hash_count(), 7);
    assert_eq!(filter.as_bytes(), &bytes[..]);
    assert_eq!(
        filter.get_bloom_params(),
        BloomParams {
            byte_size: 4,
            k_hashes: 7
        }
    );
    assert_eq!(filter.count_ones(), 1 + 1 + 2 + 6);
}

#[test]
fn runtime_params_from_size() {
    let filter = BloomFilter::new_from_size(1000, 1000);
    assert_eq!(
        filter.get_bloom_params(),
        BloomParams {
            byte_size: 1000,
            k_hashes: 6
        }
    );
    // The sizes the optimizer derives for these capacities and rates.
    assert_eq!(BloomFilter::new_from_size(254, 47).hash_count(), 30);
    assert_eq!(BloomFilter::new_from_size(3594397, 1_000_000).hash_count(), 20);
    assert_eq!(BloomFilter::new_from_size(119814, 100_000).hash_count(), 7);
}

#[test]
fn runtime_params_power_of_two() {
    let params = BloomParams::new_from_size_po2(2397, 1000);
    assert_eq!(params.byte_size, 4096);
    assert_eq!(params.k_hashes, 23);
    // The size that a capacity of 10 million items at a false-positive rate of 0.01 calls for.
    let filter = BloomFilter::new_from_size_po2(11_981_323, 10_000_000);
    assert_eq!(filter.as_bytes().len(), 16_777_216);
    assert_eq!(filter.as_bytes().len().count_ones(), 1);
    assert_eq!(filter.hash_count(), 10);
    let exact = BloomParams::new_from_size_po2(4096, 1000);
    assert_eq!(exact.byte_size, 4096);
}

#[test]
fn false_positive_rate_example() {
    let mut filter = BloomFilter::new_from_size(1000, 1000);
    for i in 0u64..1000 {
        filter.insert(&i.to_le_bytes());
    }
    let k = filter.hash_count() as f64;
    let m = (filter.as_bytes().len() * 8) as f64;
    let n = 1000.0f64;
    let rate = (1.0 - (-k / (m / n)).exp()).powi(filter.hash_count() as i32);
    assert!((rate - 0.0215).abs() < 1e-4);
}

#[test]
fn false_positive_rate_is_calibrated() {
    // The size that a capacity of 1000 items at a false-positive rate of 0.0001 calls for.
    let mut filter = BloomFilter::new_from_size(2397, 1000);
    assert_eq!(filter.hash_count(), 14);
    for i in 0u64..1000 {
        filter.insert(&i.to_le_bytes());
    }
    let measurements = 100_000u64;
    let mut false_positives = 0u64;
    for i in 1000..1000 + measurements {
        if filter.contains(&i.to_le_bytes()) {
            false_positives += 1;
        }
    }
    let observed = false_positives as f64 / measurements as f64;
    assert!((observed - 0.0001).abs() < 1.5e-3);
}

#[test]
fn count_after_one_insert_is_at_most_k() {
    let mut filter = BloomFilter::new_from_size(128, 10);
    assert_eq!(filter.count_ones(), 0);
    filter.insert(b"only");
    let mut distinct = filter.hash_indices(b"only");
    distinct.sort();
    distinct.dedup();
    assert_eq!(filter.count_ones(), distinct.len());
    assert!(filter.count_ones() <= filter.hash_count());
}
