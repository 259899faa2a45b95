use deterministic_bloom::{BloomFilter, BloomParameters, DynBloomFilter, HashIndexIterator};

#[test]
fn lib_bloom_filter_can_insert_and_validate_item_existence() {
    let mut bloom = BloomFilter::<256, 30>::new();
    let items: Vec<String> = vec!["first".into(), "second".into(), "third".into()];
    items.iter().for_each(|item| {
        bloom.insert(item.as_bytes());
    });

    items.iter().for_each(|item| {
        assert!(bloom.contains(item.as_bytes()));
    });

    assert!(!bloom.contains(b"irst"));
    assert!(!bloom.contains(b"secnd"));
    assert!(!bloom.contains(b"tird"));
}

#[test]
fn lib_serialized_bloom_filter_can_be_deserialized_correctly() {
    let mut bloom = BloomFilter::<256, 30>::new();
    let items: Vec<String> = vec!["first".into(), "second".into(), "third".into()];
    items.iter().for_each(|item| {
        bloom.insert(item.as_bytes());
    });

    let bytes = bloom.as_bytes().to_vec();
    let deserialized = BloomFilter::<256, 30>::try_from(bytes).unwrap();

    assert_eq!(deserialized, bloom);
}

#[test]
fn bloom_parameters_from_size() {
    assert_eq!(BloomParameters::new_from_size(1000, 1000).k_hashes(), 6);
    assert_eq!(BloomParameters::new_from_size(254, 47).k_hashes(), 30);
    assert_eq!(BloomParameters::new_from_size(1, 1000).k_hashes(), 1);
    let (size, params) = BloomParameters::new_from_size_po2(2397, 1000);
    assert_eq!(size, 4096);
    assert_eq!(params.k_hashes(), 23);
}

#[test]
fn dyn_filter_no_false_negatives() {
    let mut filter = DynBloomFilter::new_from_size(1000, 1000);
    assert_eq!(filter.hash_count(), 6);
    assert_eq!(filter.count_ones(), 0);
    for i in 0u64..1000 {
        filter.insert(&i.to_le_bytes());
    }
    for i in 0u64..1000 {
        assert!(filter.contains(&i.to_le_bytes()));
    }
    assert!(filter.count_ones() <= 6000);
    assert_eq!(filter.as_bytes().len(), 1000);
}

#[test]
fn dyn_filter_power_of_two_size() {
    let filter = DynBloomFilter::new_from_size_po2(1000, 100);
    assert_eq!(filter.as_bytes().len(), 1024);
    assert_eq!(filter.hash_count(), 57);
    assert_eq!(filter.hash_indices(b"x").len(), 57);
}

#[test]
fn root_iterator_yields_in_range() {
    let mut iter = HashIndexIterator::new(b"hello", 200);
    for _ in 0..1000 {
        let i = iter.next().unwrap();
        assert!(i < 200);
    }
}
