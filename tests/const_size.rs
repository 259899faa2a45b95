use deterministic_bloom::common::Error;
use deterministic_bloom::const_size::BloomFilter;

#[test]
fn const_size_bloom_filter_can_insert_and_validate_item_existence() {
    let mut bloom = BloomFilter::<256, 30>::new();
    let items: Vec<String> = vec!["first".into(), "second".into(), "third".into()];
    items.iter().for_each(|item| {
        bloom.insert(item.as_bytes());
    });

    items.iter().for_each(|item| {
        assert!(bloom.contains(item.as_bytes()));
    });

    assert!(!bloom.contains(b"irst"));
    assert!(!bloom.contains(b"secnd"));
    assert!(!bloom.contains(b"tird"));
}

#[test]
fn const_size_serialized_bloom_filter_can_be_deserialized_correctly() {
    let mut bloom = BloomFilter::<256, 30>::new();
    let items: Vec<String> = vec!["first".into(), "second".into(), "third".into()];
    items.iter().for_each(|item| {
        bloom.insert(item.as_bytes());
    });

    let bytes = bloom.as_bytes().to_vec();
    let deserialized = BloomFilter::<256, 30>::try_from(bytes).unwrap();

    assert_eq!(deserialized, bloom);
}

#[test]
fn fixed_filter_starts_empty_and_sets_at_most_k_bits() {
    let mut bloom = BloomFilter::<256, 30>::new();
    assert_eq!(bloom.count_ones(), 0);
    assert_eq!(bloom.as_bytes(), &[0u8; 256][..]);
    bloom.insert(&[0xF5u8; 32]);
    let mut distinct = bloom.hash_indices(&[0xF5u8; 32]);
    distinct.sort();
    distinct.dedup();
    assert_eq!(bloom.count_ones(), distinct.len());
    assert!(bloom.count_ones() <= 30);
    assert!(bloom.contains(&[0xF5u8; 32]));
}

#[test]
fn fixed_filter_reports_its_constants() {
    let bloom = BloomFilter::<256, 30>::new();
    assert_eq!(bloom.hash_count(), 30);
    assert_eq!(bloom.as_bytes().len(), 256);
    assert_eq!(bloom.hash_indices(&[0xF5u8; 32]).len(), 30);
}

#[test]
fn fixed_filter_import_rejects_wrong_length() {
    let r = BloomFilter::<256, 30>::try_from(vec![0u8; 255]);
    assert_eq!(
        r,
        Err(Error::VectorImportSizeMismatch {
            expected: 256,
            actual: 255
        })
    );
    let r = BloomFilter::<256, 30>::try_from(vec![0u8; 300]);
    assert_eq!(
        r,
        Err(Error::VectorImportSizeMismatch {
            expected: 256,
            actual: 300
        })
    );
}

#[test]
fn fixed_filter_import_round_trips_bytes() {
    let bytes: Vec<u8> = (0..256u32).map(|i| (i * 7 % 251) as u8).collect();
    let bloom = BloomFilter::<256, 30>::try_from(bytes.clone()).unwrap();
    assert_eq!(bloom.as_bytes(), &bytes[..]);
}

#[test]
fn fixed_filter_index_reads_bits_lsb_first() {
    let mut bytes = vec![0u8; 4];
    bytes[1] = 0b0000_0101;
    let bloom = BloomFilter::<4, 2>::try_from(bytes).unwrap();
    assert!(bloom.index(8));
    assert!(!bloom.index(9));
    assert!(bloom.index(10));
    assert!(!bloom.index(0));
    assert_eq!(bloom.count_ones(), 2);
}

#[test]
fn fixed_filter_sets_the_bits_of_its_indices() {
    let mut bloom = BloomFilter::<64, 5>::new();
    bloom.insert(b"item");
    for i in bloom.hash_indices(b"item") {
        assert!(i < 512);
        assert!(bloom.index(i));
    }
}

#[test]
fn test_contains() {
    let mut bloom = BloomFilter::<256, 30>::new();

    let new_val: Vec<u8> = vec![17u8];
    bloom.insert(&new_val);

    for i in 1..25u8 {
        bloom.insert(&vec![i.wrapping_mul(37)]);
    }

    assert!(bloom.contains(&new_val))
}
