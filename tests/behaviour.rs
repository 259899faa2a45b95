use deterministic_bloom::common::HashIndexIterator;
use deterministic_bloom::runtime_size::BloomFilter;

#[test]
fn inserted_items_are_always_found() {
    let mut filter = BloomFilter::new_from_size(300, 500);
    for i in 0u64..500 {
        filter.insert(&(i * 7919).to_le_bytes());
        // earlier items stay found after later inserts
        for j in (0..=i).step_by(50) {
            assert!(filter.contains(&(j * 7919).to_le_bytes()));
        }
    }
    for i in 0u64..500 {
        assert!(filter.contains(&(i * 7919).to_le_bytes()));
    }
}

#[test]
fn same_items_in_any_order_give_identical_bytes() {
    let items: Vec<Vec<u8>> = (0u32..200).map(|i| i.to_be_bytes().to_vec()).collect();
    let mut a = BloomFilter::new_from_size(97, 200);
    let mut b = BloomFilter::new_from_size(97, 200);
    for item in items.iter() {
        a.insert(item);
    }
    for item in items.iter().rev() {
        b.insert(item);
        b.insert(item);
    }
    assert_eq!(a.as_bytes(), b.as_bytes());
    assert_eq!(a, b);
}

#[test]
fn rejection_sampling_stays_below_non_power_of_two_sizes() {
    for bit_size in [1usize, 3, 200, 1000, 8 * 2397] {
        for item in 0u32..2000 {
            let bytes = item.to_le_bytes();
            let mut iter = HashIndexIterator::new(&bytes, bit_size);
            for _ in 0..5 {
                let i = iter.next().unwrap();
                assert!(i < bit_size);
            }
        }
    }
}

#[test]
fn index_generator_is_restartable() {
    let first = HashIndexIterator::new(b"hello", 200).take(40);
    let second = HashIndexIterator::new(b"hello", 200).take(40);
    assert_eq!(first.len(), 40);
    assert_eq!(first, second);
    let mut iter = HashIndexIterator::new(b"hello", 200);
    let prefix: Vec<usize> = (0..10).map(|_| iter.next().unwrap()).collect();
    assert_eq!(&first[..10], &prefix[..]);
}

#[test]
fn index_generator_depends_on_the_item() {
    let a = HashIndexIterator::new(b"hello", 1 << 20).take(8);
    let b = HashIndexIterator::new(b"hellp", 1 << 20).take(8);
    assert_ne!(a, b);
    // distinct rounds give distinct-looking indices
    let mut sorted = a.clone();
    sorted.dedup();
    assert!(sorted.len() > 1);
}

#[test]
fn index_generator_for_empty_filter_yields_nothing() {
    let mut iter = HashIndexIterator::new(b"anything", 0);
    assert_eq!(iter.next(), None);
    assert!(HashIndexIterator::new(b"anything", 0).take(30).is_empty());
}

#[test]
fn power_of_two_sizes_need_no_rejection() {
    let mut iter = HashIndexIterator::new(b"po2", 256);
    for _ in 0..1000 {
        assert!(iter.next().unwrap() < 256);
    }
}
