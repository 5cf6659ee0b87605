use frequency_sketch::hashing::{default_hash_code, rehash, spread};

#[test]
fn spread_of_known_hash_codes() {
    if usize::BITS == 64 {
        assert_eq!(spread(0), 0);
        assert_eq!(spread(1) as u64, 11507729574847164641);
        assert_eq!(spread(2) as u64, 4568715061752766859);
        assert_eq!(spread(32) as u64, 17759208737583162642);
        assert_eq!(spread(0xdead_beef) as u64, 14293677095663471377);
        assert_eq!(spread(u64::MAX) as u64, 3045508232297578496);
    }
}

#[test]
fn rehash_of_known_block_hashes() {
    if usize::BITS == 64 {
        assert_eq!(rehash(0), 0);
        assert_eq!(rehash(11507729574847164641) as u64, 1045623868919516710);
        assert_eq!(rehash(4568715061752766859) as u64, 12709568762527275066);
        assert_eq!(rehash(3045508232297578496) as u64, 17217013481020924800);
    }
}

#[test]
fn default_hash_code_is_repeatable() {
    assert_eq!(default_hash_code(32), default_hash_code(32));
    assert_eq!(default_hash_code("an item"), default_hash_code("an item"));
    assert_eq!(default_hash_code((7u8, 9u64)), default_hash_code((7u8, 9u64)));
}

#[test]
fn default_hash_code_tells_items_apart() {
    assert_ne!(default_hash_code(32), default_hash_code(33));
    assert_ne!(default_hash_code(32), 32);
    assert_ne!(default_hash_code(0u64), 0);
    assert_ne!(default_hash_code("a"), default_hash_code("b"));
}
