use cache_sim::address::decode;
use cache_sim::cache::{Cache, ConfigError, Stats, MAX_SET_BITS};
use cache_sim::set::{Block, CacheSet, Outcome};
use cache_sim::trace::{AccessKind, Record};

fn counters(cache: &Cache) -> (u32, u32, u32) {
    (cache.hits(), cache.misses(), cache.evictions())
}

fn load(address: u64) -> Record {
    Record { kind: AccessKind::Load, address }
}

#[test]
fn new_cache_has_zero_counters() {
    let cache = Cache::new(4, 2, 3).unwrap();
    assert_eq!(counters(&cache), (0, 0, 0));
    assert_eq!(cache.stats(), Stats { hits: 0, misses: 0, evictions: 0 });
}

#[test]
fn direct_mapped_conflict_scenario() {
    let mut cache = Cache::new(1, 1, 0).unwrap();
    cache.access(0x0, false);
    assert_eq!(counters(&cache), (0, 1, 0));
    cache.access(0x1, false);
    assert_eq!(counters(&cache), (0, 2, 0));
    cache.access(0x2, false);
    assert_eq!(counters(&cache), (0, 3, 1));
    cache.access(0x0, false);
    assert_eq!(counters(&cache), (0, 4, 2));
}

#[test]
fn direct_mapped_conflict_scenario_as_records() {
    let mut cache = Cache::new(1, 1, 0).unwrap();
    let trace = vec![load(0x0), load(0x1), load(0x2), load(0x0)];
    cache.replay(&trace);
    assert_eq!(cache.stats(), Stats { hits: 0, misses: 4, evictions: 2 });
}

#[test]
fn single_modify_scenario() {
    let mut cache = Cache::new(1, 1, 0).unwrap();
    cache.apply(Record { kind: AccessKind::Modify, address: 0x0 });
    assert_eq!(cache.stats(), Stats { hits: 1, misses: 1, evictions: 0 });
}

#[test]
fn same_access_twice_is_miss_then_hit() {
    let mut cache = Cache::new(2, 2, 4).unwrap();
    cache.access(0x1234, false);
    assert_eq!(counters(&cache), (0, 1, 0));
    cache.access(0x1234, false);
    assert_eq!(counters(&cache), (1, 1, 0));
}

#[test]
fn same_block_other_offset_hits() {
    let mut cache = Cache::new(2, 1, 4).unwrap();
    cache.access(0x1230, false);
    cache.access(0x123f, false);
    assert_eq!(counters(&cache), (1, 1, 0));
    cache.access(0x1240, false);
    assert_eq!(counters(&cache), (1, 2, 0));
}

#[test]
fn filling_a_set_then_one_more_evicts_the_first() {
    let e: u32 = 4;
    // s = 2, b = 3: addresses 0x00, 0x20, 0x40, ... all map to set 0 with tags 0, 1, 2, ...
    let mut cache = Cache::new(2, e, 3).unwrap();
    for i in 0..e as u64 {
        cache.access(i * 0x20, false);
        assert_eq!(counters(&cache), (0, i as u32 + 1, 0));
    }
    cache.access(e as u64 * 0x20, false);
    assert_eq!(counters(&cache), (0, e + 1, 1));
    // The blocks that came second to last are still there.
    for i in 1..=e as u64 {
        cache.access(i * 0x20, false);
    }
    assert_eq!(counters(&cache), (e, e + 1, 1));
    // The block that came first is gone.
    cache.access(0x00, false);
    assert_eq!(counters(&cache), (e, e + 2, 2));
}

#[test]
fn modify_of_absent_block_is_miss_and_hit() {
    let mut cache = Cache::new(3, 2, 2).unwrap();
    cache.apply(Record { kind: AccessKind::Modify, address: 0xbeef });
    assert_eq!(counters(&cache), (1, 1, 0));
}

#[test]
fn modify_of_resident_block_is_two_hits() {
    let mut cache = Cache::new(3, 2, 2).unwrap();
    cache.apply(load(0xbeef));
    assert_eq!(counters(&cache), (0, 1, 0));
    cache.apply(Record { kind: AccessKind::Modify, address: 0xbeef });
    assert_eq!(counters(&cache), (2, 1, 0));
}

#[test]
fn modify_into_full_set_evicts_once() {
    let mut cache = Cache::new(0, 1, 0).unwrap();
    cache.apply(load(1));
    cache.apply(Record { kind: AccessKind::Modify, address: 2 });
    assert_eq!(counters(&cache), (1, 2, 1));
}

#[test]
fn modify_flag_changes_nothing() {
    let mut plain = Cache::new(1, 2, 1).unwrap();
    let mut flagged = Cache::new(1, 2, 1).unwrap();
    for address in [0u64, 4, 8, 0, 12, 4, 4, 16] {
        plain.access(address, false);
        flagged.access(address, true);
        assert_eq!(counters(&plain), counters(&flagged));
    }
}

#[test]
fn instruction_records_change_nothing() {
    let mut cache = Cache::new(2, 1, 2).unwrap();
    cache.apply(load(0x10));
    let before = counters(&cache);
    for address in [0u64, 0x10, 0x20, u64::MAX] {
        cache.apply(Record { kind: AccessKind::Instruction, address });
        assert_eq!(counters(&cache), before);
    }
    // The instruction fetch of 0x20 installed nothing.
    cache.apply(load(0x10));
    assert_eq!(counters(&cache), (before.0 + 1, before.1, before.2));
}

#[test]
fn load_and_store_count_alike() {
    let mut cache = Cache::new(2, 1, 2).unwrap();
    cache.apply(Record { kind: AccessKind::Store, address: 0x40 });
    assert_eq!(counters(&cache), (0, 1, 0));
    cache.apply(load(0x40));
    assert_eq!(counters(&cache), (1, 1, 0));
    cache.apply(Record { kind: AccessKind::Store, address: 0x40 });
    assert_eq!(counters(&cache), (2, 1, 0));
}

#[test]
fn evictions_never_exceed_misses() {
    let mut cache = Cache::new(1, 2, 1).unwrap();
    let mut address: u64 = 7;
    for _ in 0..500 {
        address = address.wrapping_mul(6364136223846793005).wrapping_add(1442695040888963407);
        cache.access(address >> 58, false);
        assert!(cache.evictions() <= cache.misses());
    }
    assert_eq!(cache.hits() + cache.misses(), 500);
}

#[test]
fn recency_is_the_hit_count_at_the_access() {
    // Two lines. A and B are installed with stamp 0. The hit on A stamps it 0 again, so
    // that A and B tie, and the first slot, A, is replaced.
    let mut cache = Cache::new(0, 2, 0).unwrap();
    cache.access(0xa, false);
    cache.access(0xb, false);
    cache.access(0xa, false);
    cache.access(0xc, false);
    assert_eq!(counters(&cache), (1, 3, 1));
    cache.access(0xb, false);
    assert_eq!(counters(&cache), (2, 3, 1));
    cache.access(0xa, false);
    assert_eq!(counters(&cache), (2, 4, 2));
}

#[test]
fn least_recently_stamped_line_is_replaced() {
    // After one hit the clock is 1: the second hit on A stamps it 1, B keeps 0 and is
    // replaced.
    let mut cache = Cache::new(0, 2, 0).unwrap();
    cache.access(0xa, false);
    cache.access(0xb, false);
    cache.access(0xa, false);
    cache.access(0xa, false);
    cache.access(0xc, false);
    assert_eq!(counters(&cache), (2, 3, 1));
    cache.access(0xa, false);
    assert_eq!(counters(&cache), (3, 3, 1));
    cache.access(0xb, false);
    assert_eq!(counters(&cache), (3, 4, 2));
}

#[test]
fn one_set_is_fully_associative() {
    let mut cache = Cache::new(0, 3, 4).unwrap();
    for address in [0x000u64, 0x100, 0x200] {
        cache.access(address, false);
    }
    assert_eq!(counters(&cache), (0, 3, 0));
    for address in [0x000u64, 0x100, 0x200] {
        cache.access(address, false);
    }
    assert_eq!(counters(&cache), (3, 3, 0));
}

#[test]
fn without_offset_bits_every_address_is_a_block() {
    let mut cache = Cache::new(0, 4, 0).unwrap();
    cache.access(6, false);
    cache.access(7, false);
    assert_eq!(counters(&cache), (0, 2, 0));
}

#[test]
fn extreme_addresses_are_accepted() {
    let mut cache = Cache::new(4, 1, 4).unwrap();
    cache.access(0, false);
    cache.access(u64::MAX, false);
    cache.access(0, false);
    cache.access(u64::MAX, false);
    assert_eq!(counters(&cache), (2, 2, 0));
}

#[test]
fn whole_address_as_offset() {
    let mut cache = Cache::new(0, 1, 64).unwrap();
    assert_eq!(cache.extract_tag_and_set_index(u64::MAX), (0, 0));
    cache.access(0, false);
    cache.access(u64::MAX, false);
    assert_eq!(counters(&cache), (1, 1, 0));
}

#[test]
fn zero_associativity_is_refused() {
    assert_eq!(Cache::new(1, 0, 1).unwrap_err(), ConfigError::ZeroAssociativity);
}

#[test]
fn too_many_address_bits_are_refused() {
    assert_eq!(Cache::new(1, 1, 64).unwrap_err(), ConfigError::AddressWidthExceeded);
    assert_eq!(Cache::new(31, 1, 34).unwrap_err(), ConfigError::AddressWidthExceeded);
    assert_eq!(Cache::new(u32::MAX, 1, u32::MAX).unwrap_err(), ConfigError::AddressWidthExceeded);
    assert!(Cache::new(1, 1, 63).is_ok());
}

#[test]
fn too_many_sets_are_refused() {
    assert_eq!(MAX_SET_BITS, 31);
    assert_eq!(Cache::new(32, 1, 0).unwrap_err(), ConfigError::TooManySets);
    assert_eq!(Cache::new(64, 1, 0).unwrap_err(), ConfigError::TooManySets);
}

#[test]
fn geometry_faults_are_judged_in_order() {
    assert_eq!(Cache::new(40, 0, 40).unwrap_err(), ConfigError::ZeroAssociativity);
    assert_eq!(Cache::new(40, 1, 40).unwrap_err(), ConfigError::AddressWidthExceeded);
}

#[test]
fn decode_follows_the_formula() {
    // 0x7ff0_1234 = ...0001_0010_0011_0100: offset 5 bits, index 4 bits.
    assert_eq!(decode(0x7ff0_1234, 4, 5), ((0x7ff0_1234 >> 5) & 0xf, 0x7ff0_1234 >> 9));
    assert_eq!(decode(0x7ff0_1234, 4, 5), (0x1, 0x3f_f809));
    assert_eq!(decode(0xdead_beef_0bad_cafe, 8, 8), (0xca, 0xdead_beef_0bad));
    assert_eq!(decode(0x2, 1, 0), (0, 1));
    assert_eq!(decode(0x1, 1, 0), (1, 0));
}

#[test]
fn decode_at_the_edges() {
    assert_eq!(decode(u64::MAX, 0, 0), (0, u64::MAX));
    assert_eq!(decode(u64::MAX, 64, 0), (u64::MAX, 0));
    assert_eq!(decode(u64::MAX, 0, 64), (0, 0));
    assert_eq!(decode(u64::MAX, 32, 32), (0xffff_ffff, 0));
    assert_eq!(decode(u64::MAX, 1, 62), (1, 1));
    assert_eq!(decode(0, 5, 7), (0, 0));
}

#[test]
fn decode_survives_recomposition() {
    let (s, b) = (6u32, 5u32);
    for address in [0u64, 1, 0x1f, 0x20, 0xffff, 0x1234_5678_9abc_def0, u64::MAX] {
        let (index, tag) = decode(address, s, b);
        for offset in [0u64, 1, 17, 31] {
            let again = (tag << (s + b)) | (index << b) | offset;
            assert_eq!(decode(again, s, b), (index, tag));
        }
    }
}

#[test]
fn cache_decodes_with_its_own_geometry() {
    let cache = Cache::new(4, 1, 5).unwrap();
    assert_eq!(cache.extract_tag_and_set_index(0x7ff0_1234), (0x1, 0x3f_f809));
}

#[test]
fn new_set_is_empty() {
    let set = CacheSet::new(3);
    assert_eq!(set.len(), 3);
    assert_eq!(set.find(0), None);
    assert_eq!(set.victim(), 0);
    assert_eq!(CacheSet::new(0).len(), 0);
}

#[test]
fn set_fills_slots_in_order_then_replaces_the_oldest() {
    let mut set = CacheSet::new(3);
    assert_eq!(set.touch(10, 5), Outcome::Fill);
    assert_eq!(set.touch(11, 3), Outcome::Fill);
    assert_eq!(set.victim(), 2);
    assert_eq!(set.touch(12, 4), Outcome::Fill);
    assert_eq!(set.find(10), Some(0));
    assert_eq!(set.find(11), Some(1));
    assert_eq!(set.find(12), Some(2));
    assert_eq!(set.victim(), 1);
    assert_eq!(set.touch(11, 9), Outcome::Hit);
    assert_eq!(set.victim(), 2);
    assert_eq!(set.touch(13, 9), Outcome::Evict);
    assert_eq!(set.find(12), None);
    assert_eq!(set.find(13), Some(2));
}

#[test]
fn equal_stamps_replace_the_first_slot() {
    let mut set = CacheSet::new(2);
    set.touch(1, 7);
    set.touch(2, 7);
    assert_eq!(set.victim(), 0);
}

#[test]
fn block_is_plain_data() {
    let block = Block { valid: true, tag: 3, last_used: 9 };
    let copy = block;
    assert!(copy.valid && block.valid);
    assert_eq!((copy.tag, copy.last_used), (3, 9));
}
