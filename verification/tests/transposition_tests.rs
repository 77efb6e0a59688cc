use rust_chess_engine::transposition::{
    NodeType, PackedMove, ProbeResult, TTEntry, TranspositionTable,
};

#[test]
fn simple_store_and_probe() {
    let mut tt = TranspositionTable::new_buckets(1024);
    tt.clear();
    let key: u64 = 0x12345678abcdef;
    let depth = 5;
    let value = 42;
    let node = NodeType::Exact;
    tt.new_search();
    tt.store(key, depth, value, node, Some((10usize, 20usize, 0u8)));

    match tt.probe(key, depth, -1000000, 1000000) {
        ProbeResult::Usable(v, Some(p)) => {
            assert_eq!(v, 42);
            let (f, t, p_id) = p.unpack();
            assert_eq!(f, 10);
            assert_eq!(t, 20);
            assert_eq!(p_id, 0u8);
        }
        _ => panic!("expected usable exact"),
    }
}

#[test]
fn replacement_policy_prefers_deeper() {
    let mut tt = TranspositionTable::new_buckets(256);
    tt.clear();
    let key = 0x1111u64;
    tt.new_search();
    tt.store(key, 3, 10, NodeType::UpperBound, None);
    let _first = tt.entry_for(key);
    tt.store(key, 6, 20, NodeType::Exact, None);
    let second = tt.entry_for(key);
    assert_eq!(second.depth, 6);
    assert_eq!(second.value, 20);
}

#[test]
fn bucket_count_is_rounded_up_to_a_power_of_two() {
    assert_eq!(TranspositionTable::new_buckets(1).bucket_count(), 1);
    assert_eq!(TranspositionTable::new_buckets(2).bucket_count(), 2);
    assert_eq!(TranspositionTable::new_buckets(3).bucket_count(), 4);
    assert_eq!(TranspositionTable::new_buckets(1000).bucket_count(), 1024);
    assert_eq!(TranspositionTable::new_buckets(1024).bucket_count(), 1024);
    assert_eq!(TranspositionTable::new_buckets(1025).bucket_count(), 2048);
}

#[test]
fn size_in_megabytes_is_rounded_down_to_a_power_of_two() {
    // 1 MB / 24 bytes = 43690 entries; the power of two below is 32768.
    assert_eq!(TranspositionTable::new_strict_size_mb(1).bucket_count(), 32768);
    // 3 MB / 24 = 131072 exactly.
    assert_eq!(TranspositionTable::new_strict_size_mb(3).bucket_count(), 131072);
    assert_eq!(TranspositionTable::new_strict_size_mb(0).bucket_count(), 1);
}

#[test]
fn new_table_is_empty_in_generation_one() {
    let mut tt = TranspositionTable::new_buckets(16);
    assert_eq!(tt.current_age(), 1);
    assert_eq!(tt.probe_count(), 0);
    assert!(matches!(tt.probe(99, 0, -10, 10), ProbeResult::Miss));
    assert_eq!(tt.probe_count(), 1);
    assert_eq!(tt.hit_count(), 0);
    assert!(tt.entry_for(99).is_empty());
    assert_eq!(tt.best_move_for(99), None);
}

#[test]
fn age_wraps_around() {
    let mut tt = TranspositionTable::new_buckets(4);
    for _ in 0..255 {
        tt.new_search();
    }
    assert_eq!(tt.current_age(), 0);
    tt.new_search();
    assert_eq!(tt.current_age(), 1);
}

#[test]
fn probe_after_exact_store_is_usable_at_lower_depth() {
    let mut tt = TranspositionTable::new_buckets(64);
    tt.store(77, 4, -31, NodeType::Exact, Some((0x14, 0x34, 0)));
    for d in 0..=4 {
        match tt.probe(77, d, -5, 5) {
            ProbeResult::Usable(v, Some(p)) => {
                assert_eq!(v, -31);
                assert_eq!(p.unpack(), (0x14, 0x34, 0));
            }
            _ => panic!("expected a usable entry"),
        }
    }
    // deeper than stored: the entry only hints
    match tt.probe(77, 5, -5, 5) {
        ProbeResult::Found(e) => {
            assert_eq!(e.value, -31);
            assert_eq!(e.depth, 4);
            assert_eq!(e.node, NodeType::Exact);
        }
        _ => panic!("expected a found entry"),
    }
    assert_eq!(tt.hit_count(), 6);
    assert_eq!(tt.probe_count(), 6);
    assert_eq!(tt.store_count(), 1);
}

#[test]
fn bounds_are_usable_only_across_the_window() {
    let mut tt = TranspositionTable::new_buckets(64);
    tt.store(5, 3, 50, NodeType::LowerBound, None);
    assert!(matches!(tt.probe(5, 3, 0, 50), ProbeResult::Usable(50, _)));
    assert!(matches!(tt.probe(5, 3, 0, 51), ProbeResult::Found(_)));
    let mut tt = TranspositionTable::new_buckets(64);
    tt.store(5, 3, 50, NodeType::UpperBound, None);
    assert!(matches!(tt.probe(5, 3, 50, 90), ProbeResult::Usable(50, _)));
    assert!(matches!(tt.probe(5, 3, 49, 90), ProbeResult::Found(_)));
}

#[test]
fn probe_of_another_key_in_the_same_slot_misses() {
    let mut tt = TranspositionTable::new_buckets(1);
    tt.store(1, 3, 7, NodeType::Exact, None);
    assert!(matches!(tt.probe(2, 0, -1, 1), ProbeResult::Miss));
    assert!(matches!(tt.probe(1, 0, -1, 1), ProbeResult::Usable(7, _)));
}

#[test]
fn exact_overrides_a_bound_of_equal_depth_and_age() {
    let mut tt = TranspositionTable::new_buckets(8);
    tt.store(9, 4, 11, NodeType::LowerBound, None);
    tt.store(9, 4, 22, NodeType::Exact, Some((1, 2, 3)));
    let e = tt.entry_for(9);
    assert_eq!(e.value, 22);
    assert_eq!(e.node, NodeType::Exact);
    assert_eq!(tt.best_move_for(9), Some((1, 2, 3)));
}

#[test]
fn shallower_entry_of_the_same_generation_is_not_written() {
    let mut tt = TranspositionTable::new_buckets(1);
    tt.store(1, 10, 5, NodeType::Exact, None);
    tt.store(2, 3, 7, NodeType::Exact, None);
    let e = tt.entry_for(2);
    assert_eq!(e.key, 1);
    assert_eq!(e.value, 5);
    assert_eq!(tt.store_count(), 2);
    // from another generation the old entry gives way
    tt.new_search();
    tt.store(2, 3, 7, NodeType::Exact, None);
    let e = tt.entry_for(2);
    assert_eq!(e.key, 2);
    assert_eq!(e.age, 2);
}

#[test]
fn equal_depth_same_age_prefers_by_node_type() {
    let mut tt = TranspositionTable::new_buckets(1);
    tt.store(1, 4, 5, NodeType::UpperBound, None);
    // another key, lower bound against upper bound: written
    tt.store(2, 4, 6, NodeType::LowerBound, None);
    assert_eq!(tt.entry_for(2).key, 2);
    // another key, upper bound against lower bound: kept
    tt.store(3, 4, 7, NodeType::UpperBound, None);
    assert_eq!(tt.entry_for(3).key, 2);
    // the same key at the same depth is refreshed whatever the node type
    tt.store(2, 4, 8, NodeType::UpperBound, None);
    assert_eq!(tt.entry_for(2).value, 8);
}

#[test]
fn clear_empties_the_table() {
    let mut tt = TranspositionTable::new_buckets(8);
    tt.new_search();
    tt.store(3, 2, 9, NodeType::Exact, None);
    let _ = tt.probe(3, 1, 0, 1);
    tt.clear();
    assert_eq!(tt.current_age(), 1);
    assert_eq!(tt.probe_count(), 0);
    assert_eq!(tt.hit_count(), 0);
    assert_eq!(tt.store_count(), 0);
    assert!(tt.entry_for(3).is_empty());
    assert_eq!(tt.bucket_count(), 8);
}

#[test]
fn packed_move_layout() {
    assert_eq!(PackedMove::none().raw(), 0);
    let p = PackedMove::pack(0x14, 0x34, 1);
    assert_eq!(p.raw(), 0x14 | (0x34 << 7) | (1 << 14));
    assert_eq!(p.unpack(), (0x14, 0x34, 1));
    // fields are cut to their width
    let q = PackedMove::pack(128 + 5, 256 + 7, 16 + 2);
    assert_eq!(q.unpack(), (5, 7, 2));
    assert!(PackedMove::from_raw(0).is_none());
    assert!(!p.is_none());
}

#[test]
fn node_type_codes() {
    assert_eq!(u8::from(NodeType::Exact), 0);
    assert_eq!(u8::from(NodeType::LowerBound), 1);
    assert_eq!(u8::from(NodeType::UpperBound), 2);
    assert_eq!(NodeType::from(0u8), NodeType::Exact);
    assert_eq!(NodeType::from(1u8), NodeType::LowerBound);
    assert_eq!(NodeType::from(2u8), NodeType::UpperBound);
    assert_eq!(NodeType::from(77u8), NodeType::Exact);
}

#[test]
fn empty_entry_values() {
    let e = TTEntry::empty();
    assert_eq!(e.key, 0);
    assert_eq!(e.value, 0);
    assert_eq!(e.depth, -1);
    assert_eq!(e.node, NodeType::Exact);
    assert_eq!(e.age, 0);
    assert!(e.best.is_none());
    assert!(e.is_empty());
}

#[test]
fn keys_are_folded_onto_their_slot() {
    // in a table of 16 slots the keys 1, 0x10000 and 0x1_0000_0000 fold onto slot 1:
    // k ^ (k >> 32) ^ (k >> 16) ends in 1 for each of them
    let mut tt = TranspositionTable::new_buckets(16);
    tt.store(1, 5, 50, NodeType::Exact, None);
    assert_eq!(tt.entry_for(0x10000).key, 1);
    assert_eq!(tt.entry_for(0x1_0000_0000).key, 1);
    // 0x10001 folds onto slot 0 (0x10001 ^ 1), which is empty
    assert!(tt.entry_for(0x10001).is_empty());
    // 2 folds onto slot 2
    assert!(tt.entry_for(2).is_empty());
    tt.store(0x30000, 1, 7, NodeType::Exact, None);
    // 0x30000 ^ 3 ends in 3
    assert_eq!(tt.entry_for(3).key, 0x30000);
}
