use rust_chess_engine::transposition::{NodeType, TableLoadError, TranspositionTable};
use rust_chess_engine::zobrist::{KeysLoadError, Zobrist, KEY_BYTES};

#[test]
fn test_save_load() {
    let zob1 = Zobrist::with_seed(9999);

    let bytes = zob1.to_bytes();
    let zob2 = Zobrist::from_bytes(&bytes).expect("Load failed");

    assert_eq!(zob1.seed(), zob2.seed());
    assert_eq!(zob1.side, zob2.side);
}

#[test]
fn keys_are_stored_word_by_word() {
    let zob = Zobrist::with_seed(42);
    let bytes = zob.to_bytes();
    assert_eq!(bytes.len(), KEY_BYTES);
    assert_eq!(bytes.len(), 13520);
    let word = |k: usize| u64::from_le_bytes(bytes[8 * k..8 * k + 8].try_into().unwrap());
    assert_eq!(word(0), 42);
    assert_eq!(word(1), zob.pieces[0][0]);
    assert_eq!(word(1 + 12 * 0x77 + 11), zob.pieces[0x77][11]);
    assert_eq!(word(1 + 12 * 8), 0);
    assert_eq!(word(1537), zob.side);
    assert_eq!(word(1538), zob.castling[0]);
    assert_eq!(word(1553), zob.castling[15]);
    assert_eq!(word(1554), zob.ep_file[0]);
    assert_eq!(word(1561), zob.ep_file[7]);
    assert_eq!(word(1562), zob.ep_square[0]);
    assert_eq!(word(1689), zob.ep_square[127]);
    let back = Zobrist::from_bytes(&bytes).unwrap();
    assert_eq!(back.pieces, zob.pieces);
    assert_eq!(back.castling, zob.castling);
    assert_eq!(back.ep_file, zob.ep_file);
    assert_eq!(back.ep_square, zob.ep_square);
    assert_eq!(back.stats().hash_calls, 0);
}

#[test]
fn short_key_bytes_are_refused() {
    let zob = Zobrist::with_seed(42);
    let bytes = zob.to_bytes();
    assert!(matches!(Zobrist::from_bytes(&bytes[..13519]), Err(KeysLoadError::Truncated)));
    assert!(matches!(Zobrist::from_bytes(&[]), Err(KeysLoadError::Truncated)));
    let mut longer = bytes.clone();
    longer.extend_from_slice(&[1, 2, 3]);
    assert_eq!(Zobrist::from_bytes(&longer).unwrap().side, zob.side);
}

#[test]
fn table_file_layout() {
    let mut tt = TranspositionTable::new_buckets(2);
    tt.new_search();
    // key 1 folds to slot 1
    tt.store(1, 7, -3, NodeType::LowerBound, Some((0x14, 0x34, 2)));
    let bytes = tt.to_bytes();
    assert_eq!(bytes.len(), 12 + 2 * 22);
    assert_eq!(&bytes[0..8], &[0x42, 0x41, 0x54, 0x54, 0, 0, 0, 0]);
    assert_eq!(&bytes[8..12], &[2, 0, 0, 0]);
    // the empty slot: key 0, value 0, depth -1, exact, age 0, no move
    assert_eq!(&bytes[12..20], &[0; 8]);
    assert_eq!(&bytes[20..24], &[0; 4]);
    assert_eq!(&bytes[24..28], &[0xff; 4]);
    assert_eq!(&bytes[28..34], &[0; 6]);
    // the stored entry
    assert_eq!(&bytes[34..42], &[1, 0, 0, 0, 0, 0, 0, 0]);
    assert_eq!(&bytes[42..46], &(-3i32).to_le_bytes());
    assert_eq!(&bytes[46..50], &7i32.to_le_bytes());
    assert_eq!(bytes[50], 1);
    assert_eq!(bytes[51], 2);
    let packed: u32 = 0x14 | (0x34 << 7) | (2 << 14);
    assert_eq!(&bytes[52..56], &packed.to_le_bytes());
}

#[test]
fn table_round_trip() {
    let mut tt = TranspositionTable::new_buckets(8);
    tt.store(3, 4, 55, NodeType::Exact, Some((1, 2, 3)));
    tt.new_search();
    tt.store(6, 2, -9, NodeType::UpperBound, None);
    let bytes = tt.to_bytes();
    let mut other = TranspositionTable::new_buckets(8);
    other.new_search();
    other.new_search();
    let _ = other.probe(1, 0, 0, 0);
    assert_eq!(other.load_from_bytes(&bytes), Ok(()));
    for key in 0..8u64 {
        let a = tt.entry_for(key);
        let b = other.entry_for(key);
        assert_eq!((a.key, a.value, a.depth, a.node, a.age, a.best), (b.key, b.value, b.depth, b.node, b.age, b.best));
    }
    // the generation and the counters of the loading table stay
    assert_eq!(other.current_age(), 3);
    assert_eq!(other.probe_count(), 1);
}

#[test]
fn table_load_errors_leave_the_table_as_it_was() {
    let mut tt = TranspositionTable::new_buckets(4);
    tt.store(3, 4, 55, NodeType::Exact, None);
    let good = tt.to_bytes();
    let mut target = TranspositionTable::new_buckets(4);
    target.store(1, 1, 1, NodeType::Exact, None);
    assert_eq!(target.load_from_bytes(&good[..7]), Err(TableLoadError::Truncated));
    let mut bad_magic = good.clone();
    bad_magic[0] = 0x43;
    assert_eq!(target.load_from_bytes(&bad_magic), Err(TableLoadError::BadMagic));
    assert_eq!(target.load_from_bytes(&good[..11]), Err(TableLoadError::Truncated));
    let mut other_size = TranspositionTable::new_buckets(8);
    assert_eq!(other_size.load_from_bytes(&good), Err(TableLoadError::BucketCountMismatch));
    assert_eq!(target.load_from_bytes(&good[..good.len() - 1]), Err(TableLoadError::Truncated));
    assert_eq!(target.entry_for(1).value, 1);
    assert!(target.entry_for(3).is_empty());
    // an unknown node type byte reads as exact
    let mut odd = good.clone();
    odd[12 + 16] = 9;
    assert_eq!(target.load_from_bytes(&odd), Ok(()));
    assert_eq!(target.entry_for(0).node, NodeType::Exact);
    assert_eq!(target.entry_for(3).value, 55);
}
