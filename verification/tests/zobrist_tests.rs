use rand::rngs::StdRng;
use rand::{Rng, SeedableRng};
use rust_chess_engine::board::Board;
use rust_chess_engine::piece::Piece;
use rust_chess_engine::zobrist::{count_ones, Zobrist};

const START: &str = "rnbqkbnr/pppppppp/8/8/8/8/PPPPPPPP/RNBQKBNR w KQkq - 0 1";

#[test]
fn test_deterministic_hashing() {
    let zob1 = Zobrist::with_seed(12345);
    let zob2 = Zobrist::with_seed(12345);

    // Just test that keys are identical
    assert_eq!(
        zob1.side, zob2.side,
        "Same seed should produce same side key"
    );
    assert_eq!(
        zob1.pieces[0][0], zob2.pieces[0][0],
        "Same seed should produce same piece keys"
    );
}

#[test]
fn test_different_seeds() {
    let zob1 = Zobrist::with_seed(111);
    let zob2 = Zobrist::with_seed(222);

    assert_ne!(
        zob1.side, zob2.side,
        "Different seeds should produce different keys"
    );
}

#[test]
fn test_piece_index() {
    assert_eq!(Zobrist::piece_index(Piece::WP), Some(0));
    assert_eq!(Zobrist::piece_index(Piece::WK), Some(5));
    assert_eq!(Zobrist::piece_index(Piece::BP), Some(6));
    assert_eq!(Zobrist::piece_index(Piece::BK), Some(11));
    assert_eq!(Zobrist::piece_index(Piece::Empty), None);
}

#[test]
fn test_zobrist_keys_nonzero() {
    let zob = Zobrist::new();

    assert_ne!(zob.side, 0, "Side key should be non-zero");
    assert_ne!(zob.castling[0], 0, "Castling keys should be non-zero");
    assert_ne!(zob.pieces[0][0], 0, "Piece keys should be non-zero");
}

#[test]
fn keys_follow_the_stream_of_the_seeded_generator() {
    let zob = Zobrist::with_seed(2024);
    let mut rng = StdRng::seed_from_u64(2024);
    let stream: Vec<u64> = (0..857).map(|_| rng.gen::<u64>()).collect();
    assert_eq!(zob.seed(), 2024);
    // twelve keys for each real square, rank by rank
    assert_eq!(zob.pieces[0][0], stream[0]);
    assert_eq!(zob.pieces[0][11], stream[11]);
    assert_eq!(zob.pieces[1][0], stream[12]);
    assert_eq!(zob.pieces[7][11], stream[95]);
    assert_eq!(zob.pieces[0x10][0], stream[96]);
    assert_eq!(zob.pieces[0x77][11], stream[767]);
    // slots off the board have no key
    assert_eq!(zob.pieces[8][0], 0);
    assert_eq!(zob.pieces[0x7f][11], 0);
    assert_eq!(zob.castling[0], stream[768]);
    assert_eq!(zob.castling[15], stream[783]);
    assert_eq!(zob.ep_file[0], stream[784]);
    assert_eq!(zob.ep_file[7], stream[791]);
    assert_eq!(zob.ep_square[0], stream[792]);
    assert_eq!(zob.ep_square[0x77], stream[855]);
    assert_eq!(zob.ep_square[0x08], 0);
    assert_eq!(zob.side, stream[856]);
}

#[test]
fn default_and_polyglot_seeds() {
    assert_eq!(Zobrist::new().seed(), 2024);
    assert_eq!(Zobrist::polyglot().seed(), 0x0123456789ABCDEF);
    assert_eq!(Zobrist::new().side, Zobrist::with_seed(2024).side);
}

#[test]
fn hash_is_the_xor_of_the_keys_of_the_position() {
    let mut zob = Zobrist::with_seed(7);
    let b = Board::from_fen("4k3/8/8/8/4P3/8/8/4K3 b - e3 0 1").unwrap();
    let expected = zob.pieces[0x04][5] ^ zob.pieces[0x34][0] ^ zob.pieces[0x74][11]
        ^ zob.castling[0]
        ^ zob.ep_file[4];
    assert_eq!(zob.hash_board_quiet(&b), expected);
    assert_eq!(zob.hash_board(&b), expected);
    let w = Board::from_fen("4k3/8/8/8/4P3/8/8/4K3 w K - 0 1").unwrap();
    let expected_w = zob.pieces[0x04][5] ^ zob.pieces[0x34][0] ^ zob.pieces[0x74][11]
        ^ zob.castling[1]
        ^ zob.side;
    assert_eq!(zob.hash_board(&w), expected_w);
    assert_eq!(zob.stats().hash_calls, 2);
    assert_eq!(zob.stats().full_rehashes, 2);
}

#[test]
fn hash_depends_on_the_position_only() {
    let zob = Zobrist::new();
    // the same position reached by two orders of moves
    let mut a = Board::from_fen(START).unwrap();
    a.make_move(0x06, 0x25, None);
    a.make_move(0x76, 0x55, None);
    a.make_move(0x01, 0x22, None);
    a.make_move(0x71, 0x52, None);
    let mut b = Board::from_fen(START).unwrap();
    b.make_move(0x01, 0x22, None);
    b.make_move(0x71, 0x52, None);
    b.make_move(0x06, 0x25, None);
    b.make_move(0x76, 0x55, None);
    assert_eq!(zob.hash_board_quiet(&a), zob.hash_board_quiet(&b));
    // the counters do not enter the key
    let c = Board::from_fen("r1bqkb1r/pppppppp/2n2n2/8/8/2N2N2/PPPPPPPP/R1BQKB1R w KQkq - 40 77").unwrap();
    assert_eq!(zob.hash_board_quiet(&a), zob.hash_board_quiet(&c));
}

#[test]
fn incremental_hash_follows_make() {
    let mut zob = Zobrist::with_seed(99);
    let mut board = Board::from_fen(START).unwrap();
    let moves: [(usize, usize, Option<Piece>); 6] = [
        (0x14, 0x34, None), // e2e4
        (0x63, 0x43, None), // d7d5
        (0x34, 0x43, None), // exd5
        (0x73, 0x43, None), // Qxd5
        (0x04, 0x14, None), // Ke2
        (0x70, 0x60, None), // a rook move that is not one: a8 to a7 is blocked, but make asks nothing
    ];
    let mut h = zob.hash_board_quiet(&board);
    for (from, to, promo) in moves.iter().copied() {
        let piece = board.cells[from];
        let captured = board.cells[to];
        let old_castling = board.castling;
        let old_ep = board.ep;
        board.make_move(from, to, promo);
        h = zob.update_move(h, from, to, piece, Some(captured), promo);
        h = zob.update_castling(h, old_castling, board.castling);
        h = zob.update_ep(h, old_ep, board.ep);
        assert_eq!(h, zob.hash_board_quiet(&board));
        assert!(zob.verify_hash(&board, h));
    }
    assert_eq!(zob.stats().incremental_updates, 6);
    assert_eq!(zob.stats().verifications, 6);
    assert_eq!(zob.stats().collisions_detected, 0);
    assert!(!zob.verify_hash(&board, h ^ 1));
    assert_eq!(zob.stats().collisions_detected, 1);
    zob.reset_stats();
    assert_eq!(zob.stats().verifications, 0);
    assert_eq!(zob.stats().collisions_detected, 0);
}

#[test]
fn incremental_hash_with_promotion() {
    let mut zob = Zobrist::with_seed(5);
    let mut board = Board::from_fen("1n5k/P7/8/8/8/8/8/K7 w - - 0 1").unwrap();
    let h0 = zob.hash_board_quiet(&board);
    board.make_move(0x60, 0x71, Some(Piece::WQ));
    let h = zob.update_move(h0, 0x60, 0x71, Piece::WP, Some(Piece::BN), Some(Piece::WQ));
    let h = zob.update_castling(h, 0, 0);
    let h = zob.update_ep(h, None, None);
    assert_eq!(h, zob.hash_board_quiet(&board));
}

#[test]
fn toggle_side_is_its_own_inverse() {
    let zob = Zobrist::new();
    assert_eq!(zob.toggle_side(0), zob.side);
    assert_eq!(zob.toggle_side(zob.toggle_side(0xABCD)), 0xABCD);
}

#[test]
fn pawn_and_piece_type_hashes() {
    let zob = Zobrist::with_seed(3);
    let b = Board::from_fen("4k3/p7/8/8/8/8/PP6/4K3 w - - 0 1").unwrap();
    let wp = zob.pieces[0x10][0] ^ zob.pieces[0x11][0];
    let bp = zob.pieces[0x60][6];
    assert_eq!(zob.piece_type_hash(&b, Piece::WP), wp);
    assert_eq!(zob.piece_type_hash(&b, Piece::BP), bp);
    assert_eq!(zob.pawn_hash(&b), wp ^ bp);
    assert_eq!(zob.pieces_hash(&b), wp ^ bp ^ zob.pieces[0x04][5] ^ zob.pieces[0x74][11]);
    assert_eq!(zob.piece_type_hash(&b, Piece::WQ), 0);
    assert_eq!(zob.piece_type_hash(&b, Piece::Empty), 0);
}

#[test]
fn material_hash_depends_on_counts_only() {
    let zob = Zobrist::with_seed(3);
    let a = Board::from_fen("4k3/8/8/8/8/8/PPP5/4K3 w - - 0 1").unwrap();
    let b = Board::from_fen("4k3/8/8/2P5/8/P7/7P/4K3 w - - 0 1").unwrap();
    assert_eq!(zob.material_hash(&a), zob.material_hash(&b));
    // three pawns, one king each: odd counts enter, each key times its count
    let expected = zob.pieces[0][0].wrapping_mul(3) ^ zob.pieces[5][5] ^ zob.pieces[11][11];
    assert_eq!(zob.material_hash(&a), expected);
    // an even count cancels
    let c = Board::from_fen("4k3/8/8/8/8/8/PP6/4K3 w - - 0 1").unwrap();
    assert_eq!(zob.material_hash(&c), zob.pieces[5][5] ^ zob.pieces[11][11]);
}

#[test]
fn suspicious_hashes() {
    let zob = Zobrist::new();
    assert!(zob.is_suspicious_hash(0));
    assert!(zob.is_suspicious_hash(u64::MAX));
    assert!(zob.is_suspicious_hash(0xFFFF >> 1)); // 15 bits
    assert!(!zob.is_suspicious_hash(0xFFFF)); // 16 bits
    assert!(!zob.is_suspicious_hash(0xFFFF_FFFF_FFFF)); // 48 bits
    assert!(zob.is_suspicious_hash(0x1_FFFF_FFFF_FFFF)); // 49 bits
    assert_eq!(count_ones(0), 0);
    assert_eq!(count_ones(u64::MAX), 64);
    assert_eq!(count_ones(0x8000_0000_0000_0001), 2);
}

#[test]
fn piece_names() {
    assert_eq!(Zobrist::piece_name(0), "WP");
    assert_eq!(Zobrist::piece_name(5), "WK");
    assert_eq!(Zobrist::piece_name(6), "BP");
    assert_eq!(Zobrist::piece_name(11), "BK");
    assert_eq!(Zobrist::piece_name(12), "??");
}

#[test]
fn incremental_hash_of_castling_and_en_passant() {
    let mut zob = Zobrist::with_seed(11);
    // castling king side: the king's move, the rook's move, the side toggled back
    let mut board = Board::from_fen("r3k2r/8/8/8/8/8/8/R3K2R w KQkq - 0 1").unwrap();
    let h0 = zob.hash_board_quiet(&board);
    let old_castling = board.castling;
    board.make_move(0x04, 0x06, None);
    let h = zob.update_move(h0, 0x04, 0x06, Piece::WK, None, None);
    let h = zob.update_move(h, 0x07, 0x05, Piece::WR, None, None);
    let h = zob.toggle_side(h);
    let h = zob.update_castling(h, old_castling, board.castling);
    let h = zob.update_ep(h, None, board.ep);
    assert_eq!(h, zob.hash_board_quiet(&board));
    // en passant: the pawn's move, the captured pawn off its square, the side toggled back
    let mut board = Board::from_fen("4k3/8/8/3pP3/8/8/8/4K3 w - d6 0 2").unwrap();
    let h0 = zob.hash_board_quiet(&board);
    let old_ep = board.ep;
    board.make_move(0x44, 0x53, None);
    let h = zob.update_move(h0, 0x44, 0x53, Piece::WP, None, None);
    let h = zob.update_move(h, 0x43, 0x43, Piece::Empty, Some(Piece::BP), None);
    let h = zob.toggle_side(h);
    let h = zob.update_castling(h, 0, board.castling);
    let h = zob.update_ep(h, old_ep, board.ep);
    assert_eq!(h, zob.hash_board_quiet(&board));
}
