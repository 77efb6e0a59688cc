use rust_chess_engine::attack::{find_king, is_king_attacked, is_square_attacked};
use rust_chess_engine::board::Board;
use rust_chess_engine::eval::{eval, has_at_most_one_king_each};
use rust_chess_engine::fen::FenError;
use rust_chess_engine::movegen::{gen_moves, gen_pseudo_legal, without_repeats, Move};
use rust_chess_engine::piece::Piece;
use rust_chess_engine::square::{on_board, sq};
use rust_chess_engine::text::{alg_to_sq, sq_to_alg};

const START: &str = "rnbqkbnr/pppppppp/8/8/8/8/PPPPPPPP/RNBQKBNR w KQkq - 0 1";

fn legal_moves(board: &Board) -> Vec<Move> {
    let mut moves = Vec::new();
    gen_moves(board, &mut moves);
    moves
}

fn move_names(board: &Board) -> Vec<String> {
    let mut names: Vec<String> = legal_moves(board).iter().map(|m| m.to_string()).collect();
    names.sort();
    names
}

fn perft(board: &mut Board, depth: u32) -> u64 {
    let moves = legal_moves(board);
    if depth == 1 {
        return moves.len() as u64;
    }
    let mut nodes = 0;
    for m in moves {
        board.make_move(m.from, m.to, m.promotion);
        nodes += perft(board, depth - 1);
        board.undo_move();
    }
    nodes
}

fn snapshot(b: &Board) -> (Vec<Piece>, bool, u8, Option<usize>, u32, u32, usize) {
    (b.cells.to_vec(), b.side_white, b.castling, b.ep, b.halfmove_clock, b.fullmove, b.history_len())
}

#[test]
fn piece_letters() {
    for (c, p) in [
        ('P', Piece::WP), ('N', Piece::WN), ('B', Piece::WB), ('R', Piece::WR), ('Q', Piece::WQ),
        ('K', Piece::WK), ('p', Piece::BP), ('n', Piece::BN), ('b', Piece::BB), ('r', Piece::BR),
        ('q', Piece::BQ), ('k', Piece::BK),
    ] {
        assert_eq!(Piece::from_char(c), p);
        assert_eq!(p.to_char(), c);
        assert_eq!(p.is_white(), c.is_ascii_uppercase());
        assert_eq!(p.is_black(), c.is_ascii_lowercase());
        assert!(!p.is_empty());
    }
    assert_eq!(Piece::from_char('x'), Piece::Empty);
    assert_eq!(Piece::from_char('.'), Piece::Empty);
    assert_eq!(Piece::Empty.to_char(), '.');
    assert!(Piece::Empty.is_empty());
    assert!(!Piece::Empty.is_white());
    assert!(!Piece::Empty.is_black());
}

#[test]
fn squares_and_names() {
    assert_eq!(sq(0, 0), 0x00);
    assert_eq!(sq(1, 4), 0x14);
    assert_eq!(sq(7, 7), 0x77);
    assert!(on_board(0x00));
    assert!(on_board(0x77));
    assert!(!on_board(0x08));
    assert!(!on_board(0x80));
    assert_eq!(sq_to_alg(0x14), "e2");
    assert_eq!(sq_to_alg(0x00), "a1");
    assert_eq!(sq_to_alg(0x77), "h8");
    assert_eq!(sq_to_alg(0x08), "??");
    assert_eq!(sq_to_alg(0x80), "??");
    assert_eq!(alg_to_sq("e2"), Some(0x14));
    assert_eq!(alg_to_sq("E2"), Some(0x14));
    assert_eq!(alg_to_sq(" h8 "), Some(0x77));
    assert_eq!(alg_to_sq("e3xyz"), Some(0x24));
    assert_eq!(alg_to_sq("e"), None);
    assert_eq!(alg_to_sq("e9"), None);
    assert_eq!(alg_to_sq("i1"), None);
    assert_eq!(alg_to_sq("-"), None);
}

#[test]
fn fen_is_read_field_by_field() {
    let b = Board::from_fen(START).unwrap();
    assert_eq!(b.cells[0x00], Piece::WR);
    assert_eq!(b.cells[0x04], Piece::WK);
    assert_eq!(b.cells[0x14], Piece::WP);
    assert_eq!(b.cells[0x24], Piece::Empty);
    assert_eq!(b.cells[0x73], Piece::BQ);
    assert_eq!(b.cells[0x67], Piece::BP);
    assert!(b.side_white);
    assert_eq!(b.castling, 15);
    assert_eq!(b.ep, None);
    assert_eq!(b.halfmove_clock, 0);
    assert_eq!(b.fullmove, 1);
    for s in 0..128 {
        if !on_board(s) {
            assert_eq!(b.cells[s], Piece::Empty);
        }
    }
    let c = Board::from_fen("8/8/8/3pP3/8/8/8/4K2k b Kq d6 12 34").unwrap();
    assert!(!c.side_white);
    assert_eq!(c.castling, 1 | 8);
    assert_eq!(c.ep, Some(0x53));
    assert_eq!(c.halfmove_clock, 12);
    assert_eq!(c.fullmove, 34);
    assert_eq!(c.cells[0x43], Piece::BP);
    assert_eq!(c.cells[0x44], Piece::WP);
}

#[test]
fn fen_defaults_for_missing_fields() {
    let b = Board::from_fen("4k3/8/8/8/8/8/8/4K3").unwrap();
    assert!(b.side_white);
    assert_eq!(b.castling, 0);
    assert_eq!(b.ep, None);
    assert_eq!(b.halfmove_clock, 0);
    assert_eq!(b.fullmove, 1);
    assert_eq!(b.to_fen(), "4k3/8/8/8/8/8/8/4K3 w - - 0 1");
    let c = Board::from_fen("4k3/8/8/8/8/8/8/4K3 b").unwrap();
    assert_eq!(c.to_fen(), "4k3/8/8/8/8/8/8/4K3 b - - 0 1");
    let d = Board::from_fen("4k3/8/8/8/8/8/8/4K3 b Qk").unwrap();
    assert_eq!(d.to_fen(), "4k3/8/8/8/8/8/8/4K3 b Qk - 0 1");
    let e = Board::from_fen("4k3/8/8/8/4P3/8/8/4K3 b - e3").unwrap();
    assert_eq!(e.to_fen(), "4k3/8/8/8/4P3/8/8/4K3 b - e3 0 1");
    let f = Board::from_fen("4k3/8/8/8/8/8/8/4K3 w - - 7").unwrap();
    assert_eq!(f.to_fen(), "4k3/8/8/8/8/8/8/4K3 w - - 7 1");
    let g = Board::from_fen("  4k3/8/8/8/8/8/8/4K3 \t w   - - 7 4294967295 and more\n").unwrap();
    assert_eq!(g.halfmove_clock, 7);
    assert_eq!(g.fullmove, 4294967295);
}

fn fen_failure(fen: &str) -> Option<FenError> {
    Board::from_fen(fen).err()
}

#[test]
fn fen_placement_is_checked() {
    assert_eq!(fen_failure(""), Some(FenError::Placement));
    assert_eq!(fen_failure("   "), Some(FenError::Placement));
    // nine ranks
    assert_eq!(fen_failure("8/8/8/8/8/8/8/8/K w - - 0 1"), Some(FenError::Placement));
    assert_eq!(fen_failure("8/8/8/8/8/8/8/8/ w - - 0 1"), Some(FenError::Placement));
    // seven ranks
    assert_eq!(fen_failure("8/8/8/8/8/8/4K3 w - - 0 1"), Some(FenError::Placement));
    // a rank of nine files, of seven, of none
    assert_eq!(fen_failure("rnbqkbnrQ/8/8/8/8/8/8/4K3 w - - 0 1"), Some(FenError::Placement));
    assert_eq!(fen_failure("4k3/8/8/8/8/8/8/4K4 w - - 0 1"), Some(FenError::Placement));
    assert_eq!(fen_failure("4k3/8/8/8/8/8/8/4K2 w - - 0 1"), Some(FenError::Placement));
    assert_eq!(fen_failure("4k3/8/8/8//8/8/4K3 w - - 0 1"), Some(FenError::Placement));
    assert_eq!(fen_failure("9/8/8/8/8/8/8/4K3 w - - 0 1"), Some(FenError::Placement));
    // a character that is no piece and no digit from 1 to 8
    assert_eq!(fen_failure("x3k3/8/8/8/8/8/8/4K3 w - - 0 1"), Some(FenError::Placement));
    assert_eq!(fen_failure("4k3/8/8/8/8/8/8/4K.2 w - - 0 1"), Some(FenError::Placement));
    assert_eq!(fen_failure("4k3/8/8/8/8/8/8/4K0111 w - - 0 1"), Some(FenError::Placement));
    assert_eq!(fen_failure("4k3/8/8/8/8/8/8/4K3/ w - - 0 1"), Some(FenError::Placement));
    // the placement is the first field to be named
    assert_eq!(fen_failure("8/8 x ? zz abc -1"), Some(FenError::Placement));
}

#[test]
fn fen_names_the_first_bad_field() {
    let p = "4k3/8/8/8/8/8/8/4K3";
    let bad = |rest: &str| fen_failure(&format!("{p} {rest}"));
    assert_eq!(bad("x - - 0 1"), Some(FenError::Side));
    assert_eq!(bad("W - - 0 1"), Some(FenError::Side));
    assert_eq!(bad("wb - - 0 1"), Some(FenError::Side));
    assert_eq!(bad("x ? zz abc -1"), Some(FenError::Side));
    assert_eq!(bad("w KQx - 0 1"), Some(FenError::Castling));
    assert_eq!(bad("w K- - 0 1"), Some(FenError::Castling));
    assert_eq!(bad("w ? zz abc -1"), Some(FenError::Castling));
    assert_eq!(bad("w - zz 0 1"), Some(FenError::EnPassant));
    assert_eq!(bad("w - e 0 1"), Some(FenError::EnPassant));
    assert_eq!(bad("w - e9 0 1"), Some(FenError::EnPassant));
    assert_eq!(bad("w - i3 0 1"), Some(FenError::EnPassant));
    assert_eq!(bad("w - E3 0 1"), Some(FenError::EnPassant));
    assert_eq!(bad("w - e3x 0 1"), Some(FenError::EnPassant));
    assert_eq!(bad("w - -- abc -1"), Some(FenError::EnPassant));
    assert_eq!(bad("w - - abc 1"), Some(FenError::Halfmove));
    assert_eq!(bad("w - - +7 1"), Some(FenError::Halfmove));
    assert_eq!(bad("w - - -7 1"), Some(FenError::Halfmove));
    assert_eq!(bad("w - - 4294967296 1"), Some(FenError::Halfmove));
    assert_eq!(bad("w - - 7x -1"), Some(FenError::Halfmove));
    assert_eq!(bad("w - - 7 x"), Some(FenError::Fullmove));
    assert_eq!(bad("w - - 7 4294967296"), Some(FenError::Fullmove));
    assert_eq!(bad("w - - 7 99999999999"), Some(FenError::Fullmove));
    assert_eq!(bad("w - - 7 4294967295"), None);
    assert_eq!(bad("b qkQK h6 007 0"), None);
}

#[test]
fn fen_round_trip() {
    for fen in [
        START,
        "r3k2r/8/8/8/8/8/8/R3K2R w KQkq - 0 1",
        "8/P7/8/8/8/8/8/k6K w - - 0 1",
        "rnbqkbnr/pppp1ppp/8/4p3/4P3/8/PPPP1PPP/RNBQKBNR w KQkq e6 0 2",
        "6k1/5ppp/8/8/8/8/5PPP/4R1K1 b - - 33 71",
        "8/8/8/8/8/8/8/8 b Kq - 0 1",
    ] {
        assert_eq!(Board::from_fen(fen).unwrap().to_fen(), fen);
    }
}

#[test]
fn start_position_has_twenty_moves() {
    let b = Board::from_fen(START).unwrap();
    assert_eq!(legal_moves(&b).len(), 20);
    assert_eq!(
        move_names(&b),
        vec![
            "a2a3", "a2a4", "b1a3", "b1c3", "b2b3", "b2b4", "c2c3", "c2c4", "d2d3", "d2d4",
            "e2e3", "e2e4", "f2f3", "f2f4", "g1f3", "g1h3", "g2g3", "g2g4", "h2h3", "h2h4"
        ]
    );
}

#[test]
fn e2e4_sets_the_en_passant_target() {
    let mut b = Board::from_fen(START).unwrap();
    b.make_move(0x14, 0x34, None);
    assert_eq!(b.ep, Some(0x24));
    assert!(!b.side_white);
    assert_eq!(b.to_fen(), "rnbqkbnr/pppppppp/8/8/4P3/8/PPPP1PPP/RNBQKBNR b KQkq e3 0 1");
    assert!(b.to_fen().contains(" e3 "));
    assert!(b.to_fen().contains(" b "));
}

#[test]
fn perft_of_the_start_position() {
    let mut b = Board::from_fen(START).unwrap();
    assert_eq!(perft(&mut b, 1), 20);
    assert_eq!(perft(&mut b, 2), 400);
    assert_eq!(perft(&mut b, 3), 8902);
    assert_eq!(b.to_fen(), START);
}

#[test]
fn perft_of_the_start_position_depth_four() {
    let mut b = Board::from_fen(START).unwrap();
    assert_eq!(perft(&mut b, 4), 197281);
}

#[test]
fn perft_of_the_start_position_depth_five() {
    let mut b = Board::from_fen(START).unwrap();
    assert_eq!(perft(&mut b, 5), 4865609);
}

#[test]
fn perft_of_kiwipete() {
    // castling, en passant, promotions and pins in one position
    let mut b =
        Board::from_fen("r3k2r/p1ppqpb1/bn2pnp1/3PN3/1p2P3/2N2Q1p/PPPBBPPP/R3K2R w KQkq - 0 1").unwrap();
    assert_eq!(perft(&mut b, 1), 48);
    assert_eq!(perft(&mut b, 2), 2039);
    assert_eq!(perft(&mut b, 3), 97862);
}

#[test]
fn perft_of_an_endgame_with_en_passant_and_promotion() {
    let mut b = Board::from_fen("8/2p5/3p4/KP5r/1R3p1k/8/4P1P1/8 w - - 0 1").unwrap();
    assert_eq!(perft(&mut b, 1), 14);
    assert_eq!(perft(&mut b, 2), 191);
    assert_eq!(perft(&mut b, 3), 2812);
    assert_eq!(perft(&mut b, 4), 43238);
}

#[test]
fn king_and_pawn_perft_and_en_passant_target() {
    let mut b = Board::from_fen("4k3/8/8/8/8/8/4P3/4K3 w - - 0 1").unwrap();
    // white: e2e3, e2e4, Kd1, Kf1, Kd2, Kf2 = 6; black always has 5 king moves
    assert_eq!(perft(&mut b, 1), 6);
    assert_eq!(perft(&mut b, 2), 30);
    b.make_move(0x14, 0x34, None);
    assert_eq!(b.ep, Some(0x24));
    assert_eq!(sq_to_alg(b.ep.unwrap()), "e3");
}

#[test]
fn both_castlings_are_offered() {
    let b = Board::from_fen("r3k2r/8/8/8/8/8/8/R3K2R w KQkq - 0 1").unwrap();
    let names = move_names(&b);
    assert!(names.contains(&"e1g1".to_string()));
    assert!(names.contains(&"e1c1".to_string()));
    assert_eq!(names.len(), 26);
    let black = Board::from_fen("r3k2r/8/8/8/8/8/8/R3K2R b KQkq - 0 1").unwrap();
    let names = move_names(&black);
    assert!(names.contains(&"e8g8".to_string()));
    assert!(names.contains(&"e8c8".to_string()));
}

#[test]
fn castling_needs_right_empty_squares_and_safety() {
    let has = |fen: &str, mv: &str| move_names(&Board::from_fen(fen).unwrap()).contains(&mv.to_string());
    // no right
    assert!(!has("r3k2r/8/8/8/8/8/8/R3K2R w Qkq - 0 1", "e1g1"));
    assert!(has("r3k2r/8/8/8/8/8/8/R3K2R w Qkq - 0 1", "e1c1"));
    // a piece between
    assert!(!has("r3k2r/8/8/8/8/8/8/R3KB1R w KQkq - 0 1", "e1g1"));
    assert!(!has("r3k2r/8/8/8/8/8/8/RN2K2R w KQkq - 0 1", "e1c1"));
    // the king is in check
    assert!(!has("r3k2r/8/8/8/8/8/4r3/R3K2R w KQkq - 0 1", "e1g1"));
    assert!(!has("r3k2r/8/8/8/8/8/4r3/R3K2R w KQkq - 0 1", "e1c1"));
    // the king would cross an attacked square
    assert!(!has("r3k2r/8/8/8/8/8/5r2/R3K2R w KQkq - 0 1", "e1g1"));
    assert!(has("r3k2r/8/8/8/8/8/5r2/R3K2R w KQkq - 0 1", "e1c1"));
    assert!(!has("r3k2r/8/8/8/8/8/3r4/R3K2R w KQkq - 0 1", "e1c1"));
    // the king would land on an attacked square
    assert!(!has("r3k2r/8/8/8/8/8/6r1/R3K2R w KQkq - 0 1", "e1g1"));
    // an attack on b1 does not matter
    assert!(has("r3k2r/8/8/8/8/8/1r6/R3K2R w KQkq - 0 1", "e1c1"));
}

#[test]
fn castling_moves_the_rook_and_undo_brings_it_back() {
    let fen = "r3k2r/8/8/8/8/8/8/R3K2R w KQkq - 0 1";
    let mut b = Board::from_fen(fen).unwrap();
    let before = snapshot(&b);
    b.make_move(0x04, 0x06, None);
    assert_eq!(b.to_fen(), "r3k2r/8/8/8/8/8/8/R4RK1 b kq - 1 1");
    b.undo_move();
    assert_eq!(snapshot(&b), before);
    b.make_move(0x04, 0x02, None);
    assert_eq!(b.to_fen(), "r3k2r/8/8/8/8/8/8/2KR3R b kq - 1 1");
    b.make_move(0x74, 0x76, None);
    assert_eq!(b.to_fen(), "r4rk1/8/8/8/8/8/8/2KR3R w - - 2 2");
    b.undo_move();
    b.undo_move();
    assert_eq!(snapshot(&b), before);
    assert_eq!(b.to_fen(), fen);
}

#[test]
fn rook_moves_and_captures_clear_one_right() {
    let mut b = Board::from_fen("r3k2r/8/8/8/8/8/8/R3K2R w KQkq - 0 1").unwrap();
    b.make_move(0x07, 0x77, None); // Rxh8
    assert_eq!(b.castling, 2 | 8);
    b.make_move(0x70, 0x00, None); // Rxa1
    assert_eq!(b.castling, 0);
}

#[test]
fn promotion_moves_and_round_trip() {
    let fen = "8/P7/8/8/8/8/8/k6K w - - 0 1";
    let mut b = Board::from_fen(fen).unwrap();
    let pawn_moves: Vec<String> =
        move_names(&b).into_iter().filter(|n| n.starts_with("a7")).collect();
    assert_eq!(pawn_moves, vec!["a7a8b", "a7a8n", "a7a8q", "a7a8r"]);
    let before = snapshot(&b);
    for m in legal_moves(&b) {
        if m.from != 0x60 {
            continue;
        }
        b.make_move(m.from, m.to, m.promotion);
        assert_eq!(b.cells[0x70], m.promotion.unwrap());
        assert_eq!(b.cells[0x60], Piece::Empty);
        assert_eq!(b.halfmove_clock, 0);
        b.undo_move();
        assert_eq!(snapshot(&b), before);
        assert_eq!(b.to_fen(), fen);
    }
}

#[test]
fn en_passant_capture_and_undo() {
    let fen = "4k3/8/8/3pP3/8/8/8/4K3 w - d6 0 2";
    let mut b = Board::from_fen(fen).unwrap();
    assert!(move_names(&b).contains(&"e5d6".to_string()));
    let before = snapshot(&b);
    b.make_move(0x44, 0x53, None);
    assert_eq!(b.cells[0x53], Piece::WP);
    assert_eq!(b.cells[0x43], Piece::Empty);
    assert_eq!(b.cells[0x44], Piece::Empty);
    assert_eq!(b.halfmove_clock, 0);
    assert_eq!(b.ep, None);
    b.undo_move();
    assert_eq!(snapshot(&b), before);
    assert_eq!(b.to_fen(), fen);
    // black captures en passant
    let fen = "4k3/8/8/8/3pP3/8/8/4K3 b - e3 0 2";
    let mut b = Board::from_fen(fen).unwrap();
    assert!(move_names(&b).contains(&"d4e3".to_string()));
    b.make_move(0x33, 0x24, None);
    assert_eq!(b.cells[0x24], Piece::BP);
    assert_eq!(b.cells[0x34], Piece::Empty);
    b.undo_move();
    assert_eq!(b.to_fen(), fen);
}

#[test]
fn counters_follow_the_rules() {
    let mut b = Board::from_fen(START).unwrap();
    b.make_move(0x06, 0x25, None); // Nf3
    assert_eq!((b.halfmove_clock, b.fullmove), (1, 1));
    b.make_move(0x76, 0x55, None); // Nf6
    assert_eq!((b.halfmove_clock, b.fullmove), (2, 2));
    b.make_move(0x14, 0x34, None); // e4: pawn move
    assert_eq!((b.halfmove_clock, b.fullmove), (0, 2));
    b.make_move(0x55, 0x34, None); // Nxe4: capture
    assert_eq!((b.halfmove_clock, b.fullmove), (0, 3));
    assert_eq!(b.history_len(), 4);
    assert_eq!(b.redo_len(), 0);
}

#[test]
fn undo_after_make_restores_every_field() {
    let mut b = Board::from_fen("r3k2r/p1ppqpb1/bn2pnp1/3PN3/1p2P3/2N2Q1p/PPPBBPPP/R3K2R w KQkq - 5 9").unwrap();
    let before = snapshot(&b);
    for m in legal_moves(&b) {
        b.make_move(m.from, m.to, m.promotion);
        assert_eq!(b.redo_len(), 0);
        assert_eq!(b.history_len(), 1);
        b.undo_move();
        assert_eq!(snapshot(&b), before);
        assert_eq!(b.redo_len(), 1);
    }
}

#[test]
fn makes_then_as_many_undos_restore_the_start() {
    let mut b = Board::from_fen(START).unwrap();
    let before = snapshot(&b);
    let line = [(0x14, 0x34), (0x64, 0x44), (0x06, 0x25), (0x71, 0x52), (0x05, 0x41), (0x76, 0x55), (0x04, 0x06)];
    for (from, to) in line {
        b.make_move(from, to, None);
    }
    assert_eq!(b.to_fen(), "r1bqkb1r/pppp1ppp/2n2n2/1B2p3/4P3/5N2/PPPP1PPP/RNBQ1RK1 b kq - 5 4");
    for _ in 0..line.len() {
        b.undo_move();
    }
    assert_eq!(snapshot(&b), before);
    // one more undo changes nothing
    b.undo_move();
    assert_eq!(snapshot(&b), before);
}

#[test]
fn redo_after_undo_restores_the_state_before_undo() {
    let mut b = Board::from_fen("4k3/8/8/3pP3/8/8/8/R3K2R w KQ d6 0 2").unwrap();
    for (from, to) in [(0x44usize, 0x53usize), (0x04, 0x06), (0x04, 0x02), (0x00, 0x70)] {
        b.make_move(from, to, None);
        let after = snapshot(&b);
        let fen = b.to_fen();
        b.undo_move();
        assert_eq!(b.redo_len(), 1);
        b.redo_move();
        assert_eq!(snapshot(&b), after);
        assert_eq!(b.to_fen(), fen);
        assert_eq!(b.redo_len(), 0);
        b.undo_move();
    }
    // two undos, two redos
    b.make_move(0x04, 0x06, None);
    b.make_move(0x74, 0x64, None);
    let after = snapshot(&b);
    b.undo_move();
    b.undo_move();
    assert_eq!(b.redo_len(), 2);
    b.redo_move();
    b.redo_move();
    assert_eq!(snapshot(&b), after);
    // a new move clears the redo stack; redo then does nothing
    b.undo_move();
    assert_eq!(b.redo_len(), 1);
    b.make_move(0x74, 0x73, None);
    assert_eq!(b.redo_len(), 0);
    let now = snapshot(&b);
    b.redo_move();
    assert_eq!(snapshot(&b), now);
}

#[test]
fn attack_detection() {
    let b = Board::from_fen("4k3/8/8/3n4/8/2B5/1P6/R3K3 w - - 0 1").unwrap();
    // pawn b2 attacks a3 and c3
    assert!(is_square_attacked(&b, 0x20, true));
    assert!(is_square_attacked(&b, 0x22, true));
    assert!(!is_square_attacked(&b, 0x21, true));
    // rook a1 along the file and the rank, up to the first piece
    assert!(is_square_attacked(&b, 0x70, true));
    assert!(is_square_attacked(&b, 0x03, true));
    assert!(is_square_attacked(&b, 0x04, true));
    assert!(!is_square_attacked(&b, 0x05, true) || is_square_attacked(&b, 0x05, true));
    // bishop c3 along the diagonal, blocked by its own pawn on b2
    assert!(is_square_attacked(&b, 0x66, true));
    assert!(!is_square_attacked(&b, 0x77, false));
    assert!(is_square_attacked(&b, 0x11, true));
    // knight d5 attacks c3, e3, b4, f4, b6, f6, c7, e7
    for s in [0x22, 0x24, 0x31, 0x35, 0x51, 0x55, 0x62, 0x64] {
        assert!(is_square_attacked(&b, s, false));
    }
    assert!(!is_square_attacked(&b, 0x44, false));
    // kings attack the squares next to them
    assert!(is_square_attacked(&b, 0x63, false));
    assert!(is_square_attacked(&b, 0x15, true));
    assert_eq!(find_king(&b, true), Some(0x04));
    assert_eq!(find_king(&b, false), Some(0x74));
    assert!(!is_king_attacked(&b, true));
    assert!(!is_king_attacked(&b, false));
    let checked = Board::from_fen("4k3/8/8/8/8/8/4r3/4K3 w - - 0 1").unwrap();
    assert!(is_king_attacked(&checked, true));
    // a side without a king counts as attacked
    let no_king = Board::from_fen("4k3/8/8/8/8/8/8/8 w - - 0 1").unwrap();
    assert_eq!(find_king(&no_king, true), None);
    assert!(is_king_attacked(&no_king, true));
}

#[test]
fn black_pawn_attacks_downwards() {
    let b = Board::from_fen("4k3/8/8/3p4/8/8/8/4K3 w - - 0 1").unwrap();
    assert!(is_square_attacked(&b, 0x32, false));
    assert!(is_square_attacked(&b, 0x34, false));
    assert!(!is_square_attacked(&b, 0x52, false));
    assert!(!is_square_attacked(&b, 0x33, false));
}

#[test]
fn no_legal_move_leaves_the_king_in_check() {
    for fen in [
        START,
        "r3k2r/p1ppqpb1/bn2pnp1/3PN3/1p2P3/2N2Q1p/PPPBBPPP/R3K2R w KQkq - 0 1",
        "4k3/8/8/8/8/8/4r3/4K3 w - - 0 1",
        "8/2p5/3p4/KP5r/1R3p1k/8/4P1P1/8 w - - 0 1",
        "rnb1kbnr/pppp1ppp/8/4p3/6Pq/5P2/PPPPP2P/RNBQKBNR w KQkq - 1 3",
    ] {
        let mut b = Board::from_fen(fen).unwrap();
        let white = b.side_white;
        for m in legal_moves(&b) {
            b.make_move(m.from, m.to, m.promotion);
            assert!(!is_king_attacked(&b, white));
            b.undo_move();
        }
    }
}

#[test]
fn pinned_piece_and_check_evasion() {
    // the knight on e2 is pinned by the rook on e8
    let b = Board::from_fen("4r2k/8/8/8/8/8/4N3/4K3 w - - 0 1").unwrap();
    assert!(move_names(&b).iter().all(|n| !n.starts_with("e2")));
    // in check by the rook: only king moves off the file and the capture
    let c = Board::from_fen("7k/8/8/8/8/8/4r3/4K3 w - - 0 1").unwrap();
    assert_eq!(move_names(&c), vec!["e1d1", "e1e2", "e1f1"]);
}

#[test]
fn material_evaluation() {
    assert_eq!(eval(&Board::from_fen(START).unwrap()), 0);
    assert_eq!(eval(&Board::from_fen("4k3/8/8/8/8/8/4P3/4K3 w - - 0 1").unwrap()), 100);
    assert_eq!(eval(&Board::from_fen("4k3/8/8/8/8/8/4P3/4K3 b - - 0 1").unwrap()), -100);
    assert_eq!(eval(&Board::from_fen("4k3/8/8/8/8/8/8/QRBNK3 w - - 0 1").unwrap()), 900 + 500 + 330 + 320);
    assert_eq!(eval(&Board::from_fen("qrbnk3/8/8/8/8/8/8/4K3 w - - 0 1").unwrap()), -(900 + 500 + 330 + 320));
    assert_eq!(eval(&Board::from_fen("8/8/8/8/8/8/8/4K3 w - - 0 1").unwrap()), 20000);
    assert!(has_at_most_one_king_each(&Board::from_fen(START).unwrap()));
    assert!(!has_at_most_one_king_each(&Board::from_fen("4k3/8/8/8/8/8/8/K3K3 w - - 0 1").unwrap()));
}

#[test]
fn legal_positions_are_told_apart() {
    use_legal(START, true);
    use_legal("r3k2r/p1ppqpb1/bn2pnp1/3PN3/1p2P3/2N2Q1p/PPPBBPPP/R3K2R w KQkq - 0 1", true);
    use_legal("rnbqkbnr/pppp1ppp/8/4p3/4P3/8/PPPP1PPP/RNBQKBNR w KQkq e6 0 2", true);
    // the side that is not to move is in check
    use_legal("4k3/8/8/8/8/8/4r3/4K3 b - - 0 1", false);
    use_legal("4k3/8/8/8/8/8/4r3/4K3 w - - 0 1", true);
    // two kings, no king
    use_legal("4k3/8/8/8/8/8/8/K3K3 w - - 0 1", false);
    use_legal("8/8/8/8/8/8/8/4K3 w - - 0 1", false);
    // a right without its rook, a target without its pawn
    use_legal("4k3/8/8/8/8/8/8/4K3 w K - 0 1", false);
    use_legal("4k3/8/8/8/8/8/8/4K3 w - e6 0 1", false);
}

fn use_legal(fen: &str, expected: bool) {
    let b = Board::from_fen(fen).unwrap();
    assert_eq!(rust_chess_engine::position::is_legal_position(&b), expected);
    assert!(!expected || b.is_consistent());
}

#[test]
fn legal_moves_lead_to_legal_positions() {
    let mut b =
        Board::from_fen("r3k2r/p1ppqpb1/bn2pnp1/3PN3/1p2P3/2N2Q1p/PPPBBPPP/R3K2R w KQkq - 0 1").unwrap();
    for m in legal_moves(&b) {
        b.make_move(m.from, m.to, m.promotion);
        assert!(rust_chess_engine::position::is_legal_position(&b));
        for n in legal_moves(&b) {
            b.make_move(n.from, n.to, n.promotion);
            assert!(rust_chess_engine::position::is_legal_position(&b));
            b.undo_move();
        }
        b.undo_move();
    }
}

#[test]
fn move_on_a_copy_leaves_the_board() {
    let b = Board::from_fen(START).unwrap();
    let c = b.make_move_clone(0x14, 0x34, None);
    assert_eq!(b.to_fen(), START);
    assert_eq!(c.to_fen(), "rnbqkbnr/pppppppp/8/8/4P3/8/PPPP1PPP/RNBQKBNR b KQkq e3 0 1");
    assert_eq!(c.history_len(), 1);
    let d = c.clone();
    assert_eq!(d.to_fen(), c.to_fen());
    let p = b.position_after(0x06, 0x25, None);
    assert_eq!(p.cells[0x25], Piece::WN);
    assert!(!p.side_white);
}

#[test]
fn setters_change_one_field() {
    let mut b = Board::empty();
    assert_eq!(b.to_fen(), "8/8/8/8/8/8/8/8 w - - 0 1");
    b.set_piece(0x04, Piece::WK);
    b.set_piece(0x74, Piece::BK);
    b.set_side_to_move(false);
    b.set_castling_rights(5);
    b.set_ep_target(Some(0x24));
    b.set_counters(3, 9);
    assert_eq!(b.to_fen(), "4k3/8/8/8/8/8/8/4K3 b Kk e3 3 9");
    assert_eq!(b.piece_at(0x04), Piece::WK);
    assert!(!b.white_to_move());
    assert_eq!(b.castling_rights(), 5);
    assert_eq!(b.ep_target(), Some(0x24));
    assert_eq!(b.halfmove(), 3);
    assert_eq!(b.fullmove_number(), 9);
}

#[test]
fn no_move_is_listed_twice() {
    // the en passant target holds a piece: the pawn can take it by either rule
    let b = Board::from_fen("4k3/8/3p4/4P3/8/8/8/4K3 w - d6 0 1").unwrap();
    assert!(!b.is_consistent());
    let names = move_names(&b);
    assert_eq!(names.iter().filter(|n| n.as_str() == "e5d6").count(), 1);
    assert_eq!(names, ["e1d1", "e1d2", "e1e2", "e1f1", "e1f2", "e5d6", "e5e6"]);
    let pseudo = gen_pseudo_legal(&b);
    assert_eq!(pseudo.len(), 7);
    for fen in [
        START,
        "r3k2r/p1ppqpb1/bn2pnp1/3PN3/1p2P3/2N2Q1p/PPPBBPPP/R3K2R w KQkq - 0 1",
        "8/P7/8/8/8/8/8/k6K w - - 0 1",
    ] {
        let moves = legal_moves(&Board::from_fen(fen).unwrap());
        for i in 0..moves.len() {
            for j in 0..i {
                assert!(moves[i] != moves[j]);
            }
        }
    }
    let e2e4 = Move { from: 0x14, to: 0x34, promotion: None };
    let g1f3 = Move { from: 0x06, to: 0x25, promotion: None };
    let queen = Move { from: 0x60, to: 0x70, promotion: Some(Piece::WQ) };
    let rook = Move { from: 0x60, to: 0x70, promotion: Some(Piece::WR) };
    let once = without_repeats(&vec![e2e4, g1f3, e2e4, queen, rook, queen, g1f3]);
    assert_eq!(once.len(), 4);
    for m in [e2e4, g1f3, queen, rook] {
        assert_eq!(once.iter().filter(|x| **x == m).count(), 1);
    }
    assert!(without_repeats(&Vec::new()).is_empty());
}
