use rust_chess_engine::board::Board;
use rust_chess_engine::movegen::{gen_moves, Move};
use rust_chess_engine::piece::Piece;
use rust_chess_engine::search::{
    ai_move, classify_node, no_move_score, order_moves, piece_from_promo_id, piece_to_promo_id,
    keys_do_not_clash, search_root, MATE,
};
use rust_chess_engine::transposition::NodeType;
use rust_chess_engine::zobrist::Zobrist;

#[test]
fn mate_in_one_is_found_at_depth_two() {
    let mut b = Board::from_fen("6k1/5ppp/8/8/8/8/5PPP/4R1K1 w - - 0 1").unwrap();
    let before = b.to_fen();
    let r = search_root(&mut b, 2, None);
    let m = r.best_move.unwrap();
    assert_eq!(m.to_string(), "e1e8");
    assert!(r.score >= MATE - 2 * 100);
    assert_eq!(r.score, MATE - 1);
    assert!(r.nodes > 0);
    assert_eq!(b.to_fen(), before);
    assert_eq!(ai_move(&mut b, 2, None).unwrap().to_string(), "e1e8");
}

#[test]
fn the_only_legal_move_is_returned_at_any_depth() {
    // the king in the corner is in check and has one square to go to
    let fen = "7k/8/8/8/8/8/r7/1r5K w - - 0 1";
    let mut moves = Vec::new();
    gen_moves(&Board::from_fen(fen).unwrap(), &mut moves);
    assert_eq!(moves.len(), 0);
    let fen = "7k/8/8/8/8/8/8/r6K w - - 0 1";
    let mut moves = Vec::new();
    gen_moves(&Board::from_fen(fen).unwrap(), &mut moves);
    assert_eq!(moves.len(), 2);
    let fen = "7k/8/8/8/8/6q1/8/r6K w - - 0 1";
    let mut moves = Vec::new();
    gen_moves(&Board::from_fen(fen).unwrap(), &mut moves);
    assert_eq!(moves.len(), 0);
    let fen = "k7/8/8/8/8/8/6r1/5n1K w - - 0 1";
    let mut moves = Vec::new();
    gen_moves(&Board::from_fen(fen).unwrap(), &mut moves);
    assert_eq!(moves.iter().map(|m| m.to_string()).collect::<Vec<_>>(), vec!["h1g2"]);
    for depth in 1..=4 {
        let mut b = Board::from_fen(fen).unwrap();
        assert_eq!(ai_move(&mut b, depth, None).unwrap().to_string(), "h1g2");
        assert_eq!(b.to_fen(), fen);
    }
    // with a time limit of nothing, too
    let mut b = Board::from_fen(fen).unwrap();
    assert_eq!(ai_move(&mut b, 3, Some(0)).unwrap().to_string(), "h1g2");
}

#[test]
fn no_move_without_depth_or_without_legal_moves() {
    let mut b = Board::from_fen("rnbqkbnr/pppppppp/8/8/8/8/PPPPPPPP/RNBQKBNR w KQkq - 0 1").unwrap();
    assert!(ai_move(&mut b, 0, None).is_none());
    assert!(ai_move(&mut b, -3, None).is_none());
    let mut mated = Board::from_fen("4R1k1/5ppp/8/8/8/8/5PPP/6K1 b - - 1 1").unwrap();
    let r = search_root(&mut mated, 3, None);
    assert!(r.best_move.is_none());
    assert_eq!(r.score, 0);
    let mut stale = Board::from_fen("7k/5Q2/6K1/8/8/8/8/8 b - - 0 1").unwrap();
    assert!(ai_move(&mut stale, 3, None).is_none());
}

#[test]
fn search_wins_material() {
    // the queen hangs
    let mut b = Board::from_fen("4k3/8/8/3q4/8/8/8/3RK3 w - - 0 1").unwrap();
    let r = search_root(&mut b, 2, None);
    assert_eq!(r.best_move.unwrap().to_string(), "d1d5");
    assert_eq!(r.score, 20000 + 500 - 20000);
}

#[test]
fn search_returns_a_legal_move_and_restores_the_board() {
    let fen = "r3k2r/p1ppqpb1/bn2pnp1/3PN3/1p2P3/2N2Q1p/PPPBBPPP/R3K2R w KQkq - 0 1";
    let mut b = Board::from_fen(fen).unwrap();
    let m = ai_move(&mut b, 2, None).unwrap();
    assert_eq!(b.to_fen(), fen);
    assert_eq!(b.history_len(), 0);
    let mut moves = Vec::new();
    gen_moves(&b, &mut moves);
    assert!(moves.iter().any(|x| x.from == m.from && x.to == m.to && x.promotion == m.promotion));
}

#[test]
fn stalemate_scores_zero_and_mate_scores_by_ply() {
    assert_eq!(no_move_score(false, 3), 0);
    assert_eq!(no_move_score(true, 0), -100000);
    assert_eq!(no_move_score(true, 3), -99997);
}

#[test]
fn node_classification() {
    assert_eq!(classify_node(5, 5, 10), NodeType::UpperBound);
    assert_eq!(classify_node(4, 5, 10), NodeType::UpperBound);
    assert_eq!(classify_node(10, 5, 10), NodeType::LowerBound);
    assert_eq!(classify_node(11, 5, 10), NodeType::LowerBound);
    assert_eq!(classify_node(6, 5, 10), NodeType::Exact);
}

#[test]
fn promotion_ids() {
    assert_eq!(piece_to_promo_id(None), 0);
    assert_eq!(piece_to_promo_id(Some(Piece::WQ)), 1);
    assert_eq!(piece_to_promo_id(Some(Piece::BQ)), 1);
    assert_eq!(piece_to_promo_id(Some(Piece::WR)), 2);
    assert_eq!(piece_to_promo_id(Some(Piece::BB)), 3);
    assert_eq!(piece_to_promo_id(Some(Piece::BN)), 4);
    assert_eq!(piece_to_promo_id(Some(Piece::WK)), 0);
    assert_eq!(piece_from_promo_id(0), None);
    assert_eq!(piece_from_promo_id(1), Some(Piece::WQ));
    assert_eq!(piece_from_promo_id(2), Some(Piece::WR));
    assert_eq!(piece_from_promo_id(3), Some(Piece::WB));
    assert_eq!(piece_from_promo_id(4), Some(Piece::WN));
    assert_eq!(piece_from_promo_id(5), None);
}

#[test]
fn moves_are_ordered_hint_captures_quiets() {
    let b = Board::from_fen("4k3/8/8/3p1p2/4P3/8/8/4K3 w - - 0 1").unwrap();
    let moves = vec![
        Move { from: 0x04, to: 0x03, promotion: None }, // Kd1
        Move { from: 0x34, to: 0x43, promotion: None }, // exd5
        Move { from: 0x34, to: 0x44, promotion: None }, // e5
        Move { from: 0x34, to: 0x45, promotion: None }, // exf5
        Move { from: 0x04, to: 0x05, promotion: None }, // Kf1
    ];
    let names = |v: Vec<Move>| v.iter().map(|m| m.to_string()).collect::<Vec<_>>();
    assert_eq!(
        names(order_moves(&b, &moves, None)),
        vec!["e4d5", "e4f5", "e1d1", "e4e5", "e1f1"]
    );
    let hint = Move { from: 0x34, to: 0x44, promotion: Some(Piece::WQ) };
    assert_eq!(
        names(order_moves(&b, &moves, Some(hint))),
        vec!["e4e5", "e4d5", "e4f5", "e1d1", "e1f1"]
    );
    let absent = Move { from: 0x00, to: 0x01, promotion: None };
    assert_eq!(
        names(order_moves(&b, &moves, Some(absent))),
        vec!["e4d5", "e4f5", "e1d1", "e4e5", "e1f1"]
    );
}

#[test]
fn depth_one_takes_what_is_worth_most_after_the_recapture() {
    // the rook takes the queen: 500 up against the lone king
    let mut b = Board::from_fen("4k3/8/8/3q4/8/8/8/3RK3 w - - 0 1").unwrap();
    let r = search_root(&mut b, 1, None);
    assert_eq!(r.best_move.unwrap().to_string(), "d1d5");
    assert_eq!(r.score, 500);
    // the pawn is defended: taking it loses the rook for a pawn, so a quiet move is best
    let mut b = Board::from_fen("4k3/8/2p5/3p4/8/8/8/3RK3 w - - 0 1").unwrap();
    let r = search_root(&mut b, 1, None);
    assert_ne!(r.best_move.unwrap().to_string(), "d1d5");
    assert_eq!(r.score, 500 - 200);
}

#[test]
fn a_passed_time_limit_ends_the_search_after_the_first_move() {
    // a mate in one that a search without time finds
    let fen = "6k1/5ppp/8/8/8/8/5PPP/4R1K1 w - - 0 1";
    let mut b = Board::from_fen(fen).unwrap();
    let m = ai_move(&mut b, 2, Some(0)).unwrap();
    assert_eq!(m.to_string(), "e1e2");
    assert_eq!(b.to_fen(), fen);
}

#[test]
fn a_score_beyond_the_window_is_not_a_move() {
    // one legal move, but 52 enemy kings outweigh the window of the root
    let fen = "kkkkkkkk/kkkkkkkk/kkkkkkkk/kkkkkkkk/kkkkkkkk/2kkkkkk/2kkkkkk/K7 w - - 0 1";
    let b = Board::from_fen(fen).unwrap();
    let mut moves = Vec::new();
    gen_moves(&b, &mut moves);
    assert_eq!(moves.iter().map(|m| m.to_string()).collect::<Vec<_>>(), vec!["a1a2"]);
    assert!(rust_chess_engine::search::can_search(&b, 1));
    let mut b = Board::from_fen(fen).unwrap();
    assert!(ai_move(&mut b, 1, None).is_none());
}

#[test]
fn a_limit_is_reached_when_the_time_is_not_below_it() {
    use_limit(0, Some(0), true);
    use_limit(499, Some(500), false);
    use_limit(500, Some(500), true);
    use_limit(501, Some(500), true);
    use_limit(u128::MAX, Some(u64::MAX), true);
    use_limit(0, None, false);
    use_limit(u128::MAX, None, false);
}

fn use_limit(passed: u128, limit: Option<u64>, expected: bool) {
    assert_eq!(rust_chess_engine::search::limit_reached(passed, limit), expected);
}

#[test]
fn key_clashes_are_found() {
    // e1e8 mates; the other moves do not
    let b = Board::from_fen("6k1/5ppp/8/8/8/8/5PPP/4R1K1 w - - 0 1").unwrap();
    let keys = Zobrist::new();
    assert!(keys_do_not_clash(&b, &keys));
    assert!(keys_do_not_clash(&b, &Zobrist::with_seed(7)));
    // with every key the same, all positions have one key
    let mut flat = Zobrist::new();
    flat.pieces = [[0; 12]; 128];
    flat.side = 0;
    flat.castling = [0; 16];
    flat.ep_file = [0; 8];
    flat.ep_square = [0; 128];
    assert!(!keys_do_not_clash(&b, &flat));
    // no move mates, so nothing can clash
    let quiet = Board::from_fen("4k3/8/8/8/8/8/8/4K3 w - - 0 1").unwrap();
    assert!(keys_do_not_clash(&quiet, &flat));
    assert!(keys_do_not_clash(&quiet, &keys));
    // the side to move has no move at all
    let mated = Board::from_fen("4R1k1/5ppp/8/8/8/8/5PPP/6K1 b - - 1 1").unwrap();
    assert!(keys_do_not_clash(&mated, &flat));
}
