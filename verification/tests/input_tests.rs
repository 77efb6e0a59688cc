use rust_chess_engine::board::Board;
use rust_chess_engine::input::{
    check_game_end, try_make_move, FenOutlineError, GameResult, InputValidator, MoveError, MoveTextError,
};
use rust_chess_engine::movegen::Move;
use rust_chess_engine::piece::Piece;

#[test]
fn test_input_validation() {
    assert!(InputValidator::validate_move("e2e4").is_ok());
    assert!(InputValidator::validate_move("e7e8q").is_ok());
    assert!(InputValidator::validate_move("a1h8").is_ok());
    assert!(InputValidator::validate_move("e2").is_err());
    assert!(InputValidator::validate_move("e2e9").is_err());
    assert!(InputValidator::validate_move("z1a1").is_err());
}

#[test]
fn test_square_validation() {
    assert!(InputValidator::is_valid_square("e2"));
    assert!(InputValidator::is_valid_square("a1"));
    assert!(InputValidator::is_valid_square("h8"));
    assert!(!InputValidator::is_valid_square("e9"));
    assert!(!InputValidator::is_valid_square("z1"));
    assert!(!InputValidator::is_valid_square("e"));
}

#[test]
fn move_text_parts_and_errors() {
    assert_eq!(
        InputValidator::validate_move("e2e4"),
        Ok(("e2".to_string(), "e4".to_string(), None))
    );
    assert_eq!(
        InputValidator::validate_move("  E7E8Q \n"),
        Ok(("e7".to_string(), "e8".to_string(), Some('q')))
    );
    assert_eq!(
        InputValidator::validate_move("a7a8nxyz"),
        Ok(("a7".to_string(), "a8".to_string(), Some('n')))
    );
    assert_eq!(InputValidator::validate_move(""), Err(MoveTextError::TooShort));
    assert_eq!(InputValidator::validate_move("e2e"), Err(MoveTextError::TooShort));
    assert_eq!(InputValidator::validate_move("i2e4"), Err(MoveTextError::InvalidSource));
    assert_eq!(InputValidator::validate_move("e0e4"), Err(MoveTextError::InvalidSource));
    assert_eq!(InputValidator::validate_move("e2e9"), Err(MoveTextError::InvalidDestination));
    assert_eq!(InputValidator::validate_move("e7e8k"), Err(MoveTextError::InvalidPromotion));
    assert_eq!(InputValidator::validate_move("e7e8 "), Ok(("e7".to_string(), "e8".to_string(), None)));
}

#[test]
fn fen_outline_check() {
    assert_eq!(
        InputValidator::validate_fen("rnbqkbnr/pppppppp/8/8/8/8/PPPPPPPP/RNBQKBNR w KQkq - 0 1"),
        Ok(())
    );
    assert_eq!(InputValidator::validate_fen(""), Err(FenOutlineError::Empty));
    assert_eq!(InputValidator::validate_fen("   \t"), Err(FenOutlineError::Empty));
    assert_eq!(InputValidator::validate_fen("8/8/8 w"), Err(FenOutlineError::RankCount));
    assert_eq!(InputValidator::validate_fen("8/8/8/8/8/8/8/8/8 w"), Err(FenOutlineError::RankCount));
    assert_eq!(InputValidator::validate_fen("8/8/8/8/8/8/8/8"), Ok(()));
}

#[test]
fn move_to_text() {
    assert_eq!(Move { from: 0x14, to: 0x34, promotion: None }.to_string(), "e2e4");
    assert_eq!(Move { from: 0x60, to: 0x70, promotion: Some(Piece::WQ) }.to_string(), "a7a8q");
    assert_eq!(Move { from: 0x17, to: 0x07, promotion: Some(Piece::BN) }.to_string(), "h2h1n");
    assert_eq!(Move { from: 0x08, to: 0x80, promotion: None }.to_string(), "????");
}

#[test]
fn illegal_move_leaves_the_board_as_it_was() {
    let mut board = Board::from_fen("rnbqkbnr/pppppppp/8/8/8/8/PPPPPPPP/RNBQKBNR w KQkq - 0 1").unwrap();
    let before = board.to_fen();
    assert_eq!(try_make_move(&mut board, "e2e5"), Err(MoveError::Illegal));
    assert_eq!(try_make_move(&mut board, "e7e5"), Err(MoveError::Illegal));
    assert_eq!(try_make_move(&mut board, "e2"), Err(MoveError::Text(MoveTextError::TooShort)));
    assert_eq!(
        try_make_move(&mut board, "e2x4"),
        Err(MoveError::Text(MoveTextError::InvalidDestination))
    );
    assert_eq!(board.to_fen(), before);
    assert_eq!(board.history_len(), 0);
    let m = try_make_move(&mut board, "e2e4").unwrap();
    assert_eq!((m.from, m.to, m.promotion), (0x14, 0x34, None));
    assert_eq!(board.to_fen(), "rnbqkbnr/pppppppp/8/8/4P3/8/PPPP1PPP/RNBQKBNR b KQkq e3 0 1");
}

#[test]
fn promotion_letter_names_a_piece_of_the_side_to_move() {
    let mut board = Board::from_fen("8/P7/8/8/8/8/8/k6K w - - 0 1").unwrap();
    let m = try_make_move(&mut board, "a7a8q").unwrap();
    assert_eq!(m.promotion, Some(Piece::WQ));
    assert_eq!(board.cells[0x70], Piece::WQ);
    let mut board = Board::from_fen("K6k/8/8/8/8/8/p7/8 b - - 0 1").unwrap();
    let m = try_make_move(&mut board, "a2a1r").unwrap();
    assert_eq!(m.promotion, Some(Piece::BR));
    assert_eq!(board.cells[0x00], Piece::BR);
    // a promotion needs its letter
    let mut board = Board::from_fen("8/P7/8/8/8/8/8/k6K w - - 0 1").unwrap();
    assert_eq!(try_make_move(&mut board, "a7a8"), Err(MoveError::Illegal));
}

#[test]
fn game_end_detection() {
    let start = Board::from_fen("rnbqkbnr/pppppppp/8/8/8/8/PPPPPPPP/RNBQKBNR w KQkq - 0 1").unwrap();
    assert_eq!(check_game_end(&start), None);
    // back-rank mate: black is mated
    let mated = Board::from_fen("4R1k1/5ppp/8/8/8/8/5PPP/6K1 b - - 1 1").unwrap();
    assert_eq!(check_game_end(&mated), Some(GameResult::WhiteWins));
    // fool's mate: white is mated
    let fool = Board::from_fen("rnb1kbnr/pppp1ppp/8/4p3/6Pq/5P2/PPPPP2P/RNBQKBNR w KQkq - 1 3").unwrap();
    assert_eq!(check_game_end(&fool), Some(GameResult::BlackWins));
    let stale = Board::from_fen("7k/5Q2/6K1/8/8/8/8/8 b - - 0 1").unwrap();
    assert_eq!(check_game_end(&stale), Some(GameResult::Stalemate));
    let fifty = Board::from_fen("4k3/8/8/8/8/8/8/R3K3 w - - 100 80").unwrap();
    assert_eq!(check_game_end(&fifty), Some(GameResult::Draw));
    let not_yet = Board::from_fen("4k3/8/8/8/8/8/8/R3K3 w - - 99 80").unwrap();
    assert_eq!(check_game_end(&not_yet), None);
}
