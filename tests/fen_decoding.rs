use chess_board::board::Board;
use chess_board::defs::{CastlingRights, Pieces, Sides, Squares, FEN_START_POSITION};
use chess_board::fen::{split_fen_string, FenError};

const BASE: &str = "r3k2r/pppq1ppp/2n1bn2/3pp3/3PP3/2N1BN2/PPPQ1PPP/R3K2R b Kq d3 7 12";

fn same_board(a: &Board, b: &Board) -> bool {
    a.pieces == b.pieces
        && a.side == b.side
        && a.piece_list == b.piece_list
        && a.game_state == b.game_state
}

fn decoded(fen: &str) -> Board {
    let mut board = Board::new();
    assert!(board.fen_setup(Some(fen)).is_ok(), "refused: {fen}");
    board
}

fn error_of(fen: &str) -> FenError {
    let mut board = Board::new();
    match board.fen_setup(Some(fen)) {
        Ok(()) => panic!("accepted: {fen}"),
        Err(e) => e,
    }
}

fn on(board: &Board, side: usize, piece: usize, square: usize) -> bool {
    board.pieces[side][piece] & (1u64 << square) != 0
}

#[test]
fn start_position_counts() {
    let mut board = Board::new();
    assert!(board.fen_setup(None).is_ok());
    assert_eq!(board.side[Sides::WHITE].count_ones(), 16);
    assert_eq!(board.side[Sides::BLACK].count_ones(), 16);
    let filled = board.piece_list.iter().filter(|&&p| p != Pieces::NONE).count();
    assert_eq!(filled, 32);
    assert_eq!(board.piece_list[Squares::A1], Pieces::ROOK);
    assert!(on(&board, Sides::WHITE, Pieces::ROOK, Squares::A1));
    assert_eq!(board.piece_list[Squares::E1], Pieces::KING);
    assert!(on(&board, Sides::WHITE, Pieces::KING, Squares::E1));
    assert_eq!(board.piece_list[Squares::E8], Pieces::KING);
    assert!(on(&board, Sides::BLACK, Pieces::KING, Squares::E8));
    assert_eq!(board.piece_list[Squares::D8], Pieces::QUEEN);
    assert!(on(&board, Sides::BLACK, Pieces::QUEEN, Squares::D8));
    assert_eq!(board.piece_list[28], Pieces::NONE);
    assert_eq!(board.game_state.active_color, 0);
    assert_eq!(board.game_state.castling_rights, CastlingRights::ALL);
    assert_eq!(board.game_state.en_passant, None);
    assert_eq!(board.game_state.halfmove_clock, 0);
    assert_eq!(board.game_state.fullmove_number, 1);
}

#[test]
fn start_position_by_text_matches_default() {
    let by_text = decoded(FEN_START_POSITION);
    let mut by_default = Board::new();
    assert!(by_default.fen_setup(None).is_ok());
    assert!(same_board(&by_text, &by_default));
}

#[test]
fn decodes_a_middlegame_position() {
    let board = decoded(BASE);
    assert_eq!(board.game_state.active_color, 1);
    assert_eq!(
        board.game_state.castling_rights,
        CastlingRights::WHITE_KING | CastlingRights::BLACK_QUEEN
    );
    assert_eq!(board.game_state.en_passant, Some(19));
    assert_eq!(board.game_state.halfmove_clock, 7);
    assert_eq!(board.game_state.fullmove_number, 12);
    assert!(on(&board, Sides::BLACK, Pieces::QUEEN, 51));
    assert!(on(&board, Sides::WHITE, Pieces::KNIGHT, 18));
    assert!(on(&board, Sides::WHITE, Pieces::PAWN, 27));
    assert_eq!(board.piece_list[27], Pieces::PAWN);
    assert_eq!(board.piece_list[35], Pieces::PAWN);
    assert_eq!(board.side[Sides::WHITE].count_ones(), 15);
    assert_eq!(board.side[Sides::BLACK].count_ones(), 15);
}

#[test]
fn failed_decoding_leaves_board_untouched() {
    let bad = [
        ("8/8/8/8/8/8/8/8 w - - 0", FenError::IncorrectLength),
        ("8/8/8/8/8/8/8/8", FenError::IncorrectLength),
        ("7/8/8/8/8/8/8/8 w - - 0 1", FenError::PieceSquareError),
        ("rnbqkbnx/8/8/8/8/8/8/8 w - - 0 1", FenError::PieceSquareError),
        ("8/8/8/8/8/8/8/8 x - - 0 1", FenError::ColorError),
        ("8/8/8/8/8/8/8/8 w KQkqK - 0 1", FenError::CastlingError),
        ("8/8/8/8/8/8/8/8 w X - 0 1", FenError::CastlingError),
        ("8/8/8/8/8/8/8/8 w - e4 0 1", FenError::EnPassantError),
        ("8/8/8/8/8/8/8/8 w - - 101 1", FenError::HalfMoveClockError),
        ("8/8/8/8/8/8/8/8 w - - 0 2049", FenError::FullMoveNumberError),
    ];
    for (fen, expected) in bad {
        let mut board = decoded(BASE);
        let before = board;
        assert_eq!(board.fen_setup(Some(fen)), Err(expected), "{fen}");
        assert!(same_board(&board, &before), "{fen}");
    }
}

#[test]
fn four_fields_get_default_counters() {
    let board = decoded("8/8/8/8/8/8/8/8 w - -");
    assert_eq!(board.game_state.halfmove_clock, 0);
    assert_eq!(board.game_state.fullmove_number, 1);
    let full = decoded("8/8/8/8/8/8/8/8 w - - 0 1");
    assert!(same_board(&board, &full));
}

#[test]
fn five_fields_are_refused() {
    assert_eq!(error_of("8/8/8/8/8/8/8/8 w - - 0"), FenError::IncorrectLength);
    assert_eq!(error_of("8/8/8/8/8/8/8/8 w - - 0 1 2"), FenError::IncorrectLength);
    assert_eq!(error_of("8/8/8/8/8/8/8/8  w - - 0 1"), FenError::IncorrectLength);
    assert_eq!(error_of(""), FenError::IncorrectLength);
}

#[test]
fn short_rank_before_separator_is_refused() {
    assert_eq!(error_of("7/8/8/8/8/8/8/8 w - - 0 1"), FenError::PieceSquareError);
    assert_eq!(error_of("8/8/8/pppp3/8/8/8/8 w - - 0 1"), FenError::PieceSquareError);
}

#[test]
fn long_rank_is_refused() {
    assert_eq!(error_of("8p/8/8/8/8/8/8/8 w - - 0 1"), FenError::PieceSquareError);
    assert_eq!(error_of("72/8/8/8/8/8/8/8 w - - 0 1"), FenError::PieceSquareError);
    assert_eq!(error_of("8/8/8/8/8/8/8/8/8 w - - 0 1"), FenError::PieceSquareError);
}

#[test]
fn unknown_placement_character_is_refused() {
    assert_eq!(error_of("8/8/8/8/9/8/8/8 w - - 0 1"), FenError::PieceSquareError);
    assert_eq!(error_of("8/8/8/8/0/8/8/8 w - - 0 1"), FenError::PieceSquareError);
}

#[test]
fn en_passant_rank_is_enforced() {
    assert_eq!(error_of("8/8/8/8/8/8/8/8 w - e4 0 1"), FenError::EnPassantError);
    assert_eq!(decoded("8/8/8/8/8/8/8/8 w - e3 0 1").game_state.en_passant, Some(20));
    assert_eq!(decoded("8/8/8/8/8/8/8/8 b - e6 0 1").game_state.en_passant, Some(44));
    assert_eq!(error_of("8/8/8/8/8/8/8/8 w - E3 0 1"), FenError::EnPassantError);
    assert_eq!(error_of("8/8/8/8/8/8/8/8 w - e33 0 1"), FenError::EnPassantError);
    assert_eq!(error_of("8/8/8/8/8/8/8/8 w - -- 0 1"), FenError::EnPassantError);
}

#[test]
fn clock_boundaries() {
    assert_eq!(decoded("8/8/8/8/8/8/8/8 w - - 100 1").game_state.halfmove_clock, 100);
    assert_eq!(error_of("8/8/8/8/8/8/8/8 w - - 101 1"), FenError::HalfMoveClockError);
    assert_eq!(error_of("8/8/8/8/8/8/8/8 w - - 0100 1"), FenError::HalfMoveClockError);
    assert_eq!(error_of("8/8/8/8/8/8/8/8 w - - 1a 1"), FenError::HalfMoveClockError);
    assert_eq!(decoded("8/8/8/8/8/8/8/8 w - - 0 2048").game_state.fullmove_number, 2048);
    assert_eq!(error_of("8/8/8/8/8/8/8/8 w - - 0 2049"), FenError::FullMoveNumberError);
    assert_eq!(error_of("8/8/8/8/8/8/8/8 w - - 0 02048"), FenError::FullMoveNumberError);
    assert_eq!(decoded("8/8/8/8/8/8/8/8 w - - 0 0999").game_state.fullmove_number, 999);
}

#[test]
fn color_field() {
    assert_eq!(decoded("8/8/8/8/8/8/8/8 w - - 0 1").game_state.active_color, 0);
    assert_eq!(decoded("8/8/8/8/8/8/8/8 b - - 0 1").game_state.active_color, 1);
    assert_eq!(error_of("8/8/8/8/8/8/8/8 wb - - 0 1"), FenError::ColorError);
    assert_eq!(error_of("8/8/8/8/8/8/8/8 W - - 0 1"), FenError::ColorError);
}

#[test]
fn castling_field() {
    assert_eq!(decoded("8/8/8/8/8/8/8/8 w - - 0 1").game_state.castling_rights, 0);
    assert_eq!(decoded("8/8/8/8/8/8/8/8 w Qk - 0 1").game_state.castling_rights, 6);
    assert_eq!(decoded("8/8/8/8/8/8/8/8 w KK - 0 1").game_state.castling_rights, 1);
    assert_eq!(decoded("8/8/8/8/8/8/8/8 w q - 0 1").game_state.castling_rights, 8);
    assert_eq!(error_of("8/8/8/8/8/8/8/8 w KQkqq - 0 1"), FenError::CastlingError);
    assert_eq!(error_of("8/8/8/8/8/8/8/8 w Kx - 0 1"), FenError::CastlingError);
}

#[test]
fn em_dash_reads_as_dash() {
    let board = decoded("8/8/8/8/8/8/8/8 w \u{2014} \u{2014} 0 1");
    assert_eq!(board.game_state.castling_rights, 0);
    assert_eq!(board.game_state.en_passant, None);
}

#[test]
fn error_messages() {
    assert_eq!(FenError::IncorrectLength.message(), "Error in FEN string: Must be 6 parts");
    assert_eq!(FenError::PieceSquareError.message(), "Error in FEN string: Pieces or squares");
    assert_eq!(FenError::ColorError.message(), "Error in FEN string: Colors");
    assert_eq!(FenError::CastlingError.message(), "Error in FEN string: Castling rights");
    assert_eq!(FenError::EnPassantError.message(), "Error in FEN string: En passant field");
    assert_eq!(FenError::HalfMoveClockError.message(), "Error in FEN string: Half-move clock");
    assert_eq!(FenError::FullMoveNumberError.message(), "Error in FEN string: Full-move number");
}

#[test]
fn split_pads_four_fields() {
    let fields = split_fen_string(Some("8/8/8/8/8/8/8/8 w - -")).ok().unwrap();
    let expected: Vec<Vec<char>> = ["8/8/8/8/8/8/8/8", "w", "-", "-", "0", "1"]
        .iter()
        .map(|f| f.chars().collect())
        .collect();
    assert_eq!(fields, expected);
    assert_eq!(
        split_fen_string(Some("8/8/8/8/8/8/8/8 w - - 0")),
        Err(FenError::IncorrectLength)
    );
}
