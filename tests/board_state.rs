use chess_board::bits::next;
use chess_board::board::Board;
use chess_board::defs::{init_files, init_ranks, init_squares, Pieces, Sides};
use chess_board::display::{ascii_board, bitboards_to_ascii, put_character_on_square};
use chess_board::parse::algebraic_square_to_number;
use chess_board::state::GameState;

/// Checks the three agreements between bitboards, aggregates and lookup.
fn consistent(board: &Board) -> bool {
    for side in 0..2 {
        let union = board.pieces[side].iter().fold(0u64, |acc, b| acc | b);
        if union != board.side[side] {
            return false;
        }
    }
    for square in 0..64 {
        let mask = 1u64 << square;
        let mut holders = Vec::new();
        for side in 0..2 {
            for piece in 0..6 {
                if board.pieces[side][piece] & mask != 0 {
                    holders.push(piece);
                }
            }
        }
        match holders.len() {
            0 => {
                if board.piece_list[square] != Pieces::NONE {
                    return false;
                }
            }
            1 => {
                if board.piece_list[square] != holders[0] {
                    return false;
                }
            }
            _ => return false,
        }
    }
    true
}

#[test]
fn new_board_is_empty() {
    let board = Board::new();
    assert_eq!(board.pieces, [[0u64; 6]; 2]);
    assert_eq!(board.side, [0u64; 2]);
    assert!(board.piece_list.iter().all(|&p| p == Pieces::NONE));
    assert_eq!(board.game_state, GameState::new());
    assert!(consistent(&board));
}

#[test]
fn fresh_game_state() {
    let gs = GameState::new();
    assert_eq!(gs.active_color, 0);
    assert_eq!(gs.castling_rights, 0);
    assert_eq!(gs.halfmove_clock, 0);
    assert_eq!(gs.en_passant, None);
    assert_eq!(gs.fullmove_number, 0);
}

#[test]
fn put_piece_records_square_not_side() {
    let mut board = Board::new();
    board.put_piece(Sides::BLACK, Pieces::KNIGHT, 10);
    assert_eq!(board.pieces[Sides::BLACK][Pieces::KNIGHT], 1u64 << 10);
    assert_eq!(board.side[Sides::BLACK], 1u64 << 10);
    assert_eq!(board.side[Sides::WHITE], 0);
    assert_eq!(board.piece_list[10], Pieces::KNIGHT);
    assert_eq!(board.piece_list[Sides::BLACK], Pieces::NONE);
    assert!(consistent(&board));
}

#[test]
fn remove_piece_clears_all_views() {
    let mut board = Board::new();
    board.put_piece(Sides::WHITE, Pieces::ROOK, 0);
    board.put_piece(Sides::WHITE, Pieces::KING, 4);
    board.remove_piece(Sides::WHITE, Pieces::ROOK, 0);
    assert_eq!(board.pieces[Sides::WHITE][Pieces::ROOK], 0);
    assert_eq!(board.side[Sides::WHITE], 1u64 << 4);
    assert_eq!(board.piece_list[0], Pieces::NONE);
    assert_eq!(board.piece_list[4], Pieces::KING);
    assert!(consistent(&board));
}

#[test]
fn move_piece_relocates() {
    let mut board = Board::new();
    assert!(board.fen_setup(None).is_ok());
    board.move_piece(Sides::WHITE, Pieces::PAWN, 12, 28);
    assert_eq!(board.piece_list[12], Pieces::NONE);
    assert_eq!(board.piece_list[28], Pieces::PAWN);
    assert_eq!(board.pieces[Sides::WHITE][Pieces::PAWN] & (1u64 << 12), 0);
    assert_ne!(board.pieces[Sides::WHITE][Pieces::PAWN] & (1u64 << 28), 0);
    assert_eq!(board.side[Sides::WHITE].count_ones(), 16);
    assert!(consistent(&board));
    board.move_piece(Sides::WHITE, Pieces::PAWN, 28, 28);
    assert_eq!(board.piece_list[28], Pieces::PAWN);
    assert!(consistent(&board));
}

#[test]
fn random_mutations_keep_views_consistent() {
    let mut board = Board::new();
    assert!(board.fen_setup(None).is_ok());
    let mut seed: u64 = 0x2545_F491_4F6C_DD1D;
    let mut step = || {
        seed ^= seed << 13;
        seed ^= seed >> 7;
        seed ^= seed << 17;
        seed
    };
    for _ in 0..2000 {
        let occupied: Vec<usize> = (0..64).filter(|&s| board.piece_list[s] != Pieces::NONE).collect();
        let empty: Vec<usize> = (0..64).filter(|&s| board.piece_list[s] == Pieces::NONE).collect();
        let choice = step() % 3;
        if choice == 0 && !empty.is_empty() {
            let square = empty[(step() % empty.len() as u64) as usize];
            let side = (step() % 2) as usize;
            let piece = (step() % 6) as usize;
            board.put_piece(side, piece, square);
        } else if !occupied.is_empty() {
            let from = occupied[(step() % occupied.len() as u64) as usize];
            let piece = board.piece_list[from];
            let side = if board.side[Sides::WHITE] & (1u64 << from) != 0 { 0 } else { 1 };
            if choice == 1 || empty.is_empty() {
                board.remove_piece(side, piece, from);
            } else {
                let to = empty[(step() % empty.len() as u64) as usize];
                board.move_piece(side, piece, from, to);
            }
        }
        assert!(consistent(&board));
    }
}

#[test]
fn metadata_setters() {
    let mut board = Board::new();
    board.set_en_passant(20);
    assert_eq!(board.game_state.en_passant, Some(20));
    board.clear_en_passant();
    assert_eq!(board.game_state.en_passant, None);
    board.swap_side();
    assert_eq!(board.game_state.active_color, 1);
    board.swap_side();
    assert_eq!(board.game_state.active_color, 0);
    board.update_castling_permissions(9);
    assert_eq!(board.game_state.castling_rights, 9);
    board.update_castling_permissions(2);
    assert_eq!(board.game_state.castling_rights, 2);
}

#[test]
fn next_takes_lowest_bit() {
    let mut bb: u64 = 0b1010_0000;
    assert_eq!(next(&mut bb), 5);
    assert_eq!(bb, 0b1000_0000);
    assert_eq!(next(&mut bb), 7);
    assert_eq!(bb, 0);
    let mut top: u64 = 1u64 << 63;
    assert_eq!(next(&mut top), 63);
    assert_eq!(top, 0);
}

#[test]
fn board_masks() {
    let files = init_files();
    assert_eq!(files[0], 0x0101_0101_0101_0101);
    assert_eq!(files[7], 0x8080_8080_8080_8080);
    let ranks = init_ranks();
    assert_eq!(ranks[0], 0xFF);
    assert_eq!(ranks[7], 0xFF00_0000_0000_0000);
    let squares = init_squares();
    assert_eq!(squares[0], 1);
    assert_eq!(squares[63], 1u64 << 63);
    assert_eq!(squares[28], 1u64 << 28);
}

#[test]
fn square_names() {
    assert_eq!(algebraic_square_to_number("a1"), Some(0));
    assert_eq!(algebraic_square_to_number("e4"), Some(28));
    assert_eq!(algebraic_square_to_number("h8"), Some(63));
    assert_eq!(algebraic_square_to_number("d3"), Some(19));
    assert_eq!(algebraic_square_to_number("E4"), None);
    assert_eq!(algebraic_square_to_number("e44"), None);
    assert_eq!(algebraic_square_to_number("i1"), None);
    assert_eq!(algebraic_square_to_number(""), None);
}

#[test]
fn ascii_of_start_position() {
    let mut board = Board::new();
    assert!(board.fen_setup(None).is_ok());
    let ascii = ascii_board(&board);
    assert_eq!(ascii[0], 'R');
    assert_eq!(ascii[4], 'K');
    assert_eq!(ascii[3], 'Q');
    assert_eq!(ascii[8], 'p');
    assert_eq!(ascii[48], 'p');
    assert_eq!(ascii[60], 'k');
    assert_eq!(ascii[62], 'n');
    assert_eq!(ascii[28], '.');
    let mut drawn = ['x'; 64];
    bitboards_to_ascii(&board, &mut drawn);
    assert_eq!(drawn[28], 'x');
    assert_eq!(drawn[58], 'b');
}

#[test]
fn character_on_set_squares_only() {
    let mut squares = ['.'; 64];
    put_character_on_square(0b101, &mut squares, 'Q');
    assert_eq!(squares[0], 'Q');
    assert_eq!(squares[1], '.');
    assert_eq!(squares[2], 'Q');
    assert_eq!(squares[3], '.');
}
