//! The character board drawn from the bitboards, one character per square.
use vstd::prelude::*;
use crate::board::{Board, bb_of};
use crate::defs::{Bitboard, Sides, has_bit};

verus! {

pub const CHAR_ES: char = '.';

/// The character of `piece` for `side`: capitals for white, but pawns are
/// `p` for both sides.
pub open spec fn piece_char(side: int, piece: int) -> char {
    if side == 0 {
        if piece == 0 {
            'K'
        } else if piece == 1 {
            'Q'
        } else if piece == 2 {
            'R'
        } else if piece == 3 {
            'B'
        } else if piece == 4 {
            'N'
        } else {
            'p'
        }
    } else {
        if piece == 0 {
            'k'
        } else if piece == 1 {
            'q'
        } else if piece == 2 {
            'r'
        } else if piece == 3 {
            'b'
        } else if piece == 4 {
            'n'
        } else {
            'p'
        }
    }
}

/// The character on square `i` after drawing the first `n` piece types over
/// `c0`, white before black within a type.
pub open spec fn drawn_upto(pieces: [[Bitboard; 6]; 2], c0: char, i: int, n: int) -> char
    decreases n,
{
    if n <= 0 {
        c0
    } else if has_bit(bb_of(pieces, 1, n - 1), i) {
        piece_char(1, n - 1)
    } else if has_bit(bb_of(pieces, 0, n - 1), i) {
        piece_char(0, n - 1)
    } else {
        drawn_upto(pieces, c0, i, n - 1)
    }
}

fn piece_character(side: usize, piece: usize) -> (c: char)
    requires
        side < 2,
        piece < 6,
    ensures
        c == piece_char(side as int, piece as int),
{
    if side == Sides::WHITE {
        match piece {
            0 => 'K',
            1 => 'Q',
            2 => 'R',
            3 => 'B',
            4 => 'N',
            _ => 'p',
        }
    } else {
        match piece {
            0 => 'k',
            1 => 'q',
            2 => 'r',
            3 => 'b',
            4 => 'n',
            _ => 'p',
        }
    }
}

/// Writes `character` on every square set in `bitboard`.
pub fn put_character_on_square(bitboard: Bitboard, ascii_board: &mut [char; 64], character: char)
    ensures
        forall|i: int|
            0 <= i < 64 ==> #[trigger] final(ascii_board)@[i] == if has_bit(bitboard, i) {
                character
            } else {
                old(ascii_board)@[i]
            },
{
    let ghost start = *ascii_board;
    let mut i: usize = 0;
    while i < 64
        invariant
            i <= 64,
            forall|k: int|
                0 <= k < 64 ==> #[trigger] ascii_board@[k] == if k < i && has_bit(bitboard, k) {
                    character
                } else {
                    start@[k]
                },
        decreases 64 - i,
    {
        if (bitboard >> i) & 1 == 1 {
            ascii_board[i] = character;
        }
        i += 1;
    }
}

/// Draws every piece of `board` on `ascii_board`; other squares keep their
/// character.
pub fn bitboards_to_ascii(board: &Board, ascii_board: &mut [char; 64])
    ensures
        forall|i: int|
            0 <= i < 64 ==> #[trigger] final(ascii_board)@[i] == drawn_upto(
                board.pieces,
                old(ascii_board)@[i],
                i,
                6,
            ),
{
    let ghost start = *ascii_board;
    let bb_w = board.pieces[Sides::WHITE];
    let bb_b = board.pieces[Sides::BLACK];
    let mut piece: usize = 0;
    while piece < 6
        invariant
            piece <= 6,
            bb_w == board.pieces@[0],
            bb_b == board.pieces@[1],
            forall|i: int|
                0 <= i < 64 ==> #[trigger] ascii_board@[i] == drawn_upto(
                    board.pieces,
                    start@[i],
                    i,
                    piece as int,
                ),
        decreases 6 - piece,
    {
        put_character_on_square(bb_w[piece], ascii_board, piece_character(Sides::WHITE, piece));
        put_character_on_square(bb_b[piece], ascii_board, piece_character(Sides::BLACK, piece));
        piece += 1;
    }
}

/// The character board of `board`: `.` on empty squares.
pub fn ascii_board(board: &Board) -> (r: [char; 64])
    ensures
        forall|i: int|
            0 <= i < 64 ==> #[trigger] r@[i] == drawn_upto(board.pieces, CHAR_ES, i, 6),
{
    let mut r: [char; 64] = [CHAR_ES; 64];
    bitboards_to_ascii(board, &mut r);
    r
}

} // verus!
