//! Shared definitions: index types, board dimensions, piece and side numbering,
//! castling flags and the bitboard masks of files, ranks and squares.
use vstd::prelude::*;

verus! {

pub type Bitboard = u64;

pub type Side = usize;

pub type Piece = usize;

pub type Square = usize;

pub const EMPTY: u64 = 0;

pub const MAX_GAME_MOVES: usize = 2048;

pub const MAX_LEGAL_MOVES: u8 = 255;

pub const MAX_PLY: i8 = 125;

pub const MAX_MOVE_RULE: u8 = 100;

pub const FEN_START_POSITION: &'static str = "rnbqkbnr/pppppppp/8/8/8/8/PPPPPPPP/RNBQKBNR w KQkq - 0 1";

pub struct Sides;

impl Sides {
    pub const WHITE: Side = 0;
    pub const BLACK: Side = 1;
    pub const BOTH: Side = 2;
}

pub struct Constants;

impl Constants {
    pub const PIECE_TYPES: usize = 6;
    pub const CASTLING_PERMISSIONS: usize = 16;
    pub const SQUARES: usize = 64;
    pub const FILES: usize = 8;
    pub const RANKS: usize = 8;
}

pub struct CastlingRights;

impl CastlingRights {
    pub const WHITE_KING: u8 = 1;
    pub const WHITE_QUEEN: u8 = 2;
    pub const BLACK_KING: u8 = 4;
    pub const BLACK_QUEEN: u8 = 8;
    pub const ALL: u8 = 15;
}

pub struct Files;

impl Files {
    pub const A: usize = 0;
    pub const B: usize = 1;
    pub const G: usize = 6;
    pub const H: usize = 7;
}

pub struct Ranks;

impl Ranks {
    pub const R1: usize = 0;
    pub const R2: usize = 1;
    pub const R4: usize = 3;
    pub const R5: usize = 4;
    pub const R7: usize = 6;
    pub const R8: usize = 7;
}

pub struct Squares;

impl Squares {
    pub const A1: Square = 0;
    pub const B1: Square = 1;
    pub const C1: Square = 2;
    pub const D1: Square = 3;
    pub const E1: Square = 4;
    pub const F1: Square = 5;
    pub const G1: Square = 6;
    pub const H1: Square = 7;
    pub const A8: Square = 56;
    pub const B8: Square = 57;
    pub const C8: Square = 58;
    pub const D8: Square = 59;
    pub const E8: Square = 60;
    pub const F8: Square = 61;
    pub const G8: Square = 62;
    pub const H8: Square = 63;
    pub const A3: Square = 16;
    pub const H3: Square = 23;
    pub const A6: Square = 40;
    pub const H6: Square = 47;
}

/// Inclusive bounds of the rank, file and square index ranges.
pub struct RangeOf;

impl RangeOf {
    pub const RANK_FIRST: u8 = 0;
    pub const RANK_LAST: u8 = 7;
    pub const FILE_FIRST: u8 = 0;
    pub const FILE_LAST: u8 = 7;
    pub const SQUARE_FIRST: Square = 0;
    pub const SQUARE_LAST: Square = 63;
}

pub struct Pieces;

impl Pieces {
    pub const KING: Piece = 0;
    pub const QUEEN: Piece = 1;
    pub const ROOK: Piece = 2;
    pub const BISHOP: Piece = 3;
    pub const KNIGHT: Piece = 4;
    pub const PAWN: Piece = 5;
    pub const NONE: Piece = 6;
}

/// Whether square `i` is set in `b`.
pub open spec fn has_bit(b: u64, i: int) -> bool {
    0 <= i < 64 && (b >> (i as u64)) & 1u64 == 1u64
}

/// The mask of file `f`: one bit on each rank.
pub open spec fn file_mask(f: int) -> u64 {
    (0x0101_0101_0101_0101u64 << (f as u64)) as u64
}

/// The mask of rank `r`: eight consecutive bits.
pub open spec fn rank_mask(r: int) -> u64 {
    (0xFFu64 << ((r * 8) as u64)) as u64
}

/// The mask of the single square `s`.
pub open spec fn square_mask(s: int) -> u64 {
    (1u64 << (s as u64)) as u64
}

/// The masks of the eight files, file A first.
pub fn init_files() -> (files: [Bitboard; 8])
    ensures
        forall|f: int| 0 <= f < 8 ==> #[trigger] files@[f] == file_mask(f),
{
    let file_a: Bitboard = 0x0101_0101_0101_0101;
    let mut files: [Bitboard; 8] = [0; 8];
    let mut i: usize = 0;
    while i < Constants::FILES
        invariant
            i <= 8,
            file_a == 0x0101_0101_0101_0101u64,
            forall|f: int| 0 <= f < i ==> #[trigger] files@[f] == file_mask(f),
        decreases 8 - i,
    {
        files[i] = file_a << (i as u64);
        i += 1;
    }
    files
}

/// The masks of the eight ranks, rank 1 first.
pub fn init_ranks() -> (ranks: [Bitboard; 8])
    ensures
        forall|r: int| 0 <= r < 8 ==> #[trigger] ranks@[r] == rank_mask(r),
{
    let rank_1: Bitboard = 0xFF;
    let mut ranks: [Bitboard; 8] = [0; 8];
    let mut i: usize = 0;
    while i < Constants::RANKS
        invariant
            i <= 8,
            rank_1 == 0xFFu64,
            forall|r: int| 0 <= r < i ==> #[trigger] ranks@[r] == rank_mask(r),
        decreases 8 - i,
    {
        ranks[i] = rank_1 << ((i * 8) as u64);
        i += 1;
    }
    ranks
}

/// The single-bit masks of the 64 squares, a1 first.
pub fn init_squares() -> (squares: [Bitboard; 64])
    ensures
        forall|s: int| 0 <= s < 64 ==> #[trigger] squares@[s] == square_mask(s),
{
    let mut squares: [Bitboard; 64] = [0; 64];
    let mut i: usize = 0;
    while i < Constants::SQUARES
        invariant
            i <= 64,
            forall|s: int| 0 <= s < i ==> #[trigger] squares@[s] == square_mask(s),
        decreases 64 - i,
    {
        squares[i] = 1u64 << i;
        i += 1;
    }
    squares
}

} // verus!
