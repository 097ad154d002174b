//! FEN decoding: six field parsers run on a scratch board that replaces the
//! live board only when every field parses.
use vstd::prelude::*;
use crate::board::{Board, bb_of, lemma_bit_set, pieces_disjoint};
use crate::defs::{
    CastlingRights, FEN_START_POSITION, MAX_GAME_MOVES, MAX_MOVE_RULE, Squares, has_bit, square_mask,
};
use crate::parse::{chars_of, named_square, square_from_chars};
use crate::state::GameState;

verus! {

/// Why a FEN string was refused: the field count, or the field at fault.
#[derive(Debug, Clone, Copy, PartialEq, Eq, Structural)]
pub enum FenError {
    IncorrectLength,
    PieceSquareError,
    ColorError,
    CastlingError,
    EnPassantError,
    HalfMoveClockError,
    FullMoveNumberError,
}

/// The text shown for each error.
pub open spec fn error_text(e: FenError) -> Seq<char> {
    match e {
        FenError::IncorrectLength => "Error in FEN string: Must be 6 parts"@,
        FenError::PieceSquareError => "Error in FEN string: Pieces or squares"@,
        FenError::ColorError => "Error in FEN string: Colors"@,
        FenError::CastlingError => "Error in FEN string: Castling rights"@,
        FenError::EnPassantError => "Error in FEN string: En passant field"@,
        FenError::HalfMoveClockError => "Error in FEN string: Half-move clock"@,
        FenError::FullMoveNumberError => "Error in FEN string: Full-move number"@,
    }
}

impl FenError {
    /// A message for display, one per kind of error.
    pub fn message(&self) -> (r: &'static str)
        ensures
            r@ == error_text(*self),
    {
        match self {
            FenError::IncorrectLength => "Error in FEN string: Must be 6 parts",
            FenError::PieceSquareError => "Error in FEN string: Pieces or squares",
            FenError::ColorError => "Error in FEN string: Colors",
            FenError::CastlingError => "Error in FEN string: Castling rights",
            FenError::EnPassantError => "Error in FEN string: En passant field",
            FenError::HalfMoveClockError => "Error in FEN string: Half-move clock",
            FenError::FullMoveNumberError => "Error in FEN string: Full-move number",
        }
    }
}

/// The dash variant that is read as a plain `-`.
pub const EM_DASH: char = '\u{2014}';

/// Placement squares taken so far, each with its (side, piece).
pub type Placement = Map<int, (int, int)>;

/// The (side, piece) that a placement letter stands for.
pub open spec fn piece_of_char(c: char) -> Option<(int, int)> {
    if c == 'K' {
        Some((0, 0))
    } else if c == 'Q' {
        Some((0, 1))
    } else if c == 'R' {
        Some((0, 2))
    } else if c == 'B' {
        Some((0, 3))
    } else if c == 'N' {
        Some((0, 4))
    } else if c == 'P' {
        Some((0, 5))
    } else if c == 'k' {
        Some((1, 0))
    } else if c == 'q' {
        Some((1, 1))
    } else if c == 'r' {
        Some((1, 2))
    } else if c == 'b' {
        Some((1, 3))
    } else if c == 'n' {
        Some((1, 4))
    } else if c == 'p' {
        Some((1, 5))
    } else {
        None
    }
}

pub open spec fn is_digit(c: char) -> bool {
    '0' <= c <= '9'
}

pub open spec fn digit_value(c: char) -> int {
    c as int - '0' as int
}

/// One character of the placement field applied to (rank, file, squares taken).
pub open spec fn placement_step(st: (int, int, Placement), c: char) -> Option<(int, int, Placement)> {
    let (rank, file, m) = st;
    if piece_of_char(c) is Some {
        if file < 8 {
            Some((rank, file + 1, m.insert(rank * 8 + file, piece_of_char(c).unwrap())))
        } else {
            None
        }
    } else if '1' <= c <= '8' {
        if file + digit_value(c) <= 8 {
            Some((rank, file + digit_value(c), m))
        } else {
            None
        }
    } else if c == '/' {
        if file == 8 && rank > 0 {
            Some((rank - 1, 0, m))
        } else {
            None
        }
    } else {
        None
    }
}

/// The placement field read from rank 8, file a: the final (rank, file) and
/// the pieces placed, or `None` where the field is refused.
pub open spec fn placement(f: Seq<char>) -> Option<(int, int, Placement)>
    decreases f.len(),
{
    if f.len() == 0 {
        Some((7, 0, Map::empty()))
    } else {
        match placement(f.drop_last()) {
            Some(st) => placement_step(st, f.last()),
            None => None,
        }
    }
}

/// The side to move named by the colour field.
pub open spec fn color_of(f: Seq<char>) -> Option<u8> {
    if f == seq!['w'] {
        Some(0u8)
    } else if f == seq!['b'] {
        Some(1u8)
    } else {
        None
    }
}

/// The flag of one castling character; `-` adds none.
pub open spec fn castling_flag(c: char) -> Option<u8> {
    if c == 'K' {
        Some(CastlingRights::WHITE_KING)
    } else if c == 'Q' {
        Some(CastlingRights::WHITE_QUEEN)
    } else if c == 'k' {
        Some(CastlingRights::BLACK_KING)
    } else if c == 'q' {
        Some(CastlingRights::BLACK_QUEEN)
    } else if c == '-' {
        Some(0u8)
    } else {
        None
    }
}

/// The union of the flags of all characters of `f`.
pub open spec fn castling_fold(f: Seq<char>) -> Option<u8>
    decreases f.len(),
{
    if f.len() == 0 {
        Some(0u8)
    } else {
        match (castling_fold(f.drop_last()), castling_flag(f.last())) {
            (Some(a), Some(b)) => Some(a | b),
            _ => None,
        }
    }
}

/// The castling flags of the castling field: one to four characters.
pub open spec fn castling_of(f: Seq<char>) -> Option<u8> {
    if 1 <= f.len() <= 4 {
        castling_fold(f)
    } else {
        None
    }
}

/// Whether `sq` is on rank 3 or rank 6.
pub open spec fn en_passant_rank(sq: int) -> bool {
    (16 <= sq <= 23) || (40 <= sq <= 47)
}

/// The en-passant field: `Some(None)` for `-`, `Some(Some(sq))` for a square
/// on rank 3 or 6.
pub open spec fn en_passant_of(f: Seq<char>) -> Option<Option<u8>> {
    if f == seq!['-'] {
        Some(None)
    } else if f.len() == 2 && named_square(f) is Some && en_passant_rank(named_square(f).unwrap()) {
        Some(Some(named_square(f).unwrap() as u8))
    } else {
        None
    }
}

/// The decimal value of a string of digits.
pub open spec fn digits_value(f: Seq<char>) -> int
    decreases f.len(),
{
    if f.len() == 0 {
        0
    } else {
        digits_value(f.drop_last()) * 10 + digit_value(f.last())
    }
}

/// The value of `f` where it is 1 to `max_len` digits worth at most `limit`.
pub open spec fn bounded_number(f: Seq<char>, max_len: int, limit: int) -> Option<int> {
    if 1 <= f.len() <= max_len && (forall|i: int| 0 <= i < f.len() ==> is_digit(#[trigger] f[i]))
        && digits_value(f) <= limit {
        Some(digits_value(f))
    } else {
        None
    }
}

pub open spec fn pow10(n: nat) -> int
    decreases n,
{
    if n == 0 {
        1
    } else {
        10 * pow10((n - 1) as nat)
    }
}

/// Reads the side to move: `w` or `b`.
fn color(board: &mut Board, part: &Vec<char>) -> (r: Result<(), FenError>)
    ensures
        match color_of(part@) {
            Some(c) => r is Ok && *final(board) == (Board {
                game_state: GameState { active_color: c, ..old(board).game_state },
                ..*old(board)
            }),
            None => r == Err::<(), FenError>(FenError::ColorError) && *final(board) == *old(board),
        },
{
    if part.len() == 1 {
        let c = part[0];
        if c == 'w' {
            board.game_state.active_color = 0;
            assert(part@ =~= seq!['w']);
            return Ok(());
        } else if c == 'b' {
            board.game_state.active_color = 1;
            assert(part@ =~= seq!['b']);
            return Ok(());
        }
    }
    Err(FenError::ColorError)
}

fn castling_code(c: char) -> (r: Option<u8>)
    ensures
        r == castling_flag(c),
{
    match c {
        'K' => Some(CastlingRights::WHITE_KING),
        'Q' => Some(CastlingRights::WHITE_QUEEN),
        'k' => Some(CastlingRights::BLACK_KING),
        'q' => Some(CastlingRights::BLACK_QUEEN),
        '-' => Some(0),
        _ => None,
    }
}

/// Reads the castling flags: one to four of `KQkq-`.
fn castling(board: &mut Board, part: &Vec<char>) -> (r: Result<(), FenError>)
    ensures
        match castling_of(part@) {
            Some(v) => r is Ok && *final(board) == (Board {
                game_state: GameState {
                    castling_rights: old(board).game_state.castling_rights | v,
                    ..old(board).game_state
                },
                ..*old(board)
            }),
            None => r == Err::<(), FenError>(FenError::CastlingError) && *final(board)
                == *old(board),
        },
{
    if part.len() > 4 || part.len() < 1 {
        return Err(FenError::CastlingError);
    }
    let mut rights: u8 = 0;
    let mut i: usize = 0;
    while i < part.len()
        invariant
            i <= part@.len(),
            castling_fold(part@.take(i as int)) == Some(rights),
        decreases part@.len() - i,
    {
        let c = part[i];
        assert(part@.take(i + 1).drop_last() =~= part@.take(i as int));
        match castling_code(c) {
            Some(flag) => {
                rights = rights | flag;
            },
            None => {
                proof {
                    lemma_castling_none_extends(part@, i as int + 1);
                }
                return Err(FenError::CastlingError);
            },
        }
        i += 1;
    }
    assert(part@.take(i as int) =~= part@);
    board.game_state.castling_rights = board.game_state.castling_rights | rights;
    Ok(())
}

proof fn lemma_castling_none_extends(f: Seq<char>, k: int)
    requires
        0 <= k <= f.len(),
        castling_fold(f.take(k)) is None,
    ensures
        castling_fold(f) is None,
    decreases f.len() - k,
{
    if k < f.len() {
        assert(f.take(k + 1).drop_last() =~= f.take(k));
        lemma_castling_none_extends(f, k + 1);
    } else {
        assert(f.take(k) =~= f);
    }
}

/// Reads the en-passant target: `-`, or a square on rank 3 or 6.
fn en_passant(board: &mut Board, part: &Vec<char>) -> (r: Result<(), FenError>)
    ensures
        match en_passant_of(part@) {
            Some(ep) => r is Ok && *final(board) == (Board {
                game_state: GameState {
                    en_passant: match ep {
                        Some(sq) => Some(sq),
                        None => old(board).game_state.en_passant,
                    },
                    ..old(board).game_state
                },
                ..*old(board)
            }),
            None => r == Err::<(), FenError>(FenError::EnPassantError) && *final(board)
                == *old(board),
        },
{
    if part.len() == 1 && part[0] == '-' {
        assert(part@ =~= seq!['-']);
        return Ok(());
    }
    if part.len() == 2 {
        match square_from_chars(part) {
            Some(sq) => {
                if (Squares::A3 <= sq && sq <= Squares::H3) || (Squares::A6 <= sq && sq <= Squares::H6) {
                    board.game_state.en_passant = Some(sq as u8);
                    return Ok(());
                }
            },
            None => {},
        }
    }
    Err(FenError::EnPassantError)
}

/// The value of `part` where it is 1 to `max_len` digits worth at most `limit`.
fn parse_bounded(part: &Vec<char>, max_len: usize, limit: u32) -> (r: Option<u32>)
    requires
        max_len <= 4,
    ensures
        bounded_number(part@, max_len as int, limit as int) == (match r {
            Some(v) => Some(v as int),
            None => None,
        }),
{
    if part.len() < 1 || part.len() > max_len {
        return None;
    }
    let mut value: u32 = 0;
    let mut i: usize = 0;
    while i < part.len()
        invariant
            part@.len() <= 4,
            i <= part@.len(),
            value as int == digits_value(part@.take(i as int)),
            value < pow10(i as nat),
            pow10(i as nat) <= 10000,
            i < part@.len() ==> pow10(i as nat) <= 1000,
            forall|k: int| 0 <= k < i ==> is_digit(#[trigger] part@[k]),
        decreases part@.len() - i,
    {
        let c = part[i];
        assert(part@.take(i + 1).drop_last() =~= part@.take(i as int));
        if c < '0' || c > '9' {
            return None;
        }
        let d = (c as u32) - ('0' as u32);
        value = value * 10 + d;
        i += 1;
        assert(pow10(i as nat) == 10 * pow10((i - 1) as nat));
        proof {
            if i < part@.len() {
                assert(i <= 3);
                reveal_with_fuel(pow10, 4);
            }
        }
    }
    assert(part@.take(i as int) =~= part@);
    if value > limit {
        return None;
    }
    Some(value)
}

/// Reads the half-move clock: one to three digits, at most the fifty-move cap.
fn half_move_clock(board: &mut Board, part: &Vec<char>) -> (r: Result<(), FenError>)
    ensures
        match bounded_number(part@, 3, 100) {
            Some(v) => r is Ok && *final(board) == (Board {
                game_state: GameState { halfmove_clock: v as u8, ..old(board).game_state },
                ..*old(board)
            }),
            None => r == Err::<(), FenError>(FenError::HalfMoveClockError) && *final(board)
                == *old(board),
        },
{
    match parse_bounded(part, 3, MAX_MOVE_RULE as u32) {
        Some(v) => {
            board.game_state.halfmove_clock = v as u8;
            Ok(())
        },
        None => Err(FenError::HalfMoveClockError),
    }
}

/// Reads the full-move number: one to four digits, at most the game-length cap.
fn full_move_number(board: &mut Board, part: &Vec<char>) -> (r: Result<(), FenError>)
    ensures
        match bounded_number(part@, 4, 2048) {
            Some(v) => r is Ok && *final(board) == (Board {
                game_state: GameState { fullmove_number: v as u16, ..old(board).game_state },
                ..*old(board)
            }),
            None => r == Err::<(), FenError>(FenError::FullMoveNumberError) && *final(board)
                == *old(board),
        },
{
    match parse_bounded(part, 4, MAX_GAME_MOVES as u32) {
        Some(v) => {
            board.game_state.fullmove_number = v as u16;
            Ok(())
        },
        None => Err(FenError::FullMoveNumberError),
    }
}

/// The bitboards hold exactly the placed pieces.
pub open spec fn holds(pieces: [[u64; 6]; 2], m: Placement) -> bool {
    &&& forall|k: int| #[trigger] m.contains_key(k) ==> 0 <= k < 64
    &&& forall|s: int, p: int, sq: int|
        0 <= s < 2 && 0 <= p < 6 ==> (#[trigger] has_bit(bb_of(pieces, s, p), sq) <==> (
        m.contains_key(sq) && m[sq] == (s, p)))
}

/// Bitboards that hold a placement have no square twice.
pub proof fn lemma_holds_disjoint(pieces: [[u64; 6]; 2], m: Placement)
    requires
        holds(pieces, m),
    ensures
        pieces_disjoint(pieces),
{
}

fn piece_code(c: char) -> (r: Option<(usize, usize)>)
    ensures
        match piece_of_char(c) {
            Some((s, p)) => r == Some((s as usize, p as usize)),
            None => r is None,
        },
{
    match c {
        'K' => Some((0, 0)),
        'Q' => Some((0, 1)),
        'R' => Some((0, 2)),
        'B' => Some((0, 3)),
        'N' => Some((0, 4)),
        'P' => Some((0, 5)),
        'k' => Some((1, 0)),
        'q' => Some((1, 1)),
        'r' => Some((1, 2)),
        'b' => Some((1, 3)),
        'n' => Some((1, 4)),
        'p' => Some((1, 5)),
        _ => None,
    }
}

proof fn lemma_placement_none_extends(f: Seq<char>, k: int)
    requires
        0 <= k <= f.len(),
        placement(f.take(k)) is None,
    ensures
        placement(f) is None,
    decreases f.len() - k,
{
    if k < f.len() {
        assert(f.take(k + 1).drop_last() =~= f.take(k));
        lemma_placement_none_extends(f, k + 1);
    } else {
        assert(f.take(k) =~= f);
    }
}

/// Reads the piece placement into the empty bitboards of `board`.
fn pieces(board: &mut Board, part: &Vec<char>) -> (r: Result<(), FenError>)
    requires
        forall|s: int, p: int| 0 <= s < 2 && 0 <= p < 6 ==> #[trigger] bb_of(old(board).pieces, s, p) == 0,
    ensures
        match placement(part@) {
            Some(st) => r is Ok && holds(final(board).pieces, st.2) && final(board).side
                == old(board).side && final(board).piece_list == old(board).piece_list
                && final(board).game_state == old(board).game_state,
            None => r == Err::<(), FenError>(FenError::PieceSquareError),
        },
{
    let mut rank: usize = 7;
    let mut file: usize = 0;
    let ghost mut m: Placement = Map::empty();
    let mut i: usize = 0;
    proof {
        assert(part@.take(0) =~= Seq::<char>::empty());
        assert forall|s: int, p: int, sq: int| 0 <= s < 2 && 0 <= p < 6 implies !#[trigger] has_bit(
            bb_of(board.pieces, s, p),
            sq,
        ) by {
            assert(bb_of(board.pieces, s, p) == 0);
            if 0 <= sq < 64 {
                let j = sq as u64;
                assert((0u64 >> j) & 1u64 == 0u64) by (bit_vector);
            }
        }
    }
    while i < part.len()
        invariant
            i <= part@.len(),
            placement(part@.take(i as int)) == Some((rank as int, file as int, m)),
            rank <= 7,
            file <= 8,
            holds(board.pieces, m),
            forall|k: int|
                #[trigger] m.contains_key(k) ==> k >= rank * 8 + 8 || (rank * 8 <= k < rank * 8
                    + file),
            board.side == old(board).side,
            board.piece_list == old(board).piece_list,
            board.game_state == old(board).game_state,
        decreases part@.len() - i,
    {
        let c = part[i];
        assert(part@.take(i + 1).drop_last() =~= part@.take(i as int));
        assert(part@.take(i + 1).last() == c);
        match piece_code(c) {
            Some((side, piece)) => {
                if file >= 8 {
                    proof {
                        lemma_placement_none_extends(part@, i as int + 1);
                    }
                    return Err(FenError::PieceSquareError);
                }
                let square: usize = rank * 8 + file;
                let ghost before = board.pieces;
                let mask: u64 = 1u64 << square;
                let mut row = board.pieces[side];
                row[piece] = row[piece] | mask;
                board.pieces[side] = row;
                proof {
                    lemma_bit_set(bb_of(before, side as int, piece as int), square as int);
                    assert(!m.contains_key(square as int));
                    let old_m = m;
                    m = m.insert(square as int, (side as int, piece as int));
                    assert(bb_of(board.pieces, side as int, piece as int) == bb_of(before, side as int, piece as int) | square_mask(square as int));
                    assert forall|s: int, p: int, sq: int| 0 <= s < 2 && 0 <= p < 6 implies (
                    #[trigger] has_bit(bb_of(board.pieces, s, p), sq) <==> (m.contains_key(sq)
                        && m[sq] == (s, p))) by {
                        if s == side && p == piece {
                            assert(has_bit(bb_of(before, s, p), sq) <==> (old_m.contains_key(sq) && old_m[sq] == (s, p)));
                        } else {
                            assert(bb_of(board.pieces, s, p) == bb_of(before, s, p));
                            assert(has_bit(bb_of(before, s, p), sq) <==> (old_m.contains_key(sq) && old_m[sq] == (s, p)));
                        }
                    }
                }
                file += 1;
            },
            None => {
                if '1' <= c && c <= '8' {
                    let d = ((c as u32) - ('0' as u32)) as usize;
                    if file + d > 8 {
                        proof {
                            lemma_placement_none_extends(part@, i as int + 1);
                        }
                        return Err(FenError::PieceSquareError);
                    }
                    file += d;
                } else if c == '/' {
                    if file != 8 || rank == 0 {
                        proof {
                            lemma_placement_none_extends(part@, i as int + 1);
                        }
                        return Err(FenError::PieceSquareError);
                    }
                    rank -= 1;
                    file = 0;
                } else {
                    proof {
                        lemma_placement_none_extends(part@, i as int + 1);
                    }
                    return Err(FenError::PieceSquareError);
                }
            },
        }
        i += 1;
    }
    assert(part@.take(i as int) =~= part@);
    Ok(())
}

/// `s` with each em dash read as `-`.
pub open spec fn normalize_dashes(s: Seq<char>) -> Seq<char> {
    s.map_values(|c: char| if c == EM_DASH { '-' } else { c })
}

/// `s` cut at every single space; `n` spaces give `n + 1` pieces.
pub open spec fn split_spaces(s: Seq<char>) -> Seq<Seq<char>>
    decreases s.len(),
{
    if s.len() == 0 {
        seq![Seq::empty()]
    } else {
        let init = split_spaces(s.drop_last());
        if s.last() == ' ' {
            init.push(Seq::empty())
        } else {
            init.update(init.len() - 1, init.last().push(s.last()))
        }
    }
}

/// The fields of a FEN string; four fields get the two move counters `0`
/// and `1` appended.
pub open spec fn fen_fields(s: Seq<char>) -> Seq<Seq<char>> {
    let f = split_spaces(normalize_dashes(s));
    if f.len() == 4 {
        f + seq![seq!['0'], seq!['1']]
    } else {
        f
    }
}

/// The text decoded for an optional FEN string: the standard start when absent.
pub open spec fn fen_text(fen_string: Option<&str>) -> Seq<char> {
    match fen_string {
        Some(s) => s@,
        None => FEN_START_POSITION@,
    }
}

/// What decoding `s` gives: the placed pieces and the metadata, or the
/// error of the first field at fault.
pub open spec fn fen_decode(s: Seq<char>) -> Result<(Placement, GameState), FenError> {
    let f = fen_fields(s);
    if f.len() != 6 {
        Err(FenError::IncorrectLength)
    } else if placement(f[0]) is None {
        Err(FenError::PieceSquareError)
    } else if color_of(f[1]) is None {
        Err(FenError::ColorError)
    } else if castling_of(f[2]) is None {
        Err(FenError::CastlingError)
    } else if en_passant_of(f[3]) is None {
        Err(FenError::EnPassantError)
    } else if bounded_number(f[4], 3, 100) is None {
        Err(FenError::HalfMoveClockError)
    } else if bounded_number(f[5], 4, 2048) is None {
        Err(FenError::FullMoveNumberError)
    } else {
        Ok(
            (
                placement(f[0]).unwrap().2,
                GameState {
                    active_color: color_of(f[1]).unwrap(),
                    castling_rights: castling_of(f[2]).unwrap(),
                    en_passant: en_passant_of(f[3]).unwrap(),
                    halfmove_clock: bounded_number(f[4], 3, 100).unwrap() as u8,
                    fullmove_number: bounded_number(f[5], 4, 2048).unwrap() as u16,
                },
            ),
        )
    }
}

pub open spec fn fields_view(v: Seq<Vec<char>>) -> Seq<Seq<char>> {
    v.map_values(|x: Vec<char>| x@)
}

/// The six fields of the FEN text, padded from four where needed.
pub fn split_fen_string(fen_string: Option<&str>) -> (r: Result<Vec<Vec<char>>, FenError>)
    ensures
        match r {
            Ok(v) => fields_view(v@) == fen_fields(fen_text(fen_string)) && v@.len() == 6,
            Err(e) => e == FenError::IncorrectLength && fen_fields(fen_text(fen_string)).len() != 6,
        },
{
    let text = match fen_string {
        Some(s) => chars_of(s),
        None => chars_of(FEN_START_POSITION),
    };
    let ghost t = fen_text(fen_string);
    let mut fields: Vec<Vec<char>> = Vec::new();
    let mut current: Vec<char> = Vec::new();
    let mut i: usize = 0;
    proof {
        assert(normalize_dashes(t.take(0)) =~= Seq::<char>::empty());
        assert(fields_view(fields@).push(current@) =~= seq![Seq::<char>::empty()]);
    }
    while i < text.len()
        invariant
            text@ == t,
            i <= t.len(),
            fields_view(fields@).push(current@) == split_spaces(normalize_dashes(t.take(i as int))),
        decreases t.len() - i,
    {
        let mut c = text[i];
        if c == EM_DASH {
            c = '-';
        }
        let ghost prev = fields_view(fields@).push(current@);
        assert(normalize_dashes(t.take(i + 1)) =~= normalize_dashes(t.take(i as int)).push(c));
        assert(normalize_dashes(t.take(i + 1)).drop_last() =~= normalize_dashes(t.take(i as int)));
        if c == ' ' {
            fields.push(current);
            current = Vec::new();
            assert(fields_view(fields@).push(current@) =~= prev.push(Seq::empty()));
        } else {
            current.push(c);
            assert(fields_view(fields@).push(current@) =~= prev.update(
                prev.len() - 1,
                prev.last().push(c),
            ));
        }
        i += 1;
    }
    assert(t.take(i as int) =~= t);
    fields.push(current);
    assert(fields_view(fields@) =~= split_spaces(normalize_dashes(t)));
    if fields.len() == 4 {
        let mut halfmove: Vec<char> = Vec::new();
        halfmove.push('0');
        let mut fullmove: Vec<char> = Vec::new();
        fullmove.push('1');
        assert(halfmove@ =~= seq!['0']);
        assert(fullmove@ =~= seq!['1']);
        fields.push(halfmove);
        fields.push(fullmove);
        assert(fields_view(fields@) =~= split_spaces(normalize_dashes(t)) + seq![seq!['0'], seq!['1']]);
    }
    if fields.len() != 6 {
        return Err(FenError::IncorrectLength);
    }
    Ok(fields)
}

impl Board {
    /// Replaces the board with the position of `fen_string`, or of the
    /// standard start when it is `None`. On any error the board is unchanged.
    pub fn fen_setup(&mut self, fen_string: Option<&str>) -> (r: Result<(), FenError>)
        ensures
            match fen_decode(fen_text(fen_string)) {
                Ok((m, gs)) => r is Ok && final(self).wf() && holds(final(self).pieces, m)
                    && final(self).game_state == gs,
                Err(e) => r == Err::<(), FenError>(e) && *final(self) == *old(self),
            },
    {
        let fen_parts = match split_fen_string(fen_string) {
            Ok(v) => v,
            Err(e) => return Err(e),
        };
        let ghost f = fen_fields(fen_text(fen_string));
        assert(fen_parts@[0]@ == f[0]);
        assert(fen_parts@[1]@ == f[1]);
        assert(fen_parts@[2]@ == f[2]);
        assert(fen_parts@[3]@ == f[3]);
        assert(fen_parts@[4]@ == f[4]);
        assert(fen_parts@[5]@ == f[5]);
        let mut temp_board = self.clone();
        temp_board.reset();
        match pieces(&mut temp_board, &fen_parts[0]) {
            Ok(()) => {},
            Err(e) => return Err(e),
        }
        match color(&mut temp_board, &fen_parts[1]) {
            Ok(()) => {},
            Err(e) => return Err(e),
        }
        match castling(&mut temp_board, &fen_parts[2]) {
            Ok(()) => {},
            Err(e) => return Err(e),
        }
        match en_passant(&mut temp_board, &fen_parts[3]) {
            Ok(()) => {},
            Err(e) => return Err(e),
        }
        match half_move_clock(&mut temp_board, &fen_parts[4]) {
            Ok(()) => {},
            Err(e) => return Err(e),
        }
        match full_move_number(&mut temp_board, &fen_parts[5]) {
            Ok(()) => {},
            Err(e) => return Err(e),
        }
        proof {
            let m = placement(f[0]).unwrap().2;
            lemma_holds_disjoint(temp_board.pieces, m);
            let v = castling_of(f[2]).unwrap();
            assert(0u8 | v == v) by (bit_vector);
        }
        temp_board.init();
        *self = temp_board;
        Ok(())
    }
}

/// A FEN string of four fields decodes exactly as the same string with the
/// move counters ` 0 1` appended.
pub proof fn lemma_short_fen_padding(s: Seq<char>)
    requires
        split_spaces(normalize_dashes(s)).len() == 4,
    ensures
        fen_decode(s) == fen_decode(s + seq![' ', '0', ' ', '1']),
{
    let tail = seq![' ', '0', ' ', '1'];
    let t = s + tail;
    let u = normalize_dashes(s);
    assert(normalize_dashes(t) =~= u + tail);
    let u1 = u.push(' ');
    let u2 = u1.push('0');
    let u3 = u2.push(' ');
    let u4 = u3.push('1');
    assert(u + tail =~= u4);
    assert(u4.drop_last() =~= u3);
    assert(u3.drop_last() =~= u2);
    assert(u2.drop_last() =~= u1);
    assert(u1.drop_last() =~= u);
    let f = split_spaces(u);
    assert(split_spaces(u1) == f.push(Seq::empty()));
    assert(split_spaces(u2) =~= f.push(seq!['0']));
    assert(split_spaces(u3) == f.push(seq!['0']).push(Seq::empty()));
    assert(split_spaces(u4) =~= f + seq![seq!['0'], seq!['1']]);
    assert(fen_fields(t) =~= fen_fields(s));
}

/// A `/` reached before the current rank has all eight files refuses the
/// placement field, whatever follows it.
pub proof fn lemma_separator_needs_full_rank(prefix: Seq<char>, rest: Seq<char>)
    requires
        placement(prefix) is Some,
        placement(prefix).unwrap().1 != 8,
    ensures
        placement(prefix.push('/') + rest) is None,
{
    let f = prefix.push('/') + rest;
    let k = prefix.len() + 1int;
    assert(f.take(k) =~= prefix.push('/'));
    assert(prefix.push('/').drop_last() =~= prefix);
    lemma_placement_none_extends(f, k);
}

/// A FEN string whose placement field has such a `/` fails with the
/// piece/square error.
pub proof fn lemma_short_rank_refused(s: Seq<char>, prefix: Seq<char>, rest: Seq<char>)
    requires
        fen_fields(s).len() == 6,
        fen_fields(s)[0] == prefix.push('/') + rest,
        placement(prefix) is Some,
        placement(prefix).unwrap().1 != 8,
    ensures
        fen_decode(s) == Err::<(Placement, GameState), FenError>(FenError::PieceSquareError),
{
    lemma_separator_needs_full_rank(prefix, rest);
}

} // verus!
