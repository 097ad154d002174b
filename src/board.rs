//! The board: per-piece bitboards, per-side aggregates, a square-indexed piece
//! lookup and the game metadata, with the primitives that keep them in step.
use vstd::prelude::*;
use crate::bits;
use crate::defs::{Bitboard, EMPTY, Piece, Pieces, Side, Sides, Square, has_bit, square_mask};
use crate::state::{GameState, fresh_game_state};

verus! {

/// The bitboard of `piece` for `side`.
pub open spec fn bb_of(pieces: [[Bitboard; 6]; 2], side: int, piece: int) -> u64 {
    pieces@[side]@[piece]
}

/// Whether any bitboard holds square `sq`.
pub open spec fn occupied(pieces: [[Bitboard; 6]; 2], sq: int) -> bool {
    exists|s: int, p: int|
        0 <= s < 2 && 0 <= p < 6 && #[trigger] has_bit(bb_of(pieces, s, p), sq)
}

/// No square is held by two (side, piece) bitboards.
pub open spec fn pieces_disjoint(pieces: [[Bitboard; 6]; 2]) -> bool {
    forall|s1: int, p1: int, s2: int, p2: int, sq: int|
        0 <= s1 < 2 && 0 <= p1 < 6 && 0 <= s2 < 2 && 0 <= p2 < 6 && #[trigger] has_bit(
            bb_of(pieces, s1, p1),
            sq,
        ) && #[trigger] has_bit(bb_of(pieces, s2, p2), sq) ==> s1 == s2 && p1 == p2
}

/// The union of the six bitboards of one side.
pub open spec fn union6(a: Seq<u64>) -> u64 {
    a[0] | a[1] | a[2] | a[3] | a[4] | a[5]
}

/// The union of the first `n` bitboards of `a`.
pub open spec fn union_upto(a: Seq<u64>, n: int) -> u64
    decreases n,
{
    if n <= 0 {
        0
    } else {
        union_upto(a, n - 1) | a[n - 1]
    }
}

/// The piece type on `sq`, looking at types from `p` upward; `Pieces::NONE`
/// (6) where no bitboard of those types holds it.
pub open spec fn type_on_from(pieces: [[Bitboard; 6]; 2], sq: int, p: int) -> int
    decreases 6 - p,
{
    if p >= 6 || p < 0 {
        6
    } else if has_bit(bb_of(pieces, 0, p), sq) || has_bit(bb_of(pieces, 1, p), sq) {
        p
    } else {
        type_on_from(pieces, sq, p + 1)
    }
}

/// The piece type on `sq`, or `Pieces::NONE` (6) for an empty square.
pub open spec fn type_on(pieces: [[Bitboard; 6]; 2], sq: int) -> int {
    type_on_from(pieces, sq, 0)
}

/// A chess position as bitboards, with the views derived from them.
#[derive(Clone, Copy)]
pub struct Board {
    pub pieces: [[Bitboard; 6]; 2],
    pub side: [Bitboard; 2],
    pub game_state: GameState,
    pub piece_list: [Piece; 64],
}

impl Board {
    /// Whether no bitboard holds `sq`.
    pub open spec fn vacant(&self, sq: int) -> bool {
        !occupied(self.pieces, sq)
    }

    /// The three views agree: each aggregate is the union of its side's
    /// bitboards, no square is held twice, and the lookup gives the type on
    /// each square.
    pub open spec fn wf(&self) -> bool {
        &&& forall|s: int| 0 <= s < 2 ==> #[trigger] self.side@[s] == union6(self.pieces@[s]@)
        &&& pieces_disjoint(self.pieces)
        &&& forall|sq: int|
            0 <= sq < 64 ==> #[trigger] self.piece_list@[sq] as int == type_on(self.pieces, sq)
    }

    /// The state of a new board: no pieces, fresh metadata.
    pub open spec fn is_blank(&self) -> bool {
        &&& forall|s: int, p: int| 0 <= s < 2 && 0 <= p < 6 ==> #[trigger] bb_of(self.pieces, s, p) == 0
        &&& forall|s: int| 0 <= s < 2 ==> #[trigger] self.side@[s] == 0
        &&& forall|sq: int| 0 <= sq < 64 ==> #[trigger] self.piece_list@[sq] == Pieces::NONE
        &&& self.game_state == fresh_game_state()
    }

    /// Bitboards other than that of (`side`, `piece`) are the same in both.
    pub open spec fn others_same(&self, other: &Board, side: int, piece: int) -> bool {
        forall|s: int, p: int|
            0 <= s < 2 && 0 <= p < 6 && !(s == side && p == piece) ==> #[trigger] bb_of(self.pieces, s, p)
                == bb_of(other.pieces, s, p)
    }

    /// An empty board with fresh metadata.
    pub fn new() -> (r: Self)
        ensures
            r.is_blank(),
            r.wf(),
    {
        let r = Self {
            pieces: [[EMPTY; 6]; 2],
            side: [EMPTY; 2],
            game_state: GameState::new(),
            piece_list: [Pieces::NONE; 64],
        };
        proof {
            lemma_blank_wf(&r);
        }
        r
    }

    /// Takes `piece` of `side` off `square`.
    pub fn remove_piece(&mut self, side: Side, piece: Piece, square: Square)
        requires
            old(self).wf(),
            side < 2,
            piece < 6,
            square < 64,
            has_bit(bb_of(old(self).pieces, side as int, piece as int), square as int),
        ensures
            final(self).wf(),
            bb_of(final(self).pieces, side as int, piece as int) == bb_of(old(self).pieces, side as int, piece as int)
                & !square_mask(square as int),
            final(self).others_same(&*old(self), side as int, piece as int),
            final(self).side@ == old(self).side@.update(
                side as int,
                old(self).side@[side as int] & !square_mask(square as int),
            ),
            final(self).piece_list@ == old(self).piece_list@.update(square as int, Pieces::NONE),
            final(self).game_state == old(self).game_state,
            final(self).vacant(square as int),
    {
        let ghost before = *self;
        let mask: u64 = 1u64 << square;
        let mut row = self.pieces[side];
        row[piece] = row[piece] & !mask;
        self.pieces[side] = row;
        self.side[side] = self.side[side] & !mask;
        self.piece_list[square] = Pieces::NONE;
        proof {
            lemma_remove_wf(before, *self, side as int, piece as int, square as int);
        }
    }

    /// Places `piece` of `side` on the vacant `square`.
    pub fn put_piece(&mut self, side: Side, piece: Piece, square: Square)
        requires
            old(self).wf(),
            side < 2,
            piece < 6,
            square < 64,
            old(self).vacant(square as int),
        ensures
            final(self).wf(),
            bb_of(final(self).pieces, side as int, piece as int) == bb_of(old(self).pieces, side as int, piece as int)
                | square_mask(square as int),
            final(self).others_same(&*old(self), side as int, piece as int),
            final(self).side@ == old(self).side@.update(
                side as int,
                old(self).side@[side as int] | square_mask(square as int),
            ),
            final(self).piece_list@ == old(self).piece_list@.update(square as int, piece),
            final(self).game_state == old(self).game_state,
    {
        let ghost before = *self;
        let mask: u64 = 1u64 << square;
        let mut row = self.pieces[side];
        row[piece] = row[piece] | mask;
        self.pieces[side] = row;
        self.side[side] = self.side[side] | mask;
        self.piece_list[square] = piece;
        proof {
            lemma_put_wf(before, *self, side as int, piece as int, square as int);
        }
    }
}

impl Board {
    /// Moves `piece` of `side` from `from` to `to`: a removal, then a placement.
    pub fn move_piece(&mut self, side: Side, piece: Piece, from: Square, to: Square)
        requires
            old(self).wf(),
            side < 2,
            piece < 6,
            from < 64,
            to < 64,
            has_bit(bb_of(old(self).pieces, side as int, piece as int), from as int),
            to == from || old(self).vacant(to as int),
        ensures
            final(self).wf(),
            bb_of(final(self).pieces, side as int, piece as int) == (bb_of(
                old(self).pieces,
                side as int,
                piece as int,
            ) & !square_mask(from as int)) | square_mask(to as int),
            final(self).others_same(&*old(self), side as int, piece as int),
            final(self).side@ == old(self).side@.update(
                side as int,
                (old(self).side@[side as int] & !square_mask(from as int)) | square_mask(to as int),
            ),
            final(self).piece_list@ == old(self).piece_list@.update(
                from as int,
                Pieces::NONE,
            ).update(to as int, piece),
            final(self).game_state == old(self).game_state,
    {
        let ghost b0 = *self;
        self.remove_piece(side, piece, from);
        proof {
            if to != from {
                lemma_bit_clear(bb_of(b0.pieces, side as int, piece as int), from as int);
                assert forall|s: int, p: int|
                    0 <= s < 2 && 0 <= p < 6 implies !#[trigger] has_bit(
                    bb_of(self.pieces, s, p),
                    to as int,
                ) by {
                    assert(!has_bit(bb_of(b0.pieces, s, p), to as int));
                }
            }
        }
        self.put_piece(side, piece, to);
    }

    /// Records `square` as the en-passant target.
    pub fn set_en_passant(&mut self, square: Square)
        requires
            square < 64,
        ensures
            final(self).game_state == (GameState {
                en_passant: Some(square as u8),
                ..old(self).game_state
            }),
            final(self).pieces == old(self).pieces,
            final(self).side == old(self).side,
            final(self).piece_list == old(self).piece_list,
    {
        self.game_state.en_passant = Some(square as u8);
    }

    /// Removes the en-passant target.
    pub fn clear_en_passant(&mut self)
        ensures
            final(self).game_state == (GameState { en_passant: None, ..old(self).game_state }),
            final(self).pieces == old(self).pieces,
            final(self).side == old(self).side,
            final(self).piece_list == old(self).piece_list,
    {
        self.game_state.en_passant = None;
    }

    /// Hands the move to the other side.
    pub fn swap_side(&mut self)
        ensures
            final(self).game_state == (GameState {
                active_color: old(self).game_state.active_color ^ 1u8,
                ..old(self).game_state
            }),
            final(self).pieces == old(self).pieces,
            final(self).side == old(self).side,
            final(self).piece_list == old(self).piece_list,
    {
        self.game_state.active_color ^= 1;
    }

    /// Replaces the castling flags with `new_permissions`.
    pub fn update_castling_permissions(&mut self, new_permissions: u8)
        ensures
            final(self).game_state == (GameState {
                castling_rights: new_permissions,
                ..old(self).game_state
            }),
            final(self).pieces == old(self).pieces,
            final(self).side == old(self).side,
            final(self).piece_list == old(self).piece_list,
    {
        self.game_state.castling_rights = new_permissions;
    }
}

impl Board {
    /// Empties the board and resets its metadata.
    pub(crate) fn reset(&mut self)
        ensures
            final(self).is_blank(),
            final(self).wf(),
    {
        self.pieces = [[EMPTY; 6]; 2];
        self.side = [EMPTY; 2];
        self.game_state = GameState::new();
        self.piece_list = [Pieces::NONE; 64];
        proof {
            lemma_blank_wf(&*self);
        }
    }

    /// Derives the aggregates and the piece lookup from the piece bitboards.
    pub(crate) fn init(&mut self)
        requires
            pieces_disjoint(old(self).pieces),
        ensures
            final(self).pieces == old(self).pieces,
            final(self).game_state == old(self).game_state,
            final(self).wf(),
    {
        let pieces_per_side = self.init_pieces_per_side();
        self.side[Sides::WHITE] = pieces_per_side.0;
        self.side[Sides::BLACK] = pieces_per_side.1;
        self.piece_list = self.init_piece_list();
        assert(forall|s: int| 0 <= s < 2 ==> #[trigger] self.side@[s] == union6(self.pieces@[s]@)
            ) by {
            assert(self.side@[0] == union6(self.pieces@[0]@));
        }
    }

    /// The aggregate bitboards of white and black.
    fn init_pieces_per_side(&self) -> (r: (Bitboard, Bitboard))
        ensures
            r.0 == union6(self.pieces@[0]@),
            r.1 == union6(self.pieces@[1]@),
    {
        let mut white: Bitboard = 0;
        let mut black: Bitboard = 0;
        let white_row = self.pieces[Sides::WHITE];
        let black_row = self.pieces[Sides::BLACK];
        let mut i: usize = 0;
        while i < 6
            invariant
                i <= 6,
                white_row == self.pieces@[0],
                black_row == self.pieces@[1],
                white == union_upto(white_row@, i as int),
                black == union_upto(black_row@, i as int),
            decreases 6 - i,
        {
            white = white | white_row[i];
            black = black | black_row[i];
            i += 1;
        }
        proof {
            lemma_union_upto_six(white_row@);
            lemma_union_upto_six(black_row@);
        }
        (white, black)
    }

    /// The piece lookup: the type on each square, `Pieces::NONE` where empty.
    fn init_piece_list(&self) -> (r: [Piece; 64])
        requires
            pieces_disjoint(self.pieces),
        ensures
            forall|sq: int| 0 <= sq < 64 ==> #[trigger] r@[sq] as int == type_on(self.pieces, sq),
    {
        let ghost a = self.pieces;
        let white = self.pieces[Sides::WHITE];
        let black = self.pieces[Sides::BLACK];
        let mut piece_list: [Piece; 64] = [Pieces::NONE; 64];
        let mut piece_type: usize = 0;
        proof {
            assert forall|sq: int| 0 <= sq < 64 implies #[trigger] piece_list@[sq] as int == (if type_on(
                a,
                sq,
            ) < 0 {
                type_on(a, sq)
            } else {
                6
            }) by {
                lemma_type_on_first(a, sq, 0);
            }
        }
        while piece_type < 6
            invariant
                a == self.pieces,
                pieces_disjoint(a),
                white == a@[0],
                black == a@[1],
                piece_type <= 6,
                forall|sq: int|
                    0 <= sq < 64 ==> #[trigger] piece_list@[sq] as int == (if type_on(a, sq)
                        < piece_type {
                        type_on(a, sq)
                    } else {
                        6
                    }),
            decreases 6 - piece_type,
        {
            let ghost p = piece_type as int;
            let mut white_pieces = white[piece_type];
            let mut black_pieces = black[piece_type];
            while white_pieces > 0
                invariant
                    a == self.pieces,
                    pieces_disjoint(a),
                    p == piece_type,
                    piece_type < 6,
                    forall|i: int| #[trigger] has_bit(white_pieces, i) ==> has_bit(bb_of(a, 0, p), i),
                    forall|sq: int|
                        0 <= sq < 64 ==> #[trigger] piece_list@[sq] as int == (if type_on(a, sq)
                            < p {
                            type_on(a, sq)
                        } else if has_bit(bb_of(a, 0, p), sq) && !has_bit(white_pieces, sq) {
                            p
                        } else {
                            6
                        }),
                decreases white_pieces,
            {
                let square = bits::next(&mut white_pieces);
                proof {
                    lemma_type_on_held(a, square as int, 0, p);
                }
                piece_list[square] = piece_type;
            }
            proof {
                lemma_zero_bits();
            }
            while black_pieces > 0
                invariant
                    a == self.pieces,
                    pieces_disjoint(a),
                    p == piece_type,
                    piece_type < 6,
                    forall|i: int| #[trigger] has_bit(black_pieces, i) ==> has_bit(bb_of(a, 1, p), i),
                    forall|sq: int|
                        0 <= sq < 64 ==> #[trigger] piece_list@[sq] as int == (if type_on(a, sq)
                            < p {
                            type_on(a, sq)
                        } else if has_bit(bb_of(a, 0, p), sq) || (has_bit(bb_of(a, 1, p), sq)
                            && !has_bit(black_pieces, sq)) {
                            p
                        } else {
                            6
                        }),
                decreases black_pieces,
            {
                let square = bits::next(&mut black_pieces);
                proof {
                    lemma_type_on_held(a, square as int, 1, p);
                }
                piece_list[square] = piece_type;
            }
            proof {
                lemma_zero_bits();
                assert forall|sq: int| 0 <= sq < 64 implies #[trigger] piece_list@[sq] as int == (if type_on(
                    a,
                    sq,
                ) < p + 1 {
                    type_on(a, sq)
                } else {
                    6
                }) by {
                    lemma_type_on_first(a, sq, 0);
                }
            }
            piece_type += 1;
        }
        proof {
            assert forall|sq: int| 0 <= sq < 64 implies #[trigger] piece_list@[sq] as int == type_on(
                a,
                sq,
            ) by {
                lemma_type_on_first(a, sq, 0);
            }
        }
        piece_list
    }
}

proof fn lemma_union_upto_six(a: Seq<u64>)
    requires
        a.len() == 6,
    ensures
        union_upto(a, 6) == union6(a),
{
    reveal_with_fuel(union_upto, 7);
    let (a0, a1, a2, a3, a4, a5) = (a[0], a[1], a[2], a[3], a[4], a[5]);
    assert(0u64 | a0 | a1 | a2 | a3 | a4 | a5 == a0 | a1 | a2 | a3 | a4 | a5) by (bit_vector);
}

/// On a well-formed board the lookup of a square is `Pieces::NONE` exactly
/// when no bitboard holds it, and otherwise the type whose bitboard does.
pub proof fn lemma_lookup_agrees(b: Board, sq: int)
    requires
        b.wf(),
        0 <= sq < 64,
    ensures
        b.piece_list@[sq] == Pieces::NONE <==> b.vacant(sq),
        forall|s: int, p: int|
            0 <= s < 2 && 0 <= p < 6 && #[trigger] has_bit(bb_of(b.pieces, s, p), sq)
                ==> b.piece_list@[sq] as int == p,
{
    lemma_type_on_first(b.pieces, sq, 0);
    if b.vacant(sq) {
        lemma_type_on_vacant(b.pieces, sq);
    } else {
        let (s, p) = choose|s: int, p: int|
            0 <= s < 2 && 0 <= p < 6 && #[trigger] has_bit(bb_of(b.pieces, s, p), sq);
        lemma_type_on_held(b.pieces, sq, s, p);
    }
    assert forall|s: int, p: int|
        0 <= s < 2 && 0 <= p < 6 && #[trigger] has_bit(bb_of(b.pieces, s, p), sq) implies b.piece_list@[sq] as int == p by {
        lemma_type_on_held(b.pieces, sq, s, p);
    }
}

proof fn lemma_zero_bits()
    ensures
        forall|i: int| !#[trigger] has_bit(0u64, i),
{
    assert forall|i: int| !#[trigger] has_bit(0u64, i) by {
        if 0 <= i < 64 {
            let j = i as u64;
            assert((0u64 >> j) & 1u64 == 0u64) by (bit_vector);
        }
    }
}

/// Setting the bit of `sq` adds `sq` and nothing else.
pub proof fn lemma_bit_set(x: u64, sq: int)
    requires
        0 <= sq < 64,
    ensures
        forall|i: int|
            #[trigger] has_bit(x | square_mask(sq), i) <==> (has_bit(x, i) || i == sq),
{
    let s = sq as u64;
    assert forall|i: int| #[trigger] has_bit(x | square_mask(sq), i) <==> (has_bit(x, i) || i == sq) by {
        if 0 <= i < 64 {
            let j = i as u64;
            assert(((x | (1u64 << s)) >> j) & 1u64 == 1u64 <==> ((x >> j) & 1u64 == 1u64 || j == s))
                by (bit_vector)
                requires
                    j < 64,
                    s < 64,
            ;
        }
    }
}

/// Clearing the bit of `sq` removes `sq` and nothing else.
pub proof fn lemma_bit_clear(x: u64, sq: int)
    requires
        0 <= sq < 64,
    ensures
        forall|i: int|
            #[trigger] has_bit(x & !square_mask(sq), i) <==> (has_bit(x, i) && i != sq),
{
    let s = sq as u64;
    assert forall|i: int| #[trigger] has_bit(x & !square_mask(sq), i) <==> (has_bit(x, i) && i != sq) by {
        if 0 <= i < 64 {
            let j = i as u64;
            assert(((x & !(1u64 << s)) >> j) & 1u64 == 1u64 <==> ((x >> j) & 1u64 == 1u64 && j != s))
                by (bit_vector)
                requires
                    j < 64,
                    s < 64,
            ;
        }
    }
}

/// A bitboard without `sq` shares no bit with the mask of `sq`.
pub proof fn lemma_bit_absent(x: u64, sq: int)
    requires
        0 <= sq < 64,
        !has_bit(x, sq),
    ensures
        x & square_mask(sq) == 0,
{
    let s = sq as u64;
    assert((x >> s) & 1u64 != 1u64 ==> x & (1u64 << s) == 0) by (bit_vector)
        requires
            s < 64,
    ;
}

proof fn lemma_union_set(a: Seq<u64>, p: int, m: u64)
    requires
        a.len() == 6,
        0 <= p < 6,
    ensures
        union6(a.update(p, a[p] | m)) == union6(a) | m,
{
    let (a0, a1, a2, a3, a4, a5) = (a[0], a[1], a[2], a[3], a[4], a[5]);
    let b = a.update(p, a[p] | m);
    if p == 0 {
        assert((a0 | m) | a1 | a2 | a3 | a4 | a5 == (a0 | a1 | a2 | a3 | a4 | a5) | m) by (bit_vector);
    } else if p == 1 {
        assert(a0 | (a1 | m) | a2 | a3 | a4 | a5 == (a0 | a1 | a2 | a3 | a4 | a5) | m) by (bit_vector);
    } else if p == 2 {
        assert(a0 | a1 | (a2 | m) | a3 | a4 | a5 == (a0 | a1 | a2 | a3 | a4 | a5) | m) by (bit_vector);
    } else if p == 3 {
        assert(a0 | a1 | a2 | (a3 | m) | a4 | a5 == (a0 | a1 | a2 | a3 | a4 | a5) | m) by (bit_vector);
    } else if p == 4 {
        assert(a0 | a1 | a2 | a3 | (a4 | m) | a5 == (a0 | a1 | a2 | a3 | a4 | a5) | m) by (bit_vector);
    } else {
        assert(a0 | a1 | a2 | a3 | a4 | (a5 | m) == (a0 | a1 | a2 | a3 | a4 | a5) | m) by (bit_vector);
    }
}

proof fn lemma_union_clear(a: Seq<u64>, p: int, m: u64)
    requires
        a.len() == 6,
        0 <= p < 6,
        forall|q: int| 0 <= q < 6 && q != p ==> #[trigger] a[q] & m == 0,
    ensures
        union6(a.update(p, a[p] & !m)) == union6(a) & !m,
{
    let (a0, a1, a2, a3, a4, a5) = (a[0], a[1], a[2], a[3], a[4], a[5]);
    assert(a[0] & m == 0 || p == 0);
    assert(a[1] & m == 0 || p == 1);
    assert(a[2] & m == 0 || p == 2);
    assert(a[3] & m == 0 || p == 3);
    assert(a[4] & m == 0 || p == 4);
    assert(a[5] & m == 0 || p == 5);
    if p == 0 {
        assert(a1 & m == 0 && a2 & m == 0 && a3 & m == 0 && a4 & m == 0 && a5 & m == 0 ==> (a0 & !m)
            | a1 | a2 | a3 | a4 | a5 == (a0 | a1 | a2 | a3 | a4 | a5) & !m) by (bit_vector);
    } else if p == 1 {
        assert(a0 & m == 0 && a2 & m == 0 && a3 & m == 0 && a4 & m == 0 && a5 & m == 0 ==> a0 | (a1
            & !m) | a2 | a3 | a4 | a5 == (a0 | a1 | a2 | a3 | a4 | a5) & !m) by (bit_vector);
    } else if p == 2 {
        assert(a0 & m == 0 && a1 & m == 0 && a3 & m == 0 && a4 & m == 0 && a5 & m == 0 ==> a0 | a1
            | (a2 & !m) | a3 | a4 | a5 == (a0 | a1 | a2 | a3 | a4 | a5) & !m) by (bit_vector);
    } else if p == 3 {
        assert(a0 & m == 0 && a1 & m == 0 && a2 & m == 0 && a4 & m == 0 && a5 & m == 0 ==> a0 | a1
            | a2 | (a3 & !m) | a4 | a5 == (a0 | a1 | a2 | a3 | a4 | a5) & !m) by (bit_vector);
    } else if p == 4 {
        assert(a0 & m == 0 && a1 & m == 0 && a2 & m == 0 && a3 & m == 0 && a5 & m == 0 ==> a0 | a1
            | a2 | a3 | (a4 & !m) | a5 == (a0 | a1 | a2 | a3 | a4 | a5) & !m) by (bit_vector);
    } else {
        assert(a0 & m == 0 && a1 & m == 0 && a2 & m == 0 && a3 & m == 0 && a4 & m == 0 ==> a0 | a1
            | a2 | a3 | a4 | (a5 & !m) == (a0 | a1 | a2 | a3 | a4 | a5) & !m) by (bit_vector);
    }
}

/// `type_on_from` gives the first type from `p` on that holds `sq`.
proof fn lemma_type_on_first(a: [[Bitboard; 6]; 2], sq: int, p: int)
    requires
        0 <= p <= 6,
    ensures
        p <= type_on_from(a, sq, p) <= 6,
        type_on_from(a, sq, p) < 6 ==> has_bit(bb_of(a, 0, type_on_from(a, sq, p)), sq) || has_bit(
            bb_of(a, 1, type_on_from(a, sq, p)),
            sq,
        ),
        forall|s: int, q: int|
            0 <= s < 2 && p <= q < type_on_from(a, sq, p) ==> !#[trigger] has_bit(bb_of(a, s, q), sq),
    decreases 6 - p,
{
    if p < 6 {
        lemma_type_on_first(a, sq, p + 1);
    }
}

/// Boards whose bitboards agree on `sq` have the same type there.
proof fn lemma_type_on_same(a: [[Bitboard; 6]; 2], b: [[Bitboard; 6]; 2], sq: int)
    requires
        forall|s: int, p: int|
            0 <= s < 2 && 0 <= p < 6 ==> #[trigger] has_bit(bb_of(a, s, p), sq) == has_bit(
                bb_of(b, s, p),
                sq,
            ),
    ensures
        type_on(a, sq) == type_on(b, sq),
{
    lemma_type_on_first(a, sq, 0);
    lemma_type_on_first(b, sq, 0);
    let ta = type_on(a, sq);
    let tb = type_on(b, sq);
    if ta < tb {
        assert(has_bit(bb_of(b, 0, ta), sq) || has_bit(bb_of(b, 1, ta), sq));
    } else if tb < ta {
        assert(has_bit(bb_of(a, 0, tb), sq) || has_bit(bb_of(a, 1, tb), sq));
    }
}

/// On a board without overlaps, a square held by `p` has type `p`.
proof fn lemma_type_on_held(a: [[Bitboard; 6]; 2], sq: int, s: int, p: int)
    requires
        pieces_disjoint(a),
        0 <= s < 2,
        0 <= p < 6,
        has_bit(bb_of(a, s, p), sq),
    ensures
        type_on(a, sq) == p,
{
    lemma_type_on_first(a, sq, 0);
    let t = type_on(a, sq);
    if t < p {
        if has_bit(bb_of(a, 0, t), sq) {
            assert(has_bit(bb_of(a, s, p), sq));
        } else {
            assert(has_bit(bb_of(a, 1, t), sq));
        }
    }
}

/// A square that no bitboard holds has no type.
proof fn lemma_type_on_vacant(a: [[Bitboard; 6]; 2], sq: int)
    requires
        !occupied(a, sq),
    ensures
        type_on(a, sq) == 6,
{
    lemma_type_on_first(a, sq, 0);
    let t = type_on(a, sq);
    if t < 6 {
        if has_bit(bb_of(a, 0, t), sq) {
            assert(occupied(a, sq));
        } else {
            assert(occupied(a, sq));
        }
    }
}

proof fn lemma_blank_wf(b: &Board)
    requires
        b.is_blank(),
    ensures
        b.wf(),
{
    lemma_zero_bits();
    assert forall|s: int, p: int, i: int| 0 <= s < 2 && 0 <= p < 6 implies !#[trigger] has_bit(
        bb_of(b.pieces, s, p),
        i,
    ) by {
        assert(bb_of(b.pieces, s, p) == 0);
    }
    assert forall|s: int| 0 <= s < 2 implies #[trigger] b.side@[s] == union6(b.pieces@[s]@) by {
        assert(bb_of(b.pieces, s, 0) == 0 && bb_of(b.pieces, s, 1) == 0 && bb_of(b.pieces, s, 2) == 0 && bb_of(b.pieces, s, 3) == 0 && bb_of(b.pieces, s, 4)
            == 0 && bb_of(b.pieces, s, 5) == 0);
        assert(0u64 | 0u64 | 0u64 | 0u64 | 0u64 | 0u64 == 0u64) by (bit_vector);
    }
    assert forall|sq: int| 0 <= sq < 64 implies #[trigger] b.piece_list@[sq] as int == type_on(
        b.pieces,
        sq,
    ) by {
        lemma_type_on_vacant(b.pieces, sq);
    }
}

proof fn lemma_remove_wf(b0: Board, b1: Board, side: int, piece: int, sq: int)
    requires
        b0.wf(),
        0 <= side < 2,
        0 <= piece < 6,
        0 <= sq < 64,
        has_bit(bb_of(b0.pieces, side, piece), sq),
        b1.pieces@ == b0.pieces@.update(side, b1.pieces@[side]),
        b1.pieces@[side]@ == b0.pieces@[side]@.update(piece, bb_of(b0.pieces, side, piece) & !square_mask(sq)),
        b1.side@ == b0.side@.update(side, b0.side@[side] & !square_mask(sq)),
        b1.piece_list@ == b0.piece_list@.update(sq, Pieces::NONE),
    ensures
        b1.wf(),
        b1.others_same(&b0, side, piece),
        !occupied(b1.pieces, sq),
{
    let m = square_mask(sq);
    lemma_bit_clear(bb_of(b0.pieces, side, piece), sq);
    assert(b1.others_same(&b0, side, piece));
    // Every bit of the new board was a bit of the old one, and only `sq` left.
    assert forall|s: int, p: int, i: int| 0 <= s < 2 && 0 <= p < 6 implies #[trigger] has_bit(
        bb_of(b1.pieces, s, p),
        i,
    ) == (has_bit(bb_of(b0.pieces, s, p), i) && i != sq) by {
        if s == side && p == piece {
        } else if has_bit(bb_of(b0.pieces, s, p), sq) {
            assert(has_bit(bb_of(b0.pieces, side, piece), sq));
        }
    }
    let row = b0.pieces@[side]@;
    assert forall|q: int| 0 <= q < 6 && q != piece implies #[trigger] row[q] & m == 0 by {
        assert(!has_bit(bb_of(b0.pieces, side, q), sq));
        lemma_bit_absent(row[q], sq);
    }
    lemma_union_clear(row, piece, m);
    assert forall|s: int| 0 <= s < 2 implies #[trigger] b1.side@[s] == union6(b1.pieces@[s]@) by {
        if s == side {
            assert(b1.pieces@[s]@ == row.update(piece, row[piece] & !m));
        } else {
            assert(b1.side@[s] == b0.side@[s]);
        }
    }
    assert forall|i: int| 0 <= i < 64 implies #[trigger] b1.piece_list@[i] as int == type_on(
        b1.pieces,
        i,
    ) by {
        if i == sq {
            lemma_type_on_vacant(b1.pieces, i);
        } else {
            lemma_type_on_same(b0.pieces, b1.pieces, i);
        }
    }
}

proof fn lemma_put_wf(b0: Board, b1: Board, side: int, piece: int, sq: int)
    requires
        b0.wf(),
        0 <= side < 2,
        0 <= piece < 6,
        0 <= sq < 64,
        b0.vacant(sq),
        b1.pieces@ == b0.pieces@.update(side, b1.pieces@[side]),
        b1.pieces@[side]@ == b0.pieces@[side]@.update(piece, bb_of(b0.pieces, side, piece) | square_mask(sq)),
        b1.side@ == b0.side@.update(side, b0.side@[side] | square_mask(sq)),
        b1.piece_list@ == b0.piece_list@.update(sq, piece as usize),
    ensures
        b1.wf(),
        b1.others_same(&b0, side, piece),
{
    let m = square_mask(sq);
    lemma_bit_set(bb_of(b0.pieces, side, piece), sq);
    assert(b1.others_same(&b0, side, piece));
    assert forall|s: int, p: int, i: int| 0 <= s < 2 && 0 <= p < 6 implies #[trigger] has_bit(
        bb_of(b1.pieces, s, p),
        i,
    ) == (has_bit(bb_of(b0.pieces, s, p), i) || (i == sq && s == side && p == piece)) by {
        if s == side && p == piece {
        } else {
        }
    }
    assert forall|s1: int, p1: int, s2: int, p2: int, i: int|
        0 <= s1 < 2 && 0 <= p1 < 6 && 0 <= s2 < 2 && 0 <= p2 < 6 && #[trigger] has_bit(
            bb_of(b1.pieces, s1, p1),
            i,
        ) && #[trigger] has_bit(bb_of(b1.pieces, s2, p2), i) implies s1 == s2 && p1 == p2 by {
        if i == sq {
            if !(s1 == side && p1 == piece) {
                assert(has_bit(bb_of(b0.pieces, s1, p1), sq));
            }
            if !(s2 == side && p2 == piece) {
                assert(has_bit(bb_of(b0.pieces, s2, p2), sq));
            }
        }
    }
    let row = b0.pieces@[side]@;
    lemma_union_set(row, piece, m);
    assert forall|s: int| 0 <= s < 2 implies #[trigger] b1.side@[s] == union6(b1.pieces@[s]@) by {
        if s == side {
            assert(b1.pieces@[s]@ == row.update(piece, row[piece] | m));
        } else {
            assert(b1.side@[s] == b0.side@[s]);
        }
    }
    assert forall|i: int| 0 <= i < 64 implies #[trigger] b1.piece_list@[i] as int == type_on(
        b1.pieces,
        i,
    ) by {
        if i == sq {
            lemma_type_on_held(b1.pieces, i, side, piece);
        } else {
            lemma_type_on_same(b0.pieces, b1.pieces, i);
        }
    }
}

} // verus!
