//! Game metadata owned by a board.
use vstd::prelude::*;

verus! {

/// Side to move, castling flags, en-passant target and the two move counters.
#[derive(Clone, Copy, Debug, PartialEq, Eq)]
pub struct GameState {
    pub active_color: u8,
    pub castling_rights: u8,
    pub halfmove_clock: u8,
    pub en_passant: Option<u8>,
    pub fullmove_number: u16,
}

/// The metadata of a freshly built board: everything zero, no en-passant target.
pub open spec fn fresh_game_state() -> GameState {
    GameState {
        active_color: 0,
        castling_rights: 0,
        halfmove_clock: 0,
        en_passant: None,
        fullmove_number: 0,
    }
}

impl GameState {
    /// Metadata with every field zero and no en-passant target.
    pub fn new() -> (r: Self)
        ensures
            r == fresh_game_state(),
    {
        Self {
            active_color: 0,
            castling_rights: 0,
            en_passant: None,
            halfmove_clock: 0,
            fullmove_number: 0,
        }
    }
}

} // verus!
