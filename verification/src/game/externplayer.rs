use vstd::prelude::*;
use crate::Color;

verus! {

/// A player whose moves come from outside the program; it keeps the piece bitboards it
/// was given and its side.
#[derive(Debug, Clone)]
pub struct ExternPlayer {
    board: [u64; 6],
    color: Color,
}

impl ExternPlayer {
    /// A player of `color` holding the piece bitboards `board`.
    pub fn new(board: [u64; 6], color: Color) -> (r: Self)
        ensures
            r.board_view() == board@,
            r.side() == color,
    {
        ExternPlayer { board, color }
    }

    /// The piece bitboards this player holds.
    pub closed spec fn board_view(&self) -> Seq<u64> {
        self.board@
    }

    /// This player's side.
    pub closed spec fn side(&self) -> Color {
        self.color
    }

    /// Brings the player's view of the board up to date; it keeps none beyond what it was
    /// given, so nothing changes.
    pub fn update_board(&mut self)
        ensures
            *final(self) == *old(self),
    {
    }
}

} // verus!
