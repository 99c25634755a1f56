use vstd::prelude::*;
use crate::{Color, PieceType};
use super::Piece;

verus! {

/// A pawn of one side.
pub struct Pawn {
    pub color: Color,
}

impl Piece for Pawn {
    fn get_piece_type(&self) -> (r: PieceType)
        ensures
            r == PieceType::Pawn,
    {
        PieceType::Pawn
    }

    fn get_color(&self) -> (r: Color)
        ensures
            r == self.color,
    {
        self.color
    }
}

} // verus!
