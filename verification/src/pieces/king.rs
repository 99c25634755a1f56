use vstd::prelude::*;
use crate::{Color, PieceType};
use super::Piece;

verus! {

/// A king of one side.
pub struct King {
    pub color: Color,
}

impl Piece for King {
    fn get_piece_type(&self) -> (r: PieceType)
        ensures
            r == PieceType::King,
    {
        PieceType::King
    }

    fn get_color(&self) -> (r: Color)
        ensures
            r == self.color,
    {
        self.color
    }
}

} // verus!
