use vstd::prelude::*;
use crate::{Color, PieceType};
use super::Piece;

verus! {

/// A queen of one side.
pub struct Queen {
    pub color: Color,
}

impl Piece for Queen {
    fn get_piece_type(&self) -> (r: PieceType)
        ensures
            r == PieceType::Queen,
    {
        PieceType::Queen
    }

    fn get_color(&self) -> (r: Color)
        ensures
            r == self.color,
    {
        self.color
    }
}

} // verus!
