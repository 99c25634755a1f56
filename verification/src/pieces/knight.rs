use vstd::prelude::*;
use crate::{Color, PieceType};
use super::Piece;

verus! {

/// A knight of one side.
pub struct Knight {
    pub color: Color,
}

impl Piece for Knight {
    fn get_piece_type(&self) -> (r: PieceType)
        ensures
            r == PieceType::Knight,
    {
        PieceType::Knight
    }

    fn get_color(&self) -> (r: Color)
        ensures
            r == self.color,
    {
        self.color
    }
}

} // verus!
