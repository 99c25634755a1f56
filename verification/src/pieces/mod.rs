use vstd::prelude::*;
use crate::{Color, PieceType};

pub mod pawn;
pub mod knight;
pub mod bishop;
pub mod mod_rook;
pub mod queen;
pub mod king;

verus! {

/// What every piece can say of itself.
pub trait Piece {
    fn get_piece_type(&self) -> PieceType;

    fn get_color(&self) -> Color;
}

} // verus!
