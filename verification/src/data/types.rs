use vstd::prelude::*;

verus! {

/// An index into the action space.
pub type ActionIndex = u16;

/// Size of the action space: the base actions and the underpromotion slots.
pub const NUM_ACTIONS: usize = 4672;

/// Base actions: `from_square * 64 + to_square`.
pub const NUM_BASE_ACTIONS: usize = 4096;

/// Underpromotion slots: three piece kinds, eight files of origin, 24 slots each.
pub const NUM_UNDERPROMO_ACTIONS: usize = 576;

/// Positions in an observation: the current one and seven before it.
pub const NUM_HISTORY_POSITIONS: usize = 8;

/// Planes of an observation.
pub const NUM_OBS_PLANES: usize = 110;

/// The piece placement of a position, kept for the history of an observation.
#[derive(Debug, Clone)]
pub struct BoardSnapshot {
    /// White's bitboards by kind (Pawn..King).
    pub white_pieces_bb: [u64; 6],
    /// Black's bitboards by kind (Pawn..King).
    pub black_pieces_bb: [u64; 6],
    /// The position had occurred before when it was the current one.
    pub repeated: bool,
}

} // verus!
