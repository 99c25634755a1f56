use vstd::prelude::*;
use std::sync::Arc;
use crate::{PieceType, Square, CastleOption, PrecomputedItems};

pub mod board;
pub mod playerobj;
pub mod externplayer;
pub mod history;
pub mod fen;
pub mod fen_laws;
pub mod perft;
pub mod mate_solver;

pub use playerobj::Player;
pub use board::GameBoard;

verus! {

/// A move: the squares it leaves and reaches, and what kind of move it is.
#[derive(Copy, Debug, Clone)]
pub struct Move {
    pub from: Square,
    pub to: Square,
    pub promotion_piece_type: Option<PieceType>,
    pub castle_option: Option<CastleOption>,
    pub en_passant: bool,
}

impl Default for Move {
    fn default() -> (r: Self)
        ensures
            r == (Move { from: Square::A1, to: Square::A1, promotion_piece_type: None, castle_option: None, en_passant: false }),
    {
        Move { from: Square::A1, to: Square::A1, promotion_piece_type: None, castle_option: None, en_passant: false }
    }
}

/// A game: a board in its starting position between two players.
#[derive(Debug)]
pub struct GameState {
    pub game_state: GameBoard,
}

impl GameState {
    /// A game in the starting position between `player1` (White) and `player2` (Black).
    pub fn init_game_state(precomputed_items: Arc<PrecomputedItems>, player1: Player, player2: Player) -> (r: Self)
        ensures
            r.game_state.board_arr@ == crate::game::playerobj::start_seq(),
            r.game_state.player1 == player1,
            r.game_state.player2 == player2,
            r.game_state.game_result == board::GameResult::Ongoing,
            precomputed_items.wf() && player1.matches_start(crate::Color::White) && player2.matches_start(
                crate::Color::Black,
            ) ==> r.game_state.wf(),
    {
        GameState { game_state: GameBoard::init_game_board(precomputed_items, player1, player2) }
    }
}

} // verus!
