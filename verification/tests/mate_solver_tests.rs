use std::sync::Arc;

use hyzero::game::board::GameResult;
use hyzero::game::fen::board_from_fen;
use hyzero::game::mate_solver::{apply_move, find_forced_mate, find_mate_move, legal_moves, opponent_is_lost, NodeBudget, MAX_NODES};
use hyzero::game::{GameBoard, Move};
use hyzero::{Color, PrecomputedItems};

fn precomputed() -> Arc<PrecomputedItems> {
    Arc::new(PrecomputedItems::begin_precomputing().expect("tables"))
}

fn from_fen(fen: &str) -> (GameBoard, Color) {
    let (board, side, _full) = board_from_fen(fen, precomputed()).expect("test FEN should parse");
    (board, side)
}

fn move_str(mv: &Move) -> String {
    let f = mv.from.index();
    let t = mv.to.index();
    format!(
        "{}{}{}{}",
        (b'a' + f % 8) as char,
        (b'1' + f / 8) as char,
        (b'a' + t % 8) as char,
        (b'1' + t / 8) as char,
    )
}

fn move_delivers_mate(board: &GameBoard, mv: Move, color: Color) -> bool {
    let next = apply_move(board, mv, color);
    next.result() == GameResult::Checkmate(color)
}

#[test]
fn finds_mate_in_one_queen_box() {
    let (board, side) = from_fen("7k/8/5KQ1/8/8/8/8/8 w - - 0 1");
    assert_eq!(side, Color::White);
    let mv = find_forced_mate(&board, side, 1).expect("mate-in-1 should be found");
    assert_eq!(move_str(&mv), "g6g7", "mating move should be Qg7#");
    assert!(move_delivers_mate(&board, mv, side));
}

#[test]
fn finds_mate_in_two_at_three_plies_but_not_one() {
    let (board, side) = from_fen("7k/8/4QK2/8/8/8/8/8 w - - 0 1");
    assert_eq!(side, Color::White);
    assert!(find_forced_mate(&board, side, 1).is_none(), "position is not mate-in-1");
    let mv = find_forced_mate(&board, side, 3).expect("mate-in-2 should be found at 3 plies");
    assert!(
        legal_moves(&board, side).iter().any(|m| move_str(m) == move_str(&mv)),
        "returned move must be legal"
    );
    let after = apply_move(&board, mv, side);
    assert_eq!(after.result(), GameResult::Ongoing);
    let mut budget = NodeBudget { used: 0, cap: MAX_NODES };
    assert!(
        opponent_is_lost(&after, Color::Black, 2, &mut budget),
        "after the solver's move, black must be lost within 2 plies"
    );
}

#[test]
fn no_false_positive_on_stalemate_trap() {
    let (board, side) = from_fen("7k/8/5K2/3Q4/8/8/8/8 w - - 0 1");
    assert_eq!(side, Color::White);
    let trap = legal_moves(&board, side)
        .into_iter()
        .find(|m| move_str(m) == "d5f7")
        .expect("Qd5-f7 should be legal");
    assert_eq!(apply_move(&board, trap, side).result(), GameResult::Stalemate, "Qd5-f7 must stalemate, not mate");
    assert!(find_forced_mate(&board, side, 1).is_none(), "no mate-in-1: the tempting queen move only stalemates");
}

#[test]
fn disabled_returns_none_without_search() {
    let (board, side) = from_fen("7k/8/5KQ1/8/8/8/8/8 w - - 0 1");
    assert!(find_forced_mate(&board, side, 0).is_none(), "max_plies==0 disables the solver");
}

#[test]
fn node_cap_overflow_returns_none() {
    let (board, side) = from_fen("r1bqkbnr/pppppppp/2n5/8/8/2N5/PPPPPPPP/R1BQKBNR w KQkq - 0 1");
    let mut budget = NodeBudget { used: 0, cap: 50 };
    assert!(find_mate_move(&board, side, 7, &mut budget).is_none(), "tiny node budget must abort with None, not a false mate");
    assert!(budget.used >= budget.cap, "budget should have been exhausted");
}
