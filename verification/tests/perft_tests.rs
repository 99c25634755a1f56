use std::sync::Arc;

use hyzero::game::fen::board_from_fen;
use hyzero::game::perft::{get_legal_moves_for_perft, move_to_uci, perft, perft_divide, square_name};
use hyzero::game::Move;
use hyzero::{PieceType, PrecomputedItems, Square};

fn precomputed() -> Arc<PrecomputedItems> {
    Arc::new(PrecomputedItems::begin_precomputing().expect("tables"))
}

fn perft_fen(fen: &str, depth: u32) -> u64 {
    let pc = precomputed();
    let (board, color, _) = board_from_fen(fen, pc.clone()).unwrap();
    perft(&board, color, depth, &pc)
}

const START: &str = "rnbqkbnr/pppppppp/8/8/8/8/PPPPPPPP/RNBQKBNR w KQkq - 0 1";
const KIWIPETE: &str = "r3k2r/p1ppqpb1/bn2pnp1/3PN3/1p2P3/2N2Q1p/PPPBBPPP/R3K2R w KQkq - 0 1";
const POS3: &str = "8/2p5/3p4/KP5r/1R3p1k/8/4P1P1/8 w - - 0 1";
const POS5: &str = "rnbq1k1r/pp1Pbppp/2p5/8/2B5/8/PPP1NnPP/RNBQK2R w KQ - 1 8";

#[test]
fn test_perft_startpos_d1() {
    assert_eq!(perft_fen(START, 1), 20);
}

#[test]
fn test_perft_startpos_d2() {
    assert_eq!(perft_fen(START, 2), 400);
}

#[test]
fn test_perft_startpos_d3() {
    assert_eq!(perft_fen(START, 3), 8902);
}

#[test]
fn test_perft_kiwipete_d1() {
    assert_eq!(perft_fen(KIWIPETE, 1), 48);
}

#[test]
fn test_perft_kiwipete_d2() {
    assert_eq!(perft_fen(KIWIPETE, 2), 2039);
}

#[test]
fn test_perft_pos3_d1() {
    assert_eq!(perft_fen(POS3, 1), 14);
}

#[test]
fn test_perft_pos3_d2() {
    assert_eq!(perft_fen(POS3, 2), 191);
}

#[test]
fn test_perft_pos3_d3() {
    assert_eq!(perft_fen(POS3, 3), 2812);
}

#[test]
fn test_perft_pos5_d1() {
    assert_eq!(perft_fen(POS5, 1), 44);
}

#[test]
fn test_perft_pos5_d2() {
    assert_eq!(perft_fen(POS5, 2), 1486);
}

#[test]
fn perft_divide_rows_sum_to_perft() {
    let pc = precomputed();
    let (board, color, _) = board_from_fen(START, pc.clone()).unwrap();
    let (rows, total) = perft_divide(&board, color, 2, &pc);
    assert_eq!(rows.len(), 20);
    assert!(rows.iter().all(|(_, c)| *c == 20));
    assert_eq!(total, 400);
    assert_eq!(total, rows.iter().map(|(_, c)| c).sum::<u64>());
    let listed = get_legal_moves_for_perft(&board, color);
    for (i, (mv, _)) in rows.iter().enumerate() {
        assert_eq!(move_to_uci(*mv), move_to_uci(listed[i]));
    }
}

#[test]
fn perft_divide_depth_one_counts_each_move_once() {
    let pc = precomputed();
    let (board, color, _) = board_from_fen(KIWIPETE, pc.clone()).unwrap();
    let (rows, total) = perft_divide(&board, color, 1, &pc);
    assert_eq!(rows.len(), 48);
    assert!(rows.iter().all(|(_, c)| *c == 1));
    assert_eq!(total, 48);
}

#[test]
fn square_names_follow_algebraic_notation() {
    assert_eq!(square_name(0), "a1");
    assert_eq!(square_name(28), "e4");
    assert_eq!(square_name(63), "h8");
}

#[test]
fn uci_notation_of_moves() {
    let e2e4 = Move { from: Square::E2, to: Square::E4, promotion_piece_type: None, castle_option: None, en_passant: false };
    assert_eq!(move_to_uci(e2e4), "e2e4");
    let promo = Move {
        from: Square::A7,
        to: Square::A8,
        promotion_piece_type: Some(PieceType::Knight),
        castle_option: None,
        en_passant: false,
    };
    assert_eq!(move_to_uci(promo), "a7a8n");
}
