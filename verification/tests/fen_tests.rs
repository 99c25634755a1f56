use std::sync::Arc;

use hyzero::game::fen::board_from_fen;
use hyzero::{Color, PieceType, PrecomputedItems};

fn precomputed() -> Arc<PrecomputedItems> {
    Arc::new(PrecomputedItems::begin_precomputing().expect("tables"))
}

#[test]
fn test_fen_starting_position() {
    let (board, color, fullmove) =
        board_from_fen("rnbqkbnr/pppppppp/8/8/8/8/PPPPPPPP/RNBQKBNR w KQkq - 0 1", precomputed()).unwrap();
    assert_eq!(color, Color::White);
    assert_eq!(fullmove, 1);
    assert!(board.white_kingside);
    assert!(board.white_queenside);
    assert!(board.black_kingside);
    assert!(board.black_queenside);
    assert_eq!(board.en_passant_target, None);
    assert_eq!(board.halfmove_clock, 0);
    assert_eq!(board.player1.pieces_bb[PieceType::Pawn as usize], 0x000000000000FF00);
    assert_eq!(board.player2.pieces_bb[PieceType::Pawn as usize], 0x00FF000000000000);
}

#[test]
fn test_fen_midgame() {
    let (board, color, _) = board_from_fen(
        "r1bqkb1r/pppp1ppp/2n2n2/4p3/2B1P3/5N2/PPPP1PPP/RNBQK2R w KQkq - 4 4",
        precomputed(),
    )
    .unwrap();
    assert_eq!(color, Color::White);
    assert_eq!(board.halfmove_clock, 4);
    assert!(board.board_arr[26].is_some());
    assert_eq!(board.board_arr[26].unwrap().piece_type, PieceType::Bishop);
    assert_eq!(board.board_arr[26].unwrap().color, Color::White);
    assert!(board.board_arr[21].is_some());
    assert_eq!(board.board_arr[21].unwrap().piece_type, PieceType::Knight);
}

#[test]
fn test_fen_castling_partial() {
    let (board, _, _) = board_from_fen("r3k2r/8/8/8/8/8/8/R3K2R w Kq - 0 1", precomputed()).unwrap();
    assert!(board.white_kingside);
    assert!(!board.white_queenside);
    assert!(!board.black_kingside);
    assert!(board.black_queenside);
}

#[test]
fn test_fen_en_passant() {
    let (board, _, _) =
        board_from_fen("rnbqkbnr/ppp1pppp/8/3pP3/8/8/PPPP1PPP/RNBQKBNR w KQkq d6 0 3", precomputed()).unwrap();
    assert_eq!(board.en_passant_target, Some(43));
}

#[test]
fn test_fen_black_to_move() {
    let (_, color, _) =
        board_from_fen("rnbqkbnr/pppppppp/8/8/4P3/8/PPPP1PPP/RNBQKBNR b KQkq e3 0 1", precomputed()).unwrap();
    assert_eq!(color, Color::Black);
}

#[test]
fn normfen_reproduces_first_four_fen_fields() {
    let fen = "r1bqkb1r/pppp1ppp/2n2n2/4p3/2B1P3/5N2/PPPP1PPP/RNBQK2R w KQkq - 4 4";
    let (board, color, _) = board_from_fen(fen, precomputed()).unwrap();
    let expected: String = fen.split_whitespace().take(4).collect::<Vec<_>>().join(" ");
    assert_eq!(board.to_normfen(color), expected);
}

#[test]
fn normfen_ignores_clock_fields() {
    let base = "4k3/8/4K3/8/8/8/4R3/8 w - -";
    let (b1, c1, _) = board_from_fen(&format!("{base} 0 1"), precomputed()).unwrap();
    let (b2, c2, _) = board_from_fen(&format!("{base} 37 99"), precomputed()).unwrap();
    assert_eq!(b1.to_normfen(c1), b2.to_normfen(c2));
    assert_eq!(b1.to_normfen(c1), base);
}

#[test]
fn normfen_preserves_en_passant_square() {
    let fen = "rnbqkbnr/ppp1pppp/8/3pP3/8/8/PPPP1PPP/RNBQKBNR w KQkq d6 0 3";
    let (board, color, _) = board_from_fen(fen, precomputed()).unwrap();
    assert_eq!(board.to_normfen(color), "rnbqkbnr/ppp1pppp/8/3pP3/8/8/PPPP1PPP/RNBQKBNR w KQkq d6");
}

#[test]
fn normfen_read_back_gives_the_same_position() {
    let pc = precomputed();
    for fen in [
        "r3k2r/p1ppqpb1/bn2pnp1/3PN3/1p2P3/2N2Q1p/PPPBBPPP/R3K2R w KQkq - 0 1",
        "rnbqkbnr/ppp1pppp/8/3pP3/8/8/PPPP1PPP/RNBQKBNR w KQkq d6 0 3",
        "8/2p5/3p4/KP5r/1R3p1k/8/4P1P1/8 b - - 12 40",
    ] {
        let (board, color, _) = board_from_fen(fen, pc.clone()).unwrap();
        let written = format!("{} 0 1", board.to_normfen(color));
        let (back, back_color, fullmove) = board_from_fen(&written, pc.clone()).unwrap();
        assert_eq!(back_color, color);
        assert_eq!(fullmove, 1);
        assert_eq!(back.halfmove_clock, 0);
        assert_eq!(back.board_arr, board.board_arr);
        assert_eq!(back.en_passant_target, board.en_passant_target);
        assert_eq!(
            (back.white_kingside, back.white_queenside, back.black_kingside, back.black_queenside),
            (board.white_kingside, board.white_queenside, board.black_kingside, board.black_queenside)
        );
        assert_eq!(back.to_normfen(back_color), board.to_normfen(color));
    }
}

#[test]
fn fen_errors_name_the_fault() {
    let pc = precomputed();
    let short = board_from_fen("8/8/8 w - -", pc.clone());
    assert_eq!(short.err(), Some("FEN must have 6 fields, got 4".to_string()));
    let ranks = board_from_fen("8/8/8/8/8/8/8 w - - 0 1", pc.clone());
    assert_eq!(ranks.err(), Some("Piece placement must have 8 ranks, got 7".to_string()));
    let side = board_from_fen("8/8/8/8/8/8/8/8 x - - 0 1", pc);
    assert_eq!(side.err(), Some("Unknown active color 'x'".to_string()));
}

fn fen_error(fen: &str) -> String {
    match board_from_fen(fen, precomputed()) {
        Ok(_) => panic!("expected an error for {fen}"),
        Err(e) => e,
    }
}

#[test]
fn first_rank_overrun_is_an_error() {
    assert_eq!(fen_error("8p/8/8/8/8/8/8/8 w - - 0 1"), "Rank 0 has 9 squares, expected 8");
}

#[test]
fn first_rank_overrun_by_two_pieces_is_an_error() {
    assert_eq!(fen_error("8pp/8/8/8/8/8/8/8 w - - 0 1"), "Rank 0 overflows: too many squares");
}

#[test]
fn en_passant_field_below_a_is_an_error() {
    assert_eq!(
        fen_error("4k3/8/8/8/8/8/8/4K3 w - A3 0 1"),
        "Invalid en passant field 'A3'"
    );
}

#[test]
fn en_passant_field_below_rank_one_is_an_error() {
    assert_eq!(
        fen_error("4k3/8/8/8/8/8/8/4K3 w - e0 0 1"),
        "Invalid en passant field 'e0'"
    );
}

#[test]
fn read_position_is_playable() {
    let (board, _, _) =
        board_from_fen("rnbqkbnr/pppppppp/8/8/8/8/PPPPPPPP/RNBQKBNR w KQkq - 0 1", precomputed()).unwrap();
    assert!(board.is_playable());
}

#[test]
fn position_without_a_king_is_not_playable() {
    let (board, _, _) = board_from_fen("4k3/8/8/8/8/8/8/8 w - - 0 1", precomputed()).unwrap();
    assert!(!board.is_playable());
}

#[test]
fn castling_right_without_its_rook_is_not_playable() {
    let (board, _, _) = board_from_fen("4k3/8/8/8/8/8/8/4K3 w K - 0 1", precomputed()).unwrap();
    assert!(!board.is_playable());
}

#[test]
fn en_passant_target_without_its_pawn_is_not_playable() {
    let (board, _, _) = board_from_fen("4k3/8/8/8/8/8/8/4K3 w - e3 0 1", precomputed()).unwrap();
    assert!(!board.is_playable());
}
