use std::sync::Arc;

use hyzero::game::board::GameResult;
use hyzero::game::fen::board_from_fen;
use hyzero::game::{GameBoard, Move, Player};
use hyzero::{CastleOption, Color, PieceType, PrecomputedItems, Square};

fn precomputed() -> Arc<PrecomputedItems> {
    Arc::new(PrecomputedItems::begin_precomputing().expect("tables"))
}

fn make_board() -> GameBoard {
    let p1 = Player::init_player(true);
    let p2 = Player::init_player(false);
    GameBoard::init_game_board(precomputed(), p1, p2)
}

fn board_from_fen_unwrap(fen: &str) -> (GameBoard, Color) {
    let (board, color, _) = board_from_fen(fen, precomputed()).unwrap();
    (board, color)
}

fn plain(from: Square, to: Square) -> Move {
    Move { from, to, promotion_piece_type: None, castle_option: None, en_passant: false }
}

#[test]
fn test_zobrist_starting_position() {
    let board1 = make_board();
    let board2 = make_board();
    assert_ne!(board1.zobrist_hash, 0);
    assert_eq!(board1.zobrist_hash, board2.zobrist_hash);
}

#[test]
fn test_zobrist_different_positions() {
    let mut board1 = make_board();
    let board2 = make_board();
    board1.compute_turn_items(0, plain(Square::E2, Square::E4));
    assert_ne!(board1.zobrist_hash, board2.zobrist_hash);
}

#[test]
fn test_zobrist_castling_rights_differ() {
    let board1 = make_board();
    let mut board2 = make_board();
    let wk = board2.precomputed_items.zobrist.castling[0];
    board2.zobrist_hash ^= wk;
    board2.white_kingside = false;
    assert_ne!(board1.zobrist_hash, board2.zobrist_hash);
}

#[test]
fn test_zobrist_ep_differs() {
    let board1 = make_board();
    let mut board2 = make_board();
    let e_file = board2.precomputed_items.zobrist.en_passant_file[4];
    board2.en_passant_target = Some(20);
    board2.zobrist_hash ^= e_file;
    assert_ne!(board1.zobrist_hash, board2.zobrist_hash);
}

#[test]
fn test_initial_white_pawn_moves() {
    let board = make_board();
    let combined = board.combined_pieces;
    let white = board.white_pieces;
    let black = board.black_pieces;
    let mut total_moves = 0u32;
    for sq in 8..16usize {
        let mask = board.get_move_mask(sq, Color::White, PieceType::Pawn, combined, white, black);
        assert_eq!(mask.count_ones(), 2, "pawn on sq {sq} should have exactly 2 moves");
        total_moves += mask.count_ones();
    }
    assert_eq!(total_moves, 16);
}

#[test]
fn test_knight_moves_center() {
    let (board, _) = board_from_fen_unwrap("4k3/8/8/8/4N3/8/8/4K3 w - - 0 1");
    let mask = board.get_move_mask(
        28,
        Color::White,
        PieceType::Knight,
        board.combined_pieces,
        board.white_pieces,
        board.black_pieces,
    );
    assert_eq!(mask.count_ones(), 8);
}

#[test]
fn test_knight_moves_corner() {
    let (board, _) = board_from_fen_unwrap("4k3/8/8/8/8/8/8/N3K3 w - - 0 1");
    let mask = board.get_move_mask(
        0,
        Color::White,
        PieceType::Knight,
        board.combined_pieces,
        board.white_pieces,
        board.black_pieces,
    );
    assert_eq!(mask.count_ones(), 2);
    assert_ne!(mask & (1u64 << 17), 0, "knight should reach b3 (sq 17)");
    assert_ne!(mask & (1u64 << 10), 0, "knight should reach c2 (sq 10)");
}

#[test]
fn test_bishop_blocked_by_own_pieces() {
    let board = make_board();
    let mask = board.get_move_mask(
        2,
        Color::White,
        PieceType::Bishop,
        board.combined_pieces,
        board.white_pieces,
        board.black_pieces,
    );
    assert_eq!(mask, 0);
}

#[test]
fn test_rook_open_file() {
    let (board, _) = board_from_fen_unwrap("4k3/8/8/8/8/8/8/R3K3 w - - 0 1");
    let mask = board.get_move_mask(
        0,
        Color::White,
        PieceType::Rook,
        board.combined_pieces,
        board.white_pieces,
        board.black_pieces,
    );
    assert_eq!(mask.count_ones(), 10);
}

#[test]
fn test_castling_kingside_white() {
    let (mut board, _) = board_from_fen_unwrap("4k3/8/8/8/8/8/8/4K2R w K - 0 1");
    let castle_mv = Move {
        from: Square::E1,
        to: Square::G1,
        promotion_piece_type: None,
        castle_option: Some(CastleOption::Kingside),
        en_passant: false,
    };
    let (combined, white, black) = (board.combined_pieces, board.white_pieces, board.black_pieces);
    assert!(board.validate_move(castle_mv, Color::White, combined, white, black));
    board.compute_turn_items(0, castle_mv);
    assert_eq!(board.player1.pieces_bb[PieceType::King as usize], 1u64 << 6);
    assert_eq!(board.player1.pieces_bb[PieceType::Rook as usize], 1u64 << 5);
    assert_eq!(board.board_arr[6].unwrap().piece_type, PieceType::King);
    assert_eq!(board.board_arr[5].unwrap().piece_type, PieceType::Rook);
}

#[test]
fn test_castling_queenside_white() {
    let (mut board, _) = board_from_fen_unwrap("4k3/8/8/8/8/8/8/R3K3 w Q - 0 1");
    let castle_mv = Move {
        from: Square::E1,
        to: Square::C1,
        promotion_piece_type: None,
        castle_option: Some(CastleOption::Queenside),
        en_passant: false,
    };
    let (combined, white, black) = (board.combined_pieces, board.white_pieces, board.black_pieces);
    assert!(board.validate_move(castle_mv, Color::White, combined, white, black));
    board.compute_turn_items(0, castle_mv);
    assert_eq!(board.player1.pieces_bb[PieceType::King as usize], 1u64 << 2);
    assert_eq!(board.player1.pieces_bb[PieceType::Rook as usize], 1u64 << 3);
    assert_eq!(board.board_arr[2].unwrap().piece_type, PieceType::King);
    assert_eq!(board.board_arr[3].unwrap().piece_type, PieceType::Rook);
}

#[test]
fn test_en_passant_capture() {
    let (mut board, _) = board_from_fen_unwrap("4k3/8/8/3pP3/8/8/8/4K3 w - d6 0 1");
    assert_eq!(board.en_passant_target, Some(43));
    let ep_mv = Move {
        from: Square::E5,
        to: Square::D6,
        promotion_piece_type: None,
        castle_option: None,
        en_passant: true,
    };
    let (combined, white, black) = (board.combined_pieces, board.white_pieces, board.black_pieces);
    assert!(board.validate_move(ep_mv, Color::White, combined, white, black));
    board.compute_turn_items(0, ep_mv);
    assert!(board.board_arr[35].is_none(), "captured pawn on d5 should be removed");
    assert_eq!(board.player2.pieces_bb[PieceType::Pawn as usize], 0);
}

#[test]
fn test_promotion() {
    let (mut board, _) = board_from_fen_unwrap("4k3/P7/8/8/8/8/8/4K3 w - - 0 1");
    let promo_mv = Move {
        from: Square::A7,
        to: Square::A8,
        promotion_piece_type: Some(PieceType::Queen),
        castle_option: None,
        en_passant: false,
    };
    let (combined, white, black) = (board.combined_pieces, board.white_pieces, board.black_pieces);
    assert!(board.validate_move(promo_mv, Color::White, combined, white, black));
    board.compute_turn_items(0, promo_mv);
    assert_eq!(board.player1.pieces_bb[PieceType::Pawn as usize], 0);
    assert_ne!(board.player1.pieces_bb[PieceType::Queen as usize], 0);
    assert_eq!(board.player1.pieces_bb[PieceType::Queen as usize], 1u64 << 56);
    assert_eq!(board.board_arr[56].unwrap().piece_type, PieceType::Queen);
    assert_eq!(board.board_arr[56].unwrap().color, Color::White);
}

#[test]
fn test_checkmate_fools_mate() {
    let (mut board, _) =
        board_from_fen_unwrap("rnb1kbnr/pppp1ppp/8/4p3/6Pq/5P2/PPPPP2P/RNBQKBNR w KQkq - 1 3");
    let (combined, white, black) = (board.combined_pieces, board.white_pieces, board.black_pieces);
    board.calculate_pins(Color::White, combined, white, black);
    assert!(board.calculate_checkmate(Color::White));
}

#[test]
fn test_not_checkmate_can_escape() {
    let (mut board, _) = board_from_fen_unwrap("4k3/8/8/8/8/5q2/8/4K3 w - - 0 1");
    let (combined, white, black) = (board.combined_pieces, board.white_pieces, board.black_pieces);
    board.calculate_pins(Color::White, combined, white, black);
    assert!(!board.calculate_checkmate(Color::White));
}

fn assert_checkmate(fen: &str) {
    let (mut board, color) = board_from_fen_unwrap(fen);
    assert_eq!(board.game_status(color), "checkmate", "expected checkmate for FEN: {fen}");
}

fn assert_not_checkmate(fen: &str) {
    let (mut board, color) = board_from_fen_unwrap(fen);
    assert_ne!(board.game_status(color), "checkmate", "expected NON-checkmate for FEN: {fen}");
}

#[test]
fn test_back_rank_rook_mate_is_checkmate() {
    assert_checkmate("R5k1/5ppp/8/8/8/8/8/6K1 b - - 0 1");
}

#[test]
fn test_rook_mate_behind_king_is_checkmate() {
    assert_checkmate("8/8/8/8/8/8/1r6/1kr3K1 w - - 1 2");
}

#[test]
fn test_queen_diagonal_mate_is_checkmate() {
    assert_checkmate("3qK3/8/k7/3q4/8/8/8/8 w - - 1 2");
}

#[test]
fn test_queen_file_mate_is_checkmate() {
    assert_checkmate("8/8/8/k7/3q4/4K3/8/3q4 w - - 1 2");
}

#[test]
fn test_double_rook_ladder_mate_is_checkmate() {
    assert_checkmate("k7/7r/6r1/8/8/7K/8/8 w - - 1 2");
}

#[test]
fn test_pinned_defender_cannot_block_is_checkmate() {
    assert_checkmate("1r5k/8/8/4b3/8/1N6/7r/K6r w - - 0 1");
}

#[test]
fn test_king_escapes_along_ray_off_check_is_not_checkmate() {
    assert_not_checkmate("4r2k/8/8/8/8/8/8/4K3 w - - 0 1");
}

#[test]
fn test_defender_can_block_check_is_not_checkmate() {
    assert_not_checkmate("4r2k/8/8/8/8/8/R7/4K3 w - - 0 1");
}

#[test]
fn test_defender_can_capture_checker_is_not_checkmate() {
    assert_not_checkmate("7k/8/8/8/8/8/R3r3/4K3 w - - 0 1");
}

#[test]
fn test_pinned_defender_can_capture_along_pin_is_not_checkmate() {
    assert_not_checkmate("7k/8/8/8/8/4R3/4q3/4K3 w - - 0 1");
}

fn pins_both(board: &mut GameBoard) {
    let (combined, white, black) = (board.combined_pieces, board.white_pieces, board.black_pieces);
    board.calculate_pins(Color::White, combined, white, black);
    let (combined, white, black) = (board.combined_pieces, board.white_pieces, board.black_pieces);
    board.calculate_pins(Color::Black, combined, white, black);
}

#[test]
fn test_stalemate() {
    let (mut board, _) = board_from_fen_unwrap("k7/2Q5/1K6/8/8/8/8/8 b - - 0 1");
    pins_both(&mut board);
    let (combined, white, black, pins) =
        (board.combined_pieces, board.white_pieces, board.black_pieces, board.black_pins);
    let result = board.calculate_stalemate(Color::Black, Color::White, combined, black, white, pins);
    assert!(result, "black king on a8 with white queen on c7 and white king on b6 should be stalemate");
}

#[test]
fn test_stalemate_not_triggered_when_castling_available() {
    let (mut board, _) = board_from_fen_unwrap("4k3/8/8/8/8/8/8/4K2R w K - 0 1");
    pins_both(&mut board);
    let (combined, white, black, pins) =
        (board.combined_pieces, board.white_pieces, board.black_pieces, board.white_pins);
    let result = board.calculate_stalemate(Color::White, Color::Black, combined, white, black, pins);
    assert!(!result);
}

#[test]
fn test_stalemate_castling_rights_but_path_attacked() {
    let (mut board, _) = board_from_fen_unwrap("k7/2Q5/1K6/8/8/8/8/8 b - - 0 1");
    pins_both(&mut board);
    let (combined, white, black, pins) =
        (board.combined_pieces, board.white_pieces, board.black_pieces, board.black_pins);
    let result = board.calculate_stalemate(Color::Black, Color::White, combined, black, white, pins);
    assert!(result);
}

// The check by the d5 pawn is answered by taking it en passant (exd6), so this is no mate.
const EP_ANSWERS_CHECK: &str = "3r3k/6n1/8/1n1pP3/4K3/r7/6n1/8 w - d6 0 1";

#[test]
fn ep_capture_of_checking_pawn_is_not_checkmate() {
    let (mut board, _) = board_from_fen_unwrap(EP_ANSWERS_CHECK);
    pins_both(&mut board);
    assert!(!board.calculate_checkmate(Color::White));
}

#[test]
fn ep_capture_of_checking_pawn_status_is_check() {
    let (mut board, color) = board_from_fen_unwrap(EP_ANSWERS_CHECK);
    assert_eq!(board.game_status(color), "check");
}

#[test]
fn double_step_check_answered_en_passant_keeps_game_going() {
    let (mut board, _) = board_from_fen_unwrap("3r3k/3p2n1/8/1n2P3/4K3/r7/6n1/8 b - - 0 1");
    board.compute_turn_items(1, plain(Square::D7, Square::D5));
    assert_eq!(board.en_passant_target, Some(43));
    assert_eq!(board.game_result, GameResult::Ongoing);
}

// White's only candidate move, bxc6 en passant, would open the fifth rank to the h5 rook.
const EP_EXPOSES_KING: &str = "8/1k6/1n6/KPp4r/8/8/8/8 w - c6 0 1";

#[test]
fn illegal_ep_capture_leaves_stalemate() {
    let (mut board, _) = board_from_fen_unwrap(EP_EXPOSES_KING);
    pins_both(&mut board);
    let (combined, white, black, pins) =
        (board.combined_pieces, board.white_pieces, board.black_pieces, board.white_pins);
    assert!(board.calculate_stalemate(Color::White, Color::Black, combined, white, black, pins));
    assert!(!board.calculate_checkmate(Color::White));
}

#[test]
fn illegal_ep_capture_status_is_stalemate() {
    let (mut board, color) = board_from_fen_unwrap(EP_EXPOSES_KING);
    assert_eq!(board.game_status(color), "stalemate");
}

#[test]
fn checkmated_side_is_not_stalemated() {
    let (mut board, _) =
        board_from_fen_unwrap("rnb1kbnr/pppp1ppp/8/4p3/6Pq/5P2/PPPPP2P/RNBQKBNR w KQkq - 1 3");
    pins_both(&mut board);
    let (combined, white, black, pins) =
        (board.combined_pieces, board.white_pieces, board.black_pieces, board.white_pins);
    assert!(!board.calculate_stalemate(Color::White, Color::Black, combined, white, black, pins));
}

fn knight_cycle() -> [Move; 4] {
    [
        plain(Square::G1, Square::F3),
        plain(Square::G8, Square::F6),
        plain(Square::F3, Square::G1),
        plain(Square::F6, Square::G8),
    ]
}

#[test]
fn test_threefold_repetition() {
    let mut board = make_board();
    let cycle = knight_cycle();
    for (i, mv) in cycle.iter().enumerate() {
        board.compute_turn_items(i, *mv);
        assert_eq!(board.game_result, GameResult::Ongoing);
    }
    for (i, mv) in cycle.iter().enumerate().take(3) {
        board.compute_turn_items(4 + i, *mv);
        assert_eq!(board.game_result, GameResult::Ongoing);
    }
    board.compute_turn_items(7, cycle[3]);
    assert_eq!(board.game_result, GameResult::ThreefoldRepetition);
}

#[test]
fn test_threefold_not_triggered_after_two_occurrences() {
    let mut board = make_board();
    for (i, mv) in knight_cycle().iter().enumerate() {
        board.compute_turn_items(i, *mv);
    }
    assert_eq!(board.game_result, GameResult::Ongoing);
}

fn result_after_king_step(fen: &str, to: Square) -> GameResult {
    let (mut board, _) = board_from_fen_unwrap(fen);
    board.compute_turn_items(0, plain(Square::E1, to));
    board.game_result
}

#[test]
fn test_insufficient_material_k_vs_k() {
    assert_eq!(result_after_king_step("4k3/8/8/8/8/8/8/4K3 w - - 0 1", Square::D1), GameResult::InsufficientMaterial);
}

#[test]
fn test_insufficient_material_k_b_vs_k() {
    assert_eq!(result_after_king_step("4k3/8/8/8/8/8/8/4KB2 w - - 0 1", Square::D1), GameResult::InsufficientMaterial);
}

#[test]
fn test_insufficient_material_k_n_vs_k() {
    assert_eq!(result_after_king_step("4k3/8/8/8/8/8/8/4KN2 w - - 0 1", Square::D1), GameResult::InsufficientMaterial);
}

#[test]
fn test_insufficient_material_k_b_vs_k_b_same_color() {
    assert_eq!(
        result_after_king_step("4k3/8/8/8/5b2/8/8/2B1K3 w - - 0 1", Square::D1),
        GameResult::InsufficientMaterial
    );
}

#[test]
fn test_not_insufficient_material_k_b_vs_k_b_diff_color() {
    assert_ne!(
        result_after_king_step("3k1b2/8/8/8/8/8/8/3BK3 w - - 0 1", Square::F1),
        GameResult::InsufficientMaterial
    );
}

#[test]
fn test_not_insufficient_material_with_rook() {
    assert_ne!(
        result_after_king_step("4k3/8/8/8/8/8/8/4KR2 w - - 0 1", Square::D1),
        GameResult::InsufficientMaterial
    );
}

#[test]
fn test_fifty_move_rule_reset_on_pawn_move() {
    let (mut board, _) = board_from_fen_unwrap("4k3/8/8/8/8/8/4P3/K7 w - - 98 1");
    assert_eq!(board.halfmove_clock, 98);
    board.compute_turn_items(0, plain(Square::E2, Square::E4));
    assert_eq!(board.halfmove_clock, 0);
    assert_ne!(board.game_result, GameResult::FiftyMoveRule);
}

#[test]
fn test_fifty_move_rule_reset_on_capture() {
    let (mut board, _) = board_from_fen_unwrap("4k3/p7/8/8/8/8/8/R3K3 w - - 98 1");
    assert_eq!(board.halfmove_clock, 98);
    board.compute_turn_items(0, plain(Square::A1, Square::A7));
    assert_eq!(board.halfmove_clock, 0);
    assert_ne!(board.game_result, GameResult::FiftyMoveRule);
}

#[test]
fn test_game_status_check_king_can_capture_queen() {
    let (mut board, color) = board_from_fen_unwrap("4k3/4Q3/8/8/8/8/8/4K3 b - - 0 1");
    assert_eq!(board.game_status(color), "check");
}

#[test]
fn test_game_status_fools_mate_checkmate() {
    let (mut board, color) =
        board_from_fen_unwrap("rnb1kbnr/pppp1ppp/8/4p3/6Pq/5P2/PPPPP2P/RNBQKBNR w KQkq - 1 3");
    assert_eq!(board.game_status(color), "checkmate");
}

#[test]
fn test_game_status_stalemate() {
    let (mut board, color) = board_from_fen_unwrap("k7/2Q5/1K6/8/8/8/8/8 b - - 0 1");
    assert_eq!(board.game_status(color), "stalemate");
}

#[test]
fn test_game_status_insufficient_material() {
    let (mut board, color) = board_from_fen_unwrap("4k3/8/8/8/8/8/8/4K3 w - - 0 1");
    assert_eq!(board.game_status(color), "insufficient_material");
}

#[test]
fn test_game_status_ongoing() {
    let (mut board, color) =
        board_from_fen_unwrap("rnbqkbnr/pppppppp/8/8/8/8/PPPPPPPP/RNBQKBNR w KQkq - 0 1");
    assert_eq!(board.game_status(color), "ongoing");
}

#[test]
fn test_debug_stalemate_king_capture() {
    let (mut board, _color) = board_from_fen_unwrap("4k3/4Q3/8/8/8/8/8/4K3 b - - 0 1");
    pins_both(&mut board);
    let combined = board.combined_pieces;
    let black = board.black_pieces;
    let white = board.white_pieces;
    let king_moves = board.get_move_mask(60, Color::Black, PieceType::King, combined, black, white);
    for i in 0..64usize {
        if (king_moves >> i) & 1 == 1 {
            let _attackers = board.get_attackers(i, Color::White, combined, white, black);
        }
    }
    let result = board.calculate_stalemate(Color::Black, Color::White, combined, black, white, 0);
    assert!(!result, "king can capture queen on e7, so not stalemate");
}

#[test]
fn test_fifty_move_rule() {
    let (mut board, _) = board_from_fen_unwrap("4k3/8/8/8/8/8/8/R3K3 w - - 98 1");
    assert_eq!(board.halfmove_clock, 98);
    board.compute_turn_items(0, plain(Square::A1, Square::B1));
    assert_eq!(board.halfmove_clock, 99);
    assert_eq!(board.game_result, GameResult::Ongoing);
    board.compute_turn_items(1, plain(Square::B1, Square::C1));
    assert_eq!(board.halfmove_clock, 100);
    assert_eq!(board.game_result, GameResult::FiftyMoveRule);
}

#[test]
fn incremental_hash_matches_the_hash_read_from_fen() {
    let pc = precomputed();
    let mut board = GameBoard::init_game_board(pc.clone(), Player::init_player(true), Player::init_player(false));
    let moves = [
        plain(Square::E2, Square::E4),
        plain(Square::D7, Square::D5),
        plain(Square::E4, Square::D5),
        plain(Square::G8, Square::F6),
        plain(Square::F1, Square::B5),
    ];
    for (i, mv) in moves.iter().enumerate() {
        board.compute_turn_items(i, *mv);
        let side = if i % 2 == 0 { Color::Black } else { Color::White };
        let text = format!("{} 0 1", board.to_normfen(side));
        let (read, _, _) = board_from_fen(&text, pc.clone()).unwrap();
        assert_eq!(board.zobrist_hash, read.zobrist_hash, "after move {i}");
    }
}

#[test]
fn bitboard_string_of_the_start_position() {
    let board = make_board();
    assert_eq!(
        board.bitboard_string(),
        "wp=000000000000ff00 wn=0000000000000042 wb=0000000000000024 wr=0000000000000081 \
         wq=0000000000000008 wk=0000000000000010 bp=00ff000000000000 bn=4200000000000000 \
         bb=2400000000000000 br=8100000000000000 bq=0800000000000000 bk=1000000000000000"
    );
}

#[test]
fn repeat_count_follows_the_knight_cycle() {
    let mut board = make_board();
    assert_eq!(board.position_repeat_count(), 1);
    for (i, mv) in knight_cycle().iter().enumerate() {
        board.compute_turn_items(i, *mv);
    }
    assert_eq!(board.position_repeat_count(), 2);
    assert_eq!(board.result(), GameResult::Ongoing);
    assert_eq!(board.board_snapshot(), make_board().board_arr);
}

#[test]
fn insufficient_material_needs_bare_minor_pieces() {
    let (board, _) = board_from_fen_unwrap("4k3/8/8/8/8/8/8/4KN2 w - - 0 1");
    assert!(board.is_insufficient_material());
    let (board, _) = board_from_fen_unwrap("4k3/8/8/8/8/8/4P3/4K3 w - - 0 1");
    assert!(!board.is_insufficient_material());
}

#[test]
fn game_state_starts_from_the_initial_position() {
    let game = hyzero::game::GameState::init_game_state(precomputed(), Player::init_player(true), Player::init_player(false));
    assert_eq!(game.game_state.game_result, GameResult::Ongoing);
    assert_eq!(game.game_state.board_arr, make_board().board_arr);
}

#[test]
fn process_move_plays_a_legal_move_and_refuses_an_illegal_one() {
    let mut board = make_board();
    let before = board.zobrist_hash;
    assert_eq!(board.process_move("e2e5", Color::White, 0).err(), Some("Invalid move".to_string()));
    assert_eq!(board.zobrist_hash, before);
    let (mv, result) = board.process_move("e2e4", Color::White, 0).expect("legal");
    assert_eq!(mv.from, Square::E2);
    assert_eq!(mv.to, Square::E4);
    assert_eq!(result, GameResult::Ongoing);
    assert_eq!(board.board_arr[28].unwrap().piece_type, PieceType::Pawn);
    assert_eq!(board.en_passant_target, Some(20));
}

#[test]
fn promotion_piece_on_a_knight_move_is_left_out() {
    let board = make_board();
    let (combined, white, black) = (board.combined_pieces, board.white_pieces, board.black_pieces);
    let mv = Move {
        from: Square::G1,
        to: Square::F3,
        promotion_piece_type: Some(PieceType::Queen),
        castle_option: None,
        en_passant: false,
    };
    assert!(board.validate_move(mv, Color::White, combined, white, black));
    let blocked = Move { to: Square::E2, ..mv };
    assert!(!board.validate_move(blocked, Color::White, combined, white, black));
}

#[test]
fn promotion_piece_on_a_pawn_step_is_left_out() {
    let board = make_board();
    let (combined, white, black) = (board.combined_pieces, board.white_pieces, board.black_pieces);
    let mv = Move {
        from: Square::E2,
        to: Square::E4,
        promotion_piece_type: Some(PieceType::Rook),
        castle_option: None,
        en_passant: false,
    };
    assert!(board.validate_move(mv, Color::White, combined, white, black));
}

#[test]
fn move_text_checks_before_the_game_step() {
    let board = make_board();
    assert!(board.move_text_acceptable("e2e4", Color::White));
    assert!(board.move_text_acceptable("g1f3", Color::White));
    assert!(!board.move_text_acceptable("e7e5", Color::White));
    assert!(!board.move_text_acceptable("e3e4", Color::White));
    assert!(!board.move_text_acceptable("e2e", Color::White));
    assert!(!board.move_text_acceptable("i2i4", Color::White));
    assert!(board.move_text_acceptable("e7e5", Color::Black));
}

#[test]
fn capture_of_a_king_is_not_handed_on() {
    let (board, _) = board_from_fen_unwrap("4k3/8/8/8/8/8/8/4K2R w - - 0 1");
    assert!(board.move_text_acceptable("h1h8", Color::White));
    let (board, _) = board_from_fen_unwrap("7k/8/8/8/8/8/8/4K2R w - - 0 1");
    assert!(!board.move_text_acceptable("h1h8", Color::White));
}

#[test]
fn two_kings_of_one_side_are_seen() {
    let (board, _) = board_from_fen_unwrap("4k3/8/8/8/8/8/8/K3K3 w - - 0 1");
    assert!(!board.has_one_king(Color::White));
    assert!(board.has_one_king(Color::Black));
    assert!(!board.move_text_acceptable("a1a2", Color::White));
}

#[test]
fn every_legal_move_keeps_the_bitboards_on_the_squares() {
    let (board, color) = board_from_fen_unwrap("r3k2r/1P6/8/3pP3/8/8/8/R3K2R w KQkq d6 0 1");
    let moves = hyzero::game::perft::get_legal_moves_for_perft(&board, color);
    assert!(!moves.is_empty());
    for mv in moves {
        let mut next = board.clone();
        next.compute_turn_items(0, mv);
        for sq in 0..64usize {
            let bit = 1u64 << sq;
            let white = next.board_arr[sq].map_or(false, |p| p.color == Color::White);
            let black = next.board_arr[sq].map_or(false, |p| p.color == Color::Black);
            assert_eq!(next.player1.pieces & bit != 0, white);
            assert_eq!(next.player2.pieces & bit != 0, black);
        }
    }
}
