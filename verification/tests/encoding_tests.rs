use std::sync::Arc;

use hyzero::data::{action_to_move, action_to_uci, flip_action, flip_sq, move_to_action, num_actions, NUM_BASE_ACTIONS, NUM_UNDERPROMO_ACTIONS};
use hyzero::data::encoding::board_to_snapshot;
use hyzero::game::{GameBoard, Move, Player};
use hyzero::{CastleOption, Color, Piece, PieceType, PrecomputedItems, Square};

fn make_board() -> GameBoard {
    let precomputed = Arc::new(PrecomputedItems::begin_precomputing().expect("tables"));
    let p1 = Player::init_player(true);
    let p2 = Player::init_player(false);
    GameBoard::init_game_board(precomputed, p1, p2)
}

fn promo(from: Square, to: Square, pt: PieceType) -> Move {
    Move { from, to, promotion_piece_type: Some(pt), castle_option: None, en_passant: false }
}

#[test]
fn test_action_to_move_normal() {
    let board = make_board();
    let mv = action_to_move(796, &board, Color::White);
    assert_eq!(mv.from, Square::E2);
    assert_eq!(mv.to, Square::E4);
    assert!(mv.castle_option.is_none());
    assert!(!mv.en_passant);
    assert!(mv.promotion_piece_type.is_none());
}

#[test]
fn test_action_to_move_castling_kingside() {
    let mut board = make_board();
    board.board_arr[5] = None;
    board.board_arr[6] = None;
    let mv = action_to_move(262, &board, Color::White);
    assert_eq!(mv.castle_option, Some(CastleOption::Kingside));
    assert!(!mv.en_passant);
    assert!(mv.promotion_piece_type.is_none());
}

#[test]
fn test_action_to_move_castling_queenside() {
    let mut board = make_board();
    board.board_arr[1] = None;
    board.board_arr[2] = None;
    board.board_arr[3] = None;
    let mv = action_to_move(258, &board, Color::White);
    assert_eq!(mv.castle_option, Some(CastleOption::Queenside));
    assert!(!mv.en_passant);
    assert!(mv.promotion_piece_type.is_none());
}

#[test]
fn test_action_to_move_en_passant() {
    let mut board = make_board();
    board.board_arr[36] = Some(Piece { piece_type: PieceType::Pawn, color: Color::White });
    board.en_passant_target = Some(43);
    let action = 36 * 64 + 43;
    let mv = action_to_move(action, &board, Color::White);
    assert!(mv.en_passant);
    assert!(mv.castle_option.is_none());
    assert!(mv.promotion_piece_type.is_none());
}

#[test]
fn test_action_to_move_promotion() {
    let mut board = make_board();
    board.board_arr[52] = Some(Piece { piece_type: PieceType::Pawn, color: Color::White });
    let mv = action_to_move(52 * 64 + 60, &board, Color::White);
    assert_eq!(mv.promotion_piece_type, Some(PieceType::Queen));
    assert!(mv.castle_option.is_none());
    assert!(!mv.en_passant);
}

#[test]
fn test_action_to_move_no_ep_when_square_differs() {
    let mut board = make_board();
    board.board_arr[36] = Some(Piece { piece_type: PieceType::Pawn, color: Color::White });
    board.en_passant_target = Some(43);
    let mv = action_to_move(36 * 64 + 44, &board, Color::White);
    assert!(!mv.en_passant);
}

fn in_underpromo_range(action: u16) -> bool {
    action as usize >= NUM_BASE_ACTIONS && (action as usize) < NUM_BASE_ACTIONS + NUM_UNDERPROMO_ACTIONS
}

#[test]
fn test_move_to_action_knight_promotion() {
    let action = move_to_action(&promo(Square::E7, Square::E8, PieceType::Knight));
    assert!(in_underpromo_range(action), "knight promotion action {action} out of underpromo range");
}

#[test]
fn test_move_to_action_bishop_promotion() {
    let action = move_to_action(&promo(Square::E7, Square::E8, PieceType::Bishop));
    assert!(in_underpromo_range(action), "bishop promotion action {action} out of underpromo range");
}

#[test]
fn test_move_to_action_rook_promotion() {
    let action = move_to_action(&promo(Square::E7, Square::E8, PieceType::Rook));
    assert!(in_underpromo_range(action), "rook promotion action {action} out of underpromo range");
}

#[test]
fn test_move_to_action_queen_promotion_stays_in_base_range() {
    let action = move_to_action(&promo(Square::E7, Square::E8, PieceType::Queen));
    assert!((action as usize) < NUM_BASE_ACTIONS, "queen promotion action {action} should be < NUM_BASE_ACTIONS");
}

#[test]
fn test_action_to_move_knight_underpromo_roundtrip_white() {
    let written = promo(Square::E7, Square::E8, PieceType::Knight);
    let action = move_to_action(&written);
    let board = make_board();
    let decoded = action_to_move(action, &board, Color::White);
    assert_eq!(decoded.promotion_piece_type, Some(PieceType::Knight));
    assert_eq!(decoded.from, Square::E7);
    assert_eq!(decoded.to, Square::E8);
    assert!(decoded.castle_option.is_none());
    assert!(!decoded.en_passant);
}

#[test]
fn test_action_to_move_rook_underpromo_roundtrip_white() {
    let written = promo(Square::E7, Square::E8, PieceType::Rook);
    let action = move_to_action(&written);
    let board = make_board();
    let decoded = action_to_move(action, &board, Color::White);
    assert_eq!(decoded.promotion_piece_type, Some(PieceType::Rook));
    assert_eq!(decoded.from, Square::E7);
    assert_eq!(decoded.to, Square::E8);
}

#[test]
fn test_action_to_move_black_underpromo_knight() {
    let written = promo(Square::H2, Square::H1, PieceType::Knight);
    let action = move_to_action(&written);
    let board = make_board();
    let decoded = action_to_move(action, &board, Color::Black);
    assert_eq!(decoded.promotion_piece_type, Some(PieceType::Knight));
    assert_eq!(decoded.from, Square::H2);
    assert_eq!(decoded.to, Square::H1);
}

#[test]
fn test_different_underpromo_pieces_have_distinct_actions() {
    let mk_mv = |pt: PieceType| promo(Square::D7, Square::D8, pt);
    let knight_action = move_to_action(&mk_mv(PieceType::Knight));
    let bishop_action = move_to_action(&mk_mv(PieceType::Bishop));
    let rook_action = move_to_action(&mk_mv(PieceType::Rook));
    assert_ne!(knight_action, bishop_action, "Knight and Bishop promotions must differ");
    assert_ne!(bishop_action, rook_action, "Bishop and Rook promotions must differ");
    assert_ne!(knight_action, rook_action, "Knight and Rook promotions must differ");
}

#[test]
fn test_flip_sq_known_squares() {
    assert_eq!(flip_sq(0), 56, "A1 should flip to A8");
    assert_eq!(flip_sq(7), 63, "H1 should flip to H8");
    assert_eq!(flip_sq(63), 7, "H8 should flip to H1");
    for sq in 0..64 {
        assert_eq!(flip_sq(flip_sq(sq)), sq, "flip_sq round-trip failed at sq {sq}");
    }
}

#[test]
fn test_flip_action_base_e2e4() {
    let action = 12 * 64 + 28;
    let flipped = flip_action(action);
    assert_eq!(flipped, flip_sq(12) * 64 + flip_sq(28));
    assert_eq!(flip_sq(12), 52);
    assert_eq!(flip_sq(28), 36);
    assert_eq!(flipped, 52 * 64 + 36);
}

#[test]
fn test_flip_action_underpromo_invariant() {
    assert_eq!(flip_action(4096), 4096);
    assert_eq!(flip_action(4671), 4671);
}

#[test]
fn test_flip_action_base_is_own_inverse() {
    for a in 0..NUM_BASE_ACTIONS {
        assert_eq!(flip_action(flip_action(a)), a, "flip_action round-trip failed at action {a}");
    }
}

#[test]
fn underpromotion_action_has_exact_value() {
    // Bishop slot 1, from file e (4), to file d (3).
    let action = move_to_action(&promo(Square::E7, Square::D8, PieceType::Bishop));
    assert_eq!(action, 4096 + 192 + 4 * 24 + 3);
    let queen = move_to_action(&promo(Square::E7, Square::D8, PieceType::Queen));
    assert_eq!(queen, 52 * 64 + 59);
}

#[test]
fn every_decodable_action_encodes_back() {
    let board = make_board();
    for action in 0..4672u16 {
        let decodable = (action as usize) < NUM_BASE_ACTIONS || ((action as usize - NUM_BASE_ACTIONS) % 192) % 24 < 8;
        if !decodable {
            continue;
        }
        for color in [Color::White, Color::Black] {
            let mv = action_to_move(action, &board, color);
            assert_eq!(move_to_action(&mv), action, "action {action} did not survive the round trip");
        }
    }
}

#[test]
fn black_underpromotion_capture_decodes_to_first_rank() {
    let board = make_board();
    let written = promo(Square::B2, Square::A1, PieceType::Rook);
    let decoded = action_to_move(move_to_action(&written), &board, Color::Black);
    assert_eq!(decoded.from, Square::B2);
    assert_eq!(decoded.to, Square::A1);
    assert_eq!(decoded.promotion_piece_type, Some(PieceType::Rook));
}

#[test]
fn num_actions_is_the_action_space() {
    assert_eq!(num_actions(), 4672);
    assert_eq!(NUM_BASE_ACTIONS + NUM_UNDERPROMO_ACTIONS, 4672);
}

#[test]
fn snapshot_of_the_start_position() {
    let board = make_board();
    let snap = board_to_snapshot(&board);
    assert_eq!(snap.white_pieces_bb, board.player1.pieces_bb);
    assert_eq!(snap.black_pieces_bb, board.player2.pieces_bb);
    assert_eq!(snap.white_pieces_bb[PieceType::Pawn as usize], 0x000000000000FF00);
    assert!(!snap.repeated);
}

#[test]
fn actions_read_as_uci() {
    assert_eq!(action_to_uci(796, Color::White), "e2e4");
    assert_eq!(action_to_uci(48 * 64 + 56, Color::White), "a7a8q");
    assert_eq!(action_to_uci(8 * 64 + 0, Color::Black), "a2a1q");
    assert_eq!(action_to_uci(8 * 64 + 0, Color::White), "a2a1");
    let under = move_to_action(&promo(Square::E7, Square::D8, PieceType::Knight));
    assert_eq!(action_to_uci(under, Color::White), "e7d8n");
    let black_rook = move_to_action(&promo(Square::B2, Square::A1, PieceType::Rook));
    assert_eq!(action_to_uci(black_rook, Color::Black), "b2a1r");
    // A destination slot past the h-file reads as the h-file.
    assert_eq!(action_to_uci(4096 + 20, Color::White), "a7h8n");
}

#[test]
fn legal_moves_come_back_from_their_actions() {
    let precomputed = Arc::new(PrecomputedItems::begin_precomputing().expect("tables"));
    let (board, color, _) = hyzero::game::fen::board_from_fen(
        "r3k2r/1P6/8/3pP3/8/8/8/R3K2R w KQkq d6 0 1",
        precomputed,
    )
    .unwrap();
    let moves = hyzero::game::perft::get_legal_moves_for_perft(&board, color);
    assert!(moves.iter().any(|m| m.en_passant));
    assert!(moves.iter().any(|m| m.castle_option == Some(CastleOption::Kingside)));
    assert!(moves.iter().any(|m| m.castle_option == Some(CastleOption::Queenside)));
    assert!(moves.iter().any(|m| m.promotion_piece_type == Some(PieceType::Knight)));
    for mv in moves {
        let action = move_to_action(&mv);
        assert!((action as usize) < num_actions());
        let back = action_to_move(action, &board, color);
        assert_eq!(back.from, mv.from);
        assert_eq!(back.to, mv.to);
        assert_eq!(back.promotion_piece_type, mv.promotion_piece_type);
        assert_eq!(back.castle_option, mv.castle_option);
        assert_eq!(back.en_passant, mv.en_passant);
    }
}
