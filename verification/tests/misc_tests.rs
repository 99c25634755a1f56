use hyzero::data::replay_buffer::{parse_value_target_mode, td_enabled_from, ValueTargetMode};
use hyzero::data::tb_rescore::truthy;
use hyzero::game::externplayer::ExternPlayer;
use hyzero::game::history::GameHistory;
use hyzero::mcts::gumbel::{default_top_k, num_rounds, sims_per_candidate};
use hyzero::pieces::king::King;
use hyzero::pieces::knight::Knight;
use hyzero::pieces::mod_rook::{Rook, RookEntry};
use hyzero::pieces::bishop::BishopEntry;
use hyzero::pieces::Piece;
use hyzero::{create_game_board, Color, PieceType, Square};

#[test]
fn test_default_top_k() {
    assert_eq!(default_top_k(20), 16);
    assert_eq!(default_top_k(8), 8);
    assert_eq!(default_top_k(1), 1);
}

#[test]
fn test_num_rounds() {
    assert_eq!(num_rounds(16), 4);
    assert_eq!(num_rounds(8), 3);
    assert_eq!(num_rounds(4), 2);
    assert_eq!(num_rounds(2), 1);
    assert_eq!(num_rounds(1), 1);
}

#[test]
fn num_rounds_rounds_up_between_powers_of_two() {
    assert_eq!(num_rounds(0), 1);
    assert_eq!(num_rounds(3), 2);
    assert_eq!(num_rounds(5), 3);
    assert_eq!(num_rounds(17), 5);
}

#[test]
fn default_top_k_small_counts() {
    assert_eq!(default_top_k(0), 0);
    assert_eq!(default_top_k(2), 2);
    assert_eq!(default_top_k(16), 16);
}

#[test]
fn sims_per_candidate_shares_the_budget() {
    assert_eq!(sims_per_candidate(200, 4, 16), 3);
    assert_eq!(sims_per_candidate(200, 1, 2), 100);
    assert_eq!(sims_per_candidate(5, 4, 16), 1);
    assert_eq!(sims_per_candidate(200, 0, 16), 1);
    assert_eq!(sims_per_candidate(200, 4, 0), 1);
}

#[test]
fn parse_value_target_mode_recognizes_outcome_and_defaults_to_td() {
    assert_eq!(parse_value_target_mode(None), ValueTargetMode::Td);
    assert_eq!(parse_value_target_mode(Some("td")), ValueTargetMode::Td);
    assert_eq!(parse_value_target_mode(Some("TD")), ValueTargetMode::Td);
    assert_eq!(parse_value_target_mode(Some("garbage")), ValueTargetMode::Td);
    assert_eq!(parse_value_target_mode(Some("")), ValueTargetMode::Td);
    assert_eq!(parse_value_target_mode(Some("outcome")), ValueTargetMode::Outcome);
    assert_eq!(parse_value_target_mode(Some("OUTCOME")), ValueTargetMode::Outcome);
    assert_eq!(parse_value_target_mode(Some("  Outcome\n")), ValueTargetMode::Outcome);
}

#[test]
fn value_target_mode_needs_the_whole_word() {
    assert_eq!(parse_value_target_mode(Some("outcomes")), ValueTargetMode::Td);
    assert_eq!(parse_value_target_mode(Some("out come")), ValueTargetMode::Td);
    assert_eq!(parse_value_target_mode(Some("\u{3000}outcome\u{a0}")), ValueTargetMode::Outcome);
}

#[test]
fn td_flag_is_on_unless_turned_off() {
    assert!(td_enabled_from(None));
    assert!(td_enabled_from(Some("")));
    assert!(td_enabled_from(Some("1")));
    assert!(td_enabled_from(Some("yes")));
    assert!(!td_enabled_from(Some("0")));
    assert!(!td_enabled_from(Some(" False ")));
    assert!(!td_enabled_from(Some("NO")));
}

#[test]
fn history_records_lines_and_squares() {
    let mut history = GameHistory::new();
    assert!(history.move_history.is_empty());
    let squares = create_game_board();
    history.record_move("White", "e2e4", squares);
    history.record_move("Black", "e7e5", squares);
    assert_eq!(history.move_history, vec!["White: e2e4".to_string(), "Black: e7e5".to_string()]);
    assert_eq!(history.board_snapshots.len(), 2);
    assert_eq!(history.board_snapshots[0], squares);
}

#[test]
fn extern_player_update_keeps_it() {
    let mut p = ExternPlayer::new([1, 2, 3, 4, 5, 6], Color::Black);
    let before = format!("{:?}", p);
    p.update_board();
    assert_eq!(format!("{:?}", p), before);
}

#[test]
fn pieces_name_their_kind_and_side() {
    let k = King { color: Color::White };
    let n = Knight { color: Color::Black };
    assert_eq!(k.get_piece_type(), PieceType::King);
    assert_eq!(k.get_color(), Color::White);
    assert_eq!(n.get_piece_type(), PieceType::Knight);
    assert_eq!(n.get_color(), Color::Black);
}

#[test]
fn rook_first_steps() {
    let r = Rook { color: Color::White };
    assert_eq!(r.generate_pseudo_legal_moves_mask(Square::A1, 0, 0), (1u64 << 8) | (1u64 << 1));
    assert_eq!(
        r.generate_pseudo_legal_moves_mask(Square::E4, 0, 1u64 << 27),
        (1u64 << 36) | (1u64 << 20) | (1u64 << 29)
    );
    assert_eq!(r.generate_pseudo_legal_moves_mask(Square::H8, 0, 0), (1u64 << 55) | (1u64 << 62));
}

#[test]
fn truthy_settings() {
    assert!(!truthy(None), "absent => off");
    for v in ["", "0", "false", "FALSE", "no", "  no  "] {
        assert!(!truthy(Some(v)), "{v:?} => off");
    }
    for v in ["1", "true", "yes", "on"] {
        assert!(truthy(Some(v)), "{v:?} => on");
    }
}

#[test]
fn magic_numbers_are_checked_by_their_tables() {
    let b = BishopEntry::init_bishop(27).expect("bishop magic");
    assert_eq!(b.try_magic_num(b.magic_num), Some(b.magic_table.clone()));
    assert_eq!(b.try_magic_num(0), None);
    let r = RookEntry::init_rook(0).expect("rook magic");
    assert_eq!(r.try_magic_num(r.magic_num), Some(r.magic_table.clone()));
    assert_eq!(r.try_magic_num(0), None);
    assert_eq!(r.magic_table.len(), 1 << r.sig_bits);
}
