use hyzero::arena::{build_schedule, parse_args, stride_indices, GameSlot};

fn args(v: &[&str]) -> Vec<String> {
    v.iter().map(|s| s.to_string()).collect()
}

fn parse(v: &[&str]) -> Result<hyzero::arena::ArenaArgs, String> {
    parse_args(args(v), "cuda".to_string())
}

#[test]
fn parse_args_applies_defaults_for_optional_flags() {
    let a = parse(&["--model-a", "a.pt", "--model-b", "b.pt", "--games", "10"]).expect("parse ok");
    assert_eq!(a.model_a, "a.pt");
    assert_eq!(a.model_b, "b.pt");
    assert_eq!(a.games, 10);
    assert_eq!(a.sims, 100);
    assert_eq!(a.starts, "data/starting_positions.txt");
    assert_eq!(a.concurrency, 4);
}

#[test]
fn parse_args_reads_all_flags() {
    let a = parse(&[
        "--model-a", "x.pt", "--model-b", "y.pt", "--games", "8", "--sims", "50", "--starts", "s.txt",
        "--concurrency", "2", "--device", "cpu",
    ])
    .expect("parse ok");
    assert_eq!(a.sims, 50);
    assert_eq!(a.starts, "s.txt");
    assert_eq!(a.concurrency, 2);
    assert_eq!(a.device, "cpu");
}

#[test]
fn parse_args_device_flag_overrides_default() {
    let a = parse(&["--model-a", "a.pt", "--model-b", "b.pt", "--games", "4", "--device", "cuda:1"]).expect("parse ok");
    assert_eq!(a.device, "cuda:1");
}

#[test]
fn parse_args_rejects_missing_required_flag() {
    let err = parse(&["--model-a", "a.pt", "--games", "4"]);
    assert!(err.is_err(), "missing --model-b must error");
}

#[test]
fn parse_args_rejects_games_below_two() {
    let err = parse(&["--model-a", "a.pt", "--model-b", "b.pt", "--games", "1"]);
    assert!(err.is_err(), "games < 2 must error");
}

#[test]
fn parse_args_error_messages() {
    assert_eq!(parse(&["--bogus"]).err(), Some("unknown argument: --bogus".to_string()));
    assert_eq!(parse(&["--games"]).err(), Some("--games requires a value".to_string()));
    assert_eq!(parse(&["--games", "ten"]).err(), Some("invalid --games: ten".to_string()));
    assert_eq!(
        parse(&["--model-a", "a", "--model-b", "b", "--games", "+4", "--concurrency", "0"]).err(),
        Some("--concurrency must be >= 1".to_string())
    );
    assert_eq!(parse(&[]).err(), Some("missing required --model-a <ckpt.pt>".to_string()));
    let a = parse(&["--model-a", "a", "--model-a", "c", "--model-b", "b", "--games", "+4"]).unwrap();
    assert_eq!(a.model_a, "c");
    assert_eq!(a.games, 4);
    assert_eq!(a.device, "cuda");
}

#[test]
fn build_schedule_emits_mirrored_pairs() {
    let slots = build_schedule(4, 2);
    assert_eq!(slots.len(), 4, "4 games = 2 mirrored pairs = 4 slots");
    assert_eq!(slots[0], GameSlot { fen_index: 0, a_is_white: true });
    assert_eq!(slots[1], GameSlot { fen_index: 0, a_is_white: false });
    assert_eq!(slots[2], GameSlot { fen_index: 1, a_is_white: true });
    assert_eq!(slots[3], GameSlot { fen_index: 1, a_is_white: false });
}

#[test]
fn build_schedule_is_color_balanced() {
    let slots = build_schedule(20, 7);
    let a_white = slots.iter().filter(|s| s.a_is_white).count();
    let a_black = slots.iter().filter(|s| !s.a_is_white).count();
    assert_eq!(a_white, a_black, "A must play White and Black equally often");
    assert_eq!(slots.len(), 20);
}

#[test]
fn build_schedule_drops_odd_trailing_game() {
    let slots = build_schedule(5, 10);
    assert_eq!(slots.len(), 4, "5 games -> 2 pairs -> 4 slots (trailing dropped)");
}

#[test]
fn build_schedule_cycles_fens_when_short() {
    let slots = build_schedule(8, 2);
    let indices: Vec<usize> = slots.iter().step_by(2).map(|s| s.fen_index).collect();
    assert_eq!(indices, vec![0, 1, 0, 1], "pair FENs cycle 0,1,0,1");
}

#[test]
fn build_schedule_without_positions_uses_the_first() {
    let slots = build_schedule(4, 0);
    assert!(slots.iter().all(|s| s.fen_index == 0));
}

#[test]
fn stride_indices_spans_whole_file() {
    assert_eq!(stride_indices(100, 4), vec![0, 25, 50, 75]);
}

#[test]
fn stride_indices_uses_floor_division() {
    assert_eq!(stride_indices(10, 3), vec![0, 3, 6]);
}

#[test]
fn stride_indices_stay_in_bounds() {
    let idx = stride_indices(100_000, 100);
    assert_eq!(idx.len(), 100);
    assert_eq!(idx[0], 0);
    assert!(idx.iter().all(|&i| i < 100_000), "every index in [0, L)");
    assert_eq!(*idx.last().unwrap(), 99_000);
}

#[test]
fn stride_indices_is_deterministic() {
    assert_eq!(stride_indices(777, 13), stride_indices(777, 13));
}

#[test]
fn stride_indices_handles_empty_inputs() {
    assert!(stride_indices(0, 5).is_empty(), "empty file -> no indices");
    assert!(stride_indices(50, 0).is_empty(), "zero samples -> no indices");
}

#[test]
fn stride_indices_when_count_exceeds_lines() {
    let idx = stride_indices(3, 6);
    assert_eq!(idx.len(), 6);
    assert_eq!(idx[0], 0);
    assert!(idx.iter().all(|&i| i < 3), "every index in [0, 3)");
    assert!(idx.windows(2).all(|w| w[0] <= w[1]), "indices are non-decreasing");
}
