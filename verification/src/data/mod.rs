pub mod types;
pub mod encoding;
pub mod replay_buffer;
pub mod tb_rescore;

pub use types::{ActionIndex, BoardSnapshot, NUM_ACTIONS, NUM_BASE_ACTIONS, NUM_UNDERPROMO_ACTIONS, NUM_HISTORY_POSITIONS, NUM_OBS_PLANES};
pub use encoding::{board_to_snapshot, move_to_action, action_to_move, action_to_uci, num_actions, flip_sq, flip_base_action, flip_action};
