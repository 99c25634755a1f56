use vstd::prelude::*;
use vstd::string::StringExecFns;
use crate::Piece;

verus! {

/// The record of a game: one line of notation per move and the squares after it.
pub struct GameHistory {
    pub move_history: Vec<String>,
    pub board_snapshots: Vec<[Option<Piece>; 64]>,
}

/// The line recorded for a move: the side's prefix, a colon and a space, the notation.
pub open spec fn history_line(color_prefix: Seq<char>, notation: Seq<char>) -> Seq<char> {
    color_prefix + seq![':', ' '] + notation
}

impl Default for GameHistory {
    fn default() -> (r: Self)
        ensures
            r.move_history@.len() == 0,
            r.board_snapshots@.len() == 0,
    {
        Self::new()
    }
}

impl GameHistory {
    /// An empty record.
    pub fn new() -> (r: Self)
        ensures
            r.move_history@.len() == 0,
            r.board_snapshots@.len() == 0,
    {
        GameHistory { move_history: Vec::new(), board_snapshots: Vec::new() }
    }

    /// Appends the line `"{color_prefix}: {notation}"` and the squares `board_state`.
    pub fn record_move(&mut self, color_prefix: &str, notation: &str, board_state: [Option<Piece>; 64])
        ensures
            final(self).move_history@.len() == old(self).move_history@.len() + 1,
            forall|i: int|
                0 <= i < old(self).move_history@.len() ==> #[trigger] final(self).move_history@[i]
                    == old(self).move_history@[i],
            final(self).move_history@.last()@ == history_line(color_prefix@, notation@),
            final(self).board_snapshots@ == old(self).board_snapshots@.push(board_state),
    {
        let mut line = String::from_str(color_prefix);
        line.append(": ");
        line.append(notation);
        proof {
            reveal_strlit(": ");
            assert(line@ =~= history_line(color_prefix@, notation@));
        }
        self.move_history.push(line);
        self.board_snapshots.push(board_state);
    }
}

} // verus!
