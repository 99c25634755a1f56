//! Forced-mate search: an AND/OR depth-first search over the engine's own move
//! generator and turn logic, bounded in depth (plies) and in nodes.
use vstd::prelude::*;
use crate::bits::{squares_of, lemma_squares_of, lemma_squares_step, lemma_lowest, group_bits};
use crate::game::board::{GameBoard, GameResult, move_mask_spec, successor, canon, alike, lemma_canon, lemma_successor, lemma_turn_made_alike};
use crate::game::perft::{
    Frame, frame_of, accepts, mk, if_accepted, castle_moves, movegen_ready, push_if_valid, turn_ready,
    turn_count_of, lemma_turn_ready_alike, target_moves, targets_moves, square_moves, moves_upto, perft_moves,
};
use crate::game::board::{move_verdict, players_match};
use crate::game::playerobj::{side_bb, is_color};
use crate::precomputed::castle_empty_spec;
use crate::bits::is_set;
use crate::game::Move;
use crate::{BitIterator, CastleOption, Color, Piece, PieceType, Square};

verus! {

broadcast use {group_bits, crate::square::group_square};

/// The node budget of a search.
pub const MAX_NODES: u64 = 200_000;

/// Nodes visited so far and the most a search may visit.
pub struct NodeBudget {
    pub used: u64,
    pub cap: u64,
}

impl NodeBudget {
    /// Counts one more node; false once more than `cap` have been counted.
    pub fn spend(&mut self) -> (r: bool)
        requires
            old(self).used < u64::MAX,
        ensures
            final(self).used == old(self).used + 1,
            final(self).cap == old(self).cap,
            r == (final(self).used <= final(self).cap),
    {
        self.used = self.used + 1;
        self.used <= self.cap
    }
}

/// The promotions of the pawn on `sq` reaching `to`: queen, knight, bishop, rook, each
/// if accepted.
pub open spec fn mate_promotions(f: Frame, color: Color, sq: int, to: int) -> Seq<Move> {
    if_accepted(f, color, mk(sq, to, Some(PieceType::Queen), None, false)) + if_accepted(
        f,
        color,
        mk(sq, to, Some(PieceType::Knight), None, false),
    ) + if_accepted(f, color, mk(sq, to, Some(PieceType::Bishop), None, false)) + if_accepted(
        f,
        color,
        mk(sq, to, Some(PieceType::Rook), None, false),
    )
}

/// The moves the search tries for the piece `p` of `color` on `sq` going to `to`: none
/// onto a king; the four promotions for a pawn reaching a last rank; else the move,
/// flagged en passant for a pawn going diagonally onto the target; each if accepted.
pub open spec fn mate_target_moves(f: Frame, color: Color, sq: int, p: Piece, to: int) -> Seq<Move> {
    if f.arr[to] is Some && f.arr[to]->0.piece_type == PieceType::King {
        Seq::empty()
    } else if p.piece_type == PieceType::Pawn && (to / 8 == 7 || to / 8 == 0) {
        mate_promotions(f, color, sq, to)
    } else {
        let ep = p.piece_type == PieceType::Pawn && f.ep == Some(to as usize) && sq % 8 != to % 8;
        if_accepted(f, color, mk(sq, to, None, None, ep))
    }
}

/// The moves for the targets `tos` of the piece `p` on `sq`, in order.
pub open spec fn mate_targets_moves(f: Frame, color: Color, sq: int, p: Piece, tos: Seq<int>) -> Seq<Move>
    decreases tos.len(),
{
    if tos.len() == 0 {
        Seq::empty()
    } else {
        mate_targets_moves(f, color, sq, p, tos.drop_last()) + mate_target_moves(f, color, sq, p, tos.last())
    }
}

/// The moves the search tries for the piece of `color` on `sq`: those of its mask
/// squares in increasing order, then for a king its castles.
pub open spec fn mate_square_moves(f: Frame, color: Color, sq: int) -> Seq<Move> {
    match f.arr[sq] {
        Some(p) => if p.color == color {
            let mask = move_mask_spec(f.ep, sq, color, p.piece_type, f.white | f.black, f.white, f.black);
            mate_targets_moves(f, color, sq, p, squares_of(mask)) + if p.piece_type == PieceType::King {
                castle_moves(f, color, sq)
            } else {
                Seq::empty()
            }
        } else {
            Seq::empty()
        },
        None => Seq::empty(),
    }
}

/// The moves the search tries for `color` from the squares below `n`.
pub open spec fn mate_moves_upto(f: Frame, color: Color, n: int) -> Seq<Move>
    decreases n,
{
    if n <= 0 {
        Seq::empty()
    } else {
        mate_moves_upto(f, color, n - 1) + mate_square_moves(f, color, n - 1)
    }
}

/// The moves the search tries for `color` on frame `f`, square by square.
pub open spec fn mate_moves(f: Frame, color: Color) -> Seq<Move> {
    mate_moves_upto(f, color, 64)
}

/// Appends the promotions of the pawn of `color` on `sq` reaching `to` (see
/// `mate_promotions`).
fn push_mate_promotions(board: &GameBoard, color: Color, sq: usize, to_sq: usize, moves: &mut Vec<Move>)
    requires
        movegen_ready(*board, color),
        sq < 64,
        to_sq < 64,
        to_sq / 8 == 7 || to_sq / 8 == 0,
        board.board_arr[sq as int] == Some(Piece { piece_type: PieceType::Pawn, color }),
    ensures
        final(moves)@ == old(moves)@ + mate_promotions(frame_of(*board), color, sq as int, to_sq as int),
{
    let from = Square::from_index(sq as u8);
    let to = Square::from_index(to_sq as u8);
    let ghost f = frame_of(*board);
    let ghost m0 = moves@;
    let ghost a = if_accepted(f, color, mk(sq as int, to_sq as int, Some(PieceType::Queen), None, false));
    let ghost b = if_accepted(f, color, mk(sq as int, to_sq as int, Some(PieceType::Knight), None, false));
    let ghost c = if_accepted(f, color, mk(sq as int, to_sq as int, Some(PieceType::Bishop), None, false));
    let ghost d = if_accepted(f, color, mk(sq as int, to_sq as int, Some(PieceType::Rook), None, false));
    push_if_valid(board, color, Move { from, to, promotion_piece_type: Some(PieceType::Queen), castle_option: None, en_passant: false }, moves);
    push_if_valid(board, color, Move { from, to, promotion_piece_type: Some(PieceType::Knight), castle_option: None, en_passant: false }, moves);
    proof {
        vstd::seq_lib::lemma_concat_associative(m0, a, b);
    }
    push_if_valid(board, color, Move { from, to, promotion_piece_type: Some(PieceType::Bishop), castle_option: None, en_passant: false }, moves);
    proof {
        vstd::seq_lib::lemma_concat_associative(m0, a + b, c);
    }
    push_if_valid(board, color, Move { from, to, promotion_piece_type: Some(PieceType::Rook), castle_option: None, en_passant: false }, moves);
    proof {
        vstd::seq_lib::lemma_concat_associative(m0, a + b + c, d);
    }
}

/// Appends the moves the search tries for the piece `p` of `color` on `sq` going to `to`
/// (see `mate_target_moves`).
fn push_mate_target_moves(board: &GameBoard, color: Color, sq: usize, p: Piece, to_sq: usize, moves: &mut Vec<Move>)
    requires
        movegen_ready(*board, color),
        sq < 64,
        to_sq < 64,
        board.board_arr[sq as int] == Some(p),
        p.color == color,
    ensures
        final(moves)@ == old(moves)@ + mate_target_moves(frame_of(*board), color, sq as int, p, to_sq as int),
{
    // Never a king capture: such a move would leave a board without a king.
    if let Some(captured) = board.board_arr[to_sq] {
        if captured.piece_type == PieceType::King {
            proof {
                assert(moves@ =~= old(moves)@ + mate_target_moves(frame_of(*board), color, sq as int, p, to_sq as int));
            }
            return;
        }
    }
    let from = Square::from_index(sq as u8);
    let to = Square::from_index(to_sq as u8);
    let to_rank = to_sq / 8;
    let is_promotion = p.piece_type == PieceType::Pawn && (to_rank == 7 || to_rank == 0);
    let en_passant = p.piece_type == PieceType::Pawn && board.en_passant_target == Some(to_sq) && (sq % 8
        != to_sq % 8);
    if is_promotion {
        push_mate_promotions(board, color, sq, to_sq, moves);
    } else {
        push_if_valid(board, color, Move { from, to, promotion_piece_type: None, castle_option: None, en_passant }, moves);
    }
}

/// Appends the moves the search tries for the piece of `color` on `sq` (see
/// `mate_square_moves`).
fn push_mate_square_moves(board: &GameBoard, color: Color, sq: usize, moves: &mut Vec<Move>)
    requires
        movegen_ready(*board, color),
        sq < 64,
    ensures
        final(moves)@ == old(moves)@ + mate_square_moves(frame_of(*board), color, sq as int),
{
    let ghost f = frame_of(*board);
    let ghost m0 = moves@;
    let piece = match board.board_arr[sq] {
        Some(p) => {
            if p.color == color {
                p
            } else {
                proof {
                    assert(moves@ =~= m0 + mate_square_moves(f, color, sq as int));
                }
                return;
            }
        },
        None => {
            proof {
                assert(moves@ =~= m0 + mate_square_moves(f, color, sq as int));
            }
            return;
        },
    };
    let combined = board.white_pieces | board.black_pieces;
    proof {
        reveal(movegen_ready);
    }
    let move_mask = board.get_move_mask(sq, color, piece.piece_type, combined, board.white_pieces, board.black_pieces);
    let mut it = BitIterator::new(move_mask);
    let ghost all = squares_of(move_mask);
    let ghost mut i: int = 0;
    proof {
        lemma_squares_of(move_mask);
    }
    while it.bits != 0
        invariant
            0 <= i <= all.len(),
            all == squares_of(move_mask),
            squares_of(it.bits) == all.skip(i),
            forall|j: int| 0 <= j < all.len() ==> 0 <= #[trigger] all[j] < 64,
            moves@ == m0 + mate_targets_moves(f, color, sq as int, piece, all.take(i)),
            movegen_ready(*board, color),
            sq < 64,
            board.board_arr[sq as int] == Some(piece),
            piece.color == color,
            f == frame_of(*board),
        decreases it.bits,
    {
        let ghost b = it.bits;
        proof {
            lemma_squares_step(b, all, i);
            lemma_lowest(b);
        }
        let to_sq = it.next_square().unwrap();
        push_mate_target_moves(board, color, sq, piece, to_sq, moves);
        proof {
            assert(all.take(i + 1).drop_last() =~= all.take(i));
            assert(all.take(i + 1).last() == to_sq);
            i = i + 1;
        }
    }
    proof {
        assert(squares_of(0u64).len() == 0);
        assert(all.take(i) =~= all);
    }
    let ghost m1 = moves@;
    if piece.piece_type == PieceType::King {
        let king_rank: u8 = if color == Color::White {
            0
        } else {
            7
        };
        let from = Square::from_index(sq as u8);
        push_if_valid(
            board,
            color,
            Move {
                from,
                to: Square::from_index(king_rank * 8 + 6),
                promotion_piece_type: None,
                castle_option: Some(CastleOption::Kingside),
                en_passant: false,
            },
            moves,
        );
        push_if_valid(
            board,
            color,
            Move {
                from,
                to: Square::from_index(king_rank * 8 + 2),
                promotion_piece_type: None,
                castle_option: Some(CastleOption::Queenside),
                en_passant: false,
            },
            moves,
        );
        proof {
            assert(moves@ =~= m1 + castle_moves(f, color, sq as int));
        }
    }
    proof {
        assert(moves@ =~= m0 + mate_square_moves(f, color, sq as int));
    }
}

/// Every move the search tries for `color`: for each square in turn, the accepted moves
/// of the piece of `color` on it (promotions in every kind, en passant captures flagged,
/// castles), never a king capture (see `mate_moves`).
pub fn legal_moves(board: &GameBoard, color: Color) -> (moves: Vec<Move>)
    requires
        movegen_ready(*board, color),
    ensures
        moves@ == mate_moves(frame_of(*board), color),
{
    let mut moves: Vec<Move> = Vec::new();
    let mut sq: usize = 0;
    while sq < 64
        invariant
            sq <= 64,
            moves@ == mate_moves_upto(frame_of(*board), color, sq as int),
            movegen_ready(*board, color),
        decreases 64 - sq,
    {
        push_mate_square_moves(board, color, sq, &mut moves);
        sq = sq + 1;
    }
    moves
}


/// Whether square `to` of frame `f` holds a king.
pub open spec fn king_on(f: Frame, to: int) -> bool {
    f.arr[to] is Some && f.arr[to]->0.piece_type == PieceType::King
}

/// A concatenation holds what either part holds.
proof fn lemma_contains_concat(a: Seq<Move>, b: Seq<Move>, x: Move)
    ensures
        (a + b).contains(x) <==> a.contains(x) || b.contains(x),
{
    if a.contains(x) {
        let i = choose|i: int| 0 <= i < a.len() && a[i] == x;
        assert((a + b)[i] == x);
    }
    if b.contains(x) {
        let i = choose|i: int| 0 <= i < b.len() && b[i] == x;
        assert((a + b)[a.len() + i] == x);
    }
    if (a + b).contains(x) {
        let i = choose|i: int| 0 <= i < (a + b).len() && (a + b)[i] == x;
        if i < a.len() {
            assert(a[i] == x);
        } else {
            assert(b[i - a.len()] == x);
        }
    }
}

/// The accepted move, if accepted, is all a one-move list holds.
proof fn lemma_contains_if_accepted(f: Frame, color: Color, mv: Move, x: Move)
    ensures
        if_accepted(f, color, mv).contains(x) <==> accepts(f, color, mv) && x == mv,
{
    if accepts(f, color, mv) {
        assert(if_accepted(f, color, mv)[0] == mv);
    }
}

/// For one target square, the search tries exactly the moves perft counts that do not
/// capture a king.
proof fn lemma_target_same(f: Frame, color: Color, sq: int, p: Piece, to: int, x: Move)
    requires
        0 <= sq < 64,
        0 <= to < 64,
    ensures
        mate_target_moves(f, color, sq, p, to).contains(x) <==> target_moves(f, color, sq, p, to).contains(x)
            && !king_on(f, x.to.idx()),
{
    let q = mk(sq, to, Some(PieceType::Queen), None, false);
    let n = mk(sq, to, Some(PieceType::Knight), None, false);
    let bs = mk(sq, to, Some(PieceType::Bishop), None, false);
    let r = mk(sq, to, Some(PieceType::Rook), None, false);
    let e = mk(sq, to, None, None, true);
    let pl = mk(sq, to, None, None, false);
    lemma_contains_if_accepted(f, color, q, x);
    lemma_contains_if_accepted(f, color, n, x);
    lemma_contains_if_accepted(f, color, bs, x);
    lemma_contains_if_accepted(f, color, r, x);
    lemma_contains_if_accepted(f, color, e, x);
    lemma_contains_if_accepted(f, color, pl, x);
    let iq = if_accepted(f, color, q);
    let i_n = if_accepted(f, color, n);
    let ib = if_accepted(f, color, bs);
    let ir = if_accepted(f, color, r);
    lemma_contains_concat(iq, i_n, x);
    lemma_contains_concat(iq + i_n, ib, x);
    lemma_contains_concat(iq + i_n + ib, ir, x);
    lemma_contains_concat(iq, ir, x);
    lemma_contains_concat(iq + ir, ib, x);
    lemma_contains_concat(iq + ir + ib, i_n, x);
}

/// For target squares `tos`, the search tries exactly the moves perft counts that do not
/// capture a king.
proof fn lemma_targets_same(f: Frame, color: Color, sq: int, p: Piece, tos: Seq<int>, x: Move)
    requires
        0 <= sq < 64,
        forall|j: int| 0 <= j < tos.len() ==> 0 <= #[trigger] tos[j] < 64,
    ensures
        mate_targets_moves(f, color, sq, p, tos).contains(x) <==> targets_moves(f, color, sq, p, tos).contains(x)
            && !king_on(f, x.to.idx()),
    decreases tos.len(),
{
    if tos.len() > 0 {
        lemma_targets_same(f, color, sq, p, tos.drop_last(), x);
        lemma_target_same(f, color, sq, p, tos.last(), x);
        lemma_contains_concat(
            mate_targets_moves(f, color, sq, p, tos.drop_last()),
            mate_target_moves(f, color, sq, p, tos.last()),
            x,
        );
        lemma_contains_concat(
            targets_moves(f, color, sq, p, tos.drop_last()),
            target_moves(f, color, sq, p, tos.last()),
            x,
        );
    }
}

/// A castle is accepted only onto an empty square.
proof fn lemma_castle_lands_empty(b: GameBoard, color: Color, sq: int, x: Move)
    requires
        b.players_ok(),
        b.caches_ok(),
        castle_moves(frame_of(b), color, sq).contains(x),
    ensures
        !king_on(frame_of(b), x.to.idx()),
{
    reveal(move_verdict);
    reveal(players_match);
    broadcast use crate::game::playerobj::group_board_bb;
    let f = frame_of(b);
    let arr = b.board_arr@;
    let rank: int = if color == Color::White {
        0
    } else {
        7
    };
    let ks = mk(sq, rank * 8 + 6, None, Some(CastleOption::Kingside), false);
    let qs = mk(sq, rank * 8 + 2, None, Some(CastleOption::Queenside), false);
    lemma_contains_if_accepted(f, color, ks, x);
    lemma_contains_if_accepted(f, color, qs, x);
    lemma_contains_concat(if_accepted(f, color, ks), if_accepted(f, color, qs), x);
    let to = x.to.idx();
    let o = x.castle_option->0;
    let e = castle_empty_spec(color.idx(), o.idx());
    assert(is_set(e, to));
    assert(!is_set(f.white | f.black, to));
    assert(b.white_pieces == side_bb(arr, Color::White));
    assert(b.black_pieces == side_bb(arr, Color::Black));
    assert(is_set(side_bb(arr, Color::White), to) == is_color(arr[to], Color::White));
    assert(is_set(side_bb(arr, Color::Black), to) == is_color(arr[to], Color::Black));
}

/// For the squares below `n`, the search tries exactly the moves perft counts that do
/// not capture a king.
proof fn lemma_moves_upto_same(b: GameBoard, color: Color, n: int, x: Move)
    requires
        b.players_ok(),
        b.caches_ok(),
        n <= 64,
    ensures
        mate_moves_upto(frame_of(b), color, n).contains(x) <==> moves_upto(frame_of(b), color, n).contains(x)
            && !king_on(frame_of(b), x.to.idx()),
    decreases n,
{
    let f = frame_of(b);
    if n > 0 {
        lemma_moves_upto_same(b, color, n - 1, x);
        let sq = n - 1;
        if let Some(p) = f.arr[sq] {
            if p.color == color {
                let mask = move_mask_spec(f.ep, sq, color, p.piece_type, f.white | f.black, f.white, f.black);
                lemma_squares_of(mask);
                lemma_targets_same(f, color, sq, p, squares_of(mask), x);
                let extra = if p.piece_type == PieceType::King {
                    castle_moves(f, color, sq)
                } else {
                    Seq::empty()
                };
                lemma_contains_concat(mate_targets_moves(f, color, sq, p, squares_of(mask)), extra, x);
                lemma_contains_concat(targets_moves(f, color, sq, p, squares_of(mask)), extra, x);
                if extra.contains(x) {
                    lemma_castle_lands_empty(b, color, sq, x);
                }
            }
        }
        lemma_contains_concat(mate_moves_upto(f, color, n - 1), mate_square_moves(f, color, sq), x);
        lemma_contains_concat(moves_upto(f, color, n - 1), square_moves(f, color, sq), x);
    }
}

/// The search tries exactly the legal moves: a move is among those it tries for `color`
/// if and only if it is among the moves perft counts (see `perft_moves`), captures, en
/// passant, promotions and castles included, leaving out only a capture of a king.
pub proof fn lemma_mate_moves_are_legal_moves(b: GameBoard, color: Color, x: Move)
    requires
        b.players_ok(),
        b.caches_ok(),
    ensures
        mate_moves(frame_of(b), color).contains(x) <==> perft_moves(frame_of(b), color).contains(x) && !king_on(
            frame_of(b),
            x.to.idx(),
        ),
{
    lemma_moves_upto_same(b, color, 64, x);
}

/// The board a turn of `color` with `mv` makes of `b`, its history held canonically.
pub open spec fn after(b: GameBoard, mv: Move, color: Color) -> GameBoard {
    canon(successor(b, turn_count_of(color), mv))
}

/// The mover's search over its moves `ms` from the `k`-th on, with `used` nodes counted
/// and at most `cap` allowed: each move costs a node (the search gives up with no move
/// once over the cap); a move that mates for `color` is the answer; after a move that
/// leaves the game going, with at least two plies left, it is the answer when the other
/// side is lost (see `and_node`); otherwise the next move is tried.
pub open spec fn or_scan(b: GameBoard, color: Color, plies: nat, ms: Seq<Move>, k: int, used: nat, cap: nat) -> (
    Option<Move>,
    nat,
)
    decreases plies, 0nat, ms.len() - k,
{
    if k < 0 || k >= ms.len() {
        (None, used)
    } else if used + 1 > cap {
        (None, used + 1)
    } else {
        let next = after(b, ms[k], color);
        if next.game_result == GameResult::Checkmate(color) {
            (Some(ms[k]), used + 1)
        } else if next.game_result == GameResult::Ongoing && plies >= 2 {
            let (lost, u2) = and_node(next, color.opp(), (plies - 1) as nat, used + 1, cap);
            if lost {
                (Some(ms[k]), u2)
            } else {
                or_scan(b, color, plies, ms, k + 1, u2, cap)
            }
        } else {
            or_scan(b, color, plies, ms, k + 1, used + 1, cap)
        }
    }
}

/// The mover's search at `b` for `color` with `plies` left: nothing with no plies left,
/// else the search over its moves (see `or_scan`). Answers the move found and the nodes
/// counted.
pub open spec fn or_node(b: GameBoard, color: Color, plies: nat, used: nat, cap: nat) -> (Option<Move>, nat)
    decreases plies, 1nat, 0int,
{
    if plies == 0 {
        (None, used)
    } else {
        or_scan(b, color, plies, mate_moves(frame_of(b), color), 0, used, cap)
    }
}

/// The defender's search over its replies `rs` from the `k`-th on: each reply costs a
/// node (the search gives up, not lost, once over the cap); a reply after which the game
/// is decided otherwise than still going escapes; after a reply that leaves it going,
/// the mover must find a mate with one ply less (see `or_node`).
pub open spec fn and_scan(b: GameBoard, color: Color, plies: nat, rs: Seq<Move>, k: int, used: nat, cap: nat) -> (
    bool,
    nat,
)
    decreases plies, 0nat, rs.len() - k,
{
    if k < 0 || k >= rs.len() {
        (true, used)
    } else if used + 1 > cap {
        (false, used + 1)
    } else if plies == 0 {
        (false, used + 1)
    } else {
        let next = after(b, rs[k], color);
        if next.game_result == GameResult::Ongoing {
            let (m, u2) = or_node(next, color.opp(), (plies - 1) as nat, used + 1, cap);
            if m is None {
                (false, u2)
            } else {
                and_scan(b, color, plies, rs, k + 1, u2, cap)
            }
        } else {
            (false, used + 1)
        }
    }
}

/// Whether the defender `color` at `b` is lost with `plies` left: it has a reply, and the
/// mover mates after every one (see `and_scan`). Answers also the nodes counted.
pub open spec fn and_node(b: GameBoard, color: Color, plies: nat, used: nat, cap: nat) -> (bool, nat)
    decreases plies, 1nat, 0int,
{
    let rs = mate_moves(frame_of(b), color);
    if rs.len() == 0 {
        (false, used)
    } else {
        and_scan(b, color, plies, rs, 0, used, cap)
    }
}

/// Whether `m`, made by `color` at `b`, forces mate within `plies` plies whatever the
/// defence: it mates at once, or it leaves the game going with at least two plies left
/// and the defender is then lost (see `is_lost`). No node budget enters into it.
pub open spec fn forces_mate(b: GameBoard, color: Color, plies: nat, m: Move) -> bool
    decreases plies, 3nat, 0int,
{
    let next = after(b, m, color);
    &&& plies >= 1
    &&& (next.game_result == GameResult::Checkmate(color) || (next.game_result == GameResult::Ongoing && plies
        >= 2 && is_lost(next, color.opp(), (plies - 1) as nat)))
}

/// Whether some move of `ms` from the `k`-th on, made by `color` at `b`, forces mate
/// within `plies` plies.
pub open spec fn some_forces(b: GameBoard, color: Color, plies: nat, ms: Seq<Move>, k: int) -> bool
    decreases plies, 4nat, ms.len() - k,
{
    if 0 <= k < ms.len() {
        forces_mate(b, color, plies, ms[k]) || some_forces(b, color, plies, ms, k + 1)
    } else {
        false
    }
}

/// Whether the defender `color` at `b` is lost within `plies` plies: it has a reply, and
/// every reply is answered (see `all_answered`).
pub open spec fn is_lost(b: GameBoard, color: Color, plies: nat) -> bool
    decreases plies, 2nat, 0int,
{
    let rs = mate_moves(frame_of(b), color);
    rs.len() > 0 && all_answered(b, color, plies, rs, 0)
}

/// Whether every reply of `rs` from the `k`-th on is answered (see `reply_answered`).
pub open spec fn all_answered(b: GameBoard, color: Color, plies: nat, rs: Seq<Move>, k: int) -> bool
    decreases plies, 1nat, rs.len() - k,
{
    if 0 <= k < rs.len() {
        reply_answered(b, color, plies, rs[k]) && all_answered(b, color, plies, rs, k + 1)
    } else {
        true
    }
}

/// Whether reply `r` of the defender `color` at `b` leaves the game going and the mover
/// a move that forces mate with one ply less.
pub open spec fn reply_answered(b: GameBoard, color: Color, plies: nat, r: Move) -> bool
    decreases plies, 0nat, 0int,
{
    let next = after(b, r, color);
    &&& plies >= 1
    &&& next.game_result == GameResult::Ongoing
    &&& some_forces(next, color.opp(), (plies - 1) as nat, mate_moves(frame_of(next), color.opp()), 0)
}

/// The mover's scan never reports a move that does not force mate: whatever the node
/// budget, a move it answers is among the moves scanned and forces mate within the plies.
pub proof fn lemma_or_scan_sound(
    b: GameBoard,
    color: Color,
    plies: nat,
    ms: Seq<Move>,
    k: int,
    used: nat,
    cap: nat,
)
    requires
        plies >= 1,
        0 <= k,
    ensures
        or_scan(b, color, plies, ms, k, used, cap).0 matches Some(m) ==> ms.contains(m) && forces_mate(
            b,
            color,
            plies,
            m,
        ) && some_forces(b, color, plies, ms, k),
    decreases plies, 0nat, ms.len() - k,
{
    if k >= ms.len() {
    } else if used + 1 > cap {
    } else {
        let next = after(b, ms[k], color);
        assert(ms.contains(ms[k]));
        if next.game_result == GameResult::Checkmate(color) {
            assert(forces_mate(b, color, plies, ms[k]));
            assert(or_scan(b, color, plies, ms, k, used, cap).0 == Some(ms[k]));
        } else if next.game_result == GameResult::Ongoing && plies >= 2 {
            let res = and_node(next, color.opp(), (plies - 1) as nat, used + 1, cap);
            lemma_and_node_sound(next, color.opp(), (plies - 1) as nat, used + 1, cap);
            if !res.0 {
                lemma_or_scan_sound(b, color, plies, ms, k + 1, res.1, cap);
                assert(or_scan(b, color, plies, ms, k, used, cap) == or_scan(b, color, plies, ms, k + 1, res.1, cap));
            } else {
                assert(forces_mate(b, color, plies, ms[k]));
                assert(or_scan(b, color, plies, ms, k, used, cap).0 == Some(ms[k]));
            }
        } else {
            assert(or_scan(b, color, plies, ms, k, used, cap) == or_scan(b, color, plies, ms, k + 1, used + 1, cap));
            lemma_or_scan_sound(b, color, plies, ms, k + 1, used + 1, cap);
        }
    }
}

/// A move the mover's search at `b` answers is one of its moves and forces mate within
/// the plies, whatever the node budget.
pub proof fn lemma_or_node_sound(b: GameBoard, color: Color, plies: nat, used: nat, cap: nat)
    ensures
        or_node(b, color, plies, used, cap).0 matches Some(m) ==> mate_moves(frame_of(b), color).contains(m)
            && forces_mate(b, color, plies, m) && some_forces(b, color, plies, mate_moves(frame_of(b), color), 0),
    decreases plies, 1nat, 0int,
{
    if plies > 0 {
        lemma_or_scan_sound(b, color, plies, mate_moves(frame_of(b), color), 0, used, cap);
    }
}

/// The defender's scan from the `k`-th reply on reports a loss only if each of those
/// replies is answered.
pub proof fn lemma_and_scan_sound(
    b: GameBoard,
    color: Color,
    plies: nat,
    rs: Seq<Move>,
    k: int,
    used: nat,
    cap: nat,
)
    requires
        0 <= k,
    ensures
        and_scan(b, color, plies, rs, k, used, cap).0 ==> all_answered(b, color, plies, rs, k),
    decreases plies, 0nat, rs.len() - k,
{
    if k >= rs.len() {
    } else if used + 1 > cap {
    } else if plies == 0 {
    } else {
        let next = after(b, rs[k], color);
        if next.game_result == GameResult::Ongoing {
            let res = or_node(next, color.opp(), (plies - 1) as nat, used + 1, cap);
            lemma_or_node_sound(next, color.opp(), (plies - 1) as nat, used + 1, cap);
            if res.0 is Some {
                lemma_and_scan_sound(b, color, plies, rs, k + 1, res.1, cap);
                assert(and_scan(b, color, plies, rs, k, used, cap) == and_scan(b, color, plies, rs, k + 1, res.1, cap));
                assert(reply_answered(b, color, plies, rs[k]));
            } else {
                assert(!and_scan(b, color, plies, rs, k, used, cap).0);
            }
        }
    }
}

/// The defender's search reports a loss only when the defender is lost (see `is_lost`),
/// whatever the node budget.
pub proof fn lemma_and_node_sound(b: GameBoard, color: Color, plies: nat, used: nat, cap: nat)
    ensures
        and_node(b, color, plies, used, cap).0 ==> is_lost(b, color, plies),
    decreases plies, 1nat, 0int,
{
    let rs = mate_moves(frame_of(b), color);
    if rs.len() > 0 {
        lemma_and_scan_sound(b, color, plies, rs, 0, used, cap);
    }
}

/// With one ply the mover's scan reaches every move the budget pays for: when the `k`-th
/// move mates at once and the nodes from the `j`-th move up to it fit in the budget, the
/// scan from the `j`-th on answers a move.
proof fn lemma_or_scan_finds_mate_in_one(b: GameBoard, color: Color, ms: Seq<Move>, j: int, k: int, used: nat, cap: nat)
    requires
        0 <= j <= k < ms.len(),
        after(b, ms[k], color).game_result == GameResult::Checkmate(color),
        used + (k - j) + 1 <= cap,
    ensures
        or_scan(b, color, 1, ms, j, used, cap).0 is Some,
    decreases k - j,
{
    let next = after(b, ms[j], color);
    if next.game_result != GameResult::Checkmate(color) {
        assert(j < k);
        lemma_or_scan_finds_mate_in_one(b, color, ms, j + 1, k, used + 1, cap);
    }
}

/// A mate in one is found: when one of the mover's moves mates at once and the budget
/// covers all of its moves, the search with one ply answers a move (and, by
/// `lemma_or_node_sound`, one that mates).
pub proof fn lemma_mate_in_one_found(b: GameBoard, color: Color, used: nat, cap: nat, k: int)
    requires
        0 <= k < mate_moves(frame_of(b), color).len(),
        after(b, mate_moves(frame_of(b), color)[k], color).game_result == GameResult::Checkmate(color),
        used + mate_moves(frame_of(b), color).len() <= cap,
    ensures
        or_node(b, color, 1, used, cap).0 is Some,
{
    lemma_or_scan_finds_mate_in_one(b, color, mate_moves(frame_of(b), color), 0, k, used, cap);
}

/// A strictly increasing list of squares from `lo` on has at most `64 - lo` entries.
proof fn lemma_increasing_len(s: Seq<int>, lo: int)
    requires
        0 <= lo <= 64,
        forall|i: int, j: int| 0 <= i < j < s.len() ==> s[i] < s[j],
        forall|i: int| 0 <= i < s.len() ==> lo <= #[trigger] s[i] < 64,
    ensures
        s.len() <= 64 - lo,
    decreases s.len(),
{
    if s.len() > 0 {
        let t = s.subrange(1, s.len() as int);
        assert forall|i: int| 0 <= i < t.len() implies s[0] + 1 <= #[trigger] t[i] < 64 by {
            assert(t[i] == s[i + 1]);
        }
        assert forall|i: int, j: int| 0 <= i < j < t.len() implies t[i] < t[j] by {
            assert(t[i] == s[i + 1] && t[j] == s[j + 1]);
        }
        lemma_increasing_len(t, s[0] + 1);
    }
}

/// The search tries at most four moves for one target square.
proof fn lemma_target_len(f: Frame, color: Color, sq: int, p: Piece, to: int)
    ensures
        mate_target_moves(f, color, sq, p, to).len() <= 4,
{
}

proof fn lemma_targets_len(f: Frame, color: Color, sq: int, p: Piece, tos: Seq<int>)
    ensures
        mate_targets_moves(f, color, sq, p, tos).len() <= 4 * tos.len(),
    decreases tos.len(),
{
    if tos.len() > 0 {
        lemma_targets_len(f, color, sq, p, tos.drop_last());
        lemma_target_len(f, color, sq, p, tos.last());
    }
}

/// The search tries at most 258 moves from one square: four for each of at most 64
/// targets, and two castles.
proof fn lemma_moves_upto_len(f: Frame, color: Color, n: int)
    requires
        0 <= n <= 64,
    ensures
        mate_moves_upto(f, color, n).len() <= 258 * n,
    decreases n,
{
    if n > 0 {
        lemma_moves_upto_len(f, color, n - 1);
        let sq = n - 1;
        if let Some(p) = f.arr[sq] {
            if p.color == color {
                let mask = move_mask_spec(f.ep, sq, color, p.piece_type, f.white | f.black, f.white, f.black);
                lemma_squares_of(mask);
                lemma_increasing_len(squares_of(mask), 0);
                lemma_targets_len(f, color, sq, p, squares_of(mask));
            }
        }
    }
}

/// A mate in one is always found: when some legal move of `color` (see `perft_moves`)
/// that captures no king checkmates at once, the search with one ply answers a move,
/// within the node budget of `find_forced_mate`.
pub proof fn lemma_legal_mate_in_one_found(b: GameBoard, color: Color, mv: Move)
    requires
        b.players_ok(),
        b.caches_ok(),
        perft_moves(frame_of(b), color).contains(mv),
        !king_on(frame_of(b), mv.to.idx()),
        after(canon(b), mv, color).game_result == GameResult::Checkmate(color),
    ensures
        or_node(canon(b), color, 1, 0, MAX_NODES as nat).0 is Some,
{
    let f = frame_of(b);
    assert(frame_of(canon(b)) == f);
    lemma_mate_moves_are_legal_moves(b, color, mv);
    let ms = mate_moves(f, color);
    let k = choose|k: int| 0 <= k < ms.len() && ms[k] == mv;
    lemma_moves_upto_len(f, color, 64);
    lemma_mate_in_one_found(canon(b), color, 0, MAX_NODES as nat, k);
}

/// Every turn of the search tree from `b` with `plies` left can be made: the moves can
/// be listed, and each meets what `compute_turn_items` needs; below a move that leaves
/// the game going the tree is ready too (for the mover only with two plies left).
#[verifier::opaque]
pub open spec fn mate_ready(b: GameBoard, color: Color, plies: nat, mover: bool) -> bool
    decreases plies,
{
    plies >= 1 ==> {
        &&& movegen_ready(b, color)
        &&& {
            let ms = mate_moves(frame_of(b), color);
            forall|i: int|
                0 <= i < ms.len() ==> {
                    &&& turn_ready(b, #[trigger] ms[i])
                    &&& (after(b, ms[i], color).game_result == GameResult::Ongoing && (!mover || plies >= 2)) ==> mate_ready(
                        after(b, ms[i], color),
                        color.opp(),
                        (plies - 1) as nat,
                        !mover,
                    )
                }
        }
    }
}

/// What a ready tree gives for its `i`-th move.
pub proof fn lemma_mate_ready_step(b: GameBoard, color: Color, plies: nat, mover: bool, i: int)
    requires
        mate_ready(b, color, plies, mover),
        plies >= 1,
        0 <= i < mate_moves(frame_of(b), color).len(),
    ensures
        movegen_ready(b, color),
        turn_ready(b, mate_moves(frame_of(b), color)[i]),
        ({
            let m = mate_moves(frame_of(b), color)[i];
            (after(b, m, color).game_result == GameResult::Ongoing && (!mover || plies >= 2)) ==> mate_ready(
                after(b, m, color),
                color.opp(),
                (plies - 1) as nat,
                !mover,
            )
        }),
{
    reveal(mate_ready);
}

/// Copies `board` and makes the turn `mv` of `color` on the copy with `compute_turn_items`,
/// so that checkmate, stalemate and draws are judged as in play.
pub fn apply_move(board: &GameBoard, mv: Move, color: Color) -> (r: GameBoard)
    requires
        turn_ready(canon(*board), mv),
    ensures
        r.turn_made(*board, turn_count_of(color), mv),
        canon(r) == after(canon(*board), mv, color),
{
    let mut next = board.clone();
    let ghost before = next;
    proof {
        lemma_canon(*board, *board);
        lemma_turn_ready_alike(canon(*board), before, mv);
    }
    // Even count: White just moved; odd: Black.
    let count: usize = if color == Color::White {
        0
    } else {
        1
    };
    next.compute_turn_items(count, mv);
    proof {
        lemma_turn_made_alike(next, before, *board, count, mv);
        lemma_turn_made_alike(next, before, canon(*board), count, mv);
        lemma_successor(canon(*board), count, mv, next);
        lemma_canon(next, successor(canon(*board), count, mv));
    }
    next
}


/// The mover's search (see `or_node`): a move of `color` that forces mate within
/// `plies_left` plies, found with the nodes of `budget`.
pub fn find_mate_move(board: &GameBoard, color: Color, plies_left: u32, budget: &mut NodeBudget) -> (r: Option<Move>)
    requires
        mate_ready(canon(*board), color, plies_left as nat, true),
        old(budget).used <= old(budget).cap,
        old(budget).cap + plies_left + 2 <= u64::MAX,
    ensures
        (r, final(budget).used as nat) == or_node(
            canon(*board),
            color,
            plies_left as nat,
            old(budget).used as nat,
            old(budget).cap as nat,
        ),
        final(budget).cap == old(budget).cap,
        final(budget).used <= old(budget).cap + plies_left + 1,
        r matches Some(m) ==> mate_moves(frame_of(canon(*board)), color).contains(m) && forces_mate(
            canon(*board),
            color,
            plies_left as nat,
            m,
        ),
    decreases plies_left,
{
    proof {
        lemma_or_node_sound(canon(*board), color, plies_left as nat, old(budget).used as nat, old(budget).cap as nat);
    }
    if plies_left == 0 {
        return None;
    }
    let ghost cb = canon(*board);
    proof {
        lemma_canon(*board, *board);
        reveal(mate_ready);
        reveal(movegen_ready);
    }
    let moves = legal_moves(board, color);
    let ghost ms = moves@;
    let ghost u0 = budget.used as nat;
    let ghost cap = budget.cap as nat;
    let mut i: usize = 0;
    while i < moves.len()
        invariant
            i <= moves.len(),
            plies_left >= 1,
            ms == moves@,
            ms == mate_moves(frame_of(cb), color),
            cb == canon(*board),
            mate_ready(cb, color, plies_left as nat, true),
            budget.cap == cap,
            cap == old(budget).cap,
            u0 == old(budget).used,
            budget.used <= budget.cap + plies_left,
            budget.cap + plies_left + 2 <= u64::MAX,
            or_scan(cb, color, plies_left as nat, ms, 0, u0, cap) == or_scan(
                cb,
                color,
                plies_left as nat,
                ms,
                i as int,
                budget.used as nat,
                cap,
            ),
        decreases moves.len() - i,
    {
        let mv = moves[i];
        if !budget.spend() {
            // Over the node cap: give up, proving nothing.
            return None;
        }
        proof {
            lemma_mate_ready_step(cb, color, plies_left as nat, true, i as int);
        }
        let next = apply_move(board, mv, color);
        let res = next.result();
        if res == GameResult::Checkmate(color) {
            // The mover has just mated.
            return Some(mv);
        }
        if res == GameResult::Ongoing && plies_left >= 2 {
            // The move forces mate only if every reply is still mated.
            let opp = if color == Color::White {
                Color::Black
            } else {
                Color::White
            };
            proof {
                lemma_canon(next, next);
            }
            if opponent_is_lost(&next, opp, plies_left - 1, budget) {
                return Some(mv);
            }
        }
        i = i + 1;
    }
    None
}

/// The defender's search (see `and_node`): whether `color`, to move, is lost within
/// `plies_left` plies: it has a reply and every reply still lets the mover force mate.
pub fn opponent_is_lost(board: &GameBoard, color: Color, plies_left: u32, budget: &mut NodeBudget) -> (r: bool)
    requires
        plies_left >= 1,
        mate_ready(canon(*board), color, plies_left as nat, false),
        old(budget).used <= old(budget).cap,
        old(budget).cap + plies_left + 2 <= u64::MAX,
    ensures
        (r, final(budget).used as nat) == and_node(
            canon(*board),
            color,
            plies_left as nat,
            old(budget).used as nat,
            old(budget).cap as nat,
        ),
        final(budget).cap == old(budget).cap,
        final(budget).used <= old(budget).cap + plies_left + 1,
        r ==> is_lost(canon(*board), color, plies_left as nat),
    decreases plies_left,
{
    proof {
        lemma_and_node_sound(canon(*board), color, plies_left as nat, old(budget).used as nat, old(budget).cap as nat);
    }
    let ghost cb = canon(*board);
    proof {
        lemma_canon(*board, *board);
        reveal(mate_ready);
        reveal(movegen_ready);
    }
    let replies = legal_moves(board, color);
    if replies.len() == 0 {
        // An ongoing position with no reply is not a forced mate here.
        return false;
    }
    let ghost rs = replies@;
    let ghost u0 = budget.used as nat;
    let ghost cap = budget.cap as nat;
    let mut i: usize = 0;
    while i < replies.len()
        invariant
            i <= replies.len(),
            plies_left >= 1,
            rs == replies@,
            rs == mate_moves(frame_of(cb), color),
            cb == canon(*board),
            mate_ready(cb, color, plies_left as nat, false),
            budget.cap == cap,
            cap == old(budget).cap,
            u0 == old(budget).used,
            budget.used <= budget.cap + plies_left,
            budget.cap + plies_left + 2 <= u64::MAX,
            and_scan(cb, color, plies_left as nat, rs, 0, u0, cap) == and_scan(
                cb,
                color,
                plies_left as nat,
                rs,
                i as int,
                budget.used as nat,
                cap,
            ),
        decreases replies.len() - i,
    {
        let mv = replies[i];
        if !budget.spend() {
            // Over the node cap: the defender cannot be shown lost.
            return false;
        }
        proof {
            lemma_mate_ready_step(cb, color, plies_left as nat, false, i as int);
        }
        let next = apply_move(board, mv, color);
        if next.result() != GameResult::Ongoing {
            // Mate against the mover, stalemate or a draw: the defender escapes.
            return false;
        }
        let opp = if color == Color::White {
            Color::Black
        } else {
            Color::White
        };
        proof {
            lemma_canon(next, next);
        }
        if find_mate_move(&next, opp, plies_left - 1, budget).is_none() {
            // This reply escapes the mate.
            return false;
        }
        i = i + 1;
    }
    true
}

/// A move by which `color` forces mate within `max_plies` plies (one ply is a move of
/// one side: mate in 1 is 1 ply, mate in 2 is 3), found by the search of `find_mate_move`
/// with a budget of `MAX_NODES` nodes; `None` when none is proven, always for 0 plies.
pub fn find_forced_mate(board: &GameBoard, color: Color, max_plies: u32) -> (r: Option<Move>)
    requires
        mate_ready(canon(*board), color, max_plies as nat, true),
    ensures
        r == (if max_plies == 0 {
            None
        } else {
            or_node(canon(*board), color, max_plies as nat, 0, MAX_NODES as nat).0
        }),
        r matches Some(m) ==> mate_moves(frame_of(canon(*board)), color).contains(m) && forces_mate(
            canon(*board),
            color,
            max_plies as nat,
            m,
        ),
        forall|mv: Move|
            max_plies == 1 && #[trigger] perft_moves(frame_of(*board), color).contains(mv) && !king_on(
                frame_of(*board),
                mv.to.idx(),
            ) && after(canon(*board), mv, color).game_result == GameResult::Checkmate(color) ==> r is Some,
{
    if max_plies == 0 {
        return None;
    }
    proof {
        lemma_or_node_sound(canon(*board), color, max_plies as nat, 0, MAX_NODES as nat);
    }
    let mut budget = NodeBudget { used: 0, cap: MAX_NODES };
    let r = find_mate_move(board, color, max_plies, &mut budget);
    proof {
        reveal(mate_ready);
        reveal(movegen_ready);
        assert(board.players_ok() && board.caches_ok());
        assert forall|mv: Move|
            max_plies == 1 && #[trigger] perft_moves(frame_of(*board), color).contains(mv) && !king_on(
                frame_of(*board),
                mv.to.idx(),
            ) && after(canon(*board), mv, color).game_result == GameResult::Checkmate(color) implies r is Some by {
            lemma_legal_mate_in_one_found(*board, color, mv);
        }
    }
    r
}

} // verus!
