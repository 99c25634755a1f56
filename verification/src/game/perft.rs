//! Perft: counting the leaves of the move tree, to check move generation.
use vstd::prelude::*;
use std::sync::Arc;
use crate::bits::{is_set, squares_of, lemma_squares_of, lemma_squares_step, lemma_lowest, group_bits};
use crate::game::board::{GameBoard, move_mask_spec, move_verdict, successor, canon, alike, lemma_canon, lemma_successor, lemma_turn_made_alike};
use crate::game::board::{players_match, lemma_mask_target, king_home, rook_from_sq, rook_to_sq};
use crate::game::playerobj::{side_bb, is_color};
use crate::precomputed::castle_empty_spec;
use crate::game::Move;
use crate::{BitIterator, CastleOption, Color, Piece, PieceType, PrecomputedItems, Square};
use crate::game::fen::push_char;

verus! {

broadcast use {group_bits, crate::square::group_square};

/// What a move-list generator reads of a board: squares, en passant target, castling
/// rights, both sides' kind bitboards and side bitboards.
pub struct Frame {
    pub arr: Seq<Option<Piece>>,
    pub ep: Option<usize>,
    pub rights: (bool, bool, bool, bool),
    pub white_bbs: Seq<u64>,
    pub black_bbs: Seq<u64>,
    pub white: u64,
    pub black: u64,
}

/// The frame of board `b`.
pub open spec fn frame_of(b: GameBoard) -> Frame {
    Frame {
        arr: b.board_arr@,
        ep: b.en_passant_target,
        rights: b.rights(),
        white_bbs: b.player1.pieces_bb@,
        black_bbs: b.player2.pieces_bb@,
        white: b.white_pieces,
        black: b.black_pieces,
    }
}

/// Whether `validate_move` accepts `mv` for `color` on frame `f`, with the union of the
/// side bitboards as the occupancy.
pub open spec fn accepts(f: Frame, color: Color, mv: Move) -> bool {
    move_verdict(f.arr, f.ep, f.rights, f.white_bbs, f.black_bbs, mv, color, f.white | f.black, f.white, f.black)
}

/// The move from `from` to `to` with the given promotion, castle and en passant flag.
pub open spec fn mk(from: int, to: int, promo: Option<PieceType>, castle: Option<CastleOption>, ep: bool) -> Move {
    Move { from: Square::at(from), to: Square::at(to), promotion_piece_type: promo, castle_option: castle, en_passant: ep }
}

/// `mv` if `accepts` it, as a list.
pub open spec fn if_accepted(f: Frame, color: Color, mv: Move) -> Seq<Move> {
    if accepts(f, color, mv) {
        seq![mv]
    } else {
        Seq::empty()
    }
}

/// The moves perft counts for the piece `p` of `color` on `sq` going to `to`: the four
/// promotions (queen, rook, bishop, knight) for a pawn reaching the last rank, the en
/// passant capture for a pawn going diagonally to the target, else the plain move; each
/// only if accepted.
pub open spec fn target_moves(f: Frame, color: Color, sq: int, p: Piece, to: int) -> Seq<Move> {
    if p.piece_type == PieceType::Pawn && (to / 8 == 7 || to / 8 == 0) {
        promotions(f, color, sq, to)
    } else if p.piece_type == PieceType::Pawn && f.ep == Some(to as usize) && sq % 8 != to % 8 {
        if_accepted(f, color, mk(sq, to, None, None, true))
    } else {
        if_accepted(f, color, mk(sq, to, None, None, false))
    }
}

/// The moves for the targets `tos` of the piece `p` on `sq`, in order.
pub open spec fn targets_moves(f: Frame, color: Color, sq: int, p: Piece, tos: Seq<int>) -> Seq<Move>
    decreases tos.len(),
{
    if tos.len() == 0 {
        Seq::empty()
    } else {
        targets_moves(f, color, sq, p, tos.drop_last()) + target_moves(f, color, sq, p, tos.last())
    }
}

/// The castles of the king of `color` on `sq`, kingside then queenside, each only if
/// accepted; they land on the side's home rank.
pub open spec fn castle_moves(f: Frame, color: Color, sq: int) -> Seq<Move> {
    let rank: int = if color == Color::White {
        0
    } else {
        7
    };
    if_accepted(f, color, mk(sq, rank * 8 + 6, None, Some(CastleOption::Kingside), false)) + if_accepted(
        f,
        color,
        mk(sq, rank * 8 + 2, None, Some(CastleOption::Queenside), false),
    )
}

/// The moves perft counts for the piece of `color` on `sq`: those of its mask squares in
/// increasing order, then for a king its castles.
pub open spec fn square_moves(f: Frame, color: Color, sq: int) -> Seq<Move> {
    match f.arr[sq] {
        Some(p) => if p.color == color {
            let mask = move_mask_spec(f.ep, sq, color, p.piece_type, f.white | f.black, f.white, f.black);
            targets_moves(f, color, sq, p, squares_of(mask)) + if p.piece_type == PieceType::King {
                castle_moves(f, color, sq)
            } else {
                Seq::empty()
            }
        } else {
            Seq::empty()
        },
        None => Seq::empty(),
    }
}

/// The moves perft counts for `color` from the squares below `n`.
pub open spec fn moves_upto(f: Frame, color: Color, n: int) -> Seq<Move>
    decreases n,
{
    if n <= 0 {
        Seq::empty()
    } else {
        moves_upto(f, color, n - 1) + square_moves(f, color, n - 1)
    }
}

/// The moves perft counts for `color` on frame `f`, square by square.
pub open spec fn perft_moves(f: Frame, color: Color) -> Seq<Move> {
    moves_upto(f, color, 64)
}


/// What the move-list generators need of a board: consistent tables, players, en
/// passant target and cached side bitboards, and a king of the side to move.
#[verifier::opaque]
pub open spec fn movegen_ready(b: GameBoard, color: Color) -> bool {
    &&& b.tables_ok()
    &&& b.players_ok()
    &&& b.ep_ok()
    &&& b.caches_ok()
    &&& b.king_bb(color) != 0
}

/// Appends `mv` when `validate_move` accepts it for `color` (see `accepts`).
pub(crate) fn push_if_valid(board: &GameBoard, color: Color, mv: Move, moves: &mut Vec<Move>)
    requires
        movegen_ready(*board, color),
        mv.castle_option is None ==> crate::game::playerobj::is_color(board.board_arr[mv.from.idx()], color),
        mv.castle_option is None && mv.promotion_piece_type is Some ==> {
            &&& board.board_arr[mv.from.idx()]->0.piece_type == PieceType::Pawn
            &&& (mv.to.idx() / 8 == 7 || mv.to.idx() / 8 == 0)
        },
    ensures
        final(moves)@ == old(moves)@ + if_accepted(frame_of(*board), color, mv),
{
    reveal(movegen_ready);
    let combined = board.white_pieces | board.black_pieces;
    if board.validate_move(mv, color, combined, board.white_pieces, board.black_pieces) {
        moves.push(mv);
    }
    proof {
        assert(moves@ =~= old(moves)@ + if_accepted(frame_of(*board), color, mv));
    }
}

/// The four promotions from `sq` to `to`, queen, rook, bishop, knight, each if accepted.
pub open spec fn promotions(f: Frame, color: Color, sq: int, to: int) -> Seq<Move> {
    if_accepted(f, color, mk(sq, to, Some(PieceType::Queen), None, false)) + if_accepted(
        f,
        color,
        mk(sq, to, Some(PieceType::Rook), None, false),
    ) + if_accepted(f, color, mk(sq, to, Some(PieceType::Bishop), None, false)) + if_accepted(
        f,
        color,
        mk(sq, to, Some(PieceType::Knight), None, false),
    )
}

/// Appends the promotions of the pawn of `color` on `sq` reaching `to` on a last rank
/// (see `promotions`).
fn push_promotions(board: &GameBoard, color: Color, sq: usize, to_sq: usize, moves: &mut Vec<Move>)
    requires
        movegen_ready(*board, color),
        sq < 64,
        to_sq < 64,
        to_sq / 8 == 7 || to_sq / 8 == 0,
        board.board_arr[sq as int] == Some(Piece { piece_type: PieceType::Pawn, color }),
    ensures
        final(moves)@ == old(moves)@ + promotions(frame_of(*board), color, sq as int, to_sq as int),
{
    let from = Square::from_index(sq as u8);
    let to = Square::from_index(to_sq as u8);
    let ghost f = frame_of(*board);
    let ghost m0 = moves@;
    let ghost a = if_accepted(f, color, mk(sq as int, to_sq as int, Some(PieceType::Queen), None, false));
    let ghost b = if_accepted(f, color, mk(sq as int, to_sq as int, Some(PieceType::Rook), None, false));
    let ghost c = if_accepted(f, color, mk(sq as int, to_sq as int, Some(PieceType::Bishop), None, false));
    let ghost d = if_accepted(f, color, mk(sq as int, to_sq as int, Some(PieceType::Knight), None, false));
    push_if_valid(board, color, Move { from, to, promotion_piece_type: Some(PieceType::Queen), castle_option: None, en_passant: false }, moves);
    push_if_valid(board, color, Move { from, to, promotion_piece_type: Some(PieceType::Rook), castle_option: None, en_passant: false }, moves);
    proof {
        vstd::seq_lib::lemma_concat_associative(m0, a, b);
    }
    push_if_valid(board, color, Move { from, to, promotion_piece_type: Some(PieceType::Bishop), castle_option: None, en_passant: false }, moves);
    proof {
        vstd::seq_lib::lemma_concat_associative(m0, a + b, c);
    }
    push_if_valid(board, color, Move { from, to, promotion_piece_type: Some(PieceType::Knight), castle_option: None, en_passant: false }, moves);
    proof {
        vstd::seq_lib::lemma_concat_associative(m0, a + b + c, d);
    }
}

/// Appends the moves perft counts for the piece `p` of `color` on `sq` going to `to`
/// (see `target_moves`).
fn push_target_moves(board: &GameBoard, color: Color, sq: usize, p: Piece, to_sq: usize, moves: &mut Vec<Move>)
    requires
        movegen_ready(*board, color),
        sq < 64,
        to_sq < 64,
        board.board_arr[sq as int] == Some(p),
        p.color == color,
    ensures
        final(moves)@ == old(moves)@ + target_moves(frame_of(*board), color, sq as int, p, to_sq as int),
{
    let from = Square::from_index(sq as u8);
    let to = Square::from_index(to_sq as u8);
    let ghost f = frame_of(*board);
    if p.piece_type == PieceType::Pawn {
        let to_rank = to_sq / 8;
        // Promotion
        if to_rank == 7 || to_rank == 0 {
            push_promotions(board, color, sq, to_sq, moves);
            return;
        }
        // En passant: a diagonal move onto the target.
        if let Some(ep_target) = board.en_passant_target {
            if to_sq == ep_target && sq % 8 != to_sq % 8 {
                push_if_valid(board, color, Move { from, to, promotion_piece_type: None, castle_option: None, en_passant: true }, moves);
                return;
            }
        }
    }
    // A plain move (one-step king moves too).
    push_if_valid(board, color, Move { from, to, promotion_piece_type: None, castle_option: None, en_passant: false }, moves);
}

/// Appends the moves perft counts for the piece of `color` on `sq` (see `square_moves`).
fn push_square_moves(board: &GameBoard, color: Color, sq: usize, moves: &mut Vec<Move>)
    requires
        movegen_ready(*board, color),
        sq < 64,
    ensures
        final(moves)@ == old(moves)@ + square_moves(frame_of(*board), color, sq as int),
{
    let ghost f = frame_of(*board);
    let ghost m0 = moves@;
    let piece = match board.board_arr[sq] {
        Some(p) => {
            if p.color == color {
                p
            } else {
                proof {
                    assert(moves@ =~= m0 + square_moves(f, color, sq as int));
                }
                return;
            }
        },
        None => {
            proof {
                assert(moves@ =~= m0 + square_moves(f, color, sq as int));
            }
            return;
        },
    };
    let combined = board.white_pieces | board.black_pieces;
    proof {
        reveal(movegen_ready);
    }
    let move_mask = board.get_move_mask(sq, color, piece.piece_type, combined, board.white_pieces, board.black_pieces);
    let mut it = BitIterator::new(move_mask);
    let ghost all = squares_of(move_mask);
    let ghost mut i: int = 0;
    proof {
        lemma_squares_of(move_mask);
    }
    while it.bits != 0
        invariant
            0 <= i <= all.len(),
            all == squares_of(move_mask),
            squares_of(it.bits) == all.skip(i),
            forall|j: int| 0 <= j < all.len() ==> 0 <= #[trigger] all[j] < 64,
            moves@ == m0 + targets_moves(f, color, sq as int, piece, all.take(i)),
            movegen_ready(*board, color),
            sq < 64,
            board.board_arr[sq as int] == Some(piece),
            piece.color == color,
            f == frame_of(*board),
        decreases it.bits,
    {
        let ghost b = it.bits;
        proof {
            lemma_squares_step(b, all, i);
            lemma_lowest(b);
        }
        let to_sq = it.next_square().unwrap();
        push_target_moves(board, color, sq, piece, to_sq, moves);
        proof {
            assert(all.take(i + 1).drop_last() =~= all.take(i));
            assert(all.take(i + 1).last() == to_sq);
            i = i + 1;
        }
    }
    proof {
        assert(squares_of(0u64).len() == 0);
        assert(all.take(i) =~= all);
    }
    let ghost m1 = moves@;
    // Castling: the mask holds only one-step king moves.
    if piece.piece_type == PieceType::King {
        let king_rank: u8 = if color == Color::White {
            0
        } else {
            7
        };
        let from = Square::from_index(sq as u8);
        push_if_valid(
            board,
            color,
            Move {
                from,
                to: Square::from_index(king_rank * 8 + 6),
                promotion_piece_type: None,
                castle_option: Some(CastleOption::Kingside),
                en_passant: false,
            },
            moves,
        );
        push_if_valid(
            board,
            color,
            Move {
                from,
                to: Square::from_index(king_rank * 8 + 2),
                promotion_piece_type: None,
                castle_option: Some(CastleOption::Queenside),
                en_passant: false,
            },
            moves,
        );
        proof {
            assert(moves@ =~= m1 + castle_moves(f, color, sq as int));
        }
    }
    proof {
        assert(moves@ =~= m0 + square_moves(f, color, sq as int));
    }
}

/// Every move perft counts for `color`: for each square in turn, the accepted moves of
/// the piece of `color` on it, promotions in every kind, en passant captures, and
/// castles (see `perft_moves`).
pub fn get_legal_moves_for_perft(board: &GameBoard, color: Color) -> (moves: Vec<Move>)
    requires
        movegen_ready(*board, color),
    ensures
        moves@ == perft_moves(frame_of(*board), color),
{
    let mut moves: Vec<Move> = Vec::new();
    let mut sq: usize = 0;
    while sq < 64
        invariant
            sq <= 64,
            moves@ == moves_upto(frame_of(*board), color, sq as int),
            movegen_ready(*board, color),
        decreases 64 - sq,
    {
        push_square_moves(board, color, sq, &mut moves);
        sq = sq + 1;
    }
    moves
}

/// The moves from the squares below `n` are a prefix of those from the squares below `m`.
proof fn lemma_moves_upto_prefix(f: Frame, color: Color, n: int, m: int)
    requires
        0 <= n <= m,
    ensures
        moves_upto(f, color, n).len() <= moves_upto(f, color, m).len(),
    decreases m - n,
{
    if n < m {
        lemma_moves_upto_prefix(f, color, n, m - 1);
    }
}

/// Whether `color` has a move perft counts (see `perft_moves`), looking square by square
/// and stopping at the first square that has one.
pub fn has_legal_move(board: &GameBoard, color: Color) -> (r: bool)
    requires
        movegen_ready(*board, color),
    ensures
        r == (perft_moves(frame_of(*board), color).len() > 0),
{
    let ghost f = frame_of(*board);
    let mut sq: usize = 0;
    while sq < 64
        invariant
            sq <= 64,
            moves_upto(f, color, sq as int).len() == 0,
            movegen_ready(*board, color),
            f == frame_of(*board),
        decreases 64 - sq,
    {
        let mut found: Vec<Move> = Vec::new();
        push_square_moves(board, color, sq, &mut found);
        if found.len() > 0 {
            proof {
                assert(moves_upto(f, color, sq + 1) == moves_upto(f, color, sq as int) + square_moves(f, color, sq as int));
                lemma_moves_upto_prefix(f, color, sq + 1, 64);
            }
            return true;
        }
        proof {
            assert(moves_upto(f, color, sq + 1) == moves_upto(f, color, sq as int) + square_moves(f, color, sq as int));
        }
        sq = sq + 1;
    }
    false
}


/// Whether `update_board` can make every move of `ms` on `b` (see `update_ok`).
pub open spec fn all_makeable(b: GameBoard, ms: Seq<Move>) -> bool {
    forall|i: int| 0 <= i < ms.len() ==> b.update_ok(#[trigger] ms[i])
}

proof fn lemma_all_makeable_concat(b: GameBoard, x: Seq<Move>, y: Seq<Move>)
    requires
        all_makeable(b, x),
        all_makeable(b, y),
    ensures
        all_makeable(b, x + y),
{
    assert forall|i: int| 0 <= i < (x + y).len() implies b.update_ok(#[trigger] (x + y)[i]) by {
        if i < x.len() {
            assert((x + y)[i] == x[i]);
        } else {
            assert((x + y)[i] == y[i - x.len()]);
        }
    }
}

proof fn lemma_if_accepted_makeable(b: GameBoard, color: Color, mv: Move)
    requires
        accepts(frame_of(b), color, mv) ==> b.update_ok(mv),
    ensures
        all_makeable(b, if_accepted(frame_of(b), color, mv)),
{
    if accepts(frame_of(b), color, mv) {
        assert(if_accepted(frame_of(b), color, mv)[0] == mv);
    }
}

/// The moves perft counts for the piece `p` of `color` on `sq` going to a square `to` of
/// its mask can be made.
proof fn lemma_target_makeable(b: GameBoard, color: Color, sq: int, p: Piece, to: int)
    requires
        b.wf(),
        0 <= sq < 64,
        0 <= to < 64,
        b.board_arr@[sq] == Some(p),
        p.color == color,
        is_set(
            move_mask_spec(
                b.en_passant_target,
                sq,
                color,
                p.piece_type,
                b.white_pieces | b.black_pieces,
                b.white_pieces,
                b.black_pieces,
            ),
            to,
        ),
    ensures
        all_makeable(b, target_moves(frame_of(b), color, sq, p, to)),
{
    reveal(players_match);
    let arr = b.board_arr@;
    let f = frame_of(b);
    assert(b.white_pieces == side_bb(arr, Color::White));
    assert(b.black_pieces == side_bb(arr, Color::Black));
    lemma_mask_target(arr, b.en_passant_target, sq, to, color, p.piece_type);
    if p.piece_type == PieceType::Pawn && (to / 8 == 7 || to / 8 == 0) {
        let q = mk(sq, to, Some(PieceType::Queen), None, false);
        let rk = mk(sq, to, Some(PieceType::Rook), None, false);
        let bs = mk(sq, to, Some(PieceType::Bishop), None, false);
        let kn = mk(sq, to, Some(PieceType::Knight), None, false);
        lemma_if_accepted_makeable(b, color, q);
        lemma_if_accepted_makeable(b, color, rk);
        lemma_if_accepted_makeable(b, color, bs);
        lemma_if_accepted_makeable(b, color, kn);
        lemma_all_makeable_concat(b, if_accepted(f, color, q), if_accepted(f, color, rk));
        lemma_all_makeable_concat(b, if_accepted(f, color, q) + if_accepted(f, color, rk), if_accepted(f, color, bs));
        lemma_all_makeable_concat(
            b,
            if_accepted(f, color, q) + if_accepted(f, color, rk) + if_accepted(f, color, bs),
            if_accepted(f, color, kn),
        );
    } else if p.piece_type == PieceType::Pawn && f.ep == Some(to as usize) && sq % 8 != to % 8 {
        lemma_if_accepted_makeable(b, color, mk(sq, to, None, None, true));
    } else {
        lemma_if_accepted_makeable(b, color, mk(sq, to, None, None, false));
    }
}

/// The moves perft counts for the piece `p` on `sq` going to squares `tos` of its mask
/// can be made.
proof fn lemma_targets_makeable(b: GameBoard, color: Color, sq: int, p: Piece, tos: Seq<int>)
    requires
        b.wf(),
        0 <= sq < 64,
        b.board_arr@[sq] == Some(p),
        p.color == color,
        forall|j: int|
            0 <= j < tos.len() ==> 0 <= #[trigger] tos[j] < 64 && is_set(
                move_mask_spec(
                    b.en_passant_target,
                    sq,
                    color,
                    p.piece_type,
                    b.white_pieces | b.black_pieces,
                    b.white_pieces,
                    b.black_pieces,
                ),
                tos[j],
            ),
    ensures
        all_makeable(b, targets_moves(frame_of(b), color, sq, p, tos)),
    decreases tos.len(),
{
    if tos.len() > 0 {
        lemma_targets_makeable(b, color, sq, p, tos.drop_last());
        lemma_target_makeable(b, color, sq, p, tos.last());
        lemma_all_makeable_concat(
            b,
            targets_moves(frame_of(b), color, sq, p, tos.drop_last()),
            target_moves(frame_of(b), color, sq, p, tos.last()),
        );
    }
}

/// The castles perft counts for the only king of `color`, on `sq`, can be made: a castle
/// is accepted only with its right, which keeps king and rook at home, and with the
/// squares between them empty.
proof fn lemma_castles_makeable(b: GameBoard, color: Color, sq: int)
    requires
        b.wf(),
        b.one_king(color),
        0 <= sq < 64,
        b.board_arr@[sq] == Some(Piece { piece_type: PieceType::King, color }),
    ensures
        all_makeable(b, castle_moves(frame_of(b), color, sq)),
{
    reveal(move_verdict);
    reveal(players_match);
    broadcast use crate::game::playerobj::group_board_bb;
    let f = frame_of(b);
    let arr = b.board_arr@;
    let occ = b.white_pieces | b.black_pieces;
    assert(b.white_pieces == side_bb(arr, Color::White));
    assert(b.black_pieces == side_bb(arr, Color::Black));
    assert forall|k: int| 0 <= k < 64 && !is_set(occ, k) implies arr[k] is None by {
        assert(is_set(side_bb(arr, Color::White), k) == is_color(arr[k], Color::White));
        assert(is_set(side_bb(arr, Color::Black), k) == is_color(arr[k], Color::Black));
    }
    let rank: int = if color == Color::White {
        0
    } else {
        7
    };
    let home = king_home(color);
    let ks = mk(sq, rank * 8 + 6, None, Some(CastleOption::Kingside), false);
    let qs = mk(sq, rank * 8 + 2, None, Some(CastleOption::Queenside), false);
    if accepts(f, color, ks) {
        assert(arr[home] == Some(Piece { piece_type: PieceType::King, color }));
        assert(sq == home);
        let e = castle_empty_spec(color.idx(), CastleOption::Kingside.idx());
        assert(is_set(e, home + 1) && is_set(e, home + 2));
        assert(!is_set(occ, home + 1) && !is_set(occ, home + 2));
        assert(arr[home + 1] is None && arr[home + 2] is None);
        assert(ks.to.idx() == home + 2);
        assert(rook_to_sq(CastleOption::Kingside, color) == home + 1);
        assert(arr[rook_from_sq(CastleOption::Kingside, color)] == Some(
            Piece { piece_type: PieceType::Rook, color },
        ));
        assert(b.update_ok(ks));
    }
    if accepts(f, color, qs) {
        assert(arr[home] == Some(Piece { piece_type: PieceType::King, color }));
        assert(sq == home);
        let e = castle_empty_spec(color.idx(), CastleOption::Queenside.idx());
        assert(is_set(e, home - 1) && is_set(e, home - 2));
        assert(!is_set(occ, home - 1) && !is_set(occ, home - 2));
        assert(arr[home - 1] is None && arr[home - 2] is None);
        assert(qs.to.idx() == home - 2);
        assert(rook_to_sq(CastleOption::Queenside, color) == home - 1);
        assert(arr[rook_from_sq(CastleOption::Queenside, color)] == Some(
            Piece { piece_type: PieceType::Rook, color },
        ));
        assert(b.update_ok(qs));
    }
    lemma_if_accepted_makeable(b, color, ks);
    lemma_if_accepted_makeable(b, color, qs);
    lemma_all_makeable_concat(b, if_accepted(f, color, ks), if_accepted(f, color, qs));
}

/// The moves perft counts for the squares below `n` can be made.
proof fn lemma_moves_upto_makeable(b: GameBoard, color: Color, n: int)
    requires
        b.wf(),
        b.one_king(color),
        n <= 64,
    ensures
        all_makeable(b, moves_upto(frame_of(b), color, n)),
    decreases n,
{
    let f = frame_of(b);
    let arr = b.board_arr@;
    if n > 0 {
        lemma_moves_upto_makeable(b, color, n - 1);
        let sq = n - 1;
        if let Some(p) = arr[sq] {
            if p.color == color {
                let mask = move_mask_spec(f.ep, sq, color, p.piece_type, f.white | f.black, f.white, f.black);
                lemma_squares_of(mask);
                lemma_targets_makeable(b, color, sq, p, squares_of(mask));
                if p.piece_type == PieceType::King {
                    lemma_castles_makeable(b, color, sq);
                    lemma_all_makeable_concat(b, targets_moves(f, color, sq, p, squares_of(mask)), castle_moves(f, color, sq));
                } else {
                    assert(targets_moves(f, color, sq, p, squares_of(mask)) + Seq::<Move>::empty() =~= targets_moves(
                        f,
                        color,
                        sq,
                        p,
                        squares_of(mask),
                    ));
                }
            }
        }
        lemma_all_makeable_concat(b, moves_upto(f, color, n - 1), square_moves(f, color, sq));
    }
}

/// Every move perft counts for `color` on a consistent board with one king of `color` is
/// one `update_board` can make (see `update_ok`): a piece of `color` leaves `from` for a
/// square without one of its own, only pawns promote and only on the far rank, castles
/// start from the king's home square with the rook in place and the squares between
/// empty, and a double step crosses an empty square.
pub proof fn lemma_legal_moves_makeable(b: GameBoard, color: Color)
    requires
        b.wf(),
        b.one_king(color),
    ensures
        forall|i: int|
            0 <= i < perft_moves(frame_of(b), color).len() ==> b.update_ok(
                #[trigger] perft_moves(frame_of(b), color)[i],
            ),
{
    lemma_moves_upto_makeable(b, color, 64);
}


/// The count `compute_turn_items` is told after `color` moves: even after White, odd
/// after Black.
pub open spec fn turn_count_of(color: Color) -> usize {
    if color == Color::White {
        0
    } else {
        1
    }
}

/// What `compute_turn_items` needs to make a turn with `mv` on `b`.
#[verifier::opaque]
pub open spec fn turn_ready(b: GameBoard, mv: Move) -> bool {
    &&& b.wf()
    &&& b.update_ok(mv)
    &&& b.king_bb(Color::White) != 0
    &&& b.king_bb(Color::Black) != 0
    &&& (b.board_arr@[mv.to.idx()] is Some ==> b.board_arr@[mv.to.idx()]->0.piece_type != PieceType::King)
    &&& b.halfmove_clock < u32::MAX
    &&& forall|k: u64| b.position_history@.contains_key(k) ==> b.position_history@[k] < 255
}

/// The leaves at `depth` below the first `k` moves perft counts from `b` for `color`;
/// at depth 1 the number of moves, at depth 0 the position itself.
pub open spec fn perft_acc(b: GameBoard, color: Color, depth: nat, k: int) -> nat
    decreases depth, k,
{
    if depth == 0 {
        1
    } else {
        let ms = perft_moves(frame_of(b), color);
        if depth == 1 {
            ms.len()
        } else if k <= 0 || k > ms.len() {
            0
        } else {
            let child = canon(successor(b, turn_count_of(color), ms[k - 1]));
            perft_acc(b, color, depth, k - 1) + perft_acc(
                child,
                color.opp(),
                (depth - 1) as nat,
                perft_moves(frame_of(child), color.opp()).len() as int,
            )
        }
    }
}

/// The number of leaves of the move tree of depth `depth` from `b` with `color` to move,
/// over the moves perft counts (see `perft_moves`).
pub open spec fn perft_spec(b: GameBoard, color: Color, depth: nat) -> nat {
    perft_acc(canon(b), color, depth, perft_moves(frame_of(b), color).len() as int)
}

/// The sum of the leaf counts at `depth` below the first `k` moves perft counts from `b`
/// for `color`, each move's turn made on `b` (see `successor`).
pub open spec fn children_sum(b: GameBoard, color: Color, depth: nat, k: int) -> nat
    decreases k,
{
    if k <= 0 {
        0
    } else {
        let ms = perft_moves(frame_of(b), color);
        children_sum(b, color, depth, k - 1) + perft_spec(
            successor(canon(b), turn_count_of(color), ms[k - 1]),
            color.opp(),
            depth,
        )
    }
}

/// The counts below the first `k` moves are the sums of their subtrees.
proof fn lemma_children_sum(b: GameBoard, color: Color, depth: nat, k: int)
    requires
        depth >= 1,
        0 <= k <= perft_moves(frame_of(b), color).len(),
    ensures
        perft_acc(canon(b), color, depth + 1, k) == children_sum(b, color, depth, k),
    decreases k,
{
    let cb = canon(b);
    assert(frame_of(cb) == frame_of(b));
    if k > 0 {
        lemma_children_sum(b, color, depth, k - 1);
        let ms = perft_moves(frame_of(b), color);
        let s = successor(cb, turn_count_of(color), ms[k - 1]);
        assert(frame_of(canon(s)) == frame_of(s));
    }
}

/// Perft's recursion: depth 0 counts the position itself, depth 1 the moves perft counts
/// (see `perft_moves`), and one level deeper the sum, over those moves, of the counts
/// from the position each move's turn makes, with the other side to move.
pub proof fn lemma_perft_recursion(b: GameBoard, color: Color, depth: nat)
    requires
        depth >= 1,
    ensures
        perft_spec(b, color, 0) == 1,
        perft_spec(b, color, 1) == perft_moves(frame_of(b), color).len(),
        perft_spec(b, color, depth + 1) == children_sum(
            b,
            color,
            depth,
            perft_moves(frame_of(b), color).len() as int,
        ),
{
    assert(frame_of(canon(b)) == frame_of(b));
    lemma_children_sum(b, color, depth, perft_moves(frame_of(b), color).len() as int);
}

/// Every turn of the tree of depth `depth` from `b` can be made: the moves can be
/// listed at each position, and each move below the last level meets what
/// `compute_turn_items` needs.
#[verifier::opaque]
pub open spec fn perft_ready(b: GameBoard, color: Color, depth: nat) -> bool
    decreases depth,
{
    &&& movegen_ready(b, color)
    &&& depth >= 2 ==> {
        let ms = perft_moves(frame_of(b), color);
        forall|i: int|
            0 <= i < ms.len() ==> {
                &&& turn_ready(b, #[trigger] ms[i])
                &&& perft_ready(canon(successor(b, turn_count_of(color), ms[i])), color.opp(), (depth - 1) as nat)
            }
    }
}

/// A board alike to one where a turn with `mv` can be made meets what
/// `compute_turn_items` needs for it.
pub proof fn lemma_turn_ready_alike(b1: GameBoard, b2: GameBoard, mv: Move)
    requires
        turn_ready(b1, mv),
        alike(b1, b2),
    ensures
        b2.wf(),
        b2.update_ok(mv),
        b2.king_bb(Color::White) != 0,
        b2.king_bb(Color::Black) != 0,
        b2.board_arr[mv.to.idx()] is Some ==> b2.board_arr[mv.to.idx()]->0.piece_type != PieceType::King,
        b2.halfmove_clock < u32::MAX,
        forall|k: u64| b2.position_history@.contains_key(k) ==> b2.position_history@[k] < 255,
{
    reveal(turn_ready);
}

/// What the tree from `b` being ready gives for its `i`-th move: the turn can be made and
/// the tree below it is ready.
pub proof fn lemma_perft_ready_step(b: GameBoard, color: Color, depth: nat, i: int)
    requires
        perft_ready(b, color, depth),
        depth >= 2,
        0 <= i < perft_moves(frame_of(b), color).len(),
    ensures
        turn_ready(b, perft_moves(frame_of(b), color)[i]),
        perft_ready(
            canon(successor(b, turn_count_of(color), perft_moves(frame_of(b), color)[i])),
            color.opp(),
            (depth - 1) as nat,
        ),
{
    reveal(perft_ready);
}

/// Counts over more moves are no smaller.
proof fn lemma_perft_acc_grows(b: GameBoard, color: Color, depth: nat, k: int, m: int)
    requires
        depth >= 2,
        0 <= k <= m <= perft_moves(frame_of(b), color).len(),
    ensures
        perft_acc(b, color, depth, k) <= perft_acc(b, color, depth, m),
    decreases m - k,
{
    if k < m {
        lemma_perft_acc_grows(b, color, depth, k, m - 1);
    }
}

/// The number of leaves of the move tree of depth `depth` from `board` with `color` to
/// move (see `perft_spec`), making each turn with `compute_turn_items` on a copy.
pub fn perft(board: &GameBoard, color: Color, depth: u32, precomputed: &Arc<PrecomputedItems>) -> (r: u64)
    requires
        depth >= 1 ==> perft_ready(canon(*board), color, depth as nat),
        perft_spec(*board, color, depth as nat) <= u64::MAX,
    ensures
        r == perft_spec(*board, color, depth as nat),
    decreases depth,
{
    if depth == 0 {
        return 1;
    }
    proof {
        lemma_canon(*board, *board);
        reveal(perft_ready);
        reveal(movegen_ready);
    }
    let legal_moves = get_legal_moves_for_perft(board, color);
    if depth == 1 {
        return legal_moves.len() as u64;
    }

    let mut nodes = 0u64;
    let next_color = if color == Color::White {
        Color::Black
    } else {
        Color::White
    };
    // Even after White's move, odd after Black's.
    let turn_count: usize = if color == Color::White {
        0
    } else {
        1
    };
    let ghost cb = canon(*board);
    let ghost ms = legal_moves@;
    let mut i: usize = 0;
    while i < legal_moves.len()
        invariant
            i <= legal_moves.len(),
            depth >= 2,
            ms == legal_moves@,
            ms == perft_moves(frame_of(*board), color),
            frame_of(cb) == frame_of(*board),
            cb == canon(*board),
            alike(*board, cb),
            perft_ready(cb, color, depth as nat),
            nodes == perft_acc(cb, color, depth as nat, i as int),
            perft_acc(cb, color, depth as nat, ms.len() as int) <= u64::MAX,
            next_color == color.opp(),
            turn_count == turn_count_of(color),
        decreases legal_moves.len() - i,
    {
        let mv = legal_moves[i];
        let mut new_board = board.clone();
        let ghost before = new_board;
        proof {
            lemma_perft_ready_step(cb, color, depth as nat, i as int);
            lemma_turn_ready_alike(cb, before, mv);
        }
        new_board.compute_turn_items(turn_count, mv);
        proof {
            lemma_turn_made_alike(new_board, before, cb, turn_count, mv);
            lemma_successor(cb, turn_count, mv, new_board);
            let child = successor(cb, turn_count, mv);
            lemma_canon(new_board, child);
            assert(frame_of(new_board) == frame_of(canon(child)));
            lemma_perft_acc_grows(cb, color, depth as nat, i + 1, ms.len() as int);
            lemma_perft_ready_step(cb, color, depth as nat, i as int);
        }
        let sub = perft(&new_board, next_color, depth - 1, precomputed);
        nodes = nodes + sub;
        i = i + 1;
    }
    nodes
}

/// For each move perft counts from `board` for `color`, in the order they are listed, the
/// move and the leaves of depth `depth` below it (1 each at depth 1 or less), and the
/// total of those counts.
pub fn perft_divide(board: &GameBoard, color: Color, depth: u32, precomputed: &Arc<PrecomputedItems>) -> (r: (
    Vec<(Move, u64)>,
    u64,
))
    requires
        perft_ready(canon(*board), color, if depth >= 1 { depth as nat } else { 1 }),
        depth >= 2 ==> perft_spec(*board, color, depth as nat) <= u64::MAX,
    ensures
        ({
            let ms = perft_moves(frame_of(*board), color);
            &&& r.0@.len() == ms.len()
            &&& forall|i: int|
                0 <= i < ms.len() ==> (#[trigger] r.0@[i]).0 == ms[i] && r.0@[i].1 == (if depth >= 2 {
                    perft_acc(canon(*board), color, depth as nat, i + 1) - perft_acc(
                        canon(*board),
                        color,
                        depth as nat,
                        i,
                    )
                } else {
                    1
                })
            &&& r.1 == (if depth >= 2 {
                perft_spec(*board, color, depth as nat)
            } else {
                ms.len()
            })
        }),
{
    proof {
        lemma_canon(*board, *board);
        reveal(perft_ready);
        reveal(movegen_ready);
    }
    let legal_moves = get_legal_moves_for_perft(board, color);
    let next_color = if color == Color::White {
        Color::Black
    } else {
        Color::White
    };
    let turn_count: usize = if color == Color::White {
        0
    } else {
        1
    };
    let ghost cb = canon(*board);
    let ghost ms = legal_moves@;
    let ghost d: nat = if depth >= 1 { depth as nat } else { 1 };
    let mut rows: Vec<(Move, u64)> = Vec::new();
    let mut total: u64 = 0;
    let mut i: usize = 0;
    while i < legal_moves.len()
        invariant
            i <= legal_moves.len(),
            ms == legal_moves@,
            ms == perft_moves(frame_of(*board), color),
            frame_of(cb) == frame_of(*board),
            cb == canon(*board),
            alike(*board, cb),
            d == (if depth >= 1 { depth as nat } else { 1 }),
            perft_ready(cb, color, d),
            depth >= 2 ==> perft_acc(cb, color, depth as nat, ms.len() as int) <= u64::MAX,
            total == (if depth >= 2 { perft_acc(cb, color, depth as nat, i as int) } else { i as nat }),
            rows@.len() == i,
            forall|j: int|
                0 <= j < i ==> (#[trigger] rows@[j]).0 == ms[j] && rows@[j].1 == (if depth >= 2 {
                    perft_acc(cb, color, depth as nat, j + 1) - perft_acc(cb, color, depth as nat, j)
                } else {
                    1
                }),
            next_color == color.opp(),
            turn_count == turn_count_of(color),
        decreases legal_moves.len() - i,
    {
        let mv = legal_moves[i];
        let count: u64 = if depth > 1 {
            let mut new_board = board.clone();
            let ghost before = new_board;
            proof {
                lemma_perft_ready_step(cb, color, depth as nat, i as int);
                lemma_turn_ready_alike(cb, before, mv);
            }
            new_board.compute_turn_items(turn_count, mv);
            proof {
                lemma_turn_made_alike(new_board, before, cb, turn_count, mv);
                lemma_successor(cb, turn_count, mv, new_board);
                let child = successor(cb, turn_count, mv);
                lemma_canon(new_board, child);
                assert(frame_of(new_board) == frame_of(canon(child)));
                lemma_perft_acc_grows(cb, color, depth as nat, i + 1, ms.len() as int);
                lemma_perft_ready_step(cb, color, depth as nat, i as int);
            }
            perft(&new_board, next_color, depth - 1, precomputed)
        } else {
            1
        };
        total = total + count;
        rows.push((mv, count));
        i = i + 1;
    }
    (rows, total)
}

/// The name of square `sq` in algebraic notation: its file letter, then its rank digit.
pub open spec fn square_text(sq: int) -> Seq<char> {
    seq![((97 + sq % 8) as u8) as char, ((49 + sq / 8) as u8) as char]
}

/// The name of square `sq`: file letter and rank digit ("e4" for 28).
pub fn square_name(sq: u8) -> (r: String)
    ensures
        r@ == square_text(sq as int),
{
    let file = (97u8 + sq % 8) as char;
    let rank = (49u8 + sq / 8) as char;
    let mut s = String::new();
    push_char(&mut s, file);
    push_char(&mut s, rank);
    proof {
        assert(s@ =~= square_text(sq as int));
    }
    s
}

/// The lower-case letter of a promotion to `pt`; `?` for a pawn or a king.
pub open spec fn promotion_letter_spec(pt: PieceType) -> char {
    match pt {
        PieceType::Queen => 'q',
        PieceType::Rook => 'r',
        PieceType::Bishop => 'b',
        PieceType::Knight => 'n',
        _ => '?',
    }
}

/// The lower-case letter of a promotion to `pt`.
fn promotion_letter(pt: PieceType) -> (r: char)
    ensures
        r == promotion_letter_spec(pt),
{
    match pt {
        PieceType::Queen => 'q',
        PieceType::Rook => 'r',
        PieceType::Bishop => 'b',
        PieceType::Knight => 'n',
        _ => '?',
    }
}

/// `mv` in UCI notation: the two square names, then the promotion letter if any.
pub open spec fn uci_text(mv: Move) -> Seq<char> {
    let squares = square_text(mv.from.idx()) + square_text(mv.to.idx());
    match mv.promotion_piece_type {
        Some(pt) => squares.push(promotion_letter_spec(pt)),
        None => squares,
    }
}

/// `mv` in UCI notation ("e2e4", "e1g1", "a7a8q").
pub fn move_to_uci(mv: Move) -> (r: String)
    ensures
        r@ == uci_text(mv),
{
    let from = mv.from.index();
    let to = mv.to.index();
    let mut s = String::new();
    push_char(&mut s, (97u8 + from % 8) as char);
    push_char(&mut s, (49u8 + from / 8) as char);
    push_char(&mut s, (97u8 + to % 8) as char);
    push_char(&mut s, (49u8 + to / 8) as char);
    proof {
        assert(s@ =~= square_text(mv.from.idx()) + square_text(mv.to.idx()));
    }
    match mv.promotion_piece_type {
        Some(pt) => {
            push_char(&mut s, promotion_letter(pt));
        },
        None => {},
    }
    s
}

} // verus!
