use vstd::prelude::*;
use crate::{CastleOption, Color, Piece, PieceType, Square};
use crate::game::{GameBoard, Move};
use crate::data::types::{ActionIndex, BoardSnapshot, NUM_ACTIONS, NUM_BASE_ACTIONS};
use crate::game::fen::push_char;
use crate::game::perft::{uci_text, square_text, promotion_letter_spec};
use crate::game::perft::{Frame, frame_of, accepts, if_accepted, mk, target_moves, targets_moves, castle_moves, square_moves, moves_upto, perft_moves};
use crate::game::board::{move_mask_spec, move_verdict};
use crate::bits::{is_set, bit, group_bits, squares_of, lemma_squares_of};
use crate::geometry::{lemma_sq_bit_if, lemma_pawn_targets, king_spec, white_pawn_push_spec, black_pawn_push_spec, white_pawn_attack_spec, black_pawn_attack_spec};

verus! {

broadcast use crate::square::group_square;

/// The slot of an underpromotion piece: Knight 0, Bishop 1, Rook 2; other kinds have none.
pub open spec fn underpromo_index(pt: PieceType) -> Option<int> {
    match pt {
        PieceType::Knight => Some(0),
        PieceType::Bishop => Some(1),
        PieceType::Rook => Some(2),
        _ => None,
    }
}

/// The piece of underpromotion slot `i` (0, 1 or 2).
pub open spec fn underpromo_piece(i: int) -> PieceType {
    if i == 0 {
        PieceType::Knight
    } else if i == 1 {
        PieceType::Bishop
    } else {
        PieceType::Rook
    }
}

/// Whether `mv` promotes to a knight, a bishop or a rook.
pub open spec fn is_underpromotion(mv: Move) -> bool {
    mv.promotion_piece_type matches Some(pt) && underpromo_index(pt) is Some
}

/// The action that stands for `mv`: `4096 + slot * 192 + from_file * 24 + to_file` for an
/// underpromotion, `from * 64 + to` for every other move.
pub open spec fn action_of(mv: Move) -> int {
    if is_underpromotion(mv) {
        4096 + underpromo_index(mv.promotion_piece_type->0)->0 * 192 + (mv.from.idx() % 8) * 24 + mv.to.idx()
            % 8
    } else {
        mv.from.idx() * 64 + mv.to.idx()
    }
}

/// Whether `action` can be turned back into a move: a base action, or an underpromotion
/// slot whose destination file is a file.
pub open spec fn decodable(action: int) -> bool {
    0 <= action < 4096 || (4096 <= action < 4672 && ((action - 4096) % 192) % 24 < 8)
}

/// The kind of the piece on `sq`, if any.
pub open spec fn kind_on(arr: Seq<Option<Piece>>, sq: int) -> Option<PieceType> {
    match arr[sq] {
        Some(p) => Some(p.piece_type),
        None => None,
    }
}

/// The move that `action` stands for when `color` moves on squares `arr` with en passant
/// target `ep`. An underpromotion goes from the seventh to the eighth rank of `color`. A
/// base action is a castle when a king moves two files, en passant when a pawn moves one
/// file onto `ep`, and otherwise a queen promotion when a pawn reaches the first or last
/// rank.
pub open spec fn decoded_move(action: int, arr: Seq<Option<Piece>>, ep: Option<usize>, color: Color) -> Move {
    if action >= 4096 {
        let offset = action - 4096;
        let rest = offset % 192;
        let from_rank: int = if color == Color::White { 6 } else { 1 };
        let to_rank: int = if color == Color::White { 7 } else { 0 };
        Move {
            from: Square::at(from_rank * 8 + rest / 24),
            to: Square::at(to_rank * 8 + rest % 24),
            promotion_piece_type: Some(underpromo_piece(offset / 192)),
            castle_option: None,
            en_passant: false,
        }
    } else {
        let from = action / 64;
        let to = action % 64;
        let from_file = from % 8;
        let to_file = to % 8;
        let kind = kind_on(arr, from);
        let castle = if kind == Some(PieceType::King) && (to_file - from_file == 2 || from_file - to_file
            == 2) {
            if to_file > from_file {
                Some(CastleOption::Kingside)
            } else {
                Some(CastleOption::Queenside)
            }
        } else {
            None
        };
        let en_passant = castle is None && kind == Some(PieceType::Pawn) && (to_file - from_file == 1
            || from_file - to_file == 1) && ep == Some(to as usize);
        let promotion = if castle is None && !en_passant && kind == Some(PieceType::Pawn) && (to / 8 == 7
            || to / 8 == 0) {
            Some(PieceType::Queen)
        } else {
            None
        };
        Move {
            from: Square::at(from),
            to: Square::at(to),
            promotion_piece_type: promotion,
            castle_option: castle,
            en_passant,
        }
    }
}

/// Rank mirror of square `sq`: rank `r` goes to rank `7 - r`, the file stays.
pub open spec fn flip_square(sq: int) -> int {
    (7 - sq / 8) * 8 + sq % 8
}

/// Rank mirror of an action: both squares of a base action are mirrored; an underpromotion
/// slot names files only and stays.
pub open spec fn flipped_action(action: int) -> int {
    if action < 4096 {
        flip_square(action / 64) * 64 + flip_square(action % 64)
    } else {
        action
    }
}

/// The snapshot of `board`: both sides' bitboards, and whether the current position had
/// occurred before (it has been seen at least twice, this time included).
pub fn board_to_snapshot(board: &GameBoard) -> (r: BoardSnapshot)
    ensures
        r.white_pieces_bb == board.player1.pieces_bb,
        r.black_pieces_bb == board.player2.pieces_bb,
        r.repeated == ((if board.position_history@.contains_key(board.zobrist_hash) {
            board.position_history@[board.zobrist_hash] as int
        } else {
            0
        }) >= 2),
{
    let count = board.position_repeat_count();
    BoardSnapshot {
        white_pieces_bb: board.player1.pieces_bb,
        black_pieces_bb: board.player2.pieces_bb,
        repeated: count >= 2,
    }
}

/// The action of an underpromotion to `piece_type` from `from_sq` to `to_sq`.
fn encode_underpromo_action(piece_type: PieceType, from_sq: u8, to_sq: u8) -> (r: ActionIndex)
    requires
        underpromo_index(piece_type) is Some,
    ensures
        r == 4096 + underpromo_index(piece_type)->0 * 192 + (from_sq % 8) * 24 + to_sq % 8,
{
    let piece_idx: u16 = match piece_type {
        PieceType::Knight => 0,
        PieceType::Bishop => 1,
        _ => 2,
    };
    let from_file: u16 = (from_sq % 8) as u16;
    let to_file: u16 = (to_sq % 8) as u16;
    4096 + piece_idx * 192 + from_file * 24 + to_file
}

/// The piece, file of origin and destination slot of underpromotion action `action`.
fn decode_underpromo_action(action: ActionIndex) -> (r: (PieceType, u8, u8))
    requires
        4096 <= action < 4672,
    ensures
        r.0 == underpromo_piece((action - 4096) / 192),
        r.1 == ((action - 4096) % 192) / 24,
        r.2 == ((action - 4096) % 192) % 24,
{
    let offset: u16 = action - 4096;
    let piece_idx: u16 = offset / 192;
    let remainder: u16 = offset % 192;
    let from_file: u8 = (remainder / 24) as u8;
    let to_file: u8 = (remainder % 24) as u8;
    let piece_type = if piece_idx == 0 {
        PieceType::Knight
    } else if piece_idx == 1 {
        PieceType::Bishop
    } else {
        PieceType::Rook
    };
    (piece_type, from_file, to_file)
}

/// The action of `mv`: underpromotions take the slots from 4096 on, every other move
/// (queen promotions included) `from * 64 + to`.
pub fn move_to_action(mv: &Move) -> (r: ActionIndex)
    ensures
        r == action_of(*mv),
        r < NUM_ACTIONS,
        (r >= NUM_BASE_ACTIONS) == is_underpromotion(*mv),
{
    match mv.promotion_piece_type {
        Some(PieceType::Knight) | Some(PieceType::Bishop) | Some(PieceType::Rook) => {
            let pt = match mv.promotion_piece_type {
                Some(p) => p,
                None => PieceType::Knight,
            };
            encode_underpromo_action(pt, mv.from.index(), mv.to.index())
        },
        _ => (mv.from.index() as u16) * 64 + (mv.to.index() as u16),
    }
}

/// The move `action` stands for when `color` moves on `board` (see `decoded_move`).
pub fn action_to_move(action: ActionIndex, board: &GameBoard, color: Color) -> (r: Move)
    requires
        decodable(action as int),
    ensures
        r == decoded_move(action as int, board.board_arr@, board.en_passant_target, color),
{
    if action as usize >= NUM_BASE_ACTIONS {
        let (piece_type, from_file, to_file) = decode_underpromo_action(action);
        let (from_rank, to_rank): (u8, u8) = if color == Color::White {
            (6, 7)
        } else {
            (1, 0)
        };
        let from_sq = from_rank * 8 + from_file;
        let to_sq = to_rank * 8 + to_file;
        return Move {
            from: Square::from_index(from_sq),
            to: Square::from_index(to_sq),
            promotion_piece_type: Some(piece_type),
            castle_option: None,
            en_passant: false,
        };
    }
    let from_sq: u8 = (action / 64) as u8;
    let to_sq: u8 = (action % 64) as u8;
    let from_file: u8 = from_sq % 8;
    let to_file: u8 = to_sq % 8;
    let to_rank: u8 = to_sq / 8;
    let kind: Option<PieceType> = match board.board_arr[from_sq as usize] {
        Some(p) => Some(p.piece_type),
        None => None,
    };
    let is_king = match kind {
        Some(PieceType::King) => true,
        _ => false,
    };
    let is_pawn = match kind {
        Some(PieceType::Pawn) => true,
        _ => false,
    };
    let castle_option = if is_king && (to_file == from_file + 2 || from_file == to_file + 2) {
        if to_file > from_file {
            Some(CastleOption::Kingside)
        } else {
            Some(CastleOption::Queenside)
        }
    } else {
        None
    };
    let on_target = match board.en_passant_target {
        Some(t) => t == to_sq as usize,
        None => false,
    };
    let en_passant = castle_option.is_none() && is_pawn && (to_file == from_file + 1 || from_file
        == to_file + 1) && on_target;
    let promotion_piece_type = if castle_option.is_none() && !en_passant && is_pawn && (to_rank == 7
        || to_rank == 0) {
        Some(PieceType::Queen)
    } else {
        None
    };
    Move {
        from: Square::from_index(from_sq),
        to: Square::from_index(to_sq),
        promotion_piece_type,
        castle_option,
        en_passant,
    }
}

/// Size of the action space.
pub fn num_actions() -> (r: usize)
    ensures
        r == 4672,
{
    NUM_ACTIONS
}

/// Rank mirror of square `sq`.
pub fn flip_sq(sq: usize) -> (r: usize)
    requires
        sq < 64,
    ensures
        r == flip_square(sq as int),
        r < 64,
{
    (7 - sq / 8) * 8 + (sq % 8)
}

/// Rank mirror of base action `a`.
pub fn flip_base_action(a: usize) -> (r: usize)
    requires
        a < 4096,
    ensures
        r == flipped_action(a as int),
        r < 4096,
{
    flip_sq(a / 64) * 64 + flip_sq(a % 64)
}

/// Rank mirror of any action: base actions have both squares mirrored, underpromotion
/// slots stay as they are.
pub fn flip_action(action: usize) -> (r: usize)
    ensures
        r == flipped_action(action as int),
        action < NUM_BASE_ACTIONS ==> r < NUM_BASE_ACTIONS,
        action >= NUM_BASE_ACTIONS ==> r == action,
{
    if action < NUM_BASE_ACTIONS {
        flip_base_action(action)
    } else {
        action
    }
}

/// Turning an action into a move and the move back into an action gives the action:
/// the encoding is a left inverse of the decoding on every decodable action, whatever the
/// board and the side.
pub proof fn lemma_decode_then_encode(action: int, arr: Seq<Option<Piece>>, ep: Option<usize>, color: Color)
    requires
        decodable(action),
    ensures
        action_of(decoded_move(action, arr, ep, color)) == action,
{
    let mv = decoded_move(action, arr, ep, color);
    if action >= 4096 {
        let offset = action - 4096;
        let rest = offset % 192;
        let from_rank: int = if color == Color::White { 6 } else { 1 };
        let to_rank: int = if color == Color::White { 7 } else { 0 };
        assert(0 <= offset / 192 < 3);
        assert(0 <= rest / 24 < 8);
        assert(mv.from.idx() == from_rank * 8 + rest / 24);
        assert(mv.to.idx() == to_rank * 8 + rest % 24);
        assert((from_rank * 8 + rest / 24) % 8 == rest / 24);
        assert((to_rank * 8 + rest % 24) % 8 == rest % 24);
        assert(underpromo_index(underpromo_piece(offset / 192))->0 == offset / 192);
        assert(offset == (offset / 192) * 192 + rest);
        assert(rest == (rest / 24) * 24 + rest % 24);
    } else {
        assert(mv.from.idx() == action / 64);
        assert(mv.to.idx() == action % 64);
        assert(action == (action / 64) * 64 + action % 64);
    }
}

/// An underpromotion from the seventh to the eighth rank of `color` comes back unchanged
/// from its action.
pub proof fn lemma_underpromotion_roundtrip(mv: Move, arr: Seq<Option<Piece>>, ep: Option<usize>, color: Color)
    requires
        is_underpromotion(mv),
        mv.from.idx() / 8 == (if color == Color::White { 6int } else { 1int }),
        mv.to.idx() / 8 == (if color == Color::White { 7int } else { 0int }),
        mv.castle_option is None,
        !mv.en_passant,
    ensures
        decoded_move(action_of(mv), arr, ep, color) == mv,
{
    let i = underpromo_index(mv.promotion_piece_type->0)->0;
    let f = mv.from.idx() % 8;
    let t = mv.to.idx() % 8;
    let a = action_of(mv);
    assert(a - 4096 == i * 192 + (f * 24 + t));
    assert(0 <= f * 24 + t < 192);
    assert((a - 4096) / 192 == i && (a - 4096) % 192 == f * 24 + t) by (nonlinear_arith)
        requires
            a - 4096 == i * 192 + (f * 24 + t),
            0 <= f * 24 + t < 192,
            0 <= i,
    ;
    assert((f * 24 + t) / 24 == f && (f * 24 + t) % 24 == t) by (nonlinear_arith)
        requires
            0 <= t < 8,
            0 <= f,
    ;
    let d = decoded_move(a, arr, ep, color);
    assert(underpromo_piece(i) == mv.promotion_piece_type->0);
    assert(mv.from.idx() == (mv.from.idx() / 8) * 8 + f);
    assert(mv.to.idx() == (mv.to.idx() / 8) * 8 + t);
    assert(d.from == Square::at(mv.from.idx()));
    assert(d.to == Square::at(mv.to.idx()));
}

/// Every action of a move that is no underpromotion names the move's squares: decoding it
/// gives back the squares the move leaves and reaches.
pub proof fn lemma_base_action_squares(mv: Move, arr: Seq<Option<Piece>>, ep: Option<usize>, color: Color)
    requires
        !is_underpromotion(mv),
    ensures
        action_of(mv) < 4096,
        decoded_move(action_of(mv), arr, ep, color).from == mv.from,
        decoded_move(action_of(mv), arr, ep, color).to == mv.to,
{
    let a = action_of(mv);
    let f = mv.from.idx();
    let t = mv.to.idx();
    assert(a / 64 == f && a % 64 == t) by (nonlinear_arith)
        requires
            a == f * 64 + t,
            0 <= t < 64,
            0 <= f,
    ;
}

/// Different underpromotions have different actions: the action fixes the piece, the file
/// left and the file reached.
pub proof fn lemma_underpromotion_actions_distinct(m1: Move, m2: Move)
    requires
        is_underpromotion(m1),
        is_underpromotion(m2),
        action_of(m1) == action_of(m2),
    ensures
        m1.promotion_piece_type == m2.promotion_piece_type,
        m1.from.idx() % 8 == m2.from.idx() % 8,
        m1.to.idx() % 8 == m2.to.idx() % 8,
{
    let i1 = underpromo_index(m1.promotion_piece_type->0)->0;
    let i2 = underpromo_index(m2.promotion_piece_type->0)->0;
    let r1 = (m1.from.idx() % 8) * 24 + m1.to.idx() % 8;
    let r2 = (m2.from.idx() % 8) * 24 + m2.to.idx() % 8;
    assert(i1 == i2 && r1 == r2) by (nonlinear_arith)
        requires
            i1 * 192 + r1 == i2 * 192 + r2,
            0 <= r1 < 192,
            0 <= r2 < 192,
            0 <= i1,
            0 <= i2,
    ;
    let f1 = m1.from.idx() % 8;
    let f2 = m2.from.idx() % 8;
    let t1 = m1.to.idx() % 8;
    let t2 = m2.to.idx() % 8;
    assert(f1 == f2 && t1 == t2) by (nonlinear_arith)
        requires
            f1 * 24 + t1 == f2 * 24 + t2,
            0 <= t1 < 8,
            0 <= t2 < 8,
            0 <= f1,
            0 <= f2,
    ;
}

/// Mirroring a square twice gives the square back, and a mirrored square is a square.
pub proof fn lemma_flip_square_involution(sq: int)
    requires
        0 <= sq < 64,
    ensures
        0 <= flip_square(sq) < 64,
        flip_square(flip_square(sq)) == sq,
{
}

/// Mirroring an action twice gives the action back.
pub proof fn lemma_flip_action_involution(action: int)
    requires
        0 <= action,
    ensures
        flipped_action(flipped_action(action)) == action,
{
    if action < 4096 {
        let f = action / 64;
        let t = action % 64;
        lemma_flip_square_involution(f);
        lemma_flip_square_involution(t);
        let g = flip_square(f);
        let u = flip_square(t);
        let b = g * 64 + u;
        assert(b / 64 == g && b % 64 == u) by (nonlinear_arith)
            requires
                b == g * 64 + u,
                0 <= u < 64,
                0 <= g,
        ;
        assert(b < 4096);
    }
}

/// The letter of underpromotion slot `i` (0 knight, 1 bishop, 2 rook, `q` past them).
pub open spec fn slot_letter(i: int) -> char {
    if i == 0 {
        'n'
    } else if i == 1 {
        'b'
    } else if i == 2 {
        'r'
    } else {
        'q'
    }
}

/// The UCI text of `action` for `color`, read from the action alone: an underpromotion
/// slot goes from the seventh to the eighth rank of `color` (a destination slot past the
/// h-file reads as the h-file) and ends with the slot's letter; a base action names its
/// two squares, with `q` after it when it goes from the seventh to the eighth rank of
/// `color`.
pub open spec fn action_uci_text(action: int, color: Color) -> Seq<char> {
    if action >= 4096 {
        let offset = action - 4096;
        let rest = offset % 192;
        let to_slot = rest % 24;
        let to_file = if to_slot > 7 { 7 } else { to_slot };
        let from_rank_char = if color == Color::White { '7' } else { '2' };
        let to_rank_char = if color == Color::White { '8' } else { '1' };
        seq![
            ((97 + rest / 24) as u8) as char,
            from_rank_char,
            ((97 + to_file) as u8) as char,
            to_rank_char,
            slot_letter(offset / 192),
        ]
    } else {
        let from = action / 64;
        let to = action % 64;
        let squares = square_text(from) + square_text(to);
        let promotes = (color == Color::White && from / 8 == 6 && to / 8 == 7) || (color == Color::Black && from
            / 8 == 1 && to / 8 == 0);
        if promotes {
            squares.push('q')
        } else {
            squares
        }
    }
}

/// The UCI text of `action` for `color` (see `action_uci_text`): "e2e4", "a7a8q", "e7d8n".
pub fn action_to_uci(action: ActionIndex, color: Color) -> (r: String)
    ensures
        r@ == action_uci_text(action as int, color),
{
    let mut out = String::new();
    if action as usize >= NUM_BASE_ACTIONS {
        let offset: usize = action as usize - NUM_BASE_ACTIONS;
        let piece_idx: usize = offset / 192;
        let remainder: usize = offset % 192;
        let from_file: u8 = (remainder / 24) as u8;
        let to_file_slot: u8 = (remainder % 24) as u8;
        let to_file: u8 = if to_file_slot > 7 { 7 } else { to_file_slot };
        let (from_rank_char, to_rank_char) = if color == Color::White {
            ('7', '8')
        } else {
            ('2', '1')
        };
        let suffix = if piece_idx == 0 {
            'n'
        } else if piece_idx == 1 {
            'b'
        } else if piece_idx == 2 {
            'r'
        } else {
            'q'
        };
        push_char(&mut out, (97u8 + from_file) as char);
        push_char(&mut out, from_rank_char);
        push_char(&mut out, (97u8 + to_file) as char);
        push_char(&mut out, to_rank_char);
        push_char(&mut out, suffix);
        proof {
            assert(out@ =~= action_uci_text(action as int, color));
        }
        return out;
    }
    let from_sq: u8 = (action / 64) as u8;
    let to_sq: u8 = (action % 64) as u8;
    push_char(&mut out, (97u8 + from_sq % 8) as char);
    push_char(&mut out, (49u8 + from_sq / 8) as char);
    push_char(&mut out, (97u8 + to_sq % 8) as char);
    push_char(&mut out, (49u8 + to_sq / 8) as char);
    let from_rank_num = from_sq / 8;
    let to_rank_num = to_sq / 8;
    let is_promotion = (color == Color::White && from_rank_num == 6 && to_rank_num == 7) || (color == Color::Black
        && from_rank_num == 1 && to_rank_num == 0);
    proof {
        assert(out@ =~= square_text(action as int / 64) + square_text(action as int % 64));
    }
    if is_promotion {
        push_char(&mut out, 'q');
    }
    out
}

/// For a decodable underpromotion, the text read from the action is the UCI text of the
/// move it decodes to.
pub proof fn lemma_underpromotion_uci(action: int, arr: Seq<Option<Piece>>, ep: Option<usize>, color: Color)
    requires
        decodable(action),
        action >= 4096,
    ensures
        action_uci_text(action, color) == uci_text(decoded_move(action, arr, ep, color)),
{
    let offset = action - 4096;
    let rest = offset % 192;
    let from_rank: int = if color == Color::White { 6 } else { 1 };
    let to_rank: int = if color == Color::White { 7 } else { 0 };
    let m = decoded_move(action, arr, ep, color);
    assert(0 <= rest / 24 < 8 && 0 <= rest % 24 < 8);
    assert(m.from.idx() == from_rank * 8 + rest / 24);
    assert(m.to.idx() == to_rank * 8 + rest % 24);
    assert((from_rank * 8 + rest / 24) % 8 == rest / 24 && (from_rank * 8 + rest / 24) / 8 == from_rank);
    assert((to_rank * 8 + rest % 24) % 8 == rest % 24 && (to_rank * 8 + rest % 24) / 8 == to_rank);
    assert(0 <= offset / 192 < 3);
    assert(promotion_letter_spec(underpromo_piece(offset / 192)) == slot_letter(offset / 192));
    assert(action_uci_text(action, color) =~= uci_text(m));
}

/// A king steps, and a pawn moves, at most one file; a pawn goes one or two ranks
/// forward, so it reaches the last rank of its side only from the rank before it.
proof fn lemma_step_shape(
    ep: Option<usize>,
    from: int,
    to: int,
    c: Color,
    t: PieceType,
    board: u64,
    white: u64,
    black: u64,
)
    requires
        0 <= from < 64,
        0 <= to < 64,
        t == PieceType::King || t == PieceType::Pawn,
        ep matches Some(e) ==> e < 64,
        is_set(move_mask_spec(ep, from, c, t, board, white, black), to),
    ensures
        from % 8 - to % 8 <= 1,
        to % 8 - from % 8 <= 1,
        t == PieceType::Pawn && c == Color::White ==> to / 8 == from / 8 + 1 || to / 8 == from / 8 + 2,
        t == PieceType::Pawn && c == Color::Black ==> to / 8 == from / 8 - 1 || to / 8 == from / 8 - 2,
        t == PieceType::Pawn && c == Color::White && to / 8 == 7 ==> from / 8 == 6,
        t == PieceType::Pawn && c == Color::Black && to / 8 == 0 ==> from / 8 == 1,
{
    broadcast use group_bits;
    if t == PieceType::King {
        lemma_king_step_shape(from, to);
    } else {
        let pushes = if c == Color::White {
            white_pawn_push_spec(from)
        } else {
            black_pawn_push_spec(from)
        };
        let attacks = if c == Color::White {
            white_pawn_attack_spec(from)
        } else {
            black_pawn_attack_spec(from)
        };
        let dir: int = if c == Color::White {
            8
        } else {
            -8
        };
        let two = from + 2 * dir;
        if 0 <= two < 64 {
            assert(is_set(bit(two), to) == (two == to));
        }
        if let Some(e) = ep {
            assert(is_set(bit(e as int), to) == (e == to));
        }
        assert(is_set(pushes, to) || is_set(attacks, to));
        lemma_pawn_targets(from, to);
    }
}

/// A king steps at most one file.
proof fn lemma_king_step_shape(from: int, to: int)
    requires
        0 <= from < 64,
        0 <= to < 64,
        is_set(king_spec(from), to),
    ensures
        from % 8 - to % 8 <= 1,
        to % 8 - from % 8 <= 1,
{
    broadcast use group_bits;
    let r = from / 8;
    let f = from % 8;
    lemma_sq_bit_if(r - 1, f - 1, to);
    lemma_sq_bit_if(r - 1, f, to);
    lemma_sq_bit_if(r - 1, f + 1, to);
    lemma_sq_bit_if(r, f - 1, to);
    lemma_sq_bit_if(r, f + 1, to);
    lemma_sq_bit_if(r + 1, f - 1, to);
    lemma_sq_bit_if(r + 1, f, to);
    lemma_sq_bit_if(r + 1, f + 1, to);
}

/// Whether the move `mv` of `color` comes back unchanged from its action, on squares
/// `arr` with en passant target `ep`.
pub open spec fn round_trips(arr: Seq<Option<Piece>>, ep: Option<usize>, color: Color, mv: Move) -> bool {
    &&& decodable(action_of(mv))
    &&& decoded_move(action_of(mv), arr, ep, color) == mv
}

/// Whether every move of `ms` comes back unchanged from its action.
pub open spec fn all_round_trip(arr: Seq<Option<Piece>>, ep: Option<usize>, color: Color, ms: Seq<Move>) -> bool {
    forall|i: int| 0 <= i < ms.len() ==> #[trigger] round_trips(arr, ep, color, ms[i])
}

proof fn lemma_all_round_trip_concat(
    arr: Seq<Option<Piece>>,
    ep: Option<usize>,
    color: Color,
    a: Seq<Move>,
    b: Seq<Move>,
)
    requires
        all_round_trip(arr, ep, color, a),
        all_round_trip(arr, ep, color, b),
    ensures
        all_round_trip(arr, ep, color, a + b),
{
    assert forall|i: int| 0 <= i < (a + b).len() implies #[trigger] round_trips(arr, ep, color, (a + b)[i]) by {
        if i < a.len() {
            assert((a + b)[i] == a[i]);
        } else {
            assert((a + b)[i] == b[i - a.len()]);
        }
    }
}

proof fn lemma_if_accepted_round_trip(f: Frame, color: Color, mv: Move, arr: Seq<Option<Piece>>, ep: Option<usize>)
    requires
        accepts(f, color, mv) ==> round_trips(arr, ep, color, mv),
    ensures
        all_round_trip(arr, ep, color, if_accepted(f, color, mv)),
{
    if accepts(f, color, mv) {
        assert(if_accepted(f, color, mv)[0] == mv);
    }
}

/// The moves perft counts for the piece `p` of `color` on `sq` going to a square `to` of
/// its mask come back from their actions.
proof fn lemma_target_round_trip(b: GameBoard, color: Color, sq: int, p: Piece, to: int)
    requires
        b.wf(),
        0 <= sq < 64,
        0 <= to < 64,
        b.board_arr@[sq] == Some(p),
        p.color == color,
        is_set(
            move_mask_spec(
                b.en_passant_target,
                sq,
                color,
                p.piece_type,
                b.white_pieces | b.black_pieces,
                b.white_pieces,
                b.black_pieces,
            ),
            to,
        ),
    ensures
        all_round_trip(b.board_arr@, b.en_passant_target, color, target_moves(frame_of(b), color, sq, p, to)),
{
    let f = frame_of(b);
    let arr = b.board_arr@;
    let ep = b.en_passant_target;
    let occ = b.white_pieces | b.black_pieces;
    if p.piece_type == PieceType::Pawn || p.piece_type == PieceType::King {
        lemma_step_shape(ep, sq, to, color, p.piece_type, occ, b.white_pieces, b.black_pieces);
    }
    if p.piece_type == PieceType::Pawn && (to / 8 == 7 || to / 8 == 0) {
        let q = mk(sq, to, Some(PieceType::Queen), None, false);
        let rk = mk(sq, to, Some(PieceType::Rook), None, false);
        let bs = mk(sq, to, Some(PieceType::Bishop), None, false);
        let kn = mk(sq, to, Some(PieceType::Knight), None, false);
        lemma_base_action_squares(q, arr, ep, color);
        lemma_underpromotion_roundtrip(rk, arr, ep, color);
        lemma_underpromotion_roundtrip(bs, arr, ep, color);
        lemma_underpromotion_roundtrip(kn, arr, ep, color);
        lemma_underpromo_decodable(rk);
        lemma_underpromo_decodable(bs);
        lemma_underpromo_decodable(kn);
        lemma_if_accepted_round_trip(f, color, q, arr, ep);
        lemma_if_accepted_round_trip(f, color, rk, arr, ep);
        lemma_if_accepted_round_trip(f, color, bs, arr, ep);
        lemma_if_accepted_round_trip(f, color, kn, arr, ep);
        lemma_all_round_trip_concat(arr, ep, color, if_accepted(f, color, q), if_accepted(f, color, rk));
        lemma_all_round_trip_concat(
            arr,
            ep,
            color,
            if_accepted(f, color, q) + if_accepted(f, color, rk),
            if_accepted(f, color, bs),
        );
        lemma_all_round_trip_concat(
            arr,
            ep,
            color,
            if_accepted(f, color, q) + if_accepted(f, color, rk) + if_accepted(f, color, bs),
            if_accepted(f, color, kn),
        );
    } else if p.piece_type == PieceType::Pawn && f.ep == Some(to as usize) && sq % 8 != to % 8 {
        let m = mk(sq, to, None, None, true);
        lemma_base_action_squares(m, arr, ep, color);
        lemma_if_accepted_round_trip(f, color, m, arr, ep);
    } else {
        let m = mk(sq, to, None, None, false);
        lemma_base_action_squares(m, arr, ep, color);
        lemma_if_accepted_round_trip(f, color, m, arr, ep);
    }
}

/// An underpromotion's action is decodable.
proof fn lemma_underpromo_decodable(mv: Move)
    requires
        is_underpromotion(mv),
    ensures
        decodable(action_of(mv)),
{
    let i = underpromo_index(mv.promotion_piece_type->0)->0;
    let f = mv.from.idx() % 8;
    let t = mv.to.idx() % 8;
    let a = action_of(mv);
    assert((a - 4096) % 192 == f * 24 + t) by (nonlinear_arith)
        requires
            a - 4096 == i * 192 + (f * 24 + t),
            0 <= f * 24 + t < 192,
            0 <= i < 3,
    ;
    assert((f * 24 + t) % 24 == t) by (nonlinear_arith)
        requires
            0 <= t < 8,
            0 <= f,
    ;
}

/// The moves perft counts for the piece `p` on `sq` going to squares `tos` of its mask
/// come back from their actions.
proof fn lemma_targets_round_trip(b: GameBoard, color: Color, sq: int, p: Piece, tos: Seq<int>)
    requires
        b.wf(),
        0 <= sq < 64,
        b.board_arr@[sq] == Some(p),
        p.color == color,
        forall|j: int|
            0 <= j < tos.len() ==> 0 <= #[trigger] tos[j] < 64 && is_set(
                move_mask_spec(
                    b.en_passant_target,
                    sq,
                    color,
                    p.piece_type,
                    b.white_pieces | b.black_pieces,
                    b.white_pieces,
                    b.black_pieces,
                ),
                tos[j],
            ),
    ensures
        all_round_trip(b.board_arr@, b.en_passant_target, color, targets_moves(frame_of(b), color, sq, p, tos)),
    decreases tos.len(),
{
    if tos.len() > 0 {
        lemma_targets_round_trip(b, color, sq, p, tos.drop_last());
        lemma_target_round_trip(b, color, sq, p, tos.last());
        lemma_all_round_trip_concat(
            b.board_arr@,
            b.en_passant_target,
            color,
            targets_moves(frame_of(b), color, sq, p, tos.drop_last()),
            target_moves(frame_of(b), color, sq, p, tos.last()),
        );
    }
}

/// The castles perft counts for the only king of `color`, on `sq`, come back from their
/// actions: a castle is accepted only with its right, which keeps the king at home.
proof fn lemma_castles_round_trip(b: GameBoard, color: Color, sq: int)
    requires
        b.wf(),
        b.one_king(color),
        0 <= sq < 64,
        b.board_arr@[sq] == Some(Piece { piece_type: PieceType::King, color }),
    ensures
        all_round_trip(b.board_arr@, b.en_passant_target, color, castle_moves(frame_of(b), color, sq)),
{
    reveal(move_verdict);
    let f = frame_of(b);
    let arr = b.board_arr@;
    let ep = b.en_passant_target;
    let rank: int = if color == Color::White {
        0
    } else {
        7
    };
    let home: int = if color == Color::White {
        4
    } else {
        60
    };
    let ks = mk(sq, rank * 8 + 6, None, Some(CastleOption::Kingside), false);
    let qs = mk(sq, rank * 8 + 2, None, Some(CastleOption::Queenside), false);
    if accepts(f, color, ks) {
        assert(arr[home] == Some(Piece { piece_type: PieceType::King, color }));
        assert(sq == home);
        lemma_base_action_squares(ks, arr, ep, color);
    }
    if accepts(f, color, qs) {
        assert(arr[home] == Some(Piece { piece_type: PieceType::King, color }));
        assert(sq == home);
        lemma_base_action_squares(qs, arr, ep, color);
    }
    lemma_if_accepted_round_trip(f, color, ks, arr, ep);
    lemma_if_accepted_round_trip(f, color, qs, arr, ep);
    lemma_all_round_trip_concat(arr, ep, color, if_accepted(f, color, ks), if_accepted(f, color, qs));
}

/// The moves perft counts for the squares below `n` come back from their actions.
proof fn lemma_moves_upto_round_trip(b: GameBoard, color: Color, n: int)
    requires
        b.wf(),
        b.one_king(color),
        n <= 64,
    ensures
        all_round_trip(b.board_arr@, b.en_passant_target, color, moves_upto(frame_of(b), color, n)),
    decreases n,
{
    let f = frame_of(b);
    let arr = b.board_arr@;
    let ep = b.en_passant_target;
    if n > 0 {
        lemma_moves_upto_round_trip(b, color, n - 1);
        let sq = n - 1;
        if let Some(p) = arr[sq] {
            if p.color == color {
                let mask = move_mask_spec(ep, sq, color, p.piece_type, f.white | f.black, f.white, f.black);
                lemma_squares_of(mask);
                lemma_targets_round_trip(b, color, sq, p, squares_of(mask));
                if p.piece_type == PieceType::King {
                    lemma_castles_round_trip(b, color, sq);
                    lemma_all_round_trip_concat(
                        arr,
                        ep,
                        color,
                        targets_moves(f, color, sq, p, squares_of(mask)),
                        castle_moves(f, color, sq),
                    );
                } else {
                    assert(targets_moves(f, color, sq, p, squares_of(mask)) + Seq::<Move>::empty() =~= targets_moves(
                        f,
                        color,
                        sq,
                        p,
                        squares_of(mask),
                    ));
                }
            }
        }
        lemma_all_round_trip_concat(arr, ep, color, moves_upto(f, color, n - 1), square_moves(f, color, sq));
    }
}

/// Every move perft counts for `color` on a consistent board with one king of `color`
/// (see `perft_moves`) comes back unchanged from its action: its action can be decoded,
/// and decoding it on the board gives the move in all its fields, its promotion piece,
/// castle and en passant flag included.
pub proof fn lemma_legal_moves_round_trip(b: GameBoard, color: Color)
    requires
        b.wf(),
        b.one_king(color),
    ensures
        forall|i: int|
            0 <= i < perft_moves(frame_of(b), color).len() ==> {
                let mv = #[trigger] perft_moves(frame_of(b), color)[i];
                &&& decodable(action_of(mv))
                &&& decoded_move(action_of(mv), b.board_arr@, b.en_passant_target, color) == mv
            },
{
    lemma_moves_upto_round_trip(b, color, 64);
    assert forall|i: int| 0 <= i < perft_moves(frame_of(b), color).len() implies round_trips(
        b.board_arr@,
        b.en_passant_target,
        color,
        #[trigger] perft_moves(frame_of(b), color)[i],
    ) by {}
}

} // verus!
