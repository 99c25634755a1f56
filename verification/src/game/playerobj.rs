use vstd::prelude::*;
use vstd::string::*;
use crate::bits::{bit, is_set, lemma_bits_ext};
use crate::{Color, CastleOption, Piece, PieceType, Square, start_piece, start_piece_of, create_own_board};
use crate::bits::group_bits;
use crate::game::Move;

verus! {

broadcast use {group_bits, crate::square::group_square};

/// One side's pieces: a bitboard per kind, their union, and the side's own view of
/// the board.
#[derive(Debug, Clone, Copy)]
pub struct Player {
    pub color: Color,
    /// Indexed by kind: Pawn, Knight, Bishop, Rook, Queen, King.
    pub pieces_bb: [u64; 6],
    /// All of the side's pieces.
    pub pieces: u64,
    pub own_board: [Option<Piece>; 64],
}

/// The bitboard of the squares below `k` where `arr` holds piece `p`.
pub open spec fn piece_bb_upto(arr: Seq<Option<Piece>>, p: Piece, k: nat) -> u64
    decreases k,
{
    if k == 0 {
        0
    } else {
        piece_bb_upto(arr, p, (k - 1) as nat) | (if arr[k - 1] == Some(p) {
            bit(k - 1)
        } else {
            0
        })
    }
}

/// The bitboard of the squares where `arr` holds piece `p`.
pub open spec fn piece_bb(arr: Seq<Option<Piece>>, p: Piece) -> u64 {
    piece_bb_upto(arr, p, 64)
}

/// Whether square content `x` is a piece of side `c`.
pub open spec fn is_color(x: Option<Piece>, c: Color) -> bool {
    x matches Some(p) && p.color == c
}

/// The bitboard of the squares below `k` that hold a piece of side `c`.
pub open spec fn side_bb_upto(arr: Seq<Option<Piece>>, c: Color, k: nat) -> u64
    decreases k,
{
    if k == 0 {
        0
    } else {
        side_bb_upto(arr, c, (k - 1) as nat) | (if is_color(arr[k - 1], c) {
            bit(k - 1)
        } else {
            0
        })
    }
}

/// The bitboard of the squares that hold a piece of side `c`.
pub open spec fn side_bb(arr: Seq<Option<Piece>>, c: Color) -> u64 {
    side_bb_upto(arr, c, 64)
}

/// Square content `x` as side `c` sees it on its own board: only its own pieces.
pub open spec fn own_of(x: Option<Piece>, c: Color) -> Option<Piece> {
    if is_color(x, c) {
        x
    } else {
        None
    }
}

pub proof fn lemma_piece_bb_upto(arr: Seq<Option<Piece>>, p: Piece, k: nat, j: int)
    requires
        k <= 64,
        0 <= j < 64,
    ensures
        is_set(piece_bb_upto(arr, p, k), j) == (j < k && arr[j] == Some(p)),
    decreases k,
{
    broadcast use crate::bits::group_bits;
    if k > 0 {
        lemma_piece_bb_upto(arr, p, (k - 1) as nat, j);
    }
}

pub proof fn lemma_side_bb_upto(arr: Seq<Option<Piece>>, c: Color, k: nat, j: int)
    requires
        k <= 64,
        0 <= j < 64,
    ensures
        is_set(side_bb_upto(arr, c, k), j) == (j < k && is_color(arr[j], c)),
    decreases k,
{
    broadcast use crate::bits::group_bits;
    if k > 0 {
        lemma_side_bb_upto(arr, c, (k - 1) as nat, j);
    }
}

/// Square `j` is set in the piece bitboard of `p` exactly when `arr[j]` is `p`.
pub broadcast proof fn lemma_piece_bb(arr: Seq<Option<Piece>>, p: Piece, j: int)
    requires
        0 <= j < 64,
    ensures
        #[trigger] is_set(piece_bb(arr, p), j) == (arr[j] == Some(p)),
{
    lemma_piece_bb_upto(arr, p, 64, j);
}

/// Square `j` is set in the side bitboard of `c` exactly when `arr[j]` is a piece of `c`.
pub broadcast proof fn lemma_side_bb(arr: Seq<Option<Piece>>, c: Color, j: int)
    requires
        0 <= j < 64,
    ensures
        #[trigger] is_set(side_bb(arr, c), j) == is_color(arr[j], c),
{
    lemma_side_bb_upto(arr, c, 64, j);
}

pub broadcast group group_board_bb {
    lemma_piece_bb,
    lemma_side_bb,
}

impl Player {
    /// The player's bitboards and own board describe exactly the pieces of `color` on `arr`.
    pub open spec fn matches(&self, arr: Seq<Option<Piece>>, color: Color) -> bool {
        &&& self.color == color
        &&& forall|t: int|
            0 <= t < 6 ==> #[trigger] self.pieces_bb[t] == piece_bb(arr, Piece { piece_type: PieceType::at(t), color })
        &&& self.pieces == side_bb(arr, color)
        &&& forall|k: int| 0 <= k < 64 ==> #[trigger] self.own_board[k] == own_of(arr[k], color)
    }

    /// A player whose pieces are `is_white`'s side of the starting position.
    pub fn init_player(is_white: bool) -> (r: Self)
        ensures
            r.matches_start(if is_white { Color::White } else { Color::Black }),
    {
        if is_white {
            Self::new_white()
        } else {
            Self::new_black()
        }
    }

    /// The player holds `color`'s pieces of the standard starting position.
    pub open spec fn matches_start(&self, color: Color) -> bool {
        &&& self.color == color
        &&& forall|t: int|
            0 <= t < 6 ==> #[trigger] self.pieces_bb[t] == piece_bb(start_seq(), Piece { piece_type: PieceType::at(t), color })
        &&& self.pieces == side_bb(start_seq(), color)
        &&& forall|k: int| 0 <= k < 64 ==> #[trigger] self.own_board[k] == start_piece_of(color, k)
    }

    /// White's pieces in the starting position.
    pub fn new_white() -> (r: Self)
        ensures
            r.matches_start(Color::White),
    {
        let bbs = [
            0x000000000000FF00u64,  // Pawns
            0x0000000000000042u64,  // Knights
            0x0000000000000024u64,  // Bishops
            0x0000000000000081u64,  // Rooks
            0x0000000000000008u64,  // Queen
            0x0000000000000010u64,  // King
        ];
        let r = Self {
            color: Color::White,
            pieces_bb: bbs,
            pieces: 0x000000000000FFFF,
            own_board: create_own_board(Color::White),
        };
        proof {
            lemma_start_bbs(r.pieces_bb, r.pieces, Color::White);
        }
        r
    }

    /// Black's pieces in the starting position.
    pub fn new_black() -> (r: Self)
        ensures
            r.matches_start(Color::Black),
    {
        let bbs = [
            0x00FF000000000000u64,  // Pawns
            0x4200000000000000u64,  // Knights
            0x2400000000000000u64,  // Bishops
            0x8100000000000000u64,  // Rooks
            0x0800000000000000u64,  // Queen
            0x1000000000000000u64,  // King
        ];
        let r = Self {
            color: Color::Black,
            pieces_bb: bbs,
            pieces: 0xFFFF000000000000,
            own_board: create_own_board(Color::Black),
        };
        proof {
            lemma_start_bbs(r.pieces_bb, r.pieces, Color::Black);
        }
        r
    }

    /// The kind of this side's piece on square `from_idx`, if any.
    pub fn get_piece_type_at(&self, from_idx: u8) -> (r: Option<PieceType>)
        requires
            from_idx < 64,
        ensures
            r == (match self.own_board[from_idx as int] {
                Some(p) => Some(p.piece_type),
                None => None,
            }),
    {
        match self.own_board[from_idx as usize] {
            Some(p) => Some(p.piece_type),
            None => None,
        }
    }

    /// Reads a move in coordinate notation ("e2e4", "e7e8q"). A king moving two files is
    /// a castle; a pawn reaching the last rank promotes (to the piece letter given fifth,
    /// a queen when there is none or it is not one of q, r, b, n).
    pub fn parse_move(&self, notation: &str) -> (mv: Move)
        requires
            valid_coordinates(notation@),
        ensures
            mv == parsed_move_spec(self.own_board@, notation@),
    {
        let from_file = (notation.get_char(0) as u32 - 'a' as u32) as u8;
        let from_rank = (notation.get_char(1) as u32 - '1' as u32) as u8;
        let from_idx = from_rank * 8 + from_file;
        let to_file = (notation.get_char(2) as u32 - 'a' as u32) as u8;
        let to_rank = (notation.get_char(3) as u32 - '1' as u32) as u8;
        let to_idx = to_rank * 8 + to_file;
        let piece_type = self.get_piece_type_at(from_idx);
        let castle_option = if piece_type == Some(PieceType::King) {
            let file_diff: i8 = if to_file > from_file {
                (to_file - from_file) as i8
            } else {
                (from_file - to_file) as i8
            };
            if file_diff == 2 {
                if to_file > from_file {
                    Some(CastleOption::Kingside)
                } else {
                    Some(CastleOption::Queenside)
                }
            } else {
                None
            }
        } else {
            None
        };
        let promotion_piece_type = if piece_type == Some(PieceType::Pawn) && (to_rank == 7 || to_rank == 0) {
            if notation.unicode_len() == 5 {
                let ch = notation.get_char(4);
                if ch == 'q' || ch == 'Q' {
                    Some(PieceType::Queen)
                } else if ch == 'r' || ch == 'R' {
                    Some(PieceType::Rook)
                } else if ch == 'b' || ch == 'B' {
                    Some(PieceType::Bishop)
                } else if ch == 'n' || ch == 'N' {
                    Some(PieceType::Knight)
                } else {
                    Some(PieceType::Queen)
                }
            } else {
                Some(PieceType::Queen)
            }
        } else {
            None
        };
        Move {
            from: Square::from_index(from_idx),
            to: Square::from_index(to_idx),
            promotion_piece_type,
            castle_option,
            en_passant: false,
        }
    }
}

impl Player {
    /// Moves this side's piece of kind `t` from `from` to `to` on its bitboards and its
    /// own board.
    pub(crate) fn move_piece(&mut self, t: usize, from: usize, to: usize)
        requires
            t < 6,
            from < 64,
            to < 64,
            from != to,
        ensures
            final(self).color == old(self).color,
            final(self).pieces == (old(self).pieces ^ bit(from as int)) | bit(to as int),
            forall|i: int|
                0 <= i < 6 ==> #[trigger] final(self).pieces_bb[i] == if i == t {
                    (old(self).pieces_bb[i] ^ bit(from as int)) | bit(to as int)
                } else {
                    old(self).pieces_bb[i]
                },
            final(self).own_board@ == old(self).own_board@.update(from as int, None).update(
                to as int,
                old(self).own_board[from as int],
            ),
    {
        let from_mask = 1u64 << (from as u64);
        let to_mask = 1u64 << (to as u64);
        self.pieces ^= from_mask;
        self.pieces |= to_mask;
        self.pieces_bb[t] ^= from_mask;
        self.pieces_bb[t] |= to_mask;
        let moving = self.own_board[from];
        self.own_board[from] = None;
        self.own_board[to] = moving;
    }

    /// Removes this side's piece of kind `t` on `sq` from its bitboards and own board.
    pub(crate) fn remove_piece(&mut self, t: usize, sq: usize)
        requires
            t < 6,
            sq < 64,
        ensures
            final(self).color == old(self).color,
            final(self).pieces == old(self).pieces & !bit(sq as int),
            forall|i: int|
                0 <= i < 6 ==> #[trigger] final(self).pieces_bb[i] == if i == t {
                    old(self).pieces_bb[i] & !bit(sq as int)
                } else {
                    old(self).pieces_bb[i]
                },
            final(self).own_board@ == old(self).own_board@.update(sq as int, None),
    {
        let mask = 1u64 << (sq as u64);
        self.pieces &= !mask;
        self.pieces_bb[t] &= !mask;
        self.own_board[sq] = None;
    }

    /// Turns this side's pawn on `sq` into a piece of kind `t` on its bitboards and own
    /// board.
    pub(crate) fn promote(&mut self, t: PieceType, sq: usize)
        requires
            sq < 64,
        ensures
            final(self).color == old(self).color,
            final(self).pieces == old(self).pieces,
            forall|i: int|
                0 <= i < 6 ==> #[trigger] final(self).pieces_bb[i] == if i == t.idx() && i == 0 {
                    (old(self).pieces_bb[i] ^ bit(sq as int)) | bit(sq as int)
                } else if i == 0 {
                    old(self).pieces_bb[i] ^ bit(sq as int)
                } else if i == t.idx() {
                    old(self).pieces_bb[i] | bit(sq as int)
                } else {
                    old(self).pieces_bb[i]
                },
            final(self).own_board@ == old(self).own_board@.update(
                sq as int,
                Some(Piece { color: old(self).color, piece_type: t }),
            ),
    {
        let mask = 1u64 << (sq as u64);
        self.pieces_bb[0] ^= mask;
        let ti = t.index();
        self.pieces_bb[ti] |= mask;
        self.own_board[sq] = Some(Piece { color: self.color, piece_type: t });
    }
}

/// The bitboard of kind `t` of a player holding `c`'s pieces on `arr` is set exactly on
/// the squares of `c`'s pieces of kind `t`.
pub proof fn lemma_matches_bb(pl: Player, arr: Seq<Option<Piece>>, c: Color, t: int, k: int)
    requires
        pl.matches(arr, c),
        0 <= t < 6,
        0 <= k < 64,
    ensures
        is_set(pl.pieces_bb[t], k) == (arr[k] == Some(Piece { piece_type: PieceType::at(t), color: c })),
        is_set(pl.pieces, k) == is_color(arr[k], c),
{
    broadcast use group_board_bb;
    assert(pl.pieces_bb[t] == piece_bb(arr, Piece { piece_type: PieceType::at(t), color: c }));
}

/// A player keeps matching when only squares that hold none of its pieces, before and
/// after, change.
pub proof fn lemma_matches_other_squares(pl: Player, arr: Seq<Option<Piece>>, arr2: Seq<Option<Piece>>, c: Color)
    requires
        pl.matches(arr, c),
        arr.len() == 64,
        arr2.len() == 64,
        forall|k: int| 0 <= k < 64 && arr[k] != arr2[k] ==> !is_color(arr[k], c) && !is_color(arr2[k], c),
    ensures
        pl.matches(arr2, c),
{
    broadcast use group_board_bb;
    assert forall|t: int| 0 <= t < 6 implies #[trigger] pl.pieces_bb[t] == piece_bb(
        arr2,
        Piece { piece_type: PieceType::at(t), color: c },
    ) by {
        let q = Piece { piece_type: PieceType::at(t), color: c };
        assert forall|k: int| 0 <= k < 64 implies is_set(pl.pieces_bb[t], k) == is_set(piece_bb(arr2, q), k) by {
            lemma_matches_bb(pl, arr, c, t, k);
        }
        lemma_bits_ext(pl.pieces_bb[t], piece_bb(arr2, q));
    }
    assert forall|k: int| 0 <= k < 64 implies is_set(pl.pieces, k) == is_set(side_bb(arr2, c), k) by {
        lemma_matches_bb(pl, arr, c, 0, k);
    }
    lemma_bits_ext(pl.pieces, side_bb(arr2, c));
}

/// Moving a piece of the player from `from` to `to` (not onto its own piece) keeps the
/// player matching the squares with that move made.
pub proof fn lemma_matches_move(
    pl: Player,
    pl2: Player,
    arr: Seq<Option<Piece>>,
    c: Color,
    p: Piece,
    from: int,
    to: int,
)
    requires
        pl.matches(arr, c),
        arr.len() == 64,
        0 <= from < 64,
        0 <= to < 64,
        from != to,
        arr[from] == Some(p),
        p.color == c,
        !is_color(arr[to], c),
        pl2.color == pl.color,
        pl2.pieces == (pl.pieces ^ bit(from)) | bit(to),
        forall|i: int|
            0 <= i < 6 ==> #[trigger] pl2.pieces_bb[i] == if i == p.piece_type.idx() {
                (pl.pieces_bb[i] ^ bit(from)) | bit(to)
            } else {
                pl.pieces_bb[i]
            },
        pl2.own_board@ == pl.own_board@.update(from, None).update(to, pl.own_board[from]),
    ensures
        pl2.matches(arr.update(from, None).update(to, Some(p)), c),
{
    broadcast use group_board_bb;
    let arr2 = arr.update(from, None).update(to, Some(p));
    crate::lemma_piece_type_roundtrip(p.piece_type);
    assert forall|t: int| 0 <= t < 6 implies #[trigger] pl2.pieces_bb[t] == piece_bb(
        arr2,
        Piece { piece_type: PieceType::at(t), color: c },
    ) by {
        let q = Piece { piece_type: PieceType::at(t), color: c };
        assert forall|k: int| 0 <= k < 64 implies is_set(pl2.pieces_bb[t], k) == is_set(piece_bb(arr2, q), k) by {
            lemma_matches_bb(pl, arr, c, t, k);
            lemma_matches_bb(pl, arr, c, t, from);
        }
        lemma_bits_ext(pl2.pieces_bb[t], piece_bb(arr2, q));
    }
    assert forall|k: int| 0 <= k < 64 implies is_set(pl2.pieces, k) == is_set(side_bb(arr2, c), k) by {
        lemma_matches_bb(pl, arr, c, 0, k);
    }
    lemma_bits_ext(pl2.pieces, side_bb(arr2, c));
    assert forall|k: int| 0 <= k < 64 implies #[trigger] pl2.own_board[k] == own_of(arr2[k], c) by {
        assert(pl2.own_board[k] == pl2.own_board@[k]);
        assert(pl.own_board[k] == pl.own_board@[k]);
        assert(pl.own_board[from] == own_of(arr[from], c));
    }
}

/// Removing a piece of the player from square `k0` keeps the player matching the squares
/// with `k0` emptied.
pub proof fn lemma_matches_remove(pl: Player, pl2: Player, arr: Seq<Option<Piece>>, c: Color, q: Piece, k0: int)
    requires
        pl.matches(arr, c),
        arr.len() == 64,
        0 <= k0 < 64,
        arr[k0] == Some(q),
        q.color == c,
        pl2.color == pl.color,
        pl2.pieces == pl.pieces & !bit(k0),
        forall|i: int|
            0 <= i < 6 ==> #[trigger] pl2.pieces_bb[i] == if i == q.piece_type.idx() {
                pl.pieces_bb[i] & !bit(k0)
            } else {
                pl.pieces_bb[i]
            },
        pl2.own_board@ == pl.own_board@.update(k0, None),
    ensures
        pl2.matches(arr.update(k0, None), c),
{
    broadcast use group_board_bb;
    let arr2 = arr.update(k0, None);
    crate::lemma_piece_type_roundtrip(q.piece_type);
    assert forall|t: int| 0 <= t < 6 implies #[trigger] pl2.pieces_bb[t] == piece_bb(
        arr2,
        Piece { piece_type: PieceType::at(t), color: c },
    ) by {
        let r = Piece { piece_type: PieceType::at(t), color: c };
        assert forall|k: int| 0 <= k < 64 implies is_set(pl2.pieces_bb[t], k) == is_set(piece_bb(arr2, r), k) by {
            lemma_matches_bb(pl, arr, c, t, k);
            if t == q.piece_type.idx() {
                assert(pl2.pieces_bb[t] == pl.pieces_bb[t] & !bit(k0));
                assert(is_set(pl.pieces_bb[t] & !bit(k0), k) == (is_set(pl.pieces_bb[t], k) && is_set(!bit(k0), k)));
                assert(is_set(!bit(k0), k) == !is_set(bit(k0), k));
                assert(is_set(bit(k0), k) == (k0 == k));
            } else {
                assert(pl2.pieces_bb[t] == pl.pieces_bb[t]);
            }
        }
        lemma_bits_ext(pl2.pieces_bb[t], piece_bb(arr2, r));
    }
    assert forall|k: int| 0 <= k < 64 implies is_set(pl2.pieces, k) == is_set(side_bb(arr2, c), k) by {
        lemma_matches_bb(pl, arr, c, 0, k);
    }
    lemma_bits_ext(pl2.pieces, side_bb(arr2, c));
    assert forall|k: int| 0 <= k < 64 implies #[trigger] pl2.own_board[k] == own_of(arr2[k], c) by {
        assert(pl2.own_board[k] == pl2.own_board@[k]);
        assert(pl.own_board[k] == pl.own_board@[k]);
    }
}

/// Promoting the player's pawn on `k0` to kind `t` keeps the player matching the squares
/// with that piece on `k0`.
pub proof fn lemma_matches_promote(pl: Player, pl2: Player, arr: Seq<Option<Piece>>, c: Color, t: PieceType, k0: int)
    requires
        pl.matches(arr, c),
        arr.len() == 64,
        0 <= k0 < 64,
        arr[k0] == Some(Piece { piece_type: PieceType::Pawn, color: c }),
        pl2.color == pl.color,
        pl2.pieces == pl.pieces,
        forall|i: int|
            0 <= i < 6 ==> #[trigger] pl2.pieces_bb[i] == if i == t.idx() && i == 0 {
                (pl.pieces_bb[i] ^ bit(k0)) | bit(k0)
            } else if i == 0 {
                pl.pieces_bb[i] ^ bit(k0)
            } else if i == t.idx() {
                pl.pieces_bb[i] | bit(k0)
            } else {
                pl.pieces_bb[i]
            },
        pl2.own_board@ == pl.own_board@.update(k0, Some(Piece { color: pl.color, piece_type: t })),
    ensures
        pl2.matches(arr.update(k0, Some(Piece { piece_type: t, color: c })), c),
{
    broadcast use group_board_bb;
    let arr2 = arr.update(k0, Some(Piece { piece_type: t, color: c }));
    crate::lemma_piece_type_roundtrip(t);
    assert forall|i: int| 0 <= i < 6 implies #[trigger] pl2.pieces_bb[i] == piece_bb(
        arr2,
        Piece { piece_type: PieceType::at(i), color: c },
    ) by {
        let r = Piece { piece_type: PieceType::at(i), color: c };
        assert forall|k: int| 0 <= k < 64 implies is_set(pl2.pieces_bb[i], k) == is_set(piece_bb(arr2, r), k) by {
            lemma_matches_bb(pl, arr, c, i, k);
        }
        lemma_bits_ext(pl2.pieces_bb[i], piece_bb(arr2, r));
    }
    assert forall|k: int| 0 <= k < 64 implies is_set(pl2.pieces, k) == is_set(side_bb(arr2, c), k) by {
        lemma_matches_bb(pl, arr, c, 0, k);
    }
    lemma_bits_ext(pl2.pieces, side_bb(arr2, c));
    assert forall|k: int| 0 <= k < 64 implies #[trigger] pl2.own_board[k] == own_of(arr2[k], c) by {
        assert(pl2.own_board[k] == pl2.own_board@[k]);
        assert(pl.own_board[k] == pl.own_board@[k]);
    }
}

/// The starting position, square by square.
pub open spec fn start_seq() -> Seq<Option<Piece>> {
    Seq::new(64, |k: int| start_piece(k))
}

/// Whether `s` names two squares in coordinate notation ("e2e4..."): files a-h, ranks 1-8.
pub open spec fn valid_coordinates(s: Seq<char>) -> bool {
    &&& s.len() >= 4
    &&& 'a' <= s[0] <= 'h'
    &&& '1' <= s[1] <= '8'
    &&& 'a' <= s[2] <= 'h'
    &&& '1' <= s[3] <= '8'
}

/// The promotion piece named by character `ch`; a queen for any other character.
pub open spec fn promotion_of(ch: char) -> PieceType {
    if ch == 'q' || ch == 'Q' {
        PieceType::Queen
    } else if ch == 'r' || ch == 'R' {
        PieceType::Rook
    } else if ch == 'b' || ch == 'B' {
        PieceType::Bishop
    } else if ch == 'n' || ch == 'N' {
        PieceType::Knight
    } else {
        PieceType::Queen
    }
}

/// The move that coordinate notation `s` denotes for a side whose own board is `own`.
pub open spec fn parsed_move_spec(own: Seq<Option<Piece>>, s: Seq<char>) -> Move {
    let from_file = s[0] as int - 'a' as int;
    let from_rank = s[1] as int - '1' as int;
    let to_file = s[2] as int - 'a' as int;
    let to_rank = s[3] as int - '1' as int;
    let from = from_rank * 8 + from_file;
    let to = to_rank * 8 + to_file;
    let kind: Option<PieceType> = match own[from] {
        Some(p) => Some(p.piece_type),
        None => None,
    };
    let castle_option = if kind == Some(PieceType::King) && (to_file - from_file == 2 || from_file - to_file
        == 2) {
        if to_file > from_file {
            Some(CastleOption::Kingside)
        } else {
            Some(CastleOption::Queenside)
        }
    } else {
        None
    };
    let promotion_piece_type = if kind == Some(PieceType::Pawn) && (to_rank == 7 || to_rank == 0) {
        if s.len() == 5 {
            Some(promotion_of(s[4]))
        } else {
            Some(PieceType::Queen)
        }
    } else {
        None
    };
    Move {
        from: Square::at(from),
        to: Square::at(to),
        promotion_piece_type,
        castle_option,
        en_passant: false,
    }
}

proof fn bv_start_constants()
    by (bit_vector)
    ensures
        forall|k: u64| k < 64 ==> ((0x000000000000FF00u64 & (1u64 << k)) != 0) == (8 <= k && k < 16),
        forall|k: u64| k < 64 ==> ((0x0000000000000042u64 & (1u64 << k)) != 0) == (k == 1 || k == 6),
        forall|k: u64| k < 64 ==> ((0x0000000000000024u64 & (1u64 << k)) != 0) == (k == 2 || k == 5),
        forall|k: u64| k < 64 ==> ((0x0000000000000081u64 & (1u64 << k)) != 0) == (k == 0 || k == 7),
        forall|k: u64| k < 64 ==> ((0x0000000000000008u64 & (1u64 << k)) != 0) == (k == 3),
        forall|k: u64| k < 64 ==> ((0x0000000000000010u64 & (1u64 << k)) != 0) == (k == 4),
        forall|k: u64| k < 64 ==> ((0x000000000000FFFFu64 & (1u64 << k)) != 0) == (k < 16),
        forall|k: u64| k < 64 ==> ((0x00FF000000000000u64 & (1u64 << k)) != 0) == (48 <= k && k < 56),
        forall|k: u64| k < 64 ==> ((0x4200000000000000u64 & (1u64 << k)) != 0) == (k == 57 || k == 62),
        forall|k: u64| k < 64 ==> ((0x2400000000000000u64 & (1u64 << k)) != 0) == (k == 58 || k == 61),
        forall|k: u64| k < 64 ==> ((0x8100000000000000u64 & (1u64 << k)) != 0) == (k == 56 || k == 63),
        forall|k: u64| k < 64 ==> ((0x0800000000000000u64 & (1u64 << k)) != 0) == (k == 59),
        forall|k: u64| k < 64 ==> ((0x1000000000000000u64 & (1u64 << k)) != 0) == (k == 60),
        forall|k: u64| k < 64 ==> ((0xFFFF000000000000u64 & (1u64 << k)) != 0) == (48 <= k),
{
}

/// The starting bitboards of one side are exactly its starting pieces.
pub proof fn lemma_start_bbs(bbs: [u64; 6], pieces: u64, color: Color)
    requires
        color == Color::White ==> bbs@ == seq![0x000000000000FF00u64, 0x0000000000000042u64, 0x0000000000000024u64,
            0x0000000000000081u64, 0x0000000000000008u64, 0x0000000000000010u64] && pieces == 0x000000000000FFFFu64,
        color == Color::Black ==> bbs@ == seq![0x00FF000000000000u64, 0x4200000000000000u64, 0x2400000000000000u64,
            0x8100000000000000u64, 0x0800000000000000u64, 0x1000000000000000u64] && pieces == 0xFFFF000000000000u64,
    ensures
        forall|t: int|
            0 <= t < 6 ==> #[trigger] bbs[t] == piece_bb(start_seq(), Piece { piece_type: PieceType::at(t), color }),
        pieces == side_bb(start_seq(), color),
{
    broadcast use group_board_bb;
    bv_start_constants();
    assert forall|t: int|
        0 <= t < 6 implies #[trigger] bbs[t] == piece_bb(start_seq(), Piece { piece_type: PieceType::at(t), color }) by {
        let p = Piece { piece_type: PieceType::at(t), color };
        assert forall|k: int| 0 <= k < 64 implies is_set(bbs[t], k) == is_set(piece_bb(start_seq(), p), k) by {
            assert(bbs[t] == bbs@[t]);
            assert(is_set(bbs[t], k) == ((bbs[t] & (1u64 << (k as u64))) != 0));
        }
        crate::bits::lemma_bits_ext(bbs[t], piece_bb(start_seq(), p));
    }
    assert forall|k: int| 0 <= k < 64 implies is_set(pieces, k) == is_set(side_bb(start_seq(), color), k) by {
    }
    crate::bits::lemma_bits_ext(pieces, side_bb(start_seq(), color));
}

/// The square a file letter and a rank digit of coordinate notation name.
pub open spec fn named_square(file: char, rank: char) -> int {
    (rank as int - '1' as int) * 8 + (file as int - 'a' as int)
}

/// Coordinate notation names its squares: the first two characters the square left, the
/// next two the square reached; a parsed move is never flagged en passant.
pub proof fn lemma_parse_squares(own: Seq<Option<Piece>>, s: Seq<char>)
    requires
        valid_coordinates(s),
    ensures
        parsed_move_spec(own, s).from.idx() == named_square(s[0], s[1]),
        parsed_move_spec(own, s).to.idx() == named_square(s[2], s[3]),
        !parsed_move_spec(own, s).en_passant,
{
}

/// A king moving two files is a castle towards the side it moves to: kingside when it
/// moves towards the h-file, queenside towards the a-file. Any other move, and a move of
/// any other piece, is no castle.
pub proof fn lemma_parse_castle(own: Seq<Option<Piece>>, s: Seq<char>)
    requires
        valid_coordinates(s),
    ensures
        ({
            let mv = parsed_move_spec(own, s);
            let from = named_square(s[0], s[1]);
            let is_king = own[from] is Some && own[from]->0.piece_type == PieceType::King;
            &&& is_king && s[2] as int == s[0] as int + 2 ==> mv.castle_option == Some(CastleOption::Kingside)
            &&& is_king && s[2] as int == s[0] as int - 2 ==> mv.castle_option == Some(CastleOption::Queenside)
            &&& !(is_king && (s[2] as int == s[0] as int + 2 || s[2] as int == s[0] as int - 2))
                ==> mv.castle_option is None
        }),
{
}

/// A pawn reaching the first or the last rank promotes: to the knight, bishop or rook its
/// fifth character names (either case), else to a queen. Any other move promotes to
/// nothing.
pub proof fn lemma_parse_promotion(own: Seq<Option<Piece>>, s: Seq<char>)
    requires
        valid_coordinates(s),
    ensures
        ({
            let mv = parsed_move_spec(own, s);
            let from = named_square(s[0], s[1]);
            let promotes = own[from] is Some && own[from]->0.piece_type == PieceType::Pawn && (s[3] == '8' || s[3]
                == '1');
            let fifth = if s.len() == 5 {
                s[4]
            } else {
                'q'
            };
            &&& !promotes ==> mv.promotion_piece_type is None
            &&& promotes && (fifth == 'n' || fifth == 'N') ==> mv.promotion_piece_type == Some(PieceType::Knight)
            &&& promotes && (fifth == 'b' || fifth == 'B') ==> mv.promotion_piece_type == Some(PieceType::Bishop)
            &&& promotes && (fifth == 'r' || fifth == 'R') ==> mv.promotion_piece_type == Some(PieceType::Rook)
            &&& promotes && !(fifth == 'n' || fifth == 'N' || fifth == 'b' || fifth == 'B' || fifth == 'r' || fifth
                == 'R') ==> mv.promotion_piece_type == Some(PieceType::Queen)
        }),
{
}

} // verus!
