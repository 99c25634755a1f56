use vstd::prelude::*;

pub mod bits;
pub mod square;
pub mod geometry;
pub mod magic;
pub mod pieces;
pub mod precomputed;
pub mod position_hash;
pub mod game;
pub mod data;
pub mod mcts;
pub mod arena;

pub use square::Square;
pub use precomputed::PrecomputedItems;

verus! {

broadcast use crate::square::group_square;

/// A set of squares as 64 bits: bit `k` stands for square `k` (a1 = 0, h8 = 63).
pub type Bitboard = u64;

/// The files a to h.
#[derive(Debug, Clone, Copy, PartialEq, Eq, Structural)]
pub enum File {
    A,
    B,
    C,
    D,
    E,
    F,
    G,
    H,
}

/// The ranks 1 to 8.
#[derive(Debug, Clone, Copy, PartialEq, Eq, Structural)]
pub enum Rank {
    R1,
    R2,
    R3,
    R4,
    R5,
    R6,
    R7,
    R8,
}

/// The two sides.
#[derive(Debug, Clone, Copy, PartialEq, Eq, Structural)]
pub enum Color {
    White,
    Black,
}

impl Color {
    /// 0 for White, 1 for Black.
    pub open spec fn idx(self) -> int {
        match self {
            Color::White => 0,
            Color::Black => 1,
        }
    }

    /// The other side.
    pub open spec fn opp(self) -> Color {
        match self {
            Color::White => Color::Black,
            Color::Black => Color::White,
        }
    }

    /// 0 for White, 1 for Black.
    pub fn index(self) -> (r: usize)
        ensures
            r == self.idx(),
    {
        match self {
            Color::White => 0,
            Color::Black => 1,
        }
    }

    /// The other side.
    pub fn opposite(self) -> (r: Color)
        ensures
            r == self.opp(),
    {
        match self {
            Color::White => Color::Black,
            Color::Black => Color::White,
        }
    }
}

/// The two castling directions.
#[derive(Debug, Clone, Copy, PartialEq, Eq, Structural)]
pub enum CastleOption {
    Kingside,
    Queenside,
}

impl CastleOption {
    /// 0 for kingside, 1 for queenside.
    pub open spec fn idx(self) -> int {
        match self {
            CastleOption::Kingside => 0,
            CastleOption::Queenside => 1,
        }
    }

    /// 0 for kingside, 1 for queenside.
    pub fn index(self) -> (r: usize)
        ensures
            r == self.idx(),
    {
        match self {
            CastleOption::Kingside => 0,
            CastleOption::Queenside => 1,
        }
    }
}

/// The six kinds of piece, in the order of the per-type bitboards.
#[derive(Debug, Clone, Copy, PartialEq, Eq, Structural)]
pub enum PieceType {
    Pawn,
    Knight,
    Bishop,
    Rook,
    Queen,
    King,
}

impl PieceType {
    /// The position of this kind in the per-type bitboards (Pawn = 0 .. King = 5).
    pub open spec fn idx(self) -> int {
        match self {
            PieceType::Pawn => 0,
            PieceType::Knight => 1,
            PieceType::Bishop => 2,
            PieceType::Rook => 3,
            PieceType::Queen => 4,
            PieceType::King => 5,
        }
    }

    /// The kind at position `i` of the per-type bitboards (meaningful for `0 <= i < 6`).
    pub open spec fn at(i: int) -> PieceType {
        if i == 0 {
            PieceType::Pawn
        } else if i == 1 {
            PieceType::Knight
        } else if i == 2 {
            PieceType::Bishop
        } else if i == 3 {
            PieceType::Rook
        } else if i == 4 {
            PieceType::Queen
        } else {
            PieceType::King
        }
    }

    /// The position of this kind in the per-type bitboards.
    pub fn index(self) -> (r: usize)
        ensures
            r == self.idx(),
            r < 6,
    {
        match self {
            PieceType::Pawn => 0,
            PieceType::Knight => 1,
            PieceType::Bishop => 2,
            PieceType::Rook => 3,
            PieceType::Queen => 4,
            PieceType::King => 5,
        }
    }

    /// The kind at position `i` of the per-type bitboards.
    pub fn from_index(i: usize) -> (r: PieceType)
        requires
            i < 6,
        ensures
            r == PieceType::at(i as int),
            r.idx() == i,
    {
        if i == 0 {
            PieceType::Pawn
        } else if i == 1 {
            PieceType::Knight
        } else if i == 2 {
            PieceType::Bishop
        } else if i == 3 {
            PieceType::Rook
        } else if i == 4 {
            PieceType::Queen
        } else {
            PieceType::King
        }
    }
}

pub proof fn lemma_piece_type_roundtrip(t: PieceType)
    ensures
        0 <= t.idx() < 6,
        PieceType::at(t.idx()) == t,
{
}

/// A piece: its kind and its side.
#[derive(Debug, Clone, Copy, PartialEq, Eq, Structural)]
pub struct Piece {
    pub piece_type: PieceType,
    pub color: Color,
}

impl From<Square> for u8 {
    fn from(s: Square) -> (r: u8) {
        s.index()
    }
}

impl vstd::std_specs::convert::FromSpecImpl<Square> for u8 {
    open spec fn obeys_from_spec() -> bool {
        true
    }

    open spec fn from_spec(s: Square) -> u8 {
        s.idx() as u8
    }
}

impl From<Square> for usize {
    fn from(s: Square) -> (r: usize) {
        s.index() as usize
    }
}

impl vstd::std_specs::convert::FromSpecImpl<Square> for usize {
    open spec fn obeys_from_spec() -> bool {
        true
    }

    open spec fn from_spec(s: Square) -> usize {
        s.idx() as usize
    }
}

impl From<PieceType> for usize {
    fn from(p: PieceType) -> (r: usize) {
        p.index()
    }
}

impl vstd::std_specs::convert::FromSpecImpl<PieceType> for usize {
    open spec fn obeys_from_spec() -> bool {
        true
    }

    open spec fn from_spec(p: PieceType) -> usize {
        p.idx() as usize
    }
}

/// Walks the set squares of a bitboard from the lowest index up.
pub struct BitIterator {
    pub bits: u64,
}

impl BitIterator {
    pub fn new(bits: u64) -> (r: Self)
        ensures
            r.bits == bits,
    {
        Self { bits }
    }

    /// The lowest set square still left, which is then removed; `None` once all are taken.
    pub fn next_square(&mut self) -> (r: Option<usize>)
        ensures
            old(self).bits == 0 ==> r is None && final(self).bits == 0,
            old(self).bits != 0 ==> (r matches Some(sq) && sq < 64 && sq == bits::lowest(old(self).bits)
                && final(self).bits == bits::clear_lowest(old(self).bits)),
    {
        if self.bits == 0 {
            None
        } else {
            let sq = self.bits.trailing_zeros() as usize;
            proof {
                bits::lemma_lowest(self.bits);
            }
            self.bits = self.bits & (self.bits - 1);
            Some(sq)
        }
    }
}

/// The back-rank piece kind on file `f` (a..h = 0..7): R N B Q K B N R.
pub open spec fn back_rank_type(f: int) -> PieceType {
    if f == 0 || f == 7 {
        PieceType::Rook
    } else if f == 1 || f == 6 {
        PieceType::Knight
    } else if f == 2 || f == 5 {
        PieceType::Bishop
    } else if f == 3 {
        PieceType::Queen
    } else {
        PieceType::King
    }
}

/// The content of square `sq` in the standard starting position.
pub open spec fn start_piece(sq: int) -> Option<Piece> {
    if 0 <= sq < 8 {
        Some(Piece { piece_type: back_rank_type(sq), color: Color::White })
    } else if 8 <= sq < 16 {
        Some(Piece { piece_type: PieceType::Pawn, color: Color::White })
    } else if 48 <= sq < 56 {
        Some(Piece { piece_type: PieceType::Pawn, color: Color::Black })
    } else if 56 <= sq < 64 {
        Some(Piece { piece_type: back_rank_type(sq - 56), color: Color::Black })
    } else {
        None
    }
}

/// The starting content of square `sq` restricted to the pieces of `color`.
pub open spec fn start_piece_of(color: Color, sq: int) -> Option<Piece> {
    match start_piece(sq) {
        Some(p) => if p.color == color {
            Some(p)
        } else {
            None
        },
        None => None,
    }
}

fn back_rank_piece(f: usize, color: Color) -> (r: Option<Piece>)
    requires
        f < 8,
    ensures
        r == Some(Piece { piece_type: back_rank_type(f as int), color }),
{
    let t = if f == 0 || f == 7 {
        PieceType::Rook
    } else if f == 1 || f == 6 {
        PieceType::Knight
    } else if f == 2 || f == 5 {
        PieceType::Bishop
    } else if f == 3 {
        PieceType::Queen
    } else {
        PieceType::King
    };
    Some(Piece { piece_type: t, color })
}

/// The standard starting position, square by square.
pub fn create_game_board() -> (board: [Option<Piece>; 64])
    ensures
        forall|i: int| 0 <= i < 64 ==> board[i] == start_piece(i),
{
    let mut board: [Option<Piece>; 64] = [None; 64];
    for i in 0..64usize
        invariant
            forall|j: int| 0 <= j < i ==> board[j] == start_piece(j),
    {
        if i < 8 {
            board[i] = back_rank_piece(i, Color::White);
        } else if i < 16 {
            board[i] = Some(Piece { piece_type: PieceType::Pawn, color: Color::White });
        } else if i < 48 {
            board[i] = None;
        } else if i < 56 {
            board[i] = Some(Piece { piece_type: PieceType::Pawn, color: Color::Black });
        } else {
            board[i] = back_rank_piece(i - 56, Color::Black);
        }
    }
    board
}

/// The starting position of one side only: the other side's squares are empty.
pub fn create_own_board(color: Color) -> (board: [Option<Piece>; 64])
    ensures
        forall|i: int| 0 <= i < 64 ==> board[i] == start_piece_of(color, i),
{
    let full = create_game_board();
    let mut board: [Option<Piece>; 64] = [None; 64];
    for i in 0..64usize
        invariant
            forall|j: int| 0 <= j < 64 ==> full[j] == start_piece(j),
            forall|j: int| 0 <= j < i ==> board[j] == start_piece_of(color, j),
    {
        board[i] = match full[i] {
            Some(p) => if p.color == color {
                Some(p)
            } else {
                None
            },
            None => None,
        };
    }
    board
}

} // verus!
