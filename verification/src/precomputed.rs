//! The lookup tables that move generation reads, built once.
use vstd::prelude::*;
use crate::bits::{bit, is_set, group_bits};
use crate::geometry::{
    on_board, rank_of, file_of, sq_bit_if, sq_bit_if_exec, knight_spec, king_spec,
    white_pawn_attack_spec, black_pawn_attack_spec, white_pawn_push_spec, black_pawn_push_spec, sign,
    aligned, walk_between, between_spec, walk_line, steps_back, line_spec,
};
use crate::pieces::bishop::BishopEntry;
use crate::pieces::mod_rook::RookEntry;

verus! {

broadcast use group_bits;

/// Keys of the incremental position hash.
#[derive(Debug, Clone, Copy)]
pub struct ZobristTable {
    /// One key per side, piece kind and square.
    pub piece_sq: [[[u64; 64]; 6]; 2],
    /// One key per castling right: white kingside, white queenside, black kingside,
    /// black queenside.
    pub castling: [u64; 4],
    /// One key per file of an en passant target.
    pub en_passant_file: [u64; 8],
    /// The key toggled on every move.
    pub side_to_move: u64,
}

/// The squares that must be empty for castling: `[color][option]`.
pub open spec fn castle_empty_spec(color: int, opt: int) -> u64 {
    if color == 0 && opt == 0 {
        bit(5) | bit(6)
    } else if color == 0 {
        bit(1) | bit(2) | bit(3)
    } else if opt == 0 {
        bit(61) | bit(62)
    } else {
        bit(57) | bit(58) | bit(59)
    }
}

/// The squares the king stands on or crosses when castling: `[color][option]`.
pub open spec fn castle_path_spec(color: int, opt: int) -> u64 {
    if color == 0 && opt == 0 {
        bit(4) | bit(5) | bit(6)
    } else if color == 0 {
        bit(4) | bit(3) | bit(2)
    } else if opt == 0 {
        bit(60) | bit(61) | bit(62)
    } else {
        bit(60) | bit(59) | bit(58)
    }
}

/// Every table the move generator reads.
#[derive(Debug)]
pub struct PrecomputedItems {
    pub knight_moves: [u64; 64],
    pub king_moves: [u64; 64],
    pub white_pawn_attacks: [u64; 64],
    pub white_pawn_pushes: [u64; 64],
    pub black_pawn_pushes: [u64; 64],
    pub black_pawn_attacks: [u64; 64],
    pub rook_moves: Vec<RookEntry>,
    pub bishop_moves: Vec<BishopEntry>,
    pub rays: [[u64; 64]; 64],
    pub lines: [[u64; 64]; 64],
    pub castle_empty_squares: [[u64; 2]; 2],
    pub castle_path_squares: [[u64; 2]; 2],
    pub zobrist: ZobristTable,
}

impl PrecomputedItems {
    /// Every table holds what its name says, for every square.
    pub open spec fn wf(&self) -> bool {
        &&& forall|i: int| 0 <= i < 64 ==> #[trigger] self.knight_moves[i] == knight_spec(i)
        &&& forall|i: int| 0 <= i < 64 ==> #[trigger] self.king_moves[i] == king_spec(i)
        &&& forall|i: int| 0 <= i < 64 ==> #[trigger] self.white_pawn_attacks[i] == white_pawn_attack_spec(i)
        &&& forall|i: int| 0 <= i < 64 ==> #[trigger] self.white_pawn_pushes[i] == white_pawn_push_spec(i)
        &&& forall|i: int| 0 <= i < 64 ==> #[trigger] self.black_pawn_attacks[i] == black_pawn_attack_spec(i)
        &&& forall|i: int| 0 <= i < 64 ==> #[trigger] self.black_pawn_pushes[i] == black_pawn_push_spec(i)
        &&& self.rook_moves.len() == 64
        &&& self.bishop_moves.len() == 64
        &&& forall|i: int| 0 <= i < 64 ==> (#[trigger] self.rook_moves[i]).wf() && self.rook_moves[i].pos == i
        &&& forall|i: int| 0 <= i < 64 ==> (#[trigger] self.bishop_moves[i]).wf() && self.bishop_moves[i].pos == i
        &&& forall|a: int, b: int| 0 <= a < 64 && 0 <= b < 64 ==> #[trigger] self.rays[a][b] == between_spec(a, b)
        &&& forall|a: int, b: int| 0 <= a < 64 && 0 <= b < 64 ==> #[trigger] self.lines[a][b] == line_spec(a, b)
        &&& forall|c: int, o: int|
            0 <= c < 2 && 0 <= o < 2 ==> #[trigger] self.castle_empty_squares[c][o] == castle_empty_spec(c, o)
        &&& forall|c: int, o: int|
            0 <= c < 2 && 0 <= o < 2 ==> #[trigger] self.castle_path_squares[c][o] == castle_path_spec(c, o)
    }

    /// The castling tables: first the squares that must be empty, then the squares the
    /// king passes, each indexed `[color][option]`.
    pub fn precompute_castle_squares() -> (r: ([[u64; 2]; 2], [[u64; 2]; 2]))
        ensures
            forall|c: int, o: int| 0 <= c < 2 && 0 <= o < 2 ==> #[trigger] r.0[c][o] == castle_empty_spec(c, o),
            forall|c: int, o: int| 0 <= c < 2 && 0 <= o < 2 ==> #[trigger] r.1[c][o] == castle_path_spec(c, o),
    {
        let mut empty = [[0u64; 2]; 2];
        let mut path = [[0u64; 2]; 2];
        // Between king and rook: must be unoccupied.
        empty[0][0] = (1u64 << 5u64) | (1u64 << 6u64);
        empty[0][1] = (1u64 << 1u64) | (1u64 << 2u64) | (1u64 << 3u64);
        empty[1][0] = (1u64 << 61u64) | (1u64 << 62u64);
        empty[1][1] = (1u64 << 57u64) | (1u64 << 58u64) | (1u64 << 59u64);
        // The king's own path: must not be attacked.
        path[0][0] = (1u64 << 4u64) | (1u64 << 5u64) | (1u64 << 6u64);
        path[0][1] = (1u64 << 4u64) | (1u64 << 3u64) | (1u64 << 2u64);
        path[1][0] = (1u64 << 60u64) | (1u64 << 61u64) | (1u64 << 62u64);
        path[1][1] = (1u64 << 60u64) | (1u64 << 59u64) | (1u64 << 58u64);
        (empty, path)
    }

    /// Builds every table. `None` only if the random search for a magic number failed
    /// `u64::MAX` times on some square.
    pub fn begin_precomputing() -> (r: Option<Self>)
        ensures
            r matches Some(p) ==> p.wf(),
            r matches Some(p) ==> forall|c: int, t: int, s: int|
                0 <= c < 2 && 0 <= t < 6 && 0 <= s < 64 ==> #[trigger] p.zobrist.piece_sq[c][t][s] == zobrist_key(
                    (c * 384 + t * 64 + s) as u64,
                ),
            r matches Some(p) ==> forall|i: int| 0 <= i < 4 ==> #[trigger] p.zobrist.castling[i] == zobrist_key((768 + i) as u64),
            r matches Some(p) ==> forall|i: int|
                0 <= i < 8 ==> #[trigger] p.zobrist.en_passant_file[i] == zobrist_key((772 + i) as u64),
            r matches Some(p) ==> p.zobrist.side_to_move == zobrist_key(780),
    {
        let mut knight_moves = [0u64; 64];
        let mut king_moves = [0u64; 64];
        let mut white_pawn_attacks = [0u64; 64];
        let mut white_pawn_pushes = [0u64; 64];
        let mut black_pawn_attacks = [0u64; 64];
        let mut black_pawn_pushes = [0u64; 64];
        for i in 0..64usize
            invariant
                forall|j: int| 0 <= j < i ==> #[trigger] knight_moves[j] == knight_spec(j),
                forall|j: int| 0 <= j < i ==> #[trigger] king_moves[j] == king_spec(j),
                forall|j: int| 0 <= j < i ==> #[trigger] white_pawn_attacks[j] == white_pawn_attack_spec(j),
                forall|j: int| 0 <= j < i ==> #[trigger] white_pawn_pushes[j] == white_pawn_push_spec(j),
                forall|j: int| 0 <= j < i ==> #[trigger] black_pawn_attacks[j] == black_pawn_attack_spec(j),
                forall|j: int| 0 <= j < i ==> #[trigger] black_pawn_pushes[j] == black_pawn_push_spec(j),
        {
            let r = (i / 8) as i32;
            let c = (i % 8) as i32;
            knight_moves[i] = sq_bit_if_exec(r + 2, c + 1) | sq_bit_if_exec(r + 2, c - 1) | sq_bit_if_exec(r - 2, c + 1)
                | sq_bit_if_exec(r - 2, c - 1) | sq_bit_if_exec(r + 1, c + 2) | sq_bit_if_exec(r + 1, c - 2)
                | sq_bit_if_exec(r - 1, c + 2) | sq_bit_if_exec(r - 1, c - 2);
            king_moves[i] = sq_bit_if_exec(r - 1, c - 1) | sq_bit_if_exec(r - 1, c) | sq_bit_if_exec(r - 1, c + 1)
                | sq_bit_if_exec(r, c - 1) | sq_bit_if_exec(r, c + 1) | sq_bit_if_exec(r + 1, c - 1)
                | sq_bit_if_exec(r + 1, c) | sq_bit_if_exec(r + 1, c + 1);
            white_pawn_attacks[i] = sq_bit_if_exec(r + 1, c - 1) | sq_bit_if_exec(r + 1, c + 1);
            black_pawn_attacks[i] = sq_bit_if_exec(r - 1, c - 1) | sq_bit_if_exec(r - 1, c + 1);
            white_pawn_pushes[i] = sq_bit_if_exec(r + 1, c) | (if r == 1 {
                sq_bit_if_exec(r + 2, c)
            } else {
                0
            });
            black_pawn_pushes[i] = sq_bit_if_exec(r - 1, c) | (if r == 6 {
                sq_bit_if_exec(r - 2, c)
            } else {
                0
            });
        }
        let mut rays = [[0u64; 64]; 64];
        let mut line_masks = [[0u64; 64]; 64];
        for from in 0..64usize
            invariant
                forall|a: int, b: int| 0 <= a < from && 0 <= b < 64 ==> #[trigger] rays[a][b] == between_spec(a, b),
                forall|a: int, b: int| 0 <= a < from && 0 <= b < 64 ==> #[trigger] line_masks[a][b] == line_spec(a, b),
        {
            let mut ray_row = [0u64; 64];
            let mut line_row = [0u64; 64];
            for to in 0..64usize
                invariant
                    from < 64,
                    forall|b: int| 0 <= b < to ==> #[trigger] ray_row[b] == between_spec(from as int, b),
                    forall|b: int| 0 <= b < to ==> #[trigger] line_row[b] == line_spec(from as int, b),
            {
                ray_row[to] = between_exec(from, to);
                line_row[to] = line_exec(from, to);
            }
            rays[from] = ray_row;
            line_masks[from] = line_row;
        }
        let mut rook_moves: Vec<RookEntry> = Vec::new();
        let mut bishop_moves: Vec<BishopEntry> = Vec::new();
        for i in 0..64usize
            invariant
                rook_moves.len() == i,
                bishop_moves.len() == i,
                forall|j: int| 0 <= j < i ==> (#[trigger] rook_moves[j]).wf() && rook_moves[j].pos == j,
                forall|j: int| 0 <= j < i ==> (#[trigger] bishop_moves[j]).wf() && bishop_moves[j].pos == j,
        {
            match RookEntry::init_rook(i as u8) {
                Some(e) => rook_moves.push(e),
                None => {
                    return None;
                },
            }
            match BishopEntry::init_bishop(i as u8) {
                Some(e) => bishop_moves.push(e),
                None => {
                    return None;
                },
            }
        }
        let (empty, path) = PrecomputedItems::precompute_castle_squares();
        Some(
            PrecomputedItems {
                knight_moves,
                king_moves,
                white_pawn_pushes,
                white_pawn_attacks,
                black_pawn_attacks,
                black_pawn_pushes,
                rook_moves,
                bishop_moves,
                rays,
                lines: line_masks,
                castle_empty_squares: empty,
                castle_path_squares: path,
                zobrist: ZobristTable::new(),
            },
        )
    }
}

/// Seed of the key stream.
pub const ZOBRIST_SEED: u64 = 0x2545_F491_4F6C_DD1D;

/// Step of the key stream.
pub const ZOBRIST_STEP: u64 = 0x9E37_79B9_7F4A_7C15;

/// The finaliser that turns a state of the key stream into a key.
pub open spec fn mix_key(x: u64) -> u64 {
    let z1 = (x ^ (x >> 30u64)).wrapping_mul(0xBF58_476D_1CE4_E5B9u64);
    let z2 = (z1 ^ (z1 >> 27u64)).wrapping_mul(0x94D0_49BB_1331_11EBu64);
    z2 ^ (z2 >> 31u64)
}

/// The `n`-th key of the stream: the seed advanced `n + 1` steps, mixed.
pub open spec fn zobrist_key(n: u64) -> u64 {
    mix_key(ZOBRIST_SEED.wrapping_add(((n + 1) as u64).wrapping_mul(ZOBRIST_STEP)))
}

/// The `n`-th key of the stream.
fn next_key(n: u64) -> (r: u64)
    requires
        n < 1000,
    ensures
        r == zobrist_key(n),
{
    let x = ZOBRIST_SEED.wrapping_add((n + 1).wrapping_mul(ZOBRIST_STEP));
    let z1 = (x ^ (x >> 30u64)).wrapping_mul(0xBF58_476D_1CE4_E5B9u64);
    let z2 = (z1 ^ (z1 >> 27u64)).wrapping_mul(0x94D0_49BB_1331_11EBu64);
    z2 ^ (z2 >> 31u64)
}

impl ZobristTable {
    /// The keys, taken in order from a fixed stream: the piece keys by side, kind and
    /// square first, then the castling keys, the en passant file keys and the side key.
    /// Every table built this way is the same.
    pub fn new() -> (r: Self)
        ensures
            forall|c: int, t: int, s: int|
                0 <= c < 2 && 0 <= t < 6 && 0 <= s < 64 ==> #[trigger] r.piece_sq[c][t][s] == zobrist_key(
                    (c * 384 + t * 64 + s) as u64,
                ),
            forall|i: int| 0 <= i < 4 ==> #[trigger] r.castling[i] == zobrist_key((768 + i) as u64),
            forall|i: int| 0 <= i < 8 ==> #[trigger] r.en_passant_file[i] == zobrist_key((772 + i) as u64),
            r.side_to_move == zobrist_key(780),
    {
        let mut piece_sq = [[[0u64; 64]; 6]; 2];
        for c in 0..2usize
            invariant
                forall|c2: int, t: int, s: int|
                    0 <= c2 < c && 0 <= t < 6 && 0 <= s < 64 ==> #[trigger] piece_sq[c2][t][s] == zobrist_key(
                        (c2 * 384 + t * 64 + s) as u64,
                    ),
        {
            let mut side = [[0u64; 64]; 6];
            for t in 0..6usize
                invariant
                    c < 2,
                    forall|t2: int, s: int|
                        0 <= t2 < t && 0 <= s < 64 ==> #[trigger] side[t2][s] == zobrist_key(
                            (c * 384 + t2 * 64 + s) as u64,
                        ),
            {
                let mut row = [0u64; 64];
                for s in 0..64usize
                    invariant
                        c < 2,
                        t < 6,
                        forall|s2: int| 0 <= s2 < s ==> #[trigger] row[s2] == zobrist_key(
                            (c * 384 + t * 64 + s2) as u64,
                        ),
                {
                    row[s] = next_key((c * 384 + t * 64 + s) as u64);
                }
                side[t] = row;
            }
            piece_sq[c] = side;
        }
        let mut castling = [0u64; 4];
        for i in 0..4usize
            invariant
                forall|j: int| 0 <= j < i ==> #[trigger] castling[j] == zobrist_key((768 + j) as u64),
        {
            castling[i] = next_key((768 + i) as u64);
        }
        let mut en_passant_file = [0u64; 8];
        for i in 0..8usize
            invariant
                forall|j: int| 0 <= j < i ==> #[trigger] en_passant_file[j] == zobrist_key((772 + j) as u64),
        {
            en_passant_file[i] = next_key((772 + i) as u64);
        }
        ZobristTable { piece_sq, castling, en_passant_file, side_to_move: next_key(780) }
    }
}

/// Exec form of `walk_between`.
fn walk_between_exec(r: i32, c: i32, sr: i32, sc: i32, tr: i32, tc: i32, fuel: u32) -> (m: u64)
    requires
        -1 <= r <= 8,
        -1 <= c <= 8,
        -1 <= sr <= 1,
        -1 <= sc <= 1,
        fuel <= 8,
    ensures
        m == walk_between(r as int, c as int, sr as int, sc as int, tr as int, tc as int, fuel as nat),
    decreases fuel,
{
    if fuel == 0 || (r == tr && c == tc) || !(0 <= r && r < 8 && 0 <= c && c < 8) {
        0
    } else {
        (1u64 << ((r * 8 + c) as u64)) | walk_between_exec(r + sr, c + sc, sr, sc, tr, tc, fuel - 1)
    }
}

fn sign_exec(x: i32) -> (s: i32)
    ensures
        s == sign(x as int),
{
    if x > 0 {
        1
    } else if x < 0 {
        -1
    } else {
        0
    }
}

/// The squares strictly between `from` and `to` when they share a line.
fn between_exec(from: usize, to: usize) -> (m: u64)
    requires
        from < 64,
        to < 64,
    ensures
        m == between_spec(from as int, to as int),
{
    let from_rank = (from / 8) as i32;
    let from_file = (from % 8) as i32;
    let to_rank = (to / 8) as i32;
    let to_file = (to % 8) as i32;
    let rank_diff = to_rank - from_rank;
    let file_diff = to_file - from_file;
    let is_on_line = from_rank == to_rank || from_file == to_file || rank_diff == file_diff || rank_diff
        == -file_diff;
    if is_on_line && from != to {
        let rank_step = sign_exec(rank_diff);
        let file_step = sign_exec(file_diff);
        walk_between_exec(from_rank + rank_step, from_file + file_step, rank_step, file_step, to_rank, to_file, 8)
    } else {
        0
    }
}

/// Exec form of `steps_back`.
fn steps_back_exec(r: i32, c: i32, sr: i32, sc: i32, fuel: u32) -> (k: u32)
    requires
        0 <= r < 8,
        0 <= c < 8,
        -1 <= sr <= 1,
        -1 <= sc <= 1,
        fuel <= 8,
    ensures
        k == steps_back(r as int, c as int, sr as int, sc as int, fuel as nat),
        k <= fuel,
    decreases fuel,
{
    if fuel == 0 || !(0 <= r - sr && r - sr < 8 && 0 <= c - sc && c - sc < 8) {
        0
    } else {
        1 + steps_back_exec(r - sr, c - sc, sr, sc, fuel - 1)
    }
}

/// Exec form of `walk_line`.
fn walk_line_exec(r: i32, c: i32, sr: i32, sc: i32, fuel: u32) -> (m: u64)
    requires
        -9 <= r <= 17,
        -9 <= c <= 17,
        -1 <= sr <= 1,
        -1 <= sc <= 1,
        fuel <= 8,
    ensures
        m == walk_line(r as int, c as int, sr as int, sc as int, fuel as nat),
    decreases fuel,
{
    if fuel == 0 || !(0 <= r && r < 8 && 0 <= c && c < 8) {
        0
    } else {
        (1u64 << ((r * 8 + c) as u64)) | walk_line_exec(r + sr, c + sc, sr, sc, fuel - 1)
    }
}

/// The whole line through `sq1` and `sq2` when they share one.
fn line_exec(sq1: usize, sq2: usize) -> (m: u64)
    requires
        sq1 < 64,
        sq2 < 64,
    ensures
        m == line_spec(sq1 as int, sq2 as int),
{
    let r1 = (sq1 / 8) as i32;
    let c1 = (sq1 % 8) as i32;
    let r2 = (sq2 / 8) as i32;
    let c2 = (sq2 % 8) as i32;
    let dr = r2 - r1;
    let dc = c2 - c1;
    if sq1 != sq2 && (dr == 0 || dc == 0 || dr == dc || dr == -dc) {
        let step_r = sign_exec(dr);
        let step_c = sign_exec(dc);
        let k = steps_back_exec(r1, c1, step_r, step_c, 8) as i32;
        walk_line_exec(r1 - k * step_r, c1 - k * step_c, step_r, step_c, 8)
    } else {
        0
    }
}

} // verus!
