//! Board geometry: the squares that each kind of piece reaches, as bitboards.
use vstd::prelude::*;
use crate::bits::{bit, is_set, group_bits, lemma_bits_ext, lemma_is_set_zero};

verus! {

broadcast use group_bits;

/// Whether `(r, c)` is a square of the board.
pub open spec fn on_board(r: int, c: int) -> bool {
    0 <= r < 8 && 0 <= c < 8
}

pub open spec fn rank_of(sq: int) -> int {
    sq / 8
}

pub open spec fn file_of(sq: int) -> int {
    sq % 8
}

/// The bit of square `(r, c)`, or nothing when `(r, c)` is off the board.
pub open spec fn sq_bit_if(r: int, c: int) -> u64 {
    if on_board(r, c) {
        bit(r * 8 + c)
    } else {
        0
    }
}

/// Squares a knight on `sq` attacks.
pub open spec fn knight_spec(sq: int) -> u64 {
    let r = rank_of(sq);
    let c = file_of(sq);
    sq_bit_if(r + 2, c + 1) | sq_bit_if(r + 2, c - 1) | sq_bit_if(r - 2, c + 1) | sq_bit_if(r - 2, c - 1)
        | sq_bit_if(r + 1, c + 2) | sq_bit_if(r + 1, c - 2) | sq_bit_if(r - 1, c + 2) | sq_bit_if(r - 1, c - 2)
}

/// Squares a king on `sq` attacks.
pub open spec fn king_spec(sq: int) -> u64 {
    let r = rank_of(sq);
    let c = file_of(sq);
    sq_bit_if(r - 1, c - 1) | sq_bit_if(r - 1, c) | sq_bit_if(r - 1, c + 1) | sq_bit_if(r, c - 1)
        | sq_bit_if(r, c + 1) | sq_bit_if(r + 1, c - 1) | sq_bit_if(r + 1, c) | sq_bit_if(r + 1, c + 1)
}

/// Squares a white pawn on `sq` attacks.
pub open spec fn white_pawn_attack_spec(sq: int) -> u64 {
    sq_bit_if(rank_of(sq) + 1, file_of(sq) - 1) | sq_bit_if(rank_of(sq) + 1, file_of(sq) + 1)
}

/// Squares a black pawn on `sq` attacks.
pub open spec fn black_pawn_attack_spec(sq: int) -> u64 {
    sq_bit_if(rank_of(sq) - 1, file_of(sq) - 1) | sq_bit_if(rank_of(sq) - 1, file_of(sq) + 1)
}

/// Squares a white pawn on `sq` may push to on an empty board (two from rank 2).
pub open spec fn white_pawn_push_spec(sq: int) -> u64 {
    sq_bit_if(rank_of(sq) + 1, file_of(sq)) | (if rank_of(sq) == 1 {
        sq_bit_if(rank_of(sq) + 2, file_of(sq))
    } else {
        0
    })
}

/// Squares a black pawn on `sq` may push to on an empty board (two from rank 7).
pub open spec fn black_pawn_push_spec(sq: int) -> u64 {
    sq_bit_if(rank_of(sq) - 1, file_of(sq)) | (if rank_of(sq) == 6 {
        sq_bit_if(rank_of(sq) - 2, file_of(sq))
    } else {
        0
    })
}

/// The sign of `x`.
pub open spec fn sign(x: int) -> int {
    if x > 0 {
        1
    } else if x < 0 {
        -1
    } else {
        0
    }
}

/// Whether two distinct squares share a rank, a file or a diagonal.
pub open spec fn aligned(a: int, b: int) -> bool {
    let dr = rank_of(b) - rank_of(a);
    let dc = file_of(b) - file_of(a);
    a != b && (dr == 0 || dc == 0 || dr == dc || dr == -dc)
}

/// Squares from `(r, c)` stepping by `(sr, sc)` up to, not including, `(tr, tc)`.
pub open spec fn walk_between(r: int, c: int, sr: int, sc: int, tr: int, tc: int, fuel: nat) -> u64
    decreases fuel,
{
    if fuel == 0 || (r == tr && c == tc) || !on_board(r, c) {
        0
    } else {
        bit(r * 8 + c) | walk_between(r + sr, c + sc, sr, sc, tr, tc, (fuel - 1) as nat)
    }
}

/// The squares strictly between two aligned squares, or nothing when they are not aligned.
pub open spec fn between_spec(a: int, b: int) -> u64 {
    if aligned(a, b) {
        let sr = sign(rank_of(b) - rank_of(a));
        let sc = sign(file_of(b) - file_of(a));
        walk_between(rank_of(a) + sr, file_of(a) + sc, sr, sc, rank_of(b), file_of(b), 8)
    } else {
        0
    }
}

/// Squares from `(r, c)` onward by `(sr, sc)` until the edge.
pub open spec fn walk_line(r: int, c: int, sr: int, sc: int, fuel: nat) -> u64
    decreases fuel,
{
    if fuel == 0 || !on_board(r, c) {
        0
    } else {
        bit(r * 8 + c) | walk_line(r + sr, c + sc, sr, sc, (fuel - 1) as nat)
    }
}

/// How many steps of `(sr, sc)` lead back from `(r, c)` while staying on the board.
pub open spec fn steps_back(r: int, c: int, sr: int, sc: int, fuel: nat) -> nat
    decreases fuel,
{
    if fuel == 0 || !on_board(r - sr, c - sc) {
        0
    } else {
        1 + steps_back(r - sr, c - sc, sr, sc, (fuel - 1) as nat)
    }
}

/// The whole line (rank, file or diagonal) through two aligned squares, edge to edge;
/// nothing when they are not aligned.
pub open spec fn line_spec(a: int, b: int) -> u64 {
    if aligned(a, b) {
        let sr = sign(rank_of(b) - rank_of(a));
        let sc = sign(file_of(b) - file_of(a));
        let k = steps_back(rank_of(a), file_of(a), sr, sc, 8);
        walk_line(rank_of(a) - k * sr, file_of(a) - k * sc, sr, sc, 8)
    } else {
        0
    }
}

/// Squares a slider on `(r, c)` reaches stepping by `(dr, dc)`: up to and including the
/// first occupied square of `occ`, at most `n` steps.
pub open spec fn ray(r: int, c: int, dr: int, dc: int, occ: u64, n: nat) -> u64
    decreases n,
{
    if n == 0 || !on_board(r + dr, c + dc) {
        0
    } else if is_set(occ, (r + dr) * 8 + c + dc) {
        bit((r + dr) * 8 + c + dc)
    } else {
        bit((r + dr) * 8 + c + dc) | ray(r + dr, c + dc, dr, dc, occ, (n - 1) as nat)
    }
}

/// Squares a rook on `sq` reaches with the board occupied as in `occ`.
pub open spec fn rook_attacks(sq: int, occ: u64) -> u64 {
    let r = rank_of(sq);
    let c = file_of(sq);
    ray(r, c, 1, 0, occ, 7) | ray(r, c, -1, 0, occ, 7) | ray(r, c, 0, 1, occ, 7) | ray(r, c, 0, -1, occ, 7)
}

/// Squares a bishop on `sq` reaches with the board occupied as in `occ`.
pub open spec fn bishop_attacks(sq: int, occ: u64) -> u64 {
    let r = rank_of(sq);
    let c = file_of(sq);
    ray(r, c, 1, 1, occ, 7) | ray(r, c, 1, -1, occ, 7) | ray(r, c, -1, 1, occ, 7) | ray(r, c, -1, -1, occ, 7)
}

/// The squares whose occupancy decides a rook's reach from `pos`: its rank and file
/// without the edge squares and without `pos` itself.
pub open spec fn in_rook_mask(pos: int, k: int) -> bool {
    let r = rank_of(pos);
    let c = file_of(pos);
    (file_of(k) == c && 1 <= rank_of(k) <= 6 && rank_of(k) != r) || (rank_of(k) == r && 1 <= file_of(k)
        <= 6 && file_of(k) != c)
}

/// The squares whose occupancy decides a bishop's reach from `pos`: its diagonals
/// without the edge squares and without `pos` itself.
pub open spec fn in_bishop_mask(pos: int, k: int) -> bool {
    let dr = rank_of(k) - rank_of(pos);
    let dc = file_of(k) - file_of(pos);
    1 <= rank_of(k) <= 6 && 1 <= file_of(k) <= 6 && dr != 0 && (dr == dc || dr == -dc)
}

/// Exec form of `sq_bit_if`.
pub fn sq_bit_if_exec(r: i32, c: i32) -> (b: u64)
    requires
        -8 <= r <= 16,
        -8 <= c <= 16,
    ensures
        b == sq_bit_if(r as int, c as int),
{
    if r >= 0 && r < 8 && c >= 0 && c < 8 {
        1u64 << ((r * 8 + c) as u64)
    } else {
        0
    }
}


/// Exec form of `ray`.
pub fn ray_exec(r: i32, c: i32, dr: i32, dc: i32, occ: u64, n: u32) -> (m: u64)
    requires
        0 <= r < 8,
        0 <= c < 8,
        -1 <= dr <= 1,
        -1 <= dc <= 1,
    ensures
        m == ray(r as int, c as int, dr as int, dc as int, occ, n as nat),
    decreases n,
{
    if n == 0 {
        return 0;
    }
    let nr = r + dr;
    let nc = c + dc;
    if !(0 <= nr && nr < 8 && 0 <= nc && nc < 8) {
        return 0;
    }
    let b = 1u64 << ((nr * 8 + nc) as u64);
    if occ & b != 0 {
        b
    } else {
        b | ray_exec(nr, nc, dr, dc, occ, n - 1)
    }
}

/// Coordinates of a square recovered from its index.
pub proof fn lemma_coords(r: int, c: int)
    requires
        0 <= r < 8,
        0 <= c < 8,
    ensures
        rank_of(r * 8 + c) == r,
        file_of(r * 8 + c) == c,
        0 <= r * 8 + c < 64,
{
}


/// The bit of `(r, c)` is set exactly on that square, when it is on the board.
pub proof fn lemma_sq_bit_if(r: int, c: int, k: int)
    requires
        0 <= k < 64,
    ensures
        is_set(sq_bit_if(r, c), k) == (on_board(r, c) && k == r * 8 + c),
{
    if on_board(r, c) {
        lemma_coords(r, c);
    }
}

/// The squares a pawn pushes to and attacks lie one rank ahead (two for the double push
/// from the starting rank), on its own file or the next ones.
pub proof fn lemma_pawn_targets(sq: int, k: int)
    requires
        0 <= sq < 64,
        0 <= k < 64,
    ensures
        is_set(white_pawn_push_spec(sq), k) ==> (k == sq + 8 || (8 <= sq < 16 && k == sq + 16)),
        is_set(black_pawn_push_spec(sq), k) ==> (k == sq - 8 || (48 <= sq < 56 && k == sq - 16)),
        is_set(white_pawn_attack_spec(sq), k) ==> ((k == sq + 7 && sq % 8 > 0) || (k == sq + 9 && sq % 8 < 7)),
        is_set(black_pawn_attack_spec(sq), k) ==> ((k == sq - 7 && sq % 8 < 7) || (k == sq - 9 && sq % 8 > 0)),
{
    let r = rank_of(sq);
    let c = file_of(sq);
    assert(sq == r * 8 + c);
    lemma_sq_bit_if(r + 1, c, k);
    lemma_sq_bit_if(r + 2, c, k);
    lemma_sq_bit_if(r - 1, c, k);
    lemma_sq_bit_if(r - 2, c, k);
    lemma_sq_bit_if(r + 1, c - 1, k);
    lemma_sq_bit_if(r + 1, c + 1, k);
    lemma_sq_bit_if(r - 1, c - 1, k);
    lemma_sq_bit_if(r - 1, c + 1, k);
    lemma_is_set_zero(k);
}

/// Whether the ray result agrees under two occupancies: every square that a ray may
/// stop on and still continue past has the same occupancy in both.
pub open spec fn ray_agree(r: int, c: int, dr: int, dc: int, o1: u64, o2: u64, n: nat) -> bool
    decreases n,
{
    if n == 0 || !on_board(r + dr, c + dc) {
        true
    } else {
        ((n >= 2 && on_board(r + 2 * dr, c + 2 * dc)) ==> is_set(o1, (r + dr) * 8 + c + dc) == is_set(
            o2,
            (r + dr) * 8 + c + dc,
        )) && ray_agree(r + dr, c + dc, dr, dc, o1, o2, (n - 1) as nat)
    }
}

pub proof fn lemma_ray_agree(r: int, c: int, dr: int, dc: int, o1: u64, o2: u64, n: nat)
    requires
        ray_agree(r, c, dr, dc, o1, o2, n),
    ensures
        ray(r, c, dr, dc, o1, n) == ray(r, c, dr, dc, o2, n),
    decreases n,
{
    if n > 0 && on_board(r + dr, c + dc) {
        lemma_ray_agree(r + dr, c + dc, dr, dc, o1, o2, (n - 1) as nat);
        if !(n >= 2 && on_board(r + 2 * dr, c + 2 * dc)) {
            assert(ray(r + dr, c + dc, dr, dc, o1, (n - 1) as nat) == 0);
            assert(ray(r + dr, c + dc, dr, dc, o2, (n - 1) as nat) == 0);
            let b = bit((r + dr) * 8 + c + dc);
            assert(b | 0u64 == b) by {
                lemma_bits_ext(b | 0u64, b);
            }
        }
    }
}

/// A ray that can take a step contains the first square.
pub proof fn lemma_ray_first(r: int, c: int, dr: int, dc: int, occ: u64, n: nat)
    requires
        n >= 1,
        on_board(r + dr, c + dc),
    ensures
        is_set(ray(r, c, dr, dc, occ, n), (r + dr) * 8 + c + dc),
{
    lemma_coords(r + dr, c + dc);
}
} // verus!
