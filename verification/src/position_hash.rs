//! The Zobrist key of a position: the XOR of one random key per occupied square, per
//! castling right, for the en passant file and for the side to move.
use vstd::prelude::*;
use crate::precomputed::ZobristTable;
use crate::Piece;

verus! {

/// The key of square `k` holding `x`: nothing for an empty square.
pub open spec fn square_key(z: ZobristTable, x: Option<Piece>, k: int) -> u64 {
    match x {
        Some(p) => z.piece_sq[p.color.idx()][p.piece_type.idx()][k],
        None => 0,
    }
}

/// The XOR of the keys of the squares below `n`.
pub open spec fn board_key_upto(z: ZobristTable, arr: Seq<Option<Piece>>, n: nat) -> u64
    decreases n,
{
    if n == 0 {
        0
    } else {
        board_key_upto(z, arr, (n - 1) as nat) ^ square_key(z, arr[n - 1], n - 1)
    }
}

/// The XOR of the keys of all 64 squares.
#[verifier::opaque]
pub open spec fn board_key(z: ZobristTable, arr: Seq<Option<Piece>>) -> u64 {
    board_key_upto(z, arr, 64)
}

/// The key of an en passant target: its file's key, nothing without a target.
pub open spec fn ep_key(z: ZobristTable, ep: Option<usize>) -> u64 {
    match ep {
        Some(e) => z.en_passant_file[(e % 8) as int],
        None => 0,
    }
}

/// The keys of the castling rights still held.
pub open spec fn castling_key(z: ZobristTable, wk: bool, wq: bool, bk: bool, bq: bool) -> u64 {
    (if wk {
        z.castling[0]
    } else {
        0
    }) ^ (if wq {
        z.castling[1]
    } else {
        0
    }) ^ (if bk {
        z.castling[2]
    } else {
        0
    }) ^ (if bq {
        z.castling[3]
    } else {
        0
    })
}

/// XOR is associative and commutative, with 0 as unit and every value its own inverse.
pub proof fn lemma_xor_swap(a: u64, b: u64, c: u64)
    ensures
        (a ^ b) ^ c == (a ^ c) ^ b,
        a ^ (b ^ c) == (a ^ b) ^ c,
        a ^ b == b ^ a,
        a ^ 0 == a,
        a ^ a == 0,
{
    assert((a ^ b) ^ c == (a ^ c) ^ b && a ^ (b ^ c) == (a ^ b) ^ c && a ^ b == b ^ a && a ^ 0 == a && a ^ a
        == 0) by (bit_vector);
}

/// XOR-ing the same value twice gives back the start.
pub proof fn lemma_xor_cancel(a: u64, b: u64)
    ensures
        (a ^ b) ^ b == a,
{
    assert((a ^ b) ^ b == a) by (bit_vector);
}

/// Changing square `k0` to `x` changes the key of the squares below `n` by the old and
/// the new key of `k0`, if `k0` is among them.
pub proof fn lemma_board_key_upto_update(z: ZobristTable, arr: Seq<Option<Piece>>, k0: int, x: Option<Piece>, n: nat)
    requires
        0 <= k0 < arr.len(),
        n <= arr.len(),
    ensures
        board_key_upto(z, arr.update(k0, x), n) == board_key_upto(z, arr, n) ^ (if k0 < n {
            square_key(z, arr[k0], k0) ^ square_key(z, x, k0)
        } else {
            0
        }),
    decreases n,
{
    let arr2 = arr.update(k0, x);
    if n > 0 {
        let m = (n - 1) as nat;
        lemma_board_key_upto_update(z, arr, k0, x, m);
        let a = board_key_upto(z, arr, m);
        let s = square_key(z, arr[m as int], m as int);
        let o = square_key(z, arr[k0], k0);
        let w = square_key(z, x, k0);
        let d: u64 = if k0 < m {
            o ^ w
        } else {
            0
        };
        assert(board_key_upto(z, arr2, m) == a ^ d);
        assert(board_key_upto(z, arr2, n) == board_key_upto(z, arr2, m) ^ square_key(z, arr2[m as int], m as int));
        assert(board_key_upto(z, arr, n) == a ^ s);
        lemma_xor_swap(a, 0, 0);
        if m == k0 {
            assert(arr2[m as int] == x);
            assert((a ^ o) ^ (o ^ w) == a ^ w) by (bit_vector);
        } else if k0 < m {
            assert(arr2[m as int] == arr[m as int]);
            lemma_xor_swap(a, o ^ w, s);
        } else {
            assert(arr2[m as int] == arr[m as int]);
            lemma_xor_swap(a ^ s, 0, 0);
        }
    } else {
        lemma_xor_swap(0, 0, 0);
    }
}

/// Changing square `k0` to `x` changes the key of the board by the old and the new key
/// of `k0`.
pub proof fn lemma_board_key_update(z: ZobristTable, arr: Seq<Option<Piece>>, k0: int, x: Option<Piece>)
    requires
        arr.len() == 64,
        0 <= k0 < 64,
    ensures
        board_key(z, arr.update(k0, x)) == board_key(z, arr) ^ square_key(z, arr[k0], k0) ^ square_key(z, x, k0),
{
    reveal(board_key);
    lemma_board_key_upto_update(z, arr, k0, x, 64);
    lemma_xor_swap(board_key(z, arr), square_key(z, arr[k0], k0), square_key(z, x, k0));
}

} // verus!
