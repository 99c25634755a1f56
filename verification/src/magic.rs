//! Shared machinery of the magic-bitboard tables: square counts, the enumeration of
//! all occupancies of a mask, and the multiply-shift index.
use vstd::prelude::*;
use vstd::arithmetic::power2::{pow2, lemma_pow2_unfold, lemma_pow2_pos};
use crate::bits::{bit, is_set, group_bits, lemma_bits_ext};

verus! {

broadcast use group_bits;

/// Number of set squares of `m` at index `k` and above.
pub open spec fn cnt_from(m: u64, k: nat) -> nat
    decreases 64 - k,
{
    if k >= 64 {
        0
    } else {
        (if is_set(m, k as int) {
            1nat
        } else {
            0nat
        }) + cnt_from(m, k + 1)
    }
}

/// Number of set squares of `m`.
pub open spec fn popcount(m: u64) -> nat {
    cnt_from(m, 0)
}

/// Whether every square of `s` is a square of `m`.
pub open spec fn subset_of(s: u64, m: u64) -> bool {
    s & m == s
}

pub proof fn lemma_cnt_bound(m: u64, k: nat)
    ensures
        cnt_from(m, k) <= 64 - k || k >= 64,
        k >= 64 ==> cnt_from(m, k) == 0,
    decreases 64 - k,
{
    if k < 64 {
        lemma_cnt_bound(m, k + 1);
    }
}

/// Adding a square that was not set raises the count by one (when it lies in range).
pub proof fn lemma_cnt_insert(m: u64, j: int, k: nat)
    requires
        0 <= j < 64,
        !is_set(m, j),
    ensures
        cnt_from(m | bit(j), k) == cnt_from(m, k) + (if j >= k {
            1nat
        } else {
            0nat
        }),
    decreases 64 - k,
{
    if k < 64 {
        lemma_cnt_insert(m, j, k + 1);
        assert(is_set(m | bit(j), k as int) == (is_set(m, k as int) || j == k));
    }
}

/// The count of a bitboard with at least one set square is at least one.
/// The empty bitboard counts no squares.
pub proof fn lemma_cnt_zero(k: nat)
    ensures
        cnt_from(0u64, k) == 0,
    decreases 64 - k,
{
    if k < 64 {
        crate::bits::lemma_is_set_zero(k as int);
        lemma_cnt_zero(k + 1);
    }
}

pub proof fn lemma_cnt_pos(m: u64, j: int, k: nat)
    requires
        k <= j < 64,
        is_set(m, j),
    ensures
        cnt_from(m, k) >= 1,
    decreases 64 - k,
{
    if k < j {
        lemma_cnt_pos(m, j, k + 1);
    }
}

/// Count the set squares of `x`.
pub fn count_ones(x: u64) -> (r: u32)
    ensures
        r == popcount(x),
        r <= 64,
{
    let mut k: u64 = 64;
    let mut r: u32 = 0;
    while k > 0
        invariant
            k <= 64,
            r == cnt_from(x, k as nat),
            r <= 64 - k,
        decreases k,
    {
        k = k - 1;
        if x & (1u64 << k) != 0 {
            r = r + 1;
        }
    }
    r
}

/// The occupancy of mask `m` selected by the bits of `i`: the `j`-th bit of `i`
/// decides whether the `j`-th set square of `m` (counting up from index `k`) is taken.
/// Squares taken so far are in `acc`.
pub open spec fn deposit_acc(acc: u64, i: nat, m: u64, k: nat) -> u64
    decreases 64 - k,
{
    if k >= 64 {
        acc
    } else if is_set(m, k as int) {
        deposit_acc(
            if i % 2 == 1 {
                acc | bit(k as int)
            } else {
                acc
            },
            i / 2,
            m,
            k + 1,
        )
    } else {
        deposit_acc(acc, i, m, k + 1)
    }
}

/// The index under which `deposit_acc` yields the occupancy `s` of mask `m`.
pub open spec fn extract(s: u64, m: u64, k: nat) -> nat
    decreases 64 - k,
{
    if k >= 64 {
        0
    } else if is_set(m, k as int) {
        (if is_set(s, k as int) {
            1nat
        } else {
            0nat
        }) + 2 * extract(s, m, k + 1)
    } else {
        extract(s, m, k + 1)
    }
}

proof fn lemma_extract_deposit(s: u64, m: u64, acc: u64, k: nat)
    requires
        forall|j: int| 0 <= j < 64 && is_set(s, j) ==> is_set(m, j),
    ensures
        extract(s, m, k) < pow2(cnt_from(m, k)),
        forall|j: int|
            0 <= j < 64 ==> #[trigger] is_set(deposit_acc(acc, extract(s, m, k), m, k), j) == (is_set(
                acc,
                j,
            ) || (j >= k && is_set(s, j))),
    decreases 64 - k,
{
    if k >= 64 {
        lemma_pow2_pos(0);
    } else if is_set(m, k as int) {
        let e = extract(s, m, k);
        let e1 = extract(s, m, k + 1);
        let b: nat = if is_set(s, k as int) {
            1
        } else {
            0
        };
        assert(e == b + 2 * e1);
        assert(e % 2 == b);
        assert(e / 2 == e1);
        let acc1 = if e % 2 == 1 {
            acc | bit(k as int)
        } else {
            acc
        };
        lemma_extract_deposit(s, m, acc1, k + 1);
        lemma_pow2_unfold(cnt_from(m, k + 1) + 1);
        assert(cnt_from(m, k) == cnt_from(m, k + 1) + 1);
        assert(deposit_acc(acc, e, m, k) == deposit_acc(acc1, e1, m, k + 1));
        assert forall|j: int| 0 <= j < 64 implies #[trigger] is_set(deposit_acc(acc, e, m, k), j) == (
        is_set(acc, j) || (j >= k && is_set(s, j))) by {
            assert(is_set(deposit_acc(acc1, e1, m, k + 1), j) == (is_set(acc1, j) || (j >= k + 1 && is_set(s, j))));
            if e % 2 == 1 {
                assert(is_set(acc1, j) == (is_set(acc, j) || is_set(bit(k as int), j)));
            }
        }
    } else {
        lemma_extract_deposit(s, m, acc, k + 1);
        assert(deposit_acc(acc, extract(s, m, k), m, k) == deposit_acc(acc, extract(s, m, k + 1), m, k + 1));
        assert forall|j: int| 0 <= j < 64 implies #[trigger] is_set(deposit_acc(acc, extract(s, m, k), m, k), j) == (
        is_set(acc, j) || (j >= k && is_set(s, j))) by {
            assert(is_set(deposit_acc(acc, extract(s, m, k + 1), m, k + 1), j) == (is_set(acc, j) || (j >= k + 1 && is_set(s, j))));
        }
    }
}

/// Every occupancy of mask `m` is produced by `deposit_acc` from an index below
/// `2^popcount(m)`.
pub proof fn lemma_subset_enumerated(s: u64, m: u64)
    requires
        subset_of(s, m),
    ensures
        extract(s, m, 0) < pow2(popcount(m)),
        deposit_acc(0, extract(s, m, 0), m, 0) == s,
{
    assert forall|j: int| 0 <= j < 64 && is_set(s, j) implies is_set(m, j) by {
        assert(is_set(s & m, j) == (is_set(s, j) && is_set(m, j)));
    }
    lemma_extract_deposit(s, m, 0, 0);
    lemma_bits_ext(deposit_acc(0, extract(s, m, 0), m, 0), s);
}

/// The squares `deposit_acc` adds from index `k` on are squares of `m` from `k` on.
proof fn lemma_deposit_bits(acc: u64, i: nat, m: u64, k: nat)
    ensures
        forall|j: int|
            0 <= j < 64 && #[trigger] is_set(deposit_acc(acc, i, m, k), j) ==> is_set(acc, j) || (j >= k && is_set(
                m,
                j,
            )),
    decreases 64 - k,
{
    if k < 64 {
        if is_set(m, k as int) {
            let acc1 = if i % 2 == 1 {
                acc | bit(k as int)
            } else {
                acc
            };
            lemma_deposit_bits(acc1, i / 2, m, k + 1);
            assert forall|j: int|
                0 <= j < 64 && #[trigger] is_set(deposit_acc(acc, i, m, k), j) implies is_set(acc, j) || (j >= k
                    && is_set(m, j)) by {
                assert(is_set(deposit_acc(acc1, i / 2, m, k + 1), j));
                if i % 2 == 1 {
                    assert(is_set(acc1, j) == (is_set(acc, j) || is_set(bit(k as int), j)));
                }
            }
        } else {
            lemma_deposit_bits(acc, i, m, k + 1);
            assert forall|j: int|
                0 <= j < 64 && #[trigger] is_set(deposit_acc(acc, i, m, k), j) implies is_set(acc, j) || (j >= k
                    && is_set(m, j)) by {
                assert(is_set(deposit_acc(acc, i, m, k + 1), j));
            }
        }
    }
}

/// Every occupancy `deposit_acc` produces from nothing is an occupancy of the mask.
pub proof fn lemma_deposit_subset(i: nat, m: u64)
    ensures
        subset_of(deposit_acc(0, i, m, 0), m),
{
    let s = deposit_acc(0, i, m, 0);
    lemma_deposit_bits(0, i, m, 0);
    assert forall|j: int| 0 <= j < 64 implies is_set(s & m, j) == is_set(s, j) by {
        assert(is_set(s & m, j) == (is_set(s, j) && is_set(m, j)));
        if is_set(s, j) {
            assert(!is_set(0u64, j));
        }
    }
    lemma_bits_ext(s & m, s);
}

/// All occupancies of `mask`: entry `i` takes the `j`-th set square of the mask exactly
/// when bit `j` of `i` is set.
pub fn combinations(mask: u64, n: u8) -> (r: Vec<u64>)
    requires
        n as nat == popcount(mask),
        n <= 12,
    ensures
        r.len() == pow2(n as nat),
        forall|i: int| 0 <= i < r.len() ==> r[i] == deposit_acc(0, i as nat, mask, 0),
{
    proof {
        vstd::bits::lemma_usize_pow2_no_overflow(n as nat);
        vstd::bits::lemma_usize_shl_is_mul(1, n as usize);
    }
    let num: usize = 1usize << (n as usize);
    let mut res: Vec<u64> = Vec::new();
    let mut i: usize = 0;
    while i < num
        invariant
            num == pow2(n as nat),
            i <= num,
            res.len() == i,
            forall|j: int| 0 <= j < i ==> res[j] == deposit_acc(0, j as nat, mask, 0),
        decreases num - i,
    {
        let mut combo: u64 = 0;
        let mut idx: usize = i;
        let mut k: u64 = 0;
        while k < 64
            invariant
                k <= 64,
                deposit_acc(combo, idx as nat, mask, k as nat) == deposit_acc(0, i as nat, mask, 0),
            decreases 64 - k,
        {
            if mask & (1u64 << k) != 0 {
                if idx % 2 == 1 {
                    combo = combo | (1u64 << k);
                }
                idx = idx / 2;
            }
            k = k + 1;
        }
        res.push(combo);
        i = i + 1;
    }
    res
}

/// The multiply-shift table index of occupancy `occ` under `magic` with `n` index bits.
pub open spec fn magic_index(occ: u64, magic: u64, n: u64) -> u64 {
    vstd::wrapping::u64_specs::wrapping_mul(occ, magic) >> ((64 - n) as u64)
}

/// The index stays inside a table of `2^n` entries.
pub proof fn lemma_magic_index_bound(occ: u64, magic: u64, n: u64)
    requires
        1 <= n <= 12,
    ensures
        magic_index(occ, magic, n) < pow2(n as nat),
{
    let y = vstd::wrapping::u64_specs::wrapping_mul(occ, magic);
    assert((y >> ((64 - n) as u64)) < (1u64 << n)) by (bit_vector)
        requires
            1 <= n <= 12;
    vstd::bits::lemma_u64_pow2_no_overflow(n as nat);
    vstd::bits::lemma_u64_shl_is_mul(1, n);
}

/// Exec form of `magic_index`.
pub fn magic_index_exec(occ: u64, magic: u64, n: u8) -> (r: usize)
    requires
        1 <= n <= 12,
    ensures
        r == magic_index(occ, magic, n as u64),
        r < pow2(n as nat),
{
    proof {
        lemma_magic_index_bound(occ, magic, n as u64);
        vstd::arithmetic::power2::lemma2_to64();
        if n < 12 {
            vstd::arithmetic::power2::lemma_pow2_strictly_increases(n as nat, 12);
        }
    }
    let shift: u64 = 64 - (n as u64);
    let h: u64 = occ.wrapping_mul(magic) >> shift;
    h as usize
}

/// A uniformly random 64-bit value from the thread-local generator.
#[verifier::external_body]
pub(crate) fn random_u64() -> u64 {
    rand::random::<u64>()
}

} // verus!
