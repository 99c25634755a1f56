use vstd::prelude::*;

verus! {

/// Two to the power `r`.
pub open spec fn two_to(r: nat) -> nat
    decreases r,
{
    if r == 0 {
        1
    } else {
        2 * two_to((r - 1) as nat)
    }
}

/// The number of candidates considered at the root for `n_legal` legal actions: 16, but
/// no more than there are actions, and at least 2 (or all of them when there are fewer).
pub fn default_top_k(n_legal: usize) -> (r: usize)
    ensures
        r == (if n_legal < 2 {
            n_legal
        } else if n_legal > 16 {
            16
        } else {
            n_legal
        }),
{
    let capped: usize = if n_legal < 16 { n_legal } else { 16 };
    let floor: usize = if n_legal < 2 { n_legal } else { 2 };
    if capped > floor { capped } else { floor }
}

/// The number of sequential-halving rounds for `k` candidates: `ceil(log2(k))`, and at
/// least 1.
pub fn num_rounds(k: usize) -> (r: usize)
    ensures
        r >= 1,
        k <= 1 ==> r == 1,
        k > 1 ==> two_to(r as nat) >= k && two_to((r - 1) as nat) < k,
{
    if k <= 1 {
        return 1;
    }
    let target: u128 = k as u128;
    let mut p: u128 = 1;
    let mut r: usize = 0;
    while p < target
        invariant
            1 < target == k,
            k <= usize::MAX,
            (r as int) < p,
            p == two_to(r as nat),
            r == 0 || two_to((r - 1) as nat) < k,
            p <= 2 * (usize::MAX as int),
        decreases 2 * (usize::MAX as int) - p,
    {
        proof {
            reveal_with_fuel(two_to, 2);
        }
        p = p * 2;
        r = r + 1;
    }
    proof {
        reveal_with_fuel(two_to, 2);
    }
    r
}

/// The visits each surviving candidate gets in a round: `total_sims` shared out over
/// `num_rounds` rounds of `k_round` candidates, rounded down, and at least 1; 1 when
/// either count is 0.
pub fn sims_per_candidate(total_sims: u32, num_rounds: usize, k_round: usize) -> (r: u32)
    requires
        num_rounds * k_round <= usize::MAX,
    ensures
        r == (if num_rounds == 0 || k_round == 0 {
            1
        } else if total_sims as int / (num_rounds * k_round) >= 1 {
            total_sims as int / (num_rounds * k_round)
        } else {
            1
        }),
{
    if num_rounds == 0 || k_round == 0 {
        return 1;
    }
    let d: usize = num_rounds * k_round;
    assert(d >= 1) by (nonlinear_arith)
        requires
            d == num_rounds * k_round,
            num_rounds >= 1,
            k_round >= 1,
    ;
    let per: usize = total_sims as usize / d;
    proof {
        assert(per <= total_sims) by (nonlinear_arith)
            requires
                per as int == total_sims as int / (d as int),
                d >= 1,
                total_sims >= 0,
        ;
    }
    if per >= 1 { per as u32 } else { 1 }
}

} // verus!
