use vstd::prelude::*;
use vstd::arithmetic::power2::pow2;
use crate::bits::{bit, is_set, group_bits, lemma_bits_ext};
use crate::geometry::{
    on_board, rank_of, file_of, ray, ray_exec, bishop_attacks, in_bishop_mask, ray_agree,
    lemma_ray_agree, lemma_ray_first, lemma_coords,
};
use crate::magic::{
    popcount, cnt_from, subset_of, lemma_cnt_insert, lemma_cnt_bound, deposit_acc,
    lemma_subset_enumerated, combinations, magic_index, magic_index_exec, random_u64, count_ones,
    lemma_deposit_subset,
};
use crate::{Color, PieceType};
use super::Piece;

verus! {

broadcast use group_bits;

pub struct Bishop {
    pub color: Color,
}

impl Piece for Bishop {
    fn get_piece_type(&self) -> (r: PieceType)
        ensures
            r == PieceType::Bishop,
    {
        PieceType::Bishop
    }

    fn get_color(&self) -> (r: Color)
        ensures
            r == self.color,
    {
        self.color
    }
}

/// Whether magic number `magic` with `n` index bits never sends two occupancies of `mask`
/// with different bishop moves from `pos` to the same slot.
pub open spec fn bishop_magic_ok(pos: int, mask: u64, magic: u64, n: u64) -> bool {
    forall|s1: u64, s2: u64|
        #![trigger magic_index(s1, magic, n), magic_index(s2, magic, n)]
        subset_of(s1, mask) && subset_of(s2, mask) && magic_index(s1, magic, n) == magic_index(s2, magic, n)
            ==> bishop_attacks(pos, s1) == bishop_attacks(pos, s2)
}

/// Whether `t` is the table of `magic` for square `pos`: `2^n` slots, each occupancy of
/// `mask` finding its bishop moves in its slot, and every slot that no occupancy reaches 0.
pub open spec fn bishop_table_for(pos: int, mask: u64, magic: u64, n: u64, t: Seq<u64>) -> bool {
    &&& t.len() == pow2(n as nat)
    &&& forall|s: u64| #![trigger subset_of(s, mask)] subset_of(s, mask) ==> t[magic_index(s, magic, n) as int] == bishop_attacks(pos, s)
    &&& forall|k: int| 0 <= k < t.len() && t[k] != 0 ==> exists|s: u64| subset_of(s, mask) && #[trigger] magic_index(s, magic, n) == k
}

/// The magic-bitboard lookup table of bishop moves from one square.
#[derive(Debug)]
pub struct BishopEntry {
    pub mask: u64,
    pub magic_num: u64,
    pub sig_bits: u8,
    pub magic_table: Vec<u64>,
    pub pos: u8,
}

/// Whether `mask` is exactly the bishop relevance mask of `pos`.
pub open spec fn is_bishop_mask(pos: int, mask: u64) -> bool {
    forall|k: int| 0 <= k < 64 ==> #[trigger] is_set(mask, k) == in_bishop_mask(pos, k)
}

/// Whether a ray from `(r, c)` by `(dr, dc)` moves away from `(pr, pc)` along a bishop diagonal.
pub open spec fn bishop_ray_ok(pr: int, pc: int, r: int, c: int, dr: int, dc: int) -> bool {
    ||| (dr == 1 && dc == 1 && r - pr == c - pc && r >= pr)
    ||| (dr == 1 && dc == -1 && r - pr == pc - c && r >= pr)
    ||| (dr == -1 && dc == 1 && pr - r == c - pc && r <= pr)
    ||| (dr == -1 && dc == -1 && pr - r == pc - c && r <= pr)
}

proof fn lemma_bishop_ray_masked(pos: int, mask: u64, occ: u64, r: int, c: int, dr: int, dc: int, n: nat)
    requires
        0 <= pos < 64,
        is_bishop_mask(pos, mask),
        on_board(r, c),
        bishop_ray_ok(rank_of(pos), file_of(pos), r, c, dr, dc),
    ensures
        ray_agree(r, c, dr, dc, occ, mask & occ, n),
    decreases n,
{
    if n > 0 && on_board(r + dr, c + dc) {
        lemma_bishop_ray_masked(pos, mask, occ, r + dr, c + dc, dr, dc, (n - 1) as nat);
        if n >= 2 && on_board(r + 2 * dr, c + 2 * dc) {
            let k = (r + dr) * 8 + c + dc;
            lemma_coords(r + dr, c + dc);
            assert(in_bishop_mask(pos, k));
            assert(is_set(mask & occ, k) == (is_set(mask, k) && is_set(occ, k)));
        }
    }
}

/// A bishop's reach depends only on the occupancy of its relevance mask.
pub proof fn lemma_bishop_attacks_masked(pos: int, mask: u64, occ: u64)
    requires
        0 <= pos < 64,
        is_bishop_mask(pos, mask),
    ensures
        bishop_attacks(pos, occ) == bishop_attacks(pos, mask & occ),
{
    let r = rank_of(pos);
    let c = file_of(pos);
    lemma_bishop_ray_masked(pos, mask, occ, r, c, 1, 1, 7);
    lemma_bishop_ray_masked(pos, mask, occ, r, c, 1, -1, 7);
    lemma_bishop_ray_masked(pos, mask, occ, r, c, -1, 1, 7);
    lemma_bishop_ray_masked(pos, mask, occ, r, c, -1, -1, 7);
    lemma_ray_agree(r, c, 1, 1, occ, mask & occ, 7);
    lemma_ray_agree(r, c, 1, -1, occ, mask & occ, 7);
    lemma_ray_agree(r, c, -1, 1, occ, mask & occ, 7);
    lemma_ray_agree(r, c, -1, -1, occ, mask & occ, 7);
}

/// A bishop always reaches at least one square.
pub proof fn lemma_bishop_attacks_nonzero(pos: int, occ: u64)
    requires
        0 <= pos < 64,
    ensures
        bishop_attacks(pos, occ) != 0,
{
    let r = rank_of(pos);
    let c = file_of(pos);
    let a = ray(r, c, 1, 1, occ, 7);
    let b = ray(r, c, 1, -1, occ, 7);
    let x = ray(r, c, -1, 1, occ, 7);
    let y = ray(r, c, -1, -1, occ, 7);
    let dr: int = if r < 7 { 1 } else { -1 };
    let dc: int = if c < 7 { 1 } else { -1 };
    lemma_ray_first(r, c, dr, dc, occ, 7);
    lemma_coords(r + dr, c + dc);
    assert(is_set(a | b | x | y, (r + dr) * 8 + c + dc));
}

impl BishopEntry {
    /// The entry is complete: its mask, index width and table give the bishop's reach
    /// from `pos` for every occupancy of the mask.
    pub open spec fn wf(self) -> bool {
        &&& self.pos < 64
        &&& is_bishop_mask(self.pos as int, self.mask)
        &&& self.sig_bits == popcount(self.mask)
        &&& 1 <= self.sig_bits <= 12
        &&& self.magic_table@.len() == pow2(self.sig_bits as nat)
        &&& forall|s: u64|
            #![trigger subset_of(s, self.mask)]
            subset_of(s, self.mask) ==> self.magic_table@[magic_index(
                s,
                self.magic_num,
                self.sig_bits as u64,
            ) as int] == bishop_attacks(self.pos as int, s)
    }

    /// Builds the entry of square `pos`: its mask, then a magic number found by random
    /// search. `None` only if every one of `u64::MAX` random candidates failed.
    pub fn init_bishop(pos: u8) -> (r: Option<Self>)
        requires
            pos < 64,
        ensures
            r matches Some(e) ==> e.wf() && e.pos == pos,
            r matches Some(e) ==> bishop_magic_ok(pos as int, e.mask, e.magic_num, e.sig_bits as u64)
                && bishop_table_for(pos as int, e.mask, e.magic_num, e.sig_bits as u64, e.magic_table@),
    {
        let mut entry = BishopEntry { mask: 0, magic_num: 0, sig_bits: 0, magic_table: Vec::new(), pos: pos };
        entry.mask = entry.calculate_mask(pos);
        entry.sig_bits = count_ones(entry.mask) as u8;
        if entry.calculate_magic_num() {
            Some(entry)
        } else {
            None
        }
    }

    /// The relevance mask of `pos`: its diagonals without edge squares and without
    /// `pos` itself.
    pub fn calculate_mask(&self, pos: u8) -> (mask: u64)
        requires
            pos < 64,
        ensures
            is_bishop_mask(pos as int, mask),
            1 <= popcount(mask) <= 12,
    {
        let mut mask = 0u64;
        let r = (pos / 8) as i32;
        let c = (pos % 8) as i32;
        let ghost p = pos as int;
        assert(rank_of(p) == r && file_of(p) == c);
        assert(popcount(0u64) == 0) by {
            lemma_cnt_zero(0);
        }
        // Up-right.
        let mut nr = r + 1;
        let mut nc = c + 1;
        while nr > 0 && nr < 7 && nc > 0 && nc < 7
            invariant
                0 <= r < 8,
                0 <= c < 8,
                rank_of(p) == r,
                file_of(p) == c,
                nr - r == nc - c,
                r + 1 <= nr <= 7 || nr == r + 1,
                forall|k: int|
                    0 <= k < 64 ==> #[trigger] is_set(mask, k) == (rank_of(k) - r == file_of(k) - c && r + 1
                        <= rank_of(k) < nr && 1 <= rank_of(k) <= 6 && 1 <= file_of(k) <= 6),
                popcount(mask) == nr - (r + 1),
            decreases 7 - nr,
        {
            proof {
                lemma_coords(nr as int, nc as int);
                lemma_cnt_insert(mask, (nr * 8 + nc) as int, 0);
            }
            mask |= 1u64 << ((nr * 8 + nc) as u64);
            nr += 1;
            nc += 1;
        }
        let ghost c1 = popcount(mask);
        // Up-left.
        let mut nr = r + 1;
        let mut nc = c - 1;
        while nr > 0 && nr < 7 && nc > 0 && nc < 7
            invariant
                0 <= r < 8,
                0 <= c < 8,
                rank_of(p) == r,
                file_of(p) == c,
                nr - r == c - nc,
                r + 1 <= nr <= 7 || nr == r + 1,
                forall|k: int|
                    0 <= k < 64 ==> #[trigger] is_set(mask, k) == ((rank_of(k) - r == file_of(k) - c && r + 1
                        <= rank_of(k) && 1 <= rank_of(k) <= 6 && 1 <= file_of(k) <= 6) || (rank_of(k) - r == c
                        - file_of(k) && r + 1 <= rank_of(k) < nr && 1 <= rank_of(k) <= 6 && 1 <= file_of(k)
                        <= 6)),
                popcount(mask) == c1 + nr - (r + 1),
                c1 <= if r < 7 { 6 - r } else { 0 },
                (r <= 5 && c <= 5) ==> c1 >= 1,
            decreases 7 - nr,
        {
            proof {
                lemma_coords(nr as int, nc as int);
                lemma_cnt_insert(mask, (nr * 8 + nc) as int, 0);
            }
            mask |= 1u64 << ((nr * 8 + nc) as u64);
            nr += 1;
            nc -= 1;
        }
        let ghost c2 = popcount(mask) - c1;
        // Down-right.
        let mut nr = r - 1;
        let mut nc = c + 1;
        while nr > 0 && nr < 7 && nc > 0 && nc < 7
            invariant
                0 <= r < 8,
                0 <= c < 8,
                rank_of(p) == r,
                file_of(p) == c,
                r - nr == nc - c,
                0 <= nr <= r - 1 || nr == r - 1,
                forall|k: int|
                    0 <= k < 64 ==> #[trigger] is_set(mask, k) == ((rank_of(k) - r == file_of(k) - c && r + 1
                        <= rank_of(k) && 1 <= rank_of(k) <= 6 && 1 <= file_of(k) <= 6) || (rank_of(k) - r == c
                        - file_of(k) && r + 1 <= rank_of(k) && 1 <= rank_of(k) <= 6 && 1 <= file_of(k) <= 6) || (r
                        - rank_of(k) == file_of(k) - c && nr < rank_of(k) <= r - 1 && 1 <= rank_of(k) <= 6 && 1
                        <= file_of(k) <= 6)),
                popcount(mask) == c1 + c2 + (r - 1) - nr,
                c1 <= if r < 7 { 6 - r } else { 0 },
                c2 <= if r < 7 { 6 - r } else { 0 },
                (r <= 5 && c <= 5) ==> c1 >= 1,
                (r <= 5 && c >= 2) ==> c2 >= 1,
            decreases nr,
        {
            proof {
                lemma_coords(nr as int, nc as int);
                lemma_cnt_insert(mask, (nr * 8 + nc) as int, 0);
            }
            mask |= 1u64 << ((nr * 8 + nc) as u64);
            nr -= 1;
            nc += 1;
        }
        let ghost c3 = popcount(mask) - c1 - c2;
        // Down-left.
        let mut nr = r - 1;
        let mut nc = c - 1;
        while nr > 0 && nr < 7 && nc > 0 && nc < 7
            invariant
                0 <= r < 8,
                0 <= c < 8,
                rank_of(p) == r,
                file_of(p) == c,
                r - nr == c - nc,
                0 <= nr <= r - 1 || nr == r - 1,
                forall|k: int|
                    0 <= k < 64 ==> #[trigger] is_set(mask, k) == ((rank_of(k) - r == file_of(k) - c && r + 1
                        <= rank_of(k) && 1 <= rank_of(k) <= 6 && 1 <= file_of(k) <= 6) || (rank_of(k) - r == c
                        - file_of(k) && r + 1 <= rank_of(k) && 1 <= rank_of(k) <= 6 && 1 <= file_of(k) <= 6) || (r
                        - rank_of(k) == file_of(k) - c && rank_of(k) <= r - 1 && 1 <= rank_of(k) <= 6 && 1
                        <= file_of(k) <= 6) || (r - rank_of(k) == c - file_of(k) && nr < rank_of(k) <= r - 1 && 1
                        <= rank_of(k) <= 6 && 1 <= file_of(k) <= 6)),
                popcount(mask) == c1 + c2 + c3 + (r - 1) - nr,
                c1 <= if r < 7 { 6 - r } else { 0 },
                c2 <= if r < 7 { 6 - r } else { 0 },
                c3 <= if r > 0 { r - 1 } else { 0 },
                (r <= 5 && c <= 5) ==> c1 >= 1,
                (r <= 5 && c >= 2) ==> c2 >= 1,
                (r >= 2 && c <= 5) ==> c3 >= 1,
            decreases nr,
        {
            proof {
                lemma_coords(nr as int, nc as int);
                lemma_cnt_insert(mask, (nr * 8 + nc) as int, 0);
            }
            mask |= 1u64 << ((nr * 8 + nc) as u64);
            nr -= 1;
            nc -= 1;
        }
        mask
    }

    /// Fills the table of this entry's square for magic number `candidate`, given every
    /// occupancy of the mask (`combinations`) and the moves for each (`real_moves`):
    /// `None` when two occupancies with different moves meet in one slot (see
    /// `bishop_magic_ok`), otherwise the table (see `bishop_table_for`).
    fn fill_table(&self, candidate: u64, combinations: &Vec<u64>, real_moves: &Vec<u64>) -> (r: Option<Vec<u64>>)
        requires
            self.pos < 64,
            is_bishop_mask(self.pos as int, self.mask),
            self.sig_bits == popcount(self.mask),
            1 <= self.sig_bits <= 12,
            combinations.len() == pow2(self.sig_bits as nat),
            real_moves.len() == pow2(self.sig_bits as nat),
            forall|j: int| 0 <= j < combinations.len() ==> combinations[j] == deposit_acc(0, j as nat, self.mask, 0),
            forall|j: int| 0 <= j < real_moves.len() ==> real_moves[j] == bishop_attacks(self.pos as int, combinations[j]),
        ensures
            (r is Some) == bishop_magic_ok(self.pos as int, self.mask, candidate, self.sig_bits as u64),
            r matches Some(t) ==> bishop_table_for(self.pos as int, self.mask, candidate, self.sig_bits as u64, t@),
    {
        let n = self.sig_bits;
        let num_var = combinations.len();
        let mut test_vec: Vec<u64> = vec![0u64; num_var];
        proof {
            assert forall|x: u64| #[trigger] magic_index(x, candidate, n as u64) < num_var by {
                crate::magic::lemma_magic_index_bound(x, candidate, n as u64);
            }
        }
        let mut i: usize = 0;
        while i < num_var
            invariant
                self.pos < 64,
                1 <= n <= 12,
                n == self.sig_bits,
                num_var == pow2(n as nat),
                combinations.len() == num_var,
                real_moves.len() == num_var,
                test_vec.len() == num_var,
                i <= num_var,
                forall|x: u64| #[trigger] magic_index(x, candidate, n as u64) < num_var,
                forall|j: int| 0 <= j < num_var ==> combinations[j] == deposit_acc(0, j as nat, self.mask, 0),
                forall|j: int| 0 <= j < num_var ==> real_moves[j] == bishop_attacks(self.pos as int, combinations[j]),
                forall|j: int|
                    0 <= j < i ==> test_vec[magic_index(combinations[j], candidate, n as u64) as int] == real_moves[j],
                forall|k: int|
                    0 <= k < num_var && test_vec[k] != 0 ==> exists|j: int|
                        0 <= j < i && #[trigger] magic_index(combinations[j], candidate, n as u64) == k,
            decreases num_var - i,
        {
            let ind = magic_index_exec(combinations[i], candidate, n);
            if test_vec[ind] == 0 {
                proof {
                    assert forall|j: int| 0 <= j < i implies magic_index(combinations[j], candidate, n as u64) != ind by {
                        lemma_bishop_attacks_nonzero(self.pos as int, combinations[j]);
                        assert(test_vec[magic_index(combinations[j], candidate, n as u64) as int] == real_moves[j]);
                    }
                }
                let ghost old_vec = test_vec@;
                test_vec.set(ind, real_moves[i]);
                proof {
                    lemma_bishop_attacks_nonzero(self.pos as int, combinations[i as int]);
                    assert forall|k: int|
                        0 <= k < num_var && test_vec[k] != 0 implies exists|j: int|
                            0 <= j < i + 1 && #[trigger] magic_index(combinations[j], candidate, n as u64) == k by {
                        if k == ind {
                            assert(magic_index(combinations[i as int], candidate, n as u64) == k);
                        } else {
                            assert(old_vec[k] != 0);
                        }
                    }
                }
            } else if test_vec[ind] != real_moves[i] {
                proof {
                    let j = choose|j: int| 0 <= j < i && #[trigger] magic_index(combinations[j], candidate, n as u64) == ind;
                    lemma_deposit_subset(j as nat, self.mask);
                    lemma_deposit_subset(i as nat, self.mask);
                    let s1 = combinations[j];
                    let s2 = combinations[i as int];
                    assert(test_vec[ind as int] == real_moves[j]);
                    if bishop_magic_ok(self.pos as int, self.mask, candidate, n as u64) {
                        assert(subset_of(s1, self.mask) && subset_of(s2, self.mask));
                        assert(magic_index(s1, candidate, n as u64) == magic_index(s2, candidate, n as u64));
                        assert(bishop_attacks(self.pos as int, s1) == bishop_attacks(self.pos as int, s2));
                    }
                }
                return None;
            }
            i += 1;
        }
        proof {
            assert forall|s: u64| #![trigger subset_of(s, self.mask)] subset_of(s, self.mask) implies test_vec@[magic_index(
                s,
                candidate,
                n as u64,
            ) as int] == bishop_attacks(self.pos as int, s) by {
                lemma_subset_enumerated(s, self.mask);
                let j = crate::magic::extract(s, self.mask, 0) as int;
                assert(combinations[j] == s);
                assert(test_vec[magic_index(combinations[j], candidate, n as u64) as int] == real_moves[j]);
            }
            assert forall|s1: u64, s2: u64|
                subset_of(s1, self.mask) && subset_of(s2, self.mask) && magic_index(s1, candidate, n as u64)
                    == magic_index(s2, candidate, n as u64) implies bishop_attacks(self.pos as int, s1) == bishop_attacks(
                self.pos as int,
                s2,
            ) by {
                assert(test_vec@[magic_index(s1, candidate, n as u64) as int] == bishop_attacks(self.pos as int, s1));
                assert(test_vec@[magic_index(s2, candidate, n as u64) as int] == bishop_attacks(self.pos as int, s2));
            }
            assert forall|k: int| 0 <= k < test_vec@.len() && test_vec@[k] != 0 implies exists|s: u64|
                subset_of(s, self.mask) && #[trigger] magic_index(s, candidate, n as u64) == k by {
                let j = choose|j: int| 0 <= j < i && #[trigger] magic_index(combinations[j], candidate, n as u64) == k;
                lemma_deposit_subset(j as nat, self.mask);
                assert(subset_of(combinations[j], self.mask) && magic_index(combinations[j], candidate, n as u64) == k);
            }
        }
        Some(test_vec)
    }

    /// The table of this entry's square for magic number `candidate`: `None` when two
    /// occupancies of the mask with different bishop moves share a slot, otherwise the table
    /// with each occupancy's moves in its slot and 0 in slots no occupancy reaches.
    pub fn try_magic_num(&self, candidate: u64) -> (r: Option<Vec<u64>>)
        requires
            self.pos < 64,
            is_bishop_mask(self.pos as int, self.mask),
            self.sig_bits == popcount(self.mask),
            1 <= self.sig_bits <= 12,
        ensures
            (r is Some) == bishop_magic_ok(self.pos as int, self.mask, candidate, self.sig_bits as u64),
            r matches Some(t) ==> bishop_table_for(self.pos as int, self.mask, candidate, self.sig_bits as u64, t@),
    {
        let combinations = self.generate_combinations();
        let mut real_moves: Vec<u64> = Vec::new();
        let mut i: usize = 0;
        while i < combinations.len()
            invariant
                self.pos < 64,
                real_moves.len() == i,
                i <= combinations.len(),
                forall|j: int| 0 <= j < i ==> real_moves[j] == bishop_attacks(self.pos as int, combinations[j]),
            decreases combinations.len() - i,
        {
            real_moves.push(self.get_moves(combinations[i]));
            i += 1;
        }
        self.fill_table(candidate, &combinations, &real_moves)
    }

    /// Searches random sparse candidates for a magic number whose table works (see
    /// `bishop_magic_ok`) and stores it with its table; returns whether one was found. It is
    /// not found only after `u64::MAX` failed candidates, and then the entry is unchanged.
    pub fn calculate_magic_num(&mut self) -> (found: bool)
        requires
            old(self).pos < 64,
            is_bishop_mask(old(self).pos as int, old(self).mask),
            old(self).sig_bits == popcount(old(self).mask),
            1 <= old(self).sig_bits <= 12,
        ensures
            final(self).pos == old(self).pos,
            final(self).mask == old(self).mask,
            final(self).sig_bits == old(self).sig_bits,
            found ==> final(self).wf(),
            found ==> bishop_magic_ok(
                final(self).pos as int,
                final(self).mask,
                final(self).magic_num,
                final(self).sig_bits as u64,
            ),
            found ==> bishop_table_for(
                final(self).pos as int,
                final(self).mask,
                final(self).magic_num,
                final(self).sig_bits as u64,
                final(self).magic_table@,
            ),
            !found ==> *final(self) == *old(self),
    {
        let combinations = self.generate_combinations();
        let mut real_moves: Vec<u64> = Vec::new();
        let mut i: usize = 0;
        while i < combinations.len()
            invariant
                self.pos < 64,
                real_moves.len() == i,
                i <= combinations.len(),
                forall|j: int| 0 <= j < i ==> real_moves[j] == bishop_attacks(self.pos as int, combinations[j]),
            decreases combinations.len() - i,
        {
            real_moves.push(self.get_moves(combinations[i]));
            i += 1;
        }
        let mut attempts: u64 = 0;
        while attempts < u64::MAX
            invariant
                *self == *old(self),
                self.pos < 64,
                is_bishop_mask(self.pos as int, self.mask),
                self.sig_bits == popcount(self.mask),
                1 <= self.sig_bits <= 12,
                combinations.len() == pow2(self.sig_bits as nat),
                real_moves.len() == pow2(self.sig_bits as nat),
                forall|j: int| 0 <= j < combinations.len() ==> combinations[j] == deposit_acc(0, j as nat, self.mask, 0),
                forall|j: int| 0 <= j < real_moves.len() ==> real_moves[j] == bishop_attacks(self.pos as int, combinations[j]),
            decreases u64::MAX - attempts,
        {
            let candidates = random_u64() & random_u64() & random_u64();
            match self.fill_table(candidates, &combinations, &real_moves) {
                Some(table) => {
                    self.magic_num = candidates;
                    self.magic_table = table;
                    return true;
                },
                None => {},
            }
            attempts += 1;
        }
        false
    }

    /// All occupancies of the mask that the first `sig_bits` mask squares can form:
    /// entry `i` takes the `j`-th mask square exactly when bit `j` of `i` is set.
    pub fn generate_combinations(&self) -> (r: Vec<u64>)
        requires
            self.sig_bits == popcount(self.mask),
            self.sig_bits <= 12,
        ensures
            r.len() == pow2(self.sig_bits as nat),
            forall|i: int| 0 <= i < r.len() ==> r[i] == deposit_acc(0, i as nat, self.mask, 0),
    {
        combinations(self.mask, self.sig_bits)
    }

    /// Squares a bishop on this entry's square reaches when `occupied` is the board.
    fn get_moves(&self, occupied: u64) -> (moves: u64)
        requires
            self.pos < 64,
        ensures
            moves == bishop_attacks(self.pos as int, occupied),
    {
        let r = (self.pos / 8) as i32;
        let c = (self.pos % 8) as i32;
        ray_exec(r, c, 1, 1, occupied, 7) | ray_exec(r, c, 1, -1, occupied, 7) | ray_exec(r, c, -1, 1, occupied, 7)
            | ray_exec(r, c, -1, -1, occupied, 7)
    }
}

proof fn lemma_cnt_zero(k: nat)
    ensures
        cnt_from(0u64, k) == 0,
    decreases 64 - k,
{
    if k < 64 {
        lemma_cnt_zero(k + 1);
    }
}

} // verus!
