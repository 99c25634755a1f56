use vstd::prelude::*;

verus! {

/// The single-bit mask of square `k`.
pub open spec fn bit(k: int) -> u64 {
    1u64 << (k as u64)
}

/// Whether square `k` is set in bitboard `b`.
pub open spec fn is_set(b: u64, k: int) -> bool {
    b & (1u64 << (k as u64)) != 0
}

pub proof fn lemma_bits_ext(x: u64, y: u64)
    requires
        forall|k: int| 0 <= k < 64 ==> is_set(x, k) == is_set(y, k),
    ensures
        x == y,
{
    assert forall|k: u64| k < 64 implies ((x & (1u64 << k)) != 0) == ((y & (1u64 << k)) != 0) by {
        assert(is_set(x, k as int) == is_set(y, k as int));
    }
    assert(x == y) by (bit_vector)
        requires
            (x & (1u64 << 0u64) != 0) == (y & (1u64 << 0u64) != 0),
            (x & (1u64 << 1u64) != 0) == (y & (1u64 << 1u64) != 0),
            (x & (1u64 << 2u64) != 0) == (y & (1u64 << 2u64) != 0),
            (x & (1u64 << 3u64) != 0) == (y & (1u64 << 3u64) != 0),
            (x & (1u64 << 4u64) != 0) == (y & (1u64 << 4u64) != 0),
            (x & (1u64 << 5u64) != 0) == (y & (1u64 << 5u64) != 0),
            (x & (1u64 << 6u64) != 0) == (y & (1u64 << 6u64) != 0),
            (x & (1u64 << 7u64) != 0) == (y & (1u64 << 7u64) != 0),
            (x & (1u64 << 8u64) != 0) == (y & (1u64 << 8u64) != 0),
            (x & (1u64 << 9u64) != 0) == (y & (1u64 << 9u64) != 0),
            (x & (1u64 << 10u64) != 0) == (y & (1u64 << 10u64) != 0),
            (x & (1u64 << 11u64) != 0) == (y & (1u64 << 11u64) != 0),
            (x & (1u64 << 12u64) != 0) == (y & (1u64 << 12u64) != 0),
            (x & (1u64 << 13u64) != 0) == (y & (1u64 << 13u64) != 0),
            (x & (1u64 << 14u64) != 0) == (y & (1u64 << 14u64) != 0),
            (x & (1u64 << 15u64) != 0) == (y & (1u64 << 15u64) != 0),
            (x & (1u64 << 16u64) != 0) == (y & (1u64 << 16u64) != 0),
            (x & (1u64 << 17u64) != 0) == (y & (1u64 << 17u64) != 0),
            (x & (1u64 << 18u64) != 0) == (y & (1u64 << 18u64) != 0),
            (x & (1u64 << 19u64) != 0) == (y & (1u64 << 19u64) != 0),
            (x & (1u64 << 20u64) != 0) == (y & (1u64 << 20u64) != 0),
            (x & (1u64 << 21u64) != 0) == (y & (1u64 << 21u64) != 0),
            (x & (1u64 << 22u64) != 0) == (y & (1u64 << 22u64) != 0),
            (x & (1u64 << 23u64) != 0) == (y & (1u64 << 23u64) != 0),
            (x & (1u64 << 24u64) != 0) == (y & (1u64 << 24u64) != 0),
            (x & (1u64 << 25u64) != 0) == (y & (1u64 << 25u64) != 0),
            (x & (1u64 << 26u64) != 0) == (y & (1u64 << 26u64) != 0),
            (x & (1u64 << 27u64) != 0) == (y & (1u64 << 27u64) != 0),
            (x & (1u64 << 28u64) != 0) == (y & (1u64 << 28u64) != 0),
            (x & (1u64 << 29u64) != 0) == (y & (1u64 << 29u64) != 0),
            (x & (1u64 << 30u64) != 0) == (y & (1u64 << 30u64) != 0),
            (x & (1u64 << 31u64) != 0) == (y & (1u64 << 31u64) != 0),
            (x & (1u64 << 32u64) != 0) == (y & (1u64 << 32u64) != 0),
            (x & (1u64 << 33u64) != 0) == (y & (1u64 << 33u64) != 0),
            (x & (1u64 << 34u64) != 0) == (y & (1u64 << 34u64) != 0),
            (x & (1u64 << 35u64) != 0) == (y & (1u64 << 35u64) != 0),
            (x & (1u64 << 36u64) != 0) == (y & (1u64 << 36u64) != 0),
            (x & (1u64 << 37u64) != 0) == (y & (1u64 << 37u64) != 0),
            (x & (1u64 << 38u64) != 0) == (y & (1u64 << 38u64) != 0),
            (x & (1u64 << 39u64) != 0) == (y & (1u64 << 39u64) != 0),
            (x & (1u64 << 40u64) != 0) == (y & (1u64 << 40u64) != 0),
            (x & (1u64 << 41u64) != 0) == (y & (1u64 << 41u64) != 0),
            (x & (1u64 << 42u64) != 0) == (y & (1u64 << 42u64) != 0),
            (x & (1u64 << 43u64) != 0) == (y & (1u64 << 43u64) != 0),
            (x & (1u64 << 44u64) != 0) == (y & (1u64 << 44u64) != 0),
            (x & (1u64 << 45u64) != 0) == (y & (1u64 << 45u64) != 0),
            (x & (1u64 << 46u64) != 0) == (y & (1u64 << 46u64) != 0),
            (x & (1u64 << 47u64) != 0) == (y & (1u64 << 47u64) != 0),
            (x & (1u64 << 48u64) != 0) == (y & (1u64 << 48u64) != 0),
            (x & (1u64 << 49u64) != 0) == (y & (1u64 << 49u64) != 0),
            (x & (1u64 << 50u64) != 0) == (y & (1u64 << 50u64) != 0),
            (x & (1u64 << 51u64) != 0) == (y & (1u64 << 51u64) != 0),
            (x & (1u64 << 52u64) != 0) == (y & (1u64 << 52u64) != 0),
            (x & (1u64 << 53u64) != 0) == (y & (1u64 << 53u64) != 0),
            (x & (1u64 << 54u64) != 0) == (y & (1u64 << 54u64) != 0),
            (x & (1u64 << 55u64) != 0) == (y & (1u64 << 55u64) != 0),
            (x & (1u64 << 56u64) != 0) == (y & (1u64 << 56u64) != 0),
            (x & (1u64 << 57u64) != 0) == (y & (1u64 << 57u64) != 0),
            (x & (1u64 << 58u64) != 0) == (y & (1u64 << 58u64) != 0),
            (x & (1u64 << 59u64) != 0) == (y & (1u64 << 59u64) != 0),
            (x & (1u64 << 60u64) != 0) == (y & (1u64 << 60u64) != 0),
            (x & (1u64 << 61u64) != 0) == (y & (1u64 << 61u64) != 0),
            (x & (1u64 << 62u64) != 0) == (y & (1u64 << 62u64) != 0),
            (x & (1u64 << 63u64) != 0) == (y & (1u64 << 63u64) != 0);
}

proof fn bv_bit_facts(x: u64, y: u64, a: u64, k: u64)
    by (bit_vector)
    requires
        a < 64,
        k < 64,
    ensures
        ((x | y) & (1u64 << k) != 0) == ((x & (1u64 << k) != 0) || (y & (1u64 << k) != 0)),
        ((x & y) & (1u64 << k) != 0) == ((x & (1u64 << k) != 0) && (y & (1u64 << k) != 0)),
        ((!x) & (1u64 << k) != 0) == !(x & (1u64 << k) != 0),
        ((x ^ y) & (1u64 << k) != 0) == ((x & (1u64 << k) != 0) != (y & (1u64 << k) != 0)),
        (((1u64 << a) & (1u64 << k)) != 0) == (a == k),
        (0u64 & (1u64 << k)) == 0,
{
}

pub broadcast proof fn lemma_is_set_or(x: u64, y: u64, k: int)
    requires
        0 <= k < 64,
    ensures
        #[trigger] is_set(x | y, k) == (is_set(x, k) || is_set(y, k)),
{
    bv_bit_facts(x, y, 0, k as u64);
}

pub broadcast proof fn lemma_is_set_and(x: u64, y: u64, k: int)
    requires
        0 <= k < 64,
    ensures
        #[trigger] is_set(x & y, k) == (is_set(x, k) && is_set(y, k)),
{
    bv_bit_facts(x, y, 0, k as u64);
}

pub broadcast proof fn lemma_is_set_not(x: u64, k: int)
    requires
        0 <= k < 64,
    ensures
        #[trigger] is_set(!x, k) == !is_set(x, k),
{
    bv_bit_facts(x, 0, 0, k as u64);
}

pub broadcast proof fn lemma_is_set_xor(x: u64, y: u64, k: int)
    requires
        0 <= k < 64,
    ensures
        #[trigger] is_set(x ^ y, k) == (is_set(x, k) != is_set(y, k)),
{
    bv_bit_facts(x, y, 0, k as u64);
}

pub broadcast proof fn lemma_is_set_bit(a: int, k: int)
    requires
        0 <= a < 64,
        0 <= k < 64,
    ensures
        #[trigger] is_set(bit(a), k) == (a == k),
{
    bv_bit_facts(0, 0, a as u64, k as u64);
}

pub broadcast proof fn lemma_is_set_zero(k: int)
    requires
        0 <= k < 64,
    ensures
        !(#[trigger] is_set(0u64, k)),
{
    bv_bit_facts(0, 0, 0, k as u64);
}

pub broadcast group group_bits {
    lemma_is_set_or,
    lemma_is_set_and,
    lemma_is_set_not,
    lemma_is_set_xor,
    lemma_is_set_bit,
    lemma_is_set_zero,
}


/// Index of the lowest set square of a nonzero bitboard.
pub open spec fn lowest(b: u64) -> int {
    vstd::std_specs::bits::u64_trailing_zeros(b) as int
}

/// The bitboard with its lowest set square removed.
pub open spec fn clear_lowest(b: u64) -> u64 {
    b & ((b - 1) as u64)
}

proof fn bv_lowest_facts(b: u64, k: u64, t: u64)
    by (bit_vector)
    requires
        b != 0,
        k < 64,
        t < 64,
        b & (1u64 << t) != 0,
        b << ((64 - t) as u64) == 0,
    ensures
        ((b & ((b - 1) as u64)) & (1u64 << k) != 0) == ((b & (1u64 << k) != 0) && k != t),
        k < t ==> (b & (1u64 << k)) == 0,
        b & ((b - 1) as u64) < b,
{
}

/// Facts about the lowest set square of a nonzero bitboard and its removal.
pub proof fn lemma_lowest(b: u64)
    requires
        b != 0,
    ensures
        0 <= lowest(b) < 64,
        is_set(b, lowest(b)),
        forall|k: int| 0 <= k < lowest(b) ==> !is_set(b, k),
        forall|k: int| 0 <= k < 64 ==> #[trigger] is_set(clear_lowest(b), k) == (is_set(b, k) && k != lowest(b)),
        clear_lowest(b) < b,
{
    vstd::std_specs::bits::axiom_u64_trailing_zeros(b);
    let t = vstd::std_specs::bits::u64_trailing_zeros(b) as u64;
    assert(b << ((64 - t) as u64) == 0);
    assert(b & (1u64 << t) != 0) by (bit_vector)
        requires
            t < 64,
            (b >> t) & 1u64 == 1u64;
    bv_lowest_facts(b, 0, t);
    assert forall|k: int| 0 <= k < lowest(b) implies !is_set(b, k) by {
        bv_lowest_facts(b, k as u64, t);
    }
    assert forall|k: int| 0 <= k < 64 implies #[trigger] is_set(clear_lowest(b), k) == (is_set(b, k) && k != lowest(b)) by {
        bv_lowest_facts(b, k as u64, t);
    }
}

/// The set squares of `b`, lowest first.
pub open spec fn squares_of(b: u64) -> Seq<int>
    decreases b,
{
    if b == 0 {
        Seq::empty()
    } else {
        proof {
            lemma_lowest(b);
        }
        seq![lowest(b)] + squares_of(clear_lowest(b))
    }
}

/// The squares of `squares_of(b)` are exactly the set squares of `b`, each once, in
/// increasing order.
pub proof fn lemma_squares_of(b: u64)
    ensures
        forall|i: int| 0 <= i < squares_of(b).len() ==> 0 <= #[trigger] squares_of(b)[i] < 64 && is_set(b, squares_of(b)[i]),
        forall|i: int, j: int| 0 <= i < j < squares_of(b).len() ==> squares_of(b)[i] < squares_of(b)[j],
        forall|k: int| 0 <= k < 64 && is_set(b, k) ==> #[trigger] squares_of(b).contains(k),
        b == 0 <==> squares_of(b).len() == 0,
    decreases b,
{
    if b != 0 {
        lemma_lowest(b);
        let c = clear_lowest(b);
        lemma_squares_of(c);
        let s = squares_of(b);
        assert(s == seq![lowest(b)] + squares_of(c));
        assert forall|i: int| 0 <= i < s.len() implies 0 <= #[trigger] s[i] < 64 && is_set(b, s[i]) by {
            if i > 0 {
                assert(s[i] == squares_of(c)[i - 1]);
            }
        }
        assert forall|i: int, j: int| 0 <= i < j < s.len() implies s[i] < s[j] by {
            assert(s[j] == squares_of(c)[j - 1]);
            assert(is_set(c, s[j]));
            if i > 0 {
                assert(s[i] == squares_of(c)[i - 1]);
            } else {
                assert(s[j] != lowest(b));
                if s[j] < lowest(b) {
                    assert(!is_set(b, s[j]));
                }
            }
        }
        assert forall|k: int| 0 <= k < 64 && is_set(b, k) implies #[trigger] s.contains(k) by {
            if k == lowest(b) {
                assert(s[0] == k);
            } else {
                assert(is_set(c, k));
                assert(squares_of(c).contains(k));
                let i = choose|i: int| 0 <= i < squares_of(c).len() && squares_of(c)[i] == k;
                assert(s[i + 1] == squares_of(c)[i]);
            }
        }
    } else {
        assert forall|k: int| 0 <= k < 64 && is_set(b, k) implies #[trigger] squares_of(b).contains(k) by {
            lemma_is_set_zero(k);
        }
    }
}

/// Taking the next square off a bitboard moves it from the squares still to come to
/// those done.
pub proof fn lemma_squares_step(b: u64, all: Seq<int>, i: int)
    requires
        b != 0,
        0 <= i <= all.len(),
        squares_of(b) == all.skip(i),
    ensures
        i < all.len(),
        all[i] == lowest(b),
        squares_of(clear_lowest(b)) == all.skip(i + 1),
{
    lemma_lowest(b);
    assert(squares_of(b) == seq![lowest(b)] + squares_of(clear_lowest(b)));
    assert(all.skip(i)[0] == lowest(b));
    assert(all.skip(i + 1) =~= all.skip(i).skip(1));
    assert(squares_of(b).skip(1) =~= squares_of(clear_lowest(b)));
}
} // verus!
