use vstd::prelude::*;


verus! {

/// A 64-bit set of squares: bit `k` stands for square `k` (a1 = 0, h8 = 63).
pub type Bitboard = u64;

/// The 64 squares of the board, rank by rank from a1.
#[derive(Debug, Clone, Copy, PartialEq, Eq, Structural)]
pub enum Square {
    A1, B1, C1, D1, E1, F1, G1, H1,
    A2, B2, C2, D2, E2, F2, G2, H2,
    A3, B3, C3, D3, E3, F3, G3, H3,
    A4, B4, C4, D4, E4, F4, G4, H4,
    A5, B5, C5, D5, E5, F5, G5, H5,
    A6, B6, C6, D6, E6, F6, G6, H6,
    A7, B7, C7, D7, E7, F7, G7, H7,
    A8, B8, C8, D8, E8, F8, G8, H8
}

impl Square {
    /// The square's index, `rank * 8 + file`.
    #[verifier::opaque]
    pub open spec fn idx(self) -> int {
        match self {
            Square::A1 => 0,
            Square::B1 => 1,
            Square::C1 => 2,
            Square::D1 => 3,
            Square::E1 => 4,
            Square::F1 => 5,
            Square::G1 => 6,
            Square::H1 => 7,
            Square::A2 => 8,
            Square::B2 => 9,
            Square::C2 => 10,
            Square::D2 => 11,
            Square::E2 => 12,
            Square::F2 => 13,
            Square::G2 => 14,
            Square::H2 => 15,
            Square::A3 => 16,
            Square::B3 => 17,
            Square::C3 => 18,
            Square::D3 => 19,
            Square::E3 => 20,
            Square::F3 => 21,
            Square::G3 => 22,
            Square::H3 => 23,
            Square::A4 => 24,
            Square::B4 => 25,
            Square::C4 => 26,
            Square::D4 => 27,
            Square::E4 => 28,
            Square::F4 => 29,
            Square::G4 => 30,
            Square::H4 => 31,
            Square::A5 => 32,
            Square::B5 => 33,
            Square::C5 => 34,
            Square::D5 => 35,
            Square::E5 => 36,
            Square::F5 => 37,
            Square::G5 => 38,
            Square::H5 => 39,
            Square::A6 => 40,
            Square::B6 => 41,
            Square::C6 => 42,
            Square::D6 => 43,
            Square::E6 => 44,
            Square::F6 => 45,
            Square::G6 => 46,
            Square::H6 => 47,
            Square::A7 => 48,
            Square::B7 => 49,
            Square::C7 => 50,
            Square::D7 => 51,
            Square::E7 => 52,
            Square::F7 => 53,
            Square::G7 => 54,
            Square::H7 => 55,
            Square::A8 => 56,
            Square::B8 => 57,
            Square::C8 => 58,
            Square::D8 => 59,
            Square::E8 => 60,
            Square::F8 => 61,
            Square::G8 => 62,
            Square::H8 => 63,
        }
    }

    /// The square with index `i` (meaningful for `0 <= i < 64`).
    #[verifier::opaque]
    pub open spec fn at(i: int) -> Square {
        match i as u8 {
            0u8 => Square::A1,
            1u8 => Square::B1,
            2u8 => Square::C1,
            3u8 => Square::D1,
            4u8 => Square::E1,
            5u8 => Square::F1,
            6u8 => Square::G1,
            7u8 => Square::H1,
            8u8 => Square::A2,
            9u8 => Square::B2,
            10u8 => Square::C2,
            11u8 => Square::D2,
            12u8 => Square::E2,
            13u8 => Square::F2,
            14u8 => Square::G2,
            15u8 => Square::H2,
            16u8 => Square::A3,
            17u8 => Square::B3,
            18u8 => Square::C3,
            19u8 => Square::D3,
            20u8 => Square::E3,
            21u8 => Square::F3,
            22u8 => Square::G3,
            23u8 => Square::H3,
            24u8 => Square::A4,
            25u8 => Square::B4,
            26u8 => Square::C4,
            27u8 => Square::D4,
            28u8 => Square::E4,
            29u8 => Square::F4,
            30u8 => Square::G4,
            31u8 => Square::H4,
            32u8 => Square::A5,
            33u8 => Square::B5,
            34u8 => Square::C5,
            35u8 => Square::D5,
            36u8 => Square::E5,
            37u8 => Square::F5,
            38u8 => Square::G5,
            39u8 => Square::H5,
            40u8 => Square::A6,
            41u8 => Square::B6,
            42u8 => Square::C6,
            43u8 => Square::D6,
            44u8 => Square::E6,
            45u8 => Square::F6,
            46u8 => Square::G6,
            47u8 => Square::H6,
            48u8 => Square::A7,
            49u8 => Square::B7,
            50u8 => Square::C7,
            51u8 => Square::D7,
            52u8 => Square::E7,
            53u8 => Square::F7,
            54u8 => Square::G7,
            55u8 => Square::H7,
            56u8 => Square::A8,
            57u8 => Square::B8,
            58u8 => Square::C8,
            59u8 => Square::D8,
            60u8 => Square::E8,
            61u8 => Square::F8,
            62u8 => Square::G8,
            63u8 => Square::H8,
            _ => Square::A1,
        }
    }

    /// The index of this square.
    pub fn index(self) -> (r: u8)
        ensures
            r == self.idx(),
            r < 64,
    {
        reveal(Square::idx);
        reveal(Square::at);
        match self {
            Square::A1 => 0,
            Square::B1 => 1,
            Square::C1 => 2,
            Square::D1 => 3,
            Square::E1 => 4,
            Square::F1 => 5,
            Square::G1 => 6,
            Square::H1 => 7,
            Square::A2 => 8,
            Square::B2 => 9,
            Square::C2 => 10,
            Square::D2 => 11,
            Square::E2 => 12,
            Square::F2 => 13,
            Square::G2 => 14,
            Square::H2 => 15,
            Square::A3 => 16,
            Square::B3 => 17,
            Square::C3 => 18,
            Square::D3 => 19,
            Square::E3 => 20,
            Square::F3 => 21,
            Square::G3 => 22,
            Square::H3 => 23,
            Square::A4 => 24,
            Square::B4 => 25,
            Square::C4 => 26,
            Square::D4 => 27,
            Square::E4 => 28,
            Square::F4 => 29,
            Square::G4 => 30,
            Square::H4 => 31,
            Square::A5 => 32,
            Square::B5 => 33,
            Square::C5 => 34,
            Square::D5 => 35,
            Square::E5 => 36,
            Square::F5 => 37,
            Square::G5 => 38,
            Square::H5 => 39,
            Square::A6 => 40,
            Square::B6 => 41,
            Square::C6 => 42,
            Square::D6 => 43,
            Square::E6 => 44,
            Square::F6 => 45,
            Square::G6 => 46,
            Square::H6 => 47,
            Square::A7 => 48,
            Square::B7 => 49,
            Square::C7 => 50,
            Square::D7 => 51,
            Square::E7 => 52,
            Square::F7 => 53,
            Square::G7 => 54,
            Square::H7 => 55,
            Square::A8 => 56,
            Square::B8 => 57,
            Square::C8 => 58,
            Square::D8 => 59,
            Square::E8 => 60,
            Square::F8 => 61,
            Square::G8 => 62,
            Square::H8 => 63,
        }
    }

    /// The square with index `i`.
    pub fn from_index(i: u8) -> (r: Square)
        requires
            i < 64,
        ensures
            r == Square::at(i as int),
            r.idx() == i,
    {
        reveal(Square::idx);
        reveal(Square::at);
        match i {
            0u8 => Square::A1,
            1u8 => Square::B1,
            2u8 => Square::C1,
            3u8 => Square::D1,
            4u8 => Square::E1,
            5u8 => Square::F1,
            6u8 => Square::G1,
            7u8 => Square::H1,
            8u8 => Square::A2,
            9u8 => Square::B2,
            10u8 => Square::C2,
            11u8 => Square::D2,
            12u8 => Square::E2,
            13u8 => Square::F2,
            14u8 => Square::G2,
            15u8 => Square::H2,
            16u8 => Square::A3,
            17u8 => Square::B3,
            18u8 => Square::C3,
            19u8 => Square::D3,
            20u8 => Square::E3,
            21u8 => Square::F3,
            22u8 => Square::G3,
            23u8 => Square::H3,
            24u8 => Square::A4,
            25u8 => Square::B4,
            26u8 => Square::C4,
            27u8 => Square::D4,
            28u8 => Square::E4,
            29u8 => Square::F4,
            30u8 => Square::G4,
            31u8 => Square::H4,
            32u8 => Square::A5,
            33u8 => Square::B5,
            34u8 => Square::C5,
            35u8 => Square::D5,
            36u8 => Square::E5,
            37u8 => Square::F5,
            38u8 => Square::G5,
            39u8 => Square::H5,
            40u8 => Square::A6,
            41u8 => Square::B6,
            42u8 => Square::C6,
            43u8 => Square::D6,
            44u8 => Square::E6,
            45u8 => Square::F6,
            46u8 => Square::G6,
            47u8 => Square::H6,
            48u8 => Square::A7,
            49u8 => Square::B7,
            50u8 => Square::C7,
            51u8 => Square::D7,
            52u8 => Square::E7,
            53u8 => Square::F7,
            54u8 => Square::G7,
            55u8 => Square::H7,
            56u8 => Square::A8,
            57u8 => Square::B8,
            58u8 => Square::C8,
            59u8 => Square::D8,
            60u8 => Square::E8,
            61u8 => Square::F8,
            62u8 => Square::G8,
            63u8 => Square::H8,
            _ => Square::H8,
        }
    }
}

pub broadcast proof fn lemma_square_roundtrip(s: Square)
    ensures
        0 <= #[trigger] s.idx() < 64,
        Square::at(s.idx()) == s,
{
    reveal(Square::idx);
    reveal(Square::at);
}

/// The square at index `i` has index `i`.
pub broadcast proof fn lemma_square_at(i: int)
    requires
        0 <= i < 64,
    ensures
        (#[trigger] Square::at(i)).idx() == i,
{
    reveal(Square::idx);
    reveal(Square::at);
    assert(0 <= i < 64 ==> Square::at(i).idx() == i);
}

pub broadcast group group_square {
    lemma_square_roundtrip,
    lemma_square_at,
}

} // verus!
