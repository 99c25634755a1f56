//! Forsyth–Edwards Notation: reading a position from a FEN string and writing the first
//! four fields back.
use vstd::prelude::*;
use vstd::string::*;
use std::collections::HashMap;
use std::sync::Arc;
use crate::{Color, Piece, PieceType, PrecomputedItems, Square};
use crate::bits::{is_set, lemma_bits_ext, group_bits};
use crate::game::playerobj::{Player, piece_bb_upto, side_bb, own_of};
use crate::game::board::{GameBoard, GameResult, players_match};
use crate::game::Move;
use crate::position_hash::{board_key, board_key_upto, ep_key, lemma_xor_swap};

verus! {

broadcast use group_bits;

/// Whether `c` is white space in the Unicode sense, as `char::is_whitespace` tells.
pub open spec fn is_space(c: char) -> bool {
    let u = c as u32;
    (9 <= u <= 13) || u == 32 || u == 0x85 || u == 0xA0 || u == 0x1680 || (0x2000 <= u <= 0x200A) || u == 0x2028
        || u == 0x2029 || u == 0x202F || u == 0x205F || u == 0x3000
}

/// Whether `c` is white space (see `is_space`).
pub fn is_space_exec(c: char) -> (r: bool)
    ensures
        r == is_space(c),
{
    let u = c as u32;
    (9 <= u && u <= 13) || u == 32 || u == 0x85 || u == 0xA0 || u == 0x1680 || (0x2000 <= u && u <= 0x200A) || u
        == 0x2028 || u == 0x2029 || u == 0x202F || u == 0x205F || u == 0x3000
}

/// The value of decimal digit `c`, if it is one.
pub open spec fn digit_of(c: char) -> Option<u32> {
    if '0' <= c <= '9' {
        Some((c as u32 - '0' as u32) as u32)
    } else {
        None
    }
}

/// ASCII letters to lower case; every other character as it is.
pub open spec fn ascii_lower(c: char) -> char {
    if 'A' <= c <= 'Z' {
        ((c as u32) + 32) as char
    } else {
        c
    }
}

/// The piece that FEN letter `ch` names: upper case for White, lower case for Black;
/// otherwise the lower-cased letter, which names none.
pub open spec fn piece_of_char(ch: char) -> Result<(PieceType, Color), char> {
    let color = if 'A' <= ch <= 'Z' {
        Color::White
    } else {
        Color::Black
    };
    let l = ascii_lower(ch);
    if l == 'p' {
        Ok((PieceType::Pawn, color))
    } else if l == 'n' {
        Ok((PieceType::Knight, color))
    } else if l == 'b' {
        Ok((PieceType::Bishop, color))
    } else if l == 'r' {
        Ok((PieceType::Rook, color))
    } else if l == 'q' {
        Ok((PieceType::Queen, color))
    } else if l == 'k' {
        Ok((PieceType::King, color))
    } else {
        Err(l)
    }
}

/// The FEN letter of `piece`: upper case for White, lower case for Black.
pub open spec fn char_of_piece(piece: Piece) -> char {
    let c = match piece.piece_type {
        PieceType::Pawn => 'p',
        PieceType::Knight => 'n',
        PieceType::Bishop => 'b',
        PieceType::Rook => 'r',
        PieceType::Queen => 'q',
        PieceType::King => 'k',
    };
    if piece.color == Color::White {
        ((c as u32) - 32) as char
    } else {
        c
    }
}

/// The FEN letter of `piece` (see `char_of_piece`).
pub fn piece_to_char(piece: Piece) -> (r: char)
    ensures
        r == char_of_piece(piece),
{
    match (piece.piece_type, piece.color) {
        (PieceType::Pawn, Color::White) => 'P',
        (PieceType::Knight, Color::White) => 'N',
        (PieceType::Bishop, Color::White) => 'B',
        (PieceType::Rook, Color::White) => 'R',
        (PieceType::Queen, Color::White) => 'Q',
        (PieceType::King, Color::White) => 'K',
        (PieceType::Pawn, Color::Black) => 'p',
        (PieceType::Knight, Color::Black) => 'n',
        (PieceType::Bishop, Color::Black) => 'b',
        (PieceType::Rook, Color::Black) => 'r',
        (PieceType::Queen, Color::Black) => 'q',
        (PieceType::King, Color::Black) => 'k',
    }
}

/// The message of an unknown piece letter.
pub open spec fn unknown_piece_message(l: char) -> Seq<char> {
    "Unknown piece character '"@ + seq![l] + "'"@
}

/// The kind and side of the piece FEN letter `ch` names, or the message naming the
/// unknown letter (see `piece_of_char`).
pub fn char_to_piece(ch: char) -> (r: Result<(PieceType, Color), String>)
    ensures
        match piece_of_char(ch) {
            Ok(p) => r == Ok::<(PieceType, Color), String>(p),
            Err(l) => r matches Err(e) && e@ == unknown_piece_message(l),
        },
{
    let color = if 'A' <= ch && ch <= 'Z' {
        Color::White
    } else {
        Color::Black
    };
    let lower = if 'A' <= ch && ch <= 'Z' {
        lower_letter(ch)
    } else {
        ch
    };
    if lower == 'p' {
        Ok((PieceType::Pawn, color))
    } else if lower == 'n' {
        Ok((PieceType::Knight, color))
    } else if lower == 'b' {
        Ok((PieceType::Bishop, color))
    } else if lower == 'r' {
        Ok((PieceType::Rook, color))
    } else if lower == 'q' {
        Ok((PieceType::Queen, color))
    } else if lower == 'k' {
        Ok((PieceType::King, color))
    } else {
        let mut e = String::new();
        e.append("Unknown piece character '");
        push_char(&mut e, lower);
        e.append("'");
        proof {
            assert(e@ =~= unknown_piece_message(lower));
        }
        Err(e)
    }
}

/// The lower-case letter of the upper-case ASCII letter `c`.
fn lower_letter(c: char) -> (r: char)
    requires
        'A' <= c <= 'Z',
    ensures
        r == ascii_lower(c),
{
    ((c as u8) + 32) as char
}

/// `String::push`: appends `c`.
#[verifier::external_body]
pub(crate) fn push_char(s: &mut String, c: char)
    ensures
        final(s)@ == old(s)@.push(c),
{
    s.push(c);
}

/// The decimal digits of `n`, most significant first.
pub open spec fn decimal(n: nat) -> Seq<char>
    decreases n,
{
    if n < 10 {
        seq![(48 + n) as char]
    } else {
        decimal(n / 10).push((48 + n % 10) as char)
    }
}

/// Appends the decimal digits of `n` (see `decimal`).
fn push_decimal(s: &mut String, n: usize)
    ensures
        final(s)@ == old(s)@ + decimal(n as nat),
    decreases n,
{
    if n >= 10 {
        push_decimal(s, n / 10);
    }
    let d = (n % 10) as u8;
    push_char(s, (48 + d) as char);
    proof {
        assert(s@ =~= old(s)@ + decimal(n as nat));
    }
}

/// The value of the decimal digits `d`.
pub open spec fn digits_value(d: Seq<char>) -> nat
    decreases d.len(),
{
    if d.len() == 0 {
        0
    } else {
        digits_value(d.drop_last()) * 10 + (d.last() as nat - 48) as nat
    }
}

/// What `str::parse::<u32>` gives on `t`: an optional `+` sign, then at least one decimal
/// digit and nothing else, for a value that fits in 32 bits.
pub open spec fn parse_u32_spec(t: Seq<char>) -> Option<u32> {
    digits_u32(
        if t.len() > 0 && t[0] == '+' {
            t.subrange(1, t.len() as int)
        } else {
            t
        },
    )
}

/// The value of `d` when it is at least one decimal digit and nothing else, and fits in
/// 32 bits.
pub open spec fn digits_u32(d: Seq<char>) -> Option<u32> {
    if d.len() > 0 && (forall|i: int| 0 <= i < d.len() ==> '0' <= #[trigger] d[i] <= '9') && digits_value(d)
        <= u32::MAX {
        Some(digits_value(d) as u32)
    } else {
        None
    }
}


/// A run of digits has at least the value of each of its prefixes.
pub(crate) proof fn lemma_digits_value_prefix(d: Seq<char>, k: int)
    requires
        0 <= k <= d.len(),
        forall|i: int| 0 <= i < d.len() ==> '0' <= #[trigger] d[i] <= '9',
    ensures
        digits_value(d.subrange(0, k)) <= digits_value(d),
    decreases d.len(),
{
    if k < d.len() {
        let e = d.drop_last();
        assert(e.subrange(0, k) =~= d.subrange(0, k));
        lemma_digits_value_prefix(e, k);
    } else {
        assert(d.subrange(0, k) =~= d);
    }
}

/// What `str::parse::<u32>` gives on `s[a..b]` (see `parse_u32_spec`).
pub(crate) fn parse_u32(s: &Vec<char>, a: usize, b: usize) -> (r: Option<u32>)
    requires
        a <= b <= s.len(),
    ensures
        r == parse_u32_spec(s@.subrange(a as int, b as int)),
{
    let ghost t = s@.subrange(a as int, b as int);
    let start = if b > a && s[a] == '+' {
        a + 1
    } else {
        a
    };
    let ghost d = s@.subrange(start as int, b as int);
    proof {
        if b > a && s[a as int] == '+' {
            assert(t.subrange(1, t.len() as int) =~= d);
        } else {
            assert(t =~= d);
        }
    }
    if start == b {
        return None;
    }
    // Digits only.
    let mut i = start;
    while i < b
        invariant
            start <= i <= b <= s.len(),
            d == s@.subrange(start as int, b as int),
            forall|j: int| 0 <= j < i - start ==> '0' <= #[trigger] d[j] <= '9',
            parse_u32_spec(s@.subrange(a as int, b as int)) == digits_u32(d),
        decreases b - i,
    {
        if !('0' <= s[i] && s[i] <= '9') {
            proof {
                assert(!('0' <= d[i - start] <= '9'));
            }
            return None;
        }
        i = i + 1;
    }
    // The value, as long as it fits.
    let mut acc: u64 = 0;
    let mut j = start;
    while j < b
        invariant
            start <= j <= b <= s.len(),
            d == s@.subrange(start as int, b as int),
            forall|k: int| 0 <= k < d.len() ==> '0' <= #[trigger] d[k] <= '9',
            acc == digits_value(d.subrange(0, j - start)),
            acc <= u32::MAX,
            parse_u32_spec(s@.subrange(a as int, b as int)) == digits_u32(d),
        decreases b - j,
    {
        assert(d[j - start] == s@[j as int]);
        let dv = (s[j] as u32 - '0' as u32) as u64;
        proof {
            assert(d.subrange(0, j - start + 1).drop_last() =~= d.subrange(0, j - start));
            assert(d.subrange(0, j - start + 1).last() == s@[j as int]);
        }
        acc = acc * 10 + dv;
        if acc > 0xFFFF_FFFF {
            proof {
                lemma_digits_value_prefix(d, j - start + 1);
            }
            return None;
        }
        j = j + 1;
    }
    proof {
        assert(d.subrange(0, d.len() as int) =~= d);
    }
    Some(acc as u32)
}

/// The maximal runs of non-space characters of `s` from `i` on, as index ranges, after
/// the ranges `acc` found so far; `start` is where the current run began.
pub open spec fn space_fields(s: Seq<char>, i: int, start: Option<usize>, acc: Seq<(usize, usize)>) -> Seq<(usize, usize)>
    decreases s.len() - i,
{
    if i >= s.len() {
        match start {
            Some(a) => acc.push((a, s.len() as usize)),
            None => acc,
        }
    } else if is_space(s[i]) {
        space_fields(
            s,
            i + 1,
            None,
            match start {
                Some(a) => acc.push((a, i as usize)),
                None => acc,
            },
        )
    } else {
        space_fields(
            s,
            i + 1,
            if start is Some {
                start
            } else {
                Some(i as usize)
            },
            acc,
        )
    }
}

/// The fields of `s` as `str::split_whitespace` finds them, as index ranges.
pub open spec fn fields_of(s: Seq<char>) -> Seq<(usize, usize)> {
    space_fields(s, 0, None, Seq::empty())
}

/// The fields of `s` (see `fields_of`).
fn split_fields(s: &Vec<char>) -> (r: Vec<(usize, usize)>)
    ensures
        r@ == fields_of(s@),
        forall|j: int| 0 <= j < r.len() ==> (#[trigger] r[j]).0 < r[j].1 <= s.len(),
{
    let mut acc: Vec<(usize, usize)> = Vec::new();
    let mut start: Option<usize> = None;
    let mut i: usize = 0;
    while i < s.len()
        invariant
            i <= s.len(),
            space_fields(s@, i as int, start, acc@) == fields_of(s@),
            forall|j: int| 0 <= j < acc.len() ==> (#[trigger] acc[j]).0 < acc[j].1 <= i,
            start matches Some(a) ==> a < i,
        decreases s.len() - i,
    {
        if is_space_exec(s[i]) {
            if let Some(a) = start {
                acc.push((a, i));
            }
            start = None;
        } else if start.is_none() {
            start = Some(i);
        }
        i = i + 1;
    }
    if let Some(a) = start {
        acc.push((a, s.len()));
    }
    acc
}

/// The pieces of `s[lo..hi]` between the separators `sep`, as index ranges, from `i` on,
/// after the pieces `acc`; the current piece began at `start`.
pub open spec fn sep_pieces(
    s: Seq<char>,
    hi: int,
    sep: char,
    i: int,
    start: usize,
    acc: Seq<(usize, usize)>,
) -> Seq<(usize, usize)>
    decreases hi - i,
{
    if i >= hi {
        acc.push((start, hi as usize))
    } else if s[i] == sep {
        sep_pieces(s, hi, sep, i + 1, (i + 1) as usize, acc.push((start, i as usize)))
    } else {
        sep_pieces(s, hi, sep, i + 1, start, acc)
    }
}

/// The pieces of `s[lo..hi]` between the separators `sep`, as `str::split` finds them.
pub open spec fn split_on(s: Seq<char>, lo: usize, hi: usize, sep: char) -> Seq<(usize, usize)> {
    sep_pieces(s, hi as int, sep, lo as int, lo, Seq::empty())
}

/// The pieces of `s[lo..hi]` between the separators `sep` (see `split_on`).
fn split_sep(s: &Vec<char>, lo: usize, hi: usize, sep: char) -> (r: Vec<(usize, usize)>)
    requires
        lo <= hi <= s.len(),
    ensures
        r@ == split_on(s@, lo, hi, sep),
        forall|j: int| 0 <= j < r.len() ==> lo <= (#[trigger] r[j]).0 <= r[j].1 <= hi,
{
    let mut acc: Vec<(usize, usize)> = Vec::new();
    let mut start = lo;
    let mut i = lo;
    while i < hi
        invariant
            lo <= start <= i <= hi <= s.len(),
            sep_pieces(s@, hi as int, sep, i as int, start, acc@) == split_on(s@, lo, hi, sep),
            forall|j: int| 0 <= j < acc.len() ==> lo <= (#[trigger] acc[j]).0 <= acc[j].1 <= i,
        decreases hi - i,
    {
        if s[i] == sep {
            acc.push((start, i));
            start = i + 1;
        }
        i = i + 1;
    }
    acc.push((start, hi));
    acc
}


/// How far one character moves along a rank: a digit skips that many files; any other
/// character takes one.
pub open spec fn step_of(c: char) -> int {
    match digit_of(c) {
        Some(d) => d as int,
        None => 1,
    }
}

/// The file reached after the characters `s[a..i]` of a rank.
pub open spec fn files_to(s: Seq<char>, a: int, i: int) -> int
    decreases i - a,
{
    if i <= a {
        0
    } else {
        files_to(s, a, i - 1) + step_of(s[i - 1])
    }
}

/// Whether character `c` places a piece.
pub open spec fn places(c: char) -> bool {
    digit_of(c) is None && piece_of_char(c) is Ok
}

/// The piece that FEN letter `c` names, when it names one.
pub open spec fn placed(c: char) -> Piece {
    match piece_of_char(c) {
        Ok((t, col)) => Piece { piece_type: t, color: col },
        Err(_) => Piece { piece_type: PieceType::Pawn, color: Color::White },
    }
}

/// The message of the first fault of the rank `s[a..b]` (number `ri` in the FEN) from
/// character `i` on: a character after the eighth file, an unknown letter, or a rank of
/// other than 8 squares.
pub open spec fn rank_fault(s: Seq<char>, a: int, b: int, ri: nat, i: int) -> Option<Seq<char>>
    decreases b - i,
{
    if i >= b {
        if files_to(s, a, b) != 8 {
            Some("Rank "@ + decimal(ri) + " has "@ + decimal(files_to(s, a, b) as nat) + " squares, expected 8"@)
        } else {
            None
        }
    } else if files_to(s, a, i) > 8 {
        Some("Rank "@ + decimal(ri) + " overflows: too many squares"@)
    } else if digit_of(s[i]) is None && piece_of_char(s[i]) is Err {
        Some(
            unknown_piece_message(
                match piece_of_char(s[i]) {
                    Err(l) => l,
                    Ok(_) => ' ',
                },
            ),
        )
    } else {
        rank_fault(s, a, b, ri, i + 1)
    }
}

/// The piece the characters `s[a..j]` of a rank place on file `f`.
pub open spec fn rank_piece(s: Seq<char>, a: int, j: int, f: int) -> Option<Piece>
    decreases j - a,
{
    if j <= a {
        None
    } else if places(s[j - 1]) && files_to(s, a, j - 1) == f {
        Some(placed(s[j - 1]))
    } else {
        rank_piece(s, a, j - 1, f)
    }
}

/// The first fault among the ranks `ranks` from number `ri` on.
pub open spec fn placement_fault(s: Seq<char>, ranks: Seq<(usize, usize)>, ri: int) -> Option<Seq<char>>
    decreases ranks.len() - ri,
{
    if ri < 0 || ri >= ranks.len() {
        None
    } else {
        match rank_fault(s, ranks[ri].0 as int, ranks[ri].1 as int, ri as nat, ranks[ri].0 as int) {
            Some(m) => Some(m),
            None => placement_fault(s, ranks, ri + 1),
        }
    }
}

/// The piece the placement field puts on square `k`: FEN ranks run from the eighth
/// rank down.
pub open spec fn fen_square(s: Seq<char>, ranks: Seq<(usize, usize)>, k: int) -> Option<Piece> {
    let r = ranks[7 - k / 8];
    rank_piece(s, r.0 as int, r.1 as int, k % 8)
}

/// The characters of the range `r` of `s`.
pub open spec fn field(s: Seq<char>, r: (usize, usize)) -> Seq<char> {
    s.subrange(r.0 as int, r.1 as int)
}

/// Whether the field `t` is the single character `c`.
pub open spec fn is_single(t: Seq<char>, c: char) -> bool {
    t.len() == 1 && t[0] == c
}

/// Parses the rank `s[a..b]` (number `ri` in the FEN) onto board rank `br` of `arr`:
/// each letter places its piece at the file reached, each digit skips files. Fails with
/// the message of the rank's first fault (see `rank_fault`).
fn parse_rank(s: &Vec<char>, a: usize, b: usize, ri: usize, br: usize, arr: &mut [Option<Piece>; 64]) -> (r: Result<
    (),
    String,
>)
    requires
        a <= b <= s.len(),
        br < 8,
    ensures
        match rank_fault(s@, a as int, b as int, ri as nat, a as int) {
            Some(m) => r matches Err(e) && e@ == m,
            None => {
                &&& r is Ok
                &&& forall|k: int|
                    0 <= k < 64 ==> #[trigger] final(arr)[k] == if k / 8 == br && rank_piece(
                        s@,
                        a as int,
                        b as int,
                        k % 8,
                    ) is Some {
                        rank_piece(s@, a as int, b as int, k % 8)
                    } else {
                        old(arr)[k]
                    }
            },
        },
{
    let mut file: usize = 0;
    let mut i = a;
    while i < b
        invariant
            a <= i <= b <= s.len(),
            br < 8,
            file == files_to(s@, a as int, i as int),
            file <= 8 || i == b,
            i == b ==> file <= 17,
            rank_fault(s@, a as int, b as int, ri as nat, a as int) == rank_fault(
                s@,
                a as int,
                b as int,
                ri as nat,
                i as int,
            ),
            forall|k: int|
                0 <= k < 64 ==> #[trigger] arr[k] == if k / 8 == br && rank_piece(s@, a as int, i as int, k % 8) is Some {
                    rank_piece(s@, a as int, i as int, k % 8)
                } else {
                    old(arr)[k]
                },
        decreases b - i,
    {
        let ch = s[i];
        let ghost arr0 = *arr;
        if '0' <= ch && ch <= '9' {
            let skip = (ch as u32 - '0' as u32) as usize;
            file = file + skip;
        } else {
            match char_to_piece(ch) {
                Ok((piece_type, color)) => {
                    // A piece after the eighth file fails the rank; it is not placed.
                    if file < 8 {
                        let sq = br * 8 + file;
                        arr[sq] = Some(Piece { piece_type, color });
                    }
                    file = file + 1;
                },
                Err(e) => {
                    return Err(e);
                },
            }
        }
        proof {
            assert forall|k: int|
                0 <= k < 64 implies #[trigger] arr[k] == if k / 8 == br && rank_piece(
                s@,
                a as int,
                (i + 1) as int,
                k % 8,
            ) is Some {
                rank_piece(s@, a as int, (i + 1) as int, k % 8)
            } else {
                old(arr)[k]
            } by {
                assert(arr0[k] == if k / 8 == br && rank_piece(s@, a as int, i as int, k % 8) is Some {
                    rank_piece(s@, a as int, i as int, k % 8)
                } else {
                    old(arr)[k]
                });
            }
        }
        i = i + 1;
        if file > 8 && i < b {
            let mut e = String::new();
            e.append("Rank ");
            push_decimal(&mut e, ri);
            e.append(" overflows: too many squares");
            return Err(e);
        }
    }
    if file != 8 {
        let mut e = String::new();
        e.append("Rank ");
        push_decimal(&mut e, ri);
        e.append(" has ");
        push_decimal(&mut e, file);
        e.append(" squares, expected 8");
        return Err(e);
    }
    Ok(())
}


/// The player of side `color` on the squares `arr`: its kind bitboards, their union and
/// its own board.
fn side_of(arr: &[Option<Piece>; 64], color: Color) -> (r: Player)
    ensures
        r.matches(arr@, color),
{
    broadcast use crate::game::playerobj::group_board_bb;
    let mut bbs = [0u64; 6];
    let mut own = [None::<Piece>; 64];
    for k in 0..64usize
        invariant
            forall|t: int| 0 <= t < 6 ==> #[trigger] bbs[t] == piece_bb_upto(arr@, Piece { piece_type: PieceType::at(t), color }, k as nat),
            forall|j: int| 0 <= j < k ==> #[trigger] own[j] == own_of(arr[j], color),
    {
        let ghost b0 = bbs;
        if let Some(p) = arr[k] {
            if p.color == color {
                let t = p.piece_type.index();
                bbs[t] = bbs[t] | (1u64 << (k as u64));
                own[k] = Some(p);
            } else {
                own[k] = None;
            }
        } else {
            own[k] = None;
        }
        proof {
            crate::lemma_piece_type_roundtrip(if arr[k as int] is Some { arr[k as int]->0.piece_type } else { PieceType::Pawn });
            assert forall|t: int| 0 <= t < 6 implies #[trigger] bbs[t] == piece_bb_upto(
                arr@,
                Piece { piece_type: PieceType::at(t), color },
                (k + 1) as nat,
            ) by {
                lemma_or_nothing(b0[t]);
            }
        }
    }
    let pieces = bbs[0] | bbs[1] | bbs[2] | bbs[3] | bbs[4] | bbs[5];
    proof {
        assert forall|k: int| 0 <= k < 64 implies is_set(pieces, k) == is_set(side_bb(arr@, color), k) by {
            if let Some(p) = arr[k] {
                crate::lemma_piece_type_roundtrip(p.piece_type);
            }
            assert(bbs[0] == crate::game::playerobj::piece_bb(arr@, Piece { piece_type: PieceType::at(0), color }));
            assert(is_set(bbs[0], k) == (arr@[k] == Some(Piece { piece_type: PieceType::at(0), color })));
            assert(bbs[1] == crate::game::playerobj::piece_bb(arr@, Piece { piece_type: PieceType::at(1), color }));
            assert(is_set(bbs[1], k) == (arr@[k] == Some(Piece { piece_type: PieceType::at(1), color })));
            assert(bbs[2] == crate::game::playerobj::piece_bb(arr@, Piece { piece_type: PieceType::at(2), color }));
            assert(is_set(bbs[2], k) == (arr@[k] == Some(Piece { piece_type: PieceType::at(2), color })));
            assert(bbs[3] == crate::game::playerobj::piece_bb(arr@, Piece { piece_type: PieceType::at(3), color }));
            assert(is_set(bbs[3], k) == (arr@[k] == Some(Piece { piece_type: PieceType::at(3), color })));
            assert(bbs[4] == crate::game::playerobj::piece_bb(arr@, Piece { piece_type: PieceType::at(4), color }));
            assert(is_set(bbs[4], k) == (arr@[k] == Some(Piece { piece_type: PieceType::at(4), color })));
            assert(bbs[5] == crate::game::playerobj::piece_bb(arr@, Piece { piece_type: PieceType::at(5), color }));
            assert(is_set(bbs[5], k) == (arr@[k] == Some(Piece { piece_type: PieceType::at(5), color })));
        }
        lemma_bits_ext(pieces, side_bb(arr@, color));
    }
    Player { color, pieces_bb: bbs, pieces, own_board: own }
}

/// Or-ing nothing leaves a bitboard as it was.
proof fn lemma_or_nothing(a: u64)
    ensures
        a | 0 == a,
{
    assert(a | 0 == a) by (bit_vector);
}


/// The message of the first fault of FEN text `s`, in the order its fields are read;
/// `None` when it is read without fault.
pub open spec fn fen_fault(s: Seq<char>) -> Option<Seq<char>> {
    let f = fields_of(s);
    if f.len() < 6 {
        Some("FEN must have 6 fields, got "@ + decimal(f.len()))
    } else {
        let ranks = split_on(s, f[0].0, f[0].1, '/');
        let active = field(s, f[1]);
        let ep = field(s, f[3]);
        if ranks.len() != 8 {
            Some("Piece placement must have 8 ranks, got "@ + decimal(ranks.len()))
        } else if placement_fault(s, ranks, 0) is Some {
            placement_fault(s, ranks, 0)
        } else if !is_single(active, 'w') && !is_single(active, 'b') {
            Some("Unknown active color '"@ + active + "'"@)
        } else if !is_single(ep, '-') && (ep.len() < 2 || (ep[0] as u32) < ('a' as u32) || (ep[1] as u32) < (
            '1' as u32)) {
            Some("Invalid en passant field '"@ + ep + "'"@)
        } else if parse_u32_spec(field(s, f[4])) is None {
            Some("Invalid halfmove clock '"@ + field(s, f[4]) + "'"@)
        } else if parse_u32_spec(field(s, f[5])) is None {
            Some("Invalid fullmove number '"@ + field(s, f[5]) + "'"@)
        } else {
            None
        }
    }
}

/// The en passant target the FEN names: none for "-", else rank and file from the
/// field's first two characters.
pub open spec fn fen_ep(s: Seq<char>) -> Option<usize> {
    let ep = field(s, fields_of(s)[3]);
    if is_single(ep, '-') {
        None
    } else {
        Some((((ep[1] as u32) - ('1' as u32)) * 8 + ((ep[0] as u32) - ('a' as u32))) as usize)
    }
}

/// The number field `k` of the FEN holds.
pub open spec fn fen_number(s: Seq<char>, k: int) -> u32 {
    match parse_u32_spec(field(s, fields_of(s)[k])) {
        Some(n) => n,
        None => 0,
    }
}

/// Whether the castling field of the FEN holds `c`.
pub open spec fn fen_castles(s: Seq<char>, c: char) -> bool {
    field(s, fields_of(s)[2]).contains(c)
}

/// The side to move the FEN names.
pub open spec fn fen_side(s: Seq<char>) -> Color {
    if is_single(field(s, fields_of(s)[1]), 'w') {
        Color::White
    } else {
        Color::Black
    }
}

/// Whether the range `r` of `s` holds character `c`.
fn field_contains(s: &Vec<char>, r: (usize, usize), c: char) -> (b: bool)
    requires
        r.0 <= r.1 <= s.len(),
    ensures
        b == field(s@, r).contains(c),
{
    let mut i = r.0;
    while i < r.1
        invariant
            r.0 <= i <= r.1 <= s.len(),
            forall|j: int| r.0 <= j < i ==> s@[j] != c,
        decreases r.1 - i,
    {
        if s[i] == c {
            proof {
                assert(field(s@, r)[i - r.0] == c);
            }
            return true;
        }
        i = i + 1;
    }
    proof {
        assert forall|j: int| 0 <= j < field(s@, r).len() implies field(s@, r)[j] != c by {
            assert(field(s@, r)[j] == s@[r.0 + j]);
        }
    }
    false
}

/// Whether the range `r` of `s` is the single character `c`.
fn field_is(s: &Vec<char>, r: (usize, usize), c: char) -> (b: bool)
    requires
        r.0 <= r.1 <= s.len(),
    ensures
        b == is_single(field(s@, r), c),
{
    r.1 - r.0 == 1 && s[r.0] == c
}

/// Appends the characters of the range `r` of `s`.
fn push_field(e: &mut String, s: &Vec<char>, r: (usize, usize))
    requires
        r.0 <= r.1 <= s.len(),
    ensures
        final(e)@ == old(e)@ + field(s@, r),
{
    let mut i = r.0;
    while i < r.1
        invariant
            r.0 <= i <= r.1 <= s.len(),
            e@ == old(e)@ + s@.subrange(r.0 as int, i as int),
        decreases r.1 - i,
    {
        push_char(e, s[i]);
        proof {
            assert(s@.subrange(r.0 as int, i + 1) =~= s@.subrange(r.0 as int, i as int).push(s@[i as int]));
        }
        i = i + 1;
    }
}

/// A message: `head`, the characters of the range `r` of `s`, and a closing quote.
fn quoted(head: &str, s: &Vec<char>, r: (usize, usize)) -> (e: String)
    requires
        r.0 <= r.1 <= s.len(),
    ensures
        e@ == head@ + field(s@, r) + "'"@,
{
    let mut e = String::new();
    e.append(head);
    push_field(&mut e, s, r);
    e.append("'");
    e
}

/// The characters of `fen`.
pub(crate) fn chars_of(fen: &str) -> (v: Vec<char>)
    ensures
        v@ == fen@,
{
    let n = fen.unicode_len();
    let mut v: Vec<char> = Vec::new();
    let mut i: usize = 0;
    while i < n
        invariant
            i <= n == fen@.len(),
            v@ == fen@.subrange(0, i as int),
        decreases n - i,
    {
        v.push(fen.get_char(i));
        proof {
            assert(fen@.subrange(0, i + 1) =~= fen@.subrange(0, i as int).push(fen@[i as int]));
        }
        i = i + 1;
    }
    proof {
        assert(fen@.subrange(0, n as int) =~= fen@);
    }
    v
}


/// Reads a position from FEN text `fen`: the board (with its hash computed from scratch
/// and the position recorded once), the side to move, and the fullmove number. Fails with
/// the message of the first fault (see `fen_fault`).
pub fn board_from_fen(fen: &str, precomputed: Arc<PrecomputedItems>) -> (r: Result<(GameBoard, Color, u32), String>)
    ensures
        match fen_fault(fen@) {
            Some(m) => r matches Err(e) && e@ == m,
            None => r matches Ok((b, c, n)) && {
                let f = fields_of(fen@);
                let ranks = split_on(fen@, f[0].0, f[0].1, '/');
                &&& forall|k: int| 0 <= k < 64 ==> #[trigger] b.board_arr[k] == fen_square(fen@, ranks, k)
                &&& c == fen_side(fen@)
                &&& n == fen_number(fen@, 5)
                &&& b.halfmove_clock == fen_number(fen@, 4)
                &&& b.white_kingside == fen_castles(fen@, 'K')
                &&& b.white_queenside == fen_castles(fen@, 'Q')
                &&& b.black_kingside == fen_castles(fen@, 'k')
                &&& b.black_queenside == fen_castles(fen@, 'q')
                &&& b.en_passant_target == fen_ep(fen@)
                &&& b.players_ok()
                &&& b.caches_ok()
                &&& b.precomputed_items == precomputed
                &&& b.zobrist_hash == b.position_key(c == Color::Black)
                &&& b.position_history@ == Map::<u64, u8>::empty().insert(b.zobrist_hash, 1u8)
                &&& !b.in_check
                &&& b.white_pins == 0
                &&& b.black_pins == 0
                &&& b.game_result == GameResult::Ongoing
                &&& b.last_move == (Move {
                    from: Square::A1,
                    to: Square::A1,
                    promotion_piece_type: None,
                    castle_option: None,
                    en_passant: false,
                })
            },
        },
{
    broadcast use vstd::std_specs::hash::group_hash_axioms;
    let s = chars_of(fen);
    let fields = split_fields(&s);
    if fields.len() < 6 {
        let mut e = String::new();
        e.append("FEN must have 6 fields, got ");
        push_decimal(&mut e, fields.len());
        return Err(e);
    }

    // Field 1: piece placement, from the eighth rank down.
    let ranks = split_sep(&s, fields[0].0, fields[0].1, '/');
    if ranks.len() != 8 {
        let mut e = String::new();
        e.append("Piece placement must have 8 ranks, got ");
        push_decimal(&mut e, ranks.len());
        return Err(e);
    }
    let mut board_arr = [None::<Piece>; 64];
    let mut rank_idx: usize = 0;
    while rank_idx < 8
        invariant
            rank_idx <= 8,
            s@ == fen@,
            fields@ == fields_of(s@),
            fields.len() >= 6,
            forall|j: int| 0 <= j < fields.len() ==> (#[trigger] fields[j]).0 < fields[j].1 <= s.len(),
            ranks@ == split_on(s@, fields[0].0, fields[0].1, '/'),
            ranks.len() == 8,
            forall|j: int| 0 <= j < ranks.len() ==> fields[0].0 <= (#[trigger] ranks[j]).0 <= ranks[j].1 <= fields[0].1,
            placement_fault(s@, ranks@, 0) == placement_fault(s@, ranks@, rank_idx as int),
            forall|k: int|
                0 <= k < 64 ==> #[trigger] board_arr[k] == if k / 8 > 7 - rank_idx {
                    fen_square(s@, ranks@, k)
                } else {
                    None
                },
        decreases 8 - rank_idx,
    {
        let r = ranks[rank_idx];
        let ghost arr0 = board_arr;
        match parse_rank(&s, r.0, r.1, rank_idx, 7 - rank_idx, &mut board_arr) {
            Ok(()) => {},
            Err(e) => {
                return Err(e);
            },
        }
        proof {
            assert forall|k: int|
                0 <= k < 64 implies #[trigger] board_arr[k] == if k / 8 > 7 - (rank_idx + 1) {
                fen_square(s@, ranks@, k)
            } else {
                None
            } by {
                assert(arr0[k] == if k / 8 > 7 - rank_idx {
                    fen_square(s@, ranks@, k)
                } else {
                    None
                });
                if k / 8 == 7 - rank_idx {
                    assert(7 - k / 8 == rank_idx);
                }
            }
        }
        rank_idx = rank_idx + 1;
    }
    let player1 = side_of(&board_arr, Color::White);
    let player2 = side_of(&board_arr, Color::Black);
    let white_combined = player1.pieces;
    let black_combined = player2.pieces;

    // Field 2: the side to move.
    let side_to_move = if field_is(&s, fields[1], 'w') {
        Color::White
    } else if field_is(&s, fields[1], 'b') {
        Color::Black
    } else {
        return Err(quoted("Unknown active color '", &s, fields[1]));
    };

    // Field 3: castling rights.
    let white_kingside = field_contains(&s, fields[2], 'K');
    let white_queenside = field_contains(&s, fields[2], 'Q');
    let black_kingside = field_contains(&s, fields[2], 'k');
    let black_queenside = field_contains(&s, fields[2], 'q');

    // Field 4: the en passant target.
    let en_passant_target: Option<usize> = if field_is(&s, fields[3], '-') {
        None
    } else {
        let r = fields[3];
        if r.1 - r.0 < 2 {
            return Err(quoted("Invalid en passant field '", &s, r));
        }
        proof {
            assert(field(s@, r)[0] == s@[r.0 as int]);
            assert(field(s@, r)[1] == s@[r.0 + 1]);
        }
        let file_char = s[r.0];
        let rank_char = s[r.0 + 1];
        proof {
            vstd::utf8::char_is_scalar(file_char);
            vstd::utf8::char_is_scalar(rank_char);
        }
        let file_code = file_char as u32;
        let rank_code = rank_char as u32;
        // A file below 'a' or a rank below '1' names no square.
        if 97 > file_code || 49 > rank_code {
            return Err(quoted("Invalid en passant field '", &s, r));
        }
        let ep_file = (file_code - 97) as usize;
        let ep_rank = (rank_code - 49) as usize;
        Some(ep_rank * 8 + ep_file)
    };

    // Fields 5 and 6: the halfmove clock and the fullmove number.
    let halfmove_clock = match parse_u32(&s, fields[4].0, fields[4].1) {
        Some(n) => n,
        None => {
            return Err(quoted("Invalid halfmove clock '", &s, fields[4]));
        },
    };
    let fullmove_number = match parse_u32(&s, fields[5].0, fields[5].1) {
        Some(n) => n,
        None => {
            return Err(quoted("Invalid fullmove number '", &s, fields[5]));
        },
    };

    // The hash, from scratch.
    let zt = &precomputed.zobrist;
    let mut zobrist_hash = 0u64;
    for sq in 0..64usize
        invariant
            zobrist_hash == board_key_upto(*zt, board_arr@, sq as nat),
    {
        let ghost before = zobrist_hash;
        if let Some(piece) = board_arr[sq] {
            zobrist_hash ^= zt.piece_sq[piece.color.index()][piece.piece_type.index()][sq];
        } else {
            proof {
                lemma_xor_swap(before, 0, 0);
            }
        }
    }
    proof {
        reveal(board_key);
    }
    let ghost h0 = zobrist_hash;
    let c0 = zt.castling[0];
    let c1 = zt.castling[1];
    let c2 = zt.castling[2];
    let c3 = zt.castling[3];
    if white_kingside {
        zobrist_hash ^= c0;
    }
    let ghost h1 = zobrist_hash;
    if white_queenside {
        zobrist_hash ^= c1;
    }
    let ghost h2 = zobrist_hash;
    if black_kingside {
        zobrist_hash ^= c2;
    }
    let ghost h3 = zobrist_hash;
    if black_queenside {
        zobrist_hash ^= c3;
    }
    let ghost h4 = zobrist_hash;
    if let Some(ep_sq) = en_passant_target {
        zobrist_hash ^= zt.en_passant_file[ep_sq % 8];
    }
    let ghost h5 = zobrist_hash;
    if side_to_move == Color::Black {
        zobrist_hash ^= zt.side_to_move;
    }
    proof {
        let a0: u64 = if white_kingside { c0 } else { 0 };
        let a1: u64 = if white_queenside { c1 } else { 0 };
        let a2: u64 = if black_kingside { c2 } else { 0 };
        let a3: u64 = if black_queenside { c3 } else { 0 };
        let e = ep_key(*zt, en_passant_target);
        let sd: u64 = if side_to_move == Color::Black { zt.side_to_move } else { 0 };
        lemma_xor_swap(h0, 0, 0);
        lemma_xor_swap(h1, 0, 0);
        lemma_xor_swap(h2, 0, 0);
        lemma_xor_swap(h3, 0, 0);
        lemma_xor_swap(h4, 0, 0);
        lemma_xor_swap(h5, 0, 0);
        let h6 = zobrist_hash;
        assert(h6 == h0 ^ (((a0 ^ a1) ^ a2) ^ a3) ^ e ^ sd) by (bit_vector)
            requires
                h1 == h0 ^ a0,
                h2 == h1 ^ a1,
                h3 == h2 ^ a2,
                h4 == h3 ^ a3,
                h5 == h4 ^ e,
                h6 == h5 ^ sd,
        ;
    }

    let mut board = GameBoard {
        player1,
        player2,
        board_arr,
        white_pieces: white_combined,
        precomputed_items: precomputed,
        black_pieces: black_combined,
        combined_pieces: white_combined | black_combined,
        in_check: false,
        white_pins: 0u64,
        black_pins: 0u64,
        game_result: GameResult::Ongoing,
        white_kingside,
        white_queenside,
        black_kingside,
        black_queenside,
        last_move: Move::default(),
        en_passant_target,
        halfmove_clock,
        position_history: HashMap::new(),
        zobrist_hash,
    };
    // The position counts as its first occurrence.
    board.position_history.insert(board.zobrist_hash, 1);
    proof {
        reveal(players_match);
        assert(board.position_history@ =~= Map::<u64, u8>::empty().insert(board.zobrist_hash, 1u8));
    }
    Ok((board, side_to_move, fullmove_number))
}


/// The text of board rank `br` of `arr` from file `f` on, with `empty` empty squares
/// pending: a piece as its letter, a run of empty squares as its length.
pub open spec fn rank_text(arr: Seq<Option<Piece>>, br: int, f: int, empty: nat) -> Seq<char>
    decreases 8 - f,
{
    let run = if empty > 0 {
        decimal(empty)
    } else {
        Seq::empty()
    };
    if f >= 8 {
        run
    } else {
        match arr[br * 8 + f] {
            Some(p) => run + seq![char_of_piece(p)] + rank_text(arr, br, f + 1, 0),
            None => rank_text(arr, br, f + 1, empty + 1),
        }
    }
}

/// The placement field for board ranks `br` down to the first, joined by '/'.
pub open spec fn placement_text(arr: Seq<Option<Piece>>, br: int) -> Seq<char>
    decreases br,
{
    if br <= 0 {
        rank_text(arr, 0, 0, 0)
    } else {
        rank_text(arr, br, 0, 0) + seq!['/'] + placement_text(arr, br - 1)
    }
}

/// The castling field: the letters of the rights held, or "-" for none.
pub open spec fn castling_text(wk: bool, wq: bool, bk: bool, bq: bool) -> Seq<char> {
    let t = (if wk {
        seq!['K']
    } else {
        Seq::empty()
    }) + (if wq {
        seq!['Q']
    } else {
        Seq::empty()
    }) + (if bk {
        seq!['k']
    } else {
        Seq::empty()
    }) + (if bq {
        seq!['q']
    } else {
        Seq::empty()
    });
    if t.len() == 0 {
        seq!['-']
    } else {
        t
    }
}

/// The en passant field: the target's file letter and rank digit, or "-".
pub open spec fn ep_text(ep: Option<usize>) -> Seq<char> {
    match ep {
        Some(e) => seq![(97 + e % 8) as char, (49 + (e / 8) % 256) as char],
        None => seq!['-'],
    }
}

/// The first four FEN fields of squares `arr` with `side` to move, castling rights `wk`,
/// `wq`, `bk`, `bq` and en passant target `ep`, joined by spaces.
pub open spec fn normfen_of(
    arr: Seq<Option<Piece>>,
    side: Color,
    wk: bool,
    wq: bool,
    bk: bool,
    bq: bool,
    ep: Option<usize>,
) -> Seq<char> {
    placement_text(arr, 7) + seq![' '] + (if side == Color::White {
        seq!['w']
    } else {
        seq!['b']
    }) + seq![' '] + castling_text(wk, wq, bk, bq) + seq![' '] + ep_text(ep)
}

/// The placement field of `arr` (see `placement_text`).
fn placement_string(arr: &[Option<Piece>; 64]) -> (r: String)
    ensures
        r@ == placement_text(arr@, 7),
{
    let mut placement = String::new();
        let mut board_rank: usize = 8;
        while board_rank > 0
            invariant
                board_rank <= 8,
                board_rank > 0 ==> placement@ + placement_text(arr@, board_rank - 1) == placement_text(arr@, 7),
                board_rank == 0 ==> placement@ == placement_text(arr@, 7),
            decreases board_rank,
        {
            board_rank = board_rank - 1;
            let ghost before = placement@;
            let mut empty: u32 = 0;
            let mut file: usize = 0;
            while file < 8
                invariant
                    file <= 8,
                    board_rank < 8,
                    empty <= file,
                    placement@ + rank_text(arr@, board_rank as int, file as int, empty as nat) == before + rank_text(
                        arr@,
                        board_rank as int,
                        0,
                        0,
                    ),
                decreases 8 - file,
            {
                let sq = board_rank * 8 + file;
                let ghost p0 = placement@;
                let ghost e0 = empty;
                match arr[sq] {
                    Some(piece) => {
                        if empty > 0 {
                            push_decimal(&mut placement, empty as usize);
                            empty = 0;
                        }
                        push_char(&mut placement, piece_to_char(piece));
                        proof {
                            assert(placement@ + rank_text(arr@, board_rank as int, file + 1, 0) =~= p0 + rank_text(
                                arr@,
                                board_rank as int,
                                file as int,
                                e0 as nat,
                            ));
                        }
                    },
                    None => {
                        empty = empty + 1;
                    },
                }
                file = file + 1;
            }
            if empty > 0 {
                push_decimal(&mut placement, empty as usize);
            }
            if board_rank > 0 {
                push_char(&mut placement, '/');
            }
            proof {
                assert(placement_text(arr@, board_rank as int) == if board_rank == 0 {
                    rank_text(arr@, 0, 0, 0)
                } else {
                    rank_text(arr@, board_rank as int, 0, 0) + seq!['/'] + placement_text(arr@, board_rank - 1)
                });
                if board_rank > 0 {
                    assert(placement@ + placement_text(arr@, board_rank - 1) =~= before + placement_text(
                        arr@,
                        board_rank as int,
                    ));
                } else {
                    assert(placement@ =~= before + placement_text(arr@, 0));
                }
            }
        }

    placement
}

/// Appends the castling field (see `castling_text`).
fn push_castling(out: &mut String, wk: bool, wq: bool, bk: bool, bq: bool)
    ensures
        final(out)@ == old(out)@ + castling_text(wk, wq, bk, bq),
{
    if wk {
        push_char(out, 'K');
    }
    if wq {
        push_char(out, 'Q');
    }
    if bk {
        push_char(out, 'k');
    }
    if bq {
        push_char(out, 'q');
    }
    if !(wk || wq || bk || bq) {
        push_char(out, '-');
    }
    proof {
        assert(out@ =~= old(out)@ + castling_text(wk, wq, bk, bq));
    }
}

/// Appends the en passant field (see `ep_text`).
fn push_ep(out: &mut String, ep: Option<usize>)
    requires
        ep matches Some(e) ==> (e / 8) % 256 <= 206,
    ensures
        final(out)@ == old(out)@ + ep_text(ep),
{
    match ep {
        Some(sq) => {
            let file = (97u8 + (sq % 8) as u8) as char;
            let rank = (49u8 + ((sq / 8) % 256) as u8) as char;
            push_char(out, file);
            push_char(out, rank);
        },
        None => {
            push_char(out, '-');
        },
    }
    proof {
        assert(out@ =~= old(out)@ + ep_text(ep));
    }
}

impl GameBoard {
    /// The first four FEN fields of the position with `side_to_move` to move: placement,
    /// side, castling rights and the raw en passant target, joined by spaces. The
    /// clocks are left out, so positions differing only in them give the same text.
    pub fn to_normfen(&self, side_to_move: Color) -> (r: String)
        requires
            self.en_passant_target matches Some(e) ==> (e / 8) % 256 <= 206,
        ensures
            r@ == normfen_of(
                self.board_arr@,
                side_to_move,
                self.white_kingside,
                self.white_queenside,
                self.black_kingside,
                self.black_queenside,
                self.en_passant_target,
            ),
    {
        // Field 1: the placement.
        let placement = placement_string(&self.board_arr);

        // Field 2: the side to move.
        let mut out = placement;
        out.append(" ");
        if side_to_move == Color::White {
            push_char(&mut out, 'w');
        } else {
            push_char(&mut out, 'b');
        }
        out.append(" ");

        // Field 3: the castling rights.
        push_castling(&mut out, self.white_kingside, self.white_queenside, self.black_kingside, self.black_queenside);
        out.append(" ");
        // Field 4: the en passant target as it is.
        push_ep(&mut out, self.en_passant_target);
        proof {
            reveal_strlit(" ");
            assert(out@ =~= placement_text(self.board_arr@, 7) + seq![' '] + (if side_to_move == Color::White {
                seq!['w']
            } else {
                seq!['b']
            }) + seq![' '] + castling_text(
                self.white_kingside,
                self.white_queenside,
                self.black_kingside,
                self.black_queenside,
            ) + seq![' '] + ep_text(self.en_passant_target));
        }
        out
    }
}

} // verus!
