//! What reading back a written position gives: the text `to_normfen` writes, with clock
//! fields after it, is read by `board_from_fen` without fault into the same squares, side
//! to move, castling rights and en passant target.
use vstd::prelude::*;
use crate::{Color, Piece, PieceType};
use crate::game::GameBoard;
use crate::game::fen::{
    digit_of, is_space, piece_of_char, char_of_piece, decimal, step_of, files_to, places, placed,
    rank_fault, rank_piece, rank_text, placement_text, sep_pieces, placement_fault,
    space_fields, fields_of, split_on, field, is_single, fen_fault, fen_square, fen_side,
    fen_castles, fen_ep, fen_number, parse_u32_spec, digits_value, castling_text, ep_text, normfen_of,
};

verus! {

/// A character the text of a rank holds: a digit from 1 to 8, or a piece letter.
pub open spec fn rank_char(c: char) -> bool {
    ('1' <= c <= '8') || places(c)
}

/// Whether the character at `i` of the rank read from `a` is a digit or a piece letter,
/// and the rank has not yet reached its eighth file before it.
pub open spec fn char_ok(s: Seq<char>, a: int, i: int) -> bool {
    files_to(s, a, i) < 8 && rank_char(s[i])
}

/// Whether file `g` of board rank `br` of `arr` is empty.
pub open spec fn file_empty(arr: Seq<Option<Piece>>, br: int, g: int) -> bool {
    arr[br * 8 + g] is None
}

/// The letter of a piece places that piece, and is neither white space nor a slash.
proof fn lemma_piece_letter(p: Piece)
    ensures
        places(char_of_piece(p)),
        placed(char_of_piece(p)) == p,
        !is_space(char_of_piece(p)),
        char_of_piece(p) != '/',
        digit_of(char_of_piece(p)) is None,
{
    let c = char_of_piece(p);
    match p.piece_type {
        PieceType::Pawn => {},
        PieceType::Knight => {},
        PieceType::Bishop => {},
        PieceType::Rook => {},
        PieceType::Queen => {},
        PieceType::King => {},
    }
}

/// A run of 1 to 8 empty squares is written as one digit.
proof fn lemma_small_decimal(n: nat)
    requires
        1 <= n <= 8,
    ensures
        decimal(n) == seq![(48 + n) as char],
        digit_of(decimal(n)[0]) == Some(n as u32),
        '1' <= decimal(n)[0] <= '8',
        !places(decimal(n)[0]),
{
}

/// Files only grow along a rank.
proof fn lemma_files_grow(s: Seq<char>, a: int, i: int, j: int)
    requires
        a <= i <= j,
    ensures
        files_to(s, a, i) <= files_to(s, a, j),
        files_to(s, a, i) >= 0,
    decreases j - a,
{
    if j > i {
        lemma_files_grow(s, a, i, j - 1);
        assert(step_of(s[j - 1]) >= 0);
    } else if i > a {
        lemma_files_grow(s, a, i - 1, i - 1);
        assert(step_of(s[i - 1]) >= 0);
    }
}

/// No character before `j` places a piece at a file from `files_to(s, a, j)` on.
proof fn lemma_no_piece_ahead(s: Seq<char>, a: int, j: int, g: int)
    requires
        a <= j,
        g >= files_to(s, a, j),
    ensures
        rank_piece(s, a, j, g) is None,
    decreases j - a,
{
    if j > a {
        lemma_files_grow(s, a, j - 1, j);
        if places(s[j - 1]) {
            assert(step_of(s[j - 1]) == 1);
        }
        lemma_no_piece_ahead(s, a, j - 1, g);
    }
}

/// Characters from `m` on place pieces only at files from `files_to(s, a, m)` on, so for
/// an earlier file the search stops at `m`.
proof fn lemma_piece_before(s: Seq<char>, a: int, m: int, j: int, g: int)
    requires
        a <= m <= j,
        g < files_to(s, a, m),
    ensures
        rank_piece(s, a, j, g) == rank_piece(s, a, m, g),
    decreases j - m,
{
    if j > m {
        lemma_files_grow(s, a, m, j - 1);
        lemma_piece_before(s, a, m, j - 1, g);
    }
}

/// The length of the digit written for `e` pending empty squares (none for none).
pub open spec fn run_len(e: nat) -> int {
    if e > 0 {
        1
    } else {
        0
    }
}

/// The text of a rank from file `f` that holds a piece when `e` empty squares are pending:
/// the run of empties, the letter, then the rest from the next file.
proof fn lemma_rank_text_piece(arr: Seq<Option<Piece>>, br: int, f: int, e: nat, p: Piece)
    requires
        0 <= f < 8,
        arr[br * 8 + f] == Some(p),
    ensures
        rank_text(arr, br, f, e) == (if e > 0 {
            decimal(e)
        } else {
            Seq::<char>::empty()
        }) + seq![char_of_piece(p)] + rank_text(arr, br, f + 1, 0),
{
}

/// The end of a rank: the pending run of `e` empty squares, written at `s[m..]` where the
/// rank has reached file `8 - e`.
proof fn lemma_rank_end_read(s: Seq<char>, a: int, m: int, arr: Seq<Option<Piece>>, br: int, e: nat)
    requires
        arr.len() == 64,
        0 <= br < 8,
        e <= 8,
        0 <= a <= m,
        m + rank_text(arr, br, 8, e).len() <= s.len(),
        s.subrange(m, m + rank_text(arr, br, 8, e).len()) == rank_text(arr, br, 8, e),
        files_to(s, a, m) == 8 - e,
        forall|g: int| 8 - e <= g < 8 ==> #[trigger] file_empty(arr, br, g),
    ensures
        files_to(s, a, m + rank_text(arr, br, 8, e).len()) == 8,
        forall|i: int|
            m <= i < m + rank_text(arr, br, 8, e).len() ==> #[trigger] char_ok(s, a, i),
        forall|g: int| 8 - e <= g < 8 ==> #[trigger] rank_piece(s, a, m + rank_text(arr, br, 8, e).len(), g) == arr[br * 8 + g],
{
    let t = rank_text(arr, br, 8, e);
    if e > 0 {
        lemma_small_decimal(e);
        assert(t == decimal(e));
        assert(s[m] == t[0]);
        assert(files_to(s, a, m + 1) == files_to(s, a, m) + step_of(s[m]));
        assert forall|i: int| m <= i < m + t.len() implies #[trigger] char_ok(s, a, i) by {
            assert(i == m);
        }
        assert forall|g: int| 8 - e <= g < 8 implies #[trigger] rank_piece(s, a, m + t.len(), g) == arr[br * 8 + g] by {
            assert(file_empty(arr, br, g));
            lemma_no_piece_ahead(s, a, m, g);
        }
    }
}

/// The run and the letter before the rest of a rank, written at `s[m..]`: after them the
/// rank has reached file `f + 1`, and the rest follows.
proof fn lemma_rank_piece_read(s: Seq<char>, a: int, m: int, arr: Seq<Option<Piece>>, br: int, f: int, e: nat, p: Piece)
    requires
        arr.len() == 64,
        0 <= br < 8,
        0 <= e <= f < 8,
        arr[br * 8 + f] == Some(p),
        0 <= a <= m,
        m + rank_text(arr, br, f, e).len() <= s.len(),
        s.subrange(m, m + rank_text(arr, br, f, e).len()) == rank_text(arr, br, f, e),
        files_to(s, a, m) == f - e,
        forall|g: int| f - e <= g < f ==> #[trigger] file_empty(arr, br, g),
    ensures
        rank_text(arr, br, f, e).len() == run_len(e) + 1 + rank_text(arr, br, f + 1, 0).len(),
        s.subrange(m + run_len(e) + 1, m + run_len(e) + 1 + rank_text(arr, br, f + 1, 0).len()) == rank_text(
            arr,
            br,
            f + 1,
            0,
        ),
        files_to(s, a, m + run_len(e) + 1) == f + 1,
        forall|i: int| m <= i < m + run_len(e) + 1 ==> #[trigger] char_ok(s, a, i),
        forall|g: int| f - e <= g <= f ==> #[trigger] rank_piece(s, a, m + run_len(e) + 1, g) == arr[br * 8 + g],
{
    let t = rank_text(arr, br, f, e);
    let c = char_of_piece(p);
    let rest = rank_text(arr, br, f + 1, 0);
    let r: int = run_len(e);
    lemma_rank_text_piece(arr, br, f, e, p);
    lemma_piece_letter(p);
    if e > 0 {
        lemma_small_decimal(e);
        assert(s[m] == t[0]);
        assert(files_to(s, a, m + 1) == files_to(s, a, m) + step_of(s[m]));
    }
    assert(t.len() == r + 1 + rest.len());
    assert(s[m + r] == t[r]);
    assert(s[m + r] == c);
    assert(files_to(s, a, m + r) == f);
    assert(files_to(s, a, m + r + 1) == files_to(s, a, m + r) + step_of(s[m + r]));
    assert(s.subrange(m + r + 1, m + r + 1 + rest.len()) =~= rest) by {
        assert forall|k: int| 0 <= k < rest.len() implies s.subrange(m + r + 1, m + r + 1 + rest.len())[k] == rest[k] by {
            assert(s[m + r + 1 + k] == t[r + 1 + k]);
        }
    }
    assert forall|i: int| m <= i < m + r + 1 implies #[trigger] char_ok(s, a, i) by {
        assert(s[i] == t[i - m]);
    }
    assert forall|g: int| f - e <= g <= f implies #[trigger] rank_piece(s, a, m + r + 1, g) == arr[br * 8 + g] by {
        if g < f {
            assert(file_empty(arr, br, g));
            assert(rank_piece(s, a, m + r + 1, g) == rank_piece(s, a, m + r, g));
            if e > 0 {
                assert(!places(s[m]));
                assert(rank_piece(s, a, m + 1, g) == rank_piece(s, a, m, g));
                lemma_no_piece_ahead(s, a, m, g);
            }
        } else {
            assert(places(s[m + r]) && files_to(s, a, m + r) == g);
            assert(rank_piece(s, a, m + r + 1, g) == Some(placed(s[m + r])));
        }
    }
}

/// Reading back the text of board rank `br` of `arr` from file `f` on, with `e` empty
/// squares pending, written at `s[m..]` where the rank has reached file `f - e`: it ends
/// at the eighth file, never reaches it before, holds only digits and piece letters, and
/// places on each file from `f - e` on the square's piece.
#[verifier::rlimit(50)]
pub proof fn lemma_rank_text_read(s: Seq<char>, a: int, m: int, arr: Seq<Option<Piece>>, br: int, f: int, e: nat)
    requires
        arr.len() == 64,
        0 <= br < 8,
        0 <= e <= f <= 8,
        0 <= a <= m,
        m + rank_text(arr, br, f, e).len() <= s.len(),
        s.subrange(m, m + rank_text(arr, br, f, e).len()) == rank_text(arr, br, f, e),
        files_to(s, a, m) == f - e,
        forall|g: int| f - e <= g < f ==> #[trigger] file_empty(arr, br, g),
    ensures
        files_to(s, a, m + rank_text(arr, br, f, e).len()) == 8,
        forall|i: int|
            m <= i < m + rank_text(arr, br, f, e).len() ==> #[trigger] char_ok(s, a, i),
        forall|g: int| f - e <= g < 8 ==> #[trigger] rank_piece(s, a, m + rank_text(arr, br, f, e).len(), g) == arr[br * 8 + g],
    decreases 8 - f,
{
    let t = rank_text(arr, br, f, e);
    if f >= 8 {
        lemma_rank_end_read(s, a, m, arr, br, e);
    } else {
        match arr[br * 8 + f] {
            Some(p) => {
                let r: int = run_len(e);
                let rest = rank_text(arr, br, f + 1, 0);
                lemma_rank_piece_read(s, a, m, arr, br, f, e, p);
                lemma_rank_text_read(s, a, m + r + 1, arr, br, f + 1, 0);
                assert forall|i: int| m <= i < m + t.len() implies #[trigger] char_ok(s, a, i) by {
                    if i >= m + r + 1 {
                        assert(m + r + 1 <= i < m + r + 1 + rest.len());
                    }
                }
                assert forall|g: int| f - e <= g < 8 implies #[trigger] rank_piece(s, a, m + t.len(), g) == arr[br * 8 + g] by {
                    if g <= f {
                        lemma_piece_before(s, a, m + r + 1, m + t.len(), g);
                    } else {
                        assert(f + 1 <= g < 8);
                    }
                }
            },
            None => {
                assert(t == rank_text(arr, br, f + 1, e + 1));
                assert forall|g: int| f - e <= g < f + 1 implies #[trigger] file_empty(arr, br, g) by {
                    if g < f {
                        assert(file_empty(arr, br, g));
                    }
                }
                lemma_rank_text_read(s, a, m, arr, br, f + 1, e + 1);
            },
        }
    }
}

/// A digit or piece letter is neither white space nor a slash.
proof fn lemma_rank_char_plain(c: char)
    requires
        rank_char(c),
    ensures
        !is_space(c),
        c != '/',
        digit_of(c) is Some || piece_of_char(c) is Ok,
{
}

/// A rank read without reaching its eighth file early, and ending on it, has no fault
/// from any character on.
proof fn lemma_rank_no_fault(s: Seq<char>, a: int, b: int, ri: nat, i: int)
    requires
        a <= i <= b,
        files_to(s, a, b) == 8,
        forall|k: int| i <= k < b ==> #[trigger] char_ok(s, a, k),
    ensures
        rank_fault(s, a, b, ri, i) is None,
    decreases b - i,
{
    if i < b {
        assert(char_ok(s, a, i));
        lemma_rank_char_plain(s[i]);
        lemma_rank_no_fault(s, a, b, ri, i + 1);
    }
}

/// The text of a rank has at most one character per file still to write, and one for a
/// pending run.
proof fn lemma_rank_text_len(arr: Seq<Option<Piece>>, br: int, f: int, e: nat)
    requires
        0 <= e <= f <= 8,
    ensures
        rank_text(arr, br, f, e).len() <= 8 - f + run_len(e),
    decreases 8 - f,
{
    if e > 0 {
        lemma_small_decimal(e);
    }
    if f < 8 {
        match arr[br * 8 + f] {
            Some(p) => {
                lemma_rank_text_len(arr, br, f + 1, 0);
            },
            None => {
                lemma_rank_text_len(arr, br, f + 1, e + 1);
            },
        }
    }
}

/// Reading back the text of board rank `br`, written at `s[a..b]`: no fault, each file's
/// piece as on the board, and no white space or slash in it.
pub proof fn lemma_rank_read_back(s: Seq<char>, a: int, b: int, arr: Seq<Option<Piece>>, br: int, ri: nat)
    requires
        arr.len() == 64,
        0 <= br < 8,
        0 <= a,
        b == a + rank_text(arr, br, 0, 0).len(),
        b <= s.len(),
        s.subrange(a, b) == rank_text(arr, br, 0, 0),
    ensures
        rank_fault(s, a, b, ri, a) is None,
        forall|g: int| 0 <= g < 8 ==> #[trigger] rank_piece(s, a, b, g) == arr[br * 8 + g],
        forall|i: int| a <= i < b ==> !is_space(#[trigger] s[i]) && s[i] != '/',
        b - a <= 8,
{
    lemma_rank_text_read(s, a, a, arr, br, 0, 0);
    lemma_rank_no_fault(s, a, b, ri, a);
    lemma_rank_text_len(arr, br, 0, 0);
    assert forall|i: int| a <= i < b implies !is_space(#[trigger] s[i]) && s[i] != '/' by {
        assert(char_ok(s, a, i));
        lemma_rank_char_plain(s[i]);
    }
}

/// Pieces of `s` up to `hi` with no separator in `s[i..j]` run on to `j`.
proof fn lemma_sep_run(s: Seq<char>, hi: int, sep: char, i: int, j: int, start: usize, acc: Seq<(usize, usize)>)
    requires
        i <= j <= hi,
        forall|k: int| i <= k < j ==> s[k] != sep,
    ensures
        sep_pieces(s, hi, sep, i, start, acc) == sep_pieces(s, hi, sep, j, start, acc),
    decreases j - i,
{
    if i < j {
        lemma_sep_run(s, hi, sep, i + 1, j, start, acc);
    }
}

/// Where the texts of board ranks `br` down to the first lie when the placement text is
/// written from `o` on: one range per rank, a slash between ranks.
pub open spec fn rank_ranges(arr: Seq<Option<Piece>>, br: int, o: int) -> Seq<(usize, usize)>
    decreases br,
{
    let n = rank_text(arr, br, 0, 0).len() as int;
    if br <= 0 {
        seq![(o as usize, (o + n) as usize)]
    } else {
        seq![(o as usize, (o + n) as usize)] + rank_ranges(arr, br - 1, o + n + 1)
    }
}

/// The placement text of ranks `br` down to the first is at most nine characters a rank.
proof fn lemma_placement_len(arr: Seq<Option<Piece>>, br: int)
    requires
        0 <= br,
    ensures
        placement_text(arr, br).len() <= 9 * br + 8,
    decreases br,
{
    lemma_rank_text_len(arr, br, 0, 0);
    if br > 0 {
        lemma_placement_len(arr, br - 1);
    }
}

/// Splitting the placement text of ranks `br` down to the first, written at `s[o..hi]`, on
/// slashes gives the ranges of the ranks (see `rank_ranges`), and each range holds its
/// rank's text read back as `lemma_rank_read_back` says.
pub proof fn lemma_placement_split(s: Seq<char>, arr: Seq<Option<Piece>>, br: int, o: int, acc: Seq<(usize, usize)>)
    requires
        arr.len() == 64,
        0 <= br < 8,
        0 <= o,
        o + placement_text(arr, br).len() <= s.len(),
        s.len() <= 1000,
        s.subrange(o, o + placement_text(arr, br).len()) == placement_text(arr, br),
    ensures
        sep_pieces(s, o + placement_text(arr, br).len(), '/', o, o as usize, acc) == acc + rank_ranges(arr, br, o),
        rank_ranges(arr, br, o).len() == br + 1,
        forall|k: int|
            0 <= k <= br ==> {
                let r = #[trigger] rank_ranges(arr, br, o)[k];
                &&& o <= r.0 <= r.1 <= o + placement_text(arr, br).len()
                &&& r.1 == r.0 + rank_text(arr, br - k, 0, 0).len()
                &&& s.subrange(r.0 as int, r.1 as int) == rank_text(arr, br - k, 0, 0)
            },
    decreases br,
{
    let hi = o + placement_text(arr, br).len();
    let t = rank_text(arr, br, 0, 0);
    let n = t.len() as int;
    lemma_rank_text_len(arr, br, 0, 0);
    assert(s.subrange(o, o + n) =~= t) by {
        assert forall|k: int| 0 <= k < n implies s.subrange(o, o + n)[k] == t[k] by {
            assert(s[o + k] == placement_text(arr, br)[k]);
        }
    }
    lemma_rank_read_back(s, o, o + n, arr, br, 0);
    lemma_sep_run(s, hi, '/', o, o + n, o as usize, acc);
    if br <= 0 {
        assert(placement_text(arr, br) == t);
        assert(acc.push((o as usize, hi as usize)) =~= acc + rank_ranges(arr, br, o));
    } else {
        let rest = placement_text(arr, br - 1);
        assert(placement_text(arr, br) == t + seq!['/'] + rest);
        assert(s[o + n] == '/') by {
            assert(s[o + n] == placement_text(arr, br)[n]);
        }
        assert(s.subrange(o + n + 1, o + n + 1 + rest.len()) =~= rest) by {
            assert forall|k: int| 0 <= k < rest.len() implies s.subrange(o + n + 1, o + n + 1 + rest.len())[k]
                == rest[k] by {
                assert(s[o + n + 1 + k] == placement_text(arr, br)[n + 1 + k]);
            }
        }
        let acc2 = acc.push((o as usize, (o + n) as usize));
        lemma_placement_split(s, arr, br - 1, o + n + 1, acc2);
        assert(acc2 + rank_ranges(arr, br - 1, o + n + 1) =~= acc + rank_ranges(arr, br, o));
        assert forall|k: int| 0 <= k <= br implies {
            let r = #[trigger] rank_ranges(arr, br, o)[k];
            &&& o <= r.0 <= r.1 <= o + placement_text(arr, br).len()
            &&& r.1 == r.0 + rank_text(arr, br - k, 0, 0).len()
            &&& s.subrange(r.0 as int, r.1 as int) == rank_text(arr, br - k, 0, 0)
        } by {
            if k > 0 {
                assert(rank_ranges(arr, br, o)[k] == rank_ranges(arr, br - 1, o + n + 1)[k - 1]);
            }
        }
    }
}

/// With every rank from number `ri` on read without fault, the placement has no fault.
proof fn lemma_placement_no_fault(s: Seq<char>, ranks: Seq<(usize, usize)>, ri: int)
    requires
        0 <= ri,
        forall|k: int|
            ri <= k < ranks.len() ==> #[trigger] rank_fault(s, ranks[k].0 as int, ranks[k].1 as int, k as nat, ranks[k].0 as int)
                is None,
    ensures
        placement_fault(s, ranks, ri) is None,
    decreases ranks.len() - ri,
{
    if ri < ranks.len() {
        assert(rank_fault(s, ranks[ri].0 as int, ranks[ri].1 as int, ri as nat, ranks[ri].0 as int) is None);
        lemma_placement_no_fault(s, ranks, ri + 1);
    }
}

/// No white space in `s[i..j]`.
pub open spec fn no_space(s: Seq<char>, i: int, j: int) -> bool {
    forall|k: int| i <= k < j ==> !is_space(#[trigger] s[k])
}

/// Inside a run of non-space characters the current field goes on.
proof fn lemma_in_word(s: Seq<char>, m: int, j: int, a: usize, acc: Seq<(usize, usize)>)
    requires
        0 <= m <= j <= s.len(),
        no_space(s, m, j),
    ensures
        space_fields(s, m, Some(a), acc) == space_fields(s, j, Some(a), acc),
    decreases j - m,
{
    if m < j {
        assert(!is_space(s[m]));
        lemma_in_word(s, m + 1, j, a, acc);
    }
}

/// A field `s[i..j]` of non-space characters ended by a space or the end of `s` is found
/// as it is, and the search goes on after it.
proof fn lemma_word(s: Seq<char>, i: int, j: int, acc: Seq<(usize, usize)>)
    requires
        0 <= i < j <= s.len(),
        s.len() <= 1000,
        no_space(s, i, j),
        j < s.len() ==> is_space(s[j]),
    ensures
        space_fields(s, i, None, acc) == (if j == s.len() {
            acc.push((i as usize, j as usize))
        } else {
            space_fields(s, j + 1, None, acc.push((i as usize, j as usize)))
        }),
{
    assert(!is_space(s[i]));
    lemma_in_word(s, i + 1, j, i as usize, acc);
}

/// The characters of a rank's text are digits or piece letters.
proof fn lemma_rank_text_chars(arr: Seq<Option<Piece>>, br: int)
    requires
        arr.len() == 64,
        0 <= br < 8,
    ensures
        forall|i: int| 0 <= i < rank_text(arr, br, 0, 0).len() ==> rank_char(#[trigger] rank_text(arr, br, 0, 0)[i]),
{
    let t = rank_text(arr, br, 0, 0);
    assert(t.subrange(0, t.len() as int) =~= t);
    lemma_rank_text_read(t, 0, 0, arr, br, 0, 0);
    assert forall|i: int| 0 <= i < t.len() implies rank_char(#[trigger] t[i]) by {
        assert(char_ok(t, 0, i));
    }
}

/// The placement text holds no white space.
proof fn lemma_placement_plain(arr: Seq<Option<Piece>>, br: int)
    requires
        arr.len() == 64,
        0 <= br < 8,
    ensures
        no_space(placement_text(arr, br), 0, placement_text(arr, br).len() as int),
        placement_text(arr, br).len() > 0,
    decreases br,
{
    let t = rank_text(arr, br, 0, 0);
    lemma_rank_text_chars(arr, br);
    assert forall|i: int| 0 <= i < t.len() implies !is_space(#[trigger] t[i]) by {
        lemma_rank_char_plain(t[i]);
    }
    if br > 0 {
        lemma_placement_plain(arr, br - 1);
        let p = placement_text(arr, br);
        let rest = placement_text(arr, br - 1);
        assert(p == t + seq!['/'] + rest);
        assert forall|k: int| 0 <= k < p.len() implies !is_space(#[trigger] p[k]) by {
            if k < t.len() {
                assert(p[k] == t[k]);
            } else if k == t.len() {
                assert(p[k] == '/');
            } else {
                assert(p[k] == rest[k - t.len() - 1]);
            }
        }
    } else {
        assert(t.subrange(0, t.len() as int) =~= t);
        lemma_rank_text_read(t, 0, 0, arr, br, 0, 0);
        assert(t.len() > 0);
    }
}

/// The castling field: its letters are those of the rights held, it is "-" for none, and
/// it holds no white space.
proof fn lemma_castling_field(wk: bool, wq: bool, bk: bool, bq: bool)
    ensures
        castling_text(wk, wq, bk, bq).contains('K') == wk,
        castling_text(wk, wq, bk, bq).contains('Q') == wq,
        castling_text(wk, wq, bk, bq).contains('k') == bk,
        castling_text(wk, wq, bk, bq).contains('q') == bq,
        1 <= castling_text(wk, wq, bk, bq).len() <= 4,
        no_space(castling_text(wk, wq, bk, bq), 0, castling_text(wk, wq, bk, bq).len() as int),
{
    let c = castling_text(wk, wq, bk, bq);
    let a = if wk { seq!['K'] } else { Seq::<char>::empty() };
    let b = if wq { seq!['Q'] } else { Seq::<char>::empty() };
    let d = if bk { seq!['k'] } else { Seq::<char>::empty() };
    let e = if bq { seq!['q'] } else { Seq::<char>::empty() };
    let t = a + b + d + e;
    assert(forall|i: int| 0 <= i < t.len() ==> (t[i] == 'K' || t[i] == 'Q' || t[i] == 'k' || t[i] == 'q'));
    assert(forall|i: int| 0 <= i < t.len() && #[trigger] t[i] == 'K' ==> wk && i == 0);
    assert(forall|i: int| 0 <= i < t.len() && #[trigger] t[i] == 'Q' ==> wq && i == a.len());
    assert(forall|i: int| 0 <= i < t.len() && #[trigger] t[i] == 'k' ==> bk && i == a.len() + b.len());
    assert(forall|i: int| 0 <= i < t.len() && #[trigger] t[i] == 'q' ==> bq && i == a.len() + b.len() + d.len());
    if wk {
        assert(t[0] == 'K');
    }
    if wq {
        assert(t[a.len() as int] == 'Q');
    }
    if bk {
        assert(t[(a.len() + b.len()) as int] == 'k');
    }
    if bq {
        assert(t[(a.len() + b.len() + d.len()) as int] == 'q');
    }
    if t.len() == 0 {
        assert(c == seq!['-']);
        assert(!c.contains('K') && !c.contains('Q') && !c.contains('k') && !c.contains('q'));
    }
}

/// The digits "0" and "1" read as 0 and 1.
proof fn lemma_small_numbers()
    ensures
        parse_u32_spec(seq!['0']) == Some(0u32),
        parse_u32_spec(seq!['1']) == Some(1u32),
{
    let z = seq!['0'];
    let o = seq!['1'];
    assert(z.drop_last() =~= Seq::<char>::empty());
    assert(o.drop_last() =~= Seq::<char>::empty());
    assert(digits_value(Seq::<char>::empty()) == 0);
    assert(z.last() == '0' && o.last() == '1');
    assert(('0' as nat) == 48 && ('1' as nat) == 49);
    assert(digits_value(z) == 0);
    assert(digits_value(o) == 1);
}

/// The text read back: the four fields written, then the clock fields "0 1".
#[verifier::opaque]
pub open spec fn read_text(
    arr: Seq<Option<Piece>>,
    side: Color,
    wk: bool,
    wq: bool,
    bk: bool,
    bq: bool,
    ep: Option<usize>,
) -> Seq<char> {
    normfen_of(arr, side, wk, wq, bk, bq, ep) + seq![' ', '0', ' ', '1']
}

/// The side field written for `side`.
pub open spec fn side_text(side: Color) -> Seq<char> {
    if side == Color::White {
        seq!['w']
    } else {
        seq!['b']
    }
}

/// The six fields of the text read back, with `lp`, `lc` and `le` the lengths of the
/// placement, castling and en passant fields.
pub open spec fn read_fields(lp: int, lc: int, le: int) -> Seq<(usize, usize)> {
    seq![
        (0usize, lp as usize),
        ((lp + 1) as usize, (lp + 2) as usize),
        ((lp + 3) as usize, (lp + 3 + lc) as usize),
        ((lp + 4 + lc) as usize, (lp + 4 + lc + le) as usize),
        ((lp + 5 + lc + le) as usize, (lp + 6 + lc + le) as usize),
        ((lp + 7 + lc + le) as usize, (lp + 8 + lc + le) as usize),
    ]
}

/// Both parts of a concatenation are subranges of it.
proof fn lemma_cat(a: Seq<char>, b: Seq<char>)
    ensures
        (a + b).len() == a.len() + b.len(),
        (a + b).subrange(0, a.len() as int) == a,
        (a + b).subrange(a.len() as int, (a + b).len() as int) == b,
{
    assert((a + b).subrange(0, a.len() as int) =~= a);
    assert((a + b).subrange(a.len() as int, (a + b).len() as int) =~= b);
}

/// A subrange of a subrange is a subrange.
proof fn lemma_sub_sub(s: Seq<char>, x: Seq<char>, i: int, j: int, k: int, l: int)
    requires
        0 <= i <= j <= s.len(),
        s.subrange(i, j) == x,
        0 <= k <= l <= j - i,
    ensures
        s.subrange(i + k, i + l) == x.subrange(k, l),
{
    assert(s.subrange(i + k, i + l) =~= x.subrange(k, l)) by {
        assert forall|m: int| 0 <= m < l - k implies s.subrange(i + k, i + l)[m] == x.subrange(k, l)[m] by {
            assert(s[i + k + m] == x[k + m]);
        }
    }
}

/// A piece of text with no white space, at `s[i..j]`, keeps `s[i..j]` free of it.
proof fn lemma_plain_at(s: Seq<char>, x: Seq<char>, i: int, j: int)
    requires
        0 <= i <= j <= s.len(),
        s.subrange(i, j) == x,
        no_space(x, 0, x.len() as int),
    ensures
        no_space(s, i, j),
{
    assert forall|k: int| i <= k < j implies !is_space(#[trigger] s[k]) by {
        assert(s[k] == x[k - i]);
    }
}

/// The texts `p`, `sd`, `c`, `e`, "0" and "1" joined by single spaces.
pub open spec fn joined(p: Seq<char>, sd: Seq<char>, c: Seq<char>, e: Seq<char>) -> Seq<char> {
    p + seq![' '] + sd + seq![' '] + c + seq![' '] + e + seq![' ', '0', ' ', '1']
}

/// The six fields of `p`, `sd`, `c`, `e` and "0", "1" joined by single spaces, each of the
/// four a non-empty text with no white space.
#[verifier::rlimit(50)]
proof fn lemma_six_fields(p: Seq<char>, sd: Seq<char>, c: Seq<char>, e: Seq<char>)
    requires
        1 <= p.len() <= 100,
        sd.len() == 1,
        1 <= c.len() <= 4,
        1 <= e.len() <= 2,
        no_space(p, 0, p.len() as int),
        no_space(sd, 0, 1),
        no_space(c, 0, c.len() as int),
        no_space(e, 0, e.len() as int),
    ensures
        ({
            let s = joined(p, sd, c, e);
            let lp = p.len() as int;
            let lc = c.len() as int;
            let le = e.len() as int;
            &&& fields_of(s) == read_fields(lp, lc, le)
            &&& s.subrange(0, lp) == p
            &&& s.subrange(lp + 1, lp + 2) == sd
            &&& s.subrange(lp + 3, lp + 3 + lc) == c
            &&& s.subrange(lp + 4 + lc, lp + 4 + lc + le) == e
            &&& s.subrange(lp + 5 + lc + le, lp + 6 + lc + le) == seq!['0']
            &&& s.subrange(lp + 7 + lc + le, lp + 8 + lc + le) == seq!['1']
            &&& s.len() == lp + lc + le + 8
        }),
{
    let sp = seq![' '];
    let lp = p.len() as int;
    let lc = c.len() as int;
    let le = e.len() as int;
    let q1 = p + sp;
    let q2 = q1 + sd;
    let q3 = q2 + sp;
    let q4 = q3 + c;
    let q5 = q4 + sp;
    let q6 = q5 + e;
    let tail = seq![' ', '0', ' ', '1'];
    let s = q6 + tail;
    let n = s.len() as int;
    lemma_cat(p, sp);
    lemma_cat(q1, sd);
    lemma_cat(q2, sp);
    lemma_cat(q3, c);
    lemma_cat(q4, sp);
    lemma_cat(q5, e);
    lemma_cat(q6, tail);
    assert(n == lp + lc + le + 8);
    // Carry each part out to `s`.
    lemma_sub_sub(s, q6, 0, lp + lc + le + 4, 0, lp + lc + 4);
    assert(s.subrange(0, lp + lc + 4) == q5);
    lemma_sub_sub(s, q6, 0, lp + lc + le + 4, lp + lc + 4, lp + lc + le + 4);
    assert(s.subrange(lp + lc + 4, lp + lc + le + 4) == e);
    lemma_sub_sub(s, q5, 0, lp + lc + 4, 0, lp + lc + 3);
    assert(s.subrange(0, lp + lc + 3) == q4);
    lemma_sub_sub(s, q4, 0, lp + lc + 3, 0, lp + 3);
    assert(s.subrange(0, lp + 3) == q3);
    lemma_sub_sub(s, q4, 0, lp + lc + 3, lp + 3, lp + lc + 3);
    assert(s.subrange(lp + 3, lp + lc + 3) == c);
    lemma_sub_sub(s, q3, 0, lp + 3, 0, lp + 2);
    assert(s.subrange(0, lp + 2) == q2);
    lemma_sub_sub(s, q2, 0, lp + 2, 0, lp + 1);
    assert(s.subrange(0, lp + 1) == q1);
    lemma_sub_sub(s, q2, 0, lp + 2, lp + 1, lp + 2);
    assert(s.subrange(lp + 1, lp + 2) == sd);
    lemma_sub_sub(s, q1, 0, lp + 1, 0, lp);
    assert(s.subrange(0, lp) == p);
    // The spaces and the clock digits.
    assert(s[lp] == q1[lp]);
    assert(s[lp + 2] == q3[lp + 2]);
    assert(s[lp + lc + 3] == q5[lp + lc + 3]);
    assert(s[lp + lc + le + 4] == tail[0]);
    assert(s[lp + lc + le + 5] == tail[1]);
    assert(s[lp + lc + le + 6] == tail[2]);
    assert(s[lp + lc + le + 7] == tail[3]);
    assert(s.subrange(lp + 5 + lc + le, lp + 6 + lc + le) =~= seq!['0']);
    assert(s.subrange(lp + 7 + lc + le, lp + 8 + lc + le) =~= seq!['1']);
    lemma_plain_at(s, p, 0, lp);
    lemma_plain_at(s, sd, lp + 1, lp + 2);
    lemma_plain_at(s, c, lp + 3, lp + 3 + lc);
    lemma_plain_at(s, e, lp + 4 + lc, lp + 4 + lc + le);
    assert(no_space(s, lp + 5 + lc + le, lp + 6 + lc + le));
    assert(no_space(s, lp + 7 + lc + le, lp + 8 + lc + le));
    let w0 = seq![(0usize, lp as usize)];
    let w1 = w0.push(((lp + 1) as usize, (lp + 2) as usize));
    let w2 = w1.push(((lp + 3) as usize, (lp + 3 + lc) as usize));
    let w3 = w2.push(((lp + 4 + lc) as usize, (lp + 4 + lc + le) as usize));
    let w4 = w3.push(((lp + 5 + lc + le) as usize, (lp + 6 + lc + le) as usize));
    let w5 = w4.push(((lp + 7 + lc + le) as usize, (lp + 8 + lc + le) as usize));
    lemma_word(s, 0, lp, Seq::empty());
    assert(Seq::<(usize, usize)>::empty().push((0usize, lp as usize)) == w0);
    lemma_word(s, lp + 1, lp + 2, w0);
    lemma_word(s, lp + 3, lp + 3 + lc, w1);
    lemma_word(s, lp + 4 + lc, lp + 4 + lc + le, w2);
    lemma_word(s, lp + 5 + lc + le, lp + 6 + lc + le, w3);
    lemma_word(s, lp + 7 + lc + le, lp + 8 + lc + le, w4);
    assert(fields_of(s) == w5);
    assert(w5 =~= read_fields(lp, lc, le));
}

/// The text read back splits into its six fields, each holding what was written.
#[verifier::rlimit(100)]
proof fn lemma_read_fields(
    arr: Seq<Option<Piece>>,
    side: Color,
    wk: bool,
    wq: bool,
    bk: bool,
    bq: bool,
    ep: Option<usize>,
)
    requires
        arr.len() == 64,
        ep matches Some(e) ==> e < 64,
    ensures
        ({
            let s = read_text(arr, side, wk, wq, bk, bq, ep);
            let lp = placement_text(arr, 7).len() as int;
            let lc = castling_text(wk, wq, bk, bq).len() as int;
            let le = ep_text(ep).len() as int;
            &&& fields_of(s) == read_fields(lp, lc, le)
            &&& lp <= s.len() <= 1000
            &&& s.subrange(0, lp) == placement_text(arr, 7)
            &&& field(s, fields_of(s)[1]) == side_text(side)
            &&& field(s, fields_of(s)[2]) == castling_text(wk, wq, bk, bq)
            &&& field(s, fields_of(s)[3]) == ep_text(ep)
            &&& field(s, fields_of(s)[4]) == seq!['0']
            &&& field(s, fields_of(s)[5]) == seq!['1']
        }),
{
    let p = placement_text(arr, 7);
    let sd = side_text(side);
    let c = castling_text(wk, wq, bk, bq);
    let e = ep_text(ep);
    lemma_placement_plain(arr, 7);
    lemma_placement_len(arr, 7);
    lemma_castling_field(wk, wq, bk, bq);
    if let Some(t) = ep {
        assert(t % 8 < 8 && t / 8 < 8);
    }
    assert(no_space(e, 0, e.len() as int));
    assert(no_space(sd, 0, 1));
    lemma_six_fields(p, sd, c, e);
    assert(read_text(arr, side, wk, wq, bk, bq, ep) == joined(p, sd, c, e)) by {
        reveal(read_text);
    }
}

/// The placement of the text read back: eight ranks without fault, and each square
/// holding the piece written for it.
#[verifier::rlimit(50)]
proof fn lemma_read_ranks(s: Seq<char>, arr: Seq<Option<Piece>>)
    requires
        arr.len() == 64,
        placement_text(arr, 7).len() <= s.len() <= 1000,
        s.subrange(0, placement_text(arr, 7).len() as int) == placement_text(arr, 7),
    ensures
        ({
            let ranks = split_on(s, 0usize, placement_text(arr, 7).len() as usize, '/');
            &&& ranks.len() == 8
            &&& placement_fault(s, ranks, 0) is None
            &&& forall|k: int| 0 <= k < 64 ==> #[trigger] fen_square(s, ranks, k) == arr[k]
        }),
{
    lemma_placement_split(s, arr, 7, 0, Seq::empty());
    let ranks = split_on(s, 0usize, placement_text(arr, 7).len() as usize, '/');
    assert(ranks =~= rank_ranges(arr, 7, 0));
    assert forall|k: int| 0 <= k < 8 implies #[trigger] rank_fault(
        s,
        ranks[k].0 as int,
        ranks[k].1 as int,
        k as nat,
        ranks[k].0 as int,
    ) is None by {
        let r = rank_ranges(arr, 7, 0)[k];
        lemma_rank_read_back(s, r.0 as int, r.1 as int, arr, 7 - k, k as nat);
    }
    lemma_placement_no_fault(s, ranks, 0);
    let r0 = rank_ranges(arr, 7, 0)[0];
    lemma_rank_read_back(s, r0.0 as int, r0.1 as int, arr, 7, 0);
    assert forall|k: int| 0 <= k < 64 implies #[trigger] fen_square(s, ranks, k) == arr[k] by {
        let r = rank_ranges(arr, 7, 0)[7 - k / 8];
        lemma_rank_read_back(s, r.0 as int, r.1 as int, arr, k / 8, 0);
        assert(rank_piece(s, r.0 as int, r.1 as int, k % 8) == arr[(k / 8) * 8 + k % 8]);
    }
}

/// The text read back is the text written with the clock fields "0 1" after it.
pub proof fn lemma_read_text(
    arr: Seq<Option<Piece>>,
    side: Color,
    wk: bool,
    wq: bool,
    bk: bool,
    bq: bool,
    ep: Option<usize>,
)
    ensures
        read_text(arr, side, wk, wq, bk, bq, ep) == normfen_of(arr, side, wk, wq, bk, bq, ep) + seq![' ', '0', ' ', '1'],
{
    reveal(read_text);
}

/// What is read back of a written position: the first four FEN fields of a position (as
/// `to_normfen` writes them) whose en passant target, if any, is a square, followed by the
/// clock fields "0 1", are read by `board_from_fen` without fault, into
/// the same squares, side to move, castling rights and en passant target, with the
/// clocks 0 and 1.
#[verifier::rlimit(100)]
pub proof fn lemma_normfen_read_back(
    arr: Seq<Option<Piece>>,
    side: Color,
    wk: bool,
    wq: bool,
    bk: bool,
    bq: bool,
    ep: Option<usize>,
)
    requires
        arr.len() == 64,
        ep matches Some(e) ==> e < 64,
    ensures
        ({
            let s = read_text(arr, side, wk, wq, bk, bq, ep);
            let f = fields_of(s);
            let ranks = split_on(s, f[0].0, f[0].1, '/');
            &&& fen_fault(s) is None
            &&& forall|k: int| 0 <= k < 64 ==> #[trigger] fen_square(s, ranks, k) == arr[k]
            &&& fen_side(s) == side
            &&& fen_castles(s, 'K') == wk
            &&& fen_castles(s, 'Q') == wq
            &&& fen_castles(s, 'k') == bk
            &&& fen_castles(s, 'q') == bq
            &&& fen_ep(s) == ep
            &&& fen_number(s, 4) == 0
            &&& fen_number(s, 5) == 1
        }),
{
    let s = read_text(arr, side, wk, wq, bk, bq, ep);
    lemma_read_fields(arr, side, wk, wq, bk, bq, ep);
    lemma_castling_field(wk, wq, bk, bq);
    lemma_small_numbers();
    let f = fields_of(s);
    lemma_read_ranks(s, arr);
    if let Some(t) = ep {
        assert(t % 8 < 8 && t / 8 < 8);
        let ef = field(s, f[3]);
        assert(ef == ep_text(ep));
        assert(ef[0] as u32 == 97 + t % 8);
        assert(ef[1] as u32 == 49 + t / 8);
    }
}

/// The text written for a position leaves out the clocks: two boards with the same
/// squares, castling rights and en passant target give the same text for the same side
/// to move, whatever their halfmove clocks.
pub proof fn lemma_normfen_ignores_clocks(b1: GameBoard, b2: GameBoard, side: Color)
    requires
        b1.board_arr == b2.board_arr,
        b1.white_kingside == b2.white_kingside,
        b1.white_queenside == b2.white_queenside,
        b1.black_kingside == b2.black_kingside,
        b1.black_queenside == b2.black_queenside,
        b1.en_passant_target == b2.en_passant_target,
    ensures
        normfen_of(
            b1.board_arr@,
            side,
            b1.white_kingside,
            b1.white_queenside,
            b1.black_kingside,
            b1.black_queenside,
            b1.en_passant_target,
        ) == normfen_of(
            b2.board_arr@,
            side,
            b2.white_kingside,
            b2.white_queenside,
            b2.black_kingside,
            b2.black_queenside,
            b2.en_passant_target,
        ),
{
}

} // verus!
