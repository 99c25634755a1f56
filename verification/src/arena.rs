//! The schedule and the settings of a match between two models.
use vstd::prelude::*;
use vstd::string::StringExecFns;
use crate::game::fen::{chars_of, digits_value, parse_u32, parse_u32_spec, lemma_digits_value_prefix};

verus! {

/// One game of a match: the starting position to play, and whether model A has White.
#[derive(Debug, Clone, Copy, PartialEq, Eq, Structural)]
pub struct GameSlot {
    pub fen_index: usize,
    pub a_is_white: bool,
}

/// Slot `i` of the schedule over `num_fens` starting positions: pair `i / 2` plays
/// position `(i / 2) mod num_fens` (0 when there are none), A as White first.
pub open spec fn slot_of(i: int, num_fens: int) -> GameSlot {
    GameSlot {
        fen_index: (if num_fens == 0 {
            0
        } else {
            (i / 2) % num_fens
        }) as usize,
        a_is_white: i % 2 == 0,
    }
}

/// The schedule of `games` games over `num_fens` starting positions: `games / 2`
/// mirrored pairs, each playing one position twice, A as White and then B as White; the
/// positions cycle; an unpaired last game is dropped.
pub fn build_schedule(games: usize, num_fens: usize) -> (slots: Vec<GameSlot>)
    ensures
        slots@.len() == 2 * (games / 2),
        forall|i: int| 0 <= i < slots@.len() ==> #[trigger] slots@[i] == slot_of(i, num_fens as int),
{
    let pairs = games / 2;
    let mut slots: Vec<GameSlot> = Vec::new();
    let mut pair: usize = 0;
    while pair < pairs
        invariant
            pair <= pairs == games / 2,
            slots@.len() == 2 * pair,
            forall|i: int| 0 <= i < slots@.len() ==> #[trigger] slots@[i] == slot_of(i, num_fens as int),
        decreases pairs - pair,
    {
        let fen_index = if num_fens == 0 {
            0
        } else {
            pair % num_fens
        };
        slots.push(GameSlot { fen_index, a_is_white: true });
        slots.push(GameSlot { fen_index, a_is_white: false });
        proof {
            let n = 2 * pair as int;
            assert(n / 2 == pair && (n + 1) / 2 == pair && n % 2 == 0 && (n + 1) % 2 == 1);
            assert forall|i: int| 0 <= i < slots@.len() implies #[trigger] slots@[i] == slot_of(i, num_fens as int) by {
                if i >= n {
                    assert(i == n || i == n + 1);
                }
            }
        }
        pair = pair + 1;
    }
    slots
}

/// Each mirrored pair of a schedule plays one position with both colours: in pair `p`,
/// A has White in the first game and Black in the second, on the same position.
pub proof fn lemma_schedule_mirrored(games: usize, num_fens: usize, p: int)
    requires
        0 <= p < games / 2,
    ensures
        slot_of(2 * p, num_fens as int).a_is_white,
        !slot_of(2 * p + 1, num_fens as int).a_is_white,
        slot_of(2 * p, num_fens as int).fen_index == slot_of(2 * p + 1, num_fens as int).fen_index,
{
    assert((2 * p) / 2 == p && (2 * p + 1) / 2 == p);
}

/// Index `i` of `count` taken by stride over `line_count` lines: `floor(i * line_count /
/// count)`.
pub open spec fn stride_at(i: int, line_count: int, count: int) -> int {
    (i * line_count) / count
}

/// `count` line indices spread by stride over the whole of `line_count` lines (index `i`
/// is `floor(i * line_count / count)`); none when either is 0.
pub fn stride_indices(line_count: usize, count: usize) -> (r: Vec<usize>)
    requires
        count > 0 ==> (count - 1) * line_count <= usize::MAX,
    ensures
        r@.len() == (if count == 0 || line_count == 0 {
            0
        } else {
            count as int
        }),
        forall|i: int| 0 <= i < r@.len() ==> #[trigger] r@[i] == stride_at(i, line_count as int, count as int),
{
    if count == 0 || line_count == 0 {
        return Vec::new();
    }
    let mut r: Vec<usize> = Vec::new();
    let mut i: usize = 0;
    while i < count
        invariant
            0 < count,
            0 < line_count,
            (count - 1) * line_count <= usize::MAX,
            i <= count,
            r@.len() == i,
            forall|j: int| 0 <= j < i ==> #[trigger] r@[j] == stride_at(j, line_count as int, count as int),
        decreases count - i,
    {
        assert(i * line_count <= (count - 1) * line_count) by (nonlinear_arith)
            requires
                i < count,
        ;
        let v = (i * line_count) / count;
        r.push(v);
        i = i + 1;
    }
    r
}

/// Stride indices start at the first line, never go back, and stay inside the file.
pub proof fn lemma_stride_in_bounds(line_count: int, count: int, i: int, j: int)
    requires
        0 < count,
        0 < line_count,
        0 <= i <= j < count,
    ensures
        stride_at(0, line_count, count) == 0,
        stride_at(i, line_count, count) <= stride_at(j, line_count, count),
        0 <= stride_at(j, line_count, count) < line_count,
{
    assert((i * line_count) / count <= (j * line_count) / count) by (nonlinear_arith)
        requires
            0 <= i <= j,
            0 < line_count,
            0 < count,
    {
        assert(i * line_count <= j * line_count);
        vstd::arithmetic::div_mod::lemma_div_is_ordered(i * line_count, j * line_count, count);
    }
    assert(0 <= (j * line_count) / count < line_count) by (nonlinear_arith)
        requires
            0 <= j < count,
            0 < line_count,
    {
        assert(j * line_count < count * line_count);
        vstd::arithmetic::div_mod::lemma_div_by_multiple_is_strongly_ordered(j * line_count, count * line_count, line_count, count);
    }
}

/// The settings of a match: the two model checkpoints, the number of games, the
/// simulations per move, the file of starting positions, how many games run at once, and
/// the device.
#[derive(Debug, Clone, PartialEq)]
pub struct ArenaArgs {
    pub model_a: String,
    pub model_b: String,
    pub games: usize,
    pub sims: u32,
    pub starts: String,
    pub concurrency: usize,
    pub device: String,
}

/// What the flags read so far have set.
pub struct ArgsSeen {
    pub model_a: Option<Seq<char>>,
    pub model_b: Option<Seq<char>>,
    pub games: Option<usize>,
    pub sims: u32,
    pub starts: Seq<char>,
    pub concurrency: usize,
    pub device: Seq<char>,
}

/// The value of `d` when it is at least one decimal digit and nothing else, and fits.
pub open spec fn digits_usize(d: Seq<char>) -> Option<usize> {
    if d.len() > 0 && (forall|i: int| 0 <= i < d.len() ==> '0' <= #[trigger] d[i] <= '9') && digits_value(d)
        <= usize::MAX {
        Some(digits_value(d) as usize)
    } else {
        None
    }
}

/// What `str::parse::<usize>` gives on `t`: an optional `+` sign, then at least one
/// decimal digit and nothing else, for a value that fits.
pub open spec fn parse_usize_spec(t: Seq<char>) -> Option<usize> {
    digits_usize(
        if t.len() > 0 && t[0] == '+' {
            t.subrange(1, t.len() as int)
        } else {
            t
        },
    )
}

/// The settings before any flag: 100 simulations, the default file of starting
/// positions, 4 games at once, and `device`.
pub open spec fn args_start(device: Seq<char>) -> ArgsSeen {
    ArgsSeen {
        model_a: None,
        model_b: None,
        games: None,
        sims: 100,
        starts: "data/starting_positions.txt"@,
        concurrency: 4,
        device,
    }
}

/// Reading the flags `a` from the `i`-th on over `st`: each known flag takes the next
/// argument as its value (a later flag overriding an earlier one); a flag without a
/// value, a number that does not parse, or an unknown argument ends it with a message.
pub open spec fn args_scan(a: Seq<Seq<char>>, i: int, st: ArgsSeen) -> Result<ArgsSeen, Seq<char>>
    decreases a.len() - i,
{
    if i < 0 || i >= a.len() {
        Ok(st)
    } else {
        let flag = a[i];
        let has_value = i + 1 < a.len();
        let v = a[i + 1];
        if flag == "--model-a"@ {
            if !has_value {
                Err("--model-a requires a value"@)
            } else {
                args_scan(a, i + 2, ArgsSeen { model_a: Some(v), ..st })
            }
        } else if flag == "--model-b"@ {
            if !has_value {
                Err("--model-b requires a value"@)
            } else {
                args_scan(a, i + 2, ArgsSeen { model_b: Some(v), ..st })
            }
        } else if flag == "--games"@ {
            if !has_value {
                Err("--games requires a value"@)
            } else {
                match parse_usize_spec(v) {
                    Some(n) => args_scan(a, i + 2, ArgsSeen { games: Some(n), ..st }),
                    None => Err("invalid --games: "@ + v),
                }
            }
        } else if flag == "--sims"@ {
            if !has_value {
                Err("--sims requires a value"@)
            } else {
                match parse_u32_spec(v) {
                    Some(n) => args_scan(a, i + 2, ArgsSeen { sims: n, ..st }),
                    None => Err("invalid --sims: "@ + v),
                }
            }
        } else if flag == "--starts"@ {
            if !has_value {
                Err("--starts requires a value"@)
            } else {
                args_scan(a, i + 2, ArgsSeen { starts: v, ..st })
            }
        } else if flag == "--concurrency"@ {
            if !has_value {
                Err("--concurrency requires a value"@)
            } else {
                match parse_usize_spec(v) {
                    Some(n) => args_scan(a, i + 2, ArgsSeen { concurrency: n, ..st }),
                    None => Err("invalid --concurrency: "@ + v),
                }
            }
        } else if flag == "--device"@ {
            if !has_value {
                Err("--device requires a value"@)
            } else {
                args_scan(a, i + 2, ArgsSeen { device: v, ..st })
            }
        } else {
            Err("unknown argument: "@ + flag)
        }
    }
}

/// The settings once all flags are read: both models and the number of games are
/// required, there must be at least 2 games (one mirrored pair), and at least 1 at once.
pub open spec fn args_result(a: Seq<Seq<char>>, device: Seq<char>) -> Result<ArgsSeen, Seq<char>> {
    match args_scan(a, 0, args_start(device)) {
        Err(m) => Err(m),
        Ok(st) => if st.model_a is None {
            Err("missing required --model-a <ckpt.pt>"@)
        } else if st.model_b is None {
            Err("missing required --model-b <ckpt.pt>"@)
        } else if st.games is None {
            Err("missing required --games <N>"@)
        } else if st.games->0 < 2 {
            Err("--games must be >= 2 (mirrored pairs)"@)
        } else if st.concurrency == 0 {
            Err("--concurrency must be >= 1"@)
        } else {
            Ok(st)
        },
    }
}

/// The text of each argument.
pub open spec fn texts(args: Seq<String>) -> Seq<Seq<char>> {
    args.map_values(|s: String| s@)
}

/// What `str::parse::<usize>` gives on `s[a..b]` (see `parse_usize_spec`).
fn parse_usize(s: &Vec<char>, a: usize, b: usize) -> (r: Option<usize>)
    requires
        a <= b <= s.len(),
    ensures
        r == parse_usize_spec(s@.subrange(a as int, b as int)),
{
    let ghost t = s@.subrange(a as int, b as int);
    let start = if b > a && s[a] == '+' {
        a + 1
    } else {
        a
    };
    let ghost d = s@.subrange(start as int, b as int);
    proof {
        if b > a && s[a as int] == '+' {
            assert(t.subrange(1, t.len() as int) =~= d);
        } else {
            assert(t =~= d);
        }
    }
    if start == b {
        return None;
    }
    let mut i = start;
    while i < b
        invariant
            start <= i <= b <= s.len(),
            d == s@.subrange(start as int, b as int),
            forall|j: int| 0 <= j < i - start ==> '0' <= #[trigger] d[j] <= '9',
            parse_usize_spec(s@.subrange(a as int, b as int)) == digits_usize(d),
        decreases b - i,
    {
        if !('0' <= s[i] && s[i] <= '9') {
            proof {
                assert(!('0' <= d[i - start] <= '9'));
            }
            return None;
        }
        i = i + 1;
    }
    let mut acc: u128 = 0;
    let mut j = start;
    while j < b
        invariant
            start <= j <= b <= s.len(),
            d == s@.subrange(start as int, b as int),
            forall|k: int| 0 <= k < d.len() ==> '0' <= #[trigger] d[k] <= '9',
            acc == digits_value(d.subrange(0, j - start)),
            acc <= usize::MAX,
            parse_usize_spec(s@.subrange(a as int, b as int)) == digits_usize(d),
        decreases b - j,
    {
        assert(d[j - start] == s@[j as int]);
        let dv = (s[j] as u32 - '0' as u32) as u128;
        proof {
            assert(d.subrange(0, j - start + 1).drop_last() =~= d.subrange(0, j - start));
            assert(d.subrange(0, j - start + 1).last() == s@[j as int]);
        }
        acc = acc * 10 + dv;
        if acc > usize::MAX as u128 {
            proof {
                lemma_digits_value_prefix(d, j - start + 1);
            }
            return None;
        }
        j = j + 1;
    }
    proof {
        assert(d.subrange(0, d.len() as int) =~= d);
    }
    Some(acc as usize)
}

/// Whether `s` is the text `lit`.
fn is_text(s: &String, lit: &str) -> (r: bool)
    ensures
        r == (s@ == lit@),
{
    let l = String::from_str(lit);
    s.eq(&l)
}

/// The message `head` followed by the text `v`.
fn message(head: &str, v: &String) -> (r: String)
    ensures
        r@ == head@ + v@,
{
    let mut m = String::from_str(head);
    m.append(v.as_str());
    m
}

/// Reads the settings of a match from `args` (without the program name), with
/// `default_device` as the device when no `--device` flag is given (see `args_scan` and
/// `args_result`); fails with the message of the first fault.
pub fn parse_args(args: Vec<String>, default_device: String) -> (r: Result<ArenaArgs, String>)
    ensures
        match args_result(texts(args@), default_device@) {
            Err(m) => r matches Err(e) && e@ == m,
            Ok(st) => r matches Ok(x) && {
                &&& st.model_a == Some(x.model_a@)
                &&& st.model_b == Some(x.model_b@)
                &&& st.games == Some(x.games)
                &&& x.sims == st.sims
                &&& x.starts@ == st.starts
                &&& x.concurrency == st.concurrency
                &&& x.device@ == st.device
            },
        },
{
    let ghost a = texts(args@);
    let mut model_a: Option<String> = None;
    let mut model_b: Option<String> = None;
    let mut games: Option<usize> = None;
    let mut sims: u32 = 100;
    let mut starts = String::from_str("data/starting_positions.txt");
    let mut concurrency: usize = 4;
    let mut device = default_device;
    let mut i: usize = 0;
    while i < args.len()
        invariant
            a == texts(args@),
            a.len() == args@.len(),
            i <= args.len(),
            args_scan(a, 0, args_start(default_device@)) == args_scan(
                a,
                i as int,
                ArgsSeen {
                    model_a: match model_a {
                        Some(m) => Some(m@),
                        None => None,
                    },
                    model_b: match model_b {
                        Some(m) => Some(m@),
                        None => None,
                    },
                    games,
                    sims,
                    starts: starts@,
                    concurrency,
                    device: device@,
                },
            ),
        decreases args.len() - i,
    {
        let flag = &args[i];
        let has_value = i + 1 < args.len();
        assert(a[i as int] == flag@);
        if has_value {
            assert(a[i + 1] == args@[i + 1]@);
        }
        if is_text(flag, "--model-a") {
            if !has_value {
                return Err(String::from_str("--model-a requires a value"));
            }
            model_a = Some(args[i + 1].clone());
        } else if is_text(flag, "--model-b") {
            if !has_value {
                return Err(String::from_str("--model-b requires a value"));
            }
            model_b = Some(args[i + 1].clone());
        } else if is_text(flag, "--games") {
            if !has_value {
                return Err(String::from_str("--games requires a value"));
            }
            let v = &args[i + 1];
            let cs = chars_of(v.as_str());
            proof {
                assert(cs@.subrange(0, cs@.len() as int) =~= cs@);
            }
            match parse_usize(&cs, 0, cs.len()) {
                Some(n) => {
                    games = Some(n);
                },
                None => {
                    return Err(message("invalid --games: ", v));
                },
            }
        } else if is_text(flag, "--sims") {
            if !has_value {
                return Err(String::from_str("--sims requires a value"));
            }
            let v = &args[i + 1];
            let cs = chars_of(v.as_str());
            proof {
                assert(cs@.subrange(0, cs@.len() as int) =~= cs@);
            }
            match parse_u32(&cs, 0, cs.len()) {
                Some(n) => {
                    sims = n;
                },
                None => {
                    return Err(message("invalid --sims: ", v));
                },
            }
        } else if is_text(flag, "--starts") {
            if !has_value {
                return Err(String::from_str("--starts requires a value"));
            }
            starts = args[i + 1].clone();
        } else if is_text(flag, "--concurrency") {
            if !has_value {
                return Err(String::from_str("--concurrency requires a value"));
            }
            let v = &args[i + 1];
            let cs = chars_of(v.as_str());
            proof {
                assert(cs@.subrange(0, cs@.len() as int) =~= cs@);
            }
            match parse_usize(&cs, 0, cs.len()) {
                Some(n) => {
                    concurrency = n;
                },
                None => {
                    return Err(message("invalid --concurrency: ", v));
                },
            }
        } else if is_text(flag, "--device") {
            if !has_value {
                return Err(String::from_str("--device requires a value"));
            }
            device = args[i + 1].clone();
        } else {
            return Err(message("unknown argument: ", flag));
        }
        i = i + 2;
    }
    let model_a = match model_a {
        Some(m) => m,
        None => {
            return Err(String::from_str("missing required --model-a <ckpt.pt>"));
        },
    };
    let model_b = match model_b {
        Some(m) => m,
        None => {
            return Err(String::from_str("missing required --model-b <ckpt.pt>"));
        },
    };
    let games = match games {
        Some(g) => g,
        None => {
            return Err(String::from_str("missing required --games <N>"));
        },
    };
    if games < 2 {
        return Err(String::from_str("--games must be >= 2 (mirrored pairs)"));
    }
    if concurrency == 0 {
        return Err(String::from_str("--concurrency must be >= 1"));
    }
    Ok(ArenaArgs { model_a, model_b, games, sims, starts, concurrency, device })
}

} // verus!
