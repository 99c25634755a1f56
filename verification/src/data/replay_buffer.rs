use vstd::prelude::*;
use crate::game::fen::{ascii_lower, chars_of, is_space, is_space_exec};

verus! {

/// How value targets are computed for the sampled steps.
#[derive(Debug, Clone, Copy, PartialEq, Eq, Structural)]
pub enum ValueTargetMode {
    /// n-step temporal-difference targets.
    Td,
    /// The final game outcome for every step.
    Outcome,
}

/// `s` without its leading white space.
pub open spec fn trim_start(s: Seq<char>) -> Seq<char>
    decreases s.len(),
{
    if s.len() > 0 && is_space(s[0]) {
        trim_start(s.drop_first())
    } else {
        s
    }
}

/// `s` without its trailing white space.
pub open spec fn trim_end(s: Seq<char>) -> Seq<char>
    decreases s.len(),
{
    if s.len() > 0 && is_space(s.last()) {
        trim_end(s.drop_last())
    } else {
        s
    }
}

/// `s` without leading and trailing white space.
pub open spec fn trimmed(s: Seq<char>) -> Seq<char> {
    trim_end(trim_start(s))
}

/// `s` with its ASCII letters in lower case.
pub open spec fn lowered(s: Seq<char>) -> Seq<char> {
    s.map_values(|c: char| ascii_lower(c))
}

/// Whether `s`, trimmed, is `outcome` in any mix of cases.
pub open spec fn names_outcome(s: Seq<char>) -> bool {
    lowered(trimmed(s)) == seq!['o', 'u', 't', 'c', 'o', 'm', 'e']
}

/// Whether `s`, trimmed and lower-cased, is one of `0`, `false`, `no`.
pub open spec fn names_off(s: Seq<char>) -> bool {
    let t = lowered(trimmed(s));
    t == seq!['0'] || t == seq!['f', 'a', 'l', 's', 'e'] || t == seq!['n', 'o']
}

/// When the first `lo` characters are white space and the next is not (or there is
/// none), trimming the front leaves what follows them.
proof fn lemma_trim_start(s: Seq<char>, lo: int)
    requires
        0 <= lo <= s.len(),
        forall|i: int| 0 <= i < lo ==> is_space(#[trigger] s[i]),
        lo == s.len() || !is_space(s[lo]),
    ensures
        trim_start(s) == s.subrange(lo, s.len() as int),
    decreases lo,
{
    if lo == 0 {
        assert(s.subrange(0, s.len() as int) =~= s);
    } else {
        let t = s.drop_first();
        assert forall|i: int| 0 <= i < lo - 1 implies is_space(#[trigger] t[i]) by {
            assert(t[i] == s[i + 1]);
        }
        lemma_trim_start(t, lo - 1);
        assert(t.subrange(lo - 1, t.len() as int) =~= s.subrange(lo, s.len() as int));
    }
}

/// When the characters from `hi` on are white space and the one before is not (or there
/// is none), trimming the back leaves the first `hi`.
proof fn lemma_trim_end(s: Seq<char>, hi: int)
    requires
        0 <= hi <= s.len(),
        forall|i: int| hi <= i < s.len() ==> is_space(#[trigger] s[i]),
        hi == 0 || !is_space(s[hi - 1]),
    ensures
        trim_end(s) == s.subrange(0, hi),
    decreases s.len() - hi,
{
    if hi == s.len() {
        assert(s.subrange(0, hi) =~= s);
    } else {
        let t = s.drop_last();
        assert forall|i: int| hi <= i < t.len() implies is_space(#[trigger] t[i]) by {
            assert(t[i] == s[i]);
        }
        lemma_trim_end(t, hi);
        assert(t.subrange(0, hi) =~= s.subrange(0, hi));
    }
}

/// The characters of `s` without leading and trailing white space, lower-cased.
pub(crate) fn trimmed_lower(s: &str) -> (r: Vec<char>)
    ensures
        r@ == lowered(trimmed(s@)),
{
    let v = chars_of(s);
    let n = v.len();
    let mut lo: usize = 0;
    while lo < n && is_space_exec(v[lo])
        invariant
            lo <= n == v@.len(),
            forall|i: int| 0 <= i < lo ==> is_space(#[trigger] v@[i]),
        decreases n - lo,
    {
        lo = lo + 1;
    }
    proof {
        lemma_trim_start(v@, lo as int);
    }
    let ghost front = v@.subrange(lo as int, n as int);
    let mut hi: usize = n;
    while hi > lo && is_space_exec(v[hi - 1])
        invariant
            lo <= hi <= n == v@.len(),
            front == v@.subrange(lo as int, n as int),
            forall|i: int| hi <= i < n ==> is_space(#[trigger] v@[i]),
        decreases hi,
    {
        hi = hi - 1;
    }
    proof {
        assert forall|i: int| hi - lo <= i < front.len() implies is_space(#[trigger] front[i]) by {
            assert(front[i] == v@[i + lo]);
        }
        if hi > lo {
            assert(front[hi - lo - 1] == v@[hi - 1]);
        }
        lemma_trim_end(front, hi - lo);
        assert(front.subrange(0, hi - lo) =~= v@.subrange(lo as int, hi as int));
    }
    let mut r: Vec<char> = Vec::new();
    let mut i: usize = lo;
    while i < hi
        invariant
            lo <= i <= hi <= n == v@.len(),
            r@ =~= lowered(v@.subrange(lo as int, i as int)),
        decreases hi - i,
    {
        let c = v[i];
        let l = if 'A' <= c && c <= 'Z' {
            ((c as u8) + 32) as char
        } else {
            c
        };
        r.push(l);
        i = i + 1;
        proof {
            assert(v@.subrange(lo as int, i as int) =~= v@.subrange(lo as int, i - 1).push(c));
        }
    }
    r
}

/// Whether the characters of `v` are those of `w`.
fn same_chars(v: &Vec<char>, w: &[char]) -> (r: bool)
    ensures
        r == (v@ == w@),
{
    if v.len() != w.len() {
        return false;
    }
    let mut i: usize = 0;
    while i < v.len()
        invariant
            i <= v@.len() == w@.len(),
            forall|j: int| 0 <= j < i ==> v@[j] == w@[j],
        decreases v@.len() - i,
    {
        if v[i] != w[i] {
            return false;
        }
        i = i + 1;
    }
    assert(v@ =~= w@);
    true
}

/// The value-target mode that setting `raw` asks for: `Outcome` when it is `outcome` in
/// any mix of cases, with white space around it allowed; `Td` for anything else and when
/// it is not set.
pub fn parse_value_target_mode(raw: Option<&str>) -> (r: ValueTargetMode)
    ensures
        r == (if raw matches Some(v) && names_outcome(v@) {
            ValueTargetMode::Outcome
        } else {
            ValueTargetMode::Td
        }),
{
    match raw {
        Some(v) => {
            let t = trimmed_lower(v);
            let word = ['o', 'u', 't', 'c', 'o', 'm', 'e'];
            if same_chars(&t, &word) {
                proof {
                    assert(word@ =~= seq!['o', 'u', 't', 'c', 'o', 'm', 'e']);
                }
                ValueTargetMode::Outcome
            } else {
                proof {
                    assert(word@ =~= seq!['o', 'u', 't', 'c', 'o', 'm', 'e']);
                }
                ValueTargetMode::Td
            }
        },
        None => ValueTargetMode::Td,
    }
}

/// Whether n-step TD targets are on, given setting `raw`: on unless it is `0`, `false` or
/// `no` (trimmed, in any mix of cases); on when it is not set.
pub fn td_enabled_from(raw: Option<&str>) -> (r: bool)
    ensures
        r == !(raw matches Some(v) && names_off(v@)),
{
    match raw {
        Some(v) => {
            let t = trimmed_lower(v);
            let zero = ['0'];
            let no = ['n', 'o'];
            let off = ['f', 'a', 'l', 's', 'e'];
            let a = same_chars(&t, &zero);
            let b = same_chars(&t, &off);
            let c = same_chars(&t, &no);
            proof {
                assert(zero@ =~= seq!['0']);
                assert(no@ =~= seq!['n', 'o']);
                assert(off@ =~= seq!['f', 'a', 'l', 's', 'e']);
            }
            !(a || b || c)
        },
        None => true,
    }
}

} // verus!
