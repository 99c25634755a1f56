use vstd::prelude::*;
use crate::data::replay_buffer::{lowered, names_off, td_enabled_from, trimmed, trimmed_lower};

verus! {

/// Whether setting text `s` switches a feature on: once trimmed and lower-cased it is
/// neither empty nor one of `0`, `false`, `no`.
pub open spec fn names_on(s: Seq<char>) -> bool {
    lowered(trimmed(s)).len() > 0 && !names_off(s)
}

/// Whether a setting switches a feature on: it is set, and its text does (see
/// `names_on`); an unset setting leaves the feature off.
pub fn truthy(raw: Option<&str>) -> (r: bool)
    ensures
        r == (raw matches Some(v) && names_on(v@)),
{
    match raw {
        Some(v) => {
            let t = trimmed_lower(v);
            let on = td_enabled_from(raw);
            t.len() > 0 && on
        },
        None => false,
    }
}

} // verus!
