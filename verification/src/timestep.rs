//! Parsing of timestep expressions such as `1d6h` into seconds.
//!
//! Units are `d` (days), `h` (hours), `m` (minutes) and `s` (seconds), in
//! either case; every unit must follow at least one digit, and trailing
//! digits without a unit reject the whole input.  A value that would not
//! fit the second count in a `u64` is rejected.

use vstd::prelude::*;
use crate::num::{spec_digit_value, spec_is_digit, MANT_LIMIT};

verus! {

/// Scanner state: whether digits are pending, their value, and the seconds
/// accumulated so far.
pub struct TsState {
    pub has: bool,
    pub buf: u128,
    pub total: u64,
}

pub open spec fn ts_init() -> TsState {
    TsState { has: false, buf: 0, total: 0 }
}

/// Seconds per unit letter; `0` marks an unknown letter.
pub open spec fn spec_unit_seconds(c: char) -> int {
    if c == 'd' || c == 'D' {
        86400
    } else if c == 'h' || c == 'H' {
        3600
    } else if c == 'm' || c == 'M' {
        60
    } else if c == 's' || c == 'S' {
        1
    } else {
        0
    }
}

/// One step of the timestep scanner.
pub open spec fn spec_ts_step(st: TsState, c: char) -> Option<TsState> {
    if spec_is_digit(c) {
        Some(
            TsState {
                has: true,
                buf: if st.buf > MANT_LIMIT {
                    st.buf
                } else {
                    (st.buf * 10 + spec_digit_value(c)) as u128
                },
                ..st
            },
        )
    } else if !st.has {
        None
    } else if st.buf > u64::MAX as u128 {
        None
    } else if spec_unit_seconds(c) == 0 {
        None
    } else if st.total + st.buf * spec_unit_seconds(c) > u64::MAX as int {
        None
    } else {
        Some(
            TsState {
                has: false,
                buf: 0,
                total: (st.total + st.buf * spec_unit_seconds(c)) as u64,
            },
        )
    }
}

pub open spec fn spec_ts_run(s: Seq<char>) -> Option<TsState>
    decreases s.len(),
{
    if s.len() == 0 {
        Some(ts_init())
    } else {
        match spec_ts_run(s.drop_last()) {
            Option::None => None,
            Option::Some(st) => spec_ts_step(st, s.last()),
        }
    }
}

/// The seconds described by a timestep expression, or `None` when the
/// input is not of the form `(digits unit)*`.
pub open spec fn spec_parse_timestep(s: Seq<char>) -> Option<u64> {
    match spec_ts_run(s) {
        Option::None => None,
        Option::Some(st) => if st.has {
            None
        } else {
            Some(st.total)
        },
    }
}

proof fn lemma_ts_run_none_extends(s: Seq<char>, i: int)
    requires
        0 <= i <= s.len(),
        spec_ts_run(s.take(i)) is None,
    ensures
        spec_ts_run(s) is None,
    decreases s.len() - i,
{
    if i == s.len() {
        assert(s.take(i) =~= s);
    } else {
        assert(s.take(i + 1).drop_last() =~= s.take(i));
        lemma_ts_run_none_extends(s, i + 1);
    }
}

fn ts_step(st: TsState, c: char) -> (r: Option<TsState>)
    ensures
        r == spec_ts_step(st, c),
{
    if c >= '0' && c <= '9' {
        let dv: u128 = (c as u32 - 48) as u128;
        Some(
            TsState {
                has: true,
                buf: if st.buf > MANT_LIMIT {
                    st.buf
                } else {
                    st.buf * 10 + dv
                },
                ..st
            },
        )
    } else if !st.has {
        None
    } else if st.buf > u64::MAX as u128 {
        None
    } else {
        let mult: u64 = if c == 'd' || c == 'D' {
            86400
        } else if c == 'h' || c == 'H' {
            3600
        } else if c == 'm' || c == 'M' {
            60
        } else if c == 's' || c == 'S' {
            1
        } else {
            0
        };
        if mult == 0 {
            None
        } else {
            proof {
                assert(st.buf as int * (mult as int) <= 18_446_744_073_709_551_615 * 86400)
                    by (nonlinear_arith)
                    requires
                        0 <= st.buf as int,
                        st.buf as int <= 18_446_744_073_709_551_615,
                        0 <= mult as int,
                        mult as int <= 86400;
            }
            let add: u128 = st.buf * (mult as u128);
            let cap: u128 = (u64::MAX as u128) - (st.total as u128);
            if add > cap {
                None
            } else {
                Some(TsState { has: false, buf: 0, total: st.total + (add as u64) })
            }
        }
    }
}

/// Parse a timestep expression such as `1d6h` into a number of seconds.
pub fn parse_timestep(input: &str) -> (r: Option<u64>)
    ensures
        r == spec_parse_timestep(input@),
{
    let n = input.unicode_len();
    let mut st = TsState { has: false, buf: 0, total: 0 };
    let mut i: usize = 0;
    while i < n
        invariant
            i <= n,
            n == input@.len(),
            spec_ts_run(input@.take(i as int)) == Some(st),
        decreases n - i,
    {
        let c = input.get_char(i);
        proof {
            assert(input@.take(i + 1).drop_last() =~= input@.take(i as int));
        }
        match ts_step(st, c) {
            Option::Some(next) => {
                st = next;
            },
            Option::None => {
                proof {
                    lemma_ts_run_none_extends(input@, i + 1);
                }
                return None;
            },
        }
        i = i + 1;
    }
    proof {
        assert(input@.take(n as int) =~= input@);
    }
    if st.has {
        None
    } else {
        Some(st.total)
    }
}

} // verus!
