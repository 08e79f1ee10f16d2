//! Integer arithmetic helpers: square root, powers of ten, and
//! saturating fixed-point scaling of parsed decimal values.

use vstd::prelude::*;

verus! {

/// `r` is the floor of the square root of `n`.
pub open spec fn is_sqrt_floor(n: int, r: int) -> bool {
    0 <= r && r * r <= n && n < (r + 1) * (r + 1)
}

/// The floor of the square root of `n`, as a spec-level value.
pub open spec fn sqrt_floor(n: int) -> int {
    choose|r: int| is_sqrt_floor(n, r)
}

/// The floor square root is unique.
pub proof fn lemma_sqrt_floor_unique(n: int, a: int, b: int)
    requires
        is_sqrt_floor(n, a),
        is_sqrt_floor(n, b),
    ensures
        a == b,
{
    if a < b {
        assert((a + 1) * (a + 1) <= b * b) by (nonlinear_arith)
            requires 0 <= a, 0 <= b, a + 1 <= b;
    }
    if b < a {
        assert((b + 1) * (b + 1) <= a * a) by (nonlinear_arith)
            requires 0 <= a, 0 <= b, b + 1 <= a;
    }
}

/// Any witness of `is_sqrt_floor` equals `sqrt_floor`.
pub proof fn lemma_sqrt_floor_is(n: int, r: int)
    requires
        is_sqrt_floor(n, r),
    ensures
        sqrt_floor(n) == r,
{
    let w = choose|x: int| is_sqrt_floor(n, x);
    lemma_sqrt_floor_unique(n, w, r);
}

/// Floor integer square root by binary search.
pub fn isqrt(n: u128) -> (r: u128)
    ensures
        is_sqrt_floor(n as int, r as int),
        r == sqrt_floor(n as int),
{
    let mut lo: u128 = 0;
    let mut hi: u128 = 0x1_0000_0000_0000_0000;
    if n < hi {
        hi = n + 1;
    }
    assert(hi * hi > n) by (nonlinear_arith)
        requires hi >= 0x1_0000_0000_0000_0000 || hi > n, hi >= 1, n < 0x1_0000_0000_0000_0000_0000_0000_0000_0000;
    while lo + 1 < hi
        invariant
            lo * lo <= n,
            (hi as int) * (hi as int) > n,
            lo < hi,
            hi <= 0x1_0000_0000_0000_0000,
        decreases hi - lo,
    {
        let mid = lo + (hi - lo) / 2;
        assert(mid * mid <= u128::MAX) by (nonlinear_arith)
            requires mid < 0x1_0000_0000_0000_0000;
        if mid * mid <= n {
            lo = mid;
        } else {
            hi = mid;
        }
    }
    assert((lo + 1) * (lo + 1) > n) by (nonlinear_arith)
        requires lo + 1 >= hi, (hi as int) * (hi as int) > n, hi >= 1;
    proof {
        lemma_sqrt_floor_is(n as int, lo as int);
    }
    lo
}

/// `10^e` as a spec-level integer.
pub open spec fn pow10(e: nat) -> int
    decreases e,
{
    if e == 0 {
        1
    } else {
        10 * pow10((e - 1) as nat)
    }
}

pub proof fn lemma_pow10_positive(e: nat)
    ensures
        pow10(e) >= 1,
    decreases e,
{
    if e > 0 {
        lemma_pow10_positive((e - 1) as nat);
    }
}

pub proof fn lemma_pow10_at_least_ten(e: nat)
    requires
        e >= 1,
    ensures
        pow10(e) >= 10,
{
    lemma_pow10_positive((e - 1) as nat);
}

/// One whole unit in the femto scale used for angles, eccentricity and
/// atmosphere fractions: `10^15` femto-units are `1.0`.
pub const FEMTO_ONE: u64 = 1_000_000_000_000_000;

/// Largest mantissa that can still take one more decimal digit in a `u128`.
pub const MANT_LIMIT: u128 = 34_028_236_692_093_846_346_337_460_743_176_821_144;

/// A parsed decimal number: the value is
/// `(-1)^neg * mantissa * 10^exponent`.
pub struct Decimal {
    pub neg: bool,
    pub mantissa: u128,
    pub exponent: i32,
}

/// Phase of the decimal scanner.
pub enum DecPhase {
    /// Nothing read yet: a sign or a first digit may come.
    Start,
    /// A sign was read: a first digit must come.
    AfterSign,
    /// Inside the integer digits.
    IntDigits,
    /// A decimal point was read: a fraction digit must come.
    AfterPoint,
    /// Inside the fraction digits.
    FracDigits,
    /// An exponent marker was read: a sign or a digit may come.
    AfterExpMark,
    /// An exponent sign was read: a digit must come.
    AfterExpSign,
    /// Inside the exponent digits.
    ExpDigits,
}

/// Scanner state for decimal parsing.
pub struct DecState {
    pub phase: DecPhase,
    pub neg: bool,
    pub mantissa: u128,
    pub frac_digits: u32,
    pub exp_neg: bool,
    pub exp_value: u32,
}

pub open spec fn spec_is_digit(c: char) -> bool {
    '0' <= c && c <= '9'
}

pub open spec fn spec_digit_value(c: char) -> int {
    c as int - 48
}

pub open spec fn dec_init() -> DecState {
    DecState {
        phase: DecPhase::Start,
        neg: false,
        mantissa: 0,
        frac_digits: 0,
        exp_neg: false,
        exp_value: 0,
    }
}

/// Push one digit onto the mantissa; `None` when it no longer fits a `u128`.
pub open spec fn spec_push_mant(st: DecState, c: char, phase: DecPhase, count_frac: bool) -> Option<
    DecState,
> {
    if st.mantissa > MANT_LIMIT {
        None
    } else {
        Some(
            DecState {
                phase,
                mantissa: (st.mantissa * 10 + spec_digit_value(c)) as u128,
                frac_digits: if count_frac && st.frac_digits < 10000 {
                    (st.frac_digits + 1) as u32
                } else {
                    st.frac_digits
                },
                ..st
            },
        )
    }
}

/// One step of the decimal scanner.
pub open spec fn spec_dec_step(st: DecState, c: char) -> Option<DecState> {
    match st.phase {
        DecPhase::Start => {
            if c == '-' {
                Some(DecState { phase: DecPhase::AfterSign, neg: true, ..st })
            } else if spec_is_digit(c) {
                spec_push_mant(st, c, DecPhase::IntDigits, false)
            } else {
                None
            }
        },
        DecPhase::AfterSign => {
            if spec_is_digit(c) {
                spec_push_mant(st, c, DecPhase::IntDigits, false)
            } else {
                None
            }
        },
        DecPhase::IntDigits => {
            if spec_is_digit(c) {
                spec_push_mant(st, c, DecPhase::IntDigits, false)
            } else if c == '.' {
                Some(DecState { phase: DecPhase::AfterPoint, ..st })
            } else if c == 'e' || c == 'E' {
                Some(DecState { phase: DecPhase::AfterExpMark, ..st })
            } else {
                None
            }
        },
        DecPhase::AfterPoint => {
            if spec_is_digit(c) {
                spec_push_mant(st, c, DecPhase::FracDigits, true)
            } else {
                None
            }
        },
        DecPhase::FracDigits => {
            if spec_is_digit(c) {
                spec_push_mant(st, c, DecPhase::FracDigits, true)
            } else if c == 'e' || c == 'E' {
                Some(DecState { phase: DecPhase::AfterExpMark, ..st })
            } else {
                None
            }
        },
        DecPhase::AfterExpMark => {
            if c == '-' {
                Some(DecState { phase: DecPhase::AfterExpSign, exp_neg: true, ..st })
            } else if c == '+' {
                Some(DecState { phase: DecPhase::AfterExpSign, ..st })
            } else if spec_is_digit(c) {
                Some(DecState { phase: DecPhase::ExpDigits, exp_value: spec_digit_value(c) as u32, ..st })
            } else {
                None
            }
        },
        DecPhase::AfterExpSign => {
            if spec_is_digit(c) {
                Some(DecState { phase: DecPhase::ExpDigits, exp_value: spec_digit_value(c) as u32, ..st })
            } else {
                None
            }
        },
        DecPhase::ExpDigits => {
            if spec_is_digit(c) {
                Some(
                    DecState {
                        exp_value: if st.exp_value < 10000 {
                            (st.exp_value * 10 + spec_digit_value(c)) as u32
                        } else {
                            st.exp_value
                        },
                        ..st
                    },
                )
            } else {
                None
            }
        },
    }
}

/// Run the scanner over a whole character sequence.
pub open spec fn spec_dec_run(s: Seq<char>) -> Option<DecState>
    decreases s.len(),
{
    if s.len() == 0 {
        Some(dec_init())
    } else {
        match spec_dec_run(s.drop_last()) {
            Option::None => None,
            Option::Some(st) => spec_dec_step(st, s.last()),
        }
    }
}

/// A final scanner state accepts only when it ends inside a digit group.
pub open spec fn dec_accepting(st: DecState) -> bool {
    st.phase is IntDigits || st.phase is FracDigits || st.phase is ExpDigits
}

pub open spec fn dec_final(st: DecState) -> Decimal {
    Decimal {
        neg: st.neg,
        mantissa: st.mantissa,
        exponent: (if st.exp_neg {
            -(st.exp_value as int)
        } else {
            st.exp_value as int
        } - st.frac_digits as int) as i32,
    }
}

/// The decimal grammar accepted by [`parse_decimal`]:
/// `['-'] digits ['.' digits] [('e'|'E') ['-'|'+'] digits]`.
pub open spec fn spec_parse_decimal(s: Seq<char>) -> Option<Decimal> {
    match spec_dec_run(s) {
        Option::None => None,
        Option::Some(st) => if dec_accepting(st) {
            Some(dec_final(st))
        } else {
            None
        },
    }
}

/// Once the scanner has failed on a prefix, it fails on the whole sequence.
proof fn lemma_dec_run_none_extends(s: Seq<char>, i: int)
    requires
        0 <= i <= s.len(),
        spec_dec_run(s.take(i)) is None,
    ensures
        spec_dec_run(s) is None,
    decreases s.len() - i,
{
    if i == s.len() {
        assert(s.take(i) =~= s);
    } else {
        assert(s.take(i + 1).drop_last() =~= s.take(i));
        lemma_dec_run_none_extends(s, i + 1);
    }
}

fn dec_step(st: DecState, c: char) -> (r: Option<DecState>)
    requires
        st.exp_value <= 100000,
        st.frac_digits <= 10000,
    ensures
        r == spec_dec_step(st, c),
        r matches Some(n) ==> n.exp_value <= 100000 && n.frac_digits <= 10000,
{
    let digit = c >= '0' && c <= '9';
    let dv: u32 = if digit {
        c as u32 - 48
    } else {
        0
    };
    match st.phase {
        DecPhase::Start => {
            if c == '-' {
                Some(DecState { phase: DecPhase::AfterSign, neg: true, ..st })
            } else if digit {
                push_mant(st, c, DecPhase::IntDigits, false)
            } else {
                None
            }
        },
        DecPhase::AfterSign => {
            if digit {
                push_mant(st, c, DecPhase::IntDigits, false)
            } else {
                None
            }
        },
        DecPhase::IntDigits => {
            if digit {
                push_mant(st, c, DecPhase::IntDigits, false)
            } else if c == '.' {
                Some(DecState { phase: DecPhase::AfterPoint, ..st })
            } else if c == 'e' || c == 'E' {
                Some(DecState { phase: DecPhase::AfterExpMark, ..st })
            } else {
                None
            }
        },
        DecPhase::AfterPoint => {
            if digit {
                push_mant(st, c, DecPhase::FracDigits, true)
            } else {
                None
            }
        },
        DecPhase::FracDigits => {
            if digit {
                push_mant(st, c, DecPhase::FracDigits, true)
            } else if c == 'e' || c == 'E' {
                Some(DecState { phase: DecPhase::AfterExpMark, ..st })
            } else {
                None
            }
        },
        DecPhase::AfterExpMark => {
            if c == '-' {
                Some(DecState { phase: DecPhase::AfterExpSign, exp_neg: true, ..st })
            } else if c == '+' {
                Some(DecState { phase: DecPhase::AfterExpSign, ..st })
            } else if digit {
                Some(DecState { phase: DecPhase::ExpDigits, exp_value: dv as u32, ..st })
            } else {
                None
            }
        },
        DecPhase::AfterExpSign => {
            if digit {
                Some(DecState { phase: DecPhase::ExpDigits, exp_value: dv as u32, ..st })
            } else {
                None
            }
        },
        DecPhase::ExpDigits => {
            if digit {
                Some(
                    DecState {
                        exp_value: if st.exp_value < 10000 {
                            st.exp_value * 10 + dv as u32
                        } else {
                            st.exp_value
                        },
                        ..st
                    },
                )
            } else {
                None
            }
        },
    }
}

fn push_mant(st: DecState, c: char, phase: DecPhase, count_frac: bool) -> (r: Option<DecState>)
    requires
        spec_is_digit(c),
    ensures
        r == spec_push_mant(st, c, phase, count_frac),
{
    let dv: u128 = (c as u32 - 48) as u128;
    if st.mantissa > MANT_LIMIT {
        None
    } else {
        Some(
            DecState {
                phase,
                mantissa: st.mantissa * 10 + dv,
                frac_digits: if count_frac && st.frac_digits < 10000 {
                    st.frac_digits + 1
                } else {
                    st.frac_digits
                },
                ..st
            },
        )
    }
}

pub proof fn lemma_pow10_split(a: nat, b: nat)
    ensures
        pow10(a + b) == pow10(a) * pow10(b),
    decreases a,
{
    if a == 0 {
    } else {
        lemma_pow10_split((a - 1) as nat, b);
        assert(pow10(a + b) == 10 * pow10((a + b - 1) as nat));
        assert(10 * (pow10((a - 1) as nat) * pow10(b)) == (10 * pow10((a - 1) as nat)) * pow10(b))
            by (nonlinear_arith);
    }
}

/// `min(max, m * 10^p)`.
pub open spec fn spec_scale_up(m: u128, p: nat, max: u128) -> u128 {
    if m * pow10(p) > max {
        max
    } else {
        (m * pow10(p)) as u128
    }
}

/// `min(max, m / 10^q)`, with flooring division.
pub open spec fn spec_scale_down(m: u128, q: nat, max: u128) -> u128 {
    if m as int / pow10(q) > max {
        max
    } else {
        (m as int / pow10(q)) as u128
    }
}

/// The value of `d` multiplied by `10^scale`, floored to an integer and
/// clamped to `[0, max]`; a negative value clamps to `0`.
pub open spec fn spec_scaled(d: Decimal, scale: int, max: u128) -> u128 {
    if d.neg && d.mantissa > 0 {
        0
    } else {
        let p = d.exponent + scale;
        if p >= 0 {
            spec_scale_up(d.mantissa, p as nat, max)
        } else {
            spec_scale_down(d.mantissa, (-p) as nat, max)
        }
    }
}

fn scale_up(m: u128, p: u32, max: u128) -> (r: u128)
    ensures
        r == spec_scale_up(m, p as nat, max),
{
    let mut acc: u128 = m;
    let mut i: u32 = 0;
    while i < p
        invariant
            i <= p,
            acc == m * pow10(i as nat),
        decreases p - i,
    {
        proof {
            lemma_pow10_positive(i as nat);
        }
        if acc > max / 10 {
            proof {
                lemma_pow10_split(i as nat, (p - i) as nat);
                lemma_pow10_at_least_ten((p - i) as nat);
                assert(acc * 10 > max);
                assert(acc * pow10((p - i) as nat) >= acc * 10) by (nonlinear_arith)
                    requires acc >= 1, pow10((p - i) as nat) >= 10;
                assert(m * pow10(p as nat) == acc * pow10((p - i) as nat)) by (nonlinear_arith)
                    requires
                        acc == m * pow10(i as nat),
                        pow10(p as nat) == pow10(i as nat) * pow10((p - i) as nat);
            }
            return max;
        }
        proof {
            assert(acc * 10 <= 10 * (max / 10));
            assert(pow10(0) == 1);
            assert(pow10(1) == 10);
            lemma_pow10_split(i as nat, 1);
            assert((m * pow10(i as nat)) * 10 == m * (pow10(i as nat) * 10)) by (nonlinear_arith);
        }
        acc = acc * 10;
        i = i + 1;
    }
    if acc > max {
        max
    } else {
        acc
    }
}

fn scale_down(m: u128, q: u32, max: u128) -> (r: u128)
    ensures
        r == spec_scale_down(m, q as nat, max),
{
    let mut acc: u128 = m;
    let mut i: u32 = 0;
    while i < q
        invariant
            i <= q,
            acc == m as int / pow10(i as nat),
        decreases q - i,
    {
        proof {
            lemma_pow10_positive(i as nat);
            lemma_pow10_split(i as nat, 1);
            vstd::arithmetic::div_mod::lemma_div_denominator(
                m as int,
                pow10(i as nat),
                10,
            );
        }
        acc = acc / 10;
        i = i + 1;
    }
    proof {
        lemma_pow10_positive(q as nat);
        vstd::arithmetic::div_mod::lemma_div_nonincreasing(m as int, pow10(q as nat));
        vstd::arithmetic::div_mod::lemma_div_is_ordered_by_denominator(m as int, 1, pow10(q as nat));
    }
    if acc > max {
        max
    } else {
        acc
    }
}

/// Scale a parsed decimal into a fixed-point integer: the value times
/// `10^scale`, floored, clamped to `[0, max]`.
pub fn scaled(d: &Decimal, scale: u32, max: u128) -> (r: u128)
    requires
        scale <= 100,
    ensures
        r == spec_scaled(*d, scale as int, max),
{
    if d.neg && d.mantissa > 0 {
        return 0;
    }
    let p: i64 = d.exponent as i64 + scale as i64;
    if p >= 0 {
        scale_up(d.mantissa, p as u32, max)
    } else {
        scale_down(d.mantissa, (-p) as u32, max)
    }
}

/// Parse the decimal text of a number into sign, mantissa and power of ten.
pub fn parse_decimal(s: &str) -> (r: Option<Decimal>)
    ensures
        r == spec_parse_decimal(s@),
{
    let n = s.unicode_len();
    let mut st = DecState {
        phase: DecPhase::Start,
        neg: false,
        mantissa: 0,
        frac_digits: 0,
        exp_neg: false,
        exp_value: 0,
    };
    let mut i: usize = 0;
    while i < n
        invariant
            i <= n,
            n == s@.len(),
            spec_dec_run(s@.take(i as int)) == Some(st),
            st.exp_value <= 100000,
            st.frac_digits <= 10000,
        decreases n - i,
    {
        let c = s.get_char(i);
        proof {
            assert(s@.take(i + 1).drop_last() =~= s@.take(i as int));
        }
        match dec_step(st, c) {
            Option::Some(next) => {
                st = next;
            },
            Option::None => {
                proof {
                    lemma_dec_run_none_extends(s@, i + 1);
                }
                return None;
            },
        }
        i = i + 1;
    }
    proof {
        assert(s@.take(n as int) =~= s@);
    }
    match st.phase {
        DecPhase::IntDigits => Some(dec_final_exec(st)),
        DecPhase::FracDigits => Some(dec_final_exec(st)),
        DecPhase::ExpDigits => Some(dec_final_exec(st)),
        _ => None,
    }
}

fn dec_final_exec(st: DecState) -> (r: Decimal)
    requires
        st.exp_value <= 100000,
        st.frac_digits <= 10000,
    ensures
        r == dec_final(st),
{
    let e: i32 = if st.exp_neg {
        -(st.exp_value as i32)
    } else {
        st.exp_value as i32
    };
    Decimal { neg: st.neg, mantissa: st.mantissa, exponent: e - st.frac_digits as i32 }
}

} // verus!
