//! Parsing of currency tokens into exact decimal amounts, and the
//! progress ratio derived from a raised amount and a goal amount.
//!
//! A token is parsed by stripping every dollar sign and every comma and
//! reading what remains as a non-negative decimal number.  Any input on
//! which that fails — no digit at all, a stray character, more than one
//! decimal point, or a mantissa too large for 64 bits — parses to zero:
//! parsing never fails observably.

use vstd::prelude::*;

verus! {

/// An exact non-negative decimal amount: `mantissa / 10^scale`.
#[derive(Clone, Copy, PartialEq, Eq, Structural, Debug)]
pub struct Money {
    pub mantissa: u64,
    pub scale: usize,
}

/// An exact non-negative ratio, in percent: `num / den`.
#[derive(Clone, Copy, PartialEq, Eq, Structural, Debug)]
pub struct Percent {
    pub num: u128,
    pub den: u128,
}

pub open spec fn money_zero() -> Money {
    Money { mantissa: 0, scale: 0 }
}

pub open spec fn percent_zero() -> Percent {
    Percent { num: 0, den: 1 }
}

pub open spec fn is_digit(c: char) -> bool {
    '0' <= c && c <= '9'
}

/// The characters the parser strips before reading a number: the
/// currency symbol and the thousands separator.
pub open spec fn is_money_symbol(c: char) -> bool {
    c == '$' || c == ','
}

/// `s` with every dollar sign and comma removed.
pub open spec fn stripped(s: Seq<char>) -> Seq<char>
    decreases s.len(),
{
    if s.len() == 0 {
        Seq::empty()
    } else if is_money_symbol(s.last()) {
        stripped(s.drop_last())
    } else {
        stripped(s.drop_last()).push(s.last())
    }
}

pub open spec fn digit_count(t: Seq<char>) -> nat
    decreases t.len(),
{
    if t.len() == 0 {
        0
    } else {
        digit_count(t.drop_last()) + if is_digit(t.last()) {
            1nat
        } else {
            0nat
        }
    }
}

pub open spec fn dot_count(t: Seq<char>) -> nat
    decreases t.len(),
{
    if t.len() == 0 {
        0
    } else {
        dot_count(t.drop_last()) + if t.last() == '.' {
            1nat
        } else {
            0nat
        }
    }
}

/// A well-formed decimal numeral: only digits and at most one decimal
/// point, with at least one digit.
pub open spec fn decimal_shape(t: Seq<char>) -> bool {
    &&& forall|i: int| 0 <= i < t.len() ==> is_digit(t[i]) || t[i] == '.'
    &&& dot_count(t) <= 1
    &&& digit_count(t) >= 1
}

/// The value of the digits of `t` read left to right, ignoring any
/// decimal point.
pub open spec fn mantissa_of(t: Seq<char>) -> int
    decreases t.len(),
{
    if t.len() == 0 {
        0
    } else if is_digit(t.last()) {
        mantissa_of(t.drop_last()) * 10 + (t.last() as u32 - 48)
    } else {
        mantissa_of(t.drop_last())
    }
}

/// How many characters follow the decimal point of `t` (the last one,
/// which under `decimal_shape` is the only one); `0` if there is none.
pub open spec fn scale_of(t: Seq<char>) -> nat
    decreases t.len(),
{
    if dot_count(t) == 0 {
        0
    } else if t.last() == '.' {
        0
    } else {
        scale_of(t.drop_last()) + 1
    }
}

/// What `parse_money` returns: the stripped text read as an exact
/// decimal, or zero whenever that text is not a well-formed numeral or
/// its mantissa does not fit in 64 bits.
pub open spec fn spec_parse_money(s: Seq<char>) -> Money {
    let t = stripped(s);
    if decimal_shape(t) && mantissa_of(t) <= u64::MAX {
        Money { mantissa: mantissa_of(t) as u64, scale: scale_of(t) as usize }
    } else {
        money_zero()
    }
}

pub open spec fn pow10(n: nat) -> int
    decreases n,
{
    if n == 0 {
        1
    } else {
        10 * pow10((n - 1) as nat)
    }
}

/// What `progress_percent` returns for a raised amount and a goal: the
/// exact ratio `raised / goal * 100`, as an unreduced fraction.  It is
/// zero when the goal is zero (no meaningful ratio), when nothing was
/// raised, and when either side of the fraction does not fit in 128
/// bits.
pub open spec fn spec_progress(raised: Money, goal: Money) -> Percent {
    if goal.mantissa == 0 || raised.mantissa == 0 {
        percent_zero()
    } else if raised.mantissa * 100 * pow10(goal.scale as nat) > u128::MAX || goal.mantissa * pow10(
        raised.scale as nat,
    ) > u128::MAX {
        percent_zero()
    } else {
        Percent {
            num: (raised.mantissa * 100 * pow10(goal.scale as nat)) as u128,
            den: (goal.mantissa * pow10(raised.scale as nat)) as u128,
        }
    }
}

pub proof fn lemma_pow10_positive(n: nat)
    ensures
        pow10(n) >= 1,
    decreases n,
{
    if n > 0 {
        lemma_pow10_positive((n - 1) as nat);
    }
}

pub proof fn lemma_pow10_increases(a: nat, b: nat)
    requires
        a <= b,
    ensures
        pow10(a) <= pow10(b),
    decreases b,
{
    if a < b {
        lemma_pow10_increases(a, (b - 1) as nat);
        lemma_pow10_positive((b - 1) as nat);
    }
}

fn pow10_checked(n: usize) -> (r: Option<u128>)
    ensures
        match r {
            Some(v) => v == pow10(n as nat),
            None => pow10(n as nat) > u128::MAX,
        },
{
    let mut acc: u128 = 1;
    let mut k: usize = 0;
    while k < n
        invariant
            0 <= k <= n,
            acc == pow10(k as nat),
        decreases n - k,
    {
        match acc.checked_mul(10) {
            Some(a) => {
                acc = a;
            },
            None => {
                proof {
                    assert(pow10((k + 1) as nat) == 10 * pow10(k as nat));
                    lemma_pow10_increases((k + 1) as nat, n as nat);
                }
                return None;
            },
        }
        k = k + 1;
    }
    Some(acc)
}

/// The share of the goal that the raised amount covers, in percent, as
/// an exact fraction; zero when the goal is zero.
pub fn progress_percent(raised: Money, goal: Money) -> (p: Percent)
    ensures
        p == spec_progress(raised, goal),
        p.den >= 1,
{
    proof {
        lemma_pow10_positive(raised.scale as nat);
        lemma_pow10_positive(goal.scale as nat);
    }
    if goal.mantissa == 0 || raised.mantissa == 0 {
        return Percent { num: 0, den: 1 };
    }
    let p10_goal = match pow10_checked(goal.scale) {
        Some(v) => v,
        None => {
            proof {
                assert(raised.mantissa * 100 * pow10(goal.scale as nat) > u128::MAX)
                    by (nonlinear_arith)
                    requires
                        raised.mantissa >= 1,
                        pow10(goal.scale as nat) > u128::MAX,
                ;
            }
            return Percent { num: 0, den: 1 };
        },
    };
    let p10_raised = match pow10_checked(raised.scale) {
        Some(v) => v,
        None => {
            proof {
                assert(goal.mantissa * pow10(raised.scale as nat) > u128::MAX)
                    by (nonlinear_arith)
                    requires
                        goal.mantissa >= 1,
                        pow10(raised.scale as nat) > u128::MAX,
                ;
            }
            return Percent { num: 0, den: 1 };
        },
    };
    let raised_times_100: u128 = (raised.mantissa as u128) * 100;
    let num = match raised_times_100.checked_mul(p10_goal) {
        Some(v) => v,
        None => {
            return Percent { num: 0, den: 1 };
        },
    };
    let den = match (goal.mantissa as u128).checked_mul(p10_raised) {
        Some(v) => v,
        None => {
            return Percent { num: 0, den: 1 };
        },
    };
    proof {
        assert(den >= 1) by (nonlinear_arith)
            requires
                den == goal.mantissa * pow10(raised.scale as nat),
                goal.mantissa >= 1,
                pow10(raised.scale as nat) >= 1,
        ;
    }
    Percent { num, den }
}

/// Law: any token without a digit — the empty string among them —
/// parses to zero.  With this, every parse is a finite, non-negative
/// amount: an unsigned mantissa over a power of ten, and zero whenever
/// the token is malformed.
pub proof fn lemma_parse_money_no_digit(s: Seq<char>)
    requires
        forall|i: int| 0 <= i < s.len() ==> !is_digit(s[i]),
    ensures
        spec_parse_money(s) == money_zero(),
{
    lemma_stripped_digit_count_zero(s);
}

proof fn lemma_stripped_digit_count_zero(s: Seq<char>)
    requires
        forall|i: int| 0 <= i < s.len() ==> !is_digit(s[i]),
    ensures
        digit_count(stripped(s)) == 0,
    decreases s.len(),
{
    if s.len() > 0 {
        assert(forall|i: int|
            0 <= i < s.drop_last().len() ==> !is_digit(#[trigger] s.drop_last()[i]));
        lemma_stripped_digit_count_zero(s.drop_last());
        if !is_money_symbol(s.last()) {
            let t = stripped(s.drop_last()).push(s.last());
            assert(t.drop_last() =~= stripped(s.drop_last()));
        }
    }
}

pub proof fn lemma_digit_count_le_len(t: Seq<char>)
    ensures
        digit_count(t) <= t.len(),
    decreases t.len(),
{
    if t.len() > 0 {
        lemma_digit_count_le_len(t.drop_last());
    }
}

/// Convert a currency token to its amount.  Strips `$` and `,`, then
/// reads the rest as a decimal numeral; any malformed or oversized
/// remainder yields zero, so this function never fails.
pub fn parse_money(s: &str) -> (m: Money)
    ensures
        m == spec_parse_money(s@),
{
    let n: usize = s.unicode_len();
    let mut i: usize = 0;
    let mut digits: usize = 0;
    let mut dots: usize = 0;
    let mut clean: bool = true;
    let mut mant: u64 = 0;
    let mut overflow: bool = false;
    let mut scale: usize = 0;
    while i < n
        invariant
            n == s@.len(),
            0 <= i <= n,
            digits == digit_count(stripped(s@.take(i as int))),
            dots == dot_count(stripped(s@.take(i as int))),
            digits <= i,
            dots <= i,
            scale <= i,
            clean <==> (forall|k: int|
                0 <= k < stripped(s@.take(i as int)).len() ==> is_digit(
                    #[trigger] stripped(s@.take(i as int))[k],
                ) || stripped(s@.take(i as int))[k] == '.'),
            !overflow ==> mant == mantissa_of(stripped(s@.take(i as int))),
            overflow ==> mantissa_of(stripped(s@.take(i as int))) > u64::MAX,
            scale == scale_of(stripped(s@.take(i as int))),
        decreases n - i,
    {
        let c = s.get_char(i);
        proof {
            assert(s@.take(i + 1).drop_last() =~= s@.take(i as int));
            assert(s@.take(i + 1).last() == s@[i as int]);
        }
        let ghost t_old = stripped(s@.take(i as int));
        let ghost t_new = stripped(s@.take(i + 1));
        if c == '$' || c == ',' {
            proof {
                assert(t_new == t_old);
            }
        } else {
            proof {
                assert(t_new == t_old.push(c));
                assert(t_new.drop_last() =~= t_old);
                assert(t_new.last() == c);
            }
            if c == '.' {
                dots = dots + 1;
                scale = 0;
            } else if dots > 0 {
                scale = scale + 1;
            }
            if c >= '0' && c <= '9' {
                digits = digits + 1;
                let d: u64 = (c as u32 - 48) as u64;
                if !overflow {
                    match mant.checked_mul(10) {
                        Some(m10) => {
                            match m10.checked_add(d) {
                                Some(m2) => {
                                    mant = m2;
                                },
                                None => {
                                    overflow = true;
                                },
                            }
                        },
                        None => {
                            proof {
                                assert(mantissa_of(t_new) == mant * 10 + d);
                            }
                            overflow = true;
                        },
                    }
                }
            } else if c != '.' {
                clean = false;
            }
        }
        i = i + 1;
    }
    proof {
        assert(s@.take(n as int) =~= s@);
    }
    let ghost t = stripped(s@);
    if clean && digits >= 1 && dots <= 1 && !overflow {
        proof {
            assert(decimal_shape(t));
        }
        Money { mantissa: mant, scale }
    } else {
        proof {
            assert(!(decimal_shape(t) && mantissa_of(t) <= u64::MAX)) by {
                if decimal_shape(t) {
                    lemma_digit_count_le_len(t);
                }
            }
        }
        Money { mantissa: 0, scale: 0 }
    }
}

} // verus!

