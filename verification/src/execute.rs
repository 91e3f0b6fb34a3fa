//! Evaluation of an expression tree over signed 64-bit integers.
pub mod error;

use crate::execute::error::{ExecuteError, ExecuteFault};
use crate::expression::Expression;
use vstd::arithmetic::div_mod::lemma_fundamental_div_mod;
use vstd::arithmetic::power::{lemma_pow0, pow};
use vstd::prelude::*;

verus! {

/// Whether an integer lies in the signed 64-bit range.
pub open spec fn fits(v: int) -> bool {
    i64::MIN <= v <= i64::MAX
}

/// An exact result as a value: itself where it fits into 64 bits, an
/// overflow where it does not.
pub open spec fn checked(v: int) -> Result<int, ExecuteFault> {
    if fits(v) {
        Ok(v)
    } else {
        Err(ExecuteFault::Overflow)
    }
}

/// The absolute value of an integer.
pub open spec fn magnitude(v: int) -> int {
    if v < 0 {
        -v
    } else {
        v
    }
}

/// The quotient of `a` by `b`, rounded toward zero.
pub open spec fn quotient(a: int, b: int) -> int
    recommends
        b != 0,
{
    if (a >= 0) == (b > 0) {
        magnitude(a) / magnitude(b)
    } else {
        -(magnitude(a) / magnitude(b))
    }
}

/// The remainder of `a` by `b` that goes with the quotient rounded toward
/// zero: it has the sign of `a`.
pub open spec fn remainder(a: int, b: int) -> int
    recommends
        b != 0,
{
    if a >= 0 {
        a % magnitude(b)
    } else {
        -((-a) % magnitude(b))
    }
}

/// The values of two operands of which `first` is evaluated first: its
/// fault, if it has one, is the fault of both; else that of `second`, if it
/// has one.
pub open spec fn in_turn(
    first: Result<int, ExecuteFault>,
    second: Result<int, ExecuteFault>,
) -> Result<(int, int), ExecuteFault> {
    match first {
        Err(fault) => Err(fault),
        Ok(a) => match second {
            Err(fault) => Err(fault),
            Ok(b) => Ok((a, b)),
        },
    }
}

/// The value of an expression, or the fault that evaluation ends in.
///
/// Sums, differences and products take the left operand first, then the
/// right one. Quotients, remainders and powers take the right operand
/// first; a zero divisor or a negative exponent is a fault before the left
/// operand is looked at. A result outside the signed 64-bit range is an
/// overflow.
pub open spec fn value_of(expr: Expression) -> Result<int, ExecuteFault>
    decreases expr,
{
    match expr {
        Expression::Number(n) => Ok(n as int),
        Expression::Add(l, r) => match in_turn(value_of(*l), value_of(*r)) {
            Ok((a, b)) => checked(a + b),
            Err(fault) => Err(fault),
        },
        Expression::Sub(l, r) => match in_turn(value_of(*l), value_of(*r)) {
            Ok((a, b)) => checked(a - b),
            Err(fault) => Err(fault),
        },
        Expression::Mult(l, r) => match in_turn(value_of(*l), value_of(*r)) {
            Ok((a, b)) => checked(a * b),
            Err(fault) => Err(fault),
        },
        Expression::Div(l, r) => match value_of(*r) {
            Err(fault) => Err(fault),
            Ok(b) => if b == 0 {
                Err(ExecuteFault::ZeroDiv)
            } else {
                match value_of(*l) {
                    Err(fault) => Err(fault),
                    Ok(a) => checked(quotient(a, b)),
                }
            },
        },
        Expression::Mod(l, r) => match value_of(*r) {
            Err(fault) => Err(fault),
            Ok(b) => if b == 0 {
                Err(ExecuteFault::ZeroDiv)
            } else {
                match value_of(*l) {
                    Err(fault) => Err(fault),
                    Ok(a) => checked(remainder(a, b)),
                }
            },
        },
        Expression::Pow(l, r) => match value_of(*r) {
            Err(fault) => Err(fault),
            Ok(b) => if b < 0 {
                Err(ExecuteFault::OutOfDef)
            } else {
                match value_of(*l) {
                    Err(fault) => Err(fault),
                    Ok(a) => checked(pow(a, b as nat)),
                }
            },
        },
    }
}

/// Whether `r` is what evaluation owes for an expression whose value, or
/// fault, is `expected`.
pub open spec fn delivers(r: Result<i64, ExecuteError>, expected: Result<int, ExecuteFault>) -> bool {
    match expected {
        Ok(v) => r matches Ok(x) && x == v,
        Err(fault) => r matches Err(e) && e.reports(fault),
    }
}

/// The value of a checked operation: the result where there is one, an
/// overflow where there is none.
fn or_overflow(result: Option<i64>) -> (r: Result<i64, ExecuteError>)
    ensures
        match result {
            Some(v) => r == Ok::<i64, ExecuteError>(v),
            None => r matches Err(e) && e.reports(ExecuteFault::Overflow),
        },
{
    match result {
        Some(v) => Ok(v),
        None => Err(ExecuteError::overflow()),
    }
}

/// Evaluates an expression tree.
pub fn execute(expr: Expression) -> (r: Result<i64, ExecuteError>)
    ensures
        delivers(r, value_of(expr)),
    decreases expr,
{
    match expr {
        Expression::Number(n) => Ok(n),
        Expression::Add(left, right) => {
            let a = match execute(*left) {
                Ok(v) => v,
                Err(e) => return Err(e),
            };
            let b = match execute(*right) {
                Ok(v) => v,
                Err(e) => return Err(e),
            };
            or_overflow(a.checked_add(b))
        },
        Expression::Sub(left, right) => {
            let a = match execute(*left) {
                Ok(v) => v,
                Err(e) => return Err(e),
            };
            let b = match execute(*right) {
                Ok(v) => v,
                Err(e) => return Err(e),
            };
            or_overflow(a.checked_sub(b))
        },
        Expression::Mult(left, right) => {
            let a = match execute(*left) {
                Ok(v) => v,
                Err(e) => return Err(e),
            };
            let b = match execute(*right) {
                Ok(v) => v,
                Err(e) => return Err(e),
            };
            or_overflow(a.checked_mul(b))
        },
        Expression::Div(left, right) => {
            let b = match execute(*right) {
                Ok(v) => v,
                Err(e) => return Err(e),
            };
            if b != 0 {
                let a = match execute(*left) {
                    Ok(v) => v,
                    Err(e) => return Err(e),
                };
                let q = a.checked_div(b);
                assert(q == if fits(quotient(a as int, b as int)) {
                    Some(quotient(a as int, b as int) as i64)
                } else {
                    None
                });
                or_overflow(q)
            } else {
                Err(ExecuteError::zero_div())
            }
        },
        Expression::Mod(left, right) => {
            let b = match execute(*right) {
                Ok(v) => v,
                Err(e) => return Err(e),
            };
            if b != 0 {
                let a = match execute(*left) {
                    Ok(v) => v,
                    Err(e) => return Err(e),
                };
                if b == -1 {
                    assert(remainder(a as int, b as int) == 0);
                    Ok(0)
                } else {
                    let m = a.checked_rem(b);
                    assert(m == Some(remainder(a as int, b as int) as i64));
                    or_overflow(m)
                }
            } else {
                Err(ExecuteError::zero_div())
            }
        },
        Expression::Pow(left, right) => {
            let b = match execute(*right) {
                Ok(v) => v,
                Err(e) => return Err(e),
            };
            if b >= 0 {
                let a = match execute(*left) {
                    Ok(v) => v,
                    Err(e) => return Err(e),
                };
                or_overflow(power(a, b as u64))
            } else {
                Err(ExecuteError::negative_exponent())
            }
        },
    }
}

/// `base` raised to `exponent`, by repeated multiplication; `None` exactly
/// when the power lies outside the signed 64-bit range.
pub fn power(base: i64, exponent: u64) -> (r: Option<i64>)
    ensures
        r == if fits(pow(base as int, exponent as nat)) {
            Some(pow(base as int, exponent as nat) as i64)
        } else {
            None
        },
{
    if exponent == 0 {
        proof {
            lemma_pow0(base as int);
        }
        return Some(1);
    }
    if base == 0 || base == 1 || base == -1 {
        proof {
            lemma_pow_of_unit(base as int, exponent as nat);
        }
        return Some(
            if base == -1 && exponent % 2 == 1 {
                -1
            } else {
                base * base
            },
        );
    }
    let mut result: i64 = 1;
    let mut i: u64 = 0;
    proof {
        lemma_pow0(base as int);
    }
    while i < exponent
        invariant
            i <= exponent,
            magnitude(base as int) >= 2,
            result == pow(base as int, i as nat),
        decreases exponent - i,
    {
        proof {
            lemma_pow_step(base as int, i as nat);
        }
        match result.checked_mul(base) {
            Some(next) => {
                result = next;
            },
            None => {
                proof {
                    lemma_pow_stays_out(base as int, (i + 1) as nat, exponent as nat);
                }
                return None;
            },
        }
        i = i + 1;
    }
    Some(result)
}

/// Division with remainder, rounded toward zero: the divisor times the
/// quotient, plus the remainder, is the dividend; the remainder is smaller
/// in magnitude than the divisor, and it is zero or has the sign of the
/// dividend.
pub proof fn lemma_quotient_remainder(a: int, b: int)
    requires
        b != 0,
    ensures
        a == b * quotient(a, b) + remainder(a, b),
        magnitude(remainder(a, b)) < magnitude(b),
        a >= 0 ==> remainder(a, b) >= 0,
        a <= 0 ==> remainder(a, b) <= 0,
{
    let x = magnitude(a);
    let d = magnitude(b);
    lemma_fundamental_div_mod(x, d);
    let q = x / d;
    let m = x % d;
    assert(x == d * q + m);
    assert(0 <= m < d);
    assert(b * -q == -(b * q) && (-b) * q == -(b * q) && (-b) * -q == b * q) by (nonlinear_arith);
}

/// One more factor: the next power is the base times this one.
pub proof fn lemma_pow_step(base: int, exponent: nat)
    ensures
        pow(base, exponent + 1) == base * pow(base, exponent),
{
    reveal(pow);
}

/// The powers of zero, one and minus one.
pub proof fn lemma_pow_of_unit(base: int, exponent: nat)
    requires
        base == 0 || base == 1 || base == -1,
        exponent > 0,
    ensures
        pow(base, exponent) == if base == -1 && exponent % 2 == 1 {
            -1
        } else {
            base * base
        },
    decreases exponent,
{
    lemma_pow_step(base, (exponent - 1) as nat);
    if exponent > 1 {
        lemma_pow_of_unit(base, (exponent - 1) as nat);
    } else {
        lemma_pow0(base);
    }
}

/// Where the base is at least two in magnitude, a power that has left the
/// signed 64-bit range does not come back into it as the exponent grows.
pub proof fn lemma_pow_stays_out(base: int, low: nat, high: nat)
    requires
        magnitude(base) >= 2,
        low <= high,
        !fits(pow(base, low)),
    ensures
        !fits(pow(base, high)),
    decreases high - low,
{
    if low < high {
        let here = pow(base, low);
        lemma_pow_step(base, low);
        assert(magnitude(base * here) >= 2 * magnitude(here)) by (nonlinear_arith)
            requires
                magnitude(base) >= 2,
        ;
        lemma_pow_stays_out(base, low + 1, high);
    }
}

} // verus!
