//! The arithmetic of the language: 64-bit two's-complement integers.

use vstd::prelude::*;
use vstd::arithmetic::div_mod::{
    lemma_div_basics, lemma_div_is_ordered_by_denominator, lemma_div_nonincreasing,
    lemma_div_pos_is_pos, lemma_mod_bound,
};
use crate::syntax::Operator;

verus! {

/// The quotient of `dividend` by `divisor`, rounded towards zero.
pub open spec fn truncated_quotient(dividend: int, divisor: int) -> int
    recommends
        divisor != 0,
{
    if dividend == 0 {
        0
    } else if dividend > 0 && divisor > 0 {
        dividend / divisor
    } else if dividend < 0 && divisor < 0 {
        (-dividend) / (-divisor)
    } else if dividend < 0 {
        -((-dividend) / divisor)
    } else {
        -(dividend / (-divisor))
    }
}

/// The remainder that goes with `truncated_quotient`: it has the sign of the
/// dividend.
pub open spec fn truncated_remainder(dividend: int, divisor: int) -> int
    recommends
        divisor != 0,
{
    if dividend == 0 {
        0
    } else if dividend > 0 && divisor > 0 {
        dividend % divisor
    } else if dividend < 0 && divisor < 0 {
        -((-dividend) % (-divisor))
    } else if dividend < 0 {
        -((-dividend) % divisor)
    } else {
        dividend % (-divisor)
    }
}

/// The value with every bit flipped.
pub open spec fn bitwise_not(value: i64) -> i64 {
    !value
}

/// Whether `operator` has a result on this right-hand side: division and
/// remainder have none on zero.
pub open spec fn is_defined(operator: Operator, rhs: i64) -> bool {
    (operator is Div || operator is Mod) ==> rhs != 0
}

/// The result of `operator` on `lhs` and `rhs`. Sums, differences and
/// products wrap round; quotients round towards zero, and the one quotient
/// that does not fit, that of the least integer by -1, wraps round as well.
pub open spec fn operation_result(lhs: i64, operator: Operator, rhs: i64) -> i64
    recommends
        is_defined(operator, rhs),
{
    match operator {
        Operator::Add => lhs.wrapping_add(rhs),
        Operator::Sub => lhs.wrapping_sub(rhs),
        Operator::Mul => lhs.wrapping_mul(rhs),
        Operator::Div => if lhs == i64::MIN && rhs == -1 {
            i64::MIN
        } else {
            truncated_quotient(lhs as int, rhs as int) as i64
        },
        Operator::Mod => if lhs == i64::MIN && rhs == -1 {
            0
        } else {
            truncated_remainder(lhs as int, rhs as int) as i64
        },
        Operator::And => lhs & rhs,
        Operator::Or => lhs | rhs,
        Operator::Xor => lhs ^ rhs,
    }
}

/// Every quotient but that of the least integer by -1 is a 64-bit integer.
pub proof fn lemma_quotient_fits(lhs: i64, rhs: i64)
    requires
        rhs != 0,
        !(lhs == i64::MIN && rhs == -1),
    ensures
        i64::MIN <= truncated_quotient(lhs as int, rhs as int) <= i64::MAX,
{
    let size: int = if lhs < 0 {
        -lhs
    } else {
        lhs as int
    };
    let step: int = if rhs < 0 {
        -rhs
    } else {
        rhs as int
    };
    lemma_div_pos_is_pos(size, step);
    lemma_div_nonincreasing(size, step);
    if step >= 2 {
        lemma_div_is_ordered_by_denominator(size, 2, step);
    } else {
        lemma_div_basics(size);
    }
}

/// Every remainder is a 64-bit integer.
pub proof fn lemma_remainder_fits(lhs: i64, rhs: i64)
    requires
        rhs != 0,
    ensures
        i64::MIN <= truncated_remainder(lhs as int, rhs as int) <= i64::MAX,
{
    let size: int = if lhs < 0 {
        -lhs
    } else {
        lhs as int
    };
    let step: int = if rhs < 0 {
        -rhs
    } else {
        rhs as int
    };
    lemma_mod_bound(size, step);
}

/// Whether `operator` has a result on this right-hand side.
pub fn can_operate(operator: Operator, rhs: i64) -> (defined: bool)
    ensures
        defined == is_defined(operator, rhs),
{
    match operator {
        Operator::Div | Operator::Mod => rhs != 0,
        _ => true,
    }
}

/// Applies `operator` to `lhs` and `rhs`.
pub fn perform_operation(lhs: i64, rhs: i64, operator: &Operator) -> (result: i64)
    requires
        is_defined(*operator, rhs),
    ensures
        result == operation_result(lhs, *operator, rhs),
{
    proof {
        if rhs != 0 {
            lemma_remainder_fits(lhs, rhs);
            if !(lhs == i64::MIN && rhs == -1) {
                lemma_quotient_fits(lhs, rhs);
            }
        }
    }
    match operator {
        Operator::Add => lhs.wrapping_add(rhs),
        Operator::Sub => lhs.wrapping_sub(rhs),
        Operator::Mul => lhs.wrapping_mul(rhs),
        Operator::Div => match lhs.checked_div(rhs) {
            Some(quotient) => quotient,
            None => i64::MIN,
        },
        Operator::Mod => match lhs.checked_rem(rhs) {
            Some(remainder) => remainder,
            None => 0,
        },
        Operator::And => lhs & rhs,
        Operator::Or => lhs | rhs,
        Operator::Xor => lhs ^ rhs,
    }
}

} // verus!
