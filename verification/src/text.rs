//! The text of a number as the running program writes it.

use vstd::prelude::*;

verus! {

/// The character of a decimal digit.
pub open spec fn digit(value: nat) -> u8
    recommends
        value < 10,
{
    (48 + value) as u8
}

/// The decimal digits of a natural number, without leading zeros.
pub open spec fn digits(value: nat) -> Seq<u8>
    decreases value,
{
    if value < 10 {
        seq![digit(value)]
    } else {
        digits(value / 10).push(digit(value % 10))
    }
}

/// The decimal text of an integer: a minus sign if it is negative, then the
/// digits of its magnitude.
pub open spec fn decimal(value: int) -> Seq<u8> {
    if value < 0 {
        seq![45u8] + digits((-value) as nat)
    } else {
        digits(value as nat)
    }
}

/// The decimal text of a 64-bit integer, in ASCII.
pub fn number_text(value: i64) -> (text: Vec<u8>)
    ensures
        text@ == decimal(value as int),
{
    let magnitude: u64 = if value < 0 {
        (-(value + 1)) as u64 + 1
    } else {
        value as u64
    };
    let mut reversed: Vec<u8> = Vec::new();
    let mut rest: u64 = magnitude;
    assert(digits(magnitude as nat) =~= digits(rest as nat) + reversed@.reverse());
    while rest >= 10
        invariant
            digits(magnitude as nat) == digits(rest as nat) + reversed@.reverse(),
        decreases rest,
    {
        let last: u8 = (rest % 10) as u8;
        let ghost before = reversed@;
        reversed.push(48 + last);
        assert(reversed@.reverse() =~= seq![digit((rest % 10) as nat)] + before.reverse());
        assert(digits(rest as nat) + before.reverse() =~= digits((rest / 10) as nat)
            + reversed@.reverse());
        rest = rest / 10;
    }
    let ghost before = reversed@;
    reversed.push(48 + rest as u8);
    assert(reversed@.reverse() =~= digits(rest as nat) + before.reverse());
    let mut text: Vec<u8> = Vec::new();
    if value < 0 {
        text.push(45);
    }
    let ghost sign = text@;
    let mut left: usize = reversed.len();
    while left > 0
        invariant
            left <= reversed.len(),
            text@ == sign + reversed@.reverse().take(reversed.len() - left),
        decreases left,
    {
        left -= 1;
        text.push(reversed[left]);
        assert(text@ =~= sign + reversed@.reverse().take(reversed.len() - left));
    }
    assert(reversed@.reverse().take(reversed.len() as int) =~= reversed@.reverse());
    text
}

} // verus!
