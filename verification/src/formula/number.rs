//! Numeric literals as formula text.
//!
//! Numbers writes every literal twice: a lossy binary double and an IEEE-754
//! decimal128. The decimal is authoritative — `0.1` is exactly a tenth there
//! and is not in the double — and it is rendered here from its own digits, so
//! that `0.1` prints as `0.1` and never in exponent notation.

use vstd::prelude::*;

use crate::chars::{decimal, push_decimal, push_decimal_wide};

verus! {

/// The decimal128 exponent bias.
pub const DECIMAL128_BIAS: i64 = 6176;

/// The `high` word of an exact integer: exponent zero, positive, and a
/// mantissa that fits in `low`.
pub const DECIMAL128_INTEGER_HIGH: u64 = 0x3040_0000_0000_0000;

/// `n` zeros.
pub open spec fn zeros(n: nat) -> Seq<char> {
    Seq::new(n, |i: int| '0')
}

/// `s` without its trailing zeros.
pub open spec fn strip_zeros(s: Seq<char>) -> Seq<char>
    decreases s.len(),
{
    if s.len() > 0 && s.last() == '0' {
        strip_zeros(s.drop_last())
    } else {
        s
    }
}

/// `mantissa × 10^exponent` as plain digits — never exponent notation, which
/// no formula text uses — with no trailing zeros after a point, and no point
/// when nothing follows it.
pub open spec fn spec_decimal_text(mantissa: nat, exponent: int) -> Seq<char> {
    let digits = decimal(mantissa);
    if exponent >= 0 {
        digits + zeros(exponent as nat)
    } else {
        let shift = -exponent;
        let whole = if digits.len() > shift {
            digits.take(digits.len() - shift)
        } else {
            seq!['0']
        };
        let fraction = if digits.len() > shift {
            digits.skip(digits.len() - shift)
        } else {
            zeros((shift - digits.len()) as nat) + digits
        };
        let kept = strip_zeros(fraction);
        if kept.len() == 0 {
            whole
        } else {
            whole + seq!['.'] + kept
        }
    }
}

/// The sign bit of a decimal128's high word.
pub open spec fn decimal128_negative(high: u64) -> bool {
    high >= 0x8000_0000_0000_0000
}

/// The exponent of a decimal128, bias removed.
pub open spec fn decimal128_exponent(high: u64) -> int {
    (high / 0x2_0000_0000_0000) % 0x4000 - DECIMAL128_BIAS
}

/// The mantissa of a decimal128: the low 49 bits of `high` above `low`.
pub open spec fn decimal128_mantissa(low: u64, high: u64) -> nat {
    ((high % 0x2_0000_0000_0000) * 0x1_0000_0000_0000_0000 + low) as nat
}

/// A decimal128 literal as the app prints it. The common case — an exact
/// integer — prints `low` verbatim, which is what keeps `1` from becoming
/// `1.0`.
pub open spec fn spec_decimal128_text(low: u64, high: u64) -> Seq<char> {
    if high == DECIMAL128_INTEGER_HIGH {
        decimal(low as nat)
    } else {
        let mantissa = decimal128_mantissa(low, high);
        let text = spec_decimal_text(mantissa, decimal128_exponent(high));
        if decimal128_negative(high) && mantissa != 0 {
            seq!['-'] + text
        } else {
            text
        }
    }
}

fn push_zeros(out: &mut Vec<char>, n: usize)
    ensures
        final(out)@ == old(out)@ + zeros(n as nat),
{
    let mut i: usize = 0;
    while i < n
        invariant
            i <= n,
            out@ == old(out)@ + zeros(i as nat),
        decreases n - i,
    {
        out.push('0');
        assert(zeros((i + 1) as nat) =~= zeros(i as nat).push('0'));
        i = i + 1;
    }
}

/// Appends `mantissa × 10^exponent` as plain digits.
pub fn push_decimal_text(out: &mut Vec<char>, mantissa: u128, exponent: i64)
    requires
        -0x1_0000 <= exponent <= 0x1_0000,
    ensures
        final(out)@ == old(out)@ + spec_decimal_text(mantissa as nat, exponent as int),
{
    let mut digits: Vec<char> = Vec::new();
    push_decimal_wide(&mut digits, mantissa);
    assert(digits@ =~= decimal(mantissa as nat));
    let ghost start = out@;
    if exponent >= 0 {
        append(out, &digits, 0, digits.len());
        assert(digits@.subrange(0, digits@.len() as int) =~= digits@);
        push_zeros(out, exponent as usize);
        assert(out@ =~= start + digits@ + zeros(exponent as nat));
        return;
    }
    let shift: usize = (-exponent) as usize;
    let ghost d = digits@;
    let ghost whole_spec = if d.len() > shift {
        d.take(d.len() - shift)
    } else {
        seq!['0']
    };
    let ghost fraction_spec = if d.len() > shift {
        d.skip(d.len() - shift)
    } else {
        zeros((shift - d.len()) as nat) + d
    };
    let mut fraction: Vec<char> = Vec::new();
    if digits.len() > shift {
        let split = digits.len() - shift;
        append(out, &digits, 0, split);
        append(&mut fraction, &digits, split, digits.len());
        assert(digits@.subrange(0, split as int) =~= whole_spec);
        assert(fraction@ =~= fraction_spec);
    } else {
        out.push('0');
        push_zeros(&mut fraction, shift - digits.len());
        append(&mut fraction, &digits, 0, digits.len());
        assert(digits@.subrange(0, digits@.len() as int) =~= digits@);
        assert(fraction@ =~= fraction_spec);
    }
    assert(out@ =~= start + whole_spec);
    let ghost full = fraction@;
    while fraction.len() > 0 && fraction[fraction.len() - 1] == '0'
        invariant
            strip_zeros(fraction@) == strip_zeros(full),
        decreases fraction@.len(),
    {
        assert(fraction@.drop_last() =~= fraction@.subrange(0, fraction@.len() - 1));
        fraction.pop();
    }
    assert(strip_zeros(fraction@) == fraction@);
    if fraction.len() > 0 {
        out.push('.');
        append(out, &fraction, 0, fraction.len());
        assert(fraction@.subrange(0, fraction@.len() as int) =~= fraction@);
        assert(out@ =~= start + whole_spec + seq!['.'] + strip_zeros(full));
    } else {
        assert(out@ =~= start + whole_spec);
    }
}

/// Appends `from[begin..end]`.
fn append(out: &mut Vec<char>, from: &Vec<char>, begin: usize, end: usize)
    requires
        begin <= end <= from@.len(),
    ensures
        final(out)@ == old(out)@ + from@.subrange(begin as int, end as int),
{
    let mut i: usize = begin;
    while i < end
        invariant
            begin <= i <= end <= from@.len(),
            out@ == old(out)@ + from@.subrange(begin as int, i as int),
        decreases end - i,
    {
        out.push(from[i]);
        assert(from@.subrange(begin as int, i + 1) =~= from@.subrange(begin as int, i as int).push(
            from@[i as int],
        ));
        i = i + 1;
    }
}

/// Appends a decimal128 literal as the app prints it.
pub fn push_decimal128(out: &mut Vec<char>, low: u64, high: u64)
    ensures
        final(out)@ == old(out)@ + spec_decimal128_text(low, high),
{
    if high == DECIMAL128_INTEGER_HIGH {
        push_decimal(out, low);
        return;
    }
    let exponent: i64 = ((high / 0x2_0000_0000_0000) % 0x4000) as i64 - DECIMAL128_BIAS;
    let upper: u64 = high % 0x2_0000_0000_0000;
    assert(upper * 0x1_0000_0000_0000_0000 + low < 0x1_0000_0000_0000_0000_0000_0000_0000_0000)
        by (nonlinear_arith)
        requires
            upper < 0x2_0000_0000_0000,
            low < 0x1_0000_0000_0000_0000,
    ;
    let mantissa: u128 = (upper as u128) * 0x1_0000_0000_0000_0000 + (low as u128);
    let ghost start = out@;
    if high >= 0x8000_0000_0000_0000 && mantissa != 0 {
        out.push('-');
    }
    push_decimal_text(out, mantissa, exponent);
    assert(out@ =~= start + spec_decimal128_text(low, high));
}


/// **An exact integer prints its digits and nothing else.** The shortcut for
/// the common case prints exactly what the general rule makes of the same
/// decimal128: exponent zero, no sign, and `low` as the mantissa.
pub proof fn law_integer_shortcut_agrees(low: u64)
    ensures
        !decimal128_negative(DECIMAL128_INTEGER_HIGH),
        decimal128_exponent(DECIMAL128_INTEGER_HIGH) == 0,
        decimal128_mantissa(low, DECIMAL128_INTEGER_HIGH) == low,
        spec_decimal_text(low as nat, 0) == spec_decimal128_text(low, DECIMAL128_INTEGER_HIGH),
{
    assert(zeros(0) =~= Seq::<char>::empty());
    assert(decimal(low as nat) + zeros(0) =~= decimal(low as nat));
}

} // verus!
