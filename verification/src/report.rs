//! Sizes for people to read, and what a batch has saved.
//!
//! A size below 1024 bytes is written in full. A larger one is written in the
//! largest unit that it reaches, up to terabytes, with one digit after the
//! point. What is written is the size as double-precision arithmetic holds it,
//! rounded to that digit; where two values are equally near, the even one is
//! taken, both times.
use crate::text::{decimal, digit_char, digit_to_char, push_decimal, string_of};
use vstd::prelude::*;

verus! {

/// The first whole number that a double may not hold exactly: 2 to the 53.
pub const DOUBLE_EXACT_LIMIT: u64 = 0x20_0000_0000_0000;

/// How many bytes one of the unit with this number is: 1024 to the `index`.
pub open spec fn unit_size(index: nat) -> nat {
    if index == 0 {
        1
    } else if index == 1 {
        0x400
    } else if index == 2 {
        0x10_0000
    } else if index == 3 {
        0x4000_0000
    } else {
        0x100_0000_0000
    }
}

/// The number of the unit in which a size is written: the largest of B, KB,
/// MB, GB and TB that the size reaches.
pub open spec fn unit_index(bytes: nat) -> nat {
    if bytes < unit_size(1) {
        0
    } else if bytes < unit_size(2) {
        1
    } else if bytes < unit_size(3) {
        2
    } else if bytes < unit_size(4) {
        3
    } else {
        4
    }
}

/// The name of the unit with this number.
pub open spec fn unit_name(index: nat) -> Seq<char> {
    if index == 0 {
        seq!['B']
    } else if index == 1 {
        seq!['K', 'B']
    } else if index == 2 {
        seq!['M', 'B']
    } else if index == 3 {
        seq!['G', 'B']
    } else {
        seq!['T', 'B']
    }
}

/// The quotient of two numbers, rounded to the nearest whole number, and to
/// the even one where two are equally near.
pub open spec fn round_half_even(numerator: nat, denominator: nat) -> nat {
    let quotient = numerator / denominator;
    let rest = numerator % denominator;
    if 2 * rest > denominator || (2 * rest == denominator && quotient % 2 == 1) {
        quotient + 1
    } else {
        quotient
    }
}

/// The distance between the doubles around `n`: 1 below 2 to the 53, and
/// twice as much each time that `n` doubles from there.
pub open spec fn spacing(n: nat) -> nat
    decreases n,
{
    if n < DOUBLE_EXACT_LIMIT {
        1
    } else {
        2 * spacing(n / 2)
    }
}

/// The double nearest to `n`.
pub open spec fn nearest_double(n: nat) -> nat {
    round_half_even(n, spacing(n)) * spacing(n)
}

/// A size in tenths of its unit.
pub open spec fn tenths(bytes: nat) -> nat {
    round_half_even(nearest_double(bytes) * 10, unit_size(unit_index(bytes)))
}

/// A size as it is written.
pub open spec fn format_bytes_text(bytes: nat) -> Seq<char> {
    if bytes < unit_size(1) {
        decimal(bytes) + seq![' '] + unit_name(0)
    } else {
        decimal(tenths(bytes) / 10) + seq!['.', digit_char((tenths(bytes) % 10) as int), ' ']
            + unit_name(unit_index(bytes))
    }
}

/// Computes [`round_half_even`].
pub fn rounded_quotient(numerator: u128, denominator: u128) -> (rounded: u128)
    requires
        0 < denominator <= u64::MAX,
        numerator < u128::MAX,
    ensures
        rounded == round_half_even(numerator as nat, denominator as nat),
{
    let quotient = numerator / denominator;
    let rest = numerator % denominator;
    if 2 * rest > denominator || (2 * rest == denominator && quotient % 2 == 1) {
        assert(quotient < u128::MAX) by (nonlinear_arith)
            requires
                quotient == numerator / denominator,
                numerator < u128::MAX,
                denominator > 0,
        ;
        quotient + 1
    } else {
        quotient
    }
}

/// Computes [`spacing`].
pub fn spacing_of(n: u64) -> (unit: u64)
    ensures
        unit == spacing(n as nat),
        1 <= unit <= 4096,
{
    let mut rest: u64 = n;
    let mut unit: u64 = 1;
    while rest >= DOUBLE_EXACT_LIMIT
        invariant
            1 <= unit <= 4096,
            rest * unit <= n,
            spacing(n as nat) == unit * spacing(rest as nat),
        decreases rest,
    {
        let half = rest / 2;
        proof {
            assert(unit <= 2048) by (nonlinear_arith)
                requires
                    rest * unit <= n,
                    rest >= 0x20_0000_0000_0000,
                    n <= 0xffff_ffff_ffff_ffff,
                    unit >= 1,
            ;
            assert(half * (unit * 2) <= n) by (nonlinear_arith)
                requires
                    rest * unit <= n,
                    half == rest / 2,
                    unit >= 1,
            ;
            assert(spacing(rest as nat) == 2 * spacing(half as nat));
            assert(unit * (2 * spacing(half as nat)) == (unit * 2) * spacing(half as nat))
                by (nonlinear_arith);
        }
        rest = half;
        unit = unit * 2;
    }
    assert(unit * spacing(rest as nat) == unit) by (nonlinear_arith)
        requires
            spacing(rest as nat) == 1,
    ;
    unit
}

/// Computes [`nearest_double`].
pub fn nearest_double_of(n: u64) -> (nearest: u128)
    ensures
        nearest == nearest_double(n as nat),
        nearest <= n + 4096,
{
    let unit = spacing_of(n);
    let steps = rounded_quotient(n as u128, unit as u128);
    assert(steps * unit <= n + unit) by (nonlinear_arith)
        requires
            steps <= n / unit + 1,
            1 <= unit,
            0 <= n,
            0 <= steps,
    {
        assert((n / unit) * unit <= n);
    }
    steps * (unit as u128)
}

/// Writes a size for people to read.
pub fn format_bytes(bytes: u64) -> (text: String)
    ensures
        text@ == format_bytes_text(bytes as nat),
{
    let mut out: Vec<char> = Vec::new();
    if bytes < 0x400 {
        push_decimal(&mut out, bytes as u128);
        out.push(' ');
        out.push('B');
        assert(out@ =~= format_bytes_text(bytes as nat));
        return string_of(&out);
    }
    let size: u128;
    let letter: char;
    if bytes < 0x10_0000 {
        size = 0x400;
        letter = 'K';
    } else if bytes < 0x4000_0000 {
        size = 0x10_0000;
        letter = 'M';
    } else if bytes < 0x100_0000_0000 {
        size = 0x4000_0000;
        letter = 'G';
    } else {
        size = 0x100_0000_0000;
        letter = 'T';
    }
    let tenths = rounded_quotient(nearest_double_of(bytes) * 10, size);
    push_decimal(&mut out, tenths / 10);
    out.push('.');
    out.push(digit_to_char((tenths % 10) as u8));
    out.push(' ');
    out.push(letter);
    out.push('B');
    assert(out@ =~= format_bytes_text(bytes as nat));
    string_of(&out)
}

/// What a batch has saved, for people to read.
#[derive(Clone, Debug, PartialEq, Eq)]
pub struct SavingsReport {
    /// The size of the input tree.
    pub original: String,
    /// The size of the output tree.
    pub optimized: String,
    /// The difference of the two.
    pub savings: String,
    /// The difference in bytes.
    pub saved_bytes: u64,
}

/// The report on a batch that read `input_size` bytes and wrote
/// `output_size`; none for an input without bytes.
pub fn savings_report(input_size: u64, output_size: u64) -> (report: Option<SavingsReport>)
    requires
        output_size <= input_size,
    ensures
        report is Some <==> input_size > 0,
        report matches Some(r) ==> {
            &&& r.original@ == format_bytes_text(input_size as nat)
            &&& r.optimized@ == format_bytes_text(output_size as nat)
            &&& r.savings@ == format_bytes_text((input_size - output_size) as nat)
            &&& r.saved_bytes == input_size - output_size
        },
{
    if input_size > 0 {
        let saved_bytes = input_size - output_size;
        Some(
            SavingsReport {
                original: format_bytes(input_size),
                optimized: format_bytes(output_size),
                savings: format_bytes(saved_bytes),
                saved_bytes,
            },
        )
    } else {
        None
    }
}

} // verus!
