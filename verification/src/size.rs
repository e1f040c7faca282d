//! Human-readable file sizes.
//!
//! A byte count is printed in the largest of the units `bytes`, `KB`, `MB`,
//! `GB`, `TB` (each 1024 times the one before) in which it is at least one,
//! with two decimal places: `1536` is `1.50 KB`. The base unit is printed the
//! same way (`0.00 bytes`), and `TB` is the last unit, however large the count.
//!
//! The text is the one that double-precision arithmetic gives: the count is
//! first taken to the nearest double (which changes it only from 2^53 on), the
//! division by a power of 1024 is exact, and the two decimal places are the
//! nearest ones, a tie going to the even digit: `1152` is `1.12 KB`.

use vstd::prelude::*;
use vstd::arithmetic::div_mod::{lemma_div_denominator, lemma_fundamental_div_mod};
use vstd::string::StringExecFns;
use crate::text::{decimal, digit_char, push_decimal};

verus! {

/// The first count that a double can no longer hold exactly in every case:
/// 2^53.
pub const DOUBLE_EXACT_LIMIT: u64 = 0x20_0000_0000_0000;

/// The distance between neighbouring doubles at `n`: 1 below 2^53, and twice
/// as much each time `n` doubles from there.
pub open spec fn double_spacing(n: nat) -> nat
    decreases n,
{
    if n < DOUBLE_EXACT_LIMIT {
        1
    } else {
        2 * double_spacing(n / 2)
    }
}

/// The integer nearest to `num / den`; of two equally near, the even one.
pub open spec fn round_half_even(num: nat, den: nat) -> nat
    recommends
        den > 0,
{
    let q = num / den;
    let r = num % den;
    if 2 * r > den || (2 * r == den && q % 2 == 1) {
        q + 1
    } else {
        q
    }
}

/// The value of the double nearest to `n`.
pub open spec fn nearest_double(n: nat) -> nat {
    round_half_even(n, double_spacing(n)) * double_spacing(n)
}

/// The unit a value is printed in: the number of times it can be divided by
/// 1024 and still be at least 1, but 4 (`TB`) at most.
pub open spec fn unit_index(value: nat) -> nat {
    if value < 1024 {
        0
    } else if value < 1024 * 1024 {
        1
    } else if value < 1024 * 1024 * 1024 {
        2
    } else if value < 1024 * 1024 * 1024 * 1024 {
        3
    } else {
        4
    }
}

/// The number of bytes in one of the unit with index `unit`.
pub open spec fn unit_scale(unit: nat) -> nat {
    if unit == 0 {
        1
    } else if unit == 1 {
        1024
    } else if unit == 2 {
        1024 * 1024
    } else if unit == 3 {
        1024 * 1024 * 1024
    } else {
        1024 * 1024 * 1024 * 1024
    }
}

/// The label of the unit with index `unit`.
pub open spec fn unit_label(unit: nat) -> Seq<char> {
    if unit == 0 {
        "bytes"@
    } else if unit == 1 {
        "KB"@
    } else if unit == 2 {
        "MB"@
    } else if unit == 3 {
        "GB"@
    } else {
        "TB"@
    }
}

/// The size, in hundredths of its unit.
pub open spec fn hundredths(size: nat) -> nat {
    let value = nearest_double(size);
    round_half_even(value * 100, unit_scale(unit_index(value)))
}

/// The text of a size: the whole part, a point, two decimal places, a space
/// and the unit.
pub open spec fn size_text(size: nat) -> Seq<char> {
    let h = hundredths(size);
    decimal(h / 100) + seq!['.', digit_char(h / 10 % 10), digit_char(h % 10), ' '] + unit_label(
        unit_index(nearest_double(size)),
    )
}

fn round_to_nearest(num: u128, den: u128) -> (rounded: u128)
    requires
        0 < den <= u64::MAX,
        num < u128::MAX,
    ensures
        rounded == round_half_even(num as nat, den as nat),
{
    let q: u128 = num / den;
    let r: u128 = num % den;
    if 2 * r > den || (2 * r == den && q % 2 == 1) {
        q + 1
    } else {
        q
    }
}

fn to_nearest_double(size: u64) -> (value: u128)
    ensures
        value == nearest_double(size as nat),
        value <= size + 4096,
{
    let mut spacing: u64 = 1;
    while size / spacing >= DOUBLE_EXACT_LIMIT
        invariant
            1 <= spacing <= 4096,
            double_spacing(size as nat) == spacing * double_spacing(size as nat / spacing as nat),
        decreases size / spacing,
    {
        proof {
            lemma_spacing_doubles(size as nat, spacing as nat);
            lemma_quotient_bound(size as nat, spacing as nat);
        }
        spacing = spacing * 2;
    }
    let mantissa: u128 = round_to_nearest(size as u128, spacing as u128);
    proof {
        lemma_quotient_bound(size as nat, spacing as nat);
        let inner = double_spacing(size as nat / spacing as nat);
        assert(spacing * inner == spacing) by (nonlinear_arith)
            requires
                inner == 1,
        ;
        assert(mantissa * spacing <= size + spacing) by (nonlinear_arith)
            requires
                mantissa <= size as nat / spacing as nat + 1,
                spacing * (size as nat / spacing as nat) <= size,
        ;
    }
    mantissa * (spacing as u128)
}

/// Where `n / s` is out of the exact range, the spacing there is twice the
/// spacing at `n / (2 * s)`.
proof fn lemma_spacing_doubles(n: nat, s: nat)
    requires
        s >= 1,
        n / s >= DOUBLE_EXACT_LIMIT,
    ensures
        n / (2 * s) < n / s,
        s * double_spacing(n / s) == (2 * s) * double_spacing(n / (2 * s)),
{
    lemma_div_denominator(n as int, s as int, 2);
    assert(s * 2 == 2 * s);
    let inner = double_spacing(n / (2 * s));
    assert(double_spacing(n / s) == 2 * inner);
    assert(s * (2 * inner) == (2 * s) * inner) by (nonlinear_arith);
}

/// `s * (n / s)` is at most `n`.
proof fn lemma_quotient_bound(n: nat, s: nat)
    requires
        s >= 1,
    ensures
        s * (n / s) <= n,
        n < 0x1_0000_0000_0000_0000 && n / s >= DOUBLE_EXACT_LIMIT ==> s < 2048,
{
    lemma_fundamental_div_mod(n as int, s as int);
    let q = n / s;
    assert(s * q <= n);
    if n < 0x1_0000_0000_0000_0000 && q >= DOUBLE_EXACT_LIMIT {
        assert(s < 2048) by (nonlinear_arith)
            requires
                s * q <= n,
                q >= 0x20_0000_0000_0000,
                n < 0x1_0000_0000_0000_0000,
        ;
    }
}

fn unit_of(value: u128) -> (unit: usize)
    ensures
        unit == unit_index(value as nat),
        unit <= 4,
{
    if value < 1024 {
        0
    } else if value < 1024 * 1024 {
        1
    } else if value < 1024 * 1024 * 1024 {
        2
    } else if value < 1024 * 1024 * 1024 * 1024 {
        3
    } else {
        4
    }
}

fn scale_of(unit: usize) -> (scale: u128)
    ensures
        scale == unit_scale(unit as nat),
        0 < scale <= u64::MAX,
{
    if unit == 0 {
        1
    } else if unit == 1 {
        1024
    } else if unit == 2 {
        1024 * 1024
    } else if unit == 3 {
        1024 * 1024 * 1024
    } else {
        1024 * 1024 * 1024 * 1024
    }
}

fn label_of(unit: usize) -> (label: &'static str)
    ensures
        label@ == unit_label(unit as nat),
{
    if unit == 0 {
        "bytes"
    } else if unit == 1 {
        "KB"
    } else if unit == 2 {
        "MB"
    } else if unit == 3 {
        "GB"
    } else {
        "TB"
    }
}

/// Prints a byte count in the largest fitting unit, with two decimal places.
pub fn format_file_size(size: u64) -> (text: String)
    ensures
        text@ == size_text(size as nat),
{
    let value: u128 = to_nearest_double(size);
    let unit: usize = unit_of(value);
    let h: u128 = round_to_nearest(value * 100, scale_of(unit));
    let tenths: u8 = (h / 10 % 10) as u8;
    let last: u8 = (h % 10) as u8;
    let mut text = String::new();
    push_decimal(&mut text, h / 100);
    text.push('.');
    text.push((tenths + 48) as char);
    text.push((last + 48) as char);
    text.push(' ');
    text.append(label_of(unit));
    assert(text@ =~= size_text(size as nat));
    text
}

} // verus!
