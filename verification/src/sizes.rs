//! Sizes in bytes as people read them, with one decimal.
//!
//! The decimals are those of a double: a size of more than fifty-three bits is rounded to a
//! double first, and the quotient is then rounded to tenths. Both round to the nearest, and a
//! tie to the even neighbour.

use crate::text::{decimal, decimal_wide};
use vstd::prelude::*;

verus! {

/// Bytes in a kilobyte.
pub const KB: u64 = 1024;

/// Bytes in a megabyte.
pub const MB: u64 = 1_048_576;

/// Bytes in a gigabyte.
pub const GB: u64 = 1_073_741_824;

/// The first whole number behind those that all are doubles.
pub const DOUBLE_WHOLE: u64 = 9_007_199_254_740_992;

/// `n / d` to the nearest whole number; a tie goes to the even one.
pub open spec fn half_even(n: nat, d: nat) -> nat {
    let q = n / d;
    let r = n % d;
    if 2 * r < d || (2 * r == d && q % 2 == 0) {
        q
    } else {
        q + 1
    }
}

fn divide_half_even(n: u128, d: u128) -> (q: u128)
    requires
        0 < d <= u64::MAX,
        n <= u128::MAX / 2,
    ensures
        q == half_even(n as nat, d as nat),
        q <= n + 1,
{
    let q: u128 = n / d;
    let r: u128 = n % d;
    assert(q <= n) by (nonlinear_arith)
        requires
            q == n / d,
            d > 0,
    ;
    if 2 * r < d || (2 * r == d && q % 2 == 0) {
        q
    } else {
        q + 1
    }
}

/// The distance of the doubles round `v`, where that is at least `step`.
pub open spec fn double_step(v: nat, step: nat) -> nat
    decreases v - step,
{
    if step == 0 || v < step * DOUBLE_WHOLE {
        step
    } else {
        double_step(v, 2 * step)
    }
}

/// The double that stands for a whole number.
pub open spec fn as_double(v: nat) -> nat {
    half_even(v, double_step(v, 1)) * double_step(v, 1)
}

fn to_double(v: u64) -> (r: u128)
    ensures
        r == as_double(v as nat),
        r <= 2 * u64::MAX,
{
    let mut step: u128 = 1;
    while v as u128 >= step * (DOUBLE_WHOLE as u128)
        invariant
            1 <= step < 4096,
            double_step(v as nat, step as nat) == double_step(v as nat, 1),
        decreases 4096 - step,
    {
        assert(step < 2048) by (nonlinear_arith)
            requires
                step * 9_007_199_254_740_992 <= v,
                v <= u64::MAX,
        ;
        step = 2 * step;
    }
    let q: u128 = divide_half_even(v as u128, step);
    assert(q * step <= v + step) by (nonlinear_arith)
        requires
            q <= v / (step as u64) + 1,
            step >= 1,
            step < 4096,
    ;
    q * step
}

/// A number of tenths as a decimal.
pub open spec fn tenths_text(tenths: nat) -> Seq<char> {
    decimal(tenths / 10) + "."@ + decimal(tenths % 10)
}

/// The size in the largest unit that it reaches, with one decimal; under a kilobyte, in bytes.
pub open spec fn size_text(value: u64) -> Seq<char> {
    let v = as_double(value as nat);
    if v >= GB {
        tenths_text(half_even(10 * v, GB as nat)) + " GB"@
    } else if v >= MB {
        tenths_text(half_even(10 * v, MB as nat)) + " MB"@
    } else if v >= KB {
        tenths_text(half_even(10 * v, KB as nat)) + " KB"@
    } else {
        decimal(value as nat) + " B"@
    }
}

fn in_unit(v: u128, unit: u64, name: &str) -> (r: String)
    requires
        v <= 2 * u64::MAX,
        unit > 0,
    ensures
        r@ == tenths_text(half_even((10 * v) as nat, unit as nat)) + name@,
{
    let tenths: u128 = divide_half_even(10 * v, unit as u128);
    let mut out: String = decimal_wide(tenths / 10);
    let rest: String = decimal_wide(tenths % 10);
    out.push_str(".");
    out.push_str(rest.as_str());
    out.push_str(name);
    out
}

/// A size in bytes as people read it.
pub fn bytes_human(value: u64) -> (r: String)
    ensures
        r@ == size_text(value),
{
    let v: u128 = to_double(value);
    if v >= GB as u128 {
        in_unit(v, GB, " GB")
    } else if v >= MB as u128 {
        in_unit(v, MB, " MB")
    } else if v >= KB as u128 {
        in_unit(v, KB, " KB")
    } else {
        let mut out: String = decimal_wide(value as u128);
        out.push_str(" B");
        out
    }
}

/// Rounding goes to the nearest whole number: what is left over is at most half of the divisor.
pub proof fn law_rounding_is_to_the_nearest(n: nat, d: nat)
    requires
        d > 0,
    ensures
        2 * (half_even(n, d) * d) <= 2 * n + d,
        2 * n <= 2 * (half_even(n, d) * d) + d,
        n % d == 0 ==> half_even(n, d) * d == n,
        2 * (n % d) == d ==> half_even(n, d) % 2 == 0,
{
    let q = n / d;
    let r = n % d;
    assert(n == q * d + r && r < d) by (nonlinear_arith)
        requires
            d > 0,
            q == n / d,
            r == n % d,
    ;
    assert((q + 1) * d == q * d + d) by (nonlinear_arith);
}

/// A size under a kilobyte is told in whole bytes. A larger one is told with one decimal in the
/// largest unit that it reaches, to the nearest tenth, for every size below the whole numbers
/// that a double cannot hold.
pub proof fn law_sizes_are_told_in_their_unit(value: u64)
    requires
        value < DOUBLE_WHOLE,
    ensures
        as_double(value as nat) == value,
        value < 1024 ==> size_text(value) == decimal(value as nat) + " B"@,
        1024 <= value < 1024 * 1024 ==> size_text(value) == tenths_text(
            half_even(10 * value as nat, 1024),
        ) + " KB"@,
        1024 * 1024 <= value < 1024 * 1024 * 1024 ==> size_text(value) == tenths_text(
            half_even(10 * value as nat, 1024 * 1024),
        ) + " MB"@,
        1024 * 1024 * 1024 <= value ==> size_text(value) == tenths_text(
            half_even(10 * value as nat, 1024 * 1024 * 1024),
        ) + " GB"@,
        forall|whole: nat, tenth: nat|
            tenth < 10 ==> #[trigger] tenths_text(10 * whole + tenth) == decimal(whole) + "."@
                + decimal(tenth),
{
    assert(double_step(value as nat, 1) == 1);
    assert(value as nat / 1 == value as nat);
    assert(value as nat % 1 == 0);
    assert(half_even(value as nat, 1) == value as nat);
}

} // verus!
