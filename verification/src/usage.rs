//! Derived usage metrics: the CPU share of a process and human-readable
//! byte sizes.
//!
//! The CPU share divides only the kernel-mode time (`stime`) by the clock
//! divisor — deliberately not the sum of kernel- and user-mode time; that
//! is the formula this tool has always used.  Percentages are carried as
//! integer hundredths of a percentage point, so `2500` means `25.00%`.

use vstd::prelude::*;

use vstd::arithmetic::div_mod::{lemma_div_is_ordered, lemma_div_multiples_vanish};
use vstd::arithmetic::mul::lemma_mul_inequality;

use crate::text::{dec_digits, two_dec_digits, push_dec_digits, push_two_dec_digits};

verus! {

/// CPU share in hundredths of a percentage point:
/// `100 * stime / divisor`, carried exactly as `(10000 * stime) / divisor`
/// truncated, and saturated at `u64::MAX`.
pub open spec fn spec_cpu_centipercent(stime: u64, divisor: u64) -> int
    recommends
        divisor > 0,
{
    let q = (10000 * stime) / (divisor as int);
    if q > u64::MAX {
        u64::MAX as int
    } else {
        q
    }
}

/// Compute the CPU share, per [`spec_cpu_centipercent`].
pub fn cpu_centipercent(stime: u64, divisor: u64) -> (r: u64)
    requires
        divisor > 0,
    ensures
        r == spec_cpu_centipercent(stime, divisor),
{
    let wide: u128 = 10000u128 * (stime as u128) / (divisor as u128);
    if wide > u64::MAX as u128 {
        u64::MAX
    } else {
        wide as u64
    }
}

/// `n` hundredths rendered as a decimal with exactly two fraction digits.
pub open spec fn scaled_digits(n: int) -> Seq<u8> {
    dec_digits(n / 100) + seq![46u8] + two_dec_digits(n % 100)
}

/// Append the `whole.fraction` rendering of `n` hundredths to `out`.
fn push_scaled(n: u64, out: &mut Vec<u8>)
    ensures
        final(out)@ == old(out)@ + scaled_digits(n as int),
{
    push_dec_digits(n / 100, out);
    out.push(46);
    push_two_dec_digits(n % 100, out);
}

/// The `whole.fraction` rendering of a centipercent CPU share, so `2500`
/// becomes `25.00`.
pub fn centipercent_digits(c: u64) -> (r: Vec<u8>)
    ensures
        r@ == scaled_digits(c as int),
{
    let mut out: Vec<u8> = Vec::new();
    push_scaled(c, &mut out);
    out
}

/// The rendered form of a byte count: plain bytes under 1024; otherwise
/// the count scaled by the largest binary unit whose threshold it meets
/// (KB, MB or GB), with two decimal places, truncated.
pub open spec fn spec_human_readable(bytes: int) -> Seq<u8> {
    if bytes < 1024 {
        dec_digits(bytes) + seq![32u8, 66u8]
    } else if bytes < 1048576 {
        scaled_digits(bytes * 100 / 1024) + seq![32u8, 75u8, 66u8]
    } else if bytes < 1073741824 {
        scaled_digits(bytes * 100 / 1048576) + seq![32u8, 77u8, 66u8]
    } else {
        scaled_digits(bytes * 100 / 1073741824) + seq![32u8, 71u8, 66u8]
    }
}

/// `bytes * 100 / unit`, computed without overflow.
fn scale_by_unit(bytes: u64, unit: u64) -> (r: u64)
    requires
        unit >= 100,
    ensures
        r == bytes as int * 100 / unit as int,
{
    let wide: u128 = (bytes as u128) * 100 / (unit as u128);
    proof {
        lemma_mul_inequality(100, unit as int, bytes as int);
        lemma_div_is_ordered(bytes as int * 100, bytes as int * unit as int, unit as int);
        lemma_div_multiples_vanish(bytes as int, unit as int);
        assert(unit as int * bytes as int == bytes as int * unit as int) by (nonlinear_arith);
        assert(bytes as int * 100 == 100 * bytes as int) by (nonlinear_arith);
    }
    wide as u64
}

/// Render a byte count, per [`spec_human_readable`].
pub fn human_readable_size(bytes: u64) -> (r: Vec<u8>)
    ensures
        r@ == spec_human_readable(bytes as int),
{
    let mut out: Vec<u8> = Vec::new();
    if bytes < 1024 {
        push_dec_digits(bytes, &mut out);
        out.push(32);
        out.push(66);
    } else if bytes < 1048576 {
        push_scaled(scale_by_unit(bytes, 1024), &mut out);
        out.push(32);
        out.push(75);
        out.push(66);
    } else if bytes < 1073741824 {
        push_scaled(scale_by_unit(bytes, 1048576), &mut out);
        out.push(32);
        out.push(77);
        out.push(66);
    } else {
        push_scaled(scale_by_unit(bytes, 1073741824), &mut out);
        out.push(32);
        out.push(71);
        out.push(66);
    }
    out
}

} // verus!
