//! The clock-rate probe: the whole-run tick-to-percentage divisor, read
//! from the CPU-frequency listing.
//!
//! The first line containing a `cpu MHz` field is taken, the text after
//! its last colon is trimmed and read as a decimal megahertz figure, and
//! that figure is scaled to hertz-per-hundred units — megahertz times ten
//! thousand — as an integer, keeping up to four fraction digits.  This is
//! a heuristic stand-in for the kernel's real ticks-per-second constant,
//! not a standards-accurate value.  When no such line parses, or the
//! figure is zero or out of range, no divisor exists and the whole
//! snapshot must fail: without it no CPU share can be derived.

use vstd::prelude::*;

use crate::text::{
    all_digits, dec_val, pow10, spec_trim, is_digit,
    check_all_digits, copy_range, parse_u64, trim_bytes,
    lemma_dec_val_nonneg, lemma_pow10_small,
};
use crate::status::{lines, lines_from, line_end_at};

verus! {

/// `p` occurs in `l` starting at offset `k`.
pub open spec fn contains_at(l: Seq<u8>, p: Seq<u8>, k: int) -> bool {
    0 <= k && k + p.len() <= l.len() && l.subrange(k, k + p.len()) == p
}

/// `p` occurs somewhere in `l`.
pub open spec fn contains_sub(l: Seq<u8>, p: Seq<u8>) -> bool {
    exists|k: int| contains_at(l, p, k)
}

/// Substring search, per [`contains_sub`].
pub fn contains_bytes(l: &[u8], p: &[u8]) -> (r: bool)
    ensures
        r == contains_sub(l@, p@),
{
    if p.len() > l.len() {
        proof {
            assert forall|k: int| !contains_at(l@, p@, k) by {}
        }
        return false;
    }
    if p.len() == 0 {
        proof {
            assert(l@.subrange(0, 0) =~= p@);
            assert(contains_at(l@, p@, 0));
        }
        return true;
    }
    let limit: usize = l.len() - p.len();
    let mut k: usize = 0;
    while k <= limit
        invariant
            k <= limit + 1,
            p@.len() >= 1,
            limit == l@.len() - p@.len(),
            forall|k2: int| 0 <= k2 < k ==> !contains_at(l@, p@, k2),
        decreases limit + 1 - k,
    {
        let hit = crate::text::range_starts_with(l, k, l.len(), p);
        proof {
            let rest = l@.subrange(k as int, l@.len() as int);
            assert(rest.subrange(0, p@.len() as int) =~= l@.subrange(k as int,
                k as int + p@.len() as int));
        }
        if hit {
            proof {
                assert(contains_at(l@, p@, k as int));
            }
            return true;
        }
        k = k + 1;
    }
    proof {
        assert forall|k2: int| !contains_at(l@, p@, k2) by {
            if k2 >= k {
                assert(k2 + p@.len() > l@.len());
            }
        }
    }
    false
}

/// The first line of `ls` in which `needle` occurs.
pub open spec fn first_line_with(ls: Seq<Seq<u8>>, needle: Seq<u8>) -> Option<Seq<u8>>
    decreases ls.len(),
{
    if ls.len() == 0 {
        None
    } else if contains_sub(ls[0], needle) {
        Some(ls[0])
    } else {
        first_line_with(ls.drop_first(), needle)
    }
}

/// The `cpu MHz` field marker.
pub open spec fn cpu_mhz_needle() -> Seq<u8> {
    seq![99u8, 112u8, 117u8, 32u8, 77u8, 72u8, 122u8]
}

/// Copy out the first line of the listing that mentions `cpu MHz`.
pub fn freq_line(cpuinfo: &[u8]) -> (r: Option<Vec<u8>>)
    ensures
        r is Some <==> first_line_with(lines(cpuinfo@), cpu_mhz_needle()) is Some,
        r matches Some(v) ==> Some(v@) == first_line_with(lines(cpuinfo@), cpu_mhz_needle()),
{
    let needle: [u8; 7] = [99u8, 112u8, 117u8, 32u8, 77u8, 72u8, 122u8];
    proof {
        assert(needle@ =~= cpu_mhz_needle());
    }
    let mut pos: usize = 0;
    while pos < cpuinfo.len()
        invariant
            pos <= cpuinfo@.len(),
            needle@ == cpu_mhz_needle(),
            first_line_with(lines_from(cpuinfo@, pos as int), cpu_mhz_needle())
                == first_line_with(lines(cpuinfo@), cpu_mhz_needle()),
        decreases cpuinfo@.len() - pos,
    {
        let e = line_end_at(cpuinfo, pos);
        let ghost line = cpuinfo@.subrange(pos as int, e as int);
        let ghost ls = lines_from(cpuinfo@, pos as int);
        proof {
            if e < cpuinfo@.len() {
                assert(ls == seq![line] + lines_from(cpuinfo@, e + 1));
                assert(ls[0] == line);
                assert(ls.drop_first() =~= lines_from(cpuinfo@, e + 1));
            } else {
                assert(ls == seq![line]);
                assert(ls[0] == line);
                assert(ls.drop_first() =~= Seq::<Seq<u8>>::empty());
            }
        }
        let line_v = copy_range(cpuinfo, pos, e);
        if contains_bytes(line_v.as_slice(), needle.as_slice()) {
            proof {
                assert(contains_sub(ls[0], cpu_mhz_needle()));
                assert(first_line_with(ls, cpu_mhz_needle()) == Some(line));
            }
            return Some(line_v);
        }
        if e == cpuinfo.len() {
            proof {
                assert(first_line_with(ls.drop_first(), cpu_mhz_needle()) is None);
            }
            return None;
        }
        pos = e + 1;
    }
    None
}

/// Boundary after the last colon of `l` strictly before `j`, or 0 when
/// there is none.
pub open spec fn after_last_colon_from(l: Seq<u8>, j: int) -> int
    decreases j when 0 <= j <= l.len()
{
    if j <= 0 {
        0
    } else if l[j - 1] == 58 {
        j
    } else {
        after_last_colon_from(l, j - 1)
    }
}

/// Position after the last colon of `l`; 0 when `l` has no colon, so that
/// the "last piece" of a colon-split line is the whole line.
pub open spec fn after_last_colon(l: Seq<u8>) -> int {
    after_last_colon_from(l, l.len() as int)
}

/// Exec mirror of [`after_last_colon`].
pub fn after_last_colon_at(l: &[u8]) -> (r: usize)
    ensures
        r == after_last_colon(l@),
        r <= l@.len(),
{
    let mut j: usize = l.len();
    while j > 0 && l[j - 1] != 58
        invariant
            j <= l@.len(),
            after_last_colon(l@) == after_last_colon_from(l@, j as int),
        decreases j,
    {
        j = j - 1;
    }
    j
}

/// Index of the first `.` byte at or after `i`, or `s.len()`.
pub open spec fn find_dot(s: Seq<u8>, i: int) -> int
    decreases s.len() - i when 0 <= i <= s.len()
{
    if i >= s.len() {
        i
    } else if s[i] == 46 {
        i
    } else {
        find_dot(s, i + 1)
    }
}

/// Exec mirror of [`find_dot`].
pub fn find_dot_at(s: &[u8], from: usize) -> (r: usize)
    requires
        from <= s@.len(),
    ensures
        r == find_dot(s@, from as int),
        from <= r <= s@.len(),
{
    let mut i: usize = from;
    while i < s.len() && s[i] != 46
        invariant
            from <= i <= s@.len(),
            find_dot(s@, from as int) == find_dot(s@, i as int),
        decreases s@.len() - i,
    {
        i = i + 1;
    }
    i
}

/// The first four fraction digits scaled to ten-thousandths; shorter
/// fraction strings are padded with zeros, longer ones truncated.
pub open spec fn frac_ten_thousandths(frac: Seq<u8>) -> int {
    if frac.len() >= 4 {
        dec_val(frac.subrange(0, 4))
    } else {
        dec_val(frac) * pow10(4 - frac.len())
    }
}

/// The divisor named by a trimmed frequency value `whole[.frac]`: the
/// megahertz numeral times ten thousand, truncated past four fraction
/// digits.  Absent when the text is not such a numeral (digits around at
/// most one dot, at least one digit in all), when the value is zero, or
/// when it overflows.
pub open spec fn spec_mhz_divisor(v: Seq<u8>) -> Option<int> {
    let d = find_dot(v, 0);
    let whole = v.subrange(0, d);
    let frac = if d < v.len() {
        v.subrange(d + 1, v.len() as int)
    } else {
        Seq::empty()
    };
    if all_digits(whole) && all_digits(frac) && whole.len() + frac.len() >= 1 {
        let val = dec_val(whole) * 10000 + frac_ten_thousandths(frac);
        if 0 < val <= u64::MAX {
            Some(val)
        } else {
            None
        }
    } else {
        None
    }
}

/// Parse a trimmed frequency value, per [`spec_mhz_divisor`].
pub fn mhz_divisor(v: &[u8]) -> (r: Option<u64>)
    ensures
        r is Some <==> spec_mhz_divisor(v@) is Some,
        r matches Some(dv) ==> Some(dv as int) == spec_mhz_divisor(v@) && dv > 0,
{
    let d = find_dot_at(v, 0);
    let whole = copy_range(v, 0, d);
    let frac = if d < v.len() {
        copy_range(v, d + 1, v.len())
    } else {
        Vec::new()
    };
    let ghost wholeg = whole@;
    let ghost fracg = frac@;
    if !check_all_digits(whole.as_slice()) {
        return None;
    }
    if !check_all_digits(frac.as_slice()) {
        return None;
    }
    if whole.len() == 0 && frac.len() == 0 {
        return None;
    }
    let w: u64 = if whole.len() == 0 {
        0
    } else {
        match parse_u64(whole.as_slice()) {
            Some(x) => x,
            None => {
                proof {
                    // the whole part alone already overflows, so the value does
                    lemma_pow10_small();
                    if fracg.len() >= 4 {
                        lemma_dec_val_nonneg(fracg.subrange(0, 4));
                    } else {
                        lemma_dec_val_nonneg(fracg);
                        assert(pow10(4 - fracg.len()) >= 1);
                        assert(dec_val(fracg) * pow10(4 - fracg.len()) >= 0) by (nonlinear_arith)
                            requires dec_val(fracg) >= 0 && pow10(4 - fracg.len()) >= 1;
                    }
                    lemma_dec_val_nonneg(wholeg);
                    assert(dec_val(wholeg) * 10000 >= dec_val(wholeg));
                }
                return None;
            },
        }
    };
    let m: usize = if frac.len() < 4 {
        frac.len()
    } else {
        4
    };
    let mut f: u64 = 0;
    let mut j: usize = 0;
    proof {
        lemma_pow10_small();
        assert(fracg.subrange(0, 0) =~= Seq::<u8>::empty());
    }
    while j < m
        invariant
            j <= m,
            m <= 4,
            m <= fracg.len(),
            frac@ == fracg,
            all_digits(fracg),
            f == dec_val(fracg.subrange(0, j as int)),
            f < pow10(j as int),
        decreases m - j,
    {
        let b = frac[j];
        proof {
            lemma_pow10_small();
            assert(is_digit(fracg[j as int]));
            assert(fracg.subrange(0, j + 1).drop_last() =~= fracg.subrange(0, j as int));
            assert(fracg.subrange(0, j + 1).last() == fracg[j as int]);
        }
        f = f * 10 + (b - 48) as u64;
        j = j + 1;
    }
    let mut pad: usize = m;
    proof {
        lemma_pow10_small();
        assert(j == m);
        assert(f == dec_val(fracg.subrange(0, m as int)));
        assert(pow10(0) == 1);
        assert(f == dec_val(fracg.subrange(0, m as int)) * pow10(0));
    }
    while pad < 4
        invariant
            m <= pad <= 4,
            m <= fracg.len(),
            f == dec_val(fracg.subrange(0, m as int)) * pow10(pad - m),
            f < pow10(pad as int),
        decreases 4 - pad,
    {
        proof {
            lemma_pow10_small();
            assert(pow10(pad - m + 1) == 10 * pow10(pad - m));
            assert(dec_val(fracg.subrange(0, m as int)) * pow10(pad - m + 1)
                == dec_val(fracg.subrange(0, m as int)) * pow10(pad - m) * 10) by (nonlinear_arith)
                requires pow10(pad - m + 1) == 10 * pow10(pad - m);
            assert(pow10(pad + 1) == 10 * pow10(pad as int));
        }
        f = f * 10;
        pad = pad + 1;
    }
    proof {
        lemma_pow10_small();
        if fracg.len() >= 4 {
            assert(m == 4 && pad == 4);
            assert(f == dec_val(fracg.subrange(0, 4)));
        } else {
            assert(fracg.subrange(0, m as int) =~= fracg);
        }
        assert(f == frac_ten_thousandths(fracg));
    }
    let val: u128 = (w as u128) * 10000 + (f as u128);
    if val == 0 {
        return None;
    }
    if val > u64::MAX as u128 {
        return None;
    }
    Some(val as u64)
}

/// The whole-run clock divisor read from the CPU-frequency listing, or
/// absent when no `cpu MHz` line yields a usable figure.
pub open spec fn spec_clock_divisor(cpuinfo: Seq<u8>) -> Option<int> {
    match first_line_with(lines(cpuinfo), cpu_mhz_needle()) {
        Option::None => Option::None,
        Option::Some(l) => spec_mhz_divisor(
            spec_trim(l.subrange(after_last_colon(l), l.len() as int)),
        ),
    }
}

/// Probe the clock divisor, per [`spec_clock_divisor`].  `None` is fatal
/// for the whole snapshot.
pub fn clock_divisor(cpuinfo: &[u8]) -> (r: Option<u64>)
    ensures
        r is Some <==> spec_clock_divisor(cpuinfo@) is Some,
        r matches Some(dv) ==> Some(dv as int) == spec_clock_divisor(cpuinfo@) && dv > 0,
{
    match freq_line(cpuinfo) {
        None => None,
        Some(l) => {
            let a = after_last_colon_at(l.as_slice());
            let tail = copy_range(l.as_slice(), a, l.len());
            let trimmed = trim_bytes(tail.as_slice());
            mhz_divisor(trimmed.as_slice())
        },
    }
}

} // verus!
