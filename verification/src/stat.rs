//! The positional `stat` line: a single line of whitespace-separated
//! tokens, with the time counters at fixed zero-based positions — utime at
//! 13, stime at 14, cutime at 15, cstime at 16, as the kernel's documented
//! layout has them.  A position out of range or a non-numeric token is
//! treated as zero, never as an error.

use vstd::prelude::*;

use crate::text::{
    numeric_or_zero, spec_nth_token, tokens, nth_token, parse_u64_or_zero,
    lemma_nth_token_agrees,
};

verus! {

/// Value of the stat-line token at zero-based position `n`: zero when the
/// position is out of range or the token does not parse as a number.
pub open spec fn spec_tick_at(line: Seq<u8>, n: nat) -> int {
    numeric_or_zero(spec_nth_token(line, n))
}

/// Extract the tick counter at position `n` of the stat line.
pub fn tick_at(line: &[u8], n: usize) -> (r: u64)
    ensures
        r == spec_tick_at(line@, n as nat),
{
    match nth_token(line, n) {
        Some(t) => parse_u64_or_zero(t.as_slice()),
        None => 0,
    }
}

/// On any stat line with at least 17 whitespace-separated tokens, the
/// four time counters are extracted from token positions 13 to 16
/// (zero-based): each equals the numeric value of that token of the full
/// token list, defaulted to zero when non-numeric.
pub proof fn lemma_stat_positions(line: Seq<u8>)
    requires
        tokens(line).len() >= 17,
    ensures
        spec_tick_at(line, 13) == numeric_or_zero(Some(tokens(line)[13])),
        spec_tick_at(line, 14) == numeric_or_zero(Some(tokens(line)[14])),
        spec_tick_at(line, 15) == numeric_or_zero(Some(tokens(line)[15])),
        spec_tick_at(line, 16) == numeric_or_zero(Some(tokens(line)[16])),
{
    lemma_nth_token_agrees(line, 13);
    lemma_nth_token_agrees(line, 14);
    lemma_nth_token_agrees(line, 15);
    lemma_nth_token_agrees(line, 16);
}

/// The four time counters of a stat line, in the order utime (position
/// 13), stime (14), cutime (15), cstime (16).
pub fn stat_times(line: &[u8]) -> (r: (u64, u64, u64, u64))
    ensures
        r.0 == spec_tick_at(line@, 13),
        r.1 == spec_tick_at(line@, 14),
        r.2 == spec_tick_at(line@, 15),
        r.3 == spec_tick_at(line@, 16),
{
    let utime = tick_at(line, 13);
    let stime = tick_at(line, 14);
    let cutime = tick_at(line, 15);
    let cstime = tick_at(line, 16);
    (utime, stime, cutime, cstime)
}

} // verus!
