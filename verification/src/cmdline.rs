//! The `cmdline` blob: the argument vector as a null-separated byte
//! string.  Trailing null bytes are dropped and every remaining null
//! separator becomes a single space, which yields the printable command
//! string; an empty read yields an absent command.

use vstd::prelude::*;

verus! {

/// Boundary before the trailing run of null bytes: the least `b` such
/// that `s[b..j]` is all nulls.
pub open spec fn rev_skip_nul(s: Seq<u8>, j: int) -> int
    decreases j when 0 <= j <= s.len()
{
    if j <= 0 {
        0
    } else if s[j - 1] == 0 {
        rev_skip_nul(s, j - 1)
    } else {
        j
    }
}

/// Null separators become single spaces, one for one.
pub open spec fn nulls_to_spaces(s: Seq<u8>) -> Seq<u8> {
    s.map_values(|b: u8| if b == 0 { 32u8 } else { b })
}

/// The printable command string of a cmdline blob: absent for an empty
/// read; otherwise the blob with its trailing nulls dropped and each
/// remaining null replaced by a space.
pub open spec fn spec_command(blob: Seq<u8>) -> Option<Seq<u8>> {
    if blob.len() == 0 {
        None
    } else {
        Some(nulls_to_spaces(blob.subrange(0, rev_skip_nul(blob, blob.len() as int))))
    }
}

/// Build the printable command string, per [`spec_command`].
pub fn command_of(blob: &[u8]) -> (r: Option<Vec<u8>>)
    ensures
        r is Some <==> spec_command(blob@) is Some,
        r matches Some(v) ==> Some(v@) == spec_command(blob@),
{
    if blob.len() == 0 {
        return None;
    }
    let mut b: usize = blob.len();
    while b > 0 && blob[b - 1] == 0
        invariant
            b <= blob@.len(),
            rev_skip_nul(blob@, blob@.len() as int) == rev_skip_nul(blob@, b as int),
        decreases b,
    {
        b = b - 1;
    }
    let mut out: Vec<u8> = Vec::new();
    let mut i: usize = 0;
    while i < b
        invariant
            i <= b <= blob@.len(),
            out@ == nulls_to_spaces(blob@.subrange(0, i as int)),
        decreases b - i,
    {
        let c = blob[i];
        if c == 0 {
            out.push(32);
        } else {
            out.push(c);
        }
        proof {
            assert(nulls_to_spaces(blob@.subrange(0, i + 1)) =~= nulls_to_spaces(
                blob@.subrange(0, i as int)) + seq![if blob@[i as int] == 0 {
                    32u8
                } else {
                    blob@[i as int]
                }]);
        }
        i = i + 1;
    }
    Some(out)
}

} // verus!
