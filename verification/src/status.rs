//! The labeled `status` block: a sequence of `Label: value` lines.
//!
//! Fields are located by matching the label prefix of a line, never by a
//! fixed line index — line order and presence vary across kernel versions
//! and process types.  The order-independence of this lookup is proved in
//! [`lemma_lookup_order_independent`].

use vstd::prelude::*;
use vstd::seq_lib::group_to_multiset_ensures;

use crate::text::{
    spec_nth_token, spec_trim, starts_with,
    copy_range, nth_token, range_starts_with, trim_bytes, bytes_eq,
};

verus! {

/// Index of the first line-feed byte at or after `i`, or `s.len()`.
pub open spec fn line_end(s: Seq<u8>, i: int) -> int
    decreases s.len() - i when 0 <= i <= s.len()
{
    if i >= s.len() {
        i
    } else if s[i] == 10 {
        i
    } else {
        line_end(s, i + 1)
    }
}

pub proof fn lemma_line_end_bounds(s: Seq<u8>, i: int)
    requires
        0 <= i <= s.len(),
    ensures
        i <= line_end(s, i) <= s.len(),
    decreases s.len() - i,
{
    if i < s.len() && s[i] != 10 {
        lemma_line_end_bounds(s, i + 1);
    }
}

/// The lines of `s[i..]`, split at line-feed bytes (separators dropped).
pub open spec fn lines_from(s: Seq<u8>, i: int) -> Seq<Seq<u8>>
    decreases s.len() - i when 0 <= i <= s.len()
{
    if i >= s.len() {
        seq![]
    } else {
        proof {
            lemma_line_end_bounds(s, i);
        }
        let e = line_end(s, i);
        if e >= s.len() {
            seq![s.subrange(i, e)]
        } else {
            seq![s.subrange(i, e)] + lines_from(s, e + 1)
        }
    }
}

/// The lines of a whole block.
pub open spec fn lines(s: Seq<u8>) -> Seq<Seq<u8>> {
    lines_from(s, 0)
}

/// The remainder of the first line of `ls` that starts with `label`, in
/// order; `None` when no line carries the label.
pub open spec fn lookup_label(ls: Seq<Seq<u8>>, label: Seq<u8>) -> Option<Seq<u8>>
    decreases ls.len(),
{
    if ls.len() == 0 {
        None
    } else if starts_with(ls[0], label) {
        Some(ls[0].subrange(label.len() as int, ls[0].len() as int))
    } else {
        lookup_label(ls.drop_first(), label)
    }
}

/// Raw (untrimmed) value of the first line of the block carrying `label`.
pub open spec fn spec_status_lookup(s: Seq<u8>, label: Seq<u8>) -> Option<Seq<u8>> {
    lookup_label(lines(s), label)
}

/// Trimmed value of the labeled line, as kept for text fields.
pub open spec fn spec_status_field(s: Seq<u8>, label: Seq<u8>) -> Option<Seq<u8>> {
    match spec_status_lookup(s, label) {
        Option::Some(v) => Option::Some(spec_trim(v)),
        Option::None => Option::None,
    }
}

/// A memory figure: a trimmed value equal to the "not applicable" sentinel
/// text is treated as absent rather than copied verbatim.
pub open spec fn spec_mem_field(s: Seq<u8>, label: Seq<u8>, sentinel: Seq<u8>) -> Option<Seq<u8>> {
    match spec_status_field(s, label) {
        Option::Some(v) => if v == sentinel {
            Option::None
        } else {
            Option::Some(v)
        },
        Option::None => Option::None,
    }
}

/// An identity field: only the first whitespace-separated token of the
/// value (the real id) is kept.
pub open spec fn spec_id_field(s: Seq<u8>, label: Seq<u8>) -> Option<Seq<u8>> {
    match spec_status_lookup(s, label) {
        Option::Some(v) => spec_nth_token(v, 0),
        Option::None => Option::None,
    }
}

/// First line-feed position at or after `from`.
pub fn line_end_at(s: &[u8], from: usize) -> (r: usize)
    requires
        from <= s@.len(),
    ensures
        r == line_end(s@, from as int),
        from <= r <= s@.len(),
{
    let mut i: usize = from;
    while i < s.len() && s[i] != 10
        invariant
            from <= i <= s@.len(),
            line_end(s@, from as int) == line_end(s@, i as int),
        decreases s@.len() - i,
    {
        i = i + 1;
    }
    i
}

/// Find the first line of `s` that starts with `label` and copy out the
/// rest of that line, per [`spec_status_lookup`].
pub fn status_lookup(s: &[u8], label: &[u8]) -> (r: Option<Vec<u8>>)
    ensures
        r is Some <==> spec_status_lookup(s@, label@) is Some,
        r matches Some(v) ==> Some(v@) == spec_status_lookup(s@, label@),
{
    let mut pos: usize = 0;
    while pos < s.len()
        invariant
            pos <= s@.len(),
            lookup_label(lines_from(s@, pos as int), label@) == spec_status_lookup(s@, label@),
        decreases s@.len() - pos,
    {
        let e = line_end_at(s, pos);
        let ghost line = s@.subrange(pos as int, e as int);
        let ghost ls = lines_from(s@, pos as int);
        proof {
            if e < s@.len() {
                assert(ls == seq![line] + lines_from(s@, e + 1));
                assert(ls[0] == line);
                assert(ls.drop_first() =~= lines_from(s@, e + 1));
            } else {
                assert(ls == seq![line]);
                assert(ls[0] == line);
                assert(ls.drop_first() =~= Seq::<Seq<u8>>::empty());
            }
        }
        if range_starts_with(s, pos, e, label) {
            let v = copy_range(s, pos + label.len(), e);
            proof {
                assert(v@ =~= line.subrange(label@.len() as int, line.len() as int));
            }
            return Some(v);
        }
        if e == s.len() {
            proof {
                assert(ls.drop_first().len() == 0);
                assert(lookup_label(ls.drop_first(), label@) is None);
                assert(lookup_label(ls, label@) is None);
            }
            return None;
        }
        pos = e + 1;
    }
    None
}

/// Trimmed field, per [`spec_status_field`].
pub fn status_field(s: &[u8], label: &[u8]) -> (r: Option<Vec<u8>>)
    ensures
        r is Some <==> spec_status_field(s@, label@) is Some,
        r matches Some(v) ==> Some(v@) == spec_status_field(s@, label@),
{
    match status_lookup(s, label) {
        Some(v) => Some(trim_bytes(v.as_slice())),
        None => None,
    }
}

/// Memory field with sentinel handling, per [`spec_mem_field`].
pub fn status_mem_field(s: &[u8], label: &[u8], sentinel: &[u8]) -> (r: Option<Vec<u8>>)
    ensures
        r is Some <==> spec_mem_field(s@, label@, sentinel@) is Some,
        r matches Some(v) ==> Some(v@) == spec_mem_field(s@, label@, sentinel@),
{
    match status_field(s, label) {
        Some(v) => {
            if bytes_eq(v.as_slice(), sentinel) {
                None
            } else {
                Some(v)
            }
        },
        None => None,
    }
}

/// Identity field (first token of the value), per [`spec_id_field`].
pub fn status_id_field(s: &[u8], label: &[u8]) -> (r: Option<Vec<u8>>)
    ensures
        r is Some <==> spec_id_field(s@, label@) is Some,
        r matches Some(v) ==> Some(v@) == spec_id_field(s@, label@),
{
    match status_lookup(s, label) {
        Some(v) => nth_token(v.as_slice(), 0),
        None => None,
    }
}

/// Index `k` holds the only line of `ls` that carries `label`.
pub open spec fn only_match_at(ls: Seq<Seq<u8>>, label: Seq<u8>, k: int) -> bool {
    &&& 0 <= k < ls.len()
    &&& starts_with(ls[k], label)
    &&& forall|j: int| 0 <= j < ls.len() && j != k ==> !starts_with(#[trigger] ls[j], label)
}

/// Exactly one line of `ls` carries `label`.
pub open spec fn unique_label(ls: Seq<Seq<u8>>, label: Seq<u8>) -> bool {
    exists|k: int| only_match_at(ls, label, k)
}

/// When a single line carries the label, lookup returns that line's value,
/// wherever the line stands in the block.
pub proof fn lemma_lookup_at_unique(ls: Seq<Seq<u8>>, label: Seq<u8>, k: int)
    requires
        only_match_at(ls, label, k),
    ensures
        lookup_label(ls, label) == Some(ls[k].subrange(label.len() as int, ls[k].len() as int)),
    decreases ls.len(),
{
    if k > 0 {
        assert(!starts_with(ls[0], label));
        let tail = ls.drop_first();
        assert(only_match_at(tail, label, k - 1)) by {
            assert(tail[k - 1] == ls[k]);
            assert forall|j: int| 0 <= j < tail.len() && j != k - 1
                implies !starts_with(#[trigger] tail[j], label) by {
                assert(tail[j] == ls[j + 1]);
            }
        }
        lemma_lookup_at_unique(tail, label, k - 1);
        assert(tail[k - 1] == ls[k]);
    }
}

/// Label-based lookup is order-independent: two blocks whose lines are the
/// same up to reordering, each carrying the label on exactly one line,
/// yield the same value for that label.
pub proof fn lemma_lookup_order_independent(a: Seq<Seq<u8>>, b: Seq<Seq<u8>>, label: Seq<u8>)
    requires
        a.to_multiset() == b.to_multiset(),
        unique_label(a, label),
        unique_label(b, label),
    ensures
        lookup_label(a, label) == lookup_label(b, label),
{
    broadcast use group_to_multiset_ensures;

    let i = choose|i: int| only_match_at(a, label, i);
    let j = choose|j: int| only_match_at(b, label, j);
    lemma_lookup_at_unique(a, label, i);
    lemma_lookup_at_unique(b, label, j);
    assert(a.contains(a[i]));
    assert(b.to_multiset().count(a[i]) > 0);
    assert(b.contains(a[i]));
    let j2 = choose|j2: int| 0 <= j2 < b.len() && b[j2] == a[i];
    assert(starts_with(b[j2], label));
    assert(j2 == j);
}

/// Order independence lifted to whole status blocks: permuting the lines
/// of a block (each queried label on exactly one line) leaves every parsed
/// field unchanged.
pub proof fn lemma_status_order_independent(s1: Seq<u8>, s2: Seq<u8>, label: Seq<u8>)
    requires
        lines(s1).to_multiset() == lines(s2).to_multiset(),
        unique_label(lines(s1), label),
        unique_label(lines(s2), label),
    ensures
        spec_status_lookup(s1, label) == spec_status_lookup(s2, label),
        spec_status_field(s1, label) == spec_status_field(s2, label),
        spec_id_field(s1, label) == spec_id_field(s2, label),
        forall|sentinel: Seq<u8>|
            #[trigger] spec_mem_field(s1, label, sentinel) == spec_mem_field(s2, label, sentinel),
{
    lemma_lookup_order_independent(lines(s1), lines(s2), label);
}

/// The `State:` label.
pub open spec fn state_label() -> Seq<u8> {
    seq![83u8, 116u8, 97u8, 116u8, 101u8, 58u8]
}

/// The `PPid:` label.
pub open spec fn ppid_label() -> Seq<u8> {
    seq![80u8, 80u8, 105u8, 100u8, 58u8]
}

/// The `VmRSS:` label.
pub open spec fn vm_rss_label() -> Seq<u8> {
    seq![86u8, 109u8, 82u8, 83u8, 83u8, 58u8]
}

/// The `VmPeak:` label.
pub open spec fn vm_peak_label() -> Seq<u8> {
    seq![86u8, 109u8, 80u8, 101u8, 97u8, 107u8, 58u8]
}

/// The `VmSize:` label.
pub open spec fn vm_size_label() -> Seq<u8> {
    seq![86u8, 109u8, 83u8, 105u8, 122u8, 101u8, 58u8]
}

/// The `Uid:` label.
pub open spec fn uid_label() -> Seq<u8> {
    seq![85u8, 105u8, 100u8, 58u8]
}

/// The `Gid:` label.
pub open spec fn gid_label() -> Seq<u8> {
    seq![71u8, 105u8, 100u8, 58u8]
}

/// The "not applicable" sentinel text for `VmRSS:` values (`sigign`).
pub open spec fn rss_sentinel() -> Seq<u8> {
    seq![115u8, 105u8, 103u8, 105u8, 103u8, 110u8]
}

/// The "not applicable" sentinel text for `VmPeak:` values (`fffffffff`).
pub open spec fn vm_peak_sentinel() -> Seq<u8> {
    seq![102u8, 102u8, 102u8, 102u8, 102u8, 102u8, 102u8, 102u8, 102u8]
}

/// The trimmed `State:` value of the block.
pub fn state_of(status: &[u8]) -> (r: Option<Vec<u8>>)
    ensures
        r is Some <==> spec_status_field(status@, state_label()) is Some,
        r matches Some(v) ==> Some(v@) == spec_status_field(status@, state_label()),
{
    let lab: [u8; 6] = [83u8, 116u8, 97u8, 116u8, 101u8, 58u8];
    proof {
        assert(lab@ =~= state_label());
    }
    status_field(status, lab.as_slice())
}

/// The trimmed `PPid:` value of the block.
pub fn ppid_of(status: &[u8]) -> (r: Option<Vec<u8>>)
    ensures
        r is Some <==> spec_status_field(status@, ppid_label()) is Some,
        r matches Some(v) ==> Some(v@) == spec_status_field(status@, ppid_label()),
{
    let lab: [u8; 5] = [80u8, 80u8, 105u8, 100u8, 58u8];
    proof {
        assert(lab@ =~= ppid_label());
    }
    status_field(status, lab.as_slice())
}

/// The trimmed `VmRSS:` value, absent when it equals the sentinel text.
pub fn rss_of(status: &[u8]) -> (r: Option<Vec<u8>>)
    ensures
        r is Some <==> spec_mem_field(status@, vm_rss_label(), rss_sentinel()) is Some,
        r matches Some(v) ==> Some(v@) == spec_mem_field(status@, vm_rss_label(), rss_sentinel()),
{
    let lab: [u8; 6] = [86u8, 109u8, 82u8, 83u8, 83u8, 58u8];
    let sentinel: [u8; 6] = [115u8, 105u8, 103u8, 105u8, 103u8, 110u8];
    proof {
        assert(lab@ =~= vm_rss_label());
        assert(sentinel@ =~= rss_sentinel());
    }
    status_mem_field(status, lab.as_slice(), sentinel.as_slice())
}

/// The trimmed `VmPeak:` value, absent when it equals the sentinel text.
pub fn vmpeak_of(status: &[u8]) -> (r: Option<Vec<u8>>)
    ensures
        r is Some <==> spec_mem_field(status@, vm_peak_label(), vm_peak_sentinel()) is Some,
        r matches Some(v) ==> Some(v@) == spec_mem_field(status@, vm_peak_label(),
            vm_peak_sentinel()),
{
    let lab: [u8; 7] = [86u8, 109u8, 80u8, 101u8, 97u8, 107u8, 58u8];
    let sentinel: [u8; 9] = [102u8, 102u8, 102u8, 102u8, 102u8, 102u8, 102u8, 102u8, 102u8];
    proof {
        assert(lab@ =~= vm_peak_label());
        assert(sentinel@ =~= vm_peak_sentinel());
    }
    status_mem_field(status, lab.as_slice(), sentinel.as_slice())
}

/// The trimmed `VmSize:` value of the block.
pub fn vsize_of(status: &[u8]) -> (r: Option<Vec<u8>>)
    ensures
        r is Some <==> spec_status_field(status@, vm_size_label()) is Some,
        r matches Some(v) ==> Some(v@) == spec_status_field(status@, vm_size_label()),
{
    let lab: [u8; 7] = [86u8, 109u8, 83u8, 105u8, 122u8, 101u8, 58u8];
    proof {
        assert(lab@ =~= vm_size_label());
    }
    status_field(status, lab.as_slice())
}

/// The real uid: first token of the `Uid:` value.
pub fn ruid_of(status: &[u8]) -> (r: Option<Vec<u8>>)
    ensures
        r is Some <==> spec_id_field(status@, uid_label()) is Some,
        r matches Some(v) ==> Some(v@) == spec_id_field(status@, uid_label()),
{
    let lab: [u8; 4] = [85u8, 105u8, 100u8, 58u8];
    proof {
        assert(lab@ =~= uid_label());
    }
    status_id_field(status, lab.as_slice())
}

/// The real gid: first token of the `Gid:` value.
pub fn rgid_of(status: &[u8]) -> (r: Option<Vec<u8>>)
    ensures
        r is Some <==> spec_id_field(status@, gid_label()) is Some,
        r matches Some(v) ==> Some(v@) == spec_id_field(status@, gid_label()),
{
    let lab: [u8; 4] = [71u8, 105u8, 100u8, 58u8];
    proof {
        assert(lab@ =~= gid_label());
    }
    status_id_field(status, lab.as_slice())
}

} // verus!
