//! Byte-level text utilities shared by the parsers: ASCII classification,
//! whitespace token scanning, decimal parsing and decimal rendering.
//!
//! Everything works over `&[u8]` with `Seq<u8>` as the mathematical model;
//! the kernel sources this crate reads are plain ASCII text.

use vstd::prelude::*;

verus! {

/// ASCII whitespace as it occurs in kernel-exposed text: space, tab,
/// line feed, carriage return.
pub open spec fn is_ws(b: u8) -> bool {
    b == 32 || b == 9 || b == 10 || b == 13
}

/// ASCII decimal digit.
pub open spec fn is_digit(b: u8) -> bool {
    48 <= b && b <= 57
}

/// Index of the first non-whitespace byte at or after `i`, or `s.len()`.
pub open spec fn skip_ws(s: Seq<u8>, i: int) -> int
    decreases s.len() - i when 0 <= i <= s.len()
{
    if i >= s.len() {
        i
    } else if is_ws(s[i]) {
        skip_ws(s, i + 1)
    } else {
        i
    }
}

/// Index of the first whitespace byte at or after `i`, or `s.len()`.
pub open spec fn skip_non_ws(s: Seq<u8>, i: int) -> int
    decreases s.len() - i when 0 <= i <= s.len()
{
    if i >= s.len() {
        i
    } else if !is_ws(s[i]) {
        skip_non_ws(s, i + 1)
    } else {
        i
    }
}

pub proof fn lemma_skip_ws_bounds(s: Seq<u8>, i: int)
    requires
        0 <= i <= s.len(),
    ensures
        i <= skip_ws(s, i) <= s.len(),
        skip_ws(s, i) < s.len() ==> !is_ws(s[skip_ws(s, i)]),
    decreases s.len() - i,
{
    if i < s.len() && is_ws(s[i]) {
        lemma_skip_ws_bounds(s, i + 1);
    }
}

pub proof fn lemma_skip_non_ws_bounds(s: Seq<u8>, i: int)
    requires
        0 <= i <= s.len(),
    ensures
        i <= skip_non_ws(s, i) <= s.len(),
    decreases s.len() - i,
{
    if i < s.len() && !is_ws(s[i]) {
        lemma_skip_non_ws_bounds(s, i + 1);
    }
}

/// Start index of the `n`-th whitespace-separated token at or after `i`,
/// or `s.len()` when fewer than `n + 1` tokens remain.
pub open spec fn token_start(s: Seq<u8>, i: int, n: nat) -> int
    decreases n when 0 <= i <= s.len()
{
    if n == 0 {
        skip_ws(s, i)
    } else {
        proof {
            lemma_skip_ws_bounds(s, i);
            lemma_skip_non_ws_bounds(s, skip_ws(s, i));
        }
        token_start(s, skip_non_ws(s, skip_ws(s, i)), (n - 1) as nat)
    }
}

pub proof fn lemma_token_start_bounds(s: Seq<u8>, i: int, n: nat)
    requires
        0 <= i <= s.len(),
    ensures
        i <= token_start(s, i, n) <= s.len(),
    decreases n,
{
    lemma_skip_ws_bounds(s, i);
    if n > 0 {
        lemma_skip_non_ws_bounds(s, skip_ws(s, i));
        lemma_token_start_bounds(s, skip_non_ws(s, skip_ws(s, i)), (n - 1) as nat);
    }
}

pub proof fn lemma_token_start_at_end(s: Seq<u8>, n: nat)
    ensures
        token_start(s, s.len() as int, n) == s.len(),
    decreases n,
{
    if n > 0 {
        lemma_token_start_at_end(s, (n - 1) as nat);
    }
}

/// The `n`-th (zero-based) whitespace-separated token of `s`, if present.
pub open spec fn spec_nth_token(s: Seq<u8>, n: nat) -> Option<Seq<u8>> {
    let st = token_start(s, 0, n);
    if st < s.len() {
        Some(s.subrange(st, skip_non_ws(s, st)))
    } else {
        None
    }
}

/// All whitespace-separated tokens of `s[i..]`, in order.
pub open spec fn tokens_from(s: Seq<u8>, i: int) -> Seq<Seq<u8>>
    decreases s.len() - i when 0 <= i <= s.len()
{
    let a = skip_ws(s, i);
    if a >= s.len() {
        seq![]
    } else {
        proof {
            lemma_skip_ws_bounds(s, i);
            lemma_skip_non_ws_bounds(s, a + 1);
        }
        seq![s.subrange(a, skip_non_ws(s, a))] + tokens_from(s, skip_non_ws(s, a))
    }
}

/// All whitespace-separated tokens of `s`, in order.
pub open spec fn tokens(s: Seq<u8>) -> Seq<Seq<u8>> {
    tokens_from(s, 0)
}

proof fn lemma_token_start_indexes(s: Seq<u8>, i: int, n: nat)
    requires
        0 <= i <= s.len(),
    ensures
        n < tokens_from(s, i).len() ==> token_start(s, i, n) < s.len()
            && tokens_from(s, i)[n as int] == s.subrange(token_start(s, i, n),
            skip_non_ws(s, token_start(s, i, n))),
        n >= tokens_from(s, i).len() ==> token_start(s, i, n) == s.len(),
    decreases n,
{
    let a = skip_ws(s, i);
    lemma_skip_ws_bounds(s, i);
    if a >= s.len() {
        lemma_skip_non_ws_bounds(s, a);
        if n > 0 {
            lemma_token_start_at_end(s, (n - 1) as nat);
        }
    } else {
        let e = skip_non_ws(s, a);
        lemma_skip_non_ws_bounds(s, a + 1);
        if n > 0 {
            lemma_token_start_indexes(s, e, (n - 1) as nat);
        }
    }
}

/// The positional token accessor agrees with the full token list: the
/// `n`-th token exists exactly when `s` has more than `n` tokens, and is
/// then the `n`-th element of [`tokens`].
pub proof fn lemma_nth_token_agrees(s: Seq<u8>, n: nat)
    ensures
        n < tokens(s).len() ==> spec_nth_token(s, n) == Some(tokens(s)[n as int]),
        n >= tokens(s).len() ==> spec_nth_token(s, n) is None,
{
    lemma_token_start_indexes(s, 0, n);
    lemma_token_start_bounds(s, 0, n);
}

/// Exec mirror of [`is_ws`].
pub fn is_ws_byte(b: u8) -> (r: bool)
    ensures
        r == is_ws(b),
{
    b == 32 || b == 9 || b == 10 || b == 13
}

/// First non-whitespace position at or after `from`.
pub fn skip_ws_at(s: &[u8], from: usize) -> (r: usize)
    requires
        from <= s@.len(),
    ensures
        r == skip_ws(s@, from as int),
        from <= r <= s@.len(),
        r < s@.len() ==> !is_ws(s@[r as int]),
{
    let mut i: usize = from;
    while i < s.len() && is_ws_byte(s[i])
        invariant
            from <= i <= s@.len(),
            skip_ws(s@, from as int) == skip_ws(s@, i as int),
        decreases s@.len() - i,
    {
        i = i + 1;
    }
    i
}

/// First whitespace position at or after `from`.
pub fn skip_non_ws_at(s: &[u8], from: usize) -> (r: usize)
    requires
        from <= s@.len(),
    ensures
        r == skip_non_ws(s@, from as int),
        from <= r <= s@.len(),
{
    let mut i: usize = from;
    while i < s.len() && !is_ws_byte(s[i])
        invariant
            from <= i <= s@.len(),
            skip_non_ws(s@, from as int) == skip_non_ws(s@, i as int),
        decreases s@.len() - i,
    {
        i = i + 1;
    }
    i
}

/// Copy `s[from..to]` into a fresh vector.
pub fn copy_range(s: &[u8], from: usize, to: usize) -> (r: Vec<u8>)
    requires
        from <= to <= s@.len(),
    ensures
        r@ == s@.subrange(from as int, to as int),
{
    let mut out: Vec<u8> = Vec::new();
    let mut i: usize = from;
    while i < to
        invariant
            from <= i <= to <= s@.len(),
            out@ == s@.subrange(from as int, i as int),
        decreases to - i,
    {
        out.push(s[i]);
        proof {
            assert(s@.subrange(from as int, i + 1) =~= s@.subrange(from as int, i as int)
                + seq![s@[i as int]]);
        }
        i = i + 1;
    }
    out
}

/// The `n`-th whitespace-separated token of `s`, copied out, per
/// [`spec_nth_token`].
pub fn nth_token(s: &[u8], n: usize) -> (r: Option<Vec<u8>>)
    ensures
        r is Some <==> spec_nth_token(s@, n as nat) is Some,
        r matches Some(v) ==> Some(v@) == spec_nth_token(s@, n as nat),
{
    let mut i: usize = 0;
    let mut k: usize = 0;
    while k < n
        invariant
            i <= s@.len(),
            k <= n,
            token_start(s@, 0, n as nat) == token_start(s@, i as int, (n - k) as nat),
        decreases n - k,
    {
        let a = skip_ws_at(s, i);
        if a == s.len() {
            proof {
                lemma_skip_non_ws_bounds(s@, a as int);
                lemma_token_start_at_end(s@, (n - k - 1) as nat);
                lemma_token_start_bounds(s@, 0, n as nat);
            }
            return None;
        }
        let e = skip_non_ws_at(s, a);
        i = e;
        k = k + 1;
    }
    let st = skip_ws_at(s, i);
    proof {
        assert(token_start(s@, i as int, 0) == skip_ws(s@, i as int));
    }
    if st == s.len() {
        return None;
    }
    let e = skip_non_ws_at(s, st);
    Some(copy_range(s, st, e))
}

/// Numeric value of a run of decimal digit bytes, most significant first.
pub open spec fn dec_val(s: Seq<u8>) -> int
    decreases s.len(),
{
    if s.len() == 0 {
        0
    } else {
        dec_val(s.drop_last()) * 10 + (s.last() - 48)
    }
}

/// Every byte of `s` is a decimal digit.
pub open spec fn all_digits(s: Seq<u8>) -> bool {
    forall|i: int| 0 <= i < s.len() ==> is_digit(#[trigger] s[i])
}

/// `s` is a decimal numeral whose value fits in a `u64`.
pub open spec fn parses_u64(s: Seq<u8>) -> bool {
    s.len() > 0 && all_digits(s) && dec_val(s) <= u64::MAX
}

pub proof fn lemma_dec_val_nonneg(s: Seq<u8>)
    requires
        all_digits(s),
    ensures
        0 <= dec_val(s),
    decreases s.len(),
{
    if s.len() > 0 {
        assert(all_digits(s.drop_last())) by {
            assert(forall|i: int| 0 <= i < s.len() - 1 ==> s.drop_last()[i] == s[i]);
        }
        lemma_dec_val_nonneg(s.drop_last());
    }
}

/// A digit string's value only grows as more digits are appended: the value
/// of the prefix `s[0..j]` never exceeds the value of all of `s`.
pub proof fn lemma_dec_val_prefix(s: Seq<u8>, j: int)
    requires
        all_digits(s),
        0 <= j <= s.len(),
    ensures
        dec_val(s.subrange(0, j)) <= dec_val(s),
    decreases s.len() - j,
{
    if j == s.len() {
        assert(s.subrange(0, j) =~= s);
    } else {
        assert(s.subrange(0, j + 1).drop_last() =~= s.subrange(0, j));
        assert(s.subrange(0, j + 1).last() == s[j]);
        assert(all_digits(s.subrange(0, j))) by {
            assert(forall|k: int| 0 <= k < j ==> s.subrange(0, j)[k] == s[k]);
        }
        lemma_dec_val_nonneg(s.subrange(0, j));
        assert(dec_val(s.subrange(0, j)) <= dec_val(s.subrange(0, j + 1)));
        lemma_dec_val_prefix(s, j + 1);
    }
}

/// Parse a decimal numeral. `None` when `s` is empty, holds a non-digit
/// byte, or names a value above `u64::MAX`.
pub fn parse_u64(s: &[u8]) -> (r: Option<u64>)
    ensures
        r is Some <==> parses_u64(s@),
        r matches Some(v) ==> v == dec_val(s@),
{
    let mut acc: u64 = 0;
    let mut i: usize = 0;
    while i < s.len()
        invariant
            i <= s@.len(),
            all_digits(s@.subrange(0, i as int)),
            acc == dec_val(s@.subrange(0, i as int)),
        decreases s@.len() - i,
    {
        let b = s[i];
        if b < 48 || 57 < b {
            proof {
                assert(!is_digit(s@[i as int]));
            }
            return None;
        }
        let d: u64 = (b - 48) as u64;
        let wide: u128 = acc as u128 * 10 + d as u128;
        proof {
            assert(s@.subrange(0, i + 1).drop_last() =~= s@.subrange(0, i as int));
            assert(s@.subrange(0, i + 1).last() == s@[i as int]);
            assert(all_digits(s@.subrange(0, i + 1))) by {
                assert(forall|k: int| 0 <= k < i ==> s@.subrange(0, i + 1)[k]
                    == s@.subrange(0, i as int)[k]);
            }
            assert(wide == dec_val(s@.subrange(0, i + 1)));
        }
        if wide > u64::MAX as u128 {
            proof {
                if all_digits(s@) {
                    lemma_dec_val_prefix(s@, i + 1);
                }
            }
            return None;
        }
        acc = wide as u64;
        i = i + 1;
    }
    proof {
        assert(s@.subrange(0, s@.len() as int) =~= s@);
    }
    if s.len() == 0 {
        None
    } else {
        Some(acc)
    }
}

/// Whether every byte of `s` is a decimal digit.
pub fn check_all_digits(s: &[u8]) -> (r: bool)
    ensures
        r == all_digits(s@),
{
    let mut i: usize = 0;
    while i < s.len()
        invariant
            i <= s@.len(),
            forall|k: int| 0 <= k < i ==> is_digit(#[trigger] s@[k]),
        decreases s@.len() - i,
    {
        let b = s[i];
        if b < 48 || 57 < b {
            proof {
                assert(!is_digit(s@[i as int]));
            }
            return false;
        }
        i = i + 1;
    }
    true
}

/// Ten to the power `n` (for small non-negative `n`).
pub open spec fn pow10(n: int) -> int
    decreases n when n >= 0
{
    if n <= 0 {
        1
    } else {
        10 * pow10(n - 1)
    }
}

pub proof fn lemma_pow10_small()
    ensures
        pow10(0) == 1,
        pow10(1) == 10,
        pow10(2) == 100,
        pow10(3) == 1000,
        pow10(4) == 10000,
{
    assert(pow10(0) == 1);
    assert(pow10(1) == 10);
    assert(pow10(2) == 100);
    assert(pow10(3) == 1000);
    assert(pow10(4) == 10000);
}

/// Value of an optional numeric token, defaulted to zero when the token is
/// missing, non-numeric, or too large.
pub open spec fn numeric_or_zero(t: Option<Seq<u8>>) -> int {
    match t {
        Option::None => 0,
        Option::Some(s) => if parses_u64(s) {
            dec_val(s)
        } else {
            0
        },
    }
}

/// Exec mirror of [`numeric_or_zero`] on a present token.
pub fn parse_u64_or_zero(s: &[u8]) -> (r: u64)
    ensures
        r == numeric_or_zero(Some(s@)),
{
    match parse_u64(s) {
        Some(v) => v,
        None => 0,
    }
}

/// `pre` is a prefix of `s`.
pub open spec fn starts_with(s: Seq<u8>, pre: Seq<u8>) -> bool {
    pre.len() <= s.len() && s.subrange(0, pre.len() as int) == pre
}

/// Whether `s[from..to]` starts with `pre`.
pub fn range_starts_with(s: &[u8], from: usize, to: usize, pre: &[u8]) -> (r: bool)
    requires
        from <= to <= s@.len(),
    ensures
        r == starts_with(s@.subrange(from as int, to as int), pre@),
{
    if to - from < pre.len() {
        return false;
    }
    let mut j: usize = 0;
    while j < pre.len()
        invariant
            j <= pre@.len(),
            pre@.len() <= to - from,
            from <= to <= s@.len(),
            forall|k: int| 0 <= k < j ==> s@[from + k] == pre@[k],
        decreases pre@.len() - j,
    {
        if s[from + j] != pre[j] {
            proof {
                let whole = s@.subrange(from as int, to as int);
                assert(whole[j as int] == s@[from + j]);
                if starts_with(whole, pre@) {
                    assert(whole.subrange(0, pre@.len() as int)[j as int] == whole[j as int]);
                }
            }
            return false;
        }
        j = j + 1;
    }
    proof {
        let whole = s@.subrange(from as int, to as int);
        assert(whole.subrange(0, pre@.len() as int) =~= pre@) by {
            assert(forall|k: int| 0 <= k < pre@.len()
                ==> whole.subrange(0, pre@.len() as int)[k] == s@[from + k]);
        }
    }
    true
}

/// Whole-slice equality of byte strings.
pub fn bytes_eq(a: &[u8], b: &[u8]) -> (r: bool)
    ensures
        r == (a@ == b@),
{
    if a.len() != b.len() {
        return false;
    }
    let mut i: usize = 0;
    while i < a.len()
        invariant
            i <= a@.len(),
            a@.len() == b@.len(),
            forall|k: int| 0 <= k < i ==> a@[k] == b@[k],
        decreases a@.len() - i,
    {
        if a[i] != b[i] {
            return false;
        }
        i = i + 1;
    }
    proof {
        assert(a@ =~= b@);
    }
    true
}

/// Boundary after the last non-whitespace byte strictly before `j`: the
/// least `b` such that `s[b..j]` is all whitespace.
pub open spec fn rev_skip_ws(s: Seq<u8>, j: int) -> int
    decreases j when 0 <= j <= s.len()
{
    if j <= 0 {
        0
    } else if is_ws(s[j - 1]) {
        rev_skip_ws(s, j - 1)
    } else {
        j
    }
}

/// `s` with leading and trailing ASCII whitespace removed.
pub open spec fn spec_trim(s: Seq<u8>) -> Seq<u8> {
    let a = skip_ws(s, 0);
    let b = rev_skip_ws(s, s.len() as int);
    if b <= a {
        Seq::empty()
    } else {
        s.subrange(a, b)
    }
}

/// Trim leading and trailing whitespace, per [`spec_trim`].
pub fn trim_bytes(s: &[u8]) -> (r: Vec<u8>)
    ensures
        r@ == spec_trim(s@),
{
    let a = skip_ws_at(s, 0);
    let mut b: usize = s.len();
    while b > 0 && is_ws_byte(s[b - 1])
        invariant
            b <= s@.len(),
            rev_skip_ws(s@, s@.len() as int) == rev_skip_ws(s@, b as int),
        decreases b,
    {
        b = b - 1;
    }
    if b <= a {
        Vec::new()
    } else {
        copy_range(s, a, b)
    }
}

/// Decimal digit bytes of `n`, most significant first; a single `'0'` for
/// zero, no leading zeros otherwise.
pub open spec fn dec_digits(n: int) -> Seq<u8>
    decreases n when n >= 0
{
    if n < 10 {
        seq![(48 + n) as u8]
    } else {
        dec_digits(n / 10) + seq![(48 + n % 10) as u8]
    }
}

/// Append the decimal digits of `n` to `out`.
pub fn push_dec_digits(n: u64, out: &mut Vec<u8>)
    ensures
        final(out)@ == old(out)@ + dec_digits(n as int),
    decreases n,
{
    if n < 10 {
        out.push((n as u8) + 48);
    } else {
        push_dec_digits(n / 10, out);
        out.push(((n % 10) as u8) + 48);
    }
}

/// Exactly two decimal digits for `0 <= n < 100`, zero-padded.
pub open spec fn two_dec_digits(n: int) -> Seq<u8> {
    seq![(48 + n / 10) as u8, (48 + n % 10) as u8]
}

/// Append the two zero-padded decimal digits of `n < 100` to `out`.
pub fn push_two_dec_digits(n: u64, out: &mut Vec<u8>)
    requires
        n < 100,
    ensures
        final(out)@ == old(out)@ + two_dec_digits(n as int),
{
    out.push(((n / 10) as u8) + 48);
    out.push(((n % 10) as u8) + 48);
}

} // verus!
