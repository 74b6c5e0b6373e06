//! Byte-level text utilities: prefix and substring tests, ASCII trimming
//! and lower-casing, and decimal parsing.  All of them are verified against
//! spec functions over `Seq<u8>`; the robots.txt parser and the URL
//! canonicalizer build on them.

use vstd::prelude::*;

verus! {

/// True when `pre` is a prefix of `s`.
pub open spec fn is_prefix_of(pre: Seq<u8>, s: Seq<u8>) -> bool {
    pre.len() <= s.len() && s.subrange(0, pre.len() as int) == pre
}

/// True when `needle` occurs contiguously inside `hay` (an empty needle
/// always occurs, as with `str::contains`).
pub open spec fn is_substring_of(needle: Seq<u8>, hay: Seq<u8>) -> bool {
    exists|i: int|
        0 <= i <= hay.len() - needle.len() && #[trigger] hay.subrange(i, i + needle.len() as int)
            == needle
}

/// Byte-for-byte equality of two slices.
pub fn bytes_eq(a: &[u8], b: &[u8]) -> (r: bool)
    ensures
        r == (a@ == b@),
{
    if a.len() != b.len() {
        return false;
    }
    let n = a.len();
    let mut i: usize = 0;
    while i < n
        invariant
            n == a@.len() == b@.len(),
            0 <= i <= n,
            forall|j: int| 0 <= j < i ==> a@[j] == b@[j],
        decreases n - i,
    {
        if a[i] != b[i] {
            return false;
        }
        i = i + 1;
    }
    proof {
        assert(a@ =~= b@);
    }
    true
}

/// Prefix test on byte slices.
pub fn bytes_starts_with(s: &[u8], pre: &[u8]) -> (r: bool)
    ensures
        r == is_prefix_of(pre@, s@),
{
    if pre.len() > s.len() {
        return false;
    }
    let n = pre.len();
    let mut i: usize = 0;
    while i < n
        invariant
            n == pre@.len() <= s@.len(),
            0 <= i <= n,
            forall|j: int| 0 <= j < i ==> s@[j] == pre@[j],
        decreases n - i,
    {
        if s[i] != pre[i] {
            assert(s@.subrange(0, n as int)[i as int] != pre@[i as int]);
            return false;
        }
        i = i + 1;
    }
    proof {
        assert(s@.subrange(0, n as int) =~= pre@);
    }
    true
}

/// Substring search (naive scan).
pub fn bytes_contains(hay: &[u8], needle: &[u8]) -> (r: bool)
    ensures
        r == is_substring_of(needle@, hay@),
{
    if needle.len() > hay.len() {
        return false;
    }
    if needle.len() == 0 {
        proof {
            assert(hay@.subrange(0, 0 + needle@.len() as int) =~= needle@);
        }
        return true;
    }
    let n = needle.len();
    let last = hay.len() - n;
    let mut i: usize = 0;
    while i <= last
        invariant
            1 <= n == needle@.len(),
            last == hay@.len() - n,
            hay@.len() <= usize::MAX,
            0 <= i <= last + 1,
            forall|k: int| 0 <= k < i ==> #[trigger] hay@.subrange(k, k + n as int) != needle@,
        decreases last - i + 1,
    {
        let mut j: usize = 0;
        let mut mismatch = false;
        while j < n && !mismatch
            invariant
                n == needle@.len(),
                i + n <= hay@.len() <= usize::MAX,
                0 <= j <= n,
                !mismatch ==> forall|t: int| 0 <= t < j ==> hay@[i + t] == needle@[t],
                mismatch ==> hay@.subrange(i as int, i + n as int) != needle@,
            decreases n - j + (if mismatch { 0int } else { 1int }),
        {
            if hay[i + j] != needle[j] {
                assert(hay@.subrange(i as int, i + n as int)[j as int] != needle@[j as int]);
                mismatch = true;
            } else {
                j = j + 1;
            }
        }
        if !mismatch {
            proof {
                assert(hay@.subrange(i as int, i + n as int) =~= needle@);
            }
            return true;
        }
        i = i + 1;
    }
    false
}

/// ASCII whitespace, as `u8::is_ascii_whitespace` defines it.
pub open spec fn is_ws(b: u8) -> bool {
    b == 32 || b == 9 || b == 10 || b == 12 || b == 13
}

/// `s` with leading ASCII whitespace removed.
pub open spec fn trim_front(s: Seq<u8>) -> Seq<u8>
    decreases s.len(),
{
    if s.len() > 0 && is_ws(s[0]) {
        trim_front(s.drop_first())
    } else {
        s
    }
}

/// `s` with trailing ASCII whitespace removed.
pub open spec fn trim_back(s: Seq<u8>) -> Seq<u8>
    decreases s.len(),
{
    if s.len() > 0 && is_ws(s.last()) {
        trim_back(s.drop_last())
    } else {
        s
    }
}

/// `s` with ASCII whitespace removed from both ends.
pub open spec fn spec_trim(s: Seq<u8>) -> Seq<u8> {
    trim_back(trim_front(s))
}

/// Exec counterpart of `is_ws`.
pub fn byte_is_ws(b: u8) -> (r: bool)
    ensures
        r == is_ws(b),
{
    b == 32 || b == 9 || b == 10 || b == 12 || b == 13
}

/// Copy of `s[lo..hi]` as a fresh vector.
pub fn bytes_slice_to_vec(s: &[u8], lo: usize, hi: usize) -> (r: Vec<u8>)
    requires
        lo <= hi <= s@.len(),
    ensures
        r@ == s@.subrange(lo as int, hi as int),
{
    let mut r: Vec<u8> = Vec::new();
    let mut i: usize = lo;
    while i < hi
        invariant
            lo <= i <= hi <= s@.len(),
            r@ == s@.subrange(lo as int, i as int),
        decreases hi - i,
    {
        r.push(s[i]);
        proof {
            assert(r@ =~= s@.subrange(lo as int, i + 1));
        }
        i = i + 1;
    }
    r
}

/// Trim ASCII whitespace from both ends of `s`.
pub fn trim_bytes(s: &[u8]) -> (r: Vec<u8>)
    ensures
        r@ == spec_trim(s@),
{
    let n = s.len();
    proof {
        assert(s@.skip(0) =~= s@);
    }
    let mut lo: usize = 0;
    while lo < n && byte_is_ws(s[lo])
        invariant
            0 <= lo <= n == s@.len(),
            trim_front(s@) == trim_front(s@.skip(lo as int)),
        decreases n - lo,
    {
        proof {
            assert(s@.skip(lo as int)[0] == s@[lo as int]);
            assert(s@.skip(lo as int).drop_first() =~= s@.skip(lo + 1));
        }
        lo = lo + 1;
    }
    proof {
        if lo == n {
            assert(s@.skip(lo as int) =~= Seq::<u8>::empty());
        }
        assert(trim_front(s@) == s@.skip(lo as int));
    }
    let mut hi: usize = n;
    while hi > lo && byte_is_ws(s[hi - 1])
        invariant
            0 <= lo <= hi <= n == s@.len(),
            trim_front(s@) == s@.skip(lo as int),
            trim_back(s@.skip(lo as int)) == trim_back(s@.subrange(lo as int, hi as int)),
        decreases hi,
    {
        proof {
            assert(s@.subrange(lo as int, hi as int).last() == s@[hi - 1]);
            assert(s@.subrange(lo as int, hi as int).drop_last() =~= s@.subrange(
                lo as int,
                hi - 1,
            ));
        }
        hi = hi - 1;
    }
    proof {
        if hi == lo {
            assert(s@.subrange(lo as int, hi as int) =~= Seq::<u8>::empty());
        }
        assert(trim_back(s@.subrange(lo as int, hi as int)) == s@.subrange(lo as int, hi as int));
    }
    bytes_slice_to_vec(s, lo, hi)
}

/// Lower-cased ASCII byte; other bytes unchanged.
pub open spec fn lower_byte(b: u8) -> u8 {
    if 65 <= b <= 90 {
        (b + 32) as u8
    } else {
        b
    }
}

/// ASCII lower-casing of a whole slice.
pub fn ascii_lower_bytes(s: &[u8]) -> (r: Vec<u8>)
    ensures
        r@ == s@.map_values(|b: u8| lower_byte(b)),
{
    let n = s.len();
    let mut r: Vec<u8> = Vec::new();
    let mut i: usize = 0;
    while i < n
        invariant
            0 <= i <= n == s@.len(),
            r@ == s@.subrange(0, i as int).map_values(|b: u8| lower_byte(b)),
        decreases n - i,
    {
        let b = s[i];
        if 65 <= b && b <= 90 {
            r.push(b + 32);
        } else {
            r.push(b);
        }
        proof {
            assert(r@ =~= s@.subrange(0, i + 1).map_values(|b: u8| lower_byte(b)));
        }
        i = i + 1;
    }
    proof {
        assert(s@.subrange(0, n as int) =~= s@);
    }
    r
}

/// Index of the first occurrence of `b` in `s`, if any.
pub open spec fn spec_find(s: Seq<u8>, b: u8) -> Option<nat>
    decreases s.len(),
{
    if s.len() == 0 {
        None
    } else if s[0] == b {
        Some(0nat)
    } else {
        match spec_find(s.drop_first(), b) {
            Some(i) => Some((i + 1) as nat),
            None => None,
        }
    }
}

/// `spec_find` returns exactly the first index holding `b`.
pub proof fn lemma_spec_find(s: Seq<u8>, b: u8)
    ensures
        match spec_find(s, b) {
            Some(i) => i < s.len() && s[i as int] == b && forall|j: int|
                0 <= j < i ==> s[j] != b,
            None => forall|j: int| 0 <= j < s.len() ==> s[j] != b,
        },
    decreases s.len(),
{
    if s.len() > 0 && s[0] != b {
        lemma_spec_find(s.drop_first(), b);
        match spec_find(s.drop_first(), b) {
            Some(i) => {
                assert(s[i + 1int] == s.drop_first()[i as int]);
                assert forall|j: int| 0 <= j < i + 1 implies s[j] != b by {
                    if j > 0 {
                        assert(s[j] == s.drop_first()[j - 1]);
                    }
                }
            },
            None => {
                assert forall|j: int| 0 <= j < s.len() implies s[j] != b by {
                    if j > 0 {
                        assert(s[j] == s.drop_first()[j - 1]);
                    }
                }
            },
        }
    }
}

/// First occurrence of `b` in `s`, by linear scan.
pub fn find_byte(s: &[u8], b: u8) -> (r: Option<usize>)
    ensures
        match r {
            Some(i) => Some(i as nat) == spec_find(s@, b),
            None => spec_find(s@, b) is None,
        },
{
    proof {
        lemma_spec_find(s@, b);
    }
    let n = s.len();
    let mut i: usize = 0;
    while i < n
        invariant
            0 <= i <= n == s@.len(),
            forall|j: int| 0 <= j < i ==> s@[j] != b,
        decreases n - i,
    {
        if s[i] == b {
            proof {
                lemma_spec_find_converse(s@, b, i as nat);
            }
            return Some(i);
        }
        i = i + 1;
    }
    None
}

/// If `i` is the first index holding `b`, then `spec_find` returns it.
pub proof fn lemma_spec_find_converse(s: Seq<u8>, b: u8, i: nat)
    requires
        i < s.len(),
        s[i as int] == b,
        forall|j: int| 0 <= j < i ==> s[j] != b,
    ensures
        spec_find(s, b) == Some(i),
    decreases s.len(),
{
    if i > 0 {
        assert forall|j: int| 0 <= j < i - 1 implies s.drop_first()[j] != b by {
            assert(s.drop_first()[j] == s[j + 1]);
        }
        assert(s.drop_first()[i - 1] == s[i as int]);
        lemma_spec_find_converse(s.drop_first(), b, (i - 1) as nat);
    }
}

/// `s` split at every newline byte; the separators are dropped and empty
/// pieces are kept, so the pieces always number one more than the newlines.
pub open spec fn spec_split_nl(s: Seq<u8>) -> Seq<Seq<u8>>
    decreases s.len(),
    when s.len() >= 0
    via spec_split_nl_decreases
{
    match spec_find(s, 10) {
        None => seq![s],
        Some(i) => seq![s.subrange(0, i as int)] + spec_split_nl(
            s.subrange(i + 1int, s.len() as int),
        ),
    }
}

#[via_fn]
proof fn spec_split_nl_decreases(s: Seq<u8>) {
    lemma_spec_find(s, 10);
}

/// Split a byte slice at newline bytes.
pub fn split_lines(s: &[u8]) -> (r: Vec<Vec<u8>>)
    ensures
        r.deep_view() == spec_split_nl(s@),
{
    let n = s.len();
    let mut r: Vec<Vec<u8>> = Vec::new();
    let ghost mut acc: Seq<Seq<u8>> = Seq::empty();
    let mut pos: usize = 0;
    proof {
        assert(s@.subrange(0, n as int) =~= s@);
        assert(r.deep_view() =~~= acc);
    }
    loop
        invariant
            0 <= pos <= n == s@.len(),
            r.deep_view() == acc,
            spec_split_nl(s@) == acc + spec_split_nl(s@.subrange(pos as int, n as int)),
        decreases n - pos,
    {
        let ghost rest = s@.subrange(pos as int, n as int);
        // scan for the next newline from pos
        let mut i: usize = pos;
        let mut found = false;
        while i < n && !found
            invariant
                pos <= i <= n == s@.len(),
                forall|j: int| pos <= j < i ==> s@[j] != 10,
                found ==> i < n && s@[i as int] == 10,
            decreases n - i + (if found { 0int } else { 1int }),
        {
            if s[i] == 10 {
                found = true;
            } else {
                i = i + 1;
            }
        }
        if found {
            proof {
                assert forall|j: int| 0 <= j < i - pos implies rest[j] != 10 by {
                    assert(rest[j] == s@[pos + j]);
                }
                assert(rest[i - pos] == s@[i as int]);
                lemma_spec_find_converse(rest, 10, (i - pos) as nat);
                assert(rest.subrange(0, i - pos) =~= s@.subrange(pos as int, i as int));
                assert(rest.subrange(i - pos + 1, rest.len() as int) =~= s@.subrange(
                    i + 1,
                    n as int,
                ));
            }
            let piece = bytes_slice_to_vec(s, pos, i);
            r.push(piece);
            proof {
                acc = acc.push(s@.subrange(pos as int, i as int));
                assert(r.deep_view() =~~= acc);
                assert(spec_split_nl(rest) == seq![s@.subrange(pos as int, i as int)]
                    + spec_split_nl(s@.subrange(i + 1, n as int)));
                assert(spec_split_nl(s@) =~~= acc + spec_split_nl(s@.subrange(i + 1, n as int)));
            }
            pos = i + 1;
        } else {
            proof {
                assert forall|j: int| 0 <= j < rest.len() implies rest[j] != 10 by {
                    assert(rest[j] == s@[pos + j]);
                }
                lemma_spec_find(rest, 10);
                assert(spec_find(rest, 10) is None);
            }
            let piece = bytes_slice_to_vec(s, pos, n);
            r.push(piece);
            proof {
                acc = acc.push(rest);
                assert(r.deep_view() =~~= acc);
                assert(spec_split_nl(rest) == seq![rest]);
                assert(spec_split_nl(s@) =~~= acc);
            }
            return r;
        }
    }
}

/// All bytes are ASCII decimal digits.
pub open spec fn all_digits(s: Seq<u8>) -> bool {
    forall|i: int| 0 <= i < s.len() ==> 48 <= #[trigger] s[i] <= 57
}

/// Exec test for `all_digits`.
pub fn check_all_digits(s: &[u8]) -> (r: bool)
    ensures
        r == all_digits(s@),
{
    let n = s.len();
    let mut i: usize = 0;
    while i < n
        invariant
            0 <= i <= n == s@.len(),
            forall|j: int| 0 <= j < i ==> 48 <= #[trigger] s@[j] <= 57,
        decreases n - i,
    {
        let b = s[i];
        if b < 48 || b > 57 {
            return false;
        }
        i = i + 1;
    }
    true
}

/// Value of a sequence of decimal digit bytes (most significant first).
pub open spec fn spec_digits_val(s: Seq<u8>) -> nat
    decreases s.len(),
{
    if s.len() == 0 {
        0
    } else {
        (spec_digits_val(s.drop_last()) * 10 + (s.last() - 48)) as nat
    }
}

/// The value of a digit string never falls below the value of any prefix.
pub proof fn lemma_digits_prefix(s: Seq<u8>, i: int)
    requires
        all_digits(s),
        0 <= i <= s.len(),
    ensures
        spec_digits_val(s.take(i)) <= spec_digits_val(s),
    decreases s.len() - i,
{
    if i < s.len() {
        assert(s.take(i + 1).drop_last() =~= s.take(i));
        assert(s.take(i + 1).last() == s[i]);
        assert(48 <= s[i] <= 57);
        assert(spec_digits_val(s.take(i)) <= spec_digits_val(s.take(i + 1)));
        lemma_digits_prefix(s, i + 1);
    } else {
        assert(s.take(i) =~= s);
    }
}

/// Parse a run of decimal digits into an integer no greater than `cap`.
pub fn parse_digits_bounded(s: &[u8], cap: u64) -> (r: Option<u64>)
    ensures
        match r {
            Some(v) => s@.len() > 0 && all_digits(s@) && v == spec_digits_val(s@) && v <= cap,
            None => s@.len() == 0 || !all_digits(s@) || spec_digits_val(s@) > cap,
        },
{
    let n = s.len();
    if n == 0 {
        return None;
    }
    let mut val: u128 = 0;
    let mut i: usize = 0;
    proof {
        assert(s@.take(0) =~= Seq::<u8>::empty());
    }
    while i < n
        invariant
            0 <= i <= n == s@.len(),
            forall|j: int| 0 <= j < i ==> 48 <= #[trigger] s@[j] <= 57,
            val == spec_digits_val(s@.take(i as int)),
            val <= cap,
        decreases n - i,
    {
        let b = s[i];
        if b < 48 || b > 57 {
            return None;
        }
        let d = (b - 48) as u128;
        let nv = val * 10 + d;
        proof {
            assert(s@.take(i + 1).drop_last() =~= s@.take(i as int));
            assert(s@.take(i + 1).last() == s@[i as int]);
        }
        if nv > cap as u128 {
            proof {
                if all_digits(s@) {
                    lemma_digits_prefix(s@, i + 1);
                }
            }
            return None;
        }
        val = nv;
        i = i + 1;
    }
    proof {
        assert(s@.take(n as int) =~= s@);
    }
    Some(val as u64)
}

} // verus!
