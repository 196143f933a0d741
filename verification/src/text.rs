//! Byte-string helpers shared by the codec and the router.
//!
//! HTTP text is handled as raw bytes. The models below are `Seq<u8>`;
//! the named constants are the ASCII codes that the grammar depends on.

use vstd::prelude::*;
use vstd::slice::*;

verus! {

/// Carriage return.
pub const CR: u8 = 13;

/// Line feed, the line terminator.
pub const LF: u8 = 10;

/// Space.
pub const SP: u8 = 32;

/// Colon.
pub const COLON: u8 = 58;

/// Slash, the path separator.
pub const SLASH: u8 = 47;

/// Plus sign, accepted in front of a number.
pub const PLUS: u8 = 43;

/// The digit zero.
pub const ZERO: u8 = 48;

/// The digit nine.
pub const NINE: u8 = 57;

/// Whether `b` is an ASCII decimal digit.
pub open spec fn is_digit(b: u8) -> bool {
    48 <= b <= 57
}

/// Whether every byte of `s` is a decimal digit.
pub open spec fn all_digits(s: Seq<u8>) -> bool {
    forall|i: int| 0 <= i < s.len() ==> is_digit(#[trigger] s[i])
}

/// The decimal representation of `n`, without sign or leading zeros.
pub open spec fn decimal(n: nat) -> Seq<u8>
    decreases n,
{
    if n < 10 {
        seq![(48 + n) as u8]
    } else {
        decimal(n / 10).push((48 + n % 10) as u8)
    }
}

/// The number that a string of decimal digits denotes; leading zeros are
/// allowed and the empty string denotes zero.
pub open spec fn digits_value(s: Seq<u8>) -> nat
    decreases s.len(),
{
    if s.len() == 0 {
        0
    } else {
        digits_value(s.drop_last()) * 10 + (s.last() - 48) as nat
    }
}

/// The digits of a number literal: the text itself, or what follows a single
/// leading plus sign.
pub open spec fn unsigned_digits(s: Seq<u8>) -> Seq<u8> {
    if s.len() > 0 && s[0] == PLUS {
        s.drop_first()
    } else {
        s
    }
}

/// The non-negative integer that `s` spells: one or more decimal digits,
/// optionally preceded by a single plus sign. Anything else spells nothing.
pub open spec fn parse_decimal(s: Seq<u8>) -> Option<nat> {
    let digits = unsigned_digits(s);
    if digits.len() > 0 && all_digits(digits) {
        Some(digits_value(digits))
    } else {
        None
    }
}

/// The result of parsing `s` as a number no larger than `max`.
pub open spec fn parse_bounded(s: Seq<u8>, max: nat) -> Option<nat> {
    match parse_decimal(s) {
        Some(v) => if v <= max {
            Some(v)
        } else {
            None
        },
        None => None,
    }
}

/// A prefix of a digit string never denotes more than the whole string.
pub proof fn lemma_digits_value_prefix(s: Seq<u8>, k: int)
    requires
        all_digits(s),
        0 <= k <= s.len(),
    ensures
        digits_value(s.take(k)) <= digits_value(s),
    decreases s.len(),
{
    if k == s.len() {
        assert(s.take(k) =~= s);
    } else {
        let t = s.drop_last();
        assert(all_digits(t));
        assert(t.take(k) =~= s.take(k));
        lemma_digits_value_prefix(t, k);
    }
}

/// The decimal representation is a non-empty digit string that denotes the
/// number it was made from.
pub proof fn lemma_decimal_digits(n: nat)
    ensures
        decimal(n).len() > 0,
        all_digits(decimal(n)),
        digits_value(decimal(n)) == n,
    decreases n,
{
    if n < 10 {
        let s = decimal(n);
        assert(s.drop_last() =~= Seq::<u8>::empty());
        assert(digits_value(s.drop_last()) == 0);
    } else {
        lemma_decimal_digits(n / 10);
        let p = decimal(n / 10);
        let s = decimal(n);
        assert(s.drop_last() =~= p);
        assert forall|i: int| 0 <= i < s.len() implies is_digit(#[trigger] s[i]) by {
            if i < p.len() {
                assert(s[i] == p[i]);
            }
        }
    }
}

/// Formatting a number and parsing the text gives the number back.
pub proof fn lemma_parse_decimal_roundtrip(n: nat)
    ensures
        parse_decimal(decimal(n)) == Some(n),
{
    lemma_decimal_digits(n);
    let s = decimal(n);
    assert(is_digit(s[0]));
}

/// Formats `n` in decimal.
pub fn format_decimal(n: usize) -> (out: Vec<u8>)
    ensures
        out@ == decimal(n as nat),
    decreases n,
{
    if n < 10 {
        let mut out: Vec<u8> = Vec::new();
        out.push(ZERO + n as u8);
        assert(out@ =~= decimal(n as nat));
        out
    } else {
        let mut out = format_decimal(n / 10);
        out.push(ZERO + (n % 10) as u8);
        out
    }
}

/// Parses `s` as a non-negative decimal number no larger than `max`.
pub fn parse_number(s: &[u8], max: u64) -> (r: Option<u64>)
    ensures
        r == match parse_bounded(s@, max as nat) {
            Some(v) => Some(v as u64),
            None => None::<u64>,
        },
{
    let start: usize = if s.len() > 0 && s[0] == PLUS {
        1
    } else {
        0
    };
    let ghost digits = unsigned_digits(s@);
    assert(digits =~= s@.subrange(start as int, s@.len() as int));
    if start == s.len() {
        return None;
    }
    let mut acc: u64 = 0;
    let mut i: usize = start;
    while i < s.len()
        invariant
            start <= i <= s.len(),
            digits == s@.subrange(start as int, s@.len() as int),
            digits == unsigned_digits(s@),
            all_digits(digits.take(i - start)),
            acc == digits_value(digits.take(i - start)),
            acc <= max,
        decreases s.len() - i,
    {
        let b = s[i];
        let ghost next = digits.take(i - start + 1);
        assert(next.drop_last() =~= digits.take(i - start));
        assert(next.last() == b);
        if b < ZERO || b > NINE {
            assert(!is_digit(digits[i - start]));
            return None;
        }
        let d: u64 = (b - ZERO) as u64;
        if d > max || acc > (max - d) / 10 {
            proof {
                assert(all_digits(next)) by {
                    assert forall|j: int| 0 <= j < next.len() implies is_digit(
                        #[trigger] next[j],
                    ) by {
                        if j < next.len() - 1 {
                            assert(next[j] == digits.take(i - start)[j]);
                        }
                    }
                }
                assert(digits_value(next) > max);
                if all_digits(digits) {
                    lemma_digits_value_prefix(digits, i - start + 1);
                }
            }
            return None;
        }
        acc = acc * 10 + d;
        proof {
            assert forall|j: int| 0 <= j < next.len() implies is_digit(#[trigger] next[j]) by {
                if j < next.len() - 1 {
                    assert(next[j] == digits.take(i - start)[j]);
                }
            }
        }
        i = i + 1;
    }
    assert(digits.take(i - start) =~= digits);
    Some(acc)
}

/// Compares two byte strings.
pub fn same_bytes(a: &[u8], b: &[u8]) -> (r: bool)
    ensures
        r == (a@ == b@),
{
    if a.len() != b.len() {
        return false;
    }
    let mut i: usize = 0;
    while i < a.len()
        invariant
            a.len() == b.len(),
            0 <= i <= a.len(),
            forall|j: int| 0 <= j < i ==> a@[j] == b@[j],
        decreases a.len() - i,
    {
        if a[i] != b[i] {
            return false;
        }
        i = i + 1;
    }
    assert(a@ =~= b@);
    true
}

/// Copies the bytes of `s` from `from` up to `to`.
pub fn copy_range(s: &[u8], from: usize, to: usize) -> (out: Vec<u8>)
    requires
        from <= to <= s.len(),
    ensures
        out@ == s@.subrange(from as int, to as int),
{
    slice_to_vec(slice_subrange(s, from, to))
}

/// Appends the bytes of `s` to `out`.
pub fn push_all(out: &mut Vec<u8>, s: &[u8])
    ensures
        final(out)@ == old(out)@ + s@,
{
    let mut i: usize = 0;
    while i < s.len()
        invariant
            0 <= i <= s.len(),
            out@ == old(out)@ + s@.take(i as int),
        decreases s.len() - i,
    {
        out.push(s[i]);
        assert(s@.take(i + 1) =~= s@.take(i as int).push(s@[i as int]));
        i = i + 1;
    }
    assert(s@.take(i as int) =~= s@);
}

/// The offset of the first occurrence of `pat` in `s`, or `s.len()` where
/// there is none.
pub open spec fn find(s: Seq<u8>, pat: Seq<u8>) -> nat
    decreases s.len(),
{
    if pat.is_prefix_of(s) || s.len() == 0 {
        0
    } else {
        1 + find(s.drop_first(), pat)
    }
}

/// Whether `pat` occurs in `s`.
pub open spec fn contains(s: Seq<u8>, pat: Seq<u8>) -> bool {
    pat.is_prefix_of(s.skip(find(s, pat) as int))
}

/// `find` stays within the string, stops at a match, and skips none.
pub proof fn lemma_find(s: Seq<u8>, pat: Seq<u8>)
    ensures
        find(s, pat) <= s.len(),
        find(s, pat) == s.len() || pat.is_prefix_of(s.skip(find(s, pat) as int)),
        forall|j: int| 0 <= j < find(s, pat) ==> !pat.is_prefix_of(#[trigger] s.skip(j)),
    decreases s.len(),
{
    if pat.is_prefix_of(s) || s.len() == 0 {
        assert(s.skip(0) =~= s);
    } else {
        let t = s.drop_first();
        lemma_find(t, pat);
        let n = find(t, pat) as int;
        assert(t.skip(n) =~= s.skip(n + 1));
        assert forall|j: int| 0 <= j < n + 1 implies !pat.is_prefix_of(#[trigger] s.skip(j)) by {
            if j == 0 {
                assert(s.skip(0) =~= s);
            } else {
                assert(t.skip(j - 1) =~= s.skip(j));
            }
        }
    }
}

/// The first offset at which `pat` matches is what `find` returns.
pub proof fn lemma_find_unique(s: Seq<u8>, pat: Seq<u8>, i: int)
    requires
        0 <= i <= s.len(),
        forall|j: int| 0 <= j < i ==> !pat.is_prefix_of(#[trigger] s.skip(j)),
        i == s.len() || pat.is_prefix_of(s.skip(i)),
    ensures
        find(s, pat) == i,
    decreases s.len(),
{
    assert(s.skip(0) =~= s);
    if i > 0 {
        let t = s.drop_first();
        assert forall|j: int| 0 <= j < i - 1 implies !pat.is_prefix_of(#[trigger] t.skip(j)) by {
            assert(t.skip(j) =~= s.skip(j + 1));
        }
        assert(t.skip(i - 1) =~= s.skip(i));
        lemma_find_unique(t, pat, i - 1);
    }
}

/// Whether `pat` matches `s` at offset `at`.
pub fn matches_at(s: &[u8], at: usize, pat: &[u8]) -> (r: bool)
    requires
        at <= s.len(),
    ensures
        r == pat@.is_prefix_of(s@.skip(at as int)),
{
    if pat.len() > s.len() - at {
        return false;
    }
    let mut k: usize = 0;
    while k < pat.len()
        invariant
            at <= s.len(),
            pat.len() <= s.len() - at,
            0 <= k <= pat.len(),
            forall|j: int| 0 <= j < k ==> pat@[j] == s@[at + j],
        decreases pat.len() - k,
    {
        if pat[k] != s[at + k] {
            assert(s@.skip(at as int).subrange(0, pat@.len() as int)[k as int] == s@[at + k]);
            return false;
        }
        k = k + 1;
    }
    assert(pat@ =~= s@.skip(at as int).subrange(0, pat@.len() as int));
    true
}

/// Finds the first occurrence of `pat` in `s` at or after `from`. The result
/// is `s.len()` where there is none.
pub fn find_from(s: &[u8], from: usize, pat: &[u8]) -> (at: usize)
    requires
        from <= s.len(),
    ensures
        from <= at <= s.len(),
        at == from + find(s@.skip(from as int), pat@),
{
    let ghost t = s@.skip(from as int);
    let mut i: usize = from;
    while i < s.len()
        invariant
            from <= i <= s.len(),
            t == s@.skip(from as int),
            forall|j: int| 0 <= j < i - from ==> !pat@.is_prefix_of(#[trigger] t.skip(j)),
        decreases s.len() - i,
    {
        assert(t.skip(i - from) =~= s@.skip(i as int));
        if matches_at(s, i, pat) {
            proof {
                lemma_find_unique(t, pat@, i - from);
            }
            return i;
        }
        i = i + 1;
    }
    proof {
        lemma_find_unique(t, pat@, i - from);
    }
    i
}

/// The lower-case form of an ASCII letter; any other byte is unchanged.
pub open spec fn lower(b: u8) -> u8 {
    if 65 <= b <= 90 {
        (b + 32) as u8
    } else {
        b
    }
}

/// `s` with every ASCII capital letter replaced by its lower-case form.
pub open spec fn lowercase(s: Seq<u8>) -> Seq<u8> {
    Seq::new(s.len(), |i: int| lower(s[i]))
}

/// Folds the ASCII capital letters of `s` to lower case.
pub fn to_lowercase(s: &[u8]) -> (out: Vec<u8>)
    ensures
        out@ == lowercase(s@),
{
    let mut out: Vec<u8> = Vec::new();
    let mut i: usize = 0;
    while i < s.len()
        invariant
            0 <= i <= s.len(),
            out@ == lowercase(s@.take(i as int)),
        decreases s.len() - i,
    {
        let b = s[i];
        let folded: u8 = if 65 <= b && b <= 90 {
            b + 32
        } else {
            b
        };
        out.push(folded);
        assert(out@ =~= lowercase(s@.take(i + 1)));
        i = i + 1;
    }
    assert(s@.take(i as int) =~= s@);
    out
}

/// Whether `pat` occurs in `s`.
pub fn contains_bytes(s: &[u8], pat: &[u8]) -> (r: bool)
    ensures
        r == contains(s@, pat@),
{
    let at = find_from(s, 0, pat);
    assert(s@.skip(0) =~= s@);
    matches_at(s, at, pat)
}

} // verus!
