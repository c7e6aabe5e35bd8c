//! Verified parsing of unsigned ASCII decimal integers, the numeric format
//! used by attribute files: an optional leading plus sign followed by one or
//! more digits, with any out-of-range value rejected.

use vstd::prelude::*;
use crate::error::Error;
use crate::text::is_digit;

verus! {

/// The numeric value the digit character `c` stands for.
pub open spec fn digit_value(c: char) -> int {
    c as u32 - 48
}

/// Whether every character of `s` is a decimal digit.
pub open spec fn all_digits(s: Seq<char>) -> bool {
    forall|i: int| 0 <= i < s.len() ==> is_digit(#[trigger] s[i])
}

/// The value of the digit string `s` read as a decimal number.
pub open spec fn digits_value(s: Seq<char>) -> int
    decreases s.len(),
{
    if s.len() == 0 {
        0
    } else {
        digits_value(s.drop_last()) * 10 + digit_value(s.last())
    }
}

/// The digit portion of an unsigned decimal literal: everything after an
/// optional leading plus sign.
pub open spec fn spec_digits_of(s: Seq<char>) -> Seq<char> {
    if s.len() > 0 && s[0] == '+' {
        s.drop_first()
    } else {
        s
    }
}

/// What parsing `s` as a 64-bit unsigned decimal yields: the value of the
/// digits when `s` is an optional plus sign followed by one or more digits
/// whose value fits, and nothing otherwise.
pub open spec fn spec_parse_u64(s: Seq<char>) -> Option<u64> {
    let digits = spec_digits_of(s);
    if digits.len() > 0 && all_digits(digits) && digits_value(digits) <= u64::MAX {
        Some(digits_value(digits) as u64)
    } else {
        None
    }
}

/// What parsing `s` as an unsigned byte yields, in the same format.
pub open spec fn spec_parse_u8(s: Seq<char>) -> Option<u8> {
    let digits = spec_digits_of(s);
    if digits.len() > 0 && all_digits(digits) && digits_value(digits) <= u8::MAX {
        Some(digits_value(digits) as u8)
    } else {
        None
    }
}

proof fn lemma_digits_value_nonneg(s: Seq<char>)
    requires
        all_digits(s),
    ensures
        digits_value(s) >= 0,
    decreases s.len(),
{
    if s.len() > 0 {
        lemma_digits_value_nonneg(s.drop_last());
    }
}

/// The value of a digit string is at least the value of any of its prefixes.
proof fn lemma_digits_value_prefix(s: Seq<char>, k: int)
    requires
        all_digits(s),
        0 <= k <= s.len(),
    ensures
        digits_value(s.take(k)) <= digits_value(s),
    decreases s.len() - k,
{
    if k < s.len() {
        lemma_digits_value_prefix(s, k + 1);
        assert(s.take(k + 1).drop_last() =~= s.take(k));
        assert(all_digits(s.take(k))) by {
            assert(forall|i: int| 0 <= i < k ==> s.take(k)[i] == s[i]);
        }
        lemma_digits_value_nonneg(s.take(k));
        assert(s.take(k + 1).last() == s[k]);
    } else {
        assert(s.take(k) =~= s);
    }
}

/// Parses `s` as a 64-bit unsigned decimal integer, failing exactly where
/// `s` is not such a literal or its value does not fit.
pub fn parse_u64(s: &str) -> (r: Result<u64, Error>)
    ensures
        spec_parse_u64(s@) matches Some(v) ==> r == Ok::<u64, Error>(v),
        spec_parse_u64(s@) is None ==> r == Err::<u64, Error>(Error::Parse),
{
    let n = s.unicode_len();
    let mut start: usize = 0;
    if n > 0 && s.get_char(0) == '+' {
        start = 1;
    }
    let ghost digits = s@.skip(start as int);
    proof {
        assert(digits =~= spec_digits_of(s@));
    }
    if start == n {
        return Err(Error::Parse);
    }
    let mut acc: u64 = 0;
    let mut i: usize = start;
    proof {
        assert(s@.subrange(start as int, start as int) =~= Seq::<char>::empty());
    }
    while i < n
        invariant
            start <= i <= n,
            n == s@.len(),
            digits == s@.skip(start as int),
            digits == spec_digits_of(s@),
            digits.len() == n - start,
            forall|j: int| start <= j < i ==> is_digit(#[trigger] s@[j]),
            acc == digits_value(s@.subrange(start as int, i as int)),
        decreases n - i,
    {
        let c = s.get_char(i);
        if !(c >= '0' && c <= '9') {
            proof {
                assert(digits[i - start] == s@[i as int]);
                assert(!all_digits(digits));
            }
            return Err(Error::Parse);
        }
        let d: u64 = (c as u32 - 48) as u64;
        proof {
            assert(s@.subrange(start as int, i + 1).drop_last() =~= s@.subrange(
                start as int,
                i as int,
            ));
            assert(s@.subrange(start as int, i + 1).last() == s@[i as int]);
        }
        if acc > (u64::MAX - d) / 10 {
            proof {
                let m = u64::MAX as int;
                assert(m - d == 10 * ((m - d) / 10) + ((m - d) % 10));
                assert(acc * 10 + d > m);
                if all_digits(digits) {
                    lemma_digits_value_prefix(digits, i + 1 - start);
                    assert(digits.take(i + 1 - start) =~= s@.subrange(start as int, i + 1));
                    assert(digits_value(digits) > u64::MAX);
                }
            }
            return Err(Error::Parse);
        }
        proof {
            let m = u64::MAX as int;
            assert(m - d == 10 * ((m - d) / 10) + ((m - d) % 10));
            assert(acc * 10 + d <= m);
        }
        acc = acc * 10 + d;
        i = i + 1;
    }
    proof {
        assert(s@.subrange(start as int, n as int) =~= digits);
        assert(all_digits(digits)) by {
            assert(forall|j: int| 0 <= j < digits.len() ==> digits[j] == s@[start + j]);
        }
    }
    Ok(acc)
}

/// Parses `s` as an unsigned decimal byte, failing exactly where `s` is not
/// such a literal or its value exceeds a byte.
pub fn parse_u8(s: &str) -> (r: Result<u8, Error>)
    ensures
        spec_parse_u8(s@) matches Some(v) ==> r == Ok::<u8, Error>(v),
        spec_parse_u8(s@) is None ==> r == Err::<u8, Error>(Error::Parse),
{
    proof {
        let digits = spec_digits_of(s@);
        if digits.len() > 0 && all_digits(digits) {
            lemma_digits_value_nonneg(digits);
        }
    }
    match parse_u64(s) {
        Ok(v) => {
            if v <= 255 {
                Ok(v as u8)
            } else {
                Err(Error::Parse)
            }
        },
        Err(_) => Err(Error::Parse),
    }
}

} // verus!
