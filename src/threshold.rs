//! Resolving the configured commits-per-day quota, leniently.
use vstd::prelude::*;
use vstd::string::StrSliceExecFns;

verus! {

/// The quota used when none is configured or the configured one is unusable.
pub const DEFAULT_THRESHOLD: u32 = 4;

/// Whether `c` is an ASCII decimal digit.
pub open spec fn is_digit(c: char) -> bool {
    '0' <= c <= '9'
}

/// Whether every character of `s` is a decimal digit.
pub open spec fn all_digits(s: Seq<char>) -> bool {
    forall|i: int| 0 <= i < s.len() ==> is_digit(#[trigger] s[i])
}

/// The value of the decimal digit `c`.
pub open spec fn digit_value(c: char) -> int {
    (c as int) - ('0' as int)
}

/// The value of a run of decimal digits, most significant first.
pub open spec fn digits_value(s: Seq<char>) -> int
    decreases s.len(),
{
    if s.len() == 0 {
        0
    } else {
        digits_value(s.drop_last()) * 10 + digit_value(s.last())
    }
}

/// The digits of a decimal integer text: all of it after one optional `+` or `-` sign.
pub open spec fn unsigned_part(s: Seq<char>) -> Seq<char> {
    if s.len() > 0 && (s[0] == '+' || s[0] == '-') {
        s.drop_first()
    } else {
        s
    }
}

/// The 32-bit signed integer that `s` spells in decimal: an optional sign and
/// one or more digits, nothing else, the value fitting in an `i32`.
pub open spec fn i32_of_text(s: Seq<char>) -> Option<int> {
    let digits = unsigned_part(s);
    if digits.len() > 0 && all_digits(digits) {
        let magnitude = digits_value(digits);
        let value = if s[0] == '-' {
            -magnitude
        } else {
            magnitude
        };
        if i32::MIN <= value <= i32::MAX {
            Some(value)
        } else {
            None
        }
    } else {
        None
    }
}

/// The quota a configured value gives: the number it spells when that is a
/// positive `i32`, and `DEFAULT_THRESHOLD` when it is absent, unreadable,
/// zero or negative.
pub open spec fn resolved_threshold(value: Option<Seq<char>>) -> int {
    match value {
        Some(s) => match i32_of_text(s) {
            Some(n) => if n > 0 {
                n
            } else {
                DEFAULT_THRESHOLD as int
            },
            None => DEFAULT_THRESHOLD as int,
        },
        None => DEFAULT_THRESHOLD as int,
    }
}

proof fn lemma_digits_value_nonneg(s: Seq<char>)
    requires
        forall|i: int| 0 <= i < s.len() ==> is_digit(#[trigger] s[i]),
    ensures
        digits_value(s) >= 0,
    decreases s.len(),
{
    if s.len() > 0 {
        lemma_digits_value_nonneg(s.drop_last());
    }
}

/// Reads a decimal `i32`: an optional `+` or `-` and one or more ASCII digits.
pub fn parse_i32(text: &str) -> (r: Option<i32>)
    ensures
        match r {
            Some(n) => i32_of_text(text@) == Some(n as int),
            None => i32_of_text(text@) is None,
        },
{
    let len = text.unicode_len();
    if len == 0 {
        return None;
    }
    let first = text.get_char(0);
    let negative = first == '-';
    let start: usize = if first == '+' || first == '-' { 1 } else { 0 };
    let ghost digits = unsigned_part(text@);
    assert(digits =~= text@.subrange(start as int, len as int));
    if start == len {
        return None;
    }
    // The largest magnitude an `i32` can have (that of `i32::MIN`).
    let limit: u64 = 2147483648;
    let mut magnitude: u64 = 0;
    let mut too_large = false;
    let mut i: usize = start;
    while i < len
        invariant
            start <= i <= len,
            len == text@.len(),
            digits =~= text@.subrange(start as int, len as int),
            forall|k: int| 0 <= k < i - start ==> is_digit(#[trigger] digits[k]),
            magnitude <= limit,
            limit == 2147483648,
            digits == unsigned_part(text@),
            !too_large ==> magnitude as int == digits_value(digits.subrange(0, i - start)),
            too_large ==> digits_value(digits.subrange(0, i - start)) > limit,
        decreases len - i,
    {
        let c = text.get_char(i);
        if !('0' <= c && c <= '9') {
            assert(digits[i - start] == c);
            assert(!is_digit(digits[i - start]));
            return None;
        }
        let d = (c as u32 - '0' as u32) as u64;
        let ghost prefix = digits.subrange(0, i - start);
        proof {
            assert(digits.subrange(0, i + 1 - start).drop_last() =~= prefix);
            assert(forall|k: int| 0 <= k < prefix.len() ==> is_digit(#[trigger] prefix[k]));
            lemma_digits_value_nonneg(prefix);
        }
        if !too_large {
            if magnitude * 10 + d > limit {
                too_large = true;
            } else {
                magnitude = magnitude * 10 + d;
            }
        }
        i += 1;
    }
    assert(digits.subrange(0, len - start) =~= digits);
    if too_large {
        return None;
    }
    if negative {
        Some((0 - magnitude as i64) as i32)
    } else if magnitude <= 2147483647 {
        Some(magnitude as i32)
    } else {
        None
    }
}

/// Resolves the configured quota: a positive `i32` is taken as it is; an
/// absent, unreadable, zero or negative value gives `DEFAULT_THRESHOLD`.
/// Never fails.
pub fn resolve_threshold(value: Option<&str>) -> (r: u32)
    ensures
        r as int == resolved_threshold(
            match value {
                Some(s) => Some(s@),
                None => None,
            },
        ),
        r > 0,
{
    match value {
        Some(s) => match parse_i32(s) {
            Some(n) => if n > 0 {
                n as u32
            } else {
                DEFAULT_THRESHOLD
            },
            None => DEFAULT_THRESHOLD,
        },
        None => DEFAULT_THRESHOLD,
    }
}

} // verus!
