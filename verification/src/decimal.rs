//! Decimal notation: what a string of digits stands for, and parsers for the
//! integer widths that cross the boundary of the engine as text.

use vstd::prelude::*;
use vstd::string::*;

verus! {

/// Whether `c` is one of `0` to `9`.
pub open spec fn is_digit(c: char) -> bool {
    48 <= c as u32 <= 57
}

/// The number that a digit stands for.
pub open spec fn digit_value(c: char) -> int {
    (c as u32) as int - 48
}

/// Whether `s` is a non-empty run of digits.
pub open spec fn is_decimal(s: Seq<char>) -> bool {
    s.len() > 0 && forall|i: int| 0 <= i < s.len() ==> is_digit(#[trigger] s[i])
}

/// The number that a run of digits stands for, most significant digit first.
pub open spec fn decimal_value(s: Seq<char>) -> int
    decreases s.len(),
{
    if s.len() == 0 {
        0
    } else {
        10 * decimal_value(s.drop_last()) + digit_value(s.last())
    }
}

/// A literal without its leading plus sign, if it has one.
pub open spec fn without_plus(s: Seq<char>) -> Seq<char> {
    if s.len() > 0 && s[0] == '+' {
        s.subrange(1, s.len() as int)
    } else {
        s
    }
}

/// Whether a literal begins with a minus sign.
pub open spec fn has_minus(s: Seq<char>) -> bool {
    s.len() > 0 && s[0] == '-'
}

/// What an unsigned literal stands for: digits after an optional plus sign,
/// with a value of at most `limit`.
pub open spec fn unsigned_literal(s: Seq<char>, limit: int) -> Option<int> {
    let digits = without_plus(s);
    if is_decimal(digits) && decimal_value(digits) <= limit {
        Some(decimal_value(digits))
    } else {
        None
    }
}

/// What a signed 128-bit literal stands for: digits after an optional sign,
/// with a value from `-2^127` to `2^127 - 1`.
pub open spec fn signed_literal(s: Seq<char>) -> Option<int> {
    if has_minus(s) {
        let digits = s.subrange(1, s.len() as int);
        if is_decimal(digits) && decimal_value(digits)
            <= 0x8000_0000_0000_0000_0000_0000_0000_0000 {
            Some(-decimal_value(digits))
        } else {
            None
        }
    } else {
        unsigned_literal(s, 0x7fff_ffff_ffff_ffff_ffff_ffff_ffff_ffff)
    }
}

/// A run of digits stands for at least what any of its prefixes stands for,
/// and for a number that is not negative.
pub proof fn lemma_decimal_prefix(s: Seq<char>, n: int)
    requires
        forall|i: int| 0 <= i < s.len() ==> is_digit(#[trigger] s[i]),
        0 <= n <= s.len(),
    ensures
        0 <= decimal_value(s.subrange(0, n)) <= decimal_value(s),
    decreases s.len() - n,
{
    if n == s.len() {
        assert(s.subrange(0, n) =~= s);
        lemma_decimal_nonnegative(s);
    } else {
        lemma_decimal_prefix(s, n + 1);
        let longer = s.subrange(0, n + 1);
        assert(longer.drop_last() =~= s.subrange(0, n));
        assert(longer.last() == s[n]);
        lemma_decimal_nonnegative(s.subrange(0, n));
    }
}

/// A run of digits stands for a number that is not negative.
pub proof fn lemma_decimal_nonnegative(s: Seq<char>)
    requires
        forall|i: int| 0 <= i < s.len() ==> is_digit(#[trigger] s[i]),
    ensures
        0 <= decimal_value(s),
    decreases s.len(),
{
    if s.len() > 0 {
        lemma_decimal_nonnegative(s.drop_last());
    }
}

/// Reads the characters of `s` from position `from` on as a run of digits
/// with a value of at most `limit`.
pub fn parse_digits(s: &str, from: usize, limit: u128) -> (r: Option<u128>)
    requires
        from <= s@.len(),
    ensures
        r is Some <==> is_decimal(s@.subrange(from as int, s@.len() as int)) && decimal_value(
            s@.subrange(from as int, s@.len() as int),
        ) <= limit,
        r is Some ==> r.unwrap() == decimal_value(s@.subrange(from as int, s@.len() as int)),
{
    let n: usize = s.unicode_len();
    if from >= n {
        return None;
    }
    let ghost digits: Seq<char> = s@.subrange(from as int, n as int);
    let mut acc: u128 = 0;
    let mut i: usize = from;
    while i < n
        invariant
            from <= i <= n,
            n == s@.len(),
            digits == s@.subrange(from as int, n as int),
            forall|j: int| 0 <= j < i - from ==> is_digit(#[trigger] digits[j]),
            acc == decimal_value(digits.subrange(0, i - from)),
            acc <= limit,
        decreases n - i,
    {
        let c: char = s.get_char(i);
        let code: u32 = c as u32;
        assert(digits[i - from] == c);
        if code < 48 || code > 57 {
            return None;
        }
        let d: u128 = (code - 48) as u128;
        proof {
            let longer = digits.subrange(0, i - from + 1);
            assert(longer.drop_last() =~= digits.subrange(0, i - from));
            assert(longer.last() == c);
            if is_decimal(digits) {
                lemma_decimal_prefix(digits, i - from + 1);
            }
        }
        if d > limit || acc > (limit - d) / 10 {
            return None;
        }
        acc = acc * 10 + d;
        i = i + 1;
    }
    proof {
        assert(digits.subrange(0, i - from) =~= digits);
    }
    Some(acc)
}

/// Reads an unsigned 128-bit integer: digits after an optional plus sign.
pub fn parse_u128(s: &str) -> (r: Option<u128>)
    ensures
        match r {
            Some(v) => unsigned_literal(s@, u128::MAX as int) == Some(v as int),
            None => unsigned_literal(s@, u128::MAX as int) is None,
        },
{
    let n: usize = s.unicode_len();
    proof {
        assert(s@.subrange(0, s@.len() as int) =~= s@);
    }
    if n > 0 && s.get_char(0) == '+' {
        parse_digits(s, 1, u128::MAX)
    } else {
        parse_digits(s, 0, u128::MAX)
    }
}

/// Reads an unsigned 32-bit integer: digits after an optional plus sign.
pub fn parse_u32(s: &str) -> (r: Option<u32>)
    ensures
        match r {
            Some(v) => unsigned_literal(s@, u32::MAX as int) == Some(v as int),
            None => unsigned_literal(s@, u32::MAX as int) is None,
        },
{
    let n: usize = s.unicode_len();
    let from: usize = if n > 0 && s.get_char(0) == '+' {
        1
    } else {
        0
    };
    proof {
        assert(s@.subrange(0, s@.len() as int) =~= s@);
    }
    match parse_digits(s, from, 0xffff_ffff) {
        Some(v) => Some(v as u32),
        None => None,
    }
}

/// Reads a signed 128-bit integer: digits after an optional sign.
pub fn parse_i128(s: &str) -> (r: Option<i128>)
    ensures
        match r {
            Some(v) => signed_literal(s@) == Some(v as int),
            None => signed_literal(s@) is None,
        },
{
    let n: usize = s.unicode_len();
    proof {
        assert(s@.subrange(0, s@.len() as int) =~= s@);
    }
    if n > 0 && s.get_char(0) == '-' {
        match parse_digits(s, 1, 0x8000_0000_0000_0000_0000_0000_0000_0000) {
            Some(v) => {
                if v == 0x8000_0000_0000_0000_0000_0000_0000_0000 {
                    Some(i128::MIN)
                } else {
                    Some(-(v as i128))
                }
            },
            None => None,
        }
    } else {
        let from: usize = if n > 0 && s.get_char(0) == '+' {
            1
        } else {
            0
        };
        match parse_digits(s, from, 0x7fff_ffff_ffff_ffff_ffff_ffff_ffff_ffff) {
            Some(v) => Some(v as i128),
            None => None,
        }
    }
}

} // verus!
