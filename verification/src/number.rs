//! Decimal integers as a font descriptor writes them: an optional sign
//! and at least one digit, nothing else.
//!
//! Whatever else a text holds makes it no number at all: a fraction
//! (`20.5`), an exponent (`1e3`), a space, a digit of another script. So
//! does a value beyond the range of the type that is asked for. Nothing is
//! rounded or cut to fit.

use vstd::prelude::*;

verus! {

/// The ten decimal digits of ASCII.
pub open spec fn is_digit(c: char) -> bool {
    '0' <= c <= '9'
}

/// Whether `s` holds digits only.
pub open spec fn all_digits(s: Seq<char>) -> bool {
    forall|i: int| 0 <= i < s.len() ==> is_digit(#[trigger] s[i])
}

/// The number that a sequence of digits denotes.
pub open spec fn digits_value(s: Seq<char>) -> nat
    decreases s.len(),
{
    if s.len() == 0 {
        0
    } else {
        (digits_value(s.drop_last()) * 10 + (s.last() as u32 - '0' as u32)) as nat
    }
}

/// The number that `s` denotes if it is one digit or more and nothing
/// else.
pub open spec fn parse_digits(s: Seq<char>) -> Option<nat> {
    if s.len() > 0 && all_digits(s) {
        Some(digits_value(s))
    } else {
        None
    }
}

/// The number that `s` denotes: digits, with `+` or `-` before them
/// where `signed` allows a sign, and with `+` only where it does not.
pub open spec fn parse_integer(s: Seq<char>, signed: bool) -> Option<int> {
    if s.len() > 0 && s[0] == '+' {
        match parse_digits(s.drop_first()) {
            Some(n) => Some(n as int),
            None => None,
        }
    } else if signed && s.len() > 0 && s[0] == '-' {
        match parse_digits(s.drop_first()) {
            Some(n) => Some(-(n as int)),
            None => None,
        }
    } else {
        match parse_digits(s) {
            Some(n) => Some(n as int),
            None => None,
        }
    }
}

/// `s` read as an unsigned 32-bit number.
pub open spec fn spec_parse_u32(s: Seq<char>) -> Option<u32> {
    match parse_integer(s, false) {
        Some(n) => if n <= u32::MAX {
            Some(n as u32)
        } else {
            None
        },
        None => None,
    }
}

/// `s` read as an unsigned 16-bit number.
pub open spec fn spec_parse_u16(s: Seq<char>) -> Option<u16> {
    match parse_integer(s, false) {
        Some(n) => if n <= u16::MAX {
            Some(n as u16)
        } else {
            None
        },
        None => None,
    }
}

/// `s` read as a signed 16-bit number.
pub open spec fn spec_parse_i16(s: Seq<char>) -> Option<i16> {
    match parse_integer(s, true) {
        Some(n) => if i16::MIN <= n <= i16::MAX {
            Some(n as i16)
        } else {
            None
        },
        None => None,
    }
}

/// A number of digits is at least the number of any of its prefixes.
pub proof fn lemma_digits_value_grows(s: Seq<char>, k: int)
    requires
        0 <= k <= s.len(),
        all_digits(s),
    ensures
        digits_value(s.subrange(0, k)) <= digits_value(s),
    decreases s.len(),
{
    if k == s.len() {
        assert(s.subrange(0, k) =~= s);
    } else {
        let front = s.drop_last();
        assert(is_digit(s.last()));
        assert forall|i: int| 0 <= i < front.len() implies is_digit(#[trigger] front[i]) by {
            assert(front[i] == s[i]);
        }
        lemma_digits_value_grows(front, k);
        assert(front.subrange(0, k) =~= s.subrange(0, k));
    }
}

/// Reads the digits of `text` from `from` on. There is a result where
/// these are one digit or more, nothing else, and denote at most `max`.
pub fn parse_magnitude(text: &Vec<char>, from: usize, max: u32) -> (value: Option<u32>)
    requires
        from <= text.len(),
    ensures
        value == (match parse_digits(text@.subrange(from as int, text.len() as int)) {
            Some(n) => if n <= max {
                Some(n as u32)
            } else {
                None
            },
            None => None,
        }),
{
    let ghost body = text@.subrange(from as int, text.len() as int);
    if from == text.len() {
        return None;
    }
    let mut total: u64 = 0;
    let mut i: usize = from;
    while i < text.len()
        invariant
            from <= i <= text.len(),
            body == text@.subrange(from as int, text.len() as int),
            all_digits(body.subrange(0, i - from)),
            total == digits_value(body.subrange(0, i - from)),
            total <= max,
        decreases text.len() - i,
    {
        let c: char = text[i];
        let ghost seen = body.subrange(0, i - from);
        let ghost more = body.subrange(0, i - from + 1);
        assert(more.drop_last() =~= seen);
        assert(more.last() == c);
        if c < '0' || c > '9' {
            assert(!is_digit(body[i - from]));
            return None;
        }
        assert forall|k: int| 0 <= k < more.len() implies is_digit(#[trigger] more[k]) by {
            if k < seen.len() {
                assert(more[k] == seen[k]);
            }
        }
        let digit: u64 = (c as u32 - '0' as u32) as u64;
        total = total * 10 + digit;
        if total > max as u64 {
            proof {
                if all_digits(body) {
                    lemma_digits_value_grows(body, i - from + 1);
                }
            }
            return None;
        }
        i = i + 1;
    }
    assert(body.subrange(0, i - from) =~= body);
    Some(total as u32)
}

/// Reads an unsigned 32-bit number.
pub fn parse_u32(text: &Vec<char>) -> (value: Option<u32>)
    ensures
        value == spec_parse_u32(text@),
{
    let from: usize = if text.len() > 0 && text[0] == '+' {
        1
    } else {
        0
    };
    assert(text@.subrange(0, text.len() as int) =~= text@);
    assert(text@.len() > 0 ==> text@.subrange(1, text.len() as int) =~= text@.drop_first());
    parse_magnitude(text, from, u32::MAX)
}

/// Reads an unsigned 16-bit number.
pub fn parse_u16(text: &Vec<char>) -> (value: Option<u16>)
    ensures
        value == spec_parse_u16(text@),
{
    let from: usize = if text.len() > 0 && text[0] == '+' {
        1
    } else {
        0
    };
    assert(text@.subrange(0, text.len() as int) =~= text@);
    assert(text@.len() > 0 ==> text@.subrange(1, text.len() as int) =~= text@.drop_first());
    match parse_magnitude(text, from, 0xffff) {
        Some(n) => Some(n as u16),
        None => None,
    }
}

/// Reads a signed 16-bit number.
pub fn parse_i16(text: &Vec<char>) -> (value: Option<i16>)
    ensures
        value == spec_parse_i16(text@),
{
    assert(text@.subrange(0, text.len() as int) =~= text@);
    assert(text@.len() > 0 ==> text@.subrange(1, text.len() as int) =~= text@.drop_first());
    if text.len() > 0 && text[0] == '-' {
        match parse_magnitude(text, 1, 0x8000) {
            Some(n) => Some((-(n as i32)) as i16),
            None => None,
        }
    } else {
        let from: usize = if text.len() > 0 && text[0] == '+' {
            1
        } else {
            0
        };
        match parse_magnitude(text, from, 0x7fff) {
            Some(n) => Some(n as i16),
            None => None,
        }
    }
}

} // verus!
