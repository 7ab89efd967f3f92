//! Decimal parsing and rendering of unsigned integers.
//!
//! The parsers follow the grammar of Rust's unsigned `FromStr`: an optional
//! leading `+`, then one or more ASCII digits, with the value required to fit
//! in the target type.  The error messages match the ones std prints, since
//! they appear verbatim inside the field-level parse errors.

use vstd::prelude::*;

verus! {

/// Why a decimal string failed to parse as an unsigned integer.
#[derive(Debug, Clone, Copy, PartialEq, Eq, Structural)]
pub enum IntParseError {
    /// The input string was empty.
    Empty,
    /// A character that is not an ASCII digit was found.
    InvalidDigit,
    /// The value does not fit in the target type.
    PosOverflow,
}

impl IntParseError {
    pub open spec fn spec_message(self) -> Seq<char> {
        match self {
            IntParseError::Empty => "cannot parse integer from empty string"@,
            IntParseError::InvalidDigit => "invalid digit found in string"@,
            IntParseError::PosOverflow => "number too large to fit in target type"@,
        }
    }

    pub fn message(&self) -> (r: String)
        ensures
            r@ == self.spec_message(),
    {
        match self {
            IntParseError::Empty => "cannot parse integer from empty string".to_owned(),
            IntParseError::InvalidDigit => "invalid digit found in string".to_owned(),
            IntParseError::PosOverflow => "number too large to fit in target type".to_owned(),
        }
    }
}

pub open spec fn is_dec_digit(c: char) -> bool {
    '0' <= c && c <= '9'
}

pub open spec fn digit_val(c: char) -> int {
    c as int - '0' as int
}

/// Value of a digit string, most significant digit first.
pub open spec fn digits_val(s: Seq<char>) -> int
    decreases s.len(),
{
    if s.len() == 0 {
        0
    } else {
        digits_val(s.drop_last()) * 10 + digit_val(s.last())
    }
}

/// One step mirror of how std folds digits: scan left to right, reporting the
/// first offending character or the first prefix that overflows `max`.
pub open spec fn spec_fold_digits(acc: int, s: Seq<char>, max: int) -> Result<int, IntParseError>
    decreases s.len(),
{
    if s.len() == 0 {
        Ok(acc)
    } else if !is_dec_digit(s[0]) {
        Err(IntParseError::InvalidDigit)
    } else if acc * 10 + digit_val(s[0]) > max {
        Err(IntParseError::PosOverflow)
    } else {
        spec_fold_digits(acc * 10 + digit_val(s[0]), s.drop_first(), max)
    }
}

/// The digit part of a decimal string: everything after an optional `+`.
pub open spec fn num_body(s: Seq<char>) -> Seq<char> {
    if s.len() > 0 && s[0] == '+' {
        s.drop_first()
    } else {
        s
    }
}

/// What parsing `s` as an unsigned integer bounded by `max` yields.
pub open spec fn spec_parse_uint(s: Seq<char>, max: int) -> Result<int, IntParseError> {
    if s.len() == 0 {
        Err(IntParseError::Empty)
    } else if num_body(s).len() == 0 {
        Err(IntParseError::InvalidDigit)
    } else {
        spec_fold_digits(0, num_body(s), max)
    }
}

pub open spec fn spec_parse_u64(s: Seq<char>) -> Result<u64, IntParseError> {
    match spec_parse_uint(s, u64::MAX as int) {
        Ok(v) => Ok(v as u64),
        Err(e) => Err(e),
    }
}

pub open spec fn spec_parse_u32(s: Seq<char>) -> Result<u32, IntParseError> {
    match spec_parse_uint(s, u32::MAX as int) {
        Ok(v) => Ok(v as u32),
        Err(e) => Err(e),
    }
}

pub open spec fn spec_parse_usize(s: Seq<char>) -> Result<usize, IntParseError> {
    match spec_parse_uint(s, usize::MAX as int) {
        Ok(v) => Ok(v as usize),
        Err(e) => Err(e),
    }
}

/// Digit accumulation over a slice of characters.  `acc` is the value of the
/// digits already consumed; returns what std would for the remaining ones.
fn fold_digits(s: &str, start: usize, n: usize, max_acc: u64) -> (r: Result<u64, IntParseError>)
    requires
        start <= n == s@.len(),
        max_acc <= u64::MAX,
    ensures
        match r {
            Ok(v) => spec_fold_digits(0, s@.subrange(start as int, n as int), max_acc as int)
                == Ok::<int, IntParseError>(v as int) && v <= max_acc,
            Err(e) => spec_fold_digits(0, s@.subrange(start as int, n as int), max_acc as int)
                == Err::<int, IntParseError>(e),
        },
{
    let mut acc: u64 = 0;
    let mut i: usize = start;
    while i < n
        invariant
            start <= i <= n == s@.len(),
            max_acc <= u64::MAX,
            acc <= max_acc,
            spec_fold_digits(0, s@.subrange(start as int, n as int), max_acc as int)
                == spec_fold_digits(acc as int, s@.subrange(i as int, n as int), max_acc as int),
        decreases n - i,
    {
        let c = s.get_char(i);
        proof {
            assert(s@.subrange(i as int, n as int)[0] == c);
        }
        if !('0' <= c && c <= '9') {
            return Err(IntParseError::InvalidDigit);
        }
        let d: u64 = (c as u32 as u64) - ('0' as u32 as u64);
        let limit: u64 = (u64::MAX - d) / 10;
        proof {
            vstd::arithmetic::div_mod::lemma_fundamental_div_mod(u64::MAX as int - d as int, 10);
        }
        if acc > limit {
            return Err(IntParseError::PosOverflow);
        }
        if acc * 10 + d > max_acc {
            return Err(IntParseError::PosOverflow);
        }
        proof {
            assert(s@.subrange(i as int, n as int).drop_first()
                =~= s@.subrange(i as int + 1, n as int));
        }
        acc = acc * 10 + d;
        i = i + 1;
    }
    proof {
        assert(s@.subrange(i as int, n as int) =~= Seq::<char>::empty());
    }
    Ok(acc)
}

/// Shared front end: sign handling and emptiness checks.
fn parse_uint(s: &str, max_acc: u64) -> (r: Result<u64, IntParseError>)
    requires
        max_acc <= u64::MAX,
    ensures
        match r {
            Ok(v) => spec_parse_uint(s@, max_acc as int) == Ok::<int, IntParseError>(v as int) && v <= max_acc,
            Err(e) => spec_parse_uint(s@, max_acc as int) == Err::<int, IntParseError>(e),
        },
{
    let n = s.unicode_len();
    if n == 0 {
        return Err(IntParseError::Empty);
    }
    let start: usize = if s.get_char(0) == '+' {
        1
    } else {
        0
    };
    if start == 1 && n == 1 {
        return Err(IntParseError::InvalidDigit);
    }
    proof {
        assert(num_body(s@) =~= s@.subrange(start as int, n as int));
    }
    fold_digits(s, start, n, max_acc)
}

/// Parses a decimal string as `u64`, as `str::parse::<u64>` would.
pub fn parse_u64(s: &str) -> (r: Result<u64, IntParseError>)
    ensures
        r == spec_parse_u64(s@),
        r matches Ok(v) ==> spec_parse_uint(s@, u64::MAX as int) == Ok::<int, IntParseError>(
            v as int,
        ),
{
    match parse_uint(s, u64::MAX) {
        Ok(v) => Ok(v),
        Err(e) => Err(e),
    }
}

/// Parses a decimal string as `u32`, as `str::parse::<u32>` would.
pub fn parse_u32(s: &str) -> (r: Result<u32, IntParseError>)
    ensures
        r == spec_parse_u32(s@),
        r matches Ok(v) ==> spec_parse_uint(s@, u32::MAX as int) == Ok::<int, IntParseError>(
            v as int,
        ),
{
    match parse_uint(s, u32::MAX as u64) {
        Ok(v) => Ok(v as u32),
        Err(e) => Err(e),
    }
}

/// Parses a decimal string as `usize`, as `str::parse::<usize>` would.
pub fn parse_usize(s: &str) -> (r: Result<usize, IntParseError>)
    ensures
        r == spec_parse_usize(s@),
        r matches Ok(v) ==> spec_parse_uint(s@, usize::MAX as int) == Ok::<int, IntParseError>(
            v as int,
        ),
{
    let max: u64 = usize::MAX as u64;
    match parse_uint(s, max) {
        Ok(v) => Ok(v as usize),
        Err(e) => Err(e),
    }
}

} // verus!
