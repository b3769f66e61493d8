//! Shared helpers: decimal parsing and environment-value interpretation.

use vstd::prelude::*;

use crate::hex::is_dec_digit;
use vstd::string::StringExecFns;

verus! {

/// Errors of the shared helpers.
#[derive(Clone, Debug)]
pub enum CommonError {
    /// An environment variable was not set; carries its name.
    EnvVarNotSet(String),
    /// An environment variable did not parse; carries its name and the
    /// parse error text.
    ParseError(String, String),
    /// The logger could not be initialised.
    LoggerInitFailed,
}

/// Why a decimal string did not parse as a `u64`.
#[derive(Clone, Debug)]
pub enum ParseNumError {
    /// The string is empty.
    Empty,
    /// A character is not a decimal digit.
    InvalidDigit,
    /// The value does not fit in 64 bits.
    Overflow,
}

/// The parse error text of each kind, in the standard library's wording.
pub open spec fn parse_msg(k: ParseNumError) -> Seq<char> {
    match k {
        ParseNumError::Empty => "cannot parse integer from empty string"@,
        ParseNumError::InvalidDigit => "invalid digit found in string"@,
        ParseNumError::Overflow => "number too large to fit in target type"@,
    }
}

impl ParseNumError {
    /// The parse error text, matching the standard library's wording.
    pub fn message(&self) -> (r: String)
        ensures
            r@ == parse_msg(*self),
    {
        match self {
            ParseNumError::Empty => String::from_str("cannot parse integer from empty string"),
            ParseNumError::InvalidDigit => String::from_str("invalid digit found in string"),
            ParseNumError::Overflow => String::from_str(
                "number too large to fit in target type",
            ),
        }
    }
}

/// Whether every character of `s` is a decimal digit.
pub open spec fn all_dec_digits(s: Seq<char>) -> bool {
    forall|i: int| 0 <= i < s.len() ==> is_dec_digit(#[trigger] s[i])
}

/// The numeric value of a decimal digit string.
pub open spec fn dec_val(s: Seq<char>) -> nat
    decreases s.len(),
{
    if s.len() == 0 {
        0
    } else {
        dec_val(s.drop_last()) * 10 + crate::hex::hex_digit_val(s.last())
    }
}

proof fn lemma_dec_val_prefix_le(s: Seq<char>, i: int)
    requires
        all_dec_digits(s),
        0 <= i <= s.len(),
    ensures
        dec_val(s.take(i)) <= dec_val(s),
    decreases s.len() - i,
{
    if i == s.len() {
        assert(s.take(i) =~= s);
    } else {
        let t = s.take(i + 1);
        assert(t.drop_last() =~= s.take(i));
        assert(is_dec_digit(s[i]));
        assert(dec_val(s.take(i)) <= dec_val(t));
        lemma_dec_val_prefix_le(s, i + 1);
    }
}

/// The left-to-right scan of a decimal string: the first non-digit wins
/// `InvalidDigit`, a value outgrowing 64 bits wins `Overflow`.
pub open spec fn scan_u64(s: Seq<char>, i: int, acc: nat) -> Result<u64, ParseNumError>
    decreases s.len() - i,
{
    if i < 0 || i > s.len() {
        Err(ParseNumError::InvalidDigit)
    } else if i == s.len() {
        Ok(acc as u64)
    } else if !is_dec_digit(s[i]) {
        Err(ParseNumError::InvalidDigit)
    } else if acc * 10 + crate::hex::hex_digit_val(s[i]) > u64::MAX {
        Err(ParseNumError::Overflow)
    } else {
        scan_u64(s, i + 1, acc * 10 + crate::hex::hex_digit_val(s[i]))
    }
}

/// What parsing a decimal string as a `u64` yields: an optional leading
/// `+`, then at least one digit, as the standard library accepts.
pub open spec fn parse_u64_spec(s: Seq<char>) -> Result<u64, ParseNumError> {
    if s.len() == 0 {
        Err(ParseNumError::Empty)
    } else if s[0] == '+' {
        if s.len() == 1 {
            Err(ParseNumError::InvalidDigit)
        } else {
            scan_u64(s, 1, 0)
        }
    } else {
        scan_u64(s, 0, 0)
    }
}

/// The digit part of a decimal string: everything after an optional
/// leading `+`.
pub open spec fn u64_digits(s: Seq<char>) -> Seq<char> {
    if s.len() > 0 && s[0] == '+' {
        s.skip(1)
    } else {
        s
    }
}

/// Scanning from an offset equals scanning the suffix from its start.
proof fn lemma_scan_shift(s: Seq<char>, start: int, j: int, acc: nat)
    requires
        0 <= start <= s.len(),
        0 <= j,
    ensures
        scan_u64(s, start + j, acc) == scan_u64(s.skip(start), j, acc),
    decreases s.len() - start - j,
{
    let d = s.skip(start);
    assert(d.len() == s.len() - start);
    if start + j > s.len() {
    } else if start + j == s.len() {
    } else {
        assert(d[j] == s[start + j]);
        if is_dec_digit(s[start + j]) && acc * 10 + crate::hex::hex_digit_val(s[start + j])
            <= u64::MAX {
            lemma_scan_shift(s, start, j + 1, acc * 10 + crate::hex::hex_digit_val(s[start + j]));
        }
    }
}

proof fn lemma_scan_u64_ok(s: Seq<char>, i: int, acc: nat)
    requires
        0 <= i <= s.len(),
        all_dec_digits(s.take(i)),
        acc == dec_val(s.take(i)),
        acc <= u64::MAX,
    ensures
        scan_u64(s, i, acc) is Ok <==> (all_dec_digits(s) && dec_val(s) <= u64::MAX),
        scan_u64(s, i, acc) matches Ok(v) ==> v == dec_val(s),
    decreases s.len() - i,
{
    if i == s.len() {
        assert(s.take(i) =~= s);
    } else {
        assert(s.take(i + 1).drop_last() =~= s.take(i));
        assert(s.take(i + 1).last() == s[i]);
        if !is_dec_digit(s[i]) {
        } else if acc * 10 + crate::hex::hex_digit_val(s[i]) > u64::MAX {
            if all_dec_digits(s) {
                lemma_dec_val_prefix_le(s, i + 1);
            }
        } else {
            lemma_scan_u64_ok(s, i + 1, acc * 10 + crate::hex::hex_digit_val(s[i]));
        }
    }
}

/// Success of a parse coincides with a non-empty digit part whose value
/// fits in 64 bits, and the parsed value is that value.
pub proof fn lemma_parse_u64_spec_ok(s: Seq<char>)
    ensures
        parse_u64_spec(s) is Ok <==> (u64_digits(s).len() > 0 && all_dec_digits(u64_digits(s))
            && dec_val(u64_digits(s)) <= u64::MAX),
        parse_u64_spec(s) matches Ok(v) ==> v == dec_val(u64_digits(s)),
{
    if s.len() == 0 {
    } else if s[0] == '+' {
        let d = s.skip(1);
        if s.len() == 1 {
            assert(d.len() == 0);
        } else {
            lemma_scan_shift(s, 1, 0, 0);
            assert(d.take(0) =~= Seq::<char>::empty());
            lemma_scan_u64_ok(d, 0, 0);
        }
    } else {
        assert(u64_digits(s) == s);
        assert(s.take(0) =~= Seq::<char>::empty());
        lemma_scan_u64_ok(s, 0, 0);
    }
}

/// Parses a decimal string as a `u64`, scanning left to right as the
/// standard library does: an optional leading `+`, then digits.
pub fn parse_u64(s: &str) -> (r: Result<u64, ParseNumError>)
    ensures
        r == parse_u64_spec(s@),
        r is Ok <==> (u64_digits(s@).len() > 0 && all_dec_digits(u64_digits(s@)) && dec_val(
            u64_digits(s@),
        ) <= u64::MAX),
        r matches Ok(v) ==> v == dec_val(u64_digits(s@)),
{
    proof {
        lemma_parse_u64_spec_ok(s@);
    }
    let len = s.unicode_len();
    if len == 0 {
        return Err(ParseNumError::Empty);
    }
    let start: usize = if s.get_char(0) == '+' {
        1
    } else {
        0
    };
    if start == 1 && len == 1 {
        return Err(ParseNumError::InvalidDigit);
    }
    let mut val: u64 = 0;
    let mut i: usize = start;
    proof {
        assert(s@.subrange(start as int, start as int) =~= Seq::<char>::empty());
        if start == 1 {
            lemma_scan_shift(s@, 1, 0, 0);
            assert(s@.skip(1) =~= u64_digits(s@));
        }
    }
    while i < len
        invariant
            start <= 1,
            start <= i <= len,
            len == s@.len(),
            len > start,
            all_dec_digits(s@.subrange(start as int, i as int)),
            val == dec_val(s@.subrange(start as int, i as int)),
            scan_u64(s@, i as int, val as nat) == parse_u64_spec(s@),
        decreases len - i,
    {
        let c = s.get_char(i);
        let u = c as u32;
        if !(48 <= u && u <= 57) {
            proof {
                assert(!is_dec_digit(s@[i as int]));
                lemma_parse_u64_spec_ok(s@);
            }
            return Err(ParseNumError::InvalidDigit);
        }
        let d: u64 = (u - 48) as u64;
        let next: u128 = (val as u128) * 10 + (d as u128);
        proof {
            assert(s@.subrange(start as int, i as int + 1).drop_last() =~= s@.subrange(
                start as int,
                i as int,
            ));
            assert(s@.subrange(start as int, i as int + 1).last() == s@[i as int]);
            assert(crate::hex::hex_digit_val(s@[i as int]) == d as nat);
        }
        if next > u64::MAX as u128 {
            proof {
                assert(scan_u64(s@, i as int, val as nat) matches Err(ParseNumError::Overflow));
                lemma_parse_u64_spec_ok(s@);
            }
            return Err(ParseNumError::Overflow);
        }
        val = next as u64;
        i += 1;
    }
    proof {
        assert(s@.subrange(start as int, len as int) =~= u64_digits(s@));
        lemma_parse_u64_spec_ok(s@);
    }
    Ok(val)
}

/// Interprets an environment variable's value, handed in by the caller, as
/// a `u64`.  `None` stands for an unset variable.
pub fn get_var(name: &str, value: Option<&str>) -> (r: Result<u64, CommonError>)
    ensures
        value is None ==> (r matches Err(CommonError::EnvVarNotSet(n)) && n@ == name@),
        value matches Some(v) ==> ((u64_digits(v@).len() > 0 && all_dec_digits(u64_digits(v@))
            && dec_val(u64_digits(v@)) <= u64::MAX) ==> (r matches Ok(x) && x == dec_val(
            u64_digits(v@),
        ))),
        value matches Some(v) ==> (!(u64_digits(v@).len() > 0 && all_dec_digits(
            u64_digits(v@),
        ) && dec_val(u64_digits(v@)) <= u64::MAX) ==> (r matches Err(CommonError::ParseError(
            n,
            m,
        )) && n@ == name@ && (parse_u64_spec(v@) matches Err(k) && m@ == parse_msg(k)))),
{
    match value {
        None => Err(CommonError::EnvVarNotSet(name.to_owned())),
        Some(v) => match parse_u64(v) {
            Ok(x) => Ok(x),
            Err(e) => Err(CommonError::ParseError(name.to_owned(), e.message())),
        },
    }
}

} // verus!
