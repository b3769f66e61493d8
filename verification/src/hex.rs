//! Hex-string forms of node hashes and the `U256` validity check.
//!
//! A node hash is a lowercase `0x`-prefixed hex string of a Starknet field
//! element; a root must additionally pass the `U256` check (`0x` prefix, at
//! most 64 hex digits).

use vstd::prelude::*;

use crate::errors::AccumulatorError;
use vstd::string::StrSliceExecFns;
use vstd::string::StringExecFns;

verus! {

/// A decimal digit `'0'..='9'`.
pub open spec fn is_dec_digit(c: char) -> bool {
    48 <= c as u32 <= 57
}

/// A lowercase hex digit `'0'..='9' | 'a'..='f'`.
pub open spec fn is_lower_hex_digit(c: char) -> bool {
    is_dec_digit(c) || (97 <= c as u32 <= 102)
}

/// A hex digit of either case.
pub open spec fn is_hex_digit(c: char) -> bool {
    is_lower_hex_digit(c) || (65 <= c as u32 <= 70)
}

/// The numeric value of a hex digit.
pub open spec fn hex_digit_val(c: char) -> nat {
    if is_dec_digit(c) {
        (c as u32 - 48) as nat
    } else if 97 <= c as u32 <= 102 {
        (c as u32 - 87) as nat
    } else if 65 <= c as u32 <= 70 {
        (c as u32 - 55) as nat
    } else {
        0
    }
}

/// The lowercase hex digit for a value below 16.
pub open spec fn hex_char(d: nat) -> char {
    if d == 0 { '0' }
    else if d == 1 { '1' }
    else if d == 2 { '2' }
    else if d == 3 { '3' }
    else if d == 4 { '4' }
    else if d == 5 { '5' }
    else if d == 6 { '6' }
    else if d == 7 { '7' }
    else if d == 8 { '8' }
    else if d == 9 { '9' }
    else if d == 10 { 'a' }
    else if d == 11 { 'b' }
    else if d == 12 { 'c' }
    else if d == 13 { 'd' }
    else if d == 14 { 'e' }
    else { 'f' }
}

/// A well-formed node hash: `0x` followed by 1 to 64 lowercase hex digits.
pub open spec fn is_elem_hex(s: Seq<char>) -> bool {
    &&& 3 <= s.len() <= 66
    &&& s[0] == '0'
    &&& s[1] == 'x'
    &&& forall|i: int| 2 <= i < s.len() ==> is_lower_hex_digit(#[trigger] s[i])
}

/// A valid `U256` hex string: `0x` followed by at most 64 hex digits of
/// either case.
pub open spec fn is_u256_hex(s: Seq<char>) -> bool {
    &&& 2 <= s.len() <= 66
    &&& s[0] == '0'
    &&& s[1] == 'x'
    &&& forall|i: int| 2 <= i < s.len() ==> is_hex_digit(#[trigger] s[i])
}

/// Every well-formed node hash passes the `U256` check.
pub proof fn lemma_elem_hex_is_u256_hex(s: Seq<char>)
    requires
        is_elem_hex(s),
    ensures
        is_u256_hex(s),
{
}

/// The hex digits of `n`, most significant first, empty for zero.
pub open spec fn hex_digits_of(n: nat) -> Seq<char>
    decreases n,
{
    if n == 0 {
        Seq::empty()
    } else {
        hex_digits_of(n / 16).push(hex_char(n % 16))
    }
}

/// The canonical hex form of `n`: `0x` plus minimal lowercase digits.
pub open spec fn u64_hex(n: nat) -> Seq<char> {
    if n == 0 {
        seq!['0', 'x', '0']
    } else {
        seq!['0', 'x'] + hex_digits_of(n)
    }
}

proof fn lemma_hex_digits_of_len(n: nat, k: nat)
    requires
        n < pow16(k),
    ensures
        hex_digits_of(n).len() <= k,
    decreases k,
{
    if n == 0 {
    } else {
        assert(k > 0);
        assert(n / 16 < pow16((k - 1) as nat)) by (nonlinear_arith)
            requires
                n < 16 * pow16((k - 1) as nat),
        ;
        lemma_hex_digits_of_len(n / 16, (k - 1) as nat);
    }
}

/// Sixteen to the `k`.
pub open spec fn pow16(k: nat) -> nat
    decreases k,
{
    if k == 0 {
        1
    } else {
        16 * pow16((k - 1) as nat)
    }
}

proof fn lemma_hex_digits_are_lower(n: nat)
    ensures
        forall|i: int|
            0 <= i < hex_digits_of(n).len() ==> is_lower_hex_digit(
                #[trigger] hex_digits_of(n)[i],
            ),
    decreases n,
{
    if n > 0 {
        lemma_hex_digits_are_lower(n / 16);
        assert(is_lower_hex_digit(hex_char(n % 16)));
        assert(hex_digits_of(n) == hex_digits_of(n / 16).push(hex_char(n % 16)));
        assert forall|i: int| 0 <= i < hex_digits_of(n).len() implies is_lower_hex_digit(
            hex_digits_of(n)[i],
        ) by {
            if i < hex_digits_of(n / 16).len() {
                assert(hex_digits_of(n)[i] == hex_digits_of(n / 16)[i]);
            } else {
                assert(hex_digits_of(n)[i] == hex_char(n % 16));
            }
        }
    }
}

/// The canonical hex form of a `u64` is a well-formed node hash.
pub proof fn lemma_u64_hex_is_elem(n: nat)
    requires
        n < 0x1_0000_0000_0000_0000,
    ensures
        is_elem_hex(u64_hex(n)),
{
    if n > 0 {
        assert(pow16(16) == 0x1_0000_0000_0000_0000) by {
            reveal_with_fuel(pow16, 17);
        }
        lemma_hex_digits_of_len(n, 16);
        lemma_hex_digits_are_lower(n);
        assert(hex_digits_of(n).len() > 0);
    }
}

/// Whether `c` is a hex digit of either case.
pub fn hex_digit_check(c: char) -> (b: bool)
    ensures
        b == is_hex_digit(c),
{
    let u = c as u32;
    (48 <= u && u <= 57) || (97 <= u && u <= 102) || (65 <= u && u <= 70)
}

/// Whether `c` is a lowercase hex digit.
pub fn lower_hex_digit_check(c: char) -> (b: bool)
    ensures
        b == is_lower_hex_digit(c),
{
    let u = c as u32;
    (48 <= u && u <= 57) || (97 <= u && u <= 102)
}

/// Validates that a hex string represents a valid `U256`: a `0x` prefix and
/// at most 64 hex digits.
pub fn validate_u256_hex(hex_str: &str) -> (r: Result<(), AccumulatorError>)
    ensures
        r is Ok <==> is_u256_hex(hex_str@),
        r matches Err(e) ==> (e matches AccumulatorError::InvalidU256Hex(s) && s@ == hex_str@),
{
    let len = hex_str.unicode_len();
    if len < 2 || len > 66 {
        return Err(AccumulatorError::InvalidU256Hex(hex_str.to_owned()));
    }
    if hex_str.get_char(0) != '0' || hex_str.get_char(1) != 'x' {
        return Err(AccumulatorError::InvalidU256Hex(hex_str.to_owned()));
    }
    let mut i: usize = 2;
    while i < len
        invariant
            2 <= i <= len,
            len == hex_str@.len(),
            forall|j: int| 2 <= j < i ==> is_hex_digit(#[trigger] hex_str@[j]),
        decreases len - i,
    {
        if !hex_digit_check(hex_str.get_char(i)) {
            return Err(AccumulatorError::InvalidU256Hex(hex_str.to_owned()));
        }
        i += 1;
    }
    Ok(())
}

/// Whether a string is a well-formed node hash (`0x` plus 1 to 64 lowercase
/// hex digits).
pub fn check_elem_hex(s: &str) -> (b: bool)
    ensures
        b == is_elem_hex(s@),
{
    let len = s.unicode_len();
    if len < 3 || len > 66 {
        return false;
    }
    if s.get_char(0) != '0' || s.get_char(1) != 'x' {
        return false;
    }
    let mut i: usize = 2;
    while i < len
        invariant
            2 <= i <= len,
            len == s@.len(),
            forall|j: int| 2 <= j < i ==> is_lower_hex_digit(#[trigger] s@[j]),
        decreases len - i,
    {
        if !lower_hex_digit_check(s.get_char(i)) {
            return false;
        }
        i += 1;
    }
    true
}

/// Appends the lowercase hex digit of value `d` to `s`.
pub fn push_hex_digit(s: &mut String, d: u64)
    requires
        d < 16,
    ensures
        final(s)@ == old(s)@ + seq![hex_char(d as nat)],
{
    proof {
        reveal_strlit("0");
        reveal_strlit("1");
        reveal_strlit("2");
        reveal_strlit("3");
        reveal_strlit("4");
        reveal_strlit("5");
        reveal_strlit("6");
        reveal_strlit("7");
        reveal_strlit("8");
        reveal_strlit("9");
        reveal_strlit("a");
        reveal_strlit("b");
        reveal_strlit("c");
        reveal_strlit("d");
        reveal_strlit("e");
        reveal_strlit("f");
    }
    if d == 0 { s.append("0"); }
    else if d == 1 { s.append("1"); }
    else if d == 2 { s.append("2"); }
    else if d == 3 { s.append("3"); }
    else if d == 4 { s.append("4"); }
    else if d == 5 { s.append("5"); }
    else if d == 6 { s.append("6"); }
    else if d == 7 { s.append("7"); }
    else if d == 8 { s.append("8"); }
    else if d == 9 { s.append("9"); }
    else if d == 10 { s.append("a"); }
    else if d == 11 { s.append("b"); }
    else if d == 12 { s.append("c"); }
    else if d == 13 { s.append("d"); }
    else if d == 14 { s.append("e"); }
    else { s.append("f"); }
    proof {
        assert(s@ =~= old(s)@ + seq![hex_char(d as nat)]);
    }
}

/// The digits drawn so far, least significant first, read back most
/// significant first.
spec fn rev_digits(s: Seq<u64>) -> Seq<char>
    decreases s.len(),
{
    if s.len() == 0 {
        Seq::empty()
    } else {
        seq![hex_char(s.last() as nat)] + rev_digits(s.drop_last())
    }
}

/// Renders `n` as its canonical hex string, `0x` plus minimal lowercase
/// digits.
pub fn u64_to_hex(n: u64) -> (r: String)
    ensures
        r@ == u64_hex(n as nat),
        is_elem_hex(r@),
{
    proof {
        lemma_u64_hex_is_elem(n as nat);
    }
    if n == 0 {
        let r = String::from_str("0x0");
        proof {
            reveal_strlit("0x0");
            assert(r@ =~= u64_hex(0));
        }
        return r;
    }
    let mut digits: Vec<u64> = Vec::new();
    let mut m: u64 = n;
    while m > 0
        invariant
            hex_digits_of(n as nat) =~= hex_digits_of(m as nat) + rev_digits(digits@),
            forall|j: int| 0 <= j < digits@.len() ==> #[trigger] digits@[j] < 16,
        decreases m,
    {
        let d: u64 = m % 16;
        let ghost m0 = m as nat;
        let ghost old_digits = digits@;
        digits.push(d);
        m = m / 16;
        proof {
            assert(digits@.last() == d);
            assert(digits@.drop_last() =~= old_digits);
            assert(rev_digits(digits@) =~= seq![hex_char(d as nat)] + rev_digits(old_digits));
            assert(m0 != 0 && m0 / 16 == m as nat && m0 % 16 == d as nat);
            assert(hex_digits_of(m0) =~= hex_digits_of(m as nat).push(hex_char(d as nat)));
            assert(hex_digits_of(m as nat) + rev_digits(digits@) =~= hex_digits_of(m0)
                + rev_digits(old_digits));
        }
    }
    let mut s = String::from_str("0x");
    proof {
        reveal_strlit("0x");
        assert(s@ =~= seq!['0', 'x']);
    }
    let mut i: usize = digits.len();
    proof {
        assert(digits@.take(i as int) =~= digits@);
    }
    while i > 0
        invariant
            i <= digits@.len(),
            forall|j: int| 0 <= j < digits@.len() ==> #[trigger] digits@[j] < 16,
            s@ + rev_digits(digits@.take(i as int)) =~= seq!['0', 'x'] + rev_digits(digits@),
        decreases i,
    {
        i = i - 1;
        let ghost pre = s@;
        push_hex_digit(&mut s, digits[i]);
        proof {
            let t = digits@.take(i as int + 1);
            assert(t.last() == digits@[i as int]);
            assert(t.drop_last() =~= digits@.take(i as int));
            assert(rev_digits(t) =~= seq![hex_char(digits@[i as int] as nat)] + rev_digits(
                digits@.take(i as int),
            ));
            assert(s@ + rev_digits(digits@.take(i as int)) =~= (pre + rev_digits(t)));
        }
    }
    proof {
        assert(digits@.take(0) =~= Seq::<u64>::empty());
        assert(s@ =~= seq!['0', 'x'] + rev_digits(digits@));
        assert(s@ =~= u64_hex(n as nat));
    }
    s
}

} // verus!
