//! Byte/string helpers shared across the crate: slice equality, UTF-8
//! conversions, and decimal digits appended to strings.

use vstd::prelude::*;
use vstd::utf8::{decode_utf8, encode_utf8, valid_utf8};
use crate::num::{dec_rep, dec_rep_i64};

verus! {

/// Byte-for-byte equality of two slices.
pub fn bytes_eq(a: &[u8], b: &[u8]) -> (r: bool)
    ensures
        r == (a@ == b@),
{
    if a.len() != b.len() {
        proof {
            assert(a@ !~= b@);
        }
        return false;
    }
    let mut i: usize = 0;
    while i < a.len()
        invariant
            i <= a@.len(),
            a@.len() == b@.len(),
            forall|j: int| 0 <= j < i ==> a@[j] == b@[j],
        decreases a@.len() - i,
    {
        if a[i] != b[i] {
            return false;
        }
        i = i + 1;
    }
    proof {
        assert(a@ =~= b@);
    }
    true
}

/// Relies on String::from_utf8: succeeds exactly on valid UTF-8 and returns
/// the decoded character sequence.
#[verifier::external_body]
pub fn bytes_to_string(v: &Vec<u8>) -> (r: Option<String>)
    ensures
        r is Some <==> valid_utf8(v@),
        r matches Some(s) ==> s@ == decode_utf8(v@),
{
    match String::from_utf8(v.clone()) {
        Ok(s) => Some(s),
        Err(_) => None,
    }
}

/// Relies on str::from_utf8: succeeds exactly on valid UTF-8 and yields the
/// decoded character sequence.
#[verifier::external_body]
pub fn bytes_as_str(v: &[u8]) -> (r: Option<&str>)
    ensures
        r is Some <==> valid_utf8(v@),
        r matches Some(s) ==> s@ == decode_utf8(v@),
{
    match core::str::from_utf8(v) {
        Ok(s) => Some(s),
        Err(_) => None,
    }
}

/// Relies on str::len: the length of a string slice in bytes.
#[verifier::external_body]
pub fn str_byte_len(s: &str) -> (n: usize)
    ensures
        n == encode_utf8(s@).len(),
{
    s.len()
}

/// Relies on String::push: appends one character.
#[verifier::external_body]
pub fn push_char(s: &mut String, c: char)
    ensures
        final(s)@ == old(s)@.push(c),
{
    s.push(c);
}

/// The decimal numeral of `n` as characters.
pub open spec fn dec_chars(n: nat) -> Seq<char> {
    dec_rep(n).map_values(|b: u8| b as char)
}

/// The decimal numeral of a signed integer as characters.
pub open spec fn dec_chars_i64(i: int) -> Seq<char> {
    dec_rep_i64(i).map_values(|b: u8| b as char)
}

/// Appends the decimal numeral of `n` to `s`.
pub fn push_u64_dec(s: &mut String, n: u64)
    ensures
        final(s)@ == old(s)@ + dec_chars(n as nat),
{
    let digits = crate::num::u64_to_dec(n);
    let mut i: usize = 0;
    while i < digits.len()
        invariant
            i <= digits@.len(),
            digits@ == dec_rep(n as nat),
            s@ =~= old(s)@ + dec_chars(n as nat).take(i as int),
        decreases digits@.len() - i,
    {
        let b = digits[i];
        push_char(s, b as char);
        i = i + 1;
        proof {
            assert(s@ =~= old(s)@ + dec_chars(n as nat).take(i as int));
        }
    }
    proof {
        assert(dec_chars(n as nat).take(dec_chars(n as nat).len() as int) =~= dec_chars(
            n as nat,
        ));
    }
}

/// Appends the decimal numeral of the signed integer `i` to `s`.
pub fn push_i64_dec(s: &mut String, n: i64)
    ensures
        final(s)@ == old(s)@ + dec_chars_i64(n as int),
{
    let digits = crate::num::i64_to_dec(n);
    let mut i: usize = 0;
    while i < digits.len()
        invariant
            i <= digits@.len(),
            digits@ == dec_rep_i64(n as int),
            s@ =~= old(s)@ + dec_chars_i64(n as int).take(i as int),
        decreases digits@.len() - i,
    {
        let b = digits[i];
        push_char(s, b as char);
        i = i + 1;
        proof {
            assert(s@ =~= old(s)@ + dec_chars_i64(n as int).take(i as int));
        }
    }
    proof {
        assert(dec_chars_i64(n as int).take(dec_chars_i64(n as int).len() as int)
            =~= dec_chars_i64(n as int));
    }
}

} // verus!
