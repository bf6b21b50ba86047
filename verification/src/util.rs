//! Lexical checks on argument tokens.

use vstd::prelude::*;
use vstd::string::StringSliceAdditionalSpecFns;
use vstd::utf8::encode_utf8;
use crate::num::{all_digits, is_digit, parse_i64};
use crate::utils::{find_byte, find_byte_exec};

verus! {

/// A token that lexes as a number: an optional leading minus, a nonempty
/// run of digits, and at most one decimal point followed by a nonempty run
/// of digits.
pub open spec fn spec_is_numeric(b: Seq<u8>) -> bool {
    &&& b.len() > 0
    &&& (is_digit(b[0]) || b[0] == 45)
    &&& num_body(
        if b[0] == 45 {
            b.drop_first()
        } else {
            b
        },
    )
}

pub open spec fn num_body(d: Seq<u8>) -> bool {
    let k = find_byte(d, 46);
    if k == d.len() {
        d.len() > 0 && all_digits(d)
    } else {
        k >= 1 && all_digits(d.take(k)) && d.skip(k + 1).len() >= 1 && all_digits(d.skip(k + 1))
    }
}

/// Whether every byte is an ASCII digit.
pub fn all_digits_exec(s: &[u8]) -> (r: bool)
    ensures
        r == all_digits(s@),
{
    let mut i: usize = 0;
    while i < s.len()
        invariant
            i <= s@.len(),
            forall|j: int| 0 <= j < i ==> is_digit(#[trigger] s@[j]),
        decreases s@.len() - i,
    {
        if s[i] < 48 || s[i] > 57 {
            return false;
        }
        i = i + 1;
    }
    true
}

/// Whether the token lexes as a number (an integer or a decimal fraction).
pub fn is_numeric(num_str: &String) -> (r: bool)
    ensures
        r == spec_is_numeric(encode_utf8(num_str@)),
{
    let b = num_str.as_str().as_bytes();
    let ghost bs = encode_utf8(num_str@);
    if b.len() == 0 {
        return false;
    }
    if !(b[0] == 45 || (48 <= b[0] && b[0] <= 57)) {
        return false;
    }
    let start: usize = if b[0] == 45 {
        1
    } else {
        0
    };
    let d = vstd::slice::slice_subrange(b, start, b.len());
    proof {
        if bs[0] == 45 {
            assert(d@ =~= bs.drop_first());
        } else {
            assert(d@ =~= bs);
        }
    }
    let k = find_byte_exec(d, 46);
    if k == d.len() {
        if d.len() == 0 {
            return false;
        }
        all_digits_exec(d)
    } else {
        if k == 0 {
            return false;
        }
        if k + 1 == d.len() {
            return false;
        }
        let whole = vstd::slice::slice_subrange(d, 0, k);
        let frac = vstd::slice::slice_subrange(d, k + 1, d.len());
        proof {
            assert(whole@ =~= d@.take(k as int));
            assert(frac@ =~= d@.skip(k + 1));
        }
        all_digits_exec(whole) && all_digits_exec(frac)
    }
}

/// A token that lexes as a 64-bit integer: at most 20 characters, a digit
/// or minus first, and within the i64 range.
pub open spec fn spec_is_integer(b: Seq<u8>) -> bool {
    &&& b.len() > 0
    &&& b.len() <= 20
    &&& (is_digit(b[0]) || b[0] == 45)
    &&& parse_i64(b) is Some
}

pub fn is_integer(num_str: &String) -> (r: bool)
    ensures
        r == spec_is_integer(encode_utf8(num_str@)),
{
    let b = num_str.as_str().as_bytes();
    if b.len() == 0 || b.len() > 20 {
        return false;
    }
    if !(b[0] == 45 || (48 <= b[0] && b[0] <= 57)) {
        return false;
    }
    match crate::num::parse_i64_bytes(b) {
        Some(_) => true,
        None => false,
    }
}

/// A decimal token read at a scale of ten-millionths: the exact value of
/// the literal times ten to the seventh, truncating fraction digits past
/// the seventh. Nothing when the token does not lex as a number or the
/// scaled value leaves the i64 range.
pub open spec fn spec_scaled_e7(b: Seq<u8>) -> Option<i64> {
    if !spec_is_numeric(b) {
        None
    } else {
        let neg = b[0] == 45;
        let d = if neg {
            b.drop_first()
        } else {
            b
        };
        let k = find_byte(d, 46);
        let whole = if k == d.len() {
            d
        } else {
            d.take(k)
        };
        let frac = if k == d.len() {
            Seq::<u8>::empty()
        } else {
            d.skip(k + 1)
        };
        let fv = frac_e7_val(frac);
        let mag = crate::num::dec_val(whole) * 10000000 + fv;
        let v: int = if neg {
            -(mag as int)
        } else {
            mag as int
        };
        if i64::MIN <= v <= i64::MAX {
            Some(v as i64)
        } else {
            None
        }
    }
}

/// The value of a fraction's first seven digits, scaled to ten-millionths.
pub open spec fn frac_e7_val(frac: Seq<u8>) -> nat {
    if frac.len() >= 7 {
        crate::num::dec_val(frac.take(7))
    } else {
        (crate::num::dec_val(frac) * crate::num::pow10((7 - frac.len()) as nat)) as nat
    }
}

/// Reads a decimal token at a scale of ten-millionths.
pub fn parse_scaled_e7(s: &String) -> (r: Option<i64>)
    ensures
        r == spec_scaled_e7(encode_utf8(s@)),
{
    if !is_numeric(s) {
        return None;
    }
    let b = s.as_str().as_bytes();
    let ghost bs = encode_utf8(s@);
    let neg = b[0] == 45;
    let start: usize = if neg {
        1
    } else {
        0
    };
    let d = vstd::slice::slice_subrange(b, start, b.len());
    proof {
        if bs[0] == 45 {
            assert(d@ =~= bs.drop_first());
        } else {
            assert(d@ =~= bs);
        }
    }
    let k = find_byte_exec(d, 46);
    let whole = vstd::slice::slice_subrange(d, 0, k);
    proof {
        if k == d@.len() {
            assert(whole@ =~= d@);
        } else {
            assert(whole@ =~= d@.take(k as int));
        }
    }
    proof {
        let dd = d@;
        let kk = find_byte(dd, 46);
        if kk == dd.len() {
            assert(all_digits(whole@));
        } else {
            assert(all_digits(whole@));
        }
    }
    // the whole part, capped just past the largest scaled value
    let mut acc: u128 = 0;
    let mut i: usize = 0;
    let cap: u128 = 922337203686u128;
    while i < whole.len()
        invariant
            i <= whole@.len(),
            all_digits(whole@),
            acc == crate::num::dec_val(whole@.take(i as int)),
            cap == 922337203686u128,
            acc <= cap,
            spec_scaled_e7(bs) == spec_scaled_e7(bs),
            bs == encode_utf8(s@),
            spec_is_numeric(bs),
            bs.len() > 0,
            neg == (bs[0] == 45),
            d@ == (if bs[0] == 45 {
                bs.drop_first()
            } else {
                bs
            }),
            whole@ == (if find_byte(d@, 46) == d@.len() {
                d@
            } else {
                d@.take(find_byte(d@, 46))
            }),
        decreases whole@.len() - i,
    {
        let by = whole[i];
        if by < 48 || by > 57 {
            proof {
                assert(whole@[i as int] == by);
                assert(false);
            }
            return None;
        }
        let ghost pre = whole@.take(i as int);
        acc = acc * 10 + (by - 48) as u128;
        i = i + 1;
        proof {
            assert(whole@.take(i as int).drop_last() =~= pre);
        }
        if acc > cap {
            proof {
                crate::num::lemma_dec_val_prefix_le(whole@, i as int, whole@.len() as int);
                assert(whole@.take(whole@.len() as int) =~= whole@);
                assert(crate::num::dec_val(whole@) >= acc);
            }
            return None;
        }
    }
    proof {
        assert(whole@.take(whole@.len() as int) =~= whole@);
    }
    // the fraction's first seven digits, padded with zeros
    let mut fv: u128 = 0;
    let ghost frac = if k == d@.len() {
        Seq::<u8>::empty()
    } else {
        d@.skip(k + 1)
    };
    if k < d.len() {
        let fr = vstd::slice::slice_subrange(d, k + 1, d.len());
        proof {
            assert(fr@ =~= frac);
        }
        let upto = if fr.len() < 7 {
            fr.len()
        } else {
            7
        };
        let ghost f7 = if frac.len() >= 7 {
            frac.take(7)
        } else {
            frac
        };
        proof {
            if frac.len() >= 7 {
                assert(f7 =~= frac.take(7));
            } else {
                assert(f7 =~= frac.take(frac.len() as int));
                assert(frac.take(frac.len() as int) =~= frac);
            }
        }
        proof {
            assert(all_digits(frac));
            assert(all_digits(f7)) by {
                assert(forall|x: int| 0 <= x < f7.len() ==> #[trigger] f7[x] == frac[x]);
            }
            assert(f7.len() == upto);
        }
        let mut j: usize = 0;
        while j < upto
            invariant
                j <= upto <= 7,
                upto <= fr@.len(),
                fr@ == frac,
                all_digits(f7),
                f7.len() == upto,
                forall|x: int| 0 <= x < f7.len() ==> #[trigger] f7[x] == frac[x],
                fv == crate::num::dec_val(f7.take(j as int)),
                fv < crate::num::pow10(j as nat),
            decreases upto - j,
        {
            let by = fr[j];
            proof {
                assert(f7[j as int] == frac[j as int]);
                assert(frac[j as int] == fr@[j as int]);
            }
            if by < 48 || by > 57 {
                proof {
                    assert(false);
                }
                return None;
            }
            let ghost pre = f7.take(j as int);
            proof {
                assert(f7.take(j + 1).drop_last() =~= pre);
                assert(all_digits(f7.take(j + 1))) by {
                    assert(forall|x: int|
                        0 <= x < j + 1 ==> #[trigger] f7.take(j + 1)[x] == f7[x]);
                }
                crate::num::lemma_dec_val_bound(f7.take(j + 1));
                crate::num::lemma_pow10_le(j as nat, 6);
                assert(crate::num::pow10(6) == 1000000) by {
                    reveal_with_fuel(crate::num::pow10, 7);
                }
            }
            fv = fv * 10 + (by - 48) as u128;
            j = j + 1;
        }
        proof {
            assert(f7.take(upto as int) =~= f7);
        }
        // pad the short fraction with zeros
        let mut pad: usize = upto;
        while pad < 7
            invariant
                upto <= pad <= 7,
                fv == crate::num::dec_val(f7) * crate::num::pow10((pad - upto) as nat),
                fv < crate::num::pow10(pad as nat),
                all_digits(f7),
                f7.len() == upto,
            decreases 7 - pad,
        {
            proof {
                let e = (pad - upto) as nat;
                assert(crate::num::pow10((e + 1) as nat) == 10 * crate::num::pow10(e));
                assert(crate::num::dec_val(f7) * (10 * crate::num::pow10(e)) == (
                crate::num::dec_val(f7) * crate::num::pow10(e)) * 10) by (nonlinear_arith);
                assert(crate::num::pow10((pad + 1) as nat) == 10 * crate::num::pow10(pad as nat));
                crate::num::lemma_pow10_le(pad as nat, 6);
                assert(crate::num::pow10(6) == 1000000) by {
                    reveal_with_fuel(crate::num::pow10, 7);
                }
            }
            fv = fv * 10;
            pad = pad + 1;
        }
        proof {
            crate::num::lemma_pow10_le(7, 7);
            assert(crate::num::pow10(7) == 10000000) by {
                reveal_with_fuel(crate::num::pow10, 8);
            }
            if frac.len() >= 7 {
                assert(pad == upto);
                assert(crate::num::pow10(0) == 1);
                assert(fv == crate::num::dec_val(f7) * 1);
                assert(fv == frac_e7_val(frac));
            } else {
                assert((pad - upto) as nat == (7 - frac.len()) as nat);
                assert(fv == frac_e7_val(frac));
            }
            assert(fv <= 9999999);
        }
    }
    proof {
        if k == d@.len() {
            assert(frac =~= Seq::<u8>::empty());
            assert(crate::num::dec_val(frac) == 0);
            assert(fv == frac_e7_val(frac));
        }
    }
    let mag: u128 = acc * 10000000 + fv;
    if neg {
        if mag > 9223372036854775808u128 {
            return None;
        }
        if mag == 9223372036854775808u128 {
            Some(i64::MIN)
        } else {
            Some(-((mag as u64) as i64))
        }
    } else {
        if mag > 9223372036854775807u128 {
            return None;
        }
        Some((mag as u64) as i64)
    }
}

} // verus!
