//! Decimal numerals over byte sequences: formatting of unsigned and signed
//! integers, parsing with exact success conditions, and the round-trip laws
//! that the frame codec's length and integer fields rest on.

use vstd::prelude::*;

verus! {

/// An ASCII decimal digit.
pub open spec fn is_digit(b: u8) -> bool {
    48 <= b <= 57
}

pub open spec fn all_digits(s: Seq<u8>) -> bool {
    forall|i: int| 0 <= i < s.len() ==> is_digit(#[trigger] s[i])
}

/// The canonical decimal numeral of `n`: no sign, no leading zeros
/// (except for the single digit of zero itself).
pub open spec fn dec_rep(n: nat) -> Seq<u8>
    decreases n,
{
    if n < 10 {
        seq![(48 + n) as u8]
    } else {
        dec_rep(n / 10).push((48 + n % 10) as u8)
    }
}

/// The value of a digit string, most significant digit first.
pub open spec fn dec_val(s: Seq<u8>) -> nat
    decreases s.len(),
{
    if s.len() == 0 {
        0
    } else {
        (dec_val(s.drop_last()) * 10 + (s.last() - 48)) as nat
    }
}

/// The numeral of the signed integer `i`: a minus sign for negatives.
pub open spec fn dec_rep_i64(i: int) -> Seq<u8> {
    if i < 0 {
        seq![45u8] + dec_rep((-i) as nat)
    } else {
        dec_rep(i as nat)
    }
}

/// What `str::parse::<i64>` accepts: an optional sign, then one or more
/// digits, value within the i64 range.
pub open spec fn parse_int(s: Seq<u8>) -> Option<int> {
    let ds = if s.len() > 0 && (s[0] == 43 || s[0] == 45) {
        s.drop_first()
    } else {
        s
    };
    let neg = s.len() > 0 && s[0] == 45;
    if ds.len() == 0 || !all_digits(ds) {
        None
    } else if neg {
        Some(-(dec_val(ds) as int))
    } else {
        Some(dec_val(ds) as int)
    }
}

pub open spec fn parse_i64(s: Seq<u8>) -> Option<i64> {
    match parse_int(s) {
        Some(v) => if i64::MIN <= v <= i64::MAX {
            Some(v as i64)
        } else {
            None
        },
        None => None,
    }
}

pub broadcast proof fn lemma_dec_rep_wf(n: nat)
    ensures
        #![trigger dec_rep(n)]
        dec_rep(n).len() >= 1,
        all_digits(dec_rep(n)),
        n >= 10 ==> dec_rep(n).len() >= 2,
    decreases n,
{
    if n >= 10 {
        lemma_dec_rep_wf(n / 10);
        assert forall|i: int| 0 <= i < dec_rep(n).len() implies is_digit(#[trigger] dec_rep(n)[i]) by {
            if i < dec_rep(n / 10).len() {
                assert(dec_rep(n)[i] == dec_rep(n / 10)[i]);
            }
        }
    }
}

/// Formatting then evaluating a numeral gives the number back.
pub proof fn lemma_dec_val_rep(n: nat)
    ensures
        dec_val(dec_rep(n)) == n,
    decreases n,
{
    if n < 10 {
        let s = dec_rep(n);
        assert(s =~= seq![(48 + n) as u8]);
        assert(s.drop_last() =~= Seq::<u8>::empty());
        assert(dec_val(s.drop_last()) == 0);
        assert(s.last() == (48 + n) as u8);
        assert((48 + n) as u8 == 48 + n);
        assert(dec_val(s) == n);
    } else {
        lemma_dec_val_rep(n / 10);
        let s = dec_rep(n);
        assert(s == dec_rep(n / 10).push((48 + n % 10) as u8));
        assert(s.drop_last() =~= dec_rep(n / 10));
        assert(s.last() == (48 + n % 10) as u8);
        assert((48 + n % 10) as u8 == 48 + n % 10);
        assert(dec_val(s) == (n / 10) * 10 + n % 10);
        assert(n == (n / 10) * 10 + n % 10) by (nonlinear_arith);
    }
}

/// A longer digit prefix never has a smaller value.
pub proof fn lemma_dec_val_prefix_le(s: Seq<u8>, i: int, j: int)
    requires
        0 <= i <= j <= s.len(),
        all_digits(s),
    ensures
        dec_val(s.subrange(0, i)) <= dec_val(s.subrange(0, j)),
    decreases j - i,
{
    if i < j {
        lemma_dec_val_prefix_le(s, i, j - 1);
        let p = s.subrange(0, j);
        assert(p.drop_last() =~= s.subrange(0, j - 1));
        assert(dec_val(s.subrange(0, j - 1)) <= dec_val(p));
    }
}

/// The numeral of a signed integer: digits preceded by a sign for negatives.
pub proof fn lemma_parse_int_rep(i: int)
    requires
        i64::MIN <= i <= i64::MAX,
    ensures
        parse_i64(dec_rep_i64(i)) == Some(i as i64),
{
    broadcast use lemma_dec_rep_wf;

    if i < 0 {
        let m = (-i) as nat;
        let s = seq![45u8] + dec_rep(m);
        assert(s[0] == 45);
        assert(s.drop_first() =~= dec_rep(m));
        lemma_dec_val_rep(m);
    } else {
        let s = dec_rep(i as nat);
        lemma_dec_val_rep(i as nat);
        assert(s[0] != 43 && s[0] != 45);
    }
}

pub open spec fn pow10(k: nat) -> nat
    decreases k,
{
    if k == 0 {
        1
    } else {
        10 * pow10((k - 1) as nat)
    }
}

/// A number below 10^k has at most k digits.
pub proof fn lemma_dec_rep_len_le(n: nat, k: nat)
    requires
        k >= 1,
        n < pow10(k),
    ensures
        dec_rep(n).len() <= k,
    decreases k,
{
    if n >= 10 {
        assert(pow10(k) == 10 * pow10((k - 1) as nat));
        assert(n / 10 < pow10((k - 1) as nat)) by (nonlinear_arith)
            requires
                n < 10 * pow10((k - 1) as nat),
        ;
        assert(k >= 2) by {
            if k == 1 {
                assert(pow10(1nat) == 10);
            }
        }
        lemma_dec_rep_len_le(n / 10, (k - 1) as nat);
    }
}

/// Any number a `u64` can hold has at most 20 digits.
pub proof fn lemma_dec_rep_len_bound(n: nat, k: nat)
    requires
        n <= u64::MAX,
        k == 20,
    ensures
        dec_rep(n).len() <= 20,
{
    assert(pow10(20) == 100000000000000000000) by {
        reveal_with_fuel(pow10, 21);
    }
    lemma_dec_rep_len_le(n, 20);
}

pub proof fn lemma_pow10_le(a: nat, b: nat)
    requires
        a <= b,
    ensures
        pow10(a) <= pow10(b),
        pow10(a) >= 1,
    decreases b,
{
    if b > 0 && a < b {
        lemma_pow10_le(a, (b - 1) as nat);
        assert(pow10(b) == 10 * pow10((b - 1) as nat));
        assert(pow10((b - 1) as nat) <= 10 * pow10((b - 1) as nat)) by (nonlinear_arith)
            requires
                pow10((b - 1) as nat) >= 0,
        ;
    }
    if a == b && b > 0 {
        assert(pow10(b) == 10 * pow10((b - 1) as nat));
        lemma_pow10_le((b - 1) as nat, (b - 1) as nat);
        assert(pow10(b) >= 1) by (nonlinear_arith)
            requires
                pow10((b - 1) as nat) >= 1,
        ;
    }
}

/// A digit string's value stays below ten to its length.
pub proof fn lemma_dec_val_bound(s: Seq<u8>)
    requires
        all_digits(s),
    ensures
        dec_val(s) < pow10(s.len()),
    decreases s.len(),
{
    if s.len() == 0 {
    } else {
        assert(all_digits(s.drop_last())) by {
            assert(forall|i: int|
                0 <= i < s.drop_last().len() ==> #[trigger] s.drop_last()[i] == s[i]);
        }
        lemma_dec_val_bound(s.drop_last());
        assert(pow10(s.len()) == 10 * pow10((s.len() - 1) as nat));
        assert(s.last() - 48 <= 9);
    }
}

/// Formats `n` as its decimal numeral.
pub fn u64_to_dec(n: u64) -> (r: Vec<u8>)
    ensures
        r@ == dec_rep(n as nat),
{
    broadcast use lemma_dec_rep_wf;

    let mut rev: Vec<u8> = Vec::new();
    let mut m: u64 = n;
    loop
        invariant_except_break
            rev@.len() == 0 ==> m == n,
            rev@.len() > 0 ==> m > 0 && dec_rep(n as nat) =~= dec_rep(m as nat) + rev@.reverse(),
        ensures
            rev@.len() >= 1,
            dec_rep(n as nat) =~= rev@.reverse(),
        decreases m,
    {
        let ghost old_rev = rev@;
        let ghost old_m = m;
        let d: u8 = (m % 10) as u8 + 48;
        rev.push(d);
        proof {
            assert(rev@.reverse() =~= seq![d] + old_rev.reverse());
            if m >= 10 {
                assert(dec_rep(m as nat) == dec_rep((m / 10) as nat).push(d));
                assert(dec_rep((m / 10) as nat) + rev@.reverse() =~= dec_rep(m as nat)
                    + old_rev.reverse());
            } else {
                assert(dec_rep(m as nat) =~= seq![d]);
                assert(rev@.reverse() =~= dec_rep(m as nat) + old_rev.reverse());
            }
            if old_rev.len() == 0 {
                assert(old_rev.reverse() =~= Seq::<u8>::empty());
                assert(dec_rep(m as nat) + old_rev.reverse() =~= dec_rep(n as nat));
            }
        }
        m = m / 10;
        if m == 0 {
            proof {
                assert(dec_rep(n as nat) =~= dec_rep(old_m as nat) + old_rev.reverse());
                assert(old_m < 10);
                assert(dec_rep(n as nat) =~= rev@.reverse());
            }
            break;
        }
        proof {
            assert(old_m >= 10);
            assert(dec_rep(n as nat) =~= dec_rep(m as nat) + rev@.reverse());
        }
    }
    let mut out: Vec<u8> = Vec::new();
    let mut i: usize = rev.len();
    while i > 0
        invariant
            i <= rev@.len(),
            out@ =~= rev@.reverse().take(rev@.len() - i),
        decreases i,
    {
        i = i - 1;
        out.push(rev[i]);
        proof {
            assert(out@ =~= rev@.reverse().take(rev@.len() - i));
        }
    }
    proof {
        assert(out@ =~= rev@.reverse());
    }
    out
}

/// Formats a signed integer, minus sign first for negatives.
pub fn i64_to_dec(i: i64) -> (r: Vec<u8>)
    ensures
        r@ == dec_rep_i64(i as int),
{
    if i >= 0 {
        u64_to_dec(i as u64)
    } else {
        let m: u64 = if i == i64::MIN {
            9223372036854775808u64
        } else {
            (-i) as u64
        };
        let digits = u64_to_dec(m);
        let mut out: Vec<u8> = Vec::new();
        out.push(45);
        let mut k: usize = 0;
        while k < digits.len()
            invariant
                k <= digits@.len(),
                out@ =~= seq![45u8] + digits@.take(k as int),
            decreases digits@.len() - k,
        {
            out.push(digits[k]);
            k = k + 1;
            proof {
                assert(out@ =~= seq![45u8] + digits@.take(k as int));
            }
        }
        proof {
            assert(digits@.take(digits@.len() as int) =~= digits@);
            assert(out@ =~= dec_rep_i64(i as int));
        }
        out
    }
}

/// Parses bytes as an i64 exactly as `str::parse::<i64>` would: optional
/// sign, then digits, rejecting anything else and values out of range.
pub fn parse_i64_bytes(s: &[u8]) -> (r: Option<i64>)
    ensures
        r == parse_i64(s@),
{
    let n = s.len();
    if n == 0 {
        return None;
    }
    let neg = s[0] == 45;
    let start: usize = if s[0] == 43 || s[0] == 45 {
        1
    } else {
        0
    };
    let ghost ds = if s@[0] == 43 || s@[0] == 45 {
        s@.drop_first()
    } else {
        s@
    };
    proof {
        assert(ds =~= s@.subrange(start as int, n as int));
    }
    if start == n {
        return None;
    }
    let mut acc: u128 = 0;
    let mut i: usize = start;
    // One past the magnitude of i64::MIN: past this, the value is out of
    // range whatever digits follow.
    let cap: u128 = 9223372036854775809u128;
    while i < n
        invariant
            n == s@.len(),
            start <= i <= n,
            start < n,
            start == 0 || start == 1,
            ds =~= s@.subrange(start as int, n as int),
            ds == (if s@[0] == 43 || s@[0] == 45 {
                s@.drop_first()
            } else {
                s@
            }),
            all_digits(ds.take(i - start)),
            acc == dec_val(ds.take(i - start)),
            cap == 9223372036854775809u128,
            acc <= cap,
        decreases n - i,
    {
        let b = s[i];
        if b < 48 || b > 57 {
            proof {
                assert(ds[i - start] == b);
                assert(!all_digits(ds));
            }
            return None;
        }
        let ghost prev = ds.take(i - start);
        acc = acc * 10 + (b - 48) as u128;
        i = i + 1;
        proof {
            let cur = ds.take(i - start);
            assert(cur.drop_last() =~= prev);
            assert(cur.last() == b);
        }
        if acc > cap {
            proof {
                assert(ds.take(ds.len() as int) =~= ds);
                if all_digits(ds) {
                    lemma_dec_val_prefix_le(ds, i - start, ds.len() as int);
                    assert(dec_val(ds) >= acc);
                    assert(dec_val(ds) > 9223372036854775808);
                }
            }
            return None;
        }
    }
    proof {
        assert(ds.take(ds.len() as int) =~= ds);
    }
    if neg {
        if acc > 9223372036854775808u128 {
            return None;
        }
        if acc == 9223372036854775808u128 {
            Some(i64::MIN)
        } else {
            Some(-((acc as u64) as i64))
        }
    } else {
        if acc > 9223372036854775807u128 {
            return None;
        }
        Some((acc as u64) as i64)
    }
}

} // verus!
