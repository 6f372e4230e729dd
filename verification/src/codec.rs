//! Fixed-width decimal fields of the session-log byte format.
//!
//! Every number in the persisted log is written as a fixed number of ASCII
//! digits, most significant first, zero padded. [`push_decimal`] writes such
//! a field and [`parse_decimal`] reads one back; the two are exact inverses,
//! which [`lemma_dec_round_trip`] proves.

use vstd::prelude::*;

verus! {

/// Ten to the `width`.
pub open spec fn pow10(width: nat) -> nat
    decreases width,
{
    if width == 0 {
        1
    } else {
        10 * pow10((width - 1) as nat)
    }
}

/// An ASCII decimal digit.
pub open spec fn is_digit(b: u8) -> bool {
    48 <= b <= 57
}

/// Every byte of `s` is an ASCII decimal digit.
pub open spec fn all_digits(s: Seq<u8>) -> bool {
    forall|i: int| 0 <= i < s.len() ==> is_digit(#[trigger] s[i])
}

/// The numeric value of one digit byte (zero on anything else).
pub open spec fn digit_val(b: u8) -> nat {
    if is_digit(b) {
        (b - 48) as nat
    } else {
        0
    }
}

/// The `width` low decimal digits of `n`, most significant first.
pub open spec fn dec_digits(n: nat, width: nat) -> Seq<u8>
    decreases width,
{
    if width == 0 {
        Seq::empty()
    } else {
        dec_digits(n / 10, (width - 1) as nat).push((48 + n % 10) as u8)
    }
}

/// The number a digit string denotes.
pub open spec fn dec_value(s: Seq<u8>) -> nat
    decreases s.len(),
{
    if s.len() == 0 {
        0
    } else {
        dec_value(s.drop_last()) * 10 + digit_val(s.last())
    }
}

/// `pow10` grows with the width.
pub proof fn lemma_pow10_le(a: nat, b: nat)
    requires
        a <= b,
    ensures
        pow10(a) <= pow10(b),
        pow10(a) >= 1,
    decreases b,
{
    if b > 0 {
        if a == b {
            lemma_pow10_le((a - 1) as nat, (b - 1) as nat);
        } else {
            lemma_pow10_le(a, (b - 1) as nat);
        }
    }
}

/// Ten digits are enough for any `u32` counter, and twenty would overflow
/// no `u64` arithmetic below.
pub proof fn lemma_pow10_bounds()
    ensures
        pow10(4) == 10000,
        pow10(2) == 100,
        pow10(10) == 10000000000,
        pow10(19) == 10000000000000000000,
{
    reveal_with_fuel(pow10, 21);
}

/// A fixed-width field is exactly `width` digit bytes.
pub proof fn lemma_dec_digits_shape(n: nat, width: nat)
    ensures
        dec_digits(n, width).len() == width,
        all_digits(dec_digits(n, width)),
    decreases width,
{
    if width > 0 {
        lemma_dec_digits_shape(n / 10, (width - 1) as nat);
    }
}

/// Reading a fixed-width field back gives the number it was written from,
/// as long as the number fits the width.
pub proof fn lemma_dec_round_trip(n: nat, width: nat)
    requires
        n < pow10(width),
    ensures
        dec_value(dec_digits(n, width)) == n,
    decreases width,
{
    if width == 0 {
        assert(n == 0);
    } else {
        let prev = dec_digits(n / 10, (width - 1) as nat);
        let d = (48 + n % 10) as u8;
        assert(dec_digits(n, width) == prev.push(d));
        assert(prev.push(d).drop_last() =~= prev);
        assert(prev.push(d).last() == d);
        assert(digit_val(d) == n % 10);
        assert(n / 10 < pow10((width - 1) as nat)) by {
            assert(pow10(width) == 10 * pow10((width - 1) as nat));
            assert(n < 10 * pow10((width - 1) as nat));
        };
        lemma_dec_round_trip(n / 10, (width - 1) as nat);
        assert(dec_value(prev) * 10 + n % 10 == n) by {
            assert(n == 10 * (n / 10) + n % 10);
        };
    }
}

/// Appends the `width` low decimal digits of `n`, most significant first.
pub fn push_decimal(out: &mut Vec<u8>, n: u64, width: usize)
    ensures
        final(out)@ == old(out)@ + dec_digits(n as nat, width as nat),
    decreases width,
{
    if width == 0 {
        proof {
            assert(old(out)@ + dec_digits(n as nat, 0) =~= old(out)@);
        }
    } else {
        push_decimal(out, n / 10, width - 1);
        let d: u8 = 48 + (n % 10) as u8;
        out.push(d);
        proof {
            assert(old(out)@ + dec_digits((n as nat) / 10, (width - 1) as nat) + seq![d]
                =~= old(out)@ + dec_digits(n as nat, width as nat));
        }
    }
}

/// Reads the `width`-digit field of `s` that starts at `start`; `None`
/// unless every byte there is a decimal digit.
pub fn parse_decimal(s: &[u8], start: usize, width: usize) -> (r: Option<u64>)
    requires
        start + width <= s@.len(),
        width <= 19,
    ensures
        match r {
            Some(v) => all_digits(s@.subrange(start as int, (start + width) as int))
                && v as nat == dec_value(s@.subrange(start as int, (start + width) as int)),
            None => !all_digits(s@.subrange(start as int, (start + width) as int)),
        },
{
    let ghost field = s@.subrange(start as int, (start + width) as int);
    let slen: usize = s.len();
    let mut v: u64 = 0;
    let mut i: usize = 0;
    while i < width
        invariant
            i <= width <= 19,
            start + width <= slen,
            slen == s@.len(),
            field == s@.subrange(start as int, (start + width) as int),
            all_digits(field.subrange(0, i as int)),
            v as nat == dec_value(field.subrange(0, i as int)),
            (v as nat) < pow10(i as nat),
        decreases width - i,
    {
        let b = s[start + i];
        if b < 48 || b > 57 {
            proof {
                assert(field[i as int] == b);
                assert(!is_digit(field[i as int]));
            }
            return None;
        }
        proof {
            lemma_pow10_le(i as nat, 18);
            lemma_pow10_bounds();
            assert(pow10(19) == 10 * pow10(18));
            assert((v as nat) * 10 + 9 < pow10((i + 1) as nat)) by {
                assert(pow10((i + 1) as nat) == 10 * pow10(i as nat));
            };
            assert(pow10((i + 1) as nat) <= pow10(19)) by {
                lemma_pow10_le((i + 1) as nat, 19);
            };
        }
        let next: u64 = v * 10 + (b - 48) as u64;
        proof {
            let pre = field.subrange(0, i as int);
            let cur = field.subrange(0, i + 1 as int);
            assert(cur.drop_last() =~= pre);
            assert(cur.last() == field[i as int]);
            assert(digit_val(field[i as int]) == b - 48);
            assert(all_digits(cur)) by {
                assert(forall|j: int| 0 <= j < cur.len() ==> cur[j] == #[trigger] field[j]);
            };
        }
        v = next;
        i = i + 1;
    }
    proof {
        assert(field.subrange(0, width as int) =~= field);
    }
    Some(v)
}

} // verus!
