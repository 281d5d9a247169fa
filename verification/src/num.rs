//! Decimal numbers on the wire: the protocol writes lengths and integers as
//! ASCII decimal. The canonical rendering of a `u64` is specified by
//! [`dec_digits`]; reading a decimal back is specified by [`spec_atoi_u64`],
//! which is the contract of the one trusted call into the `atoi` crate.

use vstd::prelude::*;
use vstd::string::StringSliceAdditionalSpecFns;

verus! {

/// The byte is an ASCII decimal digit.
pub open spec fn is_digit(b: u8) -> bool {
    48 <= b <= 57
}

/// Every byte of the sequence is an ASCII decimal digit.
pub open spec fn all_digits(s: Seq<u8>) -> bool {
    forall|i: int| 0 <= i < s.len() ==> is_digit(s[i])
}

/// The value of a sequence of decimal digit bytes, most significant first.
pub open spec fn dec_val(s: Seq<u8>) -> int
    decreases s.len(),
{
    if s.len() == 0 {
        0
    } else {
        dec_val(s.drop_last()) * 10 + (s.last() - 48)
    }
}

/// The canonical decimal digits of `n`: no sign, no leading zeros.
pub open spec fn dec_digits(n: nat) -> Seq<u8>
    decreases n,
{
    if n < 10 {
        seq![(48 + n) as u8]
    } else {
        dec_digits(n / 10).push((48 + n % 10) as u8)
    }
}

/// The canonical digits of `n` are digits, nonempty, and evaluate back to `n`.
pub proof fn lemma_dec_digits(n: nat)
    ensures
        all_digits(dec_digits(n)),
        dec_digits(n).len() >= 1,
        dec_val(dec_digits(n)) == n,
    decreases n,
{
    if n < 10 {
        let s = dec_digits(n);
        assert(s.drop_last() =~= Seq::<u8>::empty());
        assert(dec_val(s) == dec_val(s.drop_last()) * 10 + (s.last() - 48));
    } else {
        lemma_dec_digits(n / 10);
        let s = dec_digits(n);
        assert(s.drop_last() =~= dec_digits(n / 10));
        assert forall|i: int| 0 <= i < s.len() implies is_digit(#[trigger] s[i]) by {
            if i < s.len() - 1 {
                assert(s[i] == dec_digits(n / 10)[i]);
            }
        }
        assert(dec_val(s) == (n / 10) * 10 + n % 10);
        assert(n == (n / 10) * 10 + n % 10) by (nonlinear_arith)
            requires
                n >= 10,
        ;
    }
}

/// The number of leading digit bytes: how far a decimal reader runs.
pub open spec fn digit_run_len(s: Seq<u8>) -> int
    decreases s.len(),
{
    if s.len() == 0 || !is_digit(s[0]) {
        0
    } else {
        1 + digit_run_len(s.drop_first())
    }
}

/// The longest run of digit bytes at the front of `s`.
pub open spec fn digit_run(s: Seq<u8>) -> Seq<u8> {
    s.take(digit_run_len(s))
}

/// On an all-digit sequence the run is the whole sequence.
pub proof fn lemma_digit_run_all(s: Seq<u8>)
    requires
        all_digits(s),
    ensures
        digit_run_len(s) == s.len(),
        digit_run(s) == s,
    decreases s.len(),
{
    if s.len() != 0 {
        assert(is_digit(s[0]));
        assert(all_digits(s.drop_first()));
        lemma_digit_run_all(s.drop_first());
    }
    assert(s.take(s.len() as int) =~= s);
}

/// What `atoi` computes for `u64` on any byte slice: an optional leading
/// sign byte, then the longest run of digits. Without sign byte or digits
/// there is no number; a minus admits only the value zero; a value beyond
/// `u64::MAX` overflows.
pub open spec fn spec_atoi_u64(s: Seq<u8>) -> Option<u64> {
    if s.len() == 0 {
        None
    } else {
        let signed = s[0] == 43 || s[0] == 45;
        let rest = if signed {
            s.drop_first()
        } else {
            s
        };
        let run = digit_run(rest);
        if !signed && run.len() == 0 {
            None
        } else if s[0] == 45 {
            if dec_val(run) == 0 {
                Some(0u64)
            } else {
                None
            }
        } else if dec_val(run) > u64::MAX {
            None
        } else {
            Some(dec_val(run) as u64)
        }
    }
}

/// A nonempty all-digit sequence whose value fits is read back exactly.
pub proof fn lemma_atoi_all_digits(s: Seq<u8>)
    requires
        all_digits(s),
        s.len() >= 1,
        dec_val(s) <= u64::MAX,
    ensures
        spec_atoi_u64(s) == Some(dec_val(s) as u64),
{
    assert(is_digit(s[0]));
    lemma_digit_run_all(s);
}

/// The digit values are nonnegative.
pub proof fn lemma_dec_val_nonneg(s: Seq<u8>)
    requires
        all_digits(s),
    ensures
        dec_val(s) >= 0,
    decreases s.len(),
{
    if s.len() != 0 {
        assert(all_digits(s.drop_last()));
        lemma_dec_val_nonneg(s.drop_last());
    }
}

/// Relies on `atoi::atoi::<u64>` (crate `atoi`): parses an optionally signed
/// decimal number from the longest digit run at the front of the slice,
/// checking for overflow; its result depends on the bytes alone.
#[verifier::external_body]
pub fn atoi_u64(text: &[u8]) -> (r: Option<u64>)
    ensures
        r == spec_atoi_u64(text@),
{
    atoi::atoi::<u64>(text)
}

/// What `str::parse::<u64>` accepts of ASCII text: an optional plus sign,
/// then one or more digits, nothing else, with a value that fits.
pub open spec fn spec_dec_str_u64(b: Seq<u8>) -> Option<u64> {
    let digits = if b.len() >= 1 && b[0] == 43 {
        b.drop_first()
    } else {
        b
    };
    if digits.len() >= 1 && all_digits(digits) && dec_val(digits) <= u64::MAX {
        Some(dec_val(digits) as u64)
    } else {
        None
    }
}

/// The duration a command-line argument names: a decimal count of
/// milliseconds, read strictly.
pub fn duration_from_ms_str(src: &str) -> (r: Option<u64>)
    ensures
        r == spec_dec_str_u64(src.spec_bytes()),
{
    let b = src.as_bytes();
    let n = b.len();
    if n == 0 {
        return None;
    }
    let start: usize = if b[0] == 43 {
        1
    } else {
        0
    };
    if n == start {
        return None;
    }
    let mut i = start;
    while i < n
        invariant
            start <= i <= n,
            n == b@.len(),
            start <= n,
            b@ == src.spec_bytes(),
            start == (if b@.len() >= 1 && b@[0] == 43 {
                1int
            } else {
                0int
            }),
            forall|j: int| start <= j < i ==> is_digit(b@[j]),
        decreases n - i,
    {
        if b[i] < 48 || b[i] > 57 {
            proof {
                let digits = if b@.len() >= 1 && b@[0] == 43 {
                    b@.drop_first()
                } else {
                    b@
                };
                assert(digits[i - start] == b@[i as int]);
                assert(!all_digits(digits));
            }
            return None;
        }
        i += 1;
    }
    let digits = vstd::slice::slice_subrange(b, start, n);
    proof {
        let spec_digits = if b@.len() >= 1 && b@[0] == 43 {
            b@.drop_first()
        } else {
            b@
        };
        assert(digits@ =~= spec_digits);
        assert(all_digits(digits@));
        lemma_digit_run_all(digits@);
        lemma_dec_val_nonneg(digits@);
        assert(digits@[0] != 43 && digits@[0] != 45);
    }
    atoi_u64(digits)
}

/// The canonical decimal rendering of `n`, as bytes.
pub fn u64_to_dec(n: u64) -> (r: Vec<u8>)
    ensures
        r@ == dec_digits(n as nat),
    decreases n,
{
    if n < 10 {
        let mut v: Vec<u8> = Vec::new();
        v.push(48 + n as u8);
        proof {
            assert(v@ =~= dec_digits(n as nat));
        }
        v
    } else {
        let mut v = u64_to_dec(n / 10);
        v.push(48 + (n % 10) as u8);
        v
    }
}

} // verus!
