//! Executable recognition of integer and float literals.

use vstd::prelude::*;

use crate::grammar::spec_digits_len;
use crate::grammar::spec_digits_val;
use crate::grammar::spec_exp_len;
use crate::grammar::spec_float_len;
use crate::grammar::spec_int;
use crate::grammar::spec_sign_len;
use crate::scan::digits_end;

verus! {

/// The value of a digit run is never negative.
proof fn lemma_digits_val_nonneg(s: Seq<u8>, i: int, n: nat)
    requires
        forall|k: int| 0 <= k < n ==> 48 <= #[trigger] s[i + k] <= 57,
    ensures
        spec_digits_val(s, i, n) >= 0,
    decreases n,
{
    if n > 0 {
        lemma_digits_val_nonneg(s, i, (n - 1) as nat);
        assert(48 <= s[i + (n - 1)] <= 57);
    }
}

/// The value of a digit run only grows as more digits are taken.
proof fn lemma_digits_val_mono(s: Seq<u8>, i: int, m: nat, n: nat)
    requires
        m <= n,
        forall|k: int| 0 <= k < n ==> 48 <= #[trigger] s[i + k] <= 57,
    ensures
        spec_digits_val(s, i, m) <= spec_digits_val(s, i, n),
    decreases n,
{
    if n > m {
        lemma_digits_val_mono(s, i, m, (n - 1) as nat);
        lemma_digits_val_nonneg(s, i, (n - 1) as nat);
        assert(48 <= s[i + (n - 1)] <= 57);
    }
}

/// Recognize an integer literal at `i`: an optional sign and decimal
/// digits whose value fits a 64-bit signed integer. Returns the
/// position after the literal and its value; overflow is a failed
/// match, not a wrapped value.
pub fn int_at(s: &[u8], i: usize) -> (r: Option<(usize, i64)>)
    requires
        i <= s@.len(),
    ensures
        ({
            match spec_int(s@, i as int) {
                Option::Some((d, v)) => r matches Option::Some((j, w)) && j as int == i + d && w
                    == v && i < j <= s@.len(),
                Option::None => r is None,
            }
        }),
{
    let len = s.len();
    let mut p = i;
    let mut neg = false;
    if p < len && (s[p] == 43 || s[p] == 45) {
        neg = s[p] == 45;
        p = p + 1;
    }
    proof {
        assert(p - i == spec_sign_len(s@, i as int));
    }
    let dstart = p;
    let dend = digits_end(s, dstart);
    if dend == dstart {
        return Option::None;
    }
    let limit: u64 = if neg {
        9223372036854775808
    } else {
        9223372036854775807
    };
    let mut acc: u64 = 0;
    let mut k = dstart;
    let mut too_big = false;
    loop
        invariant
            dstart <= k <= dend <= len,
            len == s@.len(),
            dend as int == dstart + spec_digits_len(s@, dstart as int),
            forall|q: int| dstart <= q < dend ==> 48 <= #[trigger] s@[q] <= 57,
            limit == (if neg {
                9223372036854775808u64
            } else {
                9223372036854775807u64
            }),
            !too_big ==> acc == spec_digits_val(s@, dstart as int, (k - dstart) as nat) && acc
                <= limit,
            too_big ==> spec_digits_val(s@, dstart as int, (k - dstart) as nat) > limit,
        ensures
            !too_big ==> acc == spec_digits_val(s@, dstart as int, (dend - dstart) as nat) && acc
                <= limit,
            too_big ==> spec_digits_val(s@, dstart as int, (dend - dstart) as nat) > limit,
        decreases dend - k,
    {
        if k >= dend {
            break ;
        }
        let d = s[k] - 48;
        proof {
            assert(spec_digits_val(s@, dstart as int, (k + 1 - dstart) as nat) == 10
                * spec_digits_val(s@, dstart as int, (k - dstart) as nat) + (s@[k as int] - 48));
        }
        if too_big {
            proof {
                lemma_digits_val_nonneg(s@, dstart as int, (k - dstart) as nat);
            }
        } else {
            if acc > 922337203685477580 {
                too_big = true;
            } else {
                let t = acc * 10;
                if t > limit - (d as u64) {
                    too_big = true;
                } else {
                    acc = t + (d as u64);
                }
            }
        }
        k = k + 1;
    }
    if too_big {
        return Option::None;
    }
    let w: i64 = if neg {
        if acc == 9223372036854775808 {
            (-9223372036854775807) - 1
        } else {
            -(acc as i64)
        }
    } else {
        acc as i64
    };
    Option::Some((dend, w))
}

/// End of the exponent part at `j`, or `j` itself when no well-formed
/// exponent stands here.
pub fn exp_end(s: &[u8], j: usize) -> (r: usize)
    requires
        j <= s@.len(),
    ensures
        r as int == j + spec_exp_len(s@, j as int),
        j <= r <= s@.len(),
{
    let len = s.len();
    if j < len && (s[j] == 101 || s[j] == 69) {
        let mut q = j + 1;
        if q < len && (s[q] == 43 || s[q] == 45) {
            q = q + 1;
        }
        proof {
            assert(q - (j + 1) == spec_sign_len(s@, j + 1));
        }
        let d = digits_end(s, q);
        if d == q {
            j
        } else {
            d
        }
    } else {
        j
    }
}

/// Recognize a float literal at `i`; returns the position after it.
/// A decimal point or a well-formed exponent is what routes a number
/// here rather than to the integer rule.
pub fn float_at(s: &[u8], i: usize) -> (r: Option<usize>)
    requires
        i <= s@.len(),
    ensures
        ({
            match spec_float_len(s@, i as int) {
                Option::Some(n) => r matches Option::Some(j) && j as int == i + n && i < j
                    <= s@.len(),
                Option::None => r is None,
            }
        }),
{
    let len = s.len();
    let mut p = i;
    if p < len && (s[p] == 43 || s[p] == 45) {
        p = p + 1;
    }
    proof {
        assert(p - i == spec_sign_len(s@, i as int));
    }
    let d1 = digits_end(s, p);
    if d1 < len && s[d1] == 46 {
        let d2 = digits_end(s, d1 + 1);
        if d1 == p && d2 == d1 + 1 {
            return Option::None;
        }
        let e = exp_end(s, d2);
        return Option::Some(e);
    }
    if d1 > p {
        let e = exp_end(s, d1);
        if e == d1 {
            return Option::None;
        }
        return Option::Some(e);
    }
    Option::None
}

} // verus!
