//! Executable UTF-8 validation, proved against `vstd`'s specification
//! of well-formed UTF-8.

use vstd::prelude::*;
use vstd::utf8::valid_utf8;
use vstd::utf8::valid_first_scalar;
use vstd::utf8::length_of_first_scalar;
use vstd::utf8::pop_first_scalar;

verus! {

/// Whether the bytes of `s` in `[from, to)` are well-formed UTF-8.
pub fn utf8_range_ok(s: &[u8], from: usize, to: usize) -> (r: bool)
    requires
        from <= to <= s@.len(),
    ensures
        r == valid_utf8(s@.subrange(from as int, to as int)),
{
    let mut j = from;
    loop
        invariant
            from <= j <= to <= s@.len(),
            valid_utf8(s@.subrange(from as int, to as int)) == valid_utf8(
                s@.subrange(j as int, to as int),
            ),
        ensures
            j == to,
            valid_utf8(s@.subrange(from as int, to as int)) == valid_utf8(
                s@.subrange(j as int, to as int),
            ),
        decreases to - j,
    {
        if j >= to {
            break ;
        }
        let ghost suf = s@.subrange(j as int, to as int);
        let b1 = s[j];
        let w: usize;
        let cp: u32;
        if b1 <= 0x7f {
            w = 1;
            cp = b1 as u32;
            proof {
                assert((b1 & 0x7f) == b1 && (b1 & 0x7f) <= 0x7f) by (bit_vector)
                    requires
                        b1 <= 0x7f,
                ;
            }
        } else if 0xc0 <= b1 && b1 <= 0xdf {
            if to - j < 2 || !(0x80 <= s[j + 1] && s[j + 1] <= 0xbf) {
                proof {
                    assert(!valid_first_scalar(suf));
                }
                return false;
            }
            let b2 = s[j + 1];
            w = 2;
            cp = (((b1 & 0x1f) as u32) << 6u32) | ((b2 & 0x3f) as u32);
            if cp < 0x80 {
                proof {
                    assert(!valid_first_scalar(suf));
                }
                return false;
            }
            proof {
                assert(((((b1 & 0x1f) as u32) << 6u32) | ((b2 & 0x3f) as u32)) <= 0x7ff)
                    by (bit_vector);
            }
        } else if 0xe0 <= b1 && b1 <= 0xef {
            if to - j < 3 || !(0x80 <= s[j + 1] && s[j + 1] <= 0xbf) || !(0x80 <= s[j + 2] && s[j
                + 2] <= 0xbf) {
                proof {
                    assert(!valid_first_scalar(suf));
                }
                return false;
            }
            let b2 = s[j + 1];
            let b3 = s[j + 2];
            w = 3;
            cp = (((b1 & 0x0f) as u32) << 12u32) | (((b2 & 0x3f) as u32) << 6u32) | ((b3
                & 0x3f) as u32);
            if cp < 0x800 || (0xd800 <= cp && cp <= 0xdfff) {
                proof {
                    assert(!valid_first_scalar(suf));
                }
                return false;
            }
        } else if 0xf0 <= b1 && b1 <= 0xf7 {
            if to - j < 4 || !(0x80 <= s[j + 1] && s[j + 1] <= 0xbf) || !(0x80 <= s[j + 2] && s[j
                + 2] <= 0xbf) || !(0x80 <= s[j + 3] && s[j + 3] <= 0xbf) {
                proof {
                    assert(!valid_first_scalar(suf));
                }
                return false;
            }
            let b2 = s[j + 1];
            let b3 = s[j + 2];
            let b4 = s[j + 3];
            w = 4;
            cp = (((b1 & 0x07) as u32) << 18u32) | (((b2 & 0x3f) as u32) << 12u32) | (((b3
                & 0x3f) as u32) << 6u32) | ((b4 & 0x3f) as u32);
            if cp < 0x10000 || cp > 0x10ffff {
                proof {
                    assert(!valid_first_scalar(suf));
                }
                return false;
            }
            proof {
                assert(cp >= 0x10000);
            }
        } else {
            proof {
                assert(!valid_first_scalar(suf));
            }
            return false;
        }
        proof {
            assert(valid_first_scalar(suf));
            assert(length_of_first_scalar(suf) == w);
            assert(pop_first_scalar(suf) =~= s@.subrange(j + w, to as int));
        }
        j = j + w;
    }
    proof {
        assert(s@.subrange(to as int, to as int).len() == 0);
    }
    true
}

/// Whether all bytes of `v` are well-formed UTF-8.
pub fn utf8_vec_ok(v: &Vec<u8>) -> (r: bool)
    ensures
        r == valid_utf8(v@),
{
    let n = v.len();
    let r = utf8_range_ok(v.as_slice(), 0, n);
    proof {
        assert(v@.subrange(0, v@.len() as int) =~= v@);
    }
    r
}

} // verus!
