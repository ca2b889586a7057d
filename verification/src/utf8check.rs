use vstd::prelude::*;

verus! {

use vstd::utf8::{
    valid_utf8, valid_first_scalar, partial_valid_utf8, partial_valid_utf8_extend,
    partial_valid_partial_invalid_utf8, codepoint_width_1, codepoint_width_2, codepoint_width_3,
    codepoint_width_4, decode_first_codepoint, length_of_first_scalar,
};

/// Whether the bytes are a valid UTF-8 encoding, decided against the
/// `valid_utf8` specification: the payload-level test for
/// `InvalidEncoding`.
pub fn check_utf8(s: &[u8]) -> (r: bool)
    ensures
        r == valid_utf8(s@),
{
    let n = s.len();
    let mut i: usize = 0;
    while i < n
        invariant
            i <= n == s@.len(),
            partial_valid_utf8(s@, i as int),
        decreases n - i,
    {
        let ghost suf = s@.subrange(i as int, n as int);
        let b = s[i];
        assert(suf.len() == n - i && suf[0] == s@[i as int]);
        if b < 0x80 {
            proof {
                assert(codepoint_width_1(b) == b) by (bit_vector)
                    requires
                        b < 0x80,
                ;
                assert(valid_first_scalar(suf));
                assert(length_of_first_scalar(suf) == 1);
                partial_valid_utf8_extend(s@, i as int);
            }
            i = i + 1;
        } else if 0xc0 <= b && b <= 0xdf {
            if !(n - i >= 2 && 0x80 <= s[i + 1] && s[i + 1] <= 0xbf) {
                proof {
                    assert(!valid_first_scalar(suf));
                    partial_valid_partial_invalid_utf8(s@, i as int);
                }
                return false;
            }
            let c1 = s[i + 1];
            assert(suf[1] == s@[i + 1]);
            let cp: u32 = (((b & 0x1f) as u32) << 6u32) | ((c1 & 0x3f) as u32);
            assert(cp == codepoint_width_2(b, c1));
            if cp < 0x80 {
                proof {
                    assert(decode_first_codepoint(suf) == cp);
                    assert(!valid_first_scalar(suf));
                    partial_valid_partial_invalid_utf8(s@, i as int);
                }
                return false;
            }
            proof {
                assert(decode_first_codepoint(suf) == cp);
                assert(cp <= 0x7ff) by (bit_vector)
                    requires
                        cp == (((b & 0x1f) as u32) << 6u32) | ((c1 & 0x3f) as u32),
                ;
                assert(valid_first_scalar(suf));
                assert(length_of_first_scalar(suf) == 2);
                partial_valid_utf8_extend(s@, i as int);
            }
            i = i + 2;
        } else if 0xe0 <= b && b <= 0xef {
            if !(n - i >= 3 && 0x80 <= s[i + 1] && s[i + 1] <= 0xbf && 0x80 <= s[i + 2]
                && s[i + 2] <= 0xbf) {
                proof {
                    assert(!valid_first_scalar(suf));
                    partial_valid_partial_invalid_utf8(s@, i as int);
                }
                return false;
            }
            let c1 = s[i + 1];
            let c2 = s[i + 2];
            assert(suf[1] == s@[i + 1] && suf[2] == s@[i + 2]);
            let cp: u32 = (((b & 0x0f) as u32) << 12u32) | (((c1 & 0x3f) as u32) << 6u32) | ((c2
                & 0x3f) as u32);
            assert(cp == codepoint_width_3(b, c1, c2));
            if cp < 0x800 || (0xd800 <= cp && cp <= 0xdfff) {
                proof {
                    assert(decode_first_codepoint(suf) == cp);
                    assert(!valid_first_scalar(suf));
                    partial_valid_partial_invalid_utf8(s@, i as int);
                }
                return false;
            }
            proof {
                assert(decode_first_codepoint(suf) == cp);
                assert(valid_first_scalar(suf));
                assert(length_of_first_scalar(suf) == 3);
                partial_valid_utf8_extend(s@, i as int);
            }
            i = i + 3;
        } else if 0xf0 <= b && b <= 0xf7 {
            if !(n - i >= 4 && 0x80 <= s[i + 1] && s[i + 1] <= 0xbf && 0x80 <= s[i + 2]
                && s[i + 2] <= 0xbf && 0x80 <= s[i + 3] && s[i + 3] <= 0xbf) {
                proof {
                    assert(!valid_first_scalar(suf));
                    partial_valid_partial_invalid_utf8(s@, i as int);
                }
                return false;
            }
            let c1 = s[i + 1];
            let c2 = s[i + 2];
            let c3 = s[i + 3];
            assert(suf[1] == s@[i + 1] && suf[2] == s@[i + 2] && suf[3] == s@[i + 3]);
            let cp: u32 = (((b & 0x07) as u32) << 18u32) | (((c1 & 0x3f) as u32) << 12u32) | (((c2
                & 0x3f) as u32) << 6u32) | ((c3 & 0x3f) as u32);
            assert(cp == codepoint_width_4(b, c1, c2, c3));
            if cp < 0x10000 || cp > 0x10ffff {
                proof {
                    assert(decode_first_codepoint(suf) == cp);
                    assert(!valid_first_scalar(suf));
                    partial_valid_partial_invalid_utf8(s@, i as int);
                }
                return false;
            }
            proof {
                assert(decode_first_codepoint(suf) == cp);
                assert(valid_first_scalar(suf));
                assert(length_of_first_scalar(suf) == 4);
                partial_valid_utf8_extend(s@, i as int);
            }
            i = i + 4;
        } else {
            proof {
                assert(!valid_first_scalar(suf));
                partial_valid_partial_invalid_utf8(s@, i as int);
            }
            return false;
        }
    }
    proof {
        assert(s@.subrange(0, n as int) =~= s@);
    }
    true
}

} // verus!
