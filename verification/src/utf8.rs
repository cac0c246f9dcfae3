//! UTF-8 validity of the length-prefixed text fields of the format: a
//! byte-level definition of well-formed UTF-8 and a verified checker,
//! used by the decoder to reject malformed names.

use vstd::prelude::*;

verus! {

/// A continuation byte of a multi-byte UTF-8 sequence.
pub open spec fn is_cont(b: u8) -> bool {
    0x80 <= b && b <= 0xbf
}

/// Whether a byte sequence is well-formed UTF-8: a sequence of one- to
/// four-byte characters, with overlong encodings, surrogates and code
/// points above U+10FFFF excluded (the ranges each lead byte allows for
/// its first continuation byte encode exactly those exclusions).
pub open spec fn is_utf8(s: Seq<u8>) -> bool
    decreases s.len(),
{
    if s.len() == 0 {
        true
    } else {
        let b0 = s[0];
        if b0 < 0x80 {
            is_utf8(s.skip(1))
        } else if 0xc2 <= b0 && b0 < 0xe0 {
            s.len() >= 2 && is_cont(s[1]) && is_utf8(s.skip(2))
        } else if b0 == 0xe0 {
            s.len() >= 3 && 0xa0 <= s[1] && s[1] <= 0xbf && is_cont(s[2]) && is_utf8(s.skip(3))
        } else if (0xe1 <= b0 && b0 <= 0xec) || (0xee <= b0 && b0 <= 0xef) {
            s.len() >= 3 && is_cont(s[1]) && is_cont(s[2]) && is_utf8(s.skip(3))
        } else if b0 == 0xed {
            s.len() >= 3 && 0x80 <= s[1] && s[1] <= 0x9f && is_cont(s[2]) && is_utf8(s.skip(3))
        } else if b0 == 0xf0 {
            s.len() >= 4 && 0x90 <= s[1] && s[1] <= 0xbf && is_cont(s[2]) && is_cont(s[3])
                && is_utf8(s.skip(4))
        } else if 0xf1 <= b0 && b0 <= 0xf3 {
            s.len() >= 4 && is_cont(s[1]) && is_cont(s[2]) && is_cont(s[3]) && is_utf8(s.skip(4))
        } else if b0 == 0xf4 {
            s.len() >= 4 && 0x80 <= s[1] && s[1] <= 0x8f && is_cont(s[2]) && is_cont(s[3])
                && is_utf8(s.skip(4))
        } else {
            false
        }
    }
}

/// Skipping in two steps is skipping once.
pub proof fn lemma_skip_skip(s: Seq<u8>, i: int, k: int)
    requires
        0 <= i,
        0 <= k,
        i + k <= s.len(),
    ensures
        s.skip(i).skip(k) == s.skip(i + k),
{
    assert(s.skip(i).skip(k) =~= s.skip(i + k));
}

/// Checks a whole byte vector for UTF-8 well-formedness.
pub fn check_utf8(s: &Vec<u8>) -> (r: bool)
    ensures
        r == is_utf8(s@),
{
    let n = s.len();
    assert(s@.skip(0) =~= s@);
    let mut i: usize = 0;
    while i < n
        invariant
            i <= n,
            n == s.len(),
            is_utf8(s@) == is_utf8(s@.skip(i as int)),
        decreases n - i,
    {
        let ghost suf = s@.skip(i as int);
        let b0 = s[i];
        assert(b0 == suf[0]);
        let step: usize = if b0 < 0x80 {
            1
        } else if 0xc2 <= b0 && b0 < 0xe0 {
            if n - i < 2 || !cont_at(s, i + 1) {
                assert(!is_utf8(suf));
                return false;
            }
            2
        } else if b0 == 0xe0 {
            if n - i < 3 || !(0xa0 <= s[i + 1] && s[i + 1] <= 0xbf) || !cont_at(s, i + 2) {
                assert(!is_utf8(suf));
                return false;
            }
            3
        } else if (0xe1 <= b0 && b0 <= 0xec) || (0xee <= b0 && b0 <= 0xef) {
            if n - i < 3 || !cont_at(s, i + 1) || !cont_at(s, i + 2) {
                assert(!is_utf8(suf));
                return false;
            }
            3
        } else if b0 == 0xed {
            if n - i < 3 || !(0x80 <= s[i + 1] && s[i + 1] <= 0x9f) || !cont_at(s, i + 2) {
                assert(!is_utf8(suf));
                return false;
            }
            3
        } else if b0 == 0xf0 {
            if n - i < 4 || !(0x90 <= s[i + 1] && s[i + 1] <= 0xbf) || !cont_at(s, i + 2)
                || !cont_at(s, i + 3) {
                assert(!is_utf8(suf));
                return false;
            }
            4
        } else if 0xf1 <= b0 && b0 <= 0xf3 {
            if n - i < 4 || !cont_at(s, i + 1) || !cont_at(s, i + 2) || !cont_at(s, i + 3) {
                assert(!is_utf8(suf));
                return false;
            }
            4
        } else if b0 == 0xf4 {
            if n - i < 4 || !(0x80 <= s[i + 1] && s[i + 1] <= 0x8f) || !cont_at(s, i + 2)
                || !cont_at(s, i + 3) {
                assert(!is_utf8(suf));
                return false;
            }
            4
        } else {
            assert(!is_utf8(suf));
            return false;
        };
        assert(is_utf8(suf) == is_utf8(suf.skip(step as int)));
        proof {
            lemma_skip_skip(s@, i as int, step as int);
        }
        i = i + step;
    }
    assert(s@.skip(n as int) =~= Seq::<u8>::empty());
    true
}

/// The byte at `i` is a UTF-8 continuation byte.
fn cont_at(s: &Vec<u8>, i: usize) -> (r: bool)
    requires
        i < s.len(),
    ensures
        r == is_cont(s@[i as int]),
{
    let b = s[i];
    0x80 <= b && b <= 0xbf
}

} // verus!
