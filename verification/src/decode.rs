//! Decoding of one UTF-8 scalar into a single UTF-16 code unit.
//!
//! The decoder accepts a byte window only when the window is well-formed
//! UTF-8 in its entirety, and only when the leading scalar fits in one
//! 16-bit code unit (the Basic Multilingual Plane); scalars that would
//! need a surrogate pair are rejected rather than truncated.

use vstd::prelude::*;

verus! {

/// Byte length of the UTF-8 encoding that a leading byte announces, or 0
/// when no well-formed encoding starts with the byte.
pub open spec fn utf8_len_of(b0: u8) -> int {
    if b0 < 0x80 {
        1
    } else if 0xC2 <= b0 <= 0xDF {
        2
    } else if 0xE0 <= b0 <= 0xEF {
        3
    } else if 0xF0 <= b0 <= 0xF4 {
        4
    } else {
        0
    }
}

/// The byte is a UTF-8 continuation byte.
pub open spec fn is_cont(b: u8) -> bool {
    0x80 <= b <= 0xBF
}

/// A well-formed UTF-8 scalar encoding starts at position `i`: the
/// continuation bytes exist and lie in the ranges that exclude overlong
/// forms, surrogates, and scalars above `0x10FFFF`.
pub open spec fn utf8_valid_at(s: Seq<u8>, i: int) -> bool {
    let b0 = s[i];
    if b0 < 0x80 {
        true
    } else if 0xC2 <= b0 <= 0xDF {
        i + 1 < s.len() && is_cont(s[i + 1])
    } else if b0 == 0xE0 {
        i + 2 < s.len() && 0xA0 <= s[i + 1] <= 0xBF && is_cont(s[i + 2])
    } else if 0xE1 <= b0 <= 0xEC || b0 == 0xEE || b0 == 0xEF {
        i + 2 < s.len() && is_cont(s[i + 1]) && is_cont(s[i + 2])
    } else if b0 == 0xED {
        i + 2 < s.len() && 0x80 <= s[i + 1] <= 0x9F && is_cont(s[i + 2])
    } else if b0 == 0xF0 {
        i + 3 < s.len() && 0x90 <= s[i + 1] <= 0xBF && is_cont(s[i + 2]) && is_cont(s[i + 3])
    } else if 0xF1 <= b0 <= 0xF3 {
        i + 3 < s.len() && is_cont(s[i + 1]) && is_cont(s[i + 2]) && is_cont(s[i + 3])
    } else if b0 == 0xF4 {
        i + 3 < s.len() && 0x80 <= s[i + 1] <= 0x8F && is_cont(s[i + 2]) && is_cont(s[i + 3])
    } else {
        false
    }
}

/// Scalar value of the UTF-8 encoding that starts at position `i`
/// (meaningful when `utf8_valid_at` holds there).
pub open spec fn scalar_at(s: Seq<u8>, i: int) -> int {
    let b0 = s[i];
    if b0 < 0x80 {
        b0 as int
    } else if b0 <= 0xDF {
        (b0 - 0xC0) * 0x40 + (s[i + 1] - 0x80)
    } else if b0 <= 0xEF {
        (b0 - 0xE0) * 0x1000 + (s[i + 1] - 0x80) * 0x40 + (s[i + 2] - 0x80)
    } else {
        (b0 - 0xF0) * 0x40000 + (s[i + 1] - 0x80) * 0x1000 + (s[i + 2] - 0x80) * 0x40 + (s[i + 3]
            - 0x80)
    }
}

/// The window is well-formed UTF-8 from position `i` to its end.
pub open spec fn utf8_valid_from(s: Seq<u8>, i: int) -> bool
    decreases s.len() - i,
{
    if i >= s.len() {
        true
    } else if !utf8_valid_at(s, i) {
        false
    } else {
        utf8_valid_from(s, i + utf8_len_of(s[i]))
    }
}

/// Everything `mbtowc` returns, for every byte window: failure on an
/// empty window, on a window that is not well-formed UTF-8 throughout,
/// and on a leading scalar outside the Basic Multilingual Plane;
/// otherwise the leading scalar as one code unit, with the exact count
/// of source bytes it occupied.
pub open spec fn mbtowc_spec(s: Seq<u8>) -> Result<(u16, usize), ()> {
    if s.len() == 0 {
        Err(())
    } else if !utf8_valid_from(s, 0) {
        Err(())
    } else if scalar_at(s, 0) >= 0x10000 {
        Err(())
    } else {
        Ok((scalar_at(s, 0) as u16, utf8_len_of(s[0]) as usize))
    }
}

/// Checks one scalar encoding in place: the scalar value and its byte
/// length when a well-formed encoding starts at `i`, nothing otherwise.
fn utf8_step(s: &[u8], i: usize) -> (r: Option<(u32, usize)>)
    requires
        i < s@.len(),
    ensures
        r is Some <==> utf8_valid_at(s@, i as int),
        r matches Some(p) ==> p.0 == scalar_at(s@, i as int) && p.1 == utf8_len_of(s@[i as int])
            && i + p.1 <= s@.len(),
{
    let b0 = s[i];
    if b0 < 0x80 {
        Some((b0 as u32, 1))
    } else if 0xC2 <= b0 && b0 <= 0xDF {
        if i + 1 < s.len() && 0x80 <= s[i + 1] && s[i + 1] <= 0xBF {
            let b1 = s[i + 1];
            Some(((b0 as u32 - 0xC0) * 0x40 + (b1 as u32 - 0x80), 2))
        } else {
            None
        }
    } else if 0xE0 <= b0 && b0 <= 0xEF {
        let lo1: u8 = if b0 == 0xE0 {
            0xA0
        } else {
            0x80
        };
        let hi1: u8 = if b0 == 0xED {
            0x9F
        } else {
            0xBF
        };
        if s.len() - i > 2 && lo1 <= s[i + 1] && s[i + 1] <= hi1 && 0x80 <= s[i + 2] && s[i + 2]
            <= 0xBF {
            let b1 = s[i + 1];
            let b2 = s[i + 2];
            Some(
                ((b0 as u32 - 0xE0) * 0x1000 + (b1 as u32 - 0x80) * 0x40 + (b2 as u32 - 0x80), 3),
            )
        } else {
            None
        }
    } else if 0xF0 <= b0 && b0 <= 0xF4 {
        let lo1: u8 = if b0 == 0xF0 {
            0x90
        } else {
            0x80
        };
        let hi1: u8 = if b0 == 0xF4 {
            0x8F
        } else {
            0xBF
        };
        if s.len() - i > 3 && lo1 <= s[i + 1] && s[i + 1] <= hi1 && 0x80 <= s[i + 2] && s[i + 2]
            <= 0xBF && 0x80 <= s[i + 3] && s[i + 3] <= 0xBF {
            let b1 = s[i + 1];
            let b2 = s[i + 2];
            let b3 = s[i + 3];
            Some(
                (
                    (b0 as u32 - 0xF0) * 0x40000 + (b1 as u32 - 0x80) * 0x1000 + (b2 as u32 - 0x80)
                        * 0x40 + (b3 as u32 - 0x80),
                    4,
                ),
            )
        } else {
            None
        }
    } else {
        None
    }
}

/// Decodes the leading UTF-8 scalar of the window into one UTF-16 code
/// unit together with the count of bytes it consumed.  The whole window
/// must be well-formed UTF-8, and the scalar must lie in the Basic
/// Multilingual Plane.
pub fn mbtowc(buf: &[u8]) -> (r: Result<(u16, usize), ()>)
    ensures
        r == mbtowc_spec(buf@),
{
    if buf.is_empty() {
        return Err(());
    }
    let (first_scalar, first_len) = match utf8_step(buf, 0) {
        Some(p) => p,
        None => {
            return Err(());
        },
    };
    let mut i: usize = first_len;
    while i < buf.len()
        invariant
            0 < i <= buf@.len(),
            utf8_valid_from(buf@, 0) <==> utf8_valid_from(buf@, i as int),
        decreases buf@.len() - i,
    {
        match utf8_step(buf, i) {
            Some(p) => {
                i = i + p.1;
            },
            None => {
                return Err(());
            },
        }
    }
    if first_scalar >= 0x10000 {
        return Err(());
    }
    Ok((first_scalar as u16, first_len))
}

/// A window of exactly one ASCII byte decodes to that byte's value
/// unchanged, with a one-byte consumption count.
pub proof fn lemma_decode_ascii(b: u8)
    requires
        b < 0x80,
    ensures
        mbtowc_spec(seq![b]) == Ok::<(u16, usize), ()>((b as u16, 1usize)),
{
    let s = seq![b];
    assert(utf8_valid_at(s, 0));
    assert(utf8_len_of(s[0]) == 1);
    assert(utf8_valid_from(s, 1));
    assert(utf8_valid_from(s, 0));
}

/// A leading scalar that needs four source bytes lies outside the Basic
/// Multilingual Plane: the decode fails rather than truncating it.
pub proof fn lemma_decode_four_byte_fails(s: Seq<u8>)
    requires
        s.len() > 0,
        utf8_len_of(s[0]) == 4,
    ensures
        mbtowc_spec(s) is Err,
{
    if utf8_valid_from(s, 0) {
        assert(utf8_valid_at(s, 0));
        assert(scalar_at(s, 0) >= 0x10000);
    }
}

} // verus!
