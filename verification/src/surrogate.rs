//! Characters above `FFFF`: four bytes in UTF-8, a surrogate pair in the
//! compact encoding.
//!
//! The compact encoding writes such a character as UTF-16 would, in two
//! halves, and each half in the three-byte form that UTF-8 has for values up
//! to `FFFF`.

use vstd::prelude::*;
use vstd::utf8::{
    codepoint_width_3, codepoint_width_4, encode_scalar, last_continuation_byte,
    leading_byte_width_3, second_last_continuation_byte,
};
use crate::unit::{is_cont, utf8_second_of_four};

verus! {

/// The high half of the surrogate pair for a character above `FFFF`.
pub open spec fn high_surrogate(c: u32) -> u32
    recommends
        0x10000 <= c <= 0x10FFFF,
{
    (0xD800 + (((c - 0x10000) as u32) >> 10)) as u32
}

/// The low half of the surrogate pair for a character above `FFFF`.
pub open spec fn low_surrogate(c: u32) -> u32
    recommends
        0x10000 <= c <= 0x10FFFF,
{
    (0xDC00 + (((c - 0x10000) as u32) & 0x3FF)) as u32
}

/// The character that a high and a low half stand for.
pub open spec fn join_surrogates(hi: u32, lo: u32) -> u32
    recommends
        0xD800 <= hi <= 0xDBFF,
        0xDC00 <= lo <= 0xDFFF,
{
    (0x10000 + (hi - 0xD800) * 0x400 + (lo - 0xDC00)) as u32
}

/// The three-byte form of a value from `800` to `FFFF`.
pub open spec fn three_byte_form(x: u32) -> Seq<u8> {
    seq![leading_byte_width_3(x), second_last_continuation_byte(x), last_continuation_byte(x)]
}

/// The six bytes of the compact encoding for a character above `FFFF`.
pub open spec fn pair_bytes(c: u32) -> Seq<u8>
    recommends
        0x10000 <= c <= 0x10FFFF,
{
    three_byte_form(high_surrogate(c)) + three_byte_form(low_surrogate(c))
}

/// The character written by a surrogate pair `ED p1 p2 ED p4 p5`.
pub open spec fn pair_scalar(p1: u8, p2: u8, p4: u8, p5: u8) -> u32 {
    join_surrogates(codepoint_width_3(0xED, p1, p2), codepoint_width_3(0xED, p4, p5))
}

/// Whether `p1 p2` and `p4 p5` can follow the two `ED` bytes of a pair.
pub open spec fn pair_tail_ok(p1: u8, p2: u8, p4: u8, p5: u8) -> bool {
    &&& 0xA0 <= p1 <= 0xAF
    &&& is_cont(p2)
    &&& 0xB0 <= p4 <= 0xBF
    &&& is_cont(p5)
}

/// Whether `b0 b1 b2 b3` is a well-formed four-byte UTF-8 unit.
pub open spec fn quad_ok(b0: u8, b1: u8, b2: u8, b3: u8) -> bool {
    &&& 0xF0 <= b0 <= 0xF4
    &&& utf8_second_of_four(b0, b1)
    &&& is_cont(b2)
    &&& is_cont(b3)
}

/// A well-formed four-byte unit writes a character above `FFFF`.
pub proof fn lemma_quad_range(b0: u8, b1: u8, b2: u8, b3: u8)
    requires
        quad_ok(b0, b1, b2, b3),
    ensures
        0x10000 <= codepoint_width_4(b0, b1, b2, b3) <= 0x10FFFF,
{
    let c = codepoint_width_4(b0, b1, b2, b3);
    assert(0x10000 <= (((b0 & 0x07) as u32) << 18) | (((b1 & 0x3f) as u32) << 12) | (((b2
        & 0x3f) as u32) << 6) | ((b3 & 0x3f) as u32) <= 0x10FFFF) by (bit_vector)
        requires
            0xF0 <= b0 <= 0xF4,
            if b0 == 0xF0 {
                0x90 <= b1 <= 0xBF
            } else if b0 == 0xF4 {
                0x80 <= b1 <= 0x8F
            } else {
                0x80 <= b1 <= 0xBF
            },
    ;
}

/// The two halves of a well-formed pair are a high and a low surrogate.
pub proof fn lemma_pair_halves(p1: u8, p2: u8, p4: u8, p5: u8)
    requires
        pair_tail_ok(p1, p2, p4, p5),
    ensures
        0xD800 <= codepoint_width_3(0xED, p1, p2) <= 0xDBFF,
        0xDC00 <= codepoint_width_3(0xED, p4, p5) <= 0xDFFF,
        0x10000 <= pair_scalar(p1, p2, p4, p5) <= 0x10FFFF,
{
    assert(0xD800 <= (((0xEDu8 & 0x0F) as u32) << 12) | (((p1 & 0x3f) as u32) << 6) | ((p2
        & 0x3f) as u32) <= 0xDBFF) by (bit_vector)
        requires
            0xA0 <= p1 <= 0xAF,
    ;
    assert(0xDC00 <= (((0xEDu8 & 0x0F) as u32) << 12) | (((p4 & 0x3f) as u32) << 6) | ((p5
        & 0x3f) as u32) <= 0xDFFF) by (bit_vector)
        requires
            0xB0 <= p4 <= 0xBF,
    ;
}

/// Appends the surrogate pair for the character that the four-byte UTF-8
/// unit `b0 b1 b2 b3` writes.
pub fn push_pair(out: &mut Vec<u8>, b0: u8, b1: u8, b2: u8, b3: u8)
    requires
        quad_ok(b0, b1, b2, b3),
    ensures
        final(out)@ == old(out)@ + pair_bytes(codepoint_width_4(b0, b1, b2, b3)),
{
    let c: u32 = (((b0 & 0x07) as u32) << 18) | (((b1 & 0x3f) as u32) << 12) | (((b2
        & 0x3f) as u32) << 6) | ((b3 & 0x3f) as u32);
    proof {
        lemma_quad_range(b0, b1, b2, b3);
    }
    let d: u32 = c - 0x10000;
    assert(d >> 10 <= 0x3FF && d & 0x3FF <= 0x3FF) by (bit_vector)
        requires
            d <= 0xFFFFF,
    ;
    let hi: u32 = 0xD800 + (d >> 10);
    let lo: u32 = 0xDC00 + (d & 0x3FF);
    out.push(0xE0 | ((hi >> 12) & 0x0F) as u8);
    out.push(0x80 | ((hi >> 6) & 0x3F) as u8);
    out.push(0x80 | (hi & 0x3F) as u8);
    out.push(0xE0 | ((lo >> 12) & 0x0F) as u8);
    out.push(0x80 | ((lo >> 6) & 0x3F) as u8);
    out.push(0x80 | (lo & 0x3F) as u8);
    assert(out@ =~= old(out)@ + pair_bytes(codepoint_width_4(b0, b1, b2, b3)));
}

/// Appends the four-byte UTF-8 unit for the character that the surrogate
/// pair `ED p1 p2 ED p4 p5` writes.
pub fn push_quad(out: &mut Vec<u8>, p1: u8, p2: u8, p4: u8, p5: u8)
    requires
        pair_tail_ok(p1, p2, p4, p5),
    ensures
        final(out)@ == old(out)@ + encode_scalar(pair_scalar(p1, p2, p4, p5)),
{
    let hi: u32 = (((0xEDu8 & 0x0F) as u32) << 12) | (((p1 & 0x3f) as u32) << 6) | ((p2
        & 0x3f) as u32);
    let lo: u32 = (((0xEDu8 & 0x0F) as u32) << 12) | (((p4 & 0x3f) as u32) << 6) | ((p5
        & 0x3f) as u32);
    proof {
        lemma_pair_halves(p1, p2, p4, p5);
    }
    let c: u32 = 0x10000 + (hi - 0xD800) * 0x400 + (lo - 0xDC00);
    out.push(0xF0 | ((c >> 18) & 0x7) as u8);
    out.push(0x80 | ((c >> 12) & 0x3F) as u8);
    out.push(0x80 | ((c >> 6) & 0x3F) as u8);
    out.push(0x80 | (c & 0x3F) as u8);
    assert(out@ =~= old(out)@ + encode_scalar(pair_scalar(p1, p2, p4, p5)));
}

} // verus!
