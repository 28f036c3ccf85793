//! What holds of the codec as a whole.

use vstd::prelude::*;
use vstd::utf8::{
    codepoint_width_2, codepoint_width_3, codepoint_width_4, encode_scalar,
    last_continuation_byte, leading_byte_width_3, leading_byte_width_4, pop_first_scalar,
    second_last_continuation_byte, third_last_continuation_byte, valid_first_scalar, valid_utf8,
};
use crate::codec::{run_end, run_image, transcoded, unit_image, well_formed};
use crate::stream::lemma_unit_image_local;
use crate::surrogate::{
    high_surrogate, join_surrogates, lemma_pair_halves, lemma_quad_range, low_surrogate,
    pair_scalar, quad_ok, three_byte_form,
};
use crate::unit::{
    head_at, is_cont, lemma_head_bounds, lemma_head_local, utf8_head, utf8_second_of_four,
    utf8_second_of_three, Direction, Head,
};
use crate::variant::Variant;

verus! {

/// The high half of a character above `FFFF`, written in three bytes, is
/// `ED A0..AF xx`, and reads back as that half.
proof fn lemma_high_half_bytes(c: u32)
    requires
        0x10000 <= c <= 0x10FFFF,
    ensures
        ({
            let hi = high_surrogate(c);
            &&& 0xD800 <= hi <= 0xDBFF
            &&& leading_byte_width_3(hi) == 0xED
            &&& 0xA0 <= second_last_continuation_byte(hi) <= 0xAF
            &&& 0x80 <= last_continuation_byte(hi) <= 0xBF
            &&& codepoint_width_3(
                0xED,
                second_last_continuation_byte(hi),
                last_continuation_byte(hi),
            ) == hi
        }),
{
    let d: u32 = (c - 0x10000) as u32;
    assert(d >> 10 <= 0x3FF) by (bit_vector)
        requires
            d <= 0xFFFFF,
    ;
    let hi: u32 = (0xD800 + (d >> 10)) as u32;
    assert(hi == high_surrogate(c));
    assert({
        &&& 0xE0 | ((hi >> 12) & 0x0F) as u8 == 0xED
        &&& 0xA0 <= 0x80 | ((hi >> 6) & 0x3F) as u8 <= 0xAF
        &&& 0x80 <= 0x80 | (hi & 0x3F) as u8 <= 0xBF
        &&& (((0xEDu8 & 0x0F) as u32) << 12) | ((((0x80 | ((hi >> 6) & 0x3F) as u8) & 0x3f) as u32)
            << 6) | (((0x80 | (hi & 0x3F) as u8) & 0x3f) as u32) == hi
    }) by (bit_vector)
        requires
            0xD800 <= hi <= 0xDBFF,
    ;
}

/// The low half of a character above `FFFF`, written in three bytes, is
/// `ED B0..BF xx`, and reads back as that half.
proof fn lemma_low_half_bytes(c: u32)
    requires
        0x10000 <= c <= 0x10FFFF,
    ensures
        ({
            let lo = low_surrogate(c);
            &&& 0xDC00 <= lo <= 0xDFFF
            &&& leading_byte_width_3(lo) == 0xED
            &&& 0xB0 <= second_last_continuation_byte(lo) <= 0xBF
            &&& 0x80 <= last_continuation_byte(lo) <= 0xBF
            &&& codepoint_width_3(
                0xED,
                second_last_continuation_byte(lo),
                last_continuation_byte(lo),
            ) == lo
        }),
{
    let d: u32 = (c - 0x10000) as u32;
    assert(d & 0x3FF <= 0x3FF) by (bit_vector);
    let lo: u32 = (0xDC00 + (d & 0x3FF)) as u32;
    assert(lo == low_surrogate(c));
    assert({
        &&& 0xE0 | ((lo >> 12) & 0x0F) as u8 == 0xED
        &&& 0xB0 <= 0x80 | ((lo >> 6) & 0x3F) as u8 <= 0xBF
        &&& 0x80 <= 0x80 | (lo & 0x3F) as u8 <= 0xBF
        &&& (((0xEDu8 & 0x0F) as u32) << 12) | ((((0x80 | ((lo >> 6) & 0x3F) as u8) & 0x3f) as u32)
            << 6) | (((0x80 | (lo & 0x3F) as u8) & 0x3f) as u32) == lo
    }) by (bit_vector)
        requires
            0xDC00 <= lo <= 0xDFFF,
    ;
}

/// The two halves of a character above `FFFF` stand for that character.
proof fn lemma_join_split(c: u32)
    requires
        0x10000 <= c <= 0x10FFFF,
    ensures
        join_surrogates(high_surrogate(c), low_surrogate(c)) == c,
{
    let d: u32 = (c - 0x10000) as u32;
    assert((d >> 10) * 0x400 + (d & 0x3FF) == d && d >> 10 <= 0x3FF && d & 0x3FF <= 0x3FF)
        by (bit_vector)
        requires
            d <= 0xFFFFF,
    ;
}

/// The character of a well-formed four-byte unit, written in four bytes, is
/// that unit.
proof fn lemma_quad_bytes(b0: u8, b1: u8, b2: u8, b3: u8)
    requires
        quad_ok(b0, b1, b2, b3),
    ensures
        encode_scalar(codepoint_width_4(b0, b1, b2, b3)) == seq![b0, b1, b2, b3],
{
    let c = codepoint_width_4(b0, b1, b2, b3);
    lemma_quad_range(b0, b1, b2, b3);
    assert({
        let c = (((b0 & 0x07) as u32) << 18) | (((b1 & 0x3f) as u32) << 12) | (((b2 & 0x3f) as u32)
            << 6) | ((b3 & 0x3f) as u32);
        &&& 0xF0 | ((c >> 18) & 0x7) as u8 == b0
        &&& 0x80 | ((c >> 12) & 0x3F) as u8 == b1
        &&& 0x80 | ((c >> 6) & 0x3F) as u8 == b2
        &&& 0x80 | (c & 0x3F) as u8 == b3
    }) by (bit_vector)
        requires
            0xF0 <= b0 <= 0xF4,
            0x80 <= b1 <= 0xBF,
            0x80 <= b2 <= 0xBF,
            0x80 <= b3 <= 0xBF,
    ;
    assert(leading_byte_width_4(c) == b0);
    assert(third_last_continuation_byte(c) == b1);
    assert(second_last_continuation_byte(c) == b2);
    assert(last_continuation_byte(c) == b3);
}

/// What a UTF-8 unit becomes is one unit of the compact encoding, and that
/// unit becomes the UTF-8 unit again.
proof fn lemma_unit_round_trip(s: Seq<u8>, i: int, variant: Variant)
    requires
        0 <= i < s.len(),
        head_at(s, i, Direction::Encode, variant) is Unit,
    ensures
        ({
            let len = head_at(s, i, Direction::Encode, variant).stride();
            let u = unit_image(s, i, len, Direction::Encode, variant);
            &&& 1 <= u.len() <= 6
            &&& head_at(u, 0, Direction::Decode, variant) == (Head::Unit { len: u.len() as usize })
            &&& unit_image(u, 0, u.len() as int, Direction::Decode, variant) == s.subrange(
                i,
                i + len,
            )
        }),
{
    let len = head_at(s, i, Direction::Encode, variant).stride();
    let u = unit_image(s, i, len, Direction::Encode, variant);
    lemma_head_bounds(s, i, Direction::Encode, variant);
    if len == 4 {
        let c = codepoint_width_4(s[i], s[i + 1], s[i + 2], s[i + 3]);
        lemma_quad_range(s[i], s[i + 1], s[i + 2], s[i + 3]);
        lemma_high_half_bytes(c);
        lemma_low_half_bytes(c);
        lemma_join_split(c);
        lemma_quad_bytes(s[i], s[i + 1], s[i + 2], s[i + 3]);
        assert(u.len() == 6);
        assert(pair_scalar(u[1], u[2], u[4], u[5]) == c);
        assert(seq![s[i], s[i + 1], s[i + 2], s[i + 3]] =~= s.subrange(i, i + len));
    } else if len == 1 && s[i] == 0 && variant.escapes_nul() {
        assert(seq![0u8] =~= s.subrange(i, i + len));
    } else {
        assert(u.subrange(0, u.len() as int) =~= u);
    }
}

/// A pass over bytes that stand behind other bytes goes as a pass over them
/// alone.
pub proof fn lemma_run_shift(
    a: Seq<u8>,
    b: Seq<u8>,
    j: int,
    direction: Direction,
    variant: Variant,
)
    requires
        0 <= j <= b.len(),
    ensures
        run_end(a + b, a.len() + j, direction, variant) == a.len() + run_end(
            b,
            j,
            direction,
            variant,
        ),
        run_image(a + b, a.len() + j, direction, variant) == run_image(b, j, direction, variant),
    decreases b.len() - j,
{
    if j < b.len() {
        lemma_head_bounds(b, j, direction, variant);
        lemma_head_local(b, j, a + b, a.len() + j, direction, variant);
        match head_at(b, j, direction, variant) {
            Head::Unit { len } => {
                lemma_run_shift(a, b, j + len, direction, variant);
                lemma_unit_image_local(
                    b,
                    j,
                    a + b,
                    a.len() + j,
                    len as int,
                    direction,
                    variant,
                );
            },
            _ => {},
        }
    }
}

/// From any unit boundary of well-formed UTF-8 on: what the rest is encoded
/// to is well-formed, and decodes to the rest.
proof fn lemma_round_trip_from(s: Seq<u8>, i: int, variant: Variant)
    requires
        0 <= i <= s.len(),
        run_end(s, i, Direction::Encode, variant) == s.len(),
    ensures
        ({
            let t = run_image(s, i, Direction::Encode, variant);
            &&& well_formed(t, Direction::Decode, variant)
            &&& transcoded(t, Direction::Decode, variant) == s.subrange(i, s.len() as int)
        }),
    decreases s.len() - i,
{
    let t = run_image(s, i, Direction::Encode, variant);
    if i < s.len() {
        lemma_head_bounds(s, i, Direction::Encode, variant);
        let len = head_at(s, i, Direction::Encode, variant).stride();
        let u = unit_image(s, i, len, Direction::Encode, variant);
        let rest = run_image(s, i + len, Direction::Encode, variant);
        lemma_round_trip_from(s, i + len, variant);
        lemma_unit_round_trip(s, i, variant);
        assert(t == u + rest);
        lemma_head_local(u, 0, t, 0, Direction::Decode, variant);
        lemma_unit_image_local(u, 0, t, 0, u.len() as int, Direction::Decode, variant);
        lemma_run_shift(u, rest, 0, Direction::Decode, variant);
        assert(s.subrange(i, i + len) + s.subrange(i + len, s.len() as int) =~= s.subrange(
            i,
            s.len() as int,
        ));
    } else {
        assert(s.subrange(i, s.len() as int) =~= Seq::<u8>::empty());
    }
}

/// Round trip: what well-formed UTF-8 is encoded to is well-formed in the
/// compact encoding of the same variant, and decodes to the UTF-8 it came
/// from.
pub proof fn lemma_round_trip(s: Seq<u8>, variant: Variant)
    requires
        well_formed(s, Direction::Encode, variant),
    ensures
        well_formed(transcoded(s, Direction::Encode, variant), Direction::Decode, variant),
        transcoded(transcoded(s, Direction::Encode, variant), Direction::Decode, variant) == s,
{
    lemma_round_trip_from(s, 0, variant);
    assert(s.subrange(0, s.len() as int) =~= s);
}

/// From an index inside well-formed bytes `a`, a pass over `a` with `b`
/// behind goes through the rest of `a` as a pass over `a` alone, and on
/// into `b`.
proof fn lemma_run_through(
    a: Seq<u8>,
    b: Seq<u8>,
    i: int,
    direction: Direction,
    variant: Variant,
)
    requires
        0 <= i <= a.len(),
        run_end(a, i, direction, variant) == a.len(),
    ensures
        run_end(a + b, i, direction, variant) == run_end(
            a + b,
            a.len() as int,
            direction,
            variant,
        ),
        run_image(a + b, i, direction, variant) == run_image(a, i, direction, variant)
            + run_image(a + b, a.len() as int, direction, variant),
    decreases a.len() - i,
{
    if i < a.len() {
        lemma_head_bounds(a, i, direction, variant);
        lemma_head_local(a, i, a + b, i, direction, variant);
        let len = head_at(a, i, direction, variant).stride();
        lemma_run_through(a, b, i + len, direction, variant);
        lemma_unit_image_local(a, i, a + b, i, len, direction, variant);
        let image = unit_image(a, i, len, direction, variant);
        assert(image + (run_image(a, i + len, direction, variant) + run_image(
            a + b,
            a.len() as int,
            direction,
            variant,
        )) =~= (image + run_image(a, i + len, direction, variant)) + run_image(
            a + b,
            a.len() as int,
            direction,
            variant,
        ));
    } else {
        assert(run_image(a, i, direction, variant) + run_image(
            a + b,
            a.len() as int,
            direction,
            variant,
        ) =~= run_image(a + b, a.len() as int, direction, variant));
    }
}

/// Cutting a stream at a unit boundary changes nothing: behind well-formed
/// bytes `a`, the bytes `b` are transcoded as they are alone, the two
/// outputs in order are the output of the whole, and a pass over the whole
/// stops where a pass over `b` stops.
pub proof fn lemma_split_at_boundary(
    a: Seq<u8>,
    b: Seq<u8>,
    direction: Direction,
    variant: Variant,
)
    requires
        well_formed(a, direction, variant),
    ensures
        transcoded(a + b, direction, variant) == transcoded(a, direction, variant) + transcoded(
            b,
            direction,
            variant,
        ),
        run_end(a + b, 0, direction, variant) == a.len() + run_end(b, 0, direction, variant),
        well_formed(a + b, direction, variant) == well_formed(b, direction, variant),
{
    lemma_run_through(a, b, 0, direction, variant);
    lemma_run_shift(a, b, 0, direction, variant);
}

/// The lead byte and the continuation bytes of a two-byte sequence write a
/// value of at least `80` exactly if the lead byte is at least `C2`.
proof fn lemma_two_byte_range(b0: u8, b1: u8)
    requires
        0xC0 <= b0 <= 0xDF,
        is_cont(b1),
    ensures
        0x80 <= codepoint_width_2(b0, b1) <==> 0xC2 <= b0,
        codepoint_width_2(b0, b1) <= 0x7FF,
{
    assert((0x80 <= ((((b0 & 0x1F) as u32) << 6) | ((b1 & 0x3f) as u32)) <==> 0xC2 <= b0) && ((((b0
        & 0x1F) as u32) << 6) | ((b1 & 0x3f) as u32)) <= 0x7FF) by (bit_vector)
        requires
            0xC0 <= b0 <= 0xDF,
            0x80 <= b1 <= 0xBF,
    ;
}

/// A three-byte sequence writes a value from `800` on that is no surrogate
/// exactly if its second byte is in the range that its lead byte allows.
proof fn lemma_three_byte_range(b0: u8, b1: u8, b2: u8)
    requires
        0xE0 <= b0 <= 0xEF,
        is_cont(b1),
        is_cont(b2),
    ensures
        ({
            let c = codepoint_width_3(b0, b1, b2);
            0x800 <= c && !(0xD800 <= c <= 0xDFFF)
        }) <==> utf8_second_of_three(b0, b1),
{
    assert(({
        let c = (((b0 & 0x0F) as u32) << 12) | (((b1 & 0x3f) as u32) << 6) | ((b2 & 0x3f) as u32);
        0x800 <= c && !(0xD800 <= c <= 0xDFFF)
    }) <==> (if b0 == 0xE0 {
        0xA0 <= b1 <= 0xBF
    } else if b0 == 0xED {
        0x80 <= b1 <= 0x9F
    } else {
        0x80 <= b1 <= 0xBF
    })) by (bit_vector)
        requires
            0xE0 <= b0 <= 0xEF,
            0x80 <= b1 <= 0xBF,
            0x80 <= b2 <= 0xBF,
    ;
}

/// A four-byte sequence writes a value from `10000` to `10FFFF` exactly if
/// its lead byte is at most `F4` and its second byte is in the range that
/// the lead byte allows.
proof fn lemma_four_byte_range(b0: u8, b1: u8, b2: u8, b3: u8)
    requires
        0xF0 <= b0 <= 0xF7,
        is_cont(b1),
        is_cont(b2),
        is_cont(b3),
    ensures
        0x10000 <= codepoint_width_4(b0, b1, b2, b3) <= 0x10FFFF <==> b0 <= 0xF4
            && utf8_second_of_four(b0, b1),
{
    assert(({
        let c = (((b0 & 0x07) as u32) << 18) | (((b1 & 0x3f) as u32) << 12) | (((b2 & 0x3f) as u32)
            << 6) | ((b3 & 0x3f) as u32);
        0x10000 <= c <= 0x10FFFF
    }) <==> b0 <= 0xF4 && (if b0 == 0xF0 {
        0x90 <= b1 <= 0xBF
    } else if b0 == 0xF4 {
        0x80 <= b1 <= 0x8F
    } else {
        0x80 <= b1 <= 0xBF
    })) by (bit_vector)
        requires
            0xF0 <= b0 <= 0xF7,
            0x80 <= b1 <= 0xBF,
            0x80 <= b2 <= 0xBF,
            0x80 <= b3 <= 0xBF,
    ;
}

/// A UTF-8 unit stands at the front of `t` exactly if `t` begins with the
/// UTF-8 encoding of a Unicode scalar value, and it is as long.
proof fn lemma_unit_is_first_scalar(t: Seq<u8>)
    requires
        t.len() > 0,
    ensures
        utf8_head(t, 0) is Unit <==> valid_first_scalar(t),
        utf8_head(t, 0) is Unit ==> pop_first_scalar(t) == t.subrange(
            utf8_head(t, 0).stride(),
            t.len() as int,
        ),
{
    let b0 = t[0];
    assert((b0 & 0x7F) as u32 <= 0x7F) by (bit_vector);
    if 0xC0 <= b0 <= 0xDF && t.len() >= 2 && is_cont(t[1]) {
        lemma_two_byte_range(b0, t[1]);
    }
    if 0xE0 <= b0 <= 0xEF && t.len() >= 3 && is_cont(t[1]) && is_cont(t[2]) {
        lemma_three_byte_range(b0, t[1], t[2]);
    }
    if 0xF0 <= b0 <= 0xF7 && t.len() >= 4 && is_cont(t[1]) && is_cont(t[2]) && is_cont(t[3]) {
        lemma_four_byte_range(b0, t[1], t[2], t[3]);
    }
}

/// From any index on: the rest of `s` is units exactly if it is valid
/// UTF-8.
proof fn lemma_well_formed_from(s: Seq<u8>, i: int, variant: Variant)
    requires
        0 <= i <= s.len(),
    ensures
        run_end(s, i, Direction::Encode, variant) == s.len() <==> valid_utf8(
            s.subrange(i, s.len() as int),
        ),
    decreases s.len() - i,
{
    let t = s.subrange(i, s.len() as int);
    if i < s.len() {
        lemma_head_bounds(s, i, Direction::Encode, variant);
        lemma_head_local(s, i, t, 0, Direction::Encode, variant);
        lemma_unit_is_first_scalar(t);
        if utf8_head(s, i) is Unit {
            let len = utf8_head(s, i).stride();
            lemma_well_formed_from(s, i + len, variant);
            assert(t.subrange(len, t.len() as int) =~= s.subrange(i + len, s.len() as int));
        }
    }
}

/// The source bytes that this library takes as well-formed when it encodes
/// are the valid UTF-8 byte sequences: the encodings of sequences of Unicode
/// scalar values.
pub proof fn lemma_well_formed_is_valid_utf8(s: Seq<u8>, variant: Variant)
    ensures
        well_formed(s, Direction::Encode, variant) <==> valid_utf8(s),
{
    lemma_well_formed_from(s, 0, variant);
    assert(s.subrange(0, s.len() as int) =~= s);
}

/// A character above `FFFF`, written in four bytes, is a well-formed
/// four-byte unit that reads back as the character.
proof fn lemma_scalar_quad(c: u32)
    requires
        0x10000 <= c <= 0x10FFFF,
    ensures
        quad_ok(
            leading_byte_width_4(c),
            third_last_continuation_byte(c),
            second_last_continuation_byte(c),
            last_continuation_byte(c),
        ),
        codepoint_width_4(
            leading_byte_width_4(c),
            third_last_continuation_byte(c),
            second_last_continuation_byte(c),
            last_continuation_byte(c),
        ) == c,
{
    assert({
        let q0 = 0xF0 | ((c >> 18) & 0x7) as u8;
        let q1 = 0x80 | ((c >> 12) & 0x3F) as u8;
        let q2 = 0x80 | ((c >> 6) & 0x3F) as u8;
        let q3 = 0x80 | (c & 0x3F) as u8;
        &&& 0xF0 <= q0 <= 0xF4
        &&& if q0 == 0xF0 {
            0x90 <= q1 <= 0xBF
        } else if q0 == 0xF4 {
            0x80 <= q1 <= 0x8F
        } else {
            0x80 <= q1 <= 0xBF
        }
        &&& 0x80 <= q2 <= 0xBF
        &&& 0x80 <= q3 <= 0xBF
        &&& (((q0 & 0x07) as u32) << 18) | (((q1 & 0x3f) as u32) << 12) | (((q2 & 0x3f) as u32)
            << 6) | ((q3 & 0x3f) as u32) == c
    }) by (bit_vector)
        requires
            0x10000 <= c <= 0x10FFFF,
    ;
}

/// A surrogate, written in three bytes, is the three bytes that it was read
/// from.
proof fn lemma_half_bytes_back(p1: u8, p2: u8)
    requires
        0xA0 <= p1 <= 0xBF,
        is_cont(p2),
    ensures
        three_byte_form(codepoint_width_3(0xED, p1, p2)) == seq![0xEDu8, p1, p2],
{
    let x = codepoint_width_3(0xED, p1, p2);
    assert({
        let x = (((0xEDu8 & 0x0F) as u32) << 12) | (((p1 & 0x3f) as u32) << 6) | ((p2
            & 0x3f) as u32);
        &&& 0xE0 | ((x >> 12) & 0x0F) as u8 == 0xED
        &&& 0x80 | ((x >> 6) & 0x3F) as u8 == p1
        &&& 0x80 | (x & 0x3F) as u8 == p2
    }) by (bit_vector)
        requires
            0xA0 <= p1 <= 0xBF,
            0x80 <= p2 <= 0xBF,
    ;
    assert(three_byte_form(x) =~= seq![0xEDu8, p1, p2]);
}

/// The character of two halves splits into those halves.
proof fn lemma_split_join(hi: u32, lo: u32)
    requires
        0xD800 <= hi <= 0xDBFF,
        0xDC00 <= lo <= 0xDFFF,
    ensures
        0x10000 <= join_surrogates(hi, lo) <= 0x10FFFF,
        high_surrogate(join_surrogates(hi, lo)) == hi,
        low_surrogate(join_surrogates(hi, lo)) == lo,
{
    let h: u32 = (hi - 0xD800) as u32;
    let l: u32 = (lo - 0xDC00) as u32;
    let d: u32 = (h * 0x400 + l) as u32;
    assert(d >> 10 == h && d & 0x3FF == l) by (bit_vector)
        requires
            h <= 0x3FF,
            l <= 0x3FF,
            d == h * 0x400 + l,
    ;
}

/// What a unit of the compact encoding becomes is one UTF-8 unit, and that
/// unit becomes the unit of the compact encoding again.
proof fn lemma_unit_round_trip_back(s: Seq<u8>, i: int, variant: Variant)
    requires
        0 <= i < s.len(),
        head_at(s, i, Direction::Decode, variant) is Unit,
    ensures
        ({
            let len = head_at(s, i, Direction::Decode, variant).stride();
            let u = unit_image(s, i, len, Direction::Decode, variant);
            &&& 1 <= u.len() <= 6
            &&& head_at(u, 0, Direction::Encode, variant) == (Head::Unit { len: u.len() as usize })
            &&& unit_image(u, 0, u.len() as int, Direction::Encode, variant) == s.subrange(
                i,
                i + len,
            )
        }),
{
    let len = head_at(s, i, Direction::Decode, variant).stride();
    let u = unit_image(s, i, len, Direction::Decode, variant);
    lemma_head_bounds(s, i, Direction::Decode, variant);
    if len == 6 {
        let hi = codepoint_width_3(0xED, s[i + 1], s[i + 2]);
        let lo = codepoint_width_3(0xED, s[i + 4], s[i + 5]);
        let c = pair_scalar(s[i + 1], s[i + 2], s[i + 4], s[i + 5]);
        lemma_pair_halves(s[i + 1], s[i + 2], s[i + 4], s[i + 5]);
        lemma_scalar_quad(c);
        lemma_split_join(hi, lo);
        lemma_half_bytes_back(s[i + 1], s[i + 2]);
        lemma_half_bytes_back(s[i + 4], s[i + 5]);
        assert(u.len() == 4);
        assert(codepoint_width_4(u[0], u[1], u[2], u[3]) == c);
        assert(seq![0xEDu8, s[i + 1], s[i + 2]] + seq![0xEDu8, s[i + 4], s[i + 5]] =~= s.subrange(
            i,
            i + len,
        ));
    } else if len == 2 && s[i] == 0xC0 {
        assert(seq![0xC0u8, 0x80u8] =~= s.subrange(i, i + len));
    } else {
        assert(u.subrange(0, u.len() as int) =~= u);
    }
}

/// From any unit boundary of well-formed bytes of the compact encoding on:
/// what the rest is decoded to is well-formed UTF-8, and encodes to the
/// rest.
proof fn lemma_round_trip_back_from(s: Seq<u8>, i: int, variant: Variant)
    requires
        0 <= i <= s.len(),
        run_end(s, i, Direction::Decode, variant) == s.len(),
    ensures
        ({
            let t = run_image(s, i, Direction::Decode, variant);
            &&& well_formed(t, Direction::Encode, variant)
            &&& transcoded(t, Direction::Encode, variant) == s.subrange(i, s.len() as int)
        }),
    decreases s.len() - i,
{
    let t = run_image(s, i, Direction::Decode, variant);
    if i < s.len() {
        lemma_head_bounds(s, i, Direction::Decode, variant);
        let len = head_at(s, i, Direction::Decode, variant).stride();
        let u = unit_image(s, i, len, Direction::Decode, variant);
        let rest = run_image(s, i + len, Direction::Decode, variant);
        lemma_round_trip_back_from(s, i + len, variant);
        lemma_unit_round_trip_back(s, i, variant);
        assert(t == u + rest);
        lemma_head_local(u, 0, t, 0, Direction::Encode, variant);
        lemma_unit_image_local(u, 0, t, 0, u.len() as int, Direction::Encode, variant);
        lemma_run_shift(u, rest, 0, Direction::Encode, variant);
        assert(s.subrange(i, i + len) + s.subrange(i + len, s.len() as int) =~= s.subrange(
            i,
            s.len() as int,
        ));
    } else {
        assert(s.subrange(i, s.len() as int) =~= Seq::<u8>::empty());
    }
}

/// Round trip from the other side: what well-formed bytes of the compact
/// encoding are decoded to is well-formed UTF-8, and encodes under the same
/// variant to the bytes it came from. Every text has one compact encoding.
pub proof fn lemma_round_trip_back(s: Seq<u8>, variant: Variant)
    requires
        well_formed(s, Direction::Decode, variant),
    ensures
        well_formed(transcoded(s, Direction::Decode, variant), Direction::Encode, variant),
        transcoded(transcoded(s, Direction::Decode, variant), Direction::Encode, variant) == s,
{
    lemma_round_trip_back_from(s, 0, variant);
    assert(s.subrange(0, s.len() as int) =~= s);
}

} // verus!
