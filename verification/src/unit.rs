//! Units: how one encoded character begins, in either encoding.
//!
//! A *unit* is the byte sequence of one character. Looking at the bytes from
//! some index on, exactly one of three things is true: a whole well-formed
//! unit stands there, the input ends inside what may still become one, or the
//! bytes can never become one however the input goes on.

use vstd::prelude::*;
use crate::variant::Variant;

verus! {

/// The longest unit of either encoding: a surrogate pair of the compact
/// encoding, two sequences of three bytes.
pub const MAX_UNIT_LEN: usize = 6;

/// Which way the bytes flow.
#[derive(Clone, Copy, Debug, PartialEq, Eq, Structural)]
pub enum Direction {
    /// From UTF-8 to the compact encoding.
    Encode,
    /// From the compact encoding to UTF-8.
    Decode,
}

impl Direction {
    /// Picks the direction from the command line's `decode` switch.
    pub fn from_decode_flag(decode: bool) -> (d: Direction)
        ensures
            d == (if decode {
                Direction::Decode
            } else {
                Direction::Encode
            }),
    {
        if decode {
            Direction::Decode
        } else {
            Direction::Encode
        }
    }
}

/// What stands at one index of the source bytes.
#[derive(Clone, Copy, Debug, PartialEq, Eq, Structural)]
pub enum Head {
    /// A whole well-formed unit of `len` bytes.
    Unit { len: usize },
    /// The input ends inside a sequence that more bytes could complete.
    Partial,
    /// `len` bytes that no continuation can turn into a unit.
    Bad { len: usize },
}

impl Head {
    /// How many bytes a scan may step over; nothing for `Partial`.
    pub open spec fn stride(self) -> int {
        match self {
            Head::Unit { len } => len as int,
            Head::Bad { len } => len as int,
            Head::Partial => 0,
        }
    }
}

/// A continuation byte, `10xxxxxx`.
pub open spec fn is_cont(b: u8) -> bool {
    0x80 <= b <= 0xBF
}

/// Whether `b1` may follow the lead byte `b0` of a three-byte UTF-8 unit.
/// The narrowed ranges shut out overlong forms and the surrogates.
pub open spec fn utf8_second_of_three(b0: u8, b1: u8) -> bool {
    if b0 == 0xE0 {
        0xA0 <= b1 <= 0xBF
    } else if b0 == 0xED {
        0x80 <= b1 <= 0x9F
    } else {
        is_cont(b1)
    }
}

/// Whether `b1` may follow the lead byte `b0` of a four-byte UTF-8 unit.
/// The narrowed ranges shut out overlong forms and values above `10FFFF`.
pub open spec fn utf8_second_of_four(b0: u8, b1: u8) -> bool {
    if b0 == 0xF0 {
        0x90 <= b1 <= 0xBF
    } else if b0 == 0xF4 {
        0x80 <= b1 <= 0x8F
    } else {
        is_cont(b1)
    }
}

/// Whether `b1` may follow the lead byte `b0` of a three-byte sequence of the
/// compact encoding. After `ED` the surrogate range is open, but only for the
/// high half: a low half cannot begin a unit.
pub open spec fn cesu8_second_of_three(b0: u8, b1: u8) -> bool {
    if b0 == 0xE0 {
        0xA0 <= b1 <= 0xBF
    } else if b0 == 0xED {
        0x80 <= b1 <= 0xAF
    } else {
        is_cont(b1)
    }
}

/// What stands at index `i` of UTF-8 bytes `s`.
///
/// A bad sequence is as long as the longest run of bytes from `i` that begins
/// some well-formed unit, and at least one byte.
pub open spec fn utf8_head(s: Seq<u8>, i: int) -> Head
    recommends
        0 <= i < s.len(),
{
    let b0 = s[i];
    let avail = s.len() - i;
    if b0 < 0x80 {
        Head::Unit { len: 1 }
    } else if 0xC2 <= b0 <= 0xDF {
        if avail < 2 {
            Head::Partial
        } else if !is_cont(s[i + 1]) {
            Head::Bad { len: 1 }
        } else {
            Head::Unit { len: 2 }
        }
    } else if 0xE0 <= b0 <= 0xEF {
        if avail < 2 {
            Head::Partial
        } else if !utf8_second_of_three(b0, s[i + 1]) {
            Head::Bad { len: 1 }
        } else if avail < 3 {
            Head::Partial
        } else if !is_cont(s[i + 2]) {
            Head::Bad { len: 2 }
        } else {
            Head::Unit { len: 3 }
        }
    } else if 0xF0 <= b0 <= 0xF4 {
        if avail < 2 {
            Head::Partial
        } else if !utf8_second_of_four(b0, s[i + 1]) {
            Head::Bad { len: 1 }
        } else if avail < 3 {
            Head::Partial
        } else if !is_cont(s[i + 2]) {
            Head::Bad { len: 2 }
        } else if avail < 4 {
            Head::Partial
        } else if !is_cont(s[i + 3]) {
            Head::Bad { len: 3 }
        } else {
            Head::Unit { len: 4 }
        }
    } else {
        Head::Bad { len: 1 }
    }
}

/// What stands at index `i` of bytes `s` in the compact encoding.
///
/// Characters up to `FFFF` are written as in UTF-8. A character above that is
/// a surrogate pair: a high half `ED A0..AF xx` followed at once by a low half
/// `ED B0..BF xx`. Four-byte sequences do not occur. Under
/// [`Variant::Java`] the nul character is `C0 80` and a zero byte is bad.
///
/// A high half that no low half follows is a bad sequence of three bytes, so
/// that a scan goes on with the byte after it.
pub open spec fn cesu8_head(s: Seq<u8>, i: int, variant: Variant) -> Head
    recommends
        0 <= i < s.len(),
{
    let b0 = s[i];
    let avail = s.len() - i;
    if b0 < 0x80 {
        if b0 == 0 && variant.escapes_nul() {
            Head::Bad { len: 1 }
        } else {
            Head::Unit { len: 1 }
        }
    } else if b0 == 0xC0 && variant.escapes_nul() {
        if avail < 2 {
            Head::Partial
        } else if s[i + 1] != 0x80 {
            Head::Bad { len: 1 }
        } else {
            Head::Unit { len: 2 }
        }
    } else if 0xC2 <= b0 <= 0xDF {
        if avail < 2 {
            Head::Partial
        } else if !is_cont(s[i + 1]) {
            Head::Bad { len: 1 }
        } else {
            Head::Unit { len: 2 }
        }
    } else if 0xE0 <= b0 <= 0xEF {
        if avail < 2 {
            Head::Partial
        } else if !cesu8_second_of_three(b0, s[i + 1]) {
            Head::Bad { len: 1 }
        } else if avail < 3 {
            Head::Partial
        } else if !is_cont(s[i + 2]) {
            Head::Bad { len: 2 }
        } else if !(b0 == 0xED && s[i + 1] >= 0xA0) {
            Head::Unit { len: 3 }
        } else if avail < 4 {
            Head::Partial
        } else if s[i + 3] != 0xED {
            Head::Bad { len: 3 }
        } else if avail < 5 {
            Head::Partial
        } else if !(0xB0 <= s[i + 4] <= 0xBF) {
            Head::Bad { len: 3 }
        } else if avail < 6 {
            Head::Partial
        } else if !is_cont(s[i + 5]) {
            Head::Bad { len: 3 }
        } else {
            Head::Unit { len: 6 }
        }
    } else {
        Head::Bad { len: 1 }
    }
}

/// What stands at index `i` of the source bytes of a run in `direction`.
pub open spec fn head_at(s: Seq<u8>, i: int, direction: Direction, variant: Variant) -> Head
    recommends
        0 <= i < s.len(),
{
    match direction {
        Direction::Encode => utf8_head(s, i),
        Direction::Decode => cesu8_head(s, i, variant),
    }
}

/// A unit or a bad sequence lies within the bytes at hand and is no longer
/// than the longest unit; the input ends inside a partial one before that
/// length is reached.
pub proof fn lemma_head_bounds(s: Seq<u8>, i: int, direction: Direction, variant: Variant)
    requires
        0 <= i < s.len(),
    ensures
        match head_at(s, i, direction, variant) {
            Head::Unit { len } => 1 <= len <= MAX_UNIT_LEN && i + len <= s.len(),
            Head::Bad { len } => 1 <= len < MAX_UNIT_LEN && i + len <= s.len(),
            Head::Partial => s.len() - i < MAX_UNIT_LEN,
        },
{
}

/// What stands at an index depends only on the bytes from that index on, and
/// a verdict other than `Partial` stands whatever bytes are added behind.
pub proof fn lemma_head_local(
    s: Seq<u8>,
    i: int,
    t: Seq<u8>,
    j: int,
    direction: Direction,
    variant: Variant,
)
    requires
        0 <= i < s.len(),
        0 <= j < t.len(),
        s.len() - i <= t.len() - j,
        forall|d: int| i <= d < s.len() ==> #[trigger] s[d] == t[d - i + j],
    ensures
        head_at(s, i, direction, variant) != Head::Partial ==> head_at(t, j, direction, variant)
            == head_at(s, i, direction, variant),
        s.len() - i == t.len() - j ==> head_at(t, j, direction, variant) == head_at(
            s,
            i,
            direction,
            variant,
        ),
{
    assert(s[i] == t[j]);
    if s.len() - i > 1 {
        assert(s[i + 1] == t[j + 1]);
    }
    if s.len() - i > 2 {
        assert(s[i + 2] == t[j + 2]);
    }
    if s.len() - i > 3 {
        assert(s[i + 3] == t[j + 3]);
    }
    if s.len() - i > 4 {
        assert(s[i + 4] == t[j + 4]);
    }
    if s.len() - i > 5 {
        assert(s[i + 5] == t[j + 5]);
    }
}

/// Reads what stands at index `i` of UTF-8 bytes.
pub fn scan_utf8_head(bytes: &[u8], i: usize) -> (h: Head)
    requires
        i < bytes.len(),
    ensures
        h == utf8_head(bytes@, i as int),
{
    let b0: u8 = bytes[i];
    let avail: usize = bytes.len() - i;
    if b0 < 0x80 {
        Head::Unit { len: 1 }
    } else if 0xC2 <= b0 && b0 <= 0xDF {
        if avail < 2 {
            Head::Partial
        } else if !byte_is_cont(bytes[i + 1]) {
            Head::Bad { len: 1 }
        } else {
            Head::Unit { len: 2 }
        }
    } else if 0xE0 <= b0 && b0 <= 0xEF {
        if avail < 2 {
            return Head::Partial;
        }
        let b1: u8 = bytes[i + 1];
        let second_ok: bool = if b0 == 0xE0 {
            0xA0 <= b1 && b1 <= 0xBF
        } else if b0 == 0xED {
            0x80 <= b1 && b1 <= 0x9F
        } else {
            byte_is_cont(b1)
        };
        if !second_ok {
            Head::Bad { len: 1 }
        } else if avail < 3 {
            Head::Partial
        } else if !byte_is_cont(bytes[i + 2]) {
            Head::Bad { len: 2 }
        } else {
            Head::Unit { len: 3 }
        }
    } else if 0xF0 <= b0 && b0 <= 0xF4 {
        if avail < 2 {
            return Head::Partial;
        }
        let b1: u8 = bytes[i + 1];
        let second_ok: bool = if b0 == 0xF0 {
            0x90 <= b1 && b1 <= 0xBF
        } else if b0 == 0xF4 {
            0x80 <= b1 && b1 <= 0x8F
        } else {
            byte_is_cont(b1)
        };
        if !second_ok {
            Head::Bad { len: 1 }
        } else if avail < 3 {
            Head::Partial
        } else if !byte_is_cont(bytes[i + 2]) {
            Head::Bad { len: 2 }
        } else if avail < 4 {
            Head::Partial
        } else if !byte_is_cont(bytes[i + 3]) {
            Head::Bad { len: 3 }
        } else {
            Head::Unit { len: 4 }
        }
    } else {
        Head::Bad { len: 1 }
    }
}

/// Tells a continuation byte.
pub fn byte_is_cont(b: u8) -> (r: bool)
    ensures
        r == is_cont(b),
{
    0x80 <= b && b <= 0xBF
}

/// Looks for the low half that must follow a high half standing at `i`.
fn scan_low_half(bytes: &[u8], i: usize) -> (h: Head)
    requires
        i + 3 <= bytes.len(),
    ensures
        h == (if bytes.len() - i < 4 {
            Head::Partial
        } else if bytes[i + 3] != 0xED {
            Head::Bad { len: 3 }
        } else if bytes.len() - i < 5 {
            Head::Partial
        } else if !(0xB0 <= bytes[i + 4] <= 0xBF) {
            Head::Bad { len: 3 }
        } else if bytes.len() - i < 6 {
            Head::Partial
        } else if !is_cont(bytes[i + 5]) {
            Head::Bad { len: 3 }
        } else {
            Head::Unit { len: 6 }
        }),
{
    let avail: usize = bytes.len() - i;
    if avail < 4 {
        Head::Partial
    } else if bytes[i + 3] != 0xED {
        Head::Bad { len: 3 }
    } else if avail < 5 {
        Head::Partial
    } else if !(0xB0 <= bytes[i + 4] && bytes[i + 4] <= 0xBF) {
        Head::Bad { len: 3 }
    } else if avail < 6 {
        Head::Partial
    } else if !byte_is_cont(bytes[i + 5]) {
        Head::Bad { len: 3 }
    } else {
        Head::Unit { len: 6 }
    }
}

/// Reads what stands at index `i` of bytes in the compact encoding.
pub fn scan_cesu8_head(bytes: &[u8], i: usize, variant: Variant) -> (h: Head)
    requires
        i < bytes.len(),
    ensures
        h == cesu8_head(bytes@, i as int, variant),
{
    let b0: u8 = bytes[i];
    let avail: usize = bytes.len() - i;
    let java: bool = variant == Variant::Java;
    if b0 < 0x80 {
        if b0 == 0 && java {
            Head::Bad { len: 1 }
        } else {
            Head::Unit { len: 1 }
        }
    } else if b0 == 0xC0 && java {
        if avail < 2 {
            Head::Partial
        } else if bytes[i + 1] != 0x80 {
            Head::Bad { len: 1 }
        } else {
            Head::Unit { len: 2 }
        }
    } else if 0xC2 <= b0 && b0 <= 0xDF {
        if avail < 2 {
            Head::Partial
        } else if !byte_is_cont(bytes[i + 1]) {
            Head::Bad { len: 1 }
        } else {
            Head::Unit { len: 2 }
        }
    } else if 0xE0 <= b0 && b0 <= 0xEF {
        if avail < 2 {
            return Head::Partial;
        }
        let b1: u8 = bytes[i + 1];
        let second_ok: bool = if b0 == 0xE0 {
            0xA0 <= b1 && b1 <= 0xBF
        } else if b0 == 0xED {
            0x80 <= b1 && b1 <= 0xAF
        } else {
            byte_is_cont(b1)
        };
        if !second_ok {
            Head::Bad { len: 1 }
        } else if avail < 3 {
            Head::Partial
        } else if !byte_is_cont(bytes[i + 2]) {
            Head::Bad { len: 2 }
        } else if !(b0 == 0xED && b1 >= 0xA0) {
            Head::Unit { len: 3 }
        } else {
            scan_low_half(bytes, i)
        }
    } else {
        Head::Bad { len: 1 }
    }
}

/// Reads what stands at index `i` of the source bytes of a run in
/// `direction`.
pub fn scan_head(bytes: &[u8], i: usize, direction: Direction, variant: Variant) -> (h: Head)
    requires
        i < bytes.len(),
    ensures
        h == head_at(bytes@, i as int, direction, variant),
        h is Unit ==> 1 <= h->Unit_len <= MAX_UNIT_LEN && i + h->Unit_len <= bytes.len(),
        h is Bad ==> 1 <= h->Bad_len < MAX_UNIT_LEN && i + h->Bad_len <= bytes.len(),
        h is Partial ==> bytes.len() - i < MAX_UNIT_LEN,
{
    proof {
        lemma_head_bounds(bytes@, i as int, direction, variant);
    }
    match direction {
        Direction::Encode => scan_utf8_head(bytes, i),
        Direction::Decode => scan_cesu8_head(bytes, i, variant),
    }
}

} // verus!
