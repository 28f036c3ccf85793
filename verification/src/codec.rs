//! The codec: one pass over a run of source bytes.
//!
//! The pass transcodes the units at the front of the run, one after the
//! other, and stops at the end of the run or at the first index where no unit
//! stands. Nothing is produced for bytes from that index on.

use vstd::prelude::*;
use vstd::utf8::{codepoint_width_4, encode_scalar};
use crate::surrogate::{pair_bytes, pair_scalar, push_pair, push_quad};
use crate::unit::{head_at, lemma_head_bounds, scan_head, Direction, Head};
use crate::variant::Variant;

verus! {

/// How far a pass over a run got, and why it stopped.
#[derive(Clone, Copy, Debug, PartialEq, Eq, Structural)]
pub enum Classification {
    /// The whole run was units; `produced` bytes came out.
    Complete { produced: usize },
    /// The first `valid_len` bytes were units; the rest begins a unit that
    /// needs more bytes than the run holds.
    Incomplete { valid_len: usize },
    /// The first `valid_len` bytes were units; the next `bad_len` bytes can
    /// never be part of one.
    Invalid { valid_len: usize, bad_len: usize },
}

impl Classification {
    /// How many bytes at the front of the run were units, in a run of
    /// `run_len` bytes.
    pub open spec fn valid_len(self, run_len: int) -> int {
        match self {
            Classification::Complete { .. } => run_len,
            Classification::Incomplete { valid_len } => valid_len as int,
            Classification::Invalid { valid_len, .. } => valid_len as int,
        }
    }

    /// How many bytes of the run are done with: the units, and the bad
    /// sequence if the pass stopped at one.
    pub open spec fn settled_len(self, run_len: int) -> int {
        match self {
            Classification::Complete { .. } => run_len,
            Classification::Incomplete { valid_len } => valid_len as int,
            Classification::Invalid { valid_len, bad_len } => valid_len + bad_len,
        }
    }
}

/// What the unit of `len` bytes at index `i` becomes.
///
/// Units of up to three bytes are the same in both encodings, but for the nul
/// character under [`Variant::Java`]. A four-byte UTF-8 unit becomes a
/// surrogate pair, and a surrogate pair a four-byte unit.
pub open spec fn unit_image(
    s: Seq<u8>,
    i: int,
    len: int,
    direction: Direction,
    variant: Variant,
) -> Seq<u8>
    recommends
        0 <= i,
        i + len <= s.len(),
        head_at(s, i, direction, variant) == (Head::Unit { len: len as usize }),
{
    match direction {
        Direction::Encode => {
            if len == 4 {
                pair_bytes(codepoint_width_4(s[i], s[i + 1], s[i + 2], s[i + 3]))
            } else if len == 1 && s[i] == 0 && variant.escapes_nul() {
                seq![0xC0u8, 0x80u8]
            } else {
                s.subrange(i, i + len)
            }
        },
        Direction::Decode => {
            if len == 6 {
                encode_scalar(pair_scalar(s[i + 1], s[i + 2], s[i + 4], s[i + 5]))
            } else if len == 2 && s[i] == 0xC0 {
                seq![0u8]
            } else {
                s.subrange(i, i + len)
            }
        },
    }
}

/// The index at which a pass that starts at `i` stops: the end of the
/// longest sequence of units from `i` on.
pub open spec fn run_end(s: Seq<u8>, i: int, direction: Direction, variant: Variant) -> int
    decreases s.len() - i,
{
    if 0 <= i < s.len() {
        match head_at(s, i, direction, variant) {
            Head::Unit { len } => if len >= 1 {
                run_end(s, i + len, direction, variant)
            } else {
                i
            },
            _ => i,
        }
    } else {
        i
    }
}

/// What a pass that starts at `i` produces: the images of the units up to
/// [`run_end`], in order.
pub open spec fn run_image(s: Seq<u8>, i: int, direction: Direction, variant: Variant) -> Seq<
    u8,
>
    decreases s.len() - i,
{
    if 0 <= i < s.len() {
        match head_at(s, i, direction, variant) {
            Head::Unit { len } => if len >= 1 {
                unit_image(s, i, len as int, direction, variant) + run_image(
                    s,
                    i + len,
                    direction,
                    variant,
                )
            } else {
                Seq::empty()
            },
            _ => Seq::empty(),
        }
    } else {
        Seq::empty()
    }
}

/// Whether the whole of `s` is units: well-formed text of the source
/// encoding.
pub open spec fn well_formed(s: Seq<u8>, direction: Direction, variant: Variant) -> bool {
    run_end(s, 0, direction, variant) == s.len()
}

/// What `s` becomes: the images of the units at its front.
pub open spec fn transcoded(s: Seq<u8>, direction: Direction, variant: Variant) -> Seq<u8> {
    run_image(s, 0, direction, variant)
}

/// The verdict of a pass over the whole of `s`.
pub open spec fn classify(s: Seq<u8>, direction: Direction, variant: Variant) -> Classification {
    let n = run_end(s, 0, direction, variant);
    if n >= s.len() {
        Classification::Complete { produced: transcoded(s, direction, variant).len() as usize }
    } else {
        match head_at(s, n, direction, variant) {
            Head::Bad { len } => Classification::Invalid {
                valid_len: n as usize,
                bad_len: len,
            },
            _ => Classification::Incomplete { valid_len: n as usize },
        }
    }
}

/// A pass stops inside the run or at its end, and where it stops inside no
/// unit stands.
pub proof fn lemma_run_end_bounds(s: Seq<u8>, i: int, direction: Direction, variant: Variant)
    requires
        0 <= i <= s.len(),
    ensures
        i <= run_end(s, i, direction, variant) <= s.len(),
        run_end(s, i, direction, variant) < s.len() ==> !(head_at(
            s,
            run_end(s, i, direction, variant),
            direction,
            variant,
        ) is Unit),
    decreases s.len() - i,
{
    if i < s.len() {
        lemma_head_bounds(s, i, direction, variant);
        match head_at(s, i, direction, variant) {
            Head::Unit { len } => {
                lemma_run_end_bounds(s, i + len, direction, variant);
            },
            _ => {},
        }
    }
}

/// Appends to `out` what the unit of `len` bytes at index `i` becomes.
pub fn push_unit_image(
    out: &mut Vec<u8>,
    bytes: &[u8],
    i: usize,
    len: usize,
    direction: Direction,
    variant: Variant,
)
    requires
        i < bytes.len(),
        head_at(bytes@, i as int, direction, variant) == (Head::Unit { len }),
    ensures
        final(out)@ == old(out)@ + unit_image(bytes@, i as int, len as int, direction, variant),
{
    proof {
        lemma_head_bounds(bytes@, i as int, direction, variant);
    }
    let java: bool = variant == Variant::Java;
    match direction {
        Direction::Encode => {
            if len == 4 {
                push_pair(out, bytes[i], bytes[i + 1], bytes[i + 2], bytes[i + 3]);
                return ;
            } else if len == 1 && bytes[i] == 0 && java {
                out.push(0xC0);
                out.push(0x80);
                assert(out@ =~= old(out)@ + seq![0xC0u8, 0x80u8]);
                return ;
            }
        },
        Direction::Decode => {
            if len == 6 {
                push_quad(out, bytes[i + 1], bytes[i + 2], bytes[i + 4], bytes[i + 5]);
                return ;
            } else if len == 2 && bytes[i] == 0xC0 {
                out.push(0);
                assert(out@ =~= old(out)@ + seq![0u8]);
                return ;
            }
        },
    }
    let mut k: usize = 0;
    while k < len
        invariant
            k <= len,
            i + len <= bytes.len(),
            out@ == old(out)@ + bytes@.subrange(i as int, i + k),
        decreases len - k,
    {
        out.push(bytes[i + k]);
        assert(bytes@.subrange(i as int, i + k + 1) =~= bytes@.subrange(i as int, i + k).push(
            bytes@[i + k],
        ));
        k += 1;
    }
}

/// Transcodes the units at the front of `bytes` and says how far they went.
///
/// The output is for the units before the index at which the verdict stops,
/// and for no byte after it.
pub fn transcode_run(bytes: &[u8], direction: Direction, variant: Variant) -> (r: (
    Vec<u8>,
    Classification,
))
    ensures
        r.0@ == transcoded(bytes@, direction, variant),
        r.1 == classify(bytes@, direction, variant),
        r.1 is Complete <==> well_formed(bytes@, direction, variant),
        0 <= r.1.valid_len(bytes.len() as int) <= r.1.settled_len(bytes.len() as int)
            <= bytes.len(),
        r.1.valid_len(bytes.len() as int) == run_end(bytes@, 0, direction, variant),
{
    let mut out: Vec<u8> = Vec::new();
    let mut i: usize = 0;
    proof {
        lemma_run_end_bounds(bytes@, 0, direction, variant);
    }
    while i < bytes.len()
        invariant
            i <= bytes.len(),
            run_end(bytes@, 0, direction, variant) == run_end(bytes@, i as int, direction, variant),
            transcoded(bytes@, direction, variant) == out@ + run_image(
                bytes@,
                i as int,
                direction,
                variant,
            ),
        decreases bytes.len() - i,
    {
        let head = scan_head(bytes, i, direction, variant);
        match head {
            Head::Unit { len } => {
                let ghost before = out@;
                push_unit_image(&mut out, bytes, i, len, direction, variant);
                assert(before + (unit_image(bytes@, i as int, len as int, direction, variant)
                    + run_image(bytes@, i + len, direction, variant)) =~= out@ + run_image(
                    bytes@,
                    i + len,
                    direction,
                    variant,
                ));
                i += len;
            },
            Head::Partial => {
                assert(out@ + Seq::<u8>::empty() =~= out@);
                return (out, Classification::Incomplete { valid_len: i });
            },
            Head::Bad { len } => {
                assert(out@ + Seq::<u8>::empty() =~= out@);
                return (out, Classification::Invalid { valid_len: i, bad_len: len });
            },
        }
    }
    assert(out@ + Seq::<u8>::empty() =~= out@);
    let produced: usize = out.len();
    (out, Classification::Complete { produced })
}

} // verus!
