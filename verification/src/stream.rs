//! The stream as a whole: what a run over it consumes and produces, told
//! over the offsets of the stream and not over the buffer of the moment.
//!
//! A run walks the stream from one boundary to the next. It steps over a
//! unit and emits its image; it steps over a bad sequence, emits nothing and
//! notes a fault. The functions here describe such a walk between two
//! offsets, and the lemmas carry what a pass over a window of the stream
//! found back to the stream.

use vstd::prelude::*;
use crate::codec::{run_end, run_image, unit_image};
use crate::unit::{head_at, lemma_head_bounds, lemma_head_local, Direction, Head};
use crate::variant::Variant;

verus! {

/// Whether a walk that starts at offset `i` comes to stand at offset `p`.
pub open spec fn boundary(
    s: Seq<u8>,
    i: int,
    p: int,
    direction: Direction,
    variant: Variant,
) -> bool
    decreases s.len() - i,
{
    if i >= p {
        i == p
    } else if 0 <= i < s.len() {
        let stride = head_at(s, i, direction, variant).stride();
        stride >= 1 && boundary(s, i + stride, p, direction, variant)
    } else {
        false
    }
}

/// What a walk from offset `i` to offset `p` emits: the images of the units
/// on its way.
pub open spec fn span_image(
    s: Seq<u8>,
    i: int,
    p: int,
    direction: Direction,
    variant: Variant,
) -> Seq<u8>
    decreases s.len() - i,
{
    if 0 <= i < p && i < s.len() {
        match head_at(s, i, direction, variant) {
            Head::Unit { len } => if len >= 1 {
                unit_image(s, i, len as int, direction, variant) + span_image(
                    s,
                    i + len,
                    p,
                    direction,
                    variant,
                )
            } else {
                Seq::empty()
            },
            Head::Bad { len } => if len >= 1 {
                span_image(s, i + len, p, direction, variant)
            } else {
                Seq::empty()
            },
            Head::Partial => Seq::empty(),
        }
    } else {
        Seq::empty()
    }
}

/// The faults that a walk from offset `i` to offset `p` notes: offset and
/// length of each bad sequence on its way.
pub open spec fn span_faults(
    s: Seq<u8>,
    i: int,
    p: int,
    direction: Direction,
    variant: Variant,
) -> Seq<(usize, usize)>
    decreases s.len() - i,
{
    if 0 <= i < p && i < s.len() {
        match head_at(s, i, direction, variant) {
            Head::Unit { len } => if len >= 1 {
                span_faults(s, i + len, p, direction, variant)
            } else {
                Seq::empty()
            },
            Head::Bad { len } => if len >= 1 {
                seq![(i as usize, len)] + span_faults(s, i + len, p, direction, variant)
            } else {
                Seq::empty()
            },
            Head::Partial => Seq::empty(),
        }
    } else {
        Seq::empty()
    }
}

/// What a unit becomes depends on its own bytes only.
pub proof fn lemma_unit_image_local(
    s: Seq<u8>,
    i: int,
    t: Seq<u8>,
    j: int,
    len: int,
    direction: Direction,
    variant: Variant,
)
    requires
        0 <= i,
        0 <= j,
        1 <= len <= 6,
        i + len <= s.len(),
        j + len <= t.len(),
        forall|d: int| i <= d < i + len ==> #[trigger] s[d] == t[d - i + j],
    ensures
        unit_image(s, i, len, direction, variant) == unit_image(t, j, len, direction, variant),
{
    assert(s[i] == t[j]);
    if len > 1 {
        assert(s[i + 1] == t[j + 1]);
    }
    if len > 2 {
        assert(s[i + 2] == t[j + 2]);
    }
    if len > 3 {
        assert(s[i + 3] == t[j + 3]);
    }
    if len > 4 {
        assert(s[i + 4] == t[j + 4]);
    }
    if len > 5 {
        assert(s[i + 5] == t[j + 5]);
    }
    assert(s.subrange(i, i + len) =~= t.subrange(j, j + len));
}

/// A walk that stands at `p` and goes on from there to `q` is one walk to
/// `q`: it emits and notes what the two parts do, in order.
pub proof fn lemma_walk_append(
    s: Seq<u8>,
    i: int,
    p: int,
    q: int,
    direction: Direction,
    variant: Variant,
)
    requires
        0 <= i <= p <= q <= s.len(),
        boundary(s, i, p, direction, variant),
        boundary(s, p, q, direction, variant),
    ensures
        boundary(s, i, q, direction, variant),
        span_image(s, i, q, direction, variant) == span_image(s, i, p, direction, variant)
            + span_image(s, p, q, direction, variant),
        span_faults(s, i, q, direction, variant) == span_faults(s, i, p, direction, variant)
            + span_faults(s, p, q, direction, variant),
    decreases p - i,
{
    if i < p {
        lemma_head_bounds(s, i, direction, variant);
        let stride = head_at(s, i, direction, variant).stride();
        lemma_walk_reaches(s, i + stride, p, direction, variant);
        lemma_walk_append(s, i + stride, p, q, direction, variant);
        let rest_image = span_image(s, i + stride, p, direction, variant);
        let rest_faults = span_faults(s, i + stride, p, direction, variant);
        match head_at(s, i, direction, variant) {
            Head::Unit { len } => {
                let image = unit_image(s, i, len as int, direction, variant);
                assert(image + (rest_image + span_image(s, p, q, direction, variant)) =~= (image
                    + rest_image) + span_image(s, p, q, direction, variant));
            },
            Head::Bad { len } => {
                let fault = seq![(i as usize, len)];
                assert(fault + (rest_faults + span_faults(s, p, q, direction, variant)) =~= (fault
                    + rest_faults) + span_faults(s, p, q, direction, variant));
            },
            Head::Partial => {},
        }
    } else {
        assert(span_image(s, i, p, direction, variant) + span_image(s, p, q, direction, variant)
            =~= span_image(s, p, q, direction, variant));
        assert(span_faults(s, i, p, direction, variant) + span_faults(
            s,
            p,
            q,
            direction,
            variant,
        ) =~= span_faults(s, p, q, direction, variant));
    }
}

/// A walk only moves forward.
pub proof fn lemma_walk_reaches(s: Seq<u8>, i: int, p: int, direction: Direction, variant: Variant)
    requires
        boundary(s, i, p, direction, variant),
    ensures
        i <= p,
{
}

/// What a pass over a window of the stream finds holds of the stream.
///
/// The window is the bytes of `s` from `pos` up to `taken`, and the pass
/// starts at index `j` of the window. The units that it steps over are units
/// of the stream with the same images, and no fault lies among them. A bad
/// sequence at which it stops is one of the stream. If the window reaches to
/// the end of the stream, whatever stops the pass stands in the stream too.
pub proof fn lemma_window_run(
    s: Seq<u8>,
    pos: int,
    taken: int,
    j: int,
    direction: Direction,
    variant: Variant,
)
    requires
        0 <= pos <= taken <= s.len(),
        0 <= j <= taken - pos,
    ensures
        ({
            let w = s.subrange(pos, taken);
            let e = run_end(w, j, direction, variant);
            &&& j <= e <= w.len()
            &&& boundary(s, pos + j, pos + e, direction, variant)
            &&& span_image(s, pos + j, pos + e, direction, variant) == run_image(
                w,
                j,
                direction,
                variant,
            )
            &&& span_faults(s, pos + j, pos + e, direction, variant) == Seq::<
                (usize, usize),
            >::empty()
            &&& run_end(s, pos + j, direction, variant) == run_end(s, pos + e, direction, variant)
            &&& e < w.len() ==> !(head_at(w, e, direction, variant) is Unit)
            &&& e < w.len() && (head_at(w, e, direction, variant) is Bad || taken == s.len())
                ==> head_at(s, pos + e, direction, variant) == head_at(w, e, direction, variant)
        }),
    decreases taken - pos - j,
{
    let w = s.subrange(pos, taken);
    if j < w.len() {
        lemma_head_bounds(w, j, direction, variant);
        lemma_head_local(w, j, s, pos + j, direction, variant);
        match head_at(w, j, direction, variant) {
            Head::Unit { len } => {
                lemma_window_run(s, pos, taken, j + len, direction, variant);
                lemma_unit_image_local(w, j, s, pos + j, len as int, direction, variant);
                let e = run_end(w, j, direction, variant);
                assert(span_faults(s, pos + j, pos + e, direction, variant) == span_faults(
                    s,
                    pos + j + len,
                    pos + e,
                    direction,
                    variant,
                ));
            },
            _ => {},
        }
    }
}

/// Over the whole stream, a walk to the end of the units at its front emits
/// what a pass over them produces, and notes no fault.
pub proof fn lemma_front_run(s: Seq<u8>, direction: Direction, variant: Variant)
    ensures
        ({
            let e = run_end(s, 0, direction, variant);
            &&& 0 <= e <= s.len()
            &&& boundary(s, 0, e, direction, variant)
            &&& span_image(s, 0, e, direction, variant) == run_image(s, 0, direction, variant)
            &&& span_faults(s, 0, e, direction, variant) == Seq::<(usize, usize)>::empty()
        }),
{
    assert(s.subrange(0, s.len() as int) =~= s);
    lemma_window_run(s, 0, s.len() as int, 0, direction, variant);
}

/// A walk that notes no fault steps over units only: it stays among the
/// units in front of which it started, and emits what a pass over them
/// produces.
pub proof fn lemma_walk_without_faults(
    s: Seq<u8>,
    i: int,
    p: int,
    direction: Direction,
    variant: Variant,
)
    requires
        0 <= i <= p <= s.len(),
        boundary(s, i, p, direction, variant),
        span_faults(s, i, p, direction, variant).len() == 0,
    ensures
        run_end(s, i, direction, variant) == run_end(s, p, direction, variant),
        run_image(s, i, direction, variant) == span_image(s, i, p, direction, variant)
            + run_image(s, p, direction, variant),
    decreases s.len() - i,
{
    if i < p {
        lemma_head_bounds(s, i, direction, variant);
        match head_at(s, i, direction, variant) {
            Head::Unit { len } => {
                lemma_walk_reaches(s, i + len, p, direction, variant);
                lemma_walk_without_faults(s, i + len, p, direction, variant);
                let image = unit_image(s, i, len as int, direction, variant);
                assert(image + (span_image(s, i + len, p, direction, variant) + run_image(
                    s,
                    p,
                    direction,
                    variant,
                )) =~= (image + span_image(s, i + len, p, direction, variant)) + run_image(
                    s,
                    p,
                    direction,
                    variant,
                ));
            },
            Head::Bad { len } => {
                assert(span_faults(s, i, p, direction, variant)[0] == (i as usize, len));
            },
            Head::Partial => {},
        }
    } else {
        assert(span_image(s, i, p, direction, variant) + run_image(s, p, direction, variant)
            =~= run_image(s, p, direction, variant));
    }
}

/// A walk that notes a fault notes first the bad sequence at which a pass
/// from its start stops. Up to there it emits what that pass produces, and
/// behind the bad sequence it goes on as a walk of its own.
pub proof fn lemma_walk_first_fault(
    s: Seq<u8>,
    i: int,
    p: int,
    direction: Direction,
    variant: Variant,
)
    requires
        0 <= i <= p <= s.len(),
        boundary(s, i, p, direction, variant),
        span_faults(s, i, p, direction, variant).len() > 0,
    ensures
        ({
            let n = run_end(s, i, direction, variant);
            let k = head_at(s, n, direction, variant).stride();
            &&& i <= n < p
            &&& head_at(s, n, direction, variant) is Bad
            &&& 1 <= k
            &&& n + k <= p
            &&& boundary(s, n + k, p, direction, variant)
            &&& span_faults(s, i, p, direction, variant) == seq![(n as usize, k as usize)]
                + span_faults(s, n + k, p, direction, variant)
            &&& span_image(s, i, p, direction, variant) == run_image(s, i, direction, variant)
                + span_image(s, n + k, p, direction, variant)
        }),
    decreases s.len() - i,
{
    if i < p {
        lemma_head_bounds(s, i, direction, variant);
        match head_at(s, i, direction, variant) {
            Head::Unit { len } => {
                lemma_walk_reaches(s, i + len, p, direction, variant);
                lemma_walk_first_fault(s, i + len, p, direction, variant);
                let n = run_end(s, i, direction, variant);
                let k = head_at(s, n, direction, variant).stride();
                let image = unit_image(s, i, len as int, direction, variant);
                assert(image + (run_image(s, i + len, direction, variant) + span_image(
                    s,
                    n + k,
                    p,
                    direction,
                    variant,
                )) =~= (image + run_image(s, i + len, direction, variant)) + span_image(
                    s,
                    n + k,
                    p,
                    direction,
                    variant,
                ));
            },
            Head::Bad { len } => {
                lemma_walk_reaches(s, i + len, p, direction, variant);
                assert(Seq::<u8>::empty() + span_image(s, i + len, p, direction, variant)
                    =~= span_image(s, i + len, p, direction, variant));
            },
            Head::Partial => {},
        }
    }
}

/// A walk stays what it is when bytes are added behind the stream: it comes
/// to stand where it stood, and emits and notes the same.
pub proof fn lemma_walk_extends(
    a: Seq<u8>,
    b: Seq<u8>,
    i: int,
    p: int,
    direction: Direction,
    variant: Variant,
)
    requires
        0 <= i <= p <= a.len(),
        boundary(a, i, p, direction, variant),
    ensures
        boundary(a + b, i, p, direction, variant),
        span_image(a + b, i, p, direction, variant) == span_image(a, i, p, direction, variant),
        span_faults(a + b, i, p, direction, variant) == span_faults(a, i, p, direction, variant),
    decreases a.len() - i,
{
    if i < p {
        lemma_head_bounds(a, i, direction, variant);
        lemma_head_local(a, i, a + b, i, direction, variant);
        let stride = head_at(a, i, direction, variant).stride();
        lemma_walk_reaches(a, i + stride, p, direction, variant);
        lemma_walk_extends(a, b, i + stride, p, direction, variant);
        if head_at(a, i, direction, variant) is Unit {
            lemma_unit_image_local(a, i, a + b, i, stride, direction, variant);
        }
    }
}

} // verus!
