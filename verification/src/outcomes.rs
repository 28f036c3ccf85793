//! What a run reports, by the kind of stream that it ran over.
//!
//! The laws here follow from what a report describes alone. None of them
//! names the size of the buffer or the sizes of the reads: whatever they
//! state holds however the stream was cut up on its way in.

use vstd::prelude::*;
use crate::codec::{
    classify, lemma_run_end_bounds, run_end, run_image, transcoded, unit_image, well_formed,
    Classification,
};
use crate::engine::{Outcome, WriteEvent};
use crate::laws::{lemma_run_shift, lemma_split_at_boundary};
use crate::memory::Report;
use crate::stream::{
    boundary, lemma_walk_extends, lemma_walk_first_fault, lemma_walk_reaches,
    lemma_walk_without_faults, span_faults, span_image,
};
use crate::unit::{head_at, lemma_head_bounds, lemma_head_local, Direction, Head};
use crate::variant::Variant;

verus! {

/// What a run walked through of the bytes that it had read is a walk
/// through the stream as a whole.
pub proof fn lemma_report_walk(r: Report, s: Seq<u8>, direction: Direction, variant: Variant)
    requires
        r.accounts(s, direction, variant),
    ensures
        boundary(s, 0, r.delivered as int, direction, variant),
        boundary(s, 0, r.consumed as int, direction, variant),
        r.output@ == span_image(s, 0, r.delivered as int, direction, variant),
        r.invalid@ == span_faults(s, 0, r.consumed as int, direction, variant),
{
    let seen = s.subrange(0, r.taken as int);
    let rest = s.subrange(r.taken as int, s.len() as int);
    assert(seen + rest =~= s);
    lemma_walk_extends(seen, rest, 0, r.delivered as int, direction, variant);
    lemma_walk_extends(seen, rest, 0, r.consumed as int, direction, variant);
}

/// A report is settled by the stream and the place where the run ended:
/// two runs over the same stream that ended alike report the same.
pub proof fn lemma_report_settled(
    r1: Report,
    r2: Report,
    s: Seq<u8>,
    direction: Direction,
    variant: Variant,
)
    requires
        r1.accounts(s, direction, variant),
        r2.accounts(s, direction, variant),
        r1.end() == r2.end(),
    ensures
        r1.output@ == r2.output@,
        r1.invalid@ == r2.invalid@,
        r1.truncated_at == r2.truncated_at,
        r1.outcome == r2.outcome,
{
}

/// Where the sink took every write, a report is settled by the stream and
/// the number of bytes read: two such runs over the same stream that have
/// read as much report the same.
pub proof fn lemma_report_determined(
    r1: Report,
    r2: Report,
    s: Seq<u8>,
    direction: Direction,
    variant: Variant,
)
    requires
        r1.describes(s, direction, variant),
        r2.describes(s, direction, variant),
        r1.taken == r2.taken,
    ensures
        r1.consumed == r2.consumed,
        r1.output@ == r2.output@,
        r1.invalid@ == r2.invalid@,
        r1.truncated_at == r2.truncated_at,
        r1.outcome == r2.outcome,
{
    let seen = s.subrange(0, r1.taken as int);
    lemma_walk_end(seen, 0, r1.consumed as int, r2.consumed as int, direction, variant);
}

/// A walk comes to stand at one offset only at which the stream ends or no
/// step can be made.
proof fn lemma_walk_end(
    s: Seq<u8>,
    i: int,
    p: int,
    q: int,
    direction: Direction,
    variant: Variant,
)
    requires
        0 <= i,
        p <= s.len(),
        q <= s.len(),
        boundary(s, i, p, direction, variant),
        boundary(s, i, q, direction, variant),
        p < s.len() ==> head_at(s, p, direction, variant) is Partial,
        q < s.len() ==> head_at(s, q, direction, variant) is Partial,
    ensures
        p == q,
    decreases s.len() - i,
{
    lemma_walk_reaches(s, i, p, direction, variant);
    lemma_walk_reaches(s, i, q, direction, variant);
    if i < p && i < q {
        lemma_head_bounds(s, i, direction, variant);
        let stride = head_at(s, i, direction, variant).stride();
        lemma_walk_end(s, i + stride, p, q, direction, variant);
    }
}

/// A run over a well-formed stream consumes all of it, writes what the
/// stream as a whole is transcoded to, notes nothing and succeeds.
pub proof fn lemma_report_of_well_formed(
    r: Report,
    s: Seq<u8>,
    direction: Direction,
    variant: Variant,
)
    requires
        r.describes(s, direction, variant),
        well_formed(s, direction, variant),
    ensures
        r.outcome == Outcome::Success,
        r.output@ == transcoded(s, direction, variant),
        r.consumed == s.len(),
        r.taken == s.len(),
        r.invalid@.len() == 0,
        r.truncated_at is None,
{
    lemma_report_by_verdict(r, s, direction, variant);
}

/// Chunk-size independence: two runs over the same well-formed stream write
/// the same bytes and both succeed, whatever buffers they ran with and
/// however their reads fell.
pub proof fn lemma_chunking_independence(
    r1: Report,
    r2: Report,
    s: Seq<u8>,
    direction: Direction,
    variant: Variant,
)
    requires
        r1.describes(s, direction, variant),
        r2.describes(s, direction, variant),
        well_formed(s, direction, variant),
    ensures
        r1.output@ == r2.output@,
        r1.outcome == Outcome::Success,
        r2.outcome == Outcome::Success,
{
    lemma_report_of_well_formed(r1, s, direction, variant);
    lemma_report_of_well_formed(r2, s, direction, variant);
}

/// Disconnection tolerance: a run over a well-formed stream succeeds also
/// where its sink goes away, at whichever write. What the sink took before
/// is the front of what the stream is transcoded to, and no fault is noted.
/// Only a write that fails otherwise makes the run a failure.
pub proof fn lemma_report_of_disconnected(
    r: Report,
    s: Seq<u8>,
    direction: Direction,
    variant: Variant,
)
    requires
        r.accounts(s, direction, variant),
        well_formed(s, direction, variant),
    ensures
        r.stopped_by != Some(WriteEvent::Fault) ==> r.outcome == Outcome::Success,
        r.stopped_by == Some(WriteEvent::Fault) ==> r.outcome == Outcome::IoFault,
        r.invalid@.len() == 0,
        r.truncated_at is None,
        transcoded(s, direction, variant) == r.output@ + run_image(
            s,
            r.delivered as int,
            direction,
            variant,
        ),
        r.stopped_by is None ==> r.output@ == transcoded(s, direction, variant),
{
    lemma_report_walk(r, s, direction, variant);
    lemma_run_end_bounds(s, 0, direction, variant);
    lemma_rest_of_walk(s, 0, r.consumed as int, direction, variant);
    lemma_rest_of_walk(s, 0, r.delivered as int, direction, variant);
    if r.truncated_at is Some {
        assert(s.subrange(0, r.taken as int) =~= s);
    }
    if r.stopped_by is None {
        lemma_report_by_verdict(r, s, direction, variant);
    }
}

/// Truncation: a run over a stream that ends inside a unit, with only units
/// before it, fails. It writes what the units are transcoded to and says
/// where the unfinished unit begins.
pub proof fn lemma_report_of_truncated(
    r: Report,
    s: Seq<u8>,
    direction: Direction,
    variant: Variant,
)
    requires
        r.describes(s, direction, variant),
        classify(s, direction, variant) is Incomplete,
    ensures
        r.outcome == Outcome::EncodingFault,
        r.output@ == transcoded(s, direction, variant),
        r.truncated_at == Some(classify(s, direction, variant)->Incomplete_valid_len),
        r.consumed == run_end(s, 0, direction, variant),
        r.taken == s.len(),
        r.invalid@.len() == 0,
{
    lemma_report_by_verdict(r, s, direction, variant);
}

/// A run over a stream with a bad sequence fails. Its first note is the
/// first bad sequence of the stream, with its offset in the stream and its
/// length. It writes what the units before that sequence are transcoded to,
/// steps over the sequence, no more and no less, and goes on behind it.
pub proof fn lemma_report_of_invalid(
    r: Report,
    s: Seq<u8>,
    direction: Direction,
    variant: Variant,
)
    requires
        r.describes(s, direction, variant),
        classify(s, direction, variant) is Invalid,
    ensures
        ({
            let n = classify(s, direction, variant)->Invalid_valid_len;
            let k = classify(s, direction, variant)->Invalid_bad_len;
            &&& r.outcome == Outcome::EncodingFault
            &&& r.invalid@.len() > 0
            &&& r.invalid@[0] == (n, k)
            &&& n + k <= r.consumed
            &&& boundary(s, n + k, r.consumed as int, direction, variant)
            &&& r.output@ == transcoded(s, direction, variant) + span_image(
                s,
                n + k,
                r.consumed as int,
                direction,
                variant,
            )
            &&& r.invalid@ == seq![(n, k)] + span_faults(
                s,
                n + k,
                r.consumed as int,
                direction,
                variant,
            )
        }),
{
    lemma_report_by_verdict(r, s, direction, variant);
    lemma_report_walk(r, s, direction, variant);
    lemma_run_end_bounds(s, 0, direction, variant);
    if r.invalid@.len() > 0 {
        lemma_walk_first_fault(s, 0, r.consumed as int, direction, variant);
    }
}

/// Invalid-unit skip: where one bad sequence stands between well-formed
/// bytes, a run notes that one fault and no other, with its offset in the
/// stream, and fails. It writes what the bytes before are transcoded to
/// and goes on behind the bad sequence: what it writes is the front of what
/// the bytes before and the bytes behind are transcoded to, and all of it
/// if the run has read the whole stream.
pub proof fn lemma_report_of_one_invalid(
    r: Report,
    before: Seq<u8>,
    bad: Seq<u8>,
    behind: Seq<u8>,
    direction: Direction,
    variant: Variant,
)
    requires
        r.describes(before + bad + behind, direction, variant),
        well_formed(before, direction, variant),
        bad.len() > 0,
        head_at(bad, 0, direction, variant) == (Head::Bad { len: bad.len() as usize }),
        well_formed(behind, direction, variant),
        (before + bad + behind).len() <= usize::MAX,
    ensures
        r.outcome == Outcome::EncodingFault,
        r.invalid@ == seq![(before.len() as usize, bad.len() as usize)],
        before.len() + bad.len() <= r.consumed,
        transcoded(before, direction, variant) + transcoded(behind, direction, variant)
            == r.output@ + run_image(
            before + bad + behind,
            r.consumed as int,
            direction,
            variant,
        ),
        r.taken == (before + bad + behind).len() ==> {
            &&& r.output@ == transcoded(before, direction, variant) + transcoded(
                behind,
                direction,
                variant,
            )
            &&& r.consumed == (before + bad + behind).len()
            &&& r.truncated_at is None
        },
{
    let s = before + bad + behind;
    let n = before.len() as int;
    let k = bad.len() as int;
    lemma_head_bounds(bad, 0, direction, variant);
    lemma_split_at_boundary(before, bad + behind, direction, variant);
    assert(before + (bad + behind) =~= s);
    lemma_head_local(bad, 0, bad + behind, 0, direction, variant);
    lemma_head_local(bad + behind, 0, s, n, direction, variant);
    assert(run_end(bad + behind, 0, direction, variant) == 0);
    assert(run_end(s, 0, direction, variant) == n);
    assert(transcoded(bad + behind, direction, variant) =~= Seq::<u8>::empty());
    assert(transcoded(s, direction, variant) =~= transcoded(before, direction, variant));
    lemma_report_of_invalid(r, s, direction, variant);
    // behind the bad sequence the stream is well-formed to its end
    lemma_run_shift(before + bad, behind, 0, direction, variant);
    lemma_run_end_bounds(behind, 0, direction, variant);
    lemma_rest_of_walk(s, n + k, r.consumed as int, direction, variant);
    let front = transcoded(before, direction, variant);
    let walked = span_image(s, n + k, r.consumed as int, direction, variant);
    let left = run_image(s, r.consumed as int, direction, variant);
    assert(front + (walked + left) =~= (front + walked) + left);
    if r.taken == s.len() {
        assert(s.subrange(0, r.taken as int) =~= s);
        assert(r.output@ + left =~= r.output@);
    }
}

/// A walk that starts where the rest of the stream is well-formed steps
/// over units only, and where it stops short of the end a unit stands.
proof fn lemma_rest_of_walk(
    s: Seq<u8>,
    i: int,
    p: int,
    direction: Direction,
    variant: Variant,
)
    requires
        0 <= i <= p <= s.len(),
        boundary(s, i, p, direction, variant),
        run_end(s, i, direction, variant) == s.len(),
    ensures
        span_faults(s, i, p, direction, variant) == Seq::<(usize, usize)>::empty(),
        run_end(s, p, direction, variant) == s.len(),
        run_image(s, i, direction, variant) == span_image(s, i, p, direction, variant)
            + run_image(s, p, direction, variant),
        p < s.len() ==> head_at(s, p, direction, variant) is Unit,
    decreases s.len() - i,
{
    if i < p {
        lemma_head_bounds(s, i, direction, variant);
        let len = head_at(s, i, direction, variant).stride();
        lemma_walk_reaches(s, i + len, p, direction, variant);
        lemma_rest_of_walk(s, i + len, p, direction, variant);
        let image = unit_image(s, i, len, direction, variant);
        assert(image + (span_image(s, i + len, p, direction, variant) + run_image(
            s,
            p,
            direction,
            variant,
        )) =~= (image + span_image(s, i + len, p, direction, variant)) + run_image(
            s,
            p,
            direction,
            variant,
        ));
    } else {
        assert(span_image(s, i, p, direction, variant) + run_image(s, p, direction, variant)
            =~= run_image(s, p, direction, variant));
    }
}

/// What a run reports, by the verdict of one pass over the whole stream.
pub proof fn lemma_report_by_verdict(
    r: Report,
    s: Seq<u8>,
    direction: Direction,
    variant: Variant,
)
    requires
        r.describes(s, direction, variant),
    ensures
        match classify(s, direction, variant) {
            Classification::Complete { .. } => {
                &&& r.outcome == Outcome::Success
                &&& r.output@ == transcoded(s, direction, variant)
                &&& r.consumed == s.len()
                &&& r.taken == s.len()
                &&& r.invalid@.len() == 0
                &&& r.truncated_at is None
            },
            Classification::Incomplete { valid_len } => {
                &&& r.outcome == Outcome::EncodingFault
                &&& r.output@ == transcoded(s, direction, variant)
                &&& r.invalid@.len() == 0
                &&& r.truncated_at == Some(valid_len)
                &&& r.consumed == run_end(s, 0, direction, variant)
                &&& r.taken == s.len()
            },
            Classification::Invalid { valid_len, bad_len } => {
                &&& r.outcome == Outcome::EncodingFault
                &&& r.invalid@.len() > 0
                &&& r.invalid@[0] == (valid_len, bad_len)
                &&& r.consumed >= valid_len + bad_len
            },
        },
{
    let p = r.consumed as int;
    lemma_report_walk(r, s, direction, variant);
    lemma_run_end_bounds(s, 0, direction, variant);
    if r.invalid@.len() > 0 {
        lemma_walk_first_fault(s, 0, p, direction, variant);
    } else {
        lemma_walk_without_faults(s, 0, p, direction, variant);
        lemma_run_end_bounds(s, p, direction, variant);
        if r.truncated_at is Some {
            assert(s.subrange(0, r.taken as int) =~= s);
            assert(run_end(s, p, direction, variant) == p);
        } else {
            assert(run_end(s, p, direction, variant) == p);
        }
        assert(span_image(s, 0, p, direction, variant) + Seq::<u8>::empty() =~= span_image(
            s,
            0,
            p,
            direction,
            variant,
        ));
    }
}

} // verus!
