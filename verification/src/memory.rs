//! A whole run over a stream that lies in memory.
//!
//! The source hands its bytes over in reads of chosen sizes and never fails.
//! The sink keeps what it is given, unless it is told to answer a write
//! otherwise. So what a run does with given bytes, and with a sink that goes
//! away, shows here free of everything else.

use vstd::prelude::*;
use vstd::slice::{slice_subrange, slice_to_vec};
use crate::codec::{classify, lemma_run_end_bounds, run_end, transcoded, Classification};
use crate::engine::{Engine, EngineView, Fault, Handle, Next, Outcome, ReadEvent, WriteEvent};
use crate::outcomes::lemma_report_by_verdict;
use crate::stream::{
    boundary, lemma_walk_append, lemma_walk_extends, lemma_window_run, span_faults, span_image,
};
use crate::unit::{head_at, lemma_head_bounds, lemma_head_local, Direction, MAX_UNIT_LEN};
use crate::variant::Variant;

verus! {

/// What a run over a stream in memory did.
#[derive(Debug)]
pub struct Report {
    /// All bytes that the sink took.
    pub output: Vec<u8>,
    /// How the run went.
    pub outcome: Outcome,
    /// Offset and length of each bad sequence that was stepped over.
    pub invalid: Vec<(usize, usize)>,
    /// Where the unit begins inside which the stream ended, if it did.
    pub truncated_at: Option<usize>,
    /// How many bytes were read from the source.
    pub taken: usize,
    /// How many bytes were done with: transcoded, or stepped over as bad.
    pub consumed: usize,
    /// How many bytes of the stream the output stands for. This is less
    /// than `consumed` only if the sink did not take the last write.
    pub delivered: usize,
    /// What the sink answered to the write that ended the run, if one did.
    pub stopped_by: Option<WriteEvent>,
}

/// Where a run came to its end.
pub struct RunEnd {
    /// How many bytes were read from the source.
    pub taken: int,
    /// How many bytes were done with.
    pub consumed: int,
    /// How many bytes of the stream the sink took the output for.
    pub delivered: int,
    /// What the sink answered to the write that ended the run, if one did.
    pub stopped_by: Option<WriteEvent>,
    /// Whether the stream was found to end inside a unit.
    pub truncated: bool,
}

/// How many bytes a read hands over: as many as are left, as fit into the
/// free space, and as the limit of that read allows; a limit of nothing
/// allows one byte.
pub open spec fn read_len(left: int, space: int, limit: Option<usize>) -> int {
    let most = if space < left {
        space
    } else {
        left
    };
    match limit {
        Some(l) => {
            let l = if l == 0 {
                1
            } else {
                l as int
            };
            if l < most {
                l
            } else {
                most
            }
        },
        None => most,
    }
}

/// The limit of the read with the given number, if it has one.
pub open spec fn limit_at(limits: Seq<usize>, round: int) -> Option<usize> {
    if 0 <= round < limits.len() {
        Some(limits[round])
    } else {
        None
    }
}

/// What the sink answers to the write with the given number: what the list
/// says, and `Done` behind its end.
pub open spec fn event_at(events: Seq<WriteEvent>, writes: int) -> WriteEvent {
    if 0 <= writes < events.len() {
        events[writes]
    } else {
        WriteEvent::Done
    }
}

/// Where a run over the stream `s` ends that stands at offset `pos`, has
/// read `taken` bytes in `round` reads and made `writes` writes, and whose
/// source is open or not.
///
/// Round by round: a read is made if the source is open and at most a
/// quarter of the buffer is filled, or fewer bytes are waiting than the
/// longest unit has; a read that finds the stream at its end closes the
/// source. If nothing is waiting then, the run is over. Else one pass is
/// made over the waiting bytes and its output written. The run is over if
/// the sink does not take the write, or if the pass found the stream to end
/// inside a unit. Else the run goes on behind what the pass consumed, with
/// the source closed if the pass stopped at a bad sequence.
#[verifier::opaque]
pub open spec fn run_from(
    capacity: nat,
    s: Seq<u8>,
    limits: Seq<usize>,
    events: Seq<WriteEvent>,
    pos: int,
    taken: int,
    round: int,
    writes: int,
    open: bool,
    direction: Direction,
    variant: Variant,
) -> RunEnd
    decreases (s.len() - taken) + (s.len() - pos),
{
    let waiting = taken - pos;
    let reads = open && (waiting <= capacity / 4 || (waiting < MAX_UNIT_LEN && waiting
        < capacity));
    let n = if reads {
        read_len(s.len() - taken, capacity - waiting, limit_at(limits, round))
    } else {
        0
    };
    let now = taken + n;
    let still_open = open && !(reads && n == 0);
    let window = s.subrange(pos, now);
    let verdict = classify(window, direction, variant);
    let consumed = pos + verdict.settled_len(window.len() as int);
    let truncated = verdict is Incomplete && !still_open;
    let event = event_at(events, writes);
    if now <= pos {
        RunEnd { taken: now, consumed: pos, delivered: pos, stopped_by: None, truncated: false }
    } else if event != WriteEvent::Done {
        RunEnd { taken: now, consumed, delivered: pos, stopped_by: Some(event), truncated }
    } else if truncated {
        RunEnd { taken: now, consumed, delivered: consumed, stopped_by: None, truncated }
    } else if 0 <= pos <= consumed <= now <= s.len() && 0 <= n && (pos < consumed || 0 < n) {
        run_from(
            capacity,
            s,
            limits,
            events,
            consumed,
            now,
            if reads && round < limits.len() {
                round + 1
            } else {
                round
            },
            if writes < events.len() {
                writes + 1
            } else {
                writes
            },
            still_open && !(verdict is Invalid),
            direction,
            variant,
        )
    } else {
        RunEnd { taken: now, consumed, delivered: consumed, stopped_by: None, truncated }
    }
}

/// Where a run over the stream `s` ends that starts with an empty buffer of
/// `capacity` bytes, whose reads have the given limits and whose writes get
/// the given answers.
pub open spec fn run_of(
    capacity: nat,
    s: Seq<u8>,
    limits: Seq<usize>,
    events: Seq<WriteEvent>,
    direction: Direction,
    variant: Variant,
) -> RunEnd {
    run_from(capacity, s, limits, events, 0, 0, 0, 0, true, direction, variant)
}

impl Report {
    /// Where the run that is reported came to its end.
    pub open spec fn end(self) -> RunEnd {
        RunEnd {
            taken: self.taken as int,
            consumed: self.consumed as int,
            delivered: self.delivered as int,
            stopped_by: self.stopped_by,
            truncated: self.truncated_at is Some,
        }
    }

    /// Whether this is what a run over the stream `input` reports that has
    /// read `taken` bytes of it, whatever its sink did.
    ///
    /// Of the stream the run knows the bytes that it has read. It walks them
    /// from the start to `consumed` and notes the faults on its way. The
    /// sink has what the walk emits up to `delivered`: all of it, unless the
    /// sink ended the run by not taking the last write. A run that the sink
    /// does not end reads the whole stream, unless it notes a fault, and
    /// stops short of what it has read only where it finds the stream to
    /// end inside a unit. A write that failed outweighs everything; else
    /// the run fails if it noted a fault or found the stream to end inside
    /// a unit, and succeeds if not: that the sink went away is no failure.
    pub open spec fn accounts(
        self,
        input: Seq<u8>,
        direction: Direction,
        variant: Variant,
    ) -> bool {
        let seen = input.subrange(0, self.taken as int);
        &&& self.delivered <= self.consumed <= self.taken <= input.len()
        &&& boundary(seen, 0, self.delivered as int, direction, variant)
        &&& boundary(seen, 0, self.consumed as int, direction, variant)
        &&& self.output@ == span_image(seen, 0, self.delivered as int, direction, variant)
        &&& self.invalid@ == span_faults(seen, 0, self.consumed as int, direction, variant)
        &&& self.stopped_by != Some(WriteEvent::Done)
        &&& self.stopped_by is None ==> {
            &&& self.delivered == self.consumed
            &&& self.consumed < self.taken ==> self.truncated_at is Some
            &&& self.invalid@.len() == 0 ==> self.taken == input.len()
        }
        &&& self.truncated_at is Some ==> {
            &&& self.truncated_at == Some(self.consumed)
            &&& self.consumed < self.taken
            &&& head_at(seen, self.consumed as int, direction, variant) is Partial
            &&& self.invalid@.len() == 0 ==> self.taken == input.len()
        }
        &&& self.outcome == (if self.stopped_by == Some(WriteEvent::Fault) {
            Outcome::IoFault
        } else if self.invalid@.len() > 0 || self.truncated_at is Some {
            Outcome::EncodingFault
        } else {
            Outcome::Success
        })
    }

    /// Whether this is what a run over the stream `input` reports that has
    /// read `taken` bytes of it and whose sink took every write.
    pub open spec fn describes(
        self,
        input: Seq<u8>,
        direction: Direction,
        variant: Variant,
    ) -> bool {
        self.accounts(input, direction, variant) && self.stopped_by is None
    }
}

/// What a run has written and noted so far.
struct Notes {
    output: Seq<u8>,
    invalid: Seq<(usize, usize)>,
    truncated_at: Option<usize>,
    delivered: int,
    stopped_by: Option<WriteEvent>,
}

/// How the state of a run over the stream `s` hangs together with what it
/// has read, written and noted so far.
spec fn tracks(
    v: EngineView,
    s: Seq<u8>,
    taken: int,
    notes: Notes,
    direction: Direction,
    variant: Variant,
) -> bool {
    let seen = s.subrange(0, taken);
    &&& v.direction == direction
    &&& v.variant == variant
    &&& v.buffer.capacity >= MAX_UNIT_LEN
    &&& v.output == (if notes.stopped_by == Some(WriteEvent::Disconnected) {
        Handle::Closed
    } else {
        Handle::Open
    })
    &&& v.io_fault == (notes.stopped_by == Some(WriteEvent::Fault))
    &&& notes.stopped_by != Some(WriteEvent::Done)
    &&& notes.stopped_by is Some ==> v.halted
    &&& notes.stopped_by is None ==> notes.delivered == v.position
    &&& 0 <= notes.delivered <= v.position <= taken <= s.len() <= usize::MAX
    &&& v.window() == s.subrange(v.position as int, taken)
    &&& boundary(seen, 0, notes.delivered, direction, variant)
    &&& boundary(seen, 0, v.position as int, direction, variant)
    &&& notes.output == span_image(seen, 0, notes.delivered, direction, variant)
    &&& notes.invalid == span_faults(seen, 0, v.position as int, direction, variant)
    &&& v.encoding_fault == (notes.invalid.len() > 0 || notes.truncated_at is Some)
    &&& v.input == Handle::Open ==> !v.encoding_fault
    &&& v.input == Handle::Closed && notes.invalid.len() == 0 ==> taken == s.len()
    &&& v.halted ==> notes.truncated_at is Some || notes.stopped_by is Some || (v.input
        == Handle::Closed && v.window().len() == 0)
    &&& notes.truncated_at is Some ==> {
        &&& v.halted
        &&& v.input == Handle::Closed
        &&& notes.truncated_at == Some(v.position as usize)
        &&& v.window().len() > 0
        &&& head_at(v.window(), 0, direction, variant) is Partial
    }
}

/// The notes of a run that no fault and no sink has ended.
spec fn running(v: EngineView, output: Seq<u8>, invalid: Seq<(usize, usize)>) -> Notes {
    Notes {
        output,
        invalid,
        truncated_at: None,
        delivered: v.position as int,
        stopped_by: None,
    }
}

/// What one call of [`Engine::transcode`] adds to the notes of a run.
spec fn noted(v: EngineView) -> Seq<(usize, usize)> {
    match v.verdict() {
        Classification::Invalid { valid_len, bad_len } => seq![
            ((v.position + valid_len) as usize, bad_len),
        ],
        _ => Seq::empty(),
    }
}

/// Whether one call of [`Engine::transcode`] finds the stream to end inside
/// a unit.
spec fn cut_short(v: EngineView) -> bool {
    v.verdict() is Incomplete && v.input == Handle::Closed
}

/// What the sink's answer to a write leaves behind, if it ends the run.
spec fn stopper(event: WriteEvent) -> Option<WriteEvent> {
    if event == WriteEvent::Done {
        None
    } else {
        Some(event)
    }
}

/// A fresh engine is on track at the start of the stream.
proof fn lemma_start_tracks(v: EngineView, s: Seq<u8>, direction: Direction, variant: Variant)
    requires
        v.direction == direction,
        v.variant == variant,
        v.buffer.capacity >= MAX_UNIT_LEN,
        v.window() == Seq::<u8>::empty(),
        v.position == 0,
        v.input == Handle::Open,
        v.output == Handle::Open,
        !v.io_fault,
        !v.encoding_fault,
        !v.halted,
        s.len() <= usize::MAX,
    ensures
        tracks(v, s, 0, running(v, Seq::empty(), Seq::empty()), direction, variant),
{
    assert(v.window() =~= s.subrange(0, 0));
}

/// Opening a round keeps the run on track, and a round that is not the last
/// finds the run neither cut short nor stopped.
proof fn lemma_begin_tracks(
    v: EngineView,
    s: Seq<u8>,
    taken: int,
    notes: Notes,
    direction: Direction,
    variant: Variant,
)
    requires
        tracks(v, s, taken, notes, direction, variant),
    ensures
        tracks(v.begun(), s, taken, notes, direction, variant),
        !v.finished() ==> notes == running(v, notes.output, notes.invalid),
{
}

/// One call of [`Engine::transcode`] keeps the run on track, and consumes at
/// least one byte unless the waiting bytes are an unfinished unit.
proof fn lemma_step_tracks(
    v: EngineView,
    s: Seq<u8>,
    taken: int,
    output: Seq<u8>,
    invalid: Seq<(usize, usize)>,
    direction: Direction,
    variant: Variant,
)
    requires
        tracks(v, s, taken, running(v, output, invalid), direction, variant),
        !v.halted,
        v.window().len() > 0,
    ensures
        tracks(
            v.stepped(),
            s,
            taken,
            Notes {
                output: output + transcoded(v.window(), direction, variant),
                invalid: invalid + noted(v),
                truncated_at: if cut_short(v) {
                    Some(v.stepped().position as usize)
                } else {
                    None
                },
                delivered: v.stepped().position as int,
                stopped_by: None,
            },
            direction,
            variant,
        ),
        v.stepped().position >= v.position,
        v.stepped().position == v.position ==> v.verdict() is Incomplete && v.window().len()
            < MAX_UNIT_LEN,
        cut_short(v) ==> v.stepped().halted,
        v.position + v.advance() <= usize::MAX,
{
    let d = direction;
    let x = variant;
    let w = v.window();
    let pos = v.position as int;
    let e = run_end(w, 0, d, x);
    let after = v.stepped();
    let full = s;
    let s = full.subrange(0, taken);
    assert(s.subrange(pos, taken) =~= w);
    lemma_window_run(s, pos, taken, 0, d, x);
    lemma_walk_append(s, 0, pos, pos + e, d, x);
    assert(span_faults(s, 0, pos, d, x) + Seq::<(usize, usize)>::empty() =~= span_faults(
        s,
        0,
        pos,
        d,
        x,
    ));
    lemma_head_bounds(w, 0, d, x);
    if head_at(w, 0, d, x) is Unit {
        lemma_run_end_bounds(w, head_at(w, 0, d, x).stride(), d, x);
    }
    match v.verdict() {
        Classification::Complete { .. } => {
            assert(after.window() =~= full.subrange(after.position as int, taken));
            assert(invalid + noted(v) =~= invalid);
        },
        Classification::Incomplete { valid_len } => {
            assert(after.window() =~= full.subrange(after.position as int, taken));
            assert(invalid + noted(v) =~= invalid);
            lemma_head_local(w, e, after.window(), 0, d, x);
        },
        Classification::Invalid { valid_len, bad_len } => {
            lemma_head_bounds(w, e, d, x);
            lemma_head_bounds(s, pos + e, d, x);
            assert(after.window() =~= full.subrange(after.position as int, taken));
            let q = pos + e + bad_len;
            assert(boundary(s, q, q, d, x));
            assert(boundary(s, pos + e, q, d, x));
            assert(span_image(s, q, q, d, x) =~= Seq::<u8>::empty());
            assert(span_faults(s, q, q, d, x) =~= Seq::<(usize, usize)>::empty());
            assert(span_image(s, pos + e, q, d, x) =~= Seq::<u8>::empty());
            assert(span_faults(s, pos + e, q, d, x) =~= seq![((pos + e) as usize, bad_len)]);
            lemma_walk_append(s, 0, pos + e, q, d, x);
            assert(output + transcoded(w, d, x) + Seq::<u8>::empty() =~= output + transcoded(
                w,
                d,
                x,
            ));
        },
    }
}

/// One round of a run goes as [`run_from`] says.
///
/// `v` is the state when the round was opened, `fed` the state after its
/// read, if it made one, and `after` the state at its end.
proof fn lemma_round_model(
    s: Seq<u8>,
    limits: Seq<usize>,
    events: Seq<WriteEvent>,
    v: EngineView,
    taken: int,
    round: int,
    writes: int,
    n: int,
    fed: EngineView,
    after: EngineView,
)
    requires
        v.buffer.capacity >= MAX_UNIT_LEN,
        !v.finished(),
        v.output == Handle::Open,
        0 <= v.position <= taken <= s.len() <= usize::MAX,
        v.window() == s.subrange(v.position as int, taken),
        n == (if v.wants_fill() {
            read_len(
                s.len() - taken,
                v.buffer.capacity - v.window().len(),
                limit_at(limits, round),
            )
        } else {
            0
        }),
        fed.direction == v.direction,
        fed.variant == v.variant,
        fed.position == v.position,
        fed.window() == s.subrange(v.position as int, taken + n),
        fed.input == (if v.wants_fill() && n == 0 {
            Handle::Closed
        } else {
            v.input
        }),
        fed.output == Handle::Open,
        !fed.halted,
        after == (if fed.window().len() > 0 {
            fed.stepped().after_write(event_at(events, writes))
        } else {
            fed
        }),
    ensures
        run_from(
            v.buffer.capacity,
            s,
            limits,
            events,
            v.position as int,
            taken,
            round,
            writes,
            v.input == Handle::Open,
            v.direction,
            v.variant,
        ) == (if after.halted {
            RunEnd {
                taken: taken + n,
                consumed: after.position as int,
                delivered: if event_at(events, writes) == WriteEvent::Done {
                    after.position as int
                } else {
                    v.position as int
                },
                stopped_by: stopper(event_at(events, writes)),
                truncated: cut_short(fed),
            }
        } else {
            run_from(
                v.buffer.capacity,
                s,
                limits,
                events,
                after.position as int,
                taken + n,
                if v.wants_fill() && round < limits.len() {
                    round + 1
                } else {
                    round
                },
                if fed.window().len() > 0 && writes < events.len() {
                    writes + 1
                } else {
                    writes
                },
                after.input == Handle::Open,
                v.direction,
                v.variant,
            )
        }),
{
    reveal(run_from);
    let w = fed.window();
    lemma_run_end_bounds(w, 0, v.direction, v.variant);
    if w.len() > 0 {
        lemma_head_bounds(w, 0, v.direction, v.variant);
        if head_at(w, 0, v.direction, v.variant) is Unit {
            lemma_run_end_bounds(
                w,
                head_at(w, 0, v.direction, v.variant).stride(),
                v.direction,
                v.variant,
            );
        }
        let e = run_end(w, 0, v.direction, v.variant);
        if e < w.len() {
            lemma_head_bounds(w, e, v.direction, v.variant);
        }
    }
}

/// A run whose source is closed and that has nothing waiting is over.
proof fn lemma_model_at_rest(
    capacity: nat,
    s: Seq<u8>,
    limits: Seq<usize>,
    events: Seq<WriteEvent>,
    pos: int,
    round: int,
    writes: int,
    direction: Direction,
    variant: Variant,
)
    ensures
        run_from(capacity, s, limits, events, pos, pos, round, writes, false, direction, variant)
            == (RunEnd {
            taken: pos,
            consumed: pos,
            delivered: pos,
            stopped_by: None,
            truncated: false,
        }),
{
    reveal(run_from);
}

/// Reads once from the stream in memory and tells the engine.
fn feed(
    engine: &mut Engine,
    input: &[u8],
    taken: usize,
    space: usize,
    limit: Option<usize>,
    Ghost(output): Ghost<Seq<u8>>,
    Ghost(invalid): Ghost<Seq<(usize, usize)>>,
    Ghost(direction): Ghost<Direction>,
    Ghost(variant): Ghost<Variant>,
) -> (n: usize)
    requires
        old(engine).wf(),
        tracks(
            old(engine)@,
            input@,
            taken as int,
            running(old(engine)@, output, invalid),
            direction,
            variant,
        ),
        !old(engine)@.halted,
        old(engine)@.input == Handle::Open,
        space >= 1,
        space <= old(engine)@.buffer.remaining(),
    ensures
        final(engine).wf(),
        n == read_len(input.len() - taken, space as int, limit),
        taken + n <= input.len(),
        tracks(
            final(engine)@,
            input@,
            taken + n,
            running(final(engine)@, output, invalid),
            direction,
            variant,
        ),
        final(engine)@.position == old(engine)@.position,
        final(engine)@.buffer.capacity == old(engine)@.buffer.capacity,
        !final(engine)@.halted,
        final(engine)@.input == (if n == 0 {
            Handle::Closed
        } else {
            Handle::Open
        }),
{
    let left: usize = input.len() - taken;
    if left == 0 {
        engine.on_read(ReadEvent::End);
        return 0;
    }
    let mut n: usize = if space < left {
        space
    } else {
        left
    };
    match limit {
        Some(l) => {
            let l: usize = if l == 0 {
                1
            } else {
                l
            };
            if l < n {
                n = l;
            }
        },
        None => {},
    }
    let chunk: Vec<u8> = slice_to_vec(slice_subrange(input, taken, taken + n));
    engine.on_read(ReadEvent::Data(chunk));
    proof {
        assert(engine@.window() =~= input@.subrange(engine@.position as int, taken + n));
        assert(input@.subrange(0, taken as int) + input@.subrange(taken as int, taken + n)
            =~= input@.subrange(0, taken + n));
        lemma_walk_extends(
            input@.subrange(0, taken as int),
            input@.subrange(taken as int, taken + n),
            0,
            engine@.position as int,
            direction,
            variant,
        );
    }
    n
}

/// Lets the engine work on the waiting bytes, hands what comes out to the
/// sink, which answers with `event`, and keeps the notes.
fn drain(
    engine: &mut Engine,
    output: &mut Vec<u8>,
    invalid: &mut Vec<(usize, usize)>,
    event: WriteEvent,
    Ghost(s): Ghost<Seq<u8>>,
    Ghost(taken): Ghost<int>,
    Ghost(direction): Ghost<Direction>,
    Ghost(variant): Ghost<Variant>,
) -> (truncated_at: Option<usize>)
    requires
        old(engine).wf(),
        tracks(
            old(engine)@,
            s,
            taken,
            running(old(engine)@, old(output)@, old(invalid)@),
            direction,
            variant,
        ),
        !old(engine)@.halted,
        old(engine)@.window().len() > 0,
    ensures
        final(engine).wf(),
        tracks(
            final(engine)@,
            s,
            taken,
            Notes {
                output: final(output)@,
                invalid: final(invalid)@,
                truncated_at,
                delivered: if event == WriteEvent::Done {
                    final(engine)@.position as int
                } else {
                    old(engine)@.position as int
                },
                stopped_by: stopper(event),
            },
            direction,
            variant,
        ),
        final(engine)@ == old(engine)@.stepped().after_write(event),
        truncated_at is Some <==> cut_short(old(engine)@),
        final(engine)@.position >= old(engine)@.position,
        final(engine)@.position == old(engine)@.position ==> {
            &&& old(engine)@.window().len() < MAX_UNIT_LEN
            &&& old(engine)@.input == Handle::Closed ==> final(engine)@.halted
        },
        old(engine)@.input == Handle::Closed ==> final(engine)@.input == Handle::Closed,
        event != WriteEvent::Done ==> final(engine)@.halted,
{
    proof {
        lemma_step_tracks(old(engine)@, s, taken, old(output)@, old(invalid)@, direction, variant);
    }
    let step = engine.transcode();
    match event {
        WriteEvent::Done => {
            let mut data = step.data;
            output.append(&mut data);
        },
        _ => {},
    }
    let truncated_at: Option<usize> = match step.fault {
        Some(Fault::Truncated { offset }) => {
            proof {
                assert(old(invalid)@ + Seq::<(usize, usize)>::empty() =~= invalid@);
            }
            Some(offset)
        },
        Some(Fault::Invalid { offset, len, context }) => {
            invalid.push((offset, len));
            proof {
                assert(old(invalid)@ + noted(old(engine)@) =~= invalid@);
            }
            None
        },
        None => {
            proof {
                assert(old(invalid)@ + Seq::<(usize, usize)>::empty() =~= invalid@);
            }
            None
        },
    };
    engine.on_write(event);
    truncated_at
}

/// Runs a whole stream through an engine with a buffer of `capacity` bytes,
/// which has to hold the longest unit, into a sink that may go away.
///
/// The source holds `input`. Its `k`-th read hands over at most
/// `read_limits[k]` bytes, and at least one; reads after the last limit hand
/// over as much as the buffer takes. The sink answers the `k`-th write with
/// `write_events[k]`, and takes every write after the last answer. It keeps
/// the bytes of the writes that it answers with `Done`, and nothing of the
/// write that it answers otherwise, which is the last.
///
/// Where the run ends is what [`run_of`] says, and with that the report is
/// settled: it accounts for the stream up to there.
pub fn transcode_stream_into(
    capacity: usize,
    direction: Direction,
    variant: Variant,
    input: &[u8],
    read_limits: &[usize],
    write_events: &[WriteEvent],
) -> (r: Report)
    requires
        capacity >= MAX_UNIT_LEN,
    ensures
        r.accounts(input@, direction, variant),
        r.end() == run_of(
            capacity as nat,
            input@,
            read_limits@,
            write_events@,
            direction,
            variant,
        ),
{
    let mut engine = Engine::new(capacity, direction, variant);
    let mut output: Vec<u8> = Vec::new();
    let mut invalid: Vec<(usize, usize)> = Vec::new();
    let mut truncated_at: Option<usize> = None;
    let mut stopped_by: Option<WriteEvent> = None;
    let mut taken: usize = 0;
    let mut delivered: usize = 0;
    let mut round: usize = 0;
    let mut writes: usize = 0;
    let total: usize = input.len();
    proof {
        lemma_start_tracks(engine@, input@, direction, variant);
    }
    loop
        invariant
            engine.wf(),
            engine@.buffer.capacity == capacity,
            round <= read_limits.len(),
            writes <= write_events.len(),
            tracks(
                engine@,
                input@,
                taken as int,
                Notes {
                    output: output@,
                    invalid: invalid@,
                    truncated_at,
                    delivered: delivered as int,
                    stopped_by,
                },
                direction,
                variant,
            ),
            run_of(
                capacity as nat,
                input@,
                read_limits@,
                write_events@,
                direction,
                variant,
            ) == (if engine@.halted {
                RunEnd {
                    taken: taken as int,
                    consumed: engine@.position as int,
                    delivered: delivered as int,
                    stopped_by,
                    truncated: truncated_at is Some,
                }
            } else {
                run_from(
                    capacity as nat,
                    input@,
                    read_limits@,
                    write_events@,
                    engine@.position as int,
                    taken as int,
                    round as int,
                    writes as int,
                    engine@.input == Handle::Open,
                    direction,
                    variant,
                )
            }),
        ensures
            engine@.halted,
        decreases
                (input@.len() - taken) + (input@.len() - engine@.position),
                (if engine@.input == Handle::Open {
                    1int
                } else {
                    0int
                }),
                (if engine@.halted {
                    0int
                } else {
                    1int
                }),
    {
        proof {
            lemma_begin_tracks(
                engine@,
                input@,
                taken as int,
                Notes {
                    output: output@,
                    invalid: invalid@,
                    truncated_at,
                    delivered: delivered as int,
                    stopped_by,
                },
                direction,
                variant,
            );
            assert(engine@.window().len() == taken - engine@.position);
            if !engine@.halted && engine@.finished() {
                lemma_model_at_rest(
                    capacity as nat,
                    input@,
                    read_limits@,
                    write_events@,
                    taken as int,
                    round as int,
                    writes as int,
                    direction,
                    variant,
                );
            }
        }
        let next = engine.begin();
        let ghost opened = engine@;
        let ghost taken_before = taken as int;
        let ghost round_before = round as int;
        let ghost writes_before = writes as int;
        match next {
            Next::Finished => {
                break ;
            },
            Next::Fill { space } => {
                let limit: Option<usize> = if round < read_limits.len() {
                    let l: usize = read_limits[round];
                    round = round + 1;
                    Some(l)
                } else {
                    None
                };
                let n: usize = feed(
                    &mut engine,
                    input,
                    taken,
                    space,
                    limit,
                    Ghost(output@),
                    Ghost(invalid@),
                    Ghost(direction),
                    Ghost(variant),
                );
                taken = taken + n;
            },
            Next::Proceed => {},
        }
        let ghost fed = engine@;
        if engine.has_data() {
            let event: WriteEvent = if writes < write_events.len() {
                let e: WriteEvent = write_events[writes];
                writes = writes + 1;
                e
            } else {
                WriteEvent::Done
            };
            truncated_at =
            drain(
                &mut engine,
                &mut output,
                &mut invalid,
                event,
                Ghost(input@),
                Ghost(taken as int),
                Ghost(direction),
                Ghost(variant),
            );
            match event {
                WriteEvent::Done => {
                    delivered = engine.position();
                },
                _ => {
                    stopped_by = Some(event);
                },
            }
        } else {
            delivered = engine.position();
        }
        proof {
            lemma_round_model(
                input@,
                read_limits@,
                write_events@,
                opened,
                taken_before,
                round_before,
                writes_before,
                taken - taken_before,
                fed,
                engine@,
            );
        }
    }
    let consumed: usize = engine.position();
    let outcome = engine.outcome();
    let r = Report {
        output,
        outcome,
        invalid,
        truncated_at,
        taken,
        consumed,
        delivered,
        stopped_by,
    };
    proof {
        assert(engine@.window().len() == taken - consumed);
        if truncated_at is Some {
            lemma_head_local(
                engine@.window(),
                0,
                input@.subrange(0, taken as int),
                consumed as int,
                direction,
                variant,
            );
        }
    }
    r
}

/// Runs a whole stream through an engine with a buffer of `capacity` bytes,
/// which has to hold the longest unit, into a sink that takes everything.
///
/// The source holds `input`. Its `k`-th read hands over at most
/// `read_limits[k]` bytes, and at least one; reads after the last limit hand
/// over as much as the buffer takes.
///
/// What was consumed, written and noted is that of one walk over the bytes
/// that were read, from their start to `consumed`. Well-formed input is
/// transcoded as a whole, whatever the buffer's size and however the reads
/// fall. Input that ends inside a unit is transcoded up to that unit and
/// fails. Input with a bad sequence fails; the first note is that sequence,
/// the source is read no further, and what was read is worked off.
pub fn transcode_stream(
    capacity: usize,
    direction: Direction,
    variant: Variant,
    input: &[u8],
    read_limits: &[usize],
) -> (r: Report)
    requires
        capacity >= MAX_UNIT_LEN,
    ensures
        r.describes(input@, direction, variant),
        r.end() == run_of(
            capacity as nat,
            input@,
            read_limits@,
            Seq::<WriteEvent>::empty(),
            direction,
            variant,
        ),
        match classify(input@, direction, variant) {
            Classification::Complete { .. } => {
                &&& r.outcome == Outcome::Success
                &&& r.output@ == transcoded(input@, direction, variant)
                &&& r.consumed == input.len()
            },
            Classification::Incomplete { valid_len } => {
                &&& r.outcome == Outcome::EncodingFault
                &&& r.output@ == transcoded(input@, direction, variant)
                &&& r.invalid.len() == 0
                &&& r.truncated_at == Some(valid_len)
            },
            Classification::Invalid { valid_len, bad_len } => {
                &&& r.outcome == Outcome::EncodingFault
                &&& r.invalid.len() > 0
                &&& r.invalid@[0] == (valid_len, bad_len)
                &&& r.consumed >= valid_len + bad_len
            },
        },
{
    let no_events: Vec<WriteEvent> = Vec::new();
    let r = transcode_stream_into(
        capacity,
        direction,
        variant,
        input,
        read_limits,
        no_events.as_slice(),
    );
    proof {
        assert(no_events@ =~= Seq::<WriteEvent>::empty());
        lemma_never_stopped(
            capacity as nat,
            input@,
            read_limits@,
            0,
            0,
            0,
            0,
            true,
            direction,
            variant,
        );
        lemma_report_by_verdict(r, input@, direction, variant);
    }
    r
}

/// A run whose sink takes every write is not ended by its sink.
proof fn lemma_never_stopped(
    capacity: nat,
    s: Seq<u8>,
    limits: Seq<usize>,
    pos: int,
    taken: int,
    round: int,
    writes: int,
    open: bool,
    direction: Direction,
    variant: Variant,
)
    ensures
        run_from(
            capacity,
            s,
            limits,
            Seq::<WriteEvent>::empty(),
            pos,
            taken,
            round,
            writes,
            open,
            direction,
            variant,
        ).stopped_by is None,
    decreases (s.len() - taken) + (s.len() - pos),
{
    reveal(run_from);
    let events = Seq::<WriteEvent>::empty();
    let waiting = taken - pos;
    let reads = open && (waiting <= capacity / 4 || (waiting < MAX_UNIT_LEN && waiting
        < capacity));
    let n = if reads {
        read_len(s.len() - taken, capacity - waiting, limit_at(limits, round))
    } else {
        0
    };
    let now = taken + n;
    let still_open = open && !(reads && n == 0);
    let window = s.subrange(pos, now);
    let verdict = classify(window, direction, variant);
    let consumed = pos + verdict.settled_len(window.len() as int);
    let truncated = verdict is Incomplete && !still_open;
    if now > pos && !truncated && 0 <= pos <= consumed <= now <= s.len() && 0 <= n && (pos
        < consumed || 0 < n) {
        lemma_never_stopped(
            capacity,
            s,
            limits,
            consumed,
            now,
            if reads && round < limits.len() {
                round + 1
            } else {
                round
            },
            if writes < events.len() {
                writes + 1
            } else {
                writes
            },
            still_open && !(verdict is Invalid),
            direction,
            variant,
        );
    }
}

} // verus!
