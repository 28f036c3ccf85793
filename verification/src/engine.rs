//! The streaming engine: a sliding buffer, the position in the stream, and
//! the decisions of the transcoding loop.
//!
//! The engine performs no input or output. Its caller owns the source and the
//! sink, does what the engine asks for, and reports what happened:
//!
//! 1. [`Engine::begin`] opens a round and says whether the run is over,
//!    whether the source is to be read, or whether the round goes on without.
//! 2. After a read, [`Engine::on_read`] takes what the source gave.
//! 3. If bytes are waiting, [`Engine::transcode`] consumes what it can of
//!    them and hands out the bytes for the sink, with the fault it found.
//! 4. After the write, [`Engine::on_write`] takes what the sink said.
//!
//! When `begin` says that the run is over, [`Engine::outcome`] tells how it
//! went.

use vstd::prelude::*;
use vstd::slice::{slice_subrange, slice_to_vec};
use crate::buffer::{BufferView, SlidingBuffer};
use crate::codec::{
    classify, lemma_run_end_bounds, run_end, transcode_run, transcoded, Classification,
};
use crate::unit::{head_at, lemma_head_bounds, Direction, MAX_UNIT_LEN};
use crate::variant::Variant;

verus! {

/// How many bytes on either side of a bad sequence a fault shows.
pub const CONTEXT_LEN: usize = 4;

/// The state of the source or of the sink. A closed one stays closed.
#[derive(Clone, Copy, Debug, PartialEq, Eq, Structural)]
pub enum Handle {
    Open,
    Closed,
}

/// How a run went. A failure of the source or the sink outweighs a fault in
/// the bytes.
#[derive(Clone, Copy, Debug, PartialEq, Eq, Structural)]
pub enum Outcome {
    Success,
    IoFault,
    EncodingFault,
}

/// What a read of the source gave.
#[derive(Debug)]
pub enum ReadEvent {
    /// These bytes; none at all means that the source is at its end.
    Data(Vec<u8>),
    /// The source is at its end.
    End,
    /// The other side of the source is gone. This counts as its end.
    Disconnected,
    /// The read failed for another reason.
    Fault,
}

/// What a write to the sink gave.
#[derive(Clone, Copy, Debug, PartialEq, Eq, Structural)]
pub enum WriteEvent {
    /// All bytes were taken.
    Done,
    /// The other side of the sink is gone.
    Disconnected,
    /// The write failed for another reason.
    Fault,
}

/// What the caller is to do at the start of a round.
#[derive(Clone, Copy, Debug, PartialEq, Eq, Structural)]
pub enum Next {
    /// The run is over.
    Finished,
    /// Read up to `space` bytes from the source and report with
    /// [`Engine::on_read`]; then go on as for `Proceed`.
    Fill { space: usize },
    /// Do not read in this round.
    Proceed,
}

/// A fault in the source bytes, with its place in the whole stream.
#[derive(Debug)]
pub enum Fault {
    /// The source ended inside a unit that begins at `offset`.
    Truncated { offset: usize },
    /// `len` bytes at `offset` can never be part of a unit. `context` shows
    /// them with up to [`CONTEXT_LEN`] waiting bytes on either side.
    Invalid { offset: usize, len: usize, context: Vec<u8> },
}

/// What a [`Fault`] stands for.
pub enum FaultView {
    Truncated { offset: nat },
    Invalid { offset: nat, len: nat, context: Seq<u8> },
}

impl View for Fault {
    type V = FaultView;

    open spec fn view(&self) -> FaultView {
        match *self {
            Fault::Truncated { offset } => FaultView::Truncated { offset: offset as nat },
            Fault::Invalid { offset, len, context } => FaultView::Invalid {
                offset: offset as nat,
                len: len as nat,
                context: context@,
            },
        }
    }
}

/// What one call of [`Engine::transcode`] hands out.
#[derive(Debug)]
pub struct Step {
    /// The bytes for the sink.
    pub data: Vec<u8>,
    /// How far the pass over the waiting bytes got.
    pub classification: Classification,
    /// The fault to report, if the pass found one.
    pub fault: Option<Fault>,
}

/// What an [`Engine`] stands for.
pub struct EngineView {
    pub direction: Direction,
    pub variant: Variant,
    pub buffer: BufferView,
    /// How many bytes of the stream are done with: transcoded, or skipped as
    /// bad. The waiting bytes follow at this offset of the stream.
    pub position: nat,
    pub input: Handle,
    pub output: Handle,
    pub io_fault: bool,
    pub encoding_fault: bool,
    /// The run is over, whatever is still waiting.
    pub halted: bool,
}

impl EngineView {
    /// The waiting bytes.
    pub open spec fn window(self) -> Seq<u8> {
        self.buffer.window
    }

    /// Whether the run is over: it was halted, or the source is closed and
    /// nothing is waiting.
    pub open spec fn finished(self) -> bool {
        self.halted || (self.input == Handle::Closed && self.window().len() == 0)
    }

    /// Whether a round reads. The source has to be open. The buffer is
    /// refilled when at most a quarter of it is filled; so that an
    /// unfinished unit never waits in vain, it is also refilled when fewer
    /// bytes are waiting than the longest unit has, and there is room.
    pub open spec fn wants_fill(self) -> bool {
        self.input == Handle::Open && (self.window().len() <= self.buffer.capacity / 4 || (
            self.window().len() < MAX_UNIT_LEN && self.window().len() < self.buffer.capacity))
    }

    /// The state after [`Engine::begin`]: the window stands at the front of
    /// the buffer, and a run that is over is halted.
    pub open spec fn begun(self) -> EngineView {
        if self.halted {
            self
        } else {
            EngineView {
                buffer: BufferView { start: 0, ..self.buffer },
                halted: self.finished(),
                ..self
            }
        }
    }

    /// What [`Engine::begin`] answers.
    pub open spec fn next(self) -> Next {
        if self.finished() {
            Next::Finished
        } else if self.wants_fill() {
            Next::Fill { space: (self.buffer.capacity - self.window().len()) as usize }
        } else {
            Next::Proceed
        }
    }

    /// The state after [`Engine::on_read`] was told `event`, where `data` is
    /// what a `Data` event holds. A closed source takes nothing more.
    pub open spec fn after_read(self, event: ReadEvent) -> EngineView {
        if self.input == Handle::Closed {
            self
        } else {
            match event {
                ReadEvent::Data(bytes) => if bytes@.len() == 0 {
                    EngineView { input: Handle::Closed, ..self }
                } else {
                    EngineView {
                        buffer: BufferView { window: self.window() + bytes@, ..self.buffer },
                        ..self
                    }
                },
                ReadEvent::End => EngineView { input: Handle::Closed, ..self },
                ReadEvent::Disconnected => EngineView { input: Handle::Closed, ..self },
                ReadEvent::Fault => EngineView { input: Handle::Closed, io_fault: true, ..self },
            }
        }
    }

    /// The verdict of a pass over the waiting bytes.
    pub open spec fn verdict(self) -> Classification {
        classify(self.window(), self.direction, self.variant)
    }

    /// How many waiting bytes [`Engine::transcode`] consumes.
    pub open spec fn advance(self) -> int {
        self.verdict().settled_len(self.window().len() as int)
    }

    /// The state after [`Engine::transcode`].
    ///
    /// The units at the front of the window are consumed, and with them a bad
    /// sequence that follows them. A bad sequence closes the source and makes
    /// the run a failure; what is waiting behind it is still transcoded in
    /// later rounds. An unfinished unit stays in the window; if the source is
    /// closed it can never be finished, and the run ends as a failure.
    pub open spec fn stepped(self) -> EngineView {
        let moved = EngineView {
            buffer: BufferView {
                start: (self.buffer.start + self.advance()) as nat,
                window: self.window().skip(self.advance()),
                ..self.buffer
            },
            position: (self.position + self.advance()) as nat,
            ..self
        };
        match self.verdict() {
            Classification::Complete { .. } => moved,
            Classification::Incomplete { .. } => if self.input == Handle::Closed {
                EngineView { encoding_fault: true, halted: true, ..moved }
            } else {
                moved
            },
            Classification::Invalid { .. } => EngineView {
                encoding_fault: true,
                input: Handle::Closed,
                ..moved
            },
        }
    }

    /// The fault that [`Engine::transcode`] reports. Its offset is the
    /// position in the stream of the first byte at fault.
    pub open spec fn step_fault(self) -> Option<FaultView> {
        match self.verdict() {
            Classification::Complete { .. } => None,
            Classification::Incomplete { valid_len } => if self.input == Handle::Closed {
                Some(FaultView::Truncated { offset: self.position + valid_len as nat })
            } else {
                None
            },
            Classification::Invalid { valid_len, bad_len } => Some(
                FaultView::Invalid {
                    offset: self.position + valid_len as nat,
                    len: bad_len as nat,
                    context: self.window().subrange(
                        if valid_len >= CONTEXT_LEN {
                            valid_len - CONTEXT_LEN
                        } else {
                            0
                        },
                        if valid_len + bad_len + CONTEXT_LEN <= self.window().len() {
                            valid_len + bad_len + CONTEXT_LEN
                        } else {
                            self.window().len() as int
                        },
                    ),
                },
            ),
        }
    }

    /// The state after [`Engine::on_write`] was told `event`. A sink that is
    /// gone, or that failed, ends the run. A closed sink takes nothing more.
    pub open spec fn after_write(self, event: WriteEvent) -> EngineView {
        if self.output == Handle::Closed {
            self
        } else {
            match event {
                WriteEvent::Done => self,
                WriteEvent::Disconnected => EngineView {
                    output: Handle::Closed,
                    halted: true,
                    ..self
                },
                WriteEvent::Fault => EngineView { io_fault: true, halted: true, ..self },
            }
        }
    }

    /// How the run went so far.
    pub open spec fn outcome(self) -> Outcome {
        if self.io_fault {
            Outcome::IoFault
        } else if self.encoding_fault {
            Outcome::EncodingFault
        } else {
            Outcome::Success
        }
    }
}

/// The view of the fault in an optional fault.
pub open spec fn fault_view(fault: Option<Fault>) -> Option<FaultView> {
    match fault {
        Some(f) => Some(f@),
        None => None,
    }
}

impl Outcome {
    /// The exit status of a process that ran with this outcome.
    pub fn exit_code(self) -> (code: i32)
        ensures
            code == (match self {
                Outcome::Success => 0i32,
                Outcome::IoFault => 1i32,
                Outcome::EncodingFault => 2i32,
            }),
    {
        match self {
            Outcome::Success => 0,
            Outcome::IoFault => 1,
            Outcome::EncodingFault => 2,
        }
    }
}

/// The state of one run.
pub struct Engine {
    direction: Direction,
    variant: Variant,
    buffer: SlidingBuffer,
    position: usize,
    input: Handle,
    output: Handle,
    io_fault: bool,
    encoding_fault: bool,
    halted: bool,
}

impl View for Engine {
    type V = EngineView;

    closed spec fn view(&self) -> EngineView {
        EngineView {
            direction: self.direction,
            variant: self.variant,
            buffer: self.buffer@,
            position: self.position as nat,
            input: self.input,
            output: self.output,
            io_fault: self.io_fault,
            encoding_fault: self.encoding_fault,
            halted: self.halted,
        }
    }
}

impl Engine {
    /// The buffer's window lies inside its array.
    pub closed spec fn buffer_wf(&self) -> bool {
        self.buffer.wf() && self.position <= usize::MAX
    }

    /// The buffer holds the longest unit, the window lies inside the buffer,
    /// and the number of bytes taken from the source, those waiting
    /// included, fits the counter.
    pub open spec fn wf(&self) -> bool {
        &&& self.buffer_wf()
        &&& MAX_UNIT_LEN <= self@.buffer.capacity
        &&& self@.buffer.end() <= self@.buffer.capacity <= usize::MAX
        &&& self@.position + self@.window().len() <= usize::MAX
    }

    /// A fresh engine with a buffer of `capacity` bytes: nothing waiting, at
    /// the start of the stream, source and sink open.
    ///
    /// The buffer has to hold the longest unit: in a smaller one a surrogate
    /// pair would never be seen whole.
    pub fn new(capacity: usize, direction: Direction, variant: Variant) -> (e: Engine)
        requires
            capacity >= MAX_UNIT_LEN,
        ensures
            e.wf(),
            e@ == (EngineView {
                direction,
                variant,
                buffer: BufferView { capacity: capacity as nat, start: 0, window: Seq::empty() },
                position: 0,
                input: Handle::Open,
                output: Handle::Open,
                io_fault: false,
                encoding_fault: false,
                halted: false,
            }),
    {
        Engine {
            direction,
            variant,
            buffer: SlidingBuffer::new(capacity),
            position: 0,
            input: Handle::Open,
            output: Handle::Open,
            io_fault: false,
            encoding_fault: false,
            halted: false,
        }
    }

    /// The offset in the stream of the first waiting byte.
    pub fn position(&self) -> (n: usize)
        requires
            self.wf(),
        ensures
            n == self@.position,
    {
        self.position
    }

    /// The size of the buffer.
    pub fn capacity(&self) -> (n: usize)
        requires
            self.wf(),
        ensures
            n == self@.buffer.capacity,
    {
        self.buffer.capacity()
    }

    /// How many bytes can be appended behind the waiting ones.
    pub fn remaining_capacity(&self) -> (n: usize)
        requires
            self.wf(),
        ensures
            n == self@.buffer.remaining(),
    {
        self.buffer.remaining_capacity()
    }

    /// How many bytes are waiting.
    pub fn waiting(&self) -> (n: usize)
        requires
            self.wf(),
        ensures
            n == self@.window().len(),
    {
        self.buffer.len()
    }

    /// Whether any byte is waiting.
    pub fn has_data(&self) -> (r: bool)
        requires
            self.wf(),
        ensures
            r == (self@.window().len() > 0),
    {
        self.buffer.has_data()
    }

    /// Whether the source is still open.
    pub fn input_open(&self) -> (r: bool)
        ensures
            r == (self@.input == Handle::Open),
    {
        self.input == Handle::Open
    }

    /// Whether the sink is still open.
    pub fn output_open(&self) -> (r: bool)
        ensures
            r == (self@.output == Handle::Open),
    {
        self.output == Handle::Open
    }

    /// Whether the run was ended.
    pub fn is_halted(&self) -> (r: bool)
        ensures
            r == self@.halted,
    {
        self.halted
    }

    /// How the run went so far: a failure of the source or the sink first,
    /// then a fault in the bytes, else success.
    pub fn outcome(&self) -> (o: Outcome)
        ensures
            o == self@.outcome(),
    {
        if self.io_fault {
            Outcome::IoFault
        } else if self.encoding_fault {
            Outcome::EncodingFault
        } else {
            Outcome::Success
        }
    }

    /// Opens a round. Moves the waiting bytes to the front of the buffer and
    /// says what to do: nothing more, read first, or go on without reading.
    pub fn begin(&mut self) -> (next: Next)
        requires
            old(self).wf(),
        ensures
            final(self).wf(),
            final(self)@ == old(self)@.begun(),
            next == old(self)@.next(),
            next is Fill ==> 1 <= next->space <= final(self)@.buffer.remaining(),
    {
        if self.halted {
            return Next::Finished;
        }
        self.buffer.compact();
        let waiting: usize = self.buffer.len();
        let capacity: usize = self.buffer.capacity();
        if self.input == Handle::Closed && waiting == 0 {
            self.halted = true;
            Next::Finished
        } else if self.input == Handle::Open && (waiting <= capacity / 4 || (waiting
            < MAX_UNIT_LEN && waiting < capacity)) {
            Next::Fill { space: capacity - waiting }
        } else {
            Next::Proceed
        }
    }

    /// Takes what a read of the source gave. Bytes are appended behind the
    /// waiting ones; anything else closes the source, and a failure is
    /// remembered. Once the source is closed, nothing is taken.
    pub fn on_read(&mut self, event: ReadEvent)
        requires
            old(self).wf(),
            old(self)@.input == Handle::Open ==> match event {
                ReadEvent::Data(bytes) => bytes@.len() <= old(self)@.buffer.remaining()
                    && old(self)@.position + old(self)@.window().len() + bytes@.len()
                    <= usize::MAX,
                _ => true,
            },
        ensures
            final(self).wf(),
            final(self)@ == old(self)@.after_read(event),
    {
        if self.input == Handle::Closed {
            return ;
        }
        match event {
            ReadEvent::Data(bytes) => {
                if bytes.len() == 0 {
                    self.input = Handle::Closed;
                } else {
                    self.buffer.append(bytes.as_slice());
                }
            },
            ReadEvent::End => {
                self.input = Handle::Closed;
            },
            ReadEvent::Disconnected => {
                self.input = Handle::Closed;
            },
            ReadEvent::Fault => {
                self.input = Handle::Closed;
                self.io_fault = true;
            },
        }
    }

    /// Runs the codec over the waiting bytes, consumes what is done with,
    /// and hands out the bytes for the sink together with the fault that the
    /// pass found.
    pub fn transcode(&mut self) -> (step: Step)
        requires
            old(self).wf(),
        ensures
            final(self).wf(),
            final(self)@ == old(self)@.stepped(),
            step.data@ == transcoded(old(self)@.window(), old(self)@.direction, old(self)@.variant),
            step.classification == old(self)@.verdict(),
            fault_view(step.fault) == old(self)@.step_fault(),
    {
        let window = self.buffer.window();
        let len: usize = window.len();
        let (data, classification) = transcode_run(window, self.direction, self.variant);
        match classification {
            Classification::Complete { .. } => {
                self.buffer.consume(len);
                self.position = self.position + len;
                Step { data, classification, fault: None }
            },
            Classification::Incomplete { valid_len } => {
                self.buffer.consume(valid_len);
                self.position = self.position + valid_len;
                if self.input == Handle::Closed {
                    self.encoding_fault = true;
                    self.halted = true;
                    let fault = Fault::Truncated { offset: self.position };
                    Step { data, classification, fault: Some(fault) }
                } else {
                    Step { data, classification, fault: None }
                }
            },
            Classification::Invalid { valid_len, bad_len } => {
                let from: usize = if valid_len >= CONTEXT_LEN {
                    valid_len - CONTEXT_LEN
                } else {
                    0
                };
                let to: usize = if len - (valid_len + bad_len) >= CONTEXT_LEN {
                    valid_len + bad_len + CONTEXT_LEN
                } else {
                    len
                };
                let context: Vec<u8> = slice_to_vec(slice_subrange(window, from, to));
                let offset: usize = self.position + valid_len;
                let fault = Fault::Invalid { offset, len: bad_len, context };
                self.buffer.consume(valid_len + bad_len);
                self.position = self.position + (valid_len + bad_len);
                self.encoding_fault = true;
                self.input = Handle::Closed;
                Step { data, classification, fault: Some(fault) }
            },
        }
    }

    /// Takes what a write to the sink gave. A sink that is gone is closed
    /// and ends the run without a failure of its own; any other failure is
    /// remembered and ends the run too.
    pub fn on_write(&mut self, event: WriteEvent)
        requires
            old(self).wf(),
        ensures
            final(self).wf(),
            final(self)@ == old(self)@.after_write(event),
    {
        if self.output == Handle::Closed {
            return ;
        }
        match event {
            WriteEvent::Done => {},
            WriteEvent::Disconnected => {
                self.output = Handle::Closed;
                self.halted = true;
            },
            WriteEvent::Fault => {
                self.io_fault = true;
                self.halted = true;
            },
        }
    }
}

/// A closed source and a closed sink stay closed, whatever the engine does
/// and whatever it is told.
pub proof fn lemma_closed_stays_closed(v: EngineView, read: ReadEvent, write: WriteEvent)
    ensures
        v.input == Handle::Closed ==> {
            &&& v.begun().input == Handle::Closed
            &&& v.after_read(read).input == Handle::Closed
            &&& v.stepped().input == Handle::Closed
            &&& v.after_write(write).input == Handle::Closed
        },
        v.output == Handle::Closed ==> {
            &&& v.begun().output == Handle::Closed
            &&& v.after_read(read).output == Handle::Closed
            &&& v.stepped().output == Handle::Closed
            &&& v.after_write(write).output == Handle::Closed
        },
{
}

/// The position in the stream never falls: only [`Engine::transcode`] moves
/// it, forward by what it consumes.
pub proof fn lemma_position_never_falls(v: EngineView, read: ReadEvent, write: WriteEvent)
    ensures
        v.begun().position == v.position,
        v.after_read(read).position == v.position,
        v.after_write(write).position == v.position,
        v.stepped().position == v.position + v.advance(),
        0 <= v.advance() <= v.window().len(),
{
    lemma_run_end_bounds(v.window(), 0, v.direction, v.variant);
    let n = run_end(v.window(), 0, v.direction, v.variant);
    if n < v.window().len() {
        lemma_head_bounds(v.window(), n, v.direction, v.variant);
    }
}

/// A failure, once noted, stays noted, and a run that was ended stays
/// ended.
pub proof fn lemma_faults_stay(v: EngineView, read: ReadEvent, write: WriteEvent)
    ensures
        v.io_fault ==> v.begun().io_fault && v.after_read(read).io_fault && v.stepped().io_fault
            && v.after_write(write).io_fault,
        v.encoding_fault ==> v.begun().encoding_fault && v.after_read(read).encoding_fault
            && v.stepped().encoding_fault && v.after_write(write).encoding_fault,
        v.halted ==> v.begun() == v && v.next() == Next::Finished && v.after_read(read).halted
            && v.stepped().halted && v.after_write(write).halted,
{
}

/// Disconnection tolerance: when the sink says that its other side is gone,
/// the run is over. Every later round is answered with `Finished`, so that
/// nothing more is written, and the outcome is what it was before: no
/// failure is noted for the disconnection.
pub proof fn lemma_disconnect_ends_run(v: EngineView)
    requires
        v.output == Handle::Open,
    ensures
        ({
            let after = v.after_write(WriteEvent::Disconnected);
            &&& after.output == Handle::Closed
            &&& after.finished()
            &&& after.next() == Next::Finished
            &&& after.begun() == after
            &&& after.outcome() == v.outcome()
            &&& !v.encoding_fault ==> after.outcome() == Outcome::Success || after.outcome()
                == Outcome::IoFault
        }),
{
}

/// With a buffer that holds the longest unit no round is idle: a round that
/// does not read has waiting bytes, and its pass over them consumes at
/// least one byte or ends the run.
pub proof fn lemma_round_without_read_moves(v: EngineView)
    requires
        v.buffer.capacity >= MAX_UNIT_LEN,
        v.window().len() <= usize::MAX,
        v.next() == Next::Proceed,
    ensures
        v.begun().window().len() > 0,
        v.begun().stepped().position > v.position || v.begun().stepped().halted,
{
    let b = v.begun();
    let w = b.window();
    lemma_head_bounds(w, 0, b.direction, b.variant);
    lemma_run_end_bounds(w, 0, b.direction, b.variant);
    if head_at(w, 0, b.direction, b.variant) is Unit {
        lemma_run_end_bounds(
            w,
            head_at(w, 0, b.direction, b.variant).stride(),
            b.direction,
            b.variant,
        );
    }
}

} // verus!
