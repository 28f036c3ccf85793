//! The sliding buffer: a byte array of fixed capacity with a window of bytes
//! that were read and are not yet consumed.

use vstd::prelude::*;
use vstd::slice::slice_subrange;

verus! {

/// What a [`SlidingBuffer`] stands for.
pub struct BufferView {
    /// How many bytes the array holds; fixed when the buffer is made.
    pub capacity: nat,
    /// Where the window begins in the array.
    pub start: nat,
    /// The bytes of the window, oldest first.
    pub window: Seq<u8>,
}

impl BufferView {
    /// Where the window ends in the array.
    pub open spec fn end(self) -> nat {
        self.start + self.window.len()
    }

    /// The free bytes behind the window.
    pub open spec fn remaining(self) -> int {
        self.capacity - self.end()
    }
}

/// A byte array of fixed capacity and the window `[start, end)` of its bytes
/// that are waiting. Bytes outside the window mean nothing and are never
/// read.
pub struct SlidingBuffer {
    data: Vec<u8>,
    start: usize,
    end: usize,
}

impl View for SlidingBuffer {
    type V = BufferView;

    closed spec fn view(&self) -> BufferView {
        BufferView {
            capacity: self.data@.len(),
            start: self.start as nat,
            window: self.data@.subrange(self.start as int, self.end as int),
        }
    }
}

impl SlidingBuffer {
    /// The window lies inside the array: `start <= end <= capacity`.
    pub closed spec fn wf(&self) -> bool {
        self.start <= self.end <= self.data@.len() <= usize::MAX
    }

    /// A well-formed buffer's window fits between its start and the capacity.
    pub proof fn lemma_wf(&self)
        requires
            self.wf(),
        ensures
            self@.end() <= self@.capacity,
            self@.capacity <= usize::MAX,
    {
    }

    /// An empty buffer of `capacity` bytes.
    pub fn new(capacity: usize) -> (b: SlidingBuffer)
        ensures
            b.wf(),
            b@ == (BufferView { capacity: capacity as nat, start: 0, window: Seq::empty() }),
    {
        let data: Vec<u8> = vec![0u8; capacity];
        let b = SlidingBuffer { data, start: 0, end: 0 };
        assert(b@.window =~= Seq::<u8>::empty());
        b
    }

    /// The size of the array.
    pub fn capacity(&self) -> (n: usize)
        requires
            self.wf(),
        ensures
            n == self@.capacity,
    {
        self.data.len()
    }

    /// Where the window begins in the array.
    pub fn start(&self) -> (n: usize)
        requires
            self.wf(),
        ensures
            n == self@.start,
    {
        self.start
    }

    /// Where the window ends in the array.
    pub fn end(&self) -> (n: usize)
        requires
            self.wf(),
        ensures
            n == self@.end(),
    {
        self.end
    }

    /// How many bytes are waiting.
    pub fn len(&self) -> (n: usize)
        requires
            self.wf(),
        ensures
            n == self@.window.len(),
    {
        self.end - self.start
    }

    /// Whether any byte is waiting.
    pub fn has_data(&self) -> (r: bool)
        requires
            self.wf(),
        ensures
            r == (self@.window.len() > 0),
    {
        self.end > self.start
    }

    /// How many bytes can still be appended behind the window.
    pub fn remaining_capacity(&self) -> (n: usize)
        requires
            self.wf(),
        ensures
            n == self@.remaining(),
    {
        self.data.len() - self.end
    }

    /// The waiting bytes.
    pub fn window(&self) -> (w: &[u8])
        requires
            self.wf(),
        ensures
            w@ == self@.window,
    {
        slice_subrange(self.data.as_slice(), self.start, self.end)
    }

    /// Moves the window to the front of the array, so that all free space
    /// lies behind it. The waiting bytes stay as they are.
    pub fn compact(&mut self)
        requires
            old(self).wf(),
        ensures
            final(self).wf(),
            final(self)@ == (BufferView { start: 0, ..old(self)@ }),
    {
        if self.start == 0 {
            return ;
        }
        let start: usize = self.start;
        let len: usize = self.end - self.start;
        let mut j: usize = 0;
        while j < len
            invariant
                j <= len,
                start + len <= self.data@.len(),
                self.data@.len() == old(self).data@.len(),
                self.start == start == old(self).start,
                self.end == start + len == old(self).end,
                forall|k: int| 0 <= k < j ==> self.data@[k] == old(self).data@[start + k],
                forall|k: int| j <= k < self.data@.len() ==> self.data@[k] == old(self).data@[k],
            decreases len - j,
        {
            let b: u8 = self.data[start + j];
            self.data[j] = b;
            j += 1;
        }
        self.start = 0;
        self.end = len;
        assert(self@.window =~= old(self)@.window);
    }

    /// Appends `bytes` behind the window.
    pub fn append(&mut self, bytes: &[u8])
        requires
            old(self).wf(),
            bytes.len() <= old(self)@.remaining(),
        ensures
            final(self).wf(),
            final(self)@ == (BufferView { window: old(self)@.window + bytes@, ..old(self)@ }),
    {
        let n: usize = bytes.len();
        let end: usize = self.end;
        let mut j: usize = 0;
        while j < n
            invariant
                j <= n,
                n == bytes.len(),
                end + n <= self.data@.len() <= usize::MAX,
                self.data@.len() == old(self).data@.len(),
                self.start == old(self).start,
                self.end == end == old(self).end,
                self.start <= end,
                forall|k: int| 0 <= k < end ==> self.data@[k] == old(self).data@[k],
                forall|k: int| 0 <= k < j ==> self.data@[end + k] == bytes@[k],
            decreases n - j,
        {
            self.data[end + j] = bytes[j];
            j += 1;
        }
        self.end = end + n;
        assert(self@.window =~= old(self)@.window + bytes@);
    }

    /// Drops the first `k` waiting bytes from the window.
    pub fn consume(&mut self, k: usize)
        requires
            old(self).wf(),
            k <= old(self)@.window.len(),
        ensures
            final(self).wf(),
            final(self)@ == (BufferView {
                start: (old(self)@.start + k) as nat,
                window: old(self)@.window.skip(k as int),
                ..old(self)@
            }),
    {
        self.start = self.start + k;
        assert(self@.window =~= old(self)@.window.skip(k as int));
    }
}

} // verus!
