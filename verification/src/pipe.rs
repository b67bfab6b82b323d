//! A fixed-size circular byte buffer with one reader and one writer.
//!
//! The write pointer and the read pointer chase each other around the
//! buffer; the buffer is empty when they meet and full when the writer is
//! one step behind the reader, so one slot always stays unused.

use vstd::prelude::*;

verus! {

/// What the buffer carries.
pub type Content = u8;

/// Number of slots.
const BUFFER_SIZE: usize = 24;

/// Where wrapped pointers restart.
const START_POINT: usize = 0;

/// The circular buffer: a write pointer, a read pointer, and the slots.
pub struct Buffer {
    /// Current position of the writer.
    pub wp: usize,
    /// Current position of the reader.
    pub rp: usize,
    /// The slots.
    pub buf: Vec<u8>,
}

impl Buffer {
    /// The slot contents.
    pub closed spec fn buf_spec(self) -> Seq<u8> {
        self.buf@
    }

    /// Both pointers in range, exactly the fixed number of slots.
    pub closed spec fn wf(self) -> bool {
        &&& self.wp < 24
        &&& self.rp < 24
        &&& self.buf.len() == 24
    }

    /// The writer stands one step behind the reader.
    pub open spec fn spec_is_full(self) -> bool {
        (self.wp + 1) % 24 == self.rp
    }

    /// Both pointers at the same position.
    pub open spec fn spec_is_empty(self) -> bool {
        self.rp == self.wp
    }

    /// A fresh buffer: both pointers at the start, every slot zero.
    pub fn new() -> (r: Box<Buffer>)
        ensures
            r.wf(),
            r.wp == 0,
            r.rp == 0,
            r.buf_spec().len() == 24,
            forall|i: int| 0 <= i < 24 ==> r.buf_spec()[i] == 0,
    {
        let mut buf: Vec<u8> = Vec::new();
        let mut i: usize = 0;
        while i < BUFFER_SIZE
            invariant
                i <= 24,
                buf.len() == i,
                forall|j: int| 0 <= j < i ==> buf@[j] == 0,
            decreases 24 - i,
        {
            buf.push(0);
            i = i + 1;
        }
        Box::new(Buffer { wp: 0, rp: 0, buf })
    }

    /// Is the buffer full?
    pub fn is_full(&self) -> (r: bool)
        requires
            self.wf(),
        ensures
            r == self.spec_is_full(),
    {
        (self.wp + 1) % BUFFER_SIZE == self.rp
    }

    /// Is the buffer empty?
    pub fn is_empty(&self) -> (r: bool)
        requires
            self.wf(),
        ensures
            r == self.spec_is_empty(),
    {
        self.rp == self.wp
    }

    /// Step the writer one slot forward, wrapping at the end.
    pub fn step_wp(&mut self)
        requires
            old(self).wf(),
        ensures
            final(self).wf(),
            final(self).wp == (old(self).wp + 1) % 24,
            final(self).rp == old(self).rp,
            final(self).buf_spec() == old(self).buf_spec(),
    {
        if self.wp == BUFFER_SIZE - 1 {
            self.wp = START_POINT;
        } else {
            self.wp = self.wp + 1;
        }
    }

    /// Step the reader one slot forward, wrapping at the end.
    pub fn step_rp(&mut self)
        requires
            old(self).wf(),
        ensures
            final(self).wf(),
            final(self).rp == (old(self).rp + 1) % 24,
            final(self).wp == old(self).wp,
            final(self).buf_spec() == old(self).buf_spec(),
    {
        if self.rp == BUFFER_SIZE - 1 {
            self.rp = START_POINT;
        } else {
            self.rp = self.rp + 1;
        }
    }

    /// Store one value at the writer and step it.  The buffer must not be
    /// full: writing into a full buffer would overtake the reader.
    pub fn write(&mut self, insert: Content)
        requires
            old(self).wf(),
            !old(self).spec_is_full(),
        ensures
            final(self).wf(),
            final(self).buf_spec() == old(self).buf_spec().update(old(self).wp as int, insert),
            final(self).wp == (old(self).wp + 1) % 24,
            final(self).rp == old(self).rp,
    {
        self.buf[self.wp] = insert;
        self.step_wp();
    }

    /// Read the value at the reader and step it.  The buffer must not be
    /// empty: there would be nothing unread at the reader.
    pub fn read(&mut self) -> (r: Content)
        requires
            old(self).wf(),
            !old(self).spec_is_empty(),
        ensures
            final(self).wf(),
            r == old(self).buf_spec()[old(self).rp as int],
            final(self).rp == (old(self).rp + 1) % 24,
            final(self).wp == old(self).wp,
            final(self).buf_spec() == old(self).buf_spec(),
    {
        let content = self.buf[self.rp];
        self.step_rp();
        content
    }
}

} // verus!
