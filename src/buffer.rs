use vstd::prelude::*;
use crate::cursor::{available, free_space, valid_cursors};
use crate::layout::{lemma_layout, CAPACITY, HEADER_LEN, PAYLOAD_LEN};
use crate::ring::{live_bytes, read_step, write_step, ReadStep, WriteStep};

verus! {

/// A single-producer/single-consumer byte ring held in one process: the same
/// payload and cursor discipline as the shared channel, with the payload in a `Vec`.
pub struct RingBuffer {
    payload: Vec<u8>,
    head: usize,
    tail: usize,
    /// Every byte accepted by `try_write`, in order.
    produced: Ghost<Seq<u8>>,
    /// Every byte handed out by `try_read`, in order.
    consumed: Ghost<Seq<u8>>,
}

impl View for RingBuffer {
    type V = Seq<u8>;

    /// The bytes written and not yet read, oldest first.
    closed spec fn view(&self) -> Seq<u8> {
        live_bytes(self.payload@, self.head as int, self.tail as int)
    }
}

impl RingBuffer {
    /// Size of the circular payload.
    pub closed spec fn spec_payload_len(&self) -> nat {
        self.payload@.len()
    }

    /// Everything written so far, in order.
    pub closed spec fn produced(&self) -> Seq<u8> {
        self.produced@
    }

    /// Everything read so far, in order.
    pub closed spec fn consumed(&self) -> Seq<u8> {
        self.consumed@
    }

    /// Cursors inside the payload, and the bytes read followed by the live bytes
    /// are exactly the bytes written.
    pub closed spec fn wf(&self) -> bool {
        &&& self.payload@.len() >= 1
        &&& valid_cursors(self.head as int, self.tail as int, self.payload@.len() as int)
        &&& self.consumed@ + self@ == self.produced@
    }

    /// Most live bytes the ring can hold.
    pub open spec fn spec_capacity(&self) -> nat {
        (self.spec_payload_len() - 1) as nat
    }

    /// An empty ring laid out in a segment of `capacity` bytes: the header takes
    /// its fixed prefix and the payload the rest.
    pub fn with_capacity(capacity: usize) -> (r: RingBuffer)
        requires
            capacity > HEADER_LEN,
        ensures
            r.wf(),
            r@ == Seq::<u8>::empty(),
            r.spec_payload_len() == capacity - HEADER_LEN,
            r.produced() == Seq::<u8>::empty(),
            r.consumed() == Seq::<u8>::empty(),
    {
        let len = capacity - HEADER_LEN;
        let payload: Vec<u8> = vec![0u8; len];
        let r = RingBuffer {
            payload,
            head: 0,
            tail: 0,
            produced: Ghost(Seq::empty()),
            consumed: Ghost(Seq::empty()),
        };
        assert(r@ =~= Seq::<u8>::empty());
        r
    }

    /// An empty ring of the channel's fixed size.
    pub fn new() -> (r: RingBuffer)
        ensures
            r.wf(),
            r@ == Seq::<u8>::empty(),
            r.spec_payload_len() == PAYLOAD_LEN,
            r.produced() == Seq::<u8>::empty(),
            r.consumed() == Seq::<u8>::empty(),
    {
        proof {
            lemma_layout();
        }
        RingBuffer::with_capacity(CAPACITY)
    }

    /// Size of the circular payload.
    pub fn payload_len(&self) -> (r: usize)
        requires
            self.wf(),
        ensures
            r == self.spec_payload_len(),
    {
        self.payload.len()
    }

    /// Number of bytes written and not yet read.
    pub fn len(&self) -> (r: usize)
        requires
            self.wf(),
        ensures
            r == self@.len(),
            r <= self.spec_capacity(),
    {
        available(self.head, self.tail, self.payload.len())
    }

    /// Number of bytes that a write may still add.
    pub fn free(&self) -> (r: usize)
        requires
            self.wf(),
        ensures
            r == self.spec_capacity() - self@.len(),
    {
        free_space(self.head, self.tail, self.payload.len())
    }

    /// No byte waits to be read.
    pub fn is_empty(&self) -> (r: bool)
        requires
            self.wf(),
        ensures
            r == (self@.len() == 0),
    {
        self.head == self.tail
    }

    /// The ring holds as many live bytes as it can.
    pub fn is_full(&self) -> (r: bool)
        requires
            self.wf(),
        ensures
            r == (self@.len() == self.spec_capacity()),
    {
        free_space(self.head, self.tail, self.payload.len()) == 0
    }

    /// Appends the whole of `data` when it fits, else changes nothing and
    /// returns `None`: a writer never writes part of its input.
    pub fn try_write(&mut self, data: &[u8]) -> (r: Option<usize>)
        requires
            old(self).wf(),
        ensures
            final(self).wf(),
            final(self).spec_payload_len() == old(self).spec_payload_len(),
            r.is_some() <==> data@.len() <= old(self).spec_capacity() - old(self)@.len(),
            old(self)@.len() == old(self).spec_capacity() && data@.len() > 0 ==> r is None,
            r.is_none() ==> {
                &&& final(self)@ == old(self)@
                &&& final(self).produced() == old(self).produced()
                &&& final(self).consumed() == old(self).consumed()
            },
            r is Some ==> {
                &&& r.unwrap() == data@.len()
                &&& final(self)@ == old(self)@ + data@
                &&& final(self).produced() == old(self).produced() + data@
                &&& final(self).consumed() == old(self).consumed()
            },
    {
        match write_step(self.payload.as_mut_slice(), self.head, self.tail, data) {
            WriteStep::Full => None,
            WriteStep::Written { head } => {
                self.head = head;
                self.produced = Ghost(self.produced@ + data@);
                assert(self.consumed@ + self@ =~= self.produced@);
                Some(data.len())
            },
        }
    }

    /// Takes out up to `out.len()` of the oldest bytes into the front of `out`.
    /// Returns `None` when nothing waits to be read, never `Some(0)` for a
    /// non-empty `out`.
    pub fn try_read(&mut self, out: &mut [u8]) -> (r: Option<usize>)
        requires
            old(self).wf(),
        ensures
            final(self).wf(),
            final(self).spec_payload_len() == old(self).spec_payload_len(),
            final(out)@.len() == old(out)@.len(),
            r.is_none() <==> old(self)@.len() == 0,
            r is Some && old(out)@.len() > 0 ==> r.unwrap() > 0,
            r.is_none() ==> {
                &&& final(out)@ == old(out)@
                &&& final(self)@ == old(self)@
                &&& final(self).produced() == old(self).produced()
                &&& final(self).consumed() == old(self).consumed()
            },
            r is Some ==> {
                let n = r.unwrap() as int;
                &&& n == if old(out)@.len() < old(self)@.len() {
                    old(out)@.len() as int
                } else {
                    old(self)@.len() as int
                }
                &&& final(out)@ == old(self)@.take(n) + old(out)@.skip(n)
                &&& final(self)@ == old(self)@.skip(n)
                &&& final(self).consumed() == old(self).consumed() + old(self)@.take(n)
                &&& final(self).produced() == old(self).produced()
            },
    {
        match read_step(self.payload.as_slice(), self.head, self.tail, out) {
            ReadStep::Empty => None,
            ReadStep::Read { count, tail } => {
                let ghost before = self@;
                self.tail = tail;
                self.consumed = Ghost(self.consumed@ + before.take(count as int));
                assert(self.consumed@ + self@ =~= self.produced@) by {
                    assert(before =~= before.take(count as int) + before.skip(count as int));
                }
                Some(count)
            },
        }
    }
}

/// Whatever any interleaving of writes and reads has read so far, followed by
/// the bytes still waiting, is exactly what was written, in order: reads hand
/// the bytes out first in, first out, across wraparounds.
pub proof fn lemma_fifo(rb: &RingBuffer)
    requires
        rb.wf(),
    ensures
        rb.consumed() + rb@ == rb.produced(),
        rb.consumed() == rb.produced().take(rb.consumed().len() as int),
        rb@.len() <= rb.spec_capacity(),
{
    assert(rb.consumed() =~= (rb.consumed() + rb@).take(rb.consumed().len() as int));
}

} // verus!
