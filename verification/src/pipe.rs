//! The bounded in-memory pipe that bridges the blocking packer to the
//! streaming response: bytes go in at the back, come out at the front in
//! order, and never more than the configured capacity is buffered.

use vstd::prelude::*;

verus! {

/// A bounded first-in-first-out byte pipe.
pub struct BoundedPipe {
    buf: Vec<u8>,
    capacity: usize,
    closed: bool,
}

impl BoundedPipe {
    /// The bytes written but not yet read, in write order.
    pub closed spec fn pending(&self) -> Seq<u8> {
        self.buf@
    }

    /// The fixed capacity of the pipe.
    pub closed spec fn cap(&self) -> nat {
        self.capacity as nat
    }

    /// True once the producer end has been closed.
    pub closed spec fn is_closed(&self) -> bool {
        self.closed
    }

    /// The memory bound: no more than `cap` bytes are ever buffered.
    pub closed spec fn wf(&self) -> bool {
        self.pending().len() <= self.cap()
    }

    /// Opens a pipe of the given capacity.
    pub fn new(capacity: usize) -> (p: Self)
        requires
            capacity >= 1,
        ensures
            p.wf(),
            p.pending() == Seq::<u8>::empty(),
            p.cap() == capacity,
            !p.is_closed(),
    {
        let p = BoundedPipe { buf: Vec::new(), capacity, closed: false };
        proof {
            assert(p.pending() =~= Seq::<u8>::empty());
        }
        p
    }

    /// Offers bytes to the pipe and reports how many were accepted: exactly
    /// as many as fit under the capacity, taken from the front of `data`,
    /// appended in order. A blocked producer retries with the rest, which is
    /// the backpressure throttle.
    pub fn write(&mut self, data: &[u8]) -> (accepted: usize)
        requires
            old(self).wf(),
            !old(self).is_closed(),
        ensures
            final(self).wf(),
            accepted == vstd::math::min(
                data@.len() as int,
                old(self).cap() as int - old(self).pending().len() as int,
            ),
            final(self).pending() == old(self).pending() + data@.take(accepted as int),
            final(self).cap() == old(self).cap(),
            !final(self).is_closed(),
            final(self).pending().len() <= final(self).cap(),
    {
        let room: usize = self.capacity - self.buf.len();
        let take: usize = if data.len() < room {
            data.len()
        } else {
            room
        };
        let mut i: usize = 0;
        while i < take
            invariant
                i <= take,
                take <= data@.len(),
                self.buf@.len() == old(self).buf@.len() + i,
                self.capacity == old(self).capacity,
                self.closed == old(self).closed,
                self.buf@ =~= old(self).buf@ + data@.subrange(0, i as int),
                old(self).buf@.len() + take <= self.capacity,
            decreases take - i,
        {
            self.buf.push(data[i]);
            i = i + 1;
        }
        proof {
            assert(self.buf@ =~= old(self).buf@ + data@.take(take as int));
        }
        take
    }

    /// Takes up to `n` bytes from the front of the pipe, in the order they
    /// were written.
    pub fn read(&mut self, n: usize) -> (out: Vec<u8>)
        requires
            old(self).wf(),
        ensures
            final(self).wf(),
            out@ == old(self).pending().take(
                vstd::math::min(n as int, old(self).pending().len() as int),
            ),
            final(self).pending() == old(self).pending().skip(
                vstd::math::min(n as int, old(self).pending().len() as int),
            ),
            final(self).cap() == old(self).cap(),
            final(self).is_closed() == old(self).is_closed(),
    {
        let take: usize = if n < self.buf.len() {
            n
        } else {
            self.buf.len()
        };
        let mut out: Vec<u8> = Vec::new();
        let mut i: usize = 0;
        while i < take
            invariant
                i <= take,
                take <= self.buf@.len(),
                self == old(self),
                out@ =~= self.buf@.subrange(0, i as int),
            decreases take - i,
        {
            out.push(self.buf[i]);
            i = i + 1;
        }
        let mut rest: Vec<u8> = Vec::new();
        let total: usize = self.buf.len();
        let mut k: usize = take;
        while k < total
            invariant
                take <= k <= total,
                total == self.buf@.len(),
                self == old(self),
                rest@ =~= self.buf@.subrange(take as int, k as int),
            decreases total - k,
        {
            rest.push(self.buf[k]);
            k = k + 1;
        }
        proof {
            assert(rest@ =~= self.buf@.skip(take as int));
        }
        self.buf = rest;
        out
    }

    /// Offers bytes to the pipe unless its other end is gone: writing into
    /// a closed pipe fails with [`crate::errors::BackupError::StreamTerminated`]
    /// and changes nothing, which is how an abandoned producer learns to
    /// stop instead of running to completion.
    pub fn try_write(&mut self, data: &[u8]) -> (r: Result<usize, crate::errors::BackupError>)
        requires
            old(self).wf(),
        ensures
            final(self).wf(),
            old(self).is_closed() ==> r == Err::<usize, crate::errors::BackupError>(
                crate::errors::BackupError::StreamTerminated,
            ) && *final(self) == *old(self),
            !old(self).is_closed() ==> r is Ok && r->Ok_0 == vstd::math::min(
                data@.len() as int,
                old(self).cap() as int - old(self).pending().len() as int,
            ) && final(self).pending() == old(self).pending() + data@.take(r->Ok_0 as int)
                && final(self).cap() == old(self).cap() && !final(self).is_closed(),
    {
        if self.closed {
            return Err(crate::errors::BackupError::StreamTerminated);
        }
        Ok(self.write(data))
    }

    /// Closes the producer end: the consumer drains what is pending and
    /// then sees end-of-stream.
    pub fn close(&mut self)
        requires
            old(self).wf(),
        ensures
            final(self).wf(),
            final(self).is_closed(),
            final(self).pending() == old(self).pending(),
            final(self).cap() == old(self).cap(),
    {
        self.closed = true;
    }

    /// True when the consumer has seen everything: the pipe is closed and
    /// drained.
    pub fn at_eof(&self) -> (r: bool)
        ensures
            r == (self.is_closed() && self.pending().len() == 0),
    {
        self.closed && self.buf.len() == 0
    }
}

} // verus!
