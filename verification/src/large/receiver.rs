//! The receiving side of a large-item channel.
use vstd::prelude::*;
use crate::markers::{NotSync, not_sync};
use crate::hint::{Backoff, backoff, spec_backoff};
use crate::receiver::RecvError;
use crate::poll::{Poll, batch_poll, deadline_poll, decide_batch, decide_deadline, decide_recv, recv_poll};
use crate::ring::RingModel;
use crate::shared::SharedLargeRing;

verus! {

/// A broadcast receiver for large items, with its own read position.
///
/// Every result below is computed from one consistent state of the shared
/// ring; which state that is depends on what other threads have done, so
/// the contracts state that the result is what that state gives.
pub struct Receiver<T: Copy> {
    ring: SharedLargeRing<T>,
    local_position: u64,
    spin_iterations: usize,
    allow_yield: bool,
    _not_sync: NotSync,
}

impl<T: Copy> Receiver<T> {
    /// The position of the next item this receiver reads.
    pub closed spec fn position(&self) -> u64 {
        self.local_position
    }

    /// The capacity of the channel.
    pub closed spec fn capacity(&self) -> nat {
        self.ring.pred().capacity as nat
    }

    /// How many times to spin before escalating the backoff.
    pub closed spec fn spin_budget(&self) -> usize {
        self.spin_iterations
    }

    /// Whether the receiver may yield its thread while waiting.
    pub closed spec fn yields(&self) -> bool {
        self.allow_yield
    }

    pub(crate) fn new(ring: SharedLargeRing<T>, position: u64, spin_iterations: usize, allow_yield: bool) -> (r: Self)
        ensures
            r.position() == position,
            r.capacity() == ring.pred().capacity,
            r.spin_budget() == spin_iterations,
            r.yields() == allow_yield,
    {
        Receiver { ring, local_position: position, spin_iterations, allow_yield, _not_sync: not_sync() }
    }

    /// Receive that does not wait for data (only for a send in progress),
    /// with tear detection: a slot that does not hold the item for this
    /// receiver's position reads as `Empty`.
    pub fn try_recv(&mut self) -> (r: Result<T, RecvError>)
        ensures
            final(self).capacity() == old(self).capacity(),
            exists|m: RingModel<T>|
                m.wf() && m.capacity == old(self).capacity()
                    && #[trigger] m.recv(old(self).position()) == (final(self).position(), r),
    {
        let handle = self.ring.acquire_read();
        let ring = handle.borrow();
        proof {
            ring.lemma_wf();
        }
        let ghost pos = self.local_position;
        let (new_pos, r) = ring.try_recv_at(self.local_position);
        handle.release_read();
        self.local_position = new_pos;
        assert(pos == old(self).position());
        assert(exists|m: RingModel<T>|
            m.wf() && m.capacity == self.capacity() && #[trigger] m.recv(pos) == (self.position(), r));
        r
    }

    /// Batch receive that does not wait for data: `Ok(count)` with `count`
    /// items written to the front of `buf` (`count > 0`, except `Ok(0)`
    /// when `buf` is empty), `Err(Empty)` when nothing is available, or
    /// `Err(Overrun { lost })` when lapped.
    pub fn try_recv_batch(&mut self, buf: &mut [T]) -> (r: Result<usize, RecvError>)
        ensures
            final(self).capacity() == old(self).capacity(),
            final(buf)@.len() == old(buf)@.len(),
            exists|m: RingModel<T>|
                m.wf() && m.capacity == old(self).capacity()
                    && #[trigger] m.recv_batch(old(self).position(), old(buf)@.len())
                        == (final(self).position(), r)
                    && match r {
                        Ok(n) => {
                            &&& final(buf)@.take(n as int) == m.items_from(old(self).position(), n as nat)
                            &&& final(buf)@.skip(n as int) == old(buf)@.skip(n as int)
                        },
                        Err(_) => final(buf)@ == old(buf)@,
                    },
    {
        let handle = self.ring.acquire_read();
        let ring = handle.borrow();
        proof {
            ring.lemma_wf();
        }
        let ghost pos = self.local_position;
        let ghost old_buf = buf@;
        let (new_pos, r) = ring.try_recv_batch_at(self.local_position, buf);
        handle.release_read();
        self.local_position = new_pos;
        assert(pos == old(self).position());
        assert(exists|m: RingModel<T>|
            m.wf() && m.capacity == self.capacity()
                && #[trigger] m.recv_batch(pos, old_buf.len()) == (self.position(), r)
                && match r {
                    Ok(n) => {
                        &&& buf@.take(n as int) == m.items_from(pos, n as nat)
                        &&& buf@.skip(n as int) == old_buf.skip(n as int)
                    },
                    Err(_) => buf@ == old_buf,
                });
        r
    }

    /// Checks whether the receiver has been lapped; repositions it if so.
    pub fn check_overrun(&mut self) -> (r: Option<usize>)
        ensures
            final(self).capacity() == old(self).capacity(),
            exists|m: RingModel<T>|
                m.wf() && m.capacity == old(self).capacity()
                    && #[trigger] m.check_overrun(old(self).position()) == (final(self).position(), r),
    {
        let handle = self.ring.acquire_read();
        let ring = handle.borrow();
        proof {
            ring.lemma_wf();
        }
        let ghost pos = self.local_position;
        let (new_pos, r) = ring.check_overrun_at(self.local_position);
        handle.release_read();
        self.local_position = new_pos;
        assert(pos == old(self).position());
        assert(exists|m: RingModel<T>|
            m.wf() && m.capacity == self.capacity() && #[trigger] m.check_overrun(pos) == (self.position(), r));
        r
    }

    /// The number of items this receiver can read without waiting for
    /// data: those published after its position, at most the capacity.
    pub fn available(&self) -> (r: usize)
        ensures
            exists|m: RingModel<T>|
                m.wf() && m.capacity == self.capacity() && #[trigger] m.available(self.position()) == r,
    {
        let handle = self.ring.acquire_read();
        let ring = handle.borrow();
        proof {
            ring.lemma_wf();
        }
        let r = ring.available_at(self.local_position);
        handle.release_read();
        assert(self.position() == self.local_position);
        assert(exists|m: RingModel<T>|
            m.wf() && m.capacity == self.capacity() && #[trigger] m.available(self.position()) == r);
        r
    }

    /// How to wait after `spin_count` unsuccessful polls, under this
    /// receiver's backoff settings.
    pub fn backoff(&self, spin_count: u32) -> (b: Backoff)
        ensures
            b == spec_backoff(spin_count, self.spin_budget(), self.yields()),
    {
        backoff(spin_count, self.spin_iterations, self.allow_yield)
    }

    /// One poll of a blocking receive: receives once without waiting for
    /// data, then decides whether to return the item, poll again at once
    /// (after an overrun), or wait with this receiver's backoff.
    pub fn poll_recv(&mut self, spin_count: u32) -> (s: Poll<T>)
        ensures
            final(self).capacity() == old(self).capacity(),
            exists|m: RingModel<T>|
                m.wf() && m.capacity == old(self).capacity()
                    && #[trigger] m.recv(old(self).position()).0 == final(self).position()
                    && s == recv_poll(
                        m.recv(old(self).position()).1,
                        spec_backoff(spin_count, old(self).spin_budget(), old(self).yields()),
                    ),
    {
        let wait = self.backoff(spin_count);
        let ghost pos = self.position();
        let ghost cap = self.capacity();
        let polled = self.try_recv();
        let s = decide_recv(polled, wait);
        proof {
            let m = choose|m: RingModel<T>|
                m.wf() && m.capacity == cap && #[trigger] m.recv(pos) == (self.position(), polled);
            assert(m.recv(pos).0 == self.position() && s == recv_poll(m.recv(pos).1, wait));
        }
        s
    }

    /// One poll of a receive with a deadline: returns data or an overrun
    /// at once, `Timeout` when `deadline_passed` and nothing is published,
    /// and otherwise says how to wait.
    pub fn poll_deadline(&mut self, deadline_passed: bool, spin_count: u32) -> (s: Poll<T>)
        ensures
            final(self).capacity() == old(self).capacity(),
            exists|m: RingModel<T>|
                m.wf() && m.capacity == old(self).capacity()
                    && #[trigger] m.recv(old(self).position()).0 == final(self).position()
                    && s == deadline_poll(
                        m.recv(old(self).position()).1,
                        deadline_passed,
                        spec_backoff(spin_count, old(self).spin_budget(), old(self).yields()),
                    ),
    {
        let wait = self.backoff(spin_count);
        let ghost pos = self.position();
        let ghost cap = self.capacity();
        let polled = self.try_recv();
        let s = decide_deadline(polled, deadline_passed, wait);
        proof {
            let m = choose|m: RingModel<T>|
                m.wf() && m.capacity == cap && #[trigger] m.recv(pos) == (self.position(), polled);
            assert(m.recv(pos).0 == self.position() && s == deadline_poll(m.recv(pos).1, deadline_passed, wait));
        }
        s
    }

    /// One poll of a blocking batch receive: a batch receive without
    /// waiting for data, then return the count, poll again at once (after
    /// an overrun), or wait.
    pub fn poll_batch(&mut self, buf: &mut [T], spin_count: u32) -> (s: Poll<usize>)
        ensures
            final(self).capacity() == old(self).capacity(),
            final(buf)@.len() == old(buf)@.len(),
            exists|m: RingModel<T>|
                m.wf() && m.capacity == old(self).capacity()
                    && #[trigger] m.recv_batch(old(self).position(), old(buf)@.len()).0 == final(self).position()
                    && s == batch_poll(
                        m.recv_batch(old(self).position(), old(buf)@.len()).1,
                        spec_backoff(spin_count, old(self).spin_budget(), old(self).yields()),
                    )
                    && match m.recv_batch(old(self).position(), old(buf)@.len()).1 {
                        Ok(n) => {
                            &&& final(buf)@.take(n as int) == m.items_from(old(self).position(), n as nat)
                            &&& final(buf)@.skip(n as int) == old(buf)@.skip(n as int)
                        },
                        Err(_) => final(buf)@ == old(buf)@,
                    },
    {
        let wait = self.backoff(spin_count);
        let ghost pos = self.position();
        let ghost cap = self.capacity();
        let ghost old_buf = buf@;
        let polled = self.try_recv_batch(buf);
        let s = decide_batch(polled, wait);
        proof {
            let m = choose|m: RingModel<T>|
                m.wf() && m.capacity == cap
                    && #[trigger] m.recv_batch(pos, old_buf.len()) == (self.position(), polled)
                    && match polled {
                        Ok(n) => {
                            &&& buf@.take(n as int) == m.items_from(pos, n as nat)
                            &&& buf@.skip(n as int) == old_buf.skip(n as int)
                        },
                        Err(_) => buf@ == old_buf,
                    };
            assert(m.recv_batch(pos, old_buf.len()).0 == self.position() && s == batch_poll(m.recv_batch(pos, old_buf.len()).1, wait));
        }
        s
    }
}

} // verus!
