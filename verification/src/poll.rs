//! The per-poll decisions of the blocking receives: after one attempt that
//! does not wait for data, return a result, poll again at once, or wait.
use vstd::prelude::*;
use crate::hint::Backoff;
use crate::receiver::RecvError;

verus! {

/// What a blocking receive does after one poll.
#[derive(Debug, PartialEq, Eq)]
pub enum Poll<T> {
    /// Stop and return this result.
    Ready(Result<T, RecvError>),
    /// The receiver was repositioned after being lapped: poll again at once.
    Retry,
    /// Nothing to read yet: wait as given, then poll again.
    Wait(Backoff),
}

/// A blocking receive takes an item as soon as one is read; after an
/// overrun it polls again at once; when nothing is published it waits.
pub open spec fn recv_poll<T>(polled: Result<T, RecvError>, wait: Backoff) -> Poll<T> {
    match polled {
        Ok(item) => Poll::Ready(Ok(item)),
        Err(RecvError::Overrun { .. }) => Poll::Retry,
        Err(_) => Poll::Wait(wait),
    }
}

/// A receive with a deadline returns data or an overrun at once, even
/// past the deadline; it times out only when the deadline has passed with
/// nothing published, and otherwise waits.
pub open spec fn deadline_poll<T>(polled: Result<T, RecvError>, deadline_passed: bool, wait: Backoff) -> Poll<T> {
    match polled {
        Ok(item) => Poll::Ready(Ok(item)),
        Err(RecvError::Overrun { lost }) => Poll::Ready(Err(RecvError::Overrun { lost })),
        Err(_) => if deadline_passed {
            Poll::Ready(Err(RecvError::Timeout))
        } else {
            Poll::Wait(wait)
        },
    }
}

/// A blocking batch receive returns the count as soon as a batch is read
/// (`Ok(0)` for an empty buffer); after an overrun it polls again at
/// once; when nothing is published it waits.
pub open spec fn batch_poll(polled: Result<usize, RecvError>, wait: Backoff) -> Poll<usize> {
    match polled {
        Ok(n) => Poll::Ready(Ok(n)),
        Err(RecvError::Overrun { .. }) => Poll::Retry,
        Err(_) => Poll::Wait(wait),
    }
}

/// Decides a blocking receive's next move from one poll's result.
pub fn decide_recv<T>(polled: Result<T, RecvError>, wait: Backoff) -> (p: Poll<T>)
    ensures
        p == recv_poll(polled, wait),
{
    match polled {
        Ok(item) => Poll::Ready(Ok(item)),
        Err(RecvError::Overrun { .. }) => Poll::Retry,
        Err(_) => Poll::Wait(wait),
    }
}

/// Decides a deadline receive's next move from one poll's result.
pub fn decide_deadline<T>(polled: Result<T, RecvError>, deadline_passed: bool, wait: Backoff) -> (p: Poll<T>)
    ensures
        p == deadline_poll(polled, deadline_passed, wait),
{
    match polled {
        Ok(item) => Poll::Ready(Ok(item)),
        Err(RecvError::Overrun { lost }) => Poll::Ready(Err(RecvError::Overrun { lost })),
        Err(_) => if deadline_passed {
            Poll::Ready(Err(RecvError::Timeout))
        } else {
            Poll::Wait(wait)
        },
    }
}

/// Decides a blocking batch receive's next move from one poll's result.
pub fn decide_batch(polled: Result<usize, RecvError>, wait: Backoff) -> (p: Poll<usize>)
    ensures
        p == batch_poll(polled, wait),
{
    match polled {
        Ok(n) => Poll::Ready(Ok(n)),
        Err(RecvError::Overrun { .. }) => Poll::Retry,
        Err(_) => Poll::Wait(wait),
    }
}

} // verus!
