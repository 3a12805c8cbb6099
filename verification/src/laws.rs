//! Properties of the ring that span several operations.
use vstd::prelude::*;
use crate::position::{
    is_ring_capacity,
    is_overrun, lag, lemma_capacity_divides_modulus, position_modulus, reposition,
};
use crate::receiver::RecvError;
use crate::hint::Backoff;
use crate::poll::{Poll, deadline_poll};
use crate::large::lemma_slot_holds_one_position;
use crate::ring::{RingModel, batch_count, lemma_send_all_head};
use vstd::arithmetic::power2::{pow2, lemma_pow2_strictly_increases, lemma_pow2_unfold};

verus! {

/// The items a ring holds after more items are sent: the newest
/// `capacity` of everything held so far followed by the new items.
pub open spec fn window_after<T>(window: Seq<T>, items: Seq<T>, capacity: nat) -> Seq<T> {
    let all = window + items;
    if all.len() <= capacity {
        all
    } else {
        all.skip(all.len() - capacity)
    }
}

/// Sending keeps a ring well formed.
pub proof fn lemma_send_wf<T>(m: RingModel<T>, item: T)
    requires
        m.wf(),
    ensures
        m.send(item).wf(),
{
    lemma_capacity_divides_modulus(m.capacity);
}

/// After sending `items`, a ring holds the newest `capacity` items of its
/// old contents followed by `items`, and its head has advanced by the
/// number of items (modulo 2^64).
pub proof fn lemma_send_all_window<T>(m: RingModel<T>, items: Seq<T>)
    requires
        m.wf(),
    ensures
        m.send_all(items).wf(),
        m.send_all(items).capacity == m.capacity,
        m.send_all(items).window == window_after(m.window, items, m.capacity),
        m.send_all(items).head as int == (m.head as int + items.len()) % position_modulus(),
    decreases items.len(),
{
    lemma_send_all_head(m, items);
    if items.len() == 0 {
        assert(m.window + items =~= m.window);
    } else {
        let prev = items.drop_last();
        let x = items.last();
        lemma_send_all_window(m, prev);
        let mp = m.send_all(prev);
        lemma_send_wf(mp, x);
        let all_prev = m.window + prev;
        let all = m.window + items;
        assert(all =~= all_prev.push(x));
        if all_prev.len() < m.capacity {
            assert(mp.send(x).window =~= window_after(m.window, items, m.capacity));
        } else {
            assert(mp.send(x).window =~= window_after(m.window, items, m.capacity));
        }
    }
}

/// Read-back: every item sent is received, in order, by a receiver that
/// was at the head when they were sent, as long as no more than `capacity`
/// items were sent and the positions do not wrap; after the last one the
/// receiver finds the channel empty.
pub proof fn lemma_fifo<T>(m: RingModel<T>, items: Seq<T>)
    requires
        m.wf(),
        items.len() <= m.capacity,
        m.head + items.len() <= u64::MAX,
    ensures
        forall|i: int|
            0 <= i < items.len() ==> #[trigger] m.send_all(items).recv((m.head + i) as u64) == (
                (m.head + i + 1) as u64,
                Ok::<T, RecvError>(items[i]),
            ),
        m.send_all(items).recv((m.head + items.len()) as u64) == (
            (m.head + items.len()) as u64,
            Err::<T, RecvError>(RecvError::Empty),
        ),
{
    lemma_send_all_window(m, items);
    lemma_capacity_divides_modulus(m.capacity);
    let m2 = m.send_all(items);
    let n = items.len() as int;
    vstd::arithmetic::div_mod::lemma_small_mod((m.head + n) as nat, position_modulus() as nat);
    assert(m2.head == m.head + n);
    assert forall|i: int| 0 <= i < items.len() implies #[trigger] m2.recv((m.head + i) as u64) == (
        (m.head + i + 1) as u64,
        Ok::<T, RecvError>(items[i]),
    ) by {
        let p = (m.head + i) as u64;
        assert(lag(m2.head, p) == n - i);
        let all = m.window + items;
        let w2 = window_after(m.window, items, m.capacity);
        if all.len() > m.capacity {
            assert(w2[w2.len() - (n - i)] == all[all.len() - (n - i)]);
        }
        assert(all[all.len() - (n - i)] == items[i]);
    }
}

/// A receiver that was at the head when more than `capacity` items were
/// sent is told it lost the excess, is moved past the lost items, then
/// receives the newest `capacity` items in order and finds the channel
/// empty (as long as the positions do not wrap).
pub proof fn lemma_lapped_receiver_keeps_newest<T>(m: RingModel<T>, items: Seq<T>)
    requires
        m.wf(),
        items.len() > m.capacity,
        m.head + items.len() <= u64::MAX,
    ensures
        ({
            let m2 = m.send_all(items);
            let excess = items.len() - m.capacity;
            &&& m2.recv(m.head) == (
                (m.head + excess) as u64,
                Err::<T, RecvError>(RecvError::Overrun { lost: excess as usize }),
            )
            &&& forall|i: int|
                excess <= i < items.len() ==> #[trigger] m2.recv((m.head + i) as u64) == (
                    (m.head + i + 1) as u64,
                    Ok::<T, RecvError>(items[i]),
                )
            &&& m2.recv((m.head + items.len()) as u64) == (
                (m.head + items.len()) as u64,
                Err::<T, RecvError>(RecvError::Empty),
            )
        }),
{
    lemma_send_all_window(m, items);
    lemma_capacity_divides_modulus(m.capacity);
    let m2 = m.send_all(items);
    let n = items.len() as int;
    let excess = n - m.capacity;
    vstd::arithmetic::div_mod::lemma_small_mod((m.head + n) as nat, position_modulus() as nat);
    assert(m2.head == m.head + n);
    assert(m2.window.len() == m.capacity);
    assert(lag(m2.head, m.head) == n);
    assert forall|i: int| excess <= i < items.len() implies #[trigger] m2.recv((m.head + i) as u64) == (
        (m.head + i + 1) as u64,
        Ok::<T, RecvError>(items[i]),
    ) by {
        let p = (m.head + i) as u64;
        assert(lag(m2.head, p) == n - i);
        let all = m.window + items;
        assert(m2.window[m2.window.len() - (n - i)] == all[all.len() - (n - i)]);
        assert(all[all.len() - (n - i)] == items[i]);
    }
}

/// A lapped receiver is told how many items it lost (its lag beyond the
/// capacity) and moved to the oldest surviving position, from which it
/// lags by exactly the capacity; `check_overrun` reports and repositions
/// the same way.
pub proof fn lemma_overrun<T>(m: RingModel<T>, pos: u64)
    requires
        m.wf(),
        is_overrun(m.head, pos, m.capacity as u64),
    ensures
        m.recv(pos) == (
            reposition(m.head, m.capacity as u64),
            Err::<T, RecvError>(RecvError::Overrun { lost: (lag(m.head, pos) - m.capacity) as usize }),
        ),
        m.check_overrun(pos) == (
            reposition(m.head, m.capacity as u64),
            Some((lag(m.head, pos) - m.capacity) as usize),
        ),
        lag(m.head, reposition(m.head, m.capacity as u64)) == m.capacity,
        !is_overrun(m.head, reposition(m.head, m.capacity as u64), m.capacity as u64),
{
    lemma_capacity_divides_modulus(m.capacity);
}

/// After being repositioned, a lapped receiver reads the oldest item the
/// ring holds, and sees a full ring's worth of items available (when the
/// positions have not wrapped).
pub proof fn lemma_overrun_resumes_at_oldest<T>(m: RingModel<T>, pos: u64)
    requires
        m.wf(),
        is_overrun(m.head, pos, m.capacity as u64),
        m.head >= m.capacity,
    ensures
        ({
            let new_pos = reposition(m.head, m.capacity as u64);
            &&& new_pos == m.head - m.capacity
            &&& m.recv(new_pos) == ((new_pos + 1) as u64, Ok::<T, RecvError>(m.window[0]))
            &&& m.available(new_pos) == m.capacity as usize
        }),
{
    lemma_capacity_divides_modulus(m.capacity);
}

/// Once no more than `capacity` items are outstanding, `check_overrun`
/// leaves the receiver where it is and reports nothing, however often it
/// is called.
pub proof fn lemma_check_overrun_idempotent<T>(m: RingModel<T>, pos: u64)
    requires
        m.wf(),
        !is_overrun(m.head, pos, m.capacity as u64),
    ensures
        m.check_overrun(pos) == (pos, None::<usize>),
{
}

/// A receiver at the head (as a new subscriber is) finds the channel
/// empty and nothing available.
pub proof fn lemma_subscriber_starts_empty<T>(m: RingModel<T>)
    requires
        m.wf(),
    ensures
        m.recv(m.head) == (m.head, Err::<T, RecvError>(RecvError::Empty)),
        m.available(m.head) == 0,
{
}

/// A batch receive hands out exactly what the same number of single
/// receives would, and leaves the receiver where they would.
pub proof fn lemma_batch_is_repeated_recv<T>(m: RingModel<T>, pos: u64, buf_len: nat)
    requires
        m.wf(),
        m.recv_batch(pos, buf_len).1 is Ok,
    ensures
        ({
            let n = m.recv_batch(pos, buf_len).1->Ok_0 as int;
            &&& forall|i: int| 0 <= i < n ==> #[trigger] m.recv((pos + i) as u64) == (
                    (pos + i + 1) as u64,
                    Ok::<T, RecvError>(m.items_from(pos, n as nat)[i]),
                )
            &&& m.recv_batch(pos, buf_len).0 == (pos + n) as u64
        }),
{
    lemma_capacity_divides_modulus(m.capacity);
    if buf_len > 0 && !is_overrun(m.head, pos, m.capacity as u64) && pos < m.head {
        let n = batch_count(lag(m.head, pos), buf_len) as int;
        assert(n <= lag(m.head, pos));
        assert forall|i: int| 0 <= i < n implies #[trigger] m.recv((pos + i) as u64) == (
            (pos + i + 1) as u64,
            Ok::<T, RecvError>(m.items_from(pos, n as nat)[i]),
        ) by {
            assert(lag(m.head, (pos + i) as u64) == lag(m.head, pos) - i);
        }
    }
}

/// A batch receive into a non-empty buffer either reports an error or
/// hands out at least one item; `Ok(0)` comes only for an empty buffer.
pub proof fn lemma_batch_nonempty<T>(m: RingModel<T>, pos: u64, buf_len: nat)
    requires
        m.wf(),
        m.capacity <= usize::MAX,
    ensures
        m.recv_batch(pos, buf_len).1 == Ok::<usize, RecvError>(0) <==> buf_len == 0,
{
    lemma_capacity_divides_modulus(m.capacity);
}

/// A receive never moves a receiver backwards: it stays put on `Empty`,
/// and otherwise ends up strictly closer to the head than it was.
pub proof fn lemma_recv_moves_forward<T>(m: RingModel<T>, pos: u64)
    requires
        m.wf(),
    ensures
        m.recv(pos).1 is Err && m.recv(pos).1->Err_0 == RecvError::Empty ==> m.recv(pos).0 == pos,
        !(m.recv(pos).1 is Err && m.recv(pos).1->Err_0 == RecvError::Empty) ==> lag(m.head, m.recv(pos).0) < lag(m.head, pos),
{
    lemma_capacity_divides_modulus(m.capacity);
}

/// A successful receive uses up exactly one available item.
pub proof fn lemma_recv_consumes_one<T>(m: RingModel<T>, pos: u64)
    requires
        m.wf(),
        m.capacity <= usize::MAX,
        m.recv(pos).1 is Ok,
    ensures
        m.recv(pos).0 == pos + 1,
        m.available(m.recv(pos).0) == m.available(pos) - 1,
{
    lemma_capacity_divides_modulus(m.capacity);
}

/// A capacity rounded up from `requested` (a power of two in
/// `[requested, 2 * requested)`) is the smallest power of two that is at
/// least `requested`.
pub proof fn lemma_rounded_capacity_is_least(requested: nat, capacity: nat, k: nat)
    requires
        is_ring_capacity(capacity),
        requested <= capacity < 2 * requested,
        requested <= pow2(k),
    ensures
        capacity <= pow2(k),
{
    let j = choose|j: nat| j <= 63 && capacity == pow2(j);
    if pow2(k) < capacity {
        if k >= j {
            if k > j {
                lemma_pow2_strictly_increases(j, k);
            }
            assert(false);
        }
        // k < j, so 2^k <= 2^(j-1) = capacity / 2 < requested
        lemma_pow2_unfold(j);
        if k < (j - 1) as nat {
            lemma_pow2_strictly_increases(k, (j - 1) as nat);
        }
        assert(false);
    }
}

/// Sending never changes a ring's capacity.
pub proof fn lemma_capacity_fixed<T>(m: RingModel<T>, items: Seq<T>)
    ensures
        m.send_all(items).capacity == m.capacity,
{
    lemma_send_all_head(m, items);
}

/// A slot holds one position at a time: right after the item for the head
/// is sent, that position is held with that item, and no other position
/// sharing its slot is held (a stale or lapped reader of that slot gets
/// nothing).
pub proof fn lemma_slot_holds_latest<T>(m: RingModel<T>, item: T, other: u64)
    requires
        m.wf(),
        other != m.head,
        (other as int) % (m.capacity as int) == (m.head as int) % (m.capacity as int),
    ensures
        m.send(item).holds(m.head),
        m.send(item).item_at(m.head) == item,
        !m.send(item).holds(other),
{
    lemma_capacity_divides_modulus(m.capacity);
    lemma_send_wf(m, item);
    let m2 = m.send(item);
    assert(lag(m2.head, m.head) == 1);
    if m2.holds(other) {
        lemma_slot_holds_one_position(m2.head, m.capacity, other, m.head);
    }
}

/// `available` never overstates: a receiver that has not been lapped can
/// read every position `available` counts; a lapped one, once moved to the
/// oldest surviving position, can read that many from there.
pub proof fn lemma_available_is_readable<T>(m: RingModel<T>, pos: u64)
    requires
        m.wf(),
        m.capacity <= usize::MAX,
    ensures
        m.available(pos) <= m.window.len(),
        !is_overrun(m.head, pos, m.capacity as u64) ==> forall|i: int|
            0 <= i < m.available(pos) ==> #[trigger] m.holds((pos + i) as u64),
        is_overrun(m.head, pos, m.capacity as u64) && m.head > pos ==> forall|i: int|
            0 <= i < m.available(pos) ==> #[trigger] m.holds((reposition(m.head, m.capacity as u64) + i) as u64),
{
    lemma_capacity_divides_modulus(m.capacity);
}

/// Sending into a full ring overwrites only the oldest item: the new item
/// is held at the old head, every other item held before is still held
/// at its position, and the oldest position is no longer held.
pub proof fn lemma_send_overwrites_only_oldest<T>(m: RingModel<T>, item: T, pos: u64)
    requires
        m.wf(),
        m.window.len() == m.capacity,
        m.holds(pos),
    ensures
        m.send(item).holds(m.head),
        m.send(item).item_at(m.head) == item,
        lag(m.head, pos) < m.capacity ==> m.send(item).holds(pos) && m.send(item).item_at(pos)
            == m.item_at(pos),
        lag(m.head, pos) == m.capacity ==> !m.send(item).holds(pos),
{
    lemma_capacity_divides_modulus(m.capacity);
    lemma_send_wf(m, item);
    let m2 = m.send(item);
    assert(lag(m2.head, m.head) == 1);
    assert(lag(m2.head, pos) == lag(m.head, pos) + 1);
}

/// A receive with a deadline never drops published data: when the ring
/// holds an item at the receiver's position, the poll returns it whether
/// or not the deadline has passed; it times out only when the deadline has
/// passed and the ring has nothing past the receiver.
pub proof fn lemma_deadline_returns_published<T>(m: RingModel<T>, pos: u64, deadline_passed: bool, wait: Backoff)
    requires
        m.wf(),
    ensures
        !is_overrun(m.head, pos, m.capacity as u64) && pos < m.head ==> deadline_poll(
            m.recv(pos).1,
            deadline_passed,
            wait,
        ) == Poll::<T>::Ready(Ok(m.item_at(pos))),
        deadline_poll(m.recv(pos).1, deadline_passed, wait) == Poll::<T>::Ready(Err(RecvError::Timeout))
            <==> (deadline_passed && !is_overrun(m.head, pos, m.capacity as u64) && pos >= m.head),
{
}

} // verus!
