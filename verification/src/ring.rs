//! The ring itself: a fixed number of slots written in order by one sender
//! and read at independent positions by any number of receivers.
use vstd::prelude::*;
use vstd::arithmetic::div_mod::{lemma_mod_multiples_vanish, lemma_small_mod, lemma_mod_bound, lemma_add_mod_noop};
use crate::hint::likely;
use crate::position::{
    is_overrun, is_ring_capacity, lag, lemma_capacity_divides_modulus, lemma_mask_is_slot, lost_count,
    overrun, overrun_outcome, position_modulus, reposition, round_capacity,
};
use crate::receiver::RecvError;

verus! {

/// What the receivers of a ring can observe: its capacity, the write head
/// (the position the next item goes to) and the items still held, oldest
/// first. The item in `window[i]` was sent at position
/// `head - window.len() + i` (modulo 2^64).
pub struct RingModel<T> {
    pub capacity: nat,
    pub head: u64,
    pub window: Seq<T>,
}

impl<T> RingModel<T> {
    /// A freshly created ring of the given capacity.
    pub open spec fn empty(capacity: nat) -> Self {
        RingModel { capacity, head: 0, window: Seq::empty() }
    }

    /// The window is never longer than the capacity, and while it is not
    /// full every item ever sent is still held.
    pub open spec fn wf(self) -> bool {
        &&& is_ring_capacity(self.capacity)
        &&& self.window.len() <= self.capacity
        &&& self.window.len() < self.capacity ==> self.head == self.window.len()
    }

    /// Sending appends the item at the head; once the ring is full the
    /// oldest item is overwritten.
    pub open spec fn send(self, item: T) -> Self {
        RingModel {
            capacity: self.capacity,
            head: self.head.wrapping_add(1),
            window: if self.window.len() < self.capacity {
                self.window.push(item)
            } else {
                self.window.drop_first().push(item)
            },
        }
    }

    /// Sending each item of `items` in order.
    pub open spec fn send_all(self, items: Seq<T>) -> Self
        decreases items.len(),
    {
        if items.len() == 0 {
            self
        } else {
            self.send_all(items.drop_last()).send(items.last())
        }
    }

    /// The position still held is `pos` iff it is between one and
    /// `window.len()` positions behind the head.
    pub open spec fn holds(self, pos: u64) -> bool {
        1 <= lag(self.head, pos) <= self.window.len()
    }

    /// The item sent at `pos`, where it is still held.
    pub open spec fn item_at(self, pos: u64) -> T
        recommends
            self.holds(pos),
    {
        self.window[self.window.len() - lag(self.head, pos)]
    }

    /// The `n` items sent from position `pos` on.
    pub open spec fn items_from(self, pos: u64, n: nat) -> Seq<T> {
        Seq::new(n, |i: int| self.item_at((pos + i) as u64))
    }

    /// What a receiver at `pos` gets from a non-blocking receive, and the
    /// position it moves to.
    pub open spec fn recv(self, pos: u64) -> (u64, Result<T, RecvError>) {
        if is_overrun(self.head, pos, self.capacity as u64) {
            (
                reposition(self.head, self.capacity as u64),
                Err(RecvError::Overrun { lost: lost_count(self.head, pos, self.capacity as u64) }),
            )
        } else if pos >= self.head {
            (pos, Err(RecvError::Empty))
        } else {
            (pos.wrapping_add(1), Ok(self.item_at(pos)))
        }
    }

    /// How many items a receiver at `pos` can read, as reported by
    /// `available`: everything published after it, but no more than the
    /// capacity when it has been lapped.
    pub open spec fn available(self, pos: u64) -> usize {
        if self.head > pos {
            if self.head - pos > self.capacity {
                self.capacity as usize
            } else {
                (self.head - pos) as usize
            }
        } else {
            0
        }
    }

    /// What a batch receive into a buffer of `buf_len` slots returns, and
    /// the position the receiver moves to. On `Ok(n)` the first `n` slots
    /// of the buffer receive `items_from(pos, n)`.
    pub open spec fn recv_batch(self, pos: u64, buf_len: nat) -> (u64, Result<usize, RecvError>) {
        if buf_len == 0 {
            (pos, Ok(0))
        } else if is_overrun(self.head, pos, self.capacity as u64) {
            (
                reposition(self.head, self.capacity as u64),
                Err(RecvError::Overrun { lost: lost_count(self.head, pos, self.capacity as u64) }),
            )
        } else if pos >= self.head {
            (pos, Err(RecvError::Empty))
        } else {
            let count = batch_count(lag(self.head, pos), buf_len);
            (pos.wrapping_add(count as u64), Ok(count))
        }
    }

    /// What `check_overrun` reports for a receiver at `pos`, and where the
    /// receiver ends up.
    pub open spec fn check_overrun(self, pos: u64) -> (u64, Option<usize>) {
        match overrun_outcome(self.head, pos, self.capacity as u64) {
            Some((new_pos, lost)) => (new_pos, Some(lost)),
            None => (pos, None),
        }
    }
}

/// How many items a batch receive takes: what is published, as a `usize`,
/// capped by the buffer length.
pub open spec fn batch_count(published: u64, buf_len: nat) -> usize {
    let available = published as usize;
    if (available as nat) < buf_len {
        available
    } else {
        buf_len as usize
    }
}

/// The items held by slots `slots` when the write head is at `head`:
/// position `q` lives in slot `q % capacity`.
pub open spec fn window_of<T>(slots: Seq<T>, head: u64, capacity: nat) -> Seq<T> {
    Seq::new(
        slots.len(),
        |i: int| slots[(head as int - slots.len() + i) % (capacity as int)],
    )
}

/// Slots grow by one until the ring is full; after that a write replaces
/// the slot in place.
pub open spec fn store<T>(slots: Seq<T>, index: int, item: T) -> Seq<T> {
    if index < slots.len() {
        slots.update(index, item)
    } else {
        slots.push(item)
    }
}

/// The layout invariant of the slots for a write head at `head`.
pub open spec fn slots_wf<T>(slots: Seq<T>, head: u64, capacity: nat) -> bool {
    &&& is_ring_capacity(capacity)
    &&& slots.len() <= capacity
    &&& slots.len() < capacity ==> head == slots.len()
}

/// The item at a held position lives in slot `pos % capacity`.
pub proof fn lemma_item_in_slot<T>(slots: Seq<T>, head: u64, capacity: nat, pos: u64)
    requires
        slots_wf(slots, head, capacity),
        1 <= lag(head, pos) <= slots.len(),
    ensures
        (pos as int) % (capacity as int) < slots.len(),
        window_of(slots, head, capacity)[slots.len() - lag(head, pos)]
            == slots[(pos as int) % (capacity as int)],
{
    lemma_capacity_divides_modulus(capacity);
    let cap = capacity as int;
    let d = lag(head, pos) as int;
    let q = position_modulus() / cap;
    if head >= pos {
        assert(head as int - d == pos as int);
    } else {
        assert(head as int - d == pos as int - position_modulus());
        lemma_mod_multiples_vanish(-q, pos as int, cap);
        assert(cap * (-q) + pos as int == pos as int - position_modulus()) by (nonlinear_arith)
            requires position_modulus() == cap * q;
    }
    assert((head as int - slots.len() + (slots.len() - d)) % cap == (pos as int) % cap);
    lemma_mod_bound(pos as int, cap);
    if slots.len() < capacity {
        assert(head >= pos);
        lemma_small_mod(pos as nat, capacity);
    }
}

/// Writing the item for position `head` into its slot and advancing the
/// head by one is sending that item.
pub proof fn lemma_store_is_send<T>(slots: Seq<T>, head: u64, capacity: nat, item: T)
    requires
        slots_wf(slots, head, capacity),
    ensures
        ({
            let slots2 = store(slots, (head as int) % (capacity as int), item);
            let head2 = head.wrapping_add(1);
            let m = RingModel { capacity, head, window: window_of(slots, head, capacity) };
            &&& slots_wf(slots2, head2, capacity)
            &&& window_of(slots2, head2, capacity) == m.send(item).window
        }),
{
    lemma_capacity_divides_modulus(capacity);
    let cap = capacity as int;
    let len = slots.len() as int;
    let idx = (head as int) % cap;
    let slots2 = store(slots, idx, item);
    let head2 = head.wrapping_add(1);
    let m = RingModel { capacity, head, window: window_of(slots, head, capacity) };
    let w2 = window_of(slots2, head2, capacity);
    let q = position_modulus() / cap;
    // The new head is congruent to head + 1.
    assert((head2 as int) % cap == (head as int + 1) % cap) by {
        if head == u64::MAX {
            assert(head2 as int == head as int + 1 - position_modulus());
            lemma_mod_multiples_vanish(-q, head as int + 1, cap);
            assert(cap * (-q) + (head as int + 1) == head as int + 1 - position_modulus()) by (nonlinear_arith)
                requires position_modulus() == cap * q;
        }
    }
    if len < cap {
        lemma_small_mod(head as nat, capacity);
        assert(idx == len);
        assert(slots2 == slots.push(item));
        assert forall|i: int| 0 <= i < len + 1 implies w2[i] == m.send(item).window[i] by {
            lemma_small_mod(i as nat, capacity);
            assert((head2 as int - (len + 1) + i) == i);
            if i < len {
                assert((head as int - len + i) == i);
            }
        }
        assert(w2 =~= m.send(item).window);
    } else {
        assert(len == cap);
        lemma_mod_bound(head as int, cap);
        assert(slots2 == slots.update(idx, item));
        let r = idx;
        assert forall|i: int| 0 <= i < len implies w2[i] == m.send(item).window[i] by {
            // slot of position head2 - cap + i is (head + 1 + i) % cap
            lemma_mod_multiples_vanish(-1, head2 as int + i, cap);
            assert(cap * (-1) + (head2 as int + i) == head2 as int - len + i);
            lemma_add_mod_noop(head2 as int, i, cap);
            lemma_add_mod_noop(head as int + 1, i, cap);
            assert((head2 as int - len + i) % cap == (head as int + 1 + i) % cap);
            lemma_add_mod_noop(head as int, 1 + i, cap);
            lemma_mod_bound(1 + i, cap);
            if i < len - 1 {
                lemma_small_mod((1 + i) as nat, capacity);
                lemma_mod_bound(r + 1 + i, cap);
                if r + 1 + i < cap {
                    lemma_small_mod((r + 1 + i) as nat, capacity);
                } else {
                    lemma_mod_multiples_vanish(-1, r + 1 + i, cap);
                    lemma_small_mod((r + 1 + i - cap) as nat, capacity);
                }
                assert((head as int + 1 + i) % cap != r);
                // old window entry i + 1 lives in the same slot
                lemma_mod_multiples_vanish(-1, head as int + 1 + i, cap);
                assert(cap * (-1) + (head as int + 1 + i) == head as int - len + (i + 1));
            } else {
                assert(i == len - 1);
                lemma_mod_multiples_vanish(1, head as int, cap);
                assert(cap * 1 + head as int == head as int + 1 + i);
            }
        }
        assert(w2 =~= m.send(item).window);
    }
}

/// The head after sending `items` is the old head plus their number,
/// modulo 2^64.
pub proof fn lemma_send_all_head<T>(m: RingModel<T>, items: Seq<T>)
    ensures
        m.send_all(items).head as int == (m.head as int + items.len()) % position_modulus(),
        m.send_all(items).capacity == m.capacity,
    decreases items.len(),
{
    if items.len() == 0 {
        lemma_small_mod(m.head as nat, position_modulus() as nat);
    } else {
        lemma_send_all_head(m, items.drop_last());
        let h = m.send_all(items.drop_last()).head as int;
        lemma_add_mod_noop(m.head as int + items.len() - 1, 1, position_modulus());
        lemma_small_mod(1, position_modulus() as nat);
        lemma_mod_bound(h + 1, position_modulus());
        if h + 1 < position_modulus() {
            lemma_small_mod((h + 1) as nat, position_modulus() as nat);
        } else {
            lemma_small_mod(0, position_modulus() as nat);
        }
    }
}

/// The ring storage: `capacity` slots (allocated as they are first
/// written), the write head `w_top` and the published head `r_top`.
pub struct RingBuf<T: Copy> {
    slots: Vec<T>,
    capacity: usize,
    mask: u64,
    w_top: u64,
    r_top: u64,
}

impl<T: Copy> View for RingBuf<T> {
    type V = RingModel<T>;

    closed spec fn view(&self) -> RingModel<T> {
        RingModel {
            capacity: self.capacity as nat,
            head: self.w_top,
            window: window_of(self.slots@, self.w_top, self.capacity as nat),
        }
    }
}

impl<T: Copy> RingBuf<T> {
    /// The ring's internal invariant: the slots are laid out for the write
    /// head, the mask selects a slot, and everything written is published.
    pub closed spec fn wf(&self) -> bool {
        &&& slots_wf(self.slots@, self.w_top, self.capacity as nat)
        &&& self.mask == (self.capacity - 1) as u64
        &&& self.r_top == self.w_top
    }

    /// A well-formed ring has a well-formed model.
    pub proof fn lemma_wf(&self)
        requires
            self.wf(),
        ensures
            self@.wf(),
    {
    }

    /// Creates an empty ring. The capacity is rounded up to the next power
    /// of two.
    pub fn new(capacity: usize) -> (ring: Self)
        requires
            1 <= capacity <= usize::MAX / 2 + 1,
        ensures
            ring.wf(),
            ring@ == RingModel::<T>::empty(ring@.capacity),
            is_ring_capacity(ring@.capacity),
            capacity <= ring@.capacity < 2 * capacity,
    {
        let capacity = round_capacity(capacity);
        let mask = (capacity as u64).wrapping_sub(1);
        proof {
            lemma_capacity_divides_modulus(capacity as nat);
        }
        let ring = RingBuf { slots: Vec::new(), capacity, mask, w_top: 0, r_top: 0 };
        assert(ring@.window =~= Seq::<T>::empty());
        ring
    }

    /// The write head: the position the next item is sent to.
    pub fn w_top(&self) -> (r: u64)
        ensures
            r == self@.head,
    {
        self.w_top
    }

    /// The published head: items before it are visible to receivers.
    pub fn r_top(&self) -> (r: u64)
        requires
            self.wf(),
        ensures
            r == self@.head,
    {
        self.r_top
    }

    /// The number of slots.
    pub fn capacity(&self) -> (r: usize)
        ensures
            r == self@.capacity,
    {
        self.capacity
    }

    /// `capacity - 1`, the mask that selects a position's slot.
    pub fn mask(&self) -> (r: u64)
        requires
            self.wf(),
        ensures
            r == self@.capacity - 1,
    {
        proof {
            lemma_capacity_divides_modulus(self.capacity as nat);
        }
        self.mask
    }

    /// Stores `item` in the slot of `position`.
    fn write_item(&mut self, position: u64, item: T)
        requires
            is_ring_capacity(old(self).capacity as nat),
            old(self).mask == (old(self).capacity - 1) as u64,
            old(self).slots.len() <= old(self).capacity,
            (position as int) % (old(self).capacity as int) <= old(self).slots.len(),
        ensures
            final(self).slots@ == store(
                old(self).slots@,
                (position as int) % (old(self).capacity as int),
                item,
            ),
            final(self).capacity == old(self).capacity,
            final(self).mask == old(self).mask,
            final(self).w_top == old(self).w_top,
            final(self).r_top == old(self).r_top,
    {
        proof {
            lemma_mask_is_slot(position, self.capacity as nat);
            lemma_capacity_divides_modulus(self.capacity as nat);
        }
        let idx = (position & self.mask) as usize;
        if idx < self.slots.len() {
            self.slots.set(idx, item);
        } else {
            self.slots.push(item);
        }
    }

    /// Reads the item sent at `position`.
    pub fn read_item(&self, position: u64) -> (item: T)
        requires
            self.wf(),
            self@.holds(position),
        ensures
            item == self@.item_at(position),
    {
        proof {
            lemma_mask_is_slot(position, self.capacity as nat);
            lemma_capacity_divides_modulus(self.capacity as nat);
            lemma_item_in_slot(self.slots@, self.w_top, self.capacity as nat, position);
        }
        let idx = (position & self.mask) as usize;
        self.slots[idx]
    }

    /// Sends one item: reserves the next position, writes the item into its
    /// slot, then publishes it. Once the ring is full the oldest item is
    /// overwritten.
    pub fn send(&mut self, item: T)
        requires
            old(self).wf(),
        ensures
            final(self).wf(),
            final(self)@ == old(self)@.send(item),
    {
        let pos = self.w_top;
        proof {
            lemma_store_is_send(self.slots@, pos, self.capacity as nat, item);
            lemma_capacity_divides_modulus(self.capacity as nat);
            lemma_mod_bound(pos as int, self.capacity as int);
            if self.slots.len() < self.capacity {
                lemma_small_mod(pos as nat, self.capacity as nat);
            }
        }
        self.w_top = pos.wrapping_add(1);
        self.write_item(pos, item);
        self.r_top = pos.wrapping_add(1);
    }

    /// Sends `items` in order with a single publish, returning how many
    /// were sent (always `items.len()`).
    pub fn send_batch(&mut self, items: &[T]) -> (n: usize)
        requires
            old(self).wf(),
        ensures
            n == items@.len(),
            final(self).wf(),
            final(self)@ == old(self)@.send_all(items@),
            final(self)@.capacity == old(self)@.capacity,
    {
        let n = items.len();
        if n == 0 {
            assert(items@ =~= Seq::<T>::empty());
            return 0;
        }
        let start = self.w_top;
        let end = start.wrapping_add(n as u64);
        proof {
            lemma_send_all_head(self@, items@);
            assert(end as int == (start as int + n) % position_modulus()) by {
                if start as int + n < position_modulus() {
                    lemma_small_mod((start as int + n) as nat, position_modulus() as nat);
                } else {
                    lemma_mod_multiples_vanish(-1, start as int + n, position_modulus());
                    lemma_small_mod((start as int + n - position_modulus()) as nat, position_modulus() as nat);
                }
            }
        }
        let ghost m0 = self@;
        self.w_top = end;
        let ghost cap = self.capacity as nat;
        let ghost old_slots = self.slots@;
        let mut i: usize = 0;
        while i < n
            invariant
                0 <= i <= n,
                n == items@.len(),
                cap == self.capacity as nat,
                is_ring_capacity(cap),
                self.mask == (self.capacity - 1) as u64,
                self.w_top == end,
                self.r_top == start,
                m0.capacity == cap,
                m0.head == start,
                m0.window == window_of(old_slots, start, cap),
                slots_wf(old_slots, start, cap),
                ({
                    let mi = m0.send_all(items@.take(i as int));
                    &&& slots_wf(self.slots@, mi.head, cap)
                    &&& window_of(self.slots@, mi.head, cap) == mi.window
                    &&& mi.capacity == cap
                    &&& mi.head as int == (start as int + i) % position_modulus()
                }),
            decreases n - i,
        {
            let ghost mi = m0.send_all(items@.take(i as int));
            let pos = start.wrapping_add(i as u64);
            proof {
                lemma_send_all_head(m0, items@.take(i as int));
                assert(pos == mi.head) by {
                    if start as int + i < position_modulus() {
                        lemma_small_mod((start as int + i) as nat, position_modulus() as nat);
                    } else {
                        lemma_mod_multiples_vanish(-1, start as int + i, position_modulus());
                        lemma_small_mod((start as int + i - position_modulus()) as nat, position_modulus() as nat);
                    }
                }
                lemma_store_is_send(self.slots@, pos, cap, items@[i as int]);
                lemma_capacity_divides_modulus(cap);
                lemma_mod_bound(pos as int, cap as int);
                if self.slots.len() < self.capacity {
                    lemma_small_mod(pos as nat, cap);
                }
                assert(items@.take(i + 1).drop_last() =~= items@.take(i as int));
                lemma_send_all_head(m0, items@.take(i + 1));
            }
            self.write_item(pos, items[i]);
            i = i + 1;
        }
        self.r_top = end;
        proof {
            assert(items@.take(n as int) =~= items@);
            lemma_send_all_head(m0, items@);
            if start as int + n < position_modulus() {
                lemma_small_mod((start as int + n) as nat, position_modulus() as nat);
            }
        }
        n
    }

    /// Non-blocking receive for a receiver at `pos`: the receiver's new
    /// position and what it gets.
    pub fn try_recv_at(&self, pos: u64) -> (r: (u64, Result<T, RecvError>))
        requires
            self.wf(),
        ensures
            r == self@.recv(pos),
    {
        let r_top = self.r_top;
        let w_top = self.w_top;
        proof {
            lemma_capacity_divides_modulus(self.capacity as nat);
        }
        if let Some((new_pos, lost)) = overrun(w_top, pos, self.capacity as u64) {
            return (new_pos, Err(RecvError::Overrun { lost }));
        }
        if likely(pos >= r_top) {
            return (pos, Err(RecvError::Empty));
        }
        let item = self.read_item(pos);
        (pos.wrapping_add(1), Ok(item))
    }

    /// Non-blocking batch receive for a receiver at `pos`: fills the front
    /// of `buf` with as many published items as fit.
    pub fn try_recv_batch_at(&self, pos: u64, buf: &mut [T]) -> (r: (u64, Result<usize, RecvError>))
        requires
            self.wf(),
        ensures
            r == self@.recv_batch(pos, old(buf)@.len()),
            final(buf)@.len() == old(buf)@.len(),
            match r.1 {
                Ok(n) => {
                    &&& final(buf)@.take(n as int) == self@.items_from(pos, n as nat)
                    &&& final(buf)@.skip(n as int) == old(buf)@.skip(n as int)
                },
                Err(_) => final(buf)@ == old(buf)@,
            },
    {
        if buf.len() == 0 {
            assert(buf@.skip(0) =~= buf@);
            assert(buf@.take(0) =~= self@.items_from(pos, 0));
            return (pos, Ok(0));
        }
        let r_top = self.r_top;
        let w_top = self.w_top;
        proof {
            lemma_capacity_divides_modulus(self.capacity as nat);
        }
        if let Some((new_pos, lost)) = overrun(w_top, pos, self.capacity as u64) {
            return (new_pos, Err(RecvError::Overrun { lost }));
        }
        if pos >= r_top {
            return (pos, Err(RecvError::Empty));
        }
        #[verifier::truncate]
        let available = r_top.wrapping_sub(pos) as usize;
        let count = if available < buf.len() {
            available
        } else {
            buf.len()
        };
        let ghost old_buf = buf@;
        assert(lag(self@.head, pos) <= self@.window.len());
        let mut i: usize = 0;
        while i < count
            invariant
                self.wf(),
                0 <= i <= count,
                count <= buf@.len(),
                count <= lag(self@.head, pos) <= self@.window.len(),
                pos < self@.head,
                buf@.len() == old_buf.len(),
                forall|j: int| 0 <= j < i ==> buf@[j] == self@.item_at((pos + j) as u64),
                forall|j: int| i <= j < buf@.len() ==> buf@[j] == old_buf[j],
            decreases count - i,
        {
            let p = pos + i as u64;
            proof {
                lemma_capacity_divides_modulus(self.capacity as nat);
            }
            let item = self.read_item(p);
            buf[i] = item;
            i = i + 1;
        }
        assert(buf@.take(count as int) =~= self@.items_from(pos, count as nat));
        assert(buf@.skip(count as int) =~= old_buf.skip(count as int));
        (pos.wrapping_add(count as u64), Ok(count))
    }

    /// Checks whether a receiver at `pos` has been lapped, without reading.
    pub fn check_overrun_at(&self, pos: u64) -> (r: (u64, Option<usize>))
        requires
            self.wf(),
        ensures
            r == self@.check_overrun(pos),
    {
        proof {
            lemma_capacity_divides_modulus(self.capacity as nat);
        }
        match overrun(self.w_top, pos, self.capacity as u64) {
            Some((new_pos, lost)) => (new_pos, Some(lost)),
            None => (pos, None),
        }
    }

    /// The number of items a receiver at `pos` can still read: those
    /// published after it, at most the capacity.
    pub fn available_at(&self, pos: u64) -> (r: usize)
        requires
            self.wf(),
        ensures
            r == self@.available(pos),
    {
        let r_top = self.r_top;
        if r_top > pos {
            let published = r_top - pos;
            if published > self.capacity as u64 {
                self.capacity
            } else {
                #[verifier::truncate]
                let n = published as usize;
                n
            }
        } else {
            0
        }
    }
}

} // verus!
