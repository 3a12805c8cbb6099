//! Ring storage for large item types: every slot carries the position it
//! was last written at, so a reader can tell whether it holds the item it
//! is looking for.
use vstd::prelude::*;
use vstd::arithmetic::div_mod::{lemma_mod_bound, lemma_mod_multiples_vanish, lemma_small_mod};
use vstd::rwlock::RwLockPredicate;
use crate::position::{
    is_overrun, is_ring_capacity, lag, lemma_capacity_divides_modulus, lemma_mask_is_slot, overrun,
    position_modulus, round_capacity,
};
use crate::receiver::RecvError;
use crate::ring::{
    RingModel, lemma_item_in_slot, lemma_send_all_head, lemma_store_is_send, slots_wf,
    store, window_of,
};
use crate::shared::RingPred;

verus! {

/// One slot: the item, bracketed by the position it was written at.
pub struct Slot<T> {
    pub seq_pre: u64,
    pub data: T,
    pub seq_post: u64,
}

/// The items held by a sequence of slots.
pub open spec fn slot_data<T>(slots: Seq<Slot<T>>) -> Seq<T> {
    slots.map_values(|s: Slot<T>| s.data)
}

/// Every slot is tagged with a position it holds: one of the `len`
/// positions before the head that maps to that slot.
pub open spec fn tags_wf<T>(slots: Seq<Slot<T>>, head: u64, capacity: nat) -> bool {
    forall|j: int|
        0 <= j < slots.len() ==> {
            let s = #[trigger] slots[j];
            &&& s.seq_pre == s.seq_post
            &&& (s.seq_pre as int) % (capacity as int) == j
            &&& 1 <= lag(head, s.seq_pre) <= slots.len()
        }
}

/// Two held positions that share a slot are the same position.
pub proof fn lemma_slot_holds_one_position(head: u64, capacity: nat, a: u64, b: u64)
    requires
        is_ring_capacity(capacity),
        1 <= lag(head, a) <= capacity,
        1 <= lag(head, b) <= capacity,
        (a as int) % (capacity as int) == (b as int) % (capacity as int),
    ensures
        a == b,
{
    lemma_capacity_divides_modulus(capacity);
    let cap = capacity as int;
    let q = position_modulus() / cap;
    let la = lag(head, a) as int;
    let lb = lag(head, b) as int;
    // a ≡ head - la and b ≡ head - lb (mod 2^64), hence (mod capacity).
    assert((head as int - la) % cap == (a as int) % cap) by {
        if head < a {
            assert(head as int - la == a as int - position_modulus());
            lemma_mod_multiples_vanish(-q, a as int, cap);
            assert(cap * (-q) + a as int == a as int - position_modulus()) by (nonlinear_arith)
                requires position_modulus() == cap * q;
        }
    }
    assert((head as int - lb) % cap == (b as int) % cap) by {
        if head < b {
            assert(head as int - lb == b as int - position_modulus());
            lemma_mod_multiples_vanish(-q, b as int, cap);
            assert(cap * (-q) + b as int == b as int - position_modulus()) by (nonlinear_arith)
                requires position_modulus() == cap * q;
        }
    }
    if la != lb {
        // Both lie in (head - capacity, head], so they differ by less than capacity.
        let x = head as int - la;
        let y = head as int - lb;
        vstd::arithmetic::div_mod::lemma_fundamental_div_mod(x, cap);
        vstd::arithmetic::div_mod::lemma_fundamental_div_mod(y, cap);
        lemma_mod_bound(x, cap);
        lemma_mod_bound(y, cap);
        assert(cap * (x / cap) - cap * (y / cap) == x - y);
        assert(-cap < x - y < cap);
        assert(cap * (x / cap - y / cap) == x - y) by (nonlinear_arith)
            requires cap * (x / cap) - cap * (y / cap) == x - y;
        if x / cap - y / cap > 0 {
            assert(cap * (x / cap - y / cap) >= cap) by (nonlinear_arith)
                requires x / cap - y / cap > 0, cap > 0;
        } else if x / cap - y / cap < 0 {
            assert(cap * (x / cap - y / cap) <= -cap) by (nonlinear_arith)
                requires x / cap - y / cap < 0, cap > 0;
        } else {
            assert(cap * (x / cap - y / cap) == 0) by (nonlinear_arith)
                requires x / cap - y / cap == 0;
        }
        assert(false);
    }
}

/// Writing the tagged item for position `head` keeps every slot tagged.
pub proof fn lemma_store_keeps_tags<T>(slots: Seq<Slot<T>>, head: u64, capacity: nat, item: T)
    requires
        slots_wf(slots, head, capacity),
        tags_wf(slots, head, capacity),
    ensures
        ({
            let slots2 = store(slots, (head as int) % (capacity as int), Slot { seq_pre: head, data: item, seq_post: head });
            &&& tags_wf(slots2, head.wrapping_add(1), capacity)
            &&& slot_data(slots2) == store(slot_data(slots), (head as int) % (capacity as int), item)
            &&& slots2.len() == store(slot_data(slots), (head as int) % (capacity as int), item).len()
        }),
{
    lemma_capacity_divides_modulus(capacity);
    let cap = capacity as int;
    let idx = (head as int) % cap;
    let slot = Slot { seq_pre: head, data: item, seq_post: head };
    let slots2 = store(slots, idx, slot);
    let head2 = head.wrapping_add(1);
    lemma_mod_bound(head as int, cap);
    if slots.len() < capacity {
        lemma_small_mod(head as nat, capacity);
    }
    assert forall|j: int| 0 <= j < slots2.len() implies {
        let s = #[trigger] slots2[j];
        &&& s.seq_pre == s.seq_post
        &&& (s.seq_pre as int) % cap == j
        &&& 1 <= lag(head2, s.seq_pre) <= slots2.len()
    } by {
        if j == idx {
            assert(slots2[j] == slot);
        } else {
            assert(slots2[j] == slots[j]);
            let s = slots[j];
            if lag(head, s.seq_pre) == cap {
                // a position a whole capacity behind the head shares its slot
                assert((s.seq_pre as int) % cap == idx) by {
                    let q = position_modulus() / cap;
                    if head >= s.seq_pre {
                        lemma_mod_multiples_vanish(-1, head as int, cap);
                        assert(cap * (-1) + head as int == s.seq_pre as int);
                    } else {
                        lemma_mod_multiples_vanish(1 - q, s.seq_pre as int, cap);
                        assert(cap * (1 - q) + s.seq_pre as int == head as int) by (nonlinear_arith)
                            requires
                                position_modulus() == cap * q,
                                head as int == s.seq_pre as int - position_modulus() + cap;
                    }
                }
                assert(false);
            }
        }
    }
    assert(slot_data(slots2) =~= store(slot_data(slots), idx, item));
}

/// Ring storage whose slots record the position of the item they hold.
pub struct LargeRingBuf<T: Copy> {
    slots: Vec<Slot<T>>,
    capacity: usize,
    mask: u64,
    w_top: u64,
    r_top: u64,
}

impl<T: Copy> View for LargeRingBuf<T> {
    type V = RingModel<T>;

    closed spec fn view(&self) -> RingModel<T> {
        RingModel {
            capacity: self.capacity as nat,
            head: self.w_top,
            window: window_of(slot_data(self.slots@), self.w_top, self.capacity as nat),
        }
    }
}

impl<T: Copy> RwLockPredicate<LargeRingBuf<T>> for RingPred {
    open spec fn inv(self, ring: LargeRingBuf<T>) -> bool {
        &&& ring.wf()
        &&& ring@.capacity == self.capacity
    }
}

impl<T: Copy> LargeRingBuf<T> {
    /// The internal invariant: slots laid out and tagged for the write
    /// head, the mask selects a slot, everything written is published.
    pub closed spec fn wf(&self) -> bool {
        &&& slots_wf(slot_data(self.slots@), self.w_top, self.capacity as nat)
        &&& tags_wf(self.slots@, self.w_top, self.capacity as nat)
        &&& self.mask == (self.capacity - 1) as u64
        &&& self.r_top == self.w_top
    }

    /// A well-formed ring has a well-formed model.
    pub proof fn lemma_wf(&self)
        requires
            self.wf(),
        ensures
            self@.wf(),
    {
    }

    /// Creates an empty ring. The capacity is rounded up to the next power
    /// of two.
    pub fn new(capacity: usize) -> (ring: Self)
        requires
            1 <= capacity <= usize::MAX / 2 + 1,
        ensures
            ring.wf(),
            ring@ == RingModel::<T>::empty(ring@.capacity),
            is_ring_capacity(ring@.capacity),
            capacity <= ring@.capacity < 2 * capacity,
    {
        let capacity = round_capacity(capacity);
        let mask = (capacity as u64).wrapping_sub(1);
        proof {
            lemma_capacity_divides_modulus(capacity as nat);
        }
        let ring = LargeRingBuf { slots: Vec::new(), capacity, mask, w_top: 0, r_top: 0 };
        assert(slot_data(ring.slots@) =~= Seq::<T>::empty());
        assert(ring@.window =~= Seq::<T>::empty());
        ring
    }

    /// The write head: the position the next item is sent to.
    pub fn w_top(&self) -> (r: u64)
        ensures
            r == self@.head,
    {
        self.w_top
    }

    /// The published head: items before it are visible to receivers.
    pub fn r_top(&self) -> (r: u64)
        requires
            self.wf(),
        ensures
            r == self@.head,
    {
        self.r_top
    }

    /// The number of slots.
    pub fn capacity(&self) -> (r: usize)
        ensures
            r == self@.capacity,
    {
        self.capacity
    }

    /// `capacity - 1`, the mask that selects a position's slot.
    pub fn mask(&self) -> (r: u64)
        requires
            self.wf(),
        ensures
            r == self@.capacity - 1,
    {
        proof {
            lemma_capacity_divides_modulus(self.capacity as nat);
        }
        self.mask
    }

    /// The slot that a held `position` maps to: it holds the item sent at
    /// `position`, tagged with `position`.
    pub fn slot(&self, position: u64) -> (s: &Slot<T>)
        requires
            self.wf(),
            self@.holds(position),
        ensures
            s.seq_pre == position,
            s.seq_post == position,
            s.data == self@.item_at(position),
    {
        proof {
            lemma_mask_is_slot(position, self.capacity as nat);
            lemma_capacity_divides_modulus(self.capacity as nat);
            lemma_item_in_slot(slot_data(self.slots@), self.w_top, self.capacity as nat, position);
            let s = self.slots@[(position as int) % (self.capacity as int)];
            assert(1 <= lag(self.w_top, s.seq_pre) <= self.slots@.len());
            lemma_slot_holds_one_position(self.w_top, self.capacity as nat, position, s.seq_pre);
        }
        let idx = (position & self.mask) as usize;
        &self.slots[idx]
    }

    /// Writes `item` into the slot of `position`, tagged with `position`.
    fn write_slot(&mut self, position: u64, item: T)
        requires
            is_ring_capacity(old(self).capacity as nat),
            old(self).mask == (old(self).capacity - 1) as u64,
            old(self).slots.len() <= old(self).capacity,
            (position as int) % (old(self).capacity as int) <= old(self).slots.len(),
        ensures
            final(self).slots@ == store(
                old(self).slots@,
                (position as int) % (old(self).capacity as int),
                Slot { seq_pre: position, data: item, seq_post: position },
            ),
            final(self).capacity == old(self).capacity,
            final(self).mask == old(self).mask,
            final(self).w_top == old(self).w_top,
            final(self).r_top == old(self).r_top,
    {
        proof {
            lemma_mask_is_slot(position, self.capacity as nat);
            lemma_capacity_divides_modulus(self.capacity as nat);
        }
        let idx = (position & self.mask) as usize;
        let slot = Slot { seq_pre: position, data: item, seq_post: position };
        if idx < self.slots.len() {
            self.slots.set(idx, slot);
        } else {
            self.slots.push(slot);
        }
    }

    /// Reads the slot of `position`: `Some(item)` if the slot holds the
    /// item sent at `position` (its two tags agree with `position`),
    /// `None` otherwise.
    pub fn read_slot(&self, position: u64) -> (r: Option<T>)
        requires
            self.wf(),
        ensures
            r == (if self@.holds(position) { Some(self@.item_at(position)) } else { None }),
    {
        proof {
            lemma_mask_is_slot(position, self.capacity as nat);
            lemma_capacity_divides_modulus(self.capacity as nat);
        }
        let idx = (position & self.mask) as usize;
        if idx >= self.slots.len() {
            proof {
                if self@.holds(position) {
                    lemma_item_in_slot(slot_data(self.slots@), self.w_top, self.capacity as nat, position);
                }
            }
            return None;
        }
        let slot = &self.slots[idx];
        let pre = slot.seq_pre;
        let item = slot.data;
        let post = slot.seq_post;
        proof {
            let s = self.slots@[idx as int];
            assert(1 <= lag(self.w_top, s.seq_pre) <= self.slots@.len());
            if self@.holds(position) {
                lemma_item_in_slot(slot_data(self.slots@), self.w_top, self.capacity as nat, position);
                lemma_slot_holds_one_position(self.w_top, self.capacity as nat, position, s.seq_pre);
            }
        }
        if pre == post && pre == position {
            proof {
                lemma_item_in_slot(slot_data(self.slots@), self.w_top, self.capacity as nat, position);
            }
            Some(item)
        } else {
            None
        }
    }

    /// Sends one item: reserves the next position, writes the tagged item
    /// into its slot, then publishes it.
    pub fn send(&mut self, item: T)
        requires
            old(self).wf(),
        ensures
            final(self).wf(),
            final(self)@ == old(self)@.send(item),
    {
        let pos = self.w_top;
        proof {
            lemma_store_is_send(slot_data(self.slots@), pos, self.capacity as nat, item);
            lemma_store_keeps_tags(self.slots@, pos, self.capacity as nat, item);
            lemma_capacity_divides_modulus(self.capacity as nat);
            lemma_mod_bound(pos as int, self.capacity as int);
            if self.slots.len() < self.capacity {
                lemma_small_mod(pos as nat, self.capacity as nat);
            }
        }
        self.w_top = pos.wrapping_add(1);
        self.write_slot(pos, item);
        self.r_top = pos.wrapping_add(1);
    }

    /// Sends `items` in order with a single publish, returning how many
    /// were sent (always `items.len()`).
    pub fn send_batch(&mut self, items: &[T]) -> (n: usize)
        requires
            old(self).wf(),
        ensures
            n == items@.len(),
            final(self).wf(),
            final(self)@ == old(self)@.send_all(items@),
            final(self)@.capacity == old(self)@.capacity,
    {
        let n = items.len();
        if n == 0 {
            assert(items@ =~= Seq::<T>::empty());
            return 0;
        }
        let start = self.w_top;
        let end = start.wrapping_add(n as u64);
        proof {
            lemma_send_all_head(self@, items@);
        }
        let ghost m0 = self@;
        self.w_top = end;
        let ghost cap = self.capacity as nat;
        let mut i: usize = 0;
        while i < n
            invariant
                0 <= i <= n,
                n == items@.len(),
                cap == self.capacity as nat,
                is_ring_capacity(cap),
                self.mask == (self.capacity - 1) as u64,
                self.w_top == end,
                self.r_top == start,
                m0.capacity == cap,
                m0.head == start,
                end as int == (start as int + n) % position_modulus(),
                ({
                    let mi = m0.send_all(items@.take(i as int));
                    &&& slots_wf(slot_data(self.slots@), mi.head, cap)
                    &&& tags_wf(self.slots@, mi.head, cap)
                    &&& window_of(slot_data(self.slots@), mi.head, cap) == mi.window
                    &&& mi.capacity == cap
                    &&& mi.head as int == (start as int + i) % position_modulus()
                }),
            decreases n - i,
        {
            let ghost mi = m0.send_all(items@.take(i as int));
            let pos = start.wrapping_add(i as u64);
            proof {
                lemma_send_all_head(m0, items@.take(i as int));
                assert(pos == mi.head) by {
                    if start as int + i < position_modulus() {
                        lemma_small_mod((start as int + i) as nat, position_modulus() as nat);
                    } else {
                        lemma_mod_multiples_vanish(-1, start as int + i, position_modulus());
                        lemma_small_mod((start as int + i - position_modulus()) as nat, position_modulus() as nat);
                    }
                }
                lemma_store_is_send(slot_data(self.slots@), pos, cap, items@[i as int]);
                lemma_store_keeps_tags(self.slots@, pos, cap, items@[i as int]);
                lemma_capacity_divides_modulus(cap);
                lemma_mod_bound(pos as int, cap as int);
                if self.slots.len() < self.capacity {
                    lemma_small_mod(pos as nat, cap);
                }
                assert(items@.take(i + 1).drop_last() =~= items@.take(i as int));
                lemma_send_all_head(m0, items@.take(i + 1));
            }
            self.write_slot(pos, items[i]);
            i = i + 1;
        }
        self.r_top = end;
        proof {
            assert(items@.take(n as int) =~= items@);
            lemma_send_all_head(m0, items@);
            if start as int + n < position_modulus() {
                lemma_small_mod((start as int + n) as nat, position_modulus() as nat);
            } else {
                lemma_mod_multiples_vanish(-1, start as int + n, position_modulus());
                lemma_small_mod((start as int + n - position_modulus()) as nat, position_modulus() as nat);
            }
        }
        n
    }

    /// Non-blocking receive for a receiver at `pos`; a slot that does not
    /// hold the item for `pos` reads as `Empty`.
    pub fn try_recv_at(&self, pos: u64) -> (r: (u64, Result<T, RecvError>))
        requires
            self.wf(),
        ensures
            r == self@.recv(pos),
    {
        let r_top = self.r_top;
        let w_top = self.w_top;
        proof {
            lemma_capacity_divides_modulus(self.capacity as nat);
        }
        if let Some((new_pos, lost)) = overrun(w_top, pos, self.capacity as u64) {
            return (new_pos, Err(RecvError::Overrun { lost }));
        }
        if crate::hint::likely(pos >= r_top) {
            return (pos, Err(RecvError::Empty));
        }
        match self.read_slot(pos) {
            Some(item) => (pos.wrapping_add(1), Ok(item)),
            None => (pos, Err(RecvError::Empty)),
        }
    }

    /// Batch receive for a receiver at `pos`: fills the front of `buf` with
    /// as many published items as fit, stopping at the first slot that does
    /// not hold the item looked for; `Err(Empty)` when nothing is
    /// published past `pos`.
    pub fn try_recv_batch_at(&self, pos: u64, buf: &mut [T]) -> (r: (u64, Result<usize, RecvError>))
        requires
            self.wf(),
        ensures
            r == self@.recv_batch(pos, old(buf)@.len()),
            final(buf)@.len() == old(buf)@.len(),
            match r.1 {
                Ok(n) => {
                    &&& final(buf)@.take(n as int) == self@.items_from(pos, n as nat)
                    &&& final(buf)@.skip(n as int) == old(buf)@.skip(n as int)
                },
                Err(_) => final(buf)@ == old(buf)@,
            },
    {
        if buf.len() == 0 {
            assert(buf@.skip(0) =~= buf@);
            assert(buf@.take(0) =~= self@.items_from(pos, 0));
            return (pos, Ok(0));
        }
        let r_top = self.r_top;
        let w_top = self.w_top;
        proof {
            lemma_capacity_divides_modulus(self.capacity as nat);
        }
        if let Some((new_pos, lost)) = overrun(w_top, pos, self.capacity as u64) {
            return (new_pos, Err(RecvError::Overrun { lost }));
        }
        if pos >= r_top {
            return (pos, Err(RecvError::Empty));
        }
        #[verifier::truncate]
        let available = r_top.wrapping_sub(pos) as usize;
        let max_count = if available < buf.len() {
            available
        } else {
            buf.len()
        };
        let ghost old_buf = buf@;
        assert(lag(self@.head, pos) <= self@.window.len());
        let mut count: usize = 0;
        while count < max_count
            invariant
                self.wf(),
                0 <= count <= max_count,
                max_count <= buf@.len(),
                max_count <= lag(self@.head, pos) <= self@.window.len(),
                pos < self@.head,
                buf@.len() == old_buf.len(),
                forall|j: int| 0 <= j < count ==> buf@[j] == self@.item_at((pos + j) as u64),
                forall|j: int| count <= j < buf@.len() ==> buf@[j] == old_buf[j],
            ensures
                count == max_count,
            decreases max_count - count,
        {
            let p = pos + count as u64;
            match self.read_slot(p) {
                Some(item) => {
                    buf[count] = item;
                    count = count + 1;
                },
                None => {
                    // every published position in range is held
                    assert(false);
                    break;
                },
            }
        }
        assert(buf@.take(count as int) =~= self@.items_from(pos, count as nat));
        assert(buf@.skip(count as int) =~= old_buf.skip(count as int));
        (pos.wrapping_add(count as u64), Ok(count))
    }

    /// Checks whether a receiver at `pos` has been lapped, without reading.
    pub fn check_overrun_at(&self, pos: u64) -> (r: (u64, Option<usize>))
        requires
            self.wf(),
        ensures
            r == self@.check_overrun(pos),
    {
        proof {
            lemma_capacity_divides_modulus(self.capacity as nat);
        }
        match overrun(self.w_top, pos, self.capacity as u64) {
            Some((new_pos, lost)) => (new_pos, Some(lost)),
            None => (pos, None),
        }
    }

    /// The number of items a receiver at `pos` can still read: those
    /// published after it, at most the capacity.
    pub fn available_at(&self, pos: u64) -> (r: usize)
        requires
            self.wf(),
        ensures
            r == self@.available(pos),
    {
        let r_top = self.r_top;
        if r_top > pos {
            let published = r_top - pos;
            if published > self.capacity as u64 {
                self.capacity
            } else {
                #[verifier::truncate]
                let n = published as usize;
                n
            }
        } else {
            0
        }
    }
}

} // verus!
