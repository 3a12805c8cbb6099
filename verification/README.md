# ringcast

A broadcast ring buffer: one `Sender`, any number of `Receiver`s, each
reading every message at its own position. When the ring is full the
oldest slot is overwritten; a receiver that falls behind by more than the
capacity is told how many items it lost (`RecvError::Overrun`) and moved to
the oldest item still held.

## Layout

- `src/` — the verified library.
  - `position.rs`: position arithmetic modulo 2^64, capacity rounding, the
    overrun rule, and the proof that `pos & (capacity - 1)` is the slot.
  - `ring.rs`: `RingModel` (capacity, write head, held items) and
    `RingBuf`, the slot storage, proved to implement the model.
  - `large/`: the variant whose slots carry the position they hold.
  - `laws.rs`: properties spanning several operations (read-back in order,
    overrun accounting, batch = repeated single receives, ...).
  - `sender.rs`, `receiver.rs`, `builder.rs`: the channel handles. The
    ring is shared behind a reader-writer lock whose invariant is the
    ring's well-formedness, so every receive is computed from one
    consistent ring state. A send waits for reads in progress (and a
    receive for a send in progress), never for a receiver to catch up.
  - `poll.rs`: the per-poll decisions of the blocking receives (return
    data or an overrun, retry after an overrun, time out, or back off).
- `app/` — what needs the operating system: the huge-page allocator
  (`mmap`), and the loops of the blocking receives (`recv`,
  `recv_timeout`, `recv_deadline`, `recv_batch`), which read the clock,
  pause or yield as the library's poll decides, and poll again.
- `tests/` — behaviour on concrete values.
