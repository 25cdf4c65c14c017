# krabibuffer

A single-producer/single-consumer ring buffer of `N` bytes split into
fixed-size slots, written in Verus.

- `src/buffer.rs` — `KrabiBuffer`, its abstract view (the queued items,
  oldest first), and the `Producer` / `Consumer` halves that enqueue and
  dequeue one slot at a time.
- `src/ring.rs` — index arithmetic on the ring: occupied-slot count,
  walking from the head, and the byte range of each slot.
- `src/model.rs` — what one enqueue or dequeue does to the queued items,
  and the outcome of a run of calls.
- `src/laws.rs` — first-in-first-out and capacity laws over runs of calls,
  and the law that a buffer driven by those calls follows the model.
- `src/error.rs` — the error type.

One slot is always left free, so a buffer of `N / stride` slots holds at
most `N / stride - 1` items. The producer and consumer handles record the
slot count and slot size of the buffer they were split from; each operation
is given a buffer of that geometry to act on, and Rust's borrow rules
serialise access to it.
