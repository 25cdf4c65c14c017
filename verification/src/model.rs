use vstd::prelude::*;

use crate::error::Error;

verus! {

/// What one enqueue does to the queued items of a buffer with the given
/// usable capacity and slot size: the call's result and the items after it.
pub open spec fn enqueue_step(
    items: Seq<Seq<u8>>,
    capacity: nat,
    slot_size: nat,
    data: Seq<u8>,
) -> (Result<(), Error>, Seq<Seq<u8>>) {
    if data.len() != slot_size {
        (Err(Error::InvalidDataLength), items)
    } else if items.len() >= capacity {
        (Err(Error::QueueFull), items)
    } else {
        (Ok(()), items.push(data))
    }
}

/// What one dequeue into a slice of `out_len` bytes does to the queued
/// items: the item handed out (or the error) and the items after it.
pub open spec fn dequeue_step(items: Seq<Seq<u8>>, slot_size: nat, out_len: nat) -> (Result<
    Seq<u8>,
    Error,
>, Seq<Seq<u8>>) {
    if out_len != slot_size {
        (Err(Error::InvalidDataLength), items)
    } else if items.len() == 0 {
        (Err(Error::QueueEmpty), items)
    } else {
        (Ok(items[0]), items.drop_first())
    }
}

/// One call on a buffer: an enqueue of the given bytes, or a dequeue into a
/// slice of the given length.
pub enum Call {
    Enqueue(Seq<u8>),
    Dequeue(nat),
}

/// The outcome of a run of calls.
pub struct RunOutcome {
    /// The items queued at the end.
    pub items: Seq<Seq<u8>>,
    /// The data of the enqueues that succeeded, in call order.
    pub accepted: Seq<Seq<u8>>,
    /// The items handed out by the dequeues that succeeded, in call order.
    pub delivered: Seq<Seq<u8>>,
}

/// The outcome of making `calls`, one after another, on a buffer that
/// holds `items` and has the given usable capacity and slot size.
pub open spec fn run(
    items: Seq<Seq<u8>>,
    capacity: nat,
    slot_size: nat,
    calls: Seq<Call>,
) -> RunOutcome
    decreases calls.len(),
{
    if calls.len() == 0 {
        RunOutcome { items, accepted: Seq::empty(), delivered: Seq::empty() }
    } else {
        let before = run(items, capacity, slot_size, calls.drop_last());
        match calls.last() {
            Call::Enqueue(data) => {
                let (r, after) = enqueue_step(before.items, capacity, slot_size, data);
                RunOutcome {
                    items: after,
                    accepted: if r is Ok {
                        before.accepted.push(data)
                    } else {
                        before.accepted
                    },
                    delivered: before.delivered,
                }
            },
            Call::Dequeue(out_len) => {
                let (r, after) = dequeue_step(before.items, slot_size, out_len);
                RunOutcome {
                    items: after,
                    accepted: before.accepted,
                    delivered: match r {
                        Ok(item) => before.delivered.push(item),
                        Err(_) => before.delivered,
                    },
                }
            },
        }
    }
}

/// The items queued after one call.
pub open spec fn after_call(
    items: Seq<Seq<u8>>,
    capacity: nat,
    slot_size: nat,
    call: Call,
) -> Seq<Seq<u8>> {
    match call {
        Call::Enqueue(data) => enqueue_step(items, capacity, slot_size, data).1,
        Call::Dequeue(out_len) => dequeue_step(items, slot_size, out_len).1,
    }
}

/// `count` enqueues of the same bytes.
pub open spec fn repeated_enqueues(data: Seq<u8>, count: nat) -> Seq<Call> {
    Seq::new(count, |i: int| Call::Enqueue(data))
}

} // verus!
