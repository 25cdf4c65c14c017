use vstd::prelude::*;

use crate::error::Error;
use crate::buffer::KrabiBuffer;
use crate::model::{after_call, dequeue_step, enqueue_step, repeated_enqueues, run, Call};

verus! {

/// An item enqueued into an empty buffer is what the next dequeue hands
/// out, and that dequeue leaves the buffer empty again.
pub proof fn law_round_trip(capacity: nat, slot_size: nat, data: Seq<u8>)
    requires
        capacity >= 1,
        data.len() == slot_size,
    ensures
        ({
            let (r1, after_enqueue) = enqueue_step(Seq::empty(), capacity, slot_size, data);
            let (r2, after_dequeue) = dequeue_step(after_enqueue, slot_size, slot_size);
            &&& r1 == Ok::<(), Error>(())
            &&& r2 == Ok::<Seq<u8>, Error>(data)
            &&& after_dequeue == Seq::<Seq<u8>>::empty()
        }),
{
    let after = Seq::<Seq<u8>>::empty().push(data);
    assert(after.drop_first() =~= Seq::<Seq<u8>>::empty());
}

/// On a buffer holding at least one item and not full, an enqueue and a
/// dequeue commute: both orders hand out the same item and leave the same
/// items queued, so the producer's and the consumer's calls do not disturb
/// each other.
pub proof fn law_enqueue_dequeue_commute(
    items: Seq<Seq<u8>>,
    capacity: nat,
    slot_size: nat,
    data: Seq<u8>,
)
    requires
        0 < items.len() < capacity,
        data.len() == slot_size,
    ensures
        ({
            let (_, a1) = enqueue_step(items, capacity, slot_size, data);
            let (ra, a2) = dequeue_step(a1, slot_size, slot_size);
            let (rb, b1) = dequeue_step(items, slot_size, slot_size);
            let (_, b2) = enqueue_step(b1, capacity, slot_size, data);
            &&& ra == rb
            &&& a2 == b2
        }),
{
    assert(items.push(data).drop_first() =~= items.drop_first().push(data));
}

/// Over any run of calls, nothing is lost, duplicated or reordered: the
/// items queued at the start followed by everything accepted equal
/// everything handed out followed by what is still queued. The number
/// queued therefore changes by one for each call that succeeds, and never
/// exceeds the capacity.
pub proof fn law_run_preserves_order(
    items: Seq<Seq<u8>>,
    capacity: nat,
    slot_size: nat,
    calls: Seq<Call>,
)
    requires
        items.len() <= capacity,
    ensures
        ({
            let out = run(items, capacity, slot_size, calls);
            &&& items + out.accepted == out.delivered + out.items
            &&& out.items.len() <= capacity
            &&& out.items.len() + out.delivered.len() == items.len() + out.accepted.len()
        }),
    decreases calls.len(),
{
    if calls.len() > 0 {
        let prefix = calls.drop_last();
        law_run_preserves_order(items, capacity, slot_size, prefix);
        let before = run(items, capacity, slot_size, prefix);
        let out = run(items, capacity, slot_size, calls);
        match calls.last() {
            Call::Enqueue(data) => {
                if data.len() == slot_size && before.items.len() < capacity {
                    assert(items + before.accepted.push(data) =~= (items + before.accepted).push(
                        data,
                    ));
                    assert(before.delivered + before.items.push(data) =~= (before.delivered
                        + before.items).push(data));
                }
            },
            Call::Dequeue(out_len) => {
                if out_len == slot_size && before.items.len() > 0 {
                    assert(before.delivered.push(before.items[0]) + before.items.drop_first()
                        =~= before.delivered + before.items);
                }
            },
        }
        assert(items + out.accepted =~= out.delivered + out.items);
    }
}

/// Starting from an empty buffer, the items handed out are, in order, the
/// first items accepted, and the number still queued is the number of
/// successful enqueues minus the number of successful dequeues.
pub proof fn law_run_from_empty(capacity: nat, slot_size: nat, calls: Seq<Call>)
    ensures
        ({
            let out = run(Seq::empty(), capacity, slot_size, calls);
            &&& out.delivered.len() <= out.accepted.len()
            &&& forall|i: int|
                0 <= i < out.delivered.len() ==> #[trigger] out.delivered[i] == out.accepted[i]
            &&& out.items.len() == out.accepted.len() - out.delivered.len()
            &&& out.items.len() <= capacity
        }),
{
    law_run_preserves_order(Seq::empty(), capacity, slot_size, calls);
    let out = run(Seq::empty(), capacity, slot_size, calls);
    assert(Seq::<Seq<u8>>::empty() + out.accepted =~= out.accepted);
    assert forall|i: int| 0 <= i < out.delivered.len() implies #[trigger] out.delivered[i]
        == out.accepted[i] by {
        assert((out.delivered + out.items)[i] == out.delivered[i]);
    }
}

/// `count` enqueues of one slot's worth of bytes into an empty buffer, with
/// `count` no more than the capacity, all succeed and queue that many
/// copies.
proof fn lemma_fill(capacity: nat, slot_size: nat, data: Seq<u8>, count: nat)
    requires
        data.len() == slot_size,
        count <= capacity,
    ensures
        run(Seq::empty(), capacity, slot_size, repeated_enqueues(data, count)).items == Seq::new(
            count,
            |i: int| data,
        ),
        run(Seq::empty(), capacity, slot_size, repeated_enqueues(data, count)).accepted
            == Seq::new(count, |i: int| data),
    decreases count,
{
    if count > 0 {
        let calls = repeated_enqueues(data, count);
        assert(calls.drop_last() =~= repeated_enqueues(data, (count - 1) as nat));
        lemma_fill(capacity, slot_size, data, (count - 1) as nat);
        assert(Seq::new((count - 1) as nat, |i: int| data).push(data) =~= Seq::new(
            count,
            |i: int| data,
        ));
    } else {
        assert(repeated_enqueues(data, 0) =~= Seq::<Call>::empty());
    }
}

/// A fresh buffer accepts exactly `capacity` items: that many enqueues of
/// one slot's worth of bytes all succeed, and the next one is refused with
/// `QueueFull`.
pub proof fn law_fill_to_capacity(capacity: nat, slot_size: nat, data: Seq<u8>)
    requires
        data.len() == slot_size,
    ensures
        ({
            let out = run(Seq::empty(), capacity, slot_size, repeated_enqueues(data, capacity));
            &&& out.accepted.len() == capacity
            &&& out.items.len() == capacity
            &&& enqueue_step(out.items, capacity, slot_size, data).0 == Err::<(), Error>(
                Error::QueueFull,
            )
        }),
{
    lemma_fill(capacity, slot_size, data, capacity);
}

/// A run of calls on one buffer follows the model: when each state is what
/// one call's contract makes of the state before it (as the contracts of
/// `Producer::enqueue` and `Consumer::dequeue` state), the slot count, slot
/// size and capacity never change, and the items queued at the end are what
/// `run` gives, so the laws above hold of the buffer.
pub proof fn law_buffer_follows_run<const N: usize>(
    states: Seq<KrabiBuffer<N>>,
    calls: Seq<Call>,
)
    requires
        states.len() == calls.len() + 1,
        forall|i: int|
            0 <= i < calls.len() ==> #[trigger] states[i + 1].same_geometry(&states[i]),
        forall|i: int|
            0 <= i < calls.len() ==> states[i + 1]@ == after_call(
                states[i]@,
                states[i].capacity_spec(),
                states[i].slot_size(),
                #[trigger] calls[i],
            ),
    ensures
        states.last().same_geometry(&states[0]),
        states.last().capacity_spec() == states[0].capacity_spec(),
        states.last()@ == run(
            states[0]@,
            states[0].capacity_spec(),
            states[0].slot_size(),
            calls,
        ).items,
    decreases calls.len(),
{
    if calls.len() > 0 {
        let n = calls.len() - 1;
        let prefix_states = states.drop_last();
        let prefix_calls = calls.drop_last();
        assert forall|i: int| 0 <= i < prefix_calls.len() implies #[trigger] prefix_states[i
            + 1].same_geometry(&prefix_states[i]) by {
            assert(prefix_states[i + 1] == states[i + 1]);
            assert(prefix_states[i] == states[i]);
        }
        assert forall|i: int| 0 <= i < prefix_calls.len() implies prefix_states[i + 1]@
            == after_call(
            prefix_states[i]@,
            prefix_states[i].capacity_spec(),
            prefix_states[i].slot_size(),
            #[trigger] prefix_calls[i],
        ) by {
            assert(calls[i] == prefix_calls[i]);
            assert(prefix_states[i] == states[i]);
            assert(prefix_states[i + 1] == states[i + 1]);
        }
        law_buffer_follows_run(prefix_states, prefix_calls);
        assert(calls[n] == calls.last());
        assert(states[n] == prefix_states[n]);
        assert(states[n + 1].same_geometry(&states[n]));
    }
}

} // verus!
