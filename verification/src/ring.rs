use vstd::prelude::*;

use vstd::arithmetic::div_mod::{lemma_mod_add_multiples_vanish, lemma_small_mod};
use vstd::arithmetic::mul::{
    lemma_mul_inequality, lemma_mul_is_distributive_add_other_way,
};

verus! {

/// Number of occupied slots in a ring of `slots` slots whose next read is at
/// `head` and whose next write is at `tail`.
pub open spec fn ring_len(head: int, tail: int, slots: int) -> int {
    (tail - head) % slots
}

/// The slot that lies `i` places after `pos` in a ring of `slots` slots.
pub open spec fn ring_slot(pos: int, i: int, slots: int) -> int {
    (pos + i) % slots
}

/// The occupied-slot count, without a remainder.
pub proof fn lemma_ring_len_cases(head: int, tail: int, slots: int)
    requires
        0 <= head < slots,
        0 <= tail < slots,
    ensures
        ring_len(head, tail, slots) == if tail >= head {
            tail - head
        } else {
            tail - head + slots
        },
        0 <= ring_len(head, tail, slots) < slots,
{
    if tail >= head {
        lemma_small_mod((tail - head) as nat, slots as nat);
    } else {
        lemma_mod_add_multiples_vanish(tail - head, slots);
        lemma_small_mod((slots + (tail - head)) as nat, slots as nat);
    }
}

/// The slot `i` places after `pos`, without a remainder.
pub proof fn lemma_ring_slot_cases(pos: int, i: int, slots: int)
    requires
        0 <= pos < slots,
        0 <= i < slots,
    ensures
        ring_slot(pos, i, slots) == if pos + i < slots {
            pos + i
        } else {
            pos + i - slots
        },
        0 <= ring_slot(pos, i, slots) < slots,
{
    if pos + i < slots {
        lemma_small_mod((pos + i) as nat, slots as nat);
    } else {
        lemma_mod_add_multiples_vanish(pos + i - slots, slots);
        lemma_small_mod((pos + i - slots) as nat, slots as nat);
    }
}

/// Walking `ring_len(head, tail)` places from `head` reaches `tail`, and
/// every shorter walk stops at a slot other than `tail`.
pub proof fn lemma_ring_walk(head: int, tail: int, slots: int)
    requires
        0 <= head < slots,
        0 <= tail < slots,
    ensures
        ring_slot(head, ring_len(head, tail, slots), slots) == tail,
        forall|i: int|
            0 <= i < ring_len(head, tail, slots) ==> #[trigger] ring_slot(head, i, slots)
                != tail,
{
    lemma_ring_len_cases(head, tail, slots);
    let n = ring_len(head, tail, slots);
    lemma_ring_slot_cases(head, n, slots);
    assert forall|i: int| 0 <= i < n implies #[trigger] ring_slot(head, i, slots) != tail by {
        lemma_ring_slot_cases(head, i, slots);
    }
}

/// Walking `i` places from the slot after `pos` ends where walking `i + 1`
/// places from `pos` does.
pub proof fn lemma_ring_slot_step(pos: int, i: int, slots: int)
    requires
        0 <= pos < slots,
        0 <= i,
        i + 1 < slots,
    ensures
        ring_slot(ring_slot(pos, 1, slots), i, slots) == ring_slot(pos, i + 1, slots),
{
    lemma_ring_slot_cases(pos, 1, slots);
    let next = ring_slot(pos, 1, slots);
    lemma_ring_slot_cases(next, i, slots);
    lemma_ring_slot_cases(pos, i + 1, slots);
}

/// The bytes of slot `s` lie inside the `slots * stride` bytes of storage.
pub proof fn lemma_slot_in_bounds(s: int, slots: int, stride: int)
    requires
        0 <= s < slots,
        0 < stride,
    ensures
        0 <= s * stride,
        s * stride + stride <= slots * stride,
{
    lemma_mul_inequality(0, s, stride);
    lemma_mul_inequality(s + 1, slots, stride);
    lemma_mul_is_distributive_add_other_way(stride, s, 1);
}

/// Two different slots occupy disjoint byte ranges.
pub proof fn lemma_slots_disjoint(s: int, u: int, stride: int)
    requires
        0 <= s,
        0 <= u,
        s != u,
        0 < stride,
    ensures
        s * stride + stride <= u * stride || u * stride + stride <= s * stride,
{
    if s < u {
        lemma_mul_inequality(s + 1, u, stride);
        lemma_mul_is_distributive_add_other_way(stride, s, 1);
    } else {
        lemma_mul_inequality(u + 1, s, stride);
        lemma_mul_is_distributive_add_other_way(stride, u, 1);
    }
}

} // verus!
