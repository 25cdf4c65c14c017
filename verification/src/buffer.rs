use vstd::prelude::*;

use vstd::std_specs::bits::u32_trailing_zeros;

use crate::error::Error;
use crate::model::{dequeue_step, enqueue_step};
use crate::ring::{
    lemma_ring_len_cases, lemma_ring_slot_cases, lemma_ring_slot_step,
    lemma_ring_walk, lemma_slot_in_bounds, lemma_slots_disjoint, ring_len, ring_slot,
};
use vstd::arithmetic::div_mod::lemma_mod_add_multiples_vanish;

verus! {

/// A ring buffer of `N` bytes divided into slots of `stride` bytes.
///
/// `N / stride` slots exist; one of them is always kept free so that a full
/// buffer can be told apart from an empty one, so at most `N / stride - 1`
/// items are queued at a time.
#[derive(Debug)]
pub struct KrabiBuffer<const N: usize> {
    /// Marker byte: upper nibble `0xC`, lower nibble `log2(pointer bits) - 3`.
    pub magic: u8,
    /// Spare bytes after the marker, as in the shared layout; set to zero.
    reserved: [u8; 7],
    /// Total number of slots (`N / stride`).
    slot_count: u64,
    /// Size in bytes of each slot.
    stride: u64,
    /// Slot index of the next item to dequeue.
    head: u64,
    /// Slot index at which the next item is enqueued.
    tail: u64,
    /// Raw storage for all slots.
    buffer: [u8; N],
}

/// The marker byte for this machine's pointer width: `0xC3` for 64-bit
/// pointers, `0xC2` for 32-bit ones.
pub open spec fn marker_byte() -> u8 {
    if usize::BITS == 64 { 0xC3u8 } else { 0xC2u8 }
}

impl<const N: usize> KrabiBuffer<N> {
    /// The marker byte.
    pub closed spec fn marker(&self) -> u8 {
        self.magic
    }

    /// The raw storage bytes of all slots.
    pub closed spec fn storage(&self) -> Seq<u8> {
        self.buffer@
    }

    /// Number of slots.
    pub closed spec fn slots(&self) -> nat {
        self.slot_count as nat
    }

    /// Bytes per slot.
    pub closed spec fn slot_size(&self) -> nat {
        self.stride as nat
    }

    /// Index of the slot that is dequeued next.
    pub closed spec fn head_index(&self) -> nat {
        self.head as nat
    }

    /// Index of the slot that is written next.
    pub closed spec fn tail_index(&self) -> nat {
        self.tail as nat
    }

    /// The geometry and index bounds every buffer keeps.
    pub closed spec fn wf(&self) -> bool {
        &&& self.stride > 0
        &&& self.slot_count >= 2
        &&& self.slot_count * self.stride == N
        &&& N <= isize::MAX
        &&& self.head < self.slot_count
        &&& self.tail < self.slot_count
    }

    /// Number of queued items.
    spec fn item_count(&self) -> nat {
        ring_len(self.head as int, self.tail as int, self.slot_count as int) as nat
    }

    /// The bytes stored in slot `s`.
    spec fn slot_bytes(&self, s: int) -> Seq<u8> {
        self.buffer@.subrange(s * self.stride, s * self.stride + self.stride)
    }

    /// The slot holding the item `i` places behind the head.
    spec fn item_slot(&self, i: int) -> int {
        ring_slot(self.head as int, i, self.slot_count as int)
    }

    /// Most items the buffer can hold at once.
    pub open spec fn capacity_spec(&self) -> nat {
        (self.slots() - 1) as nat
    }
}

impl<const N: usize> View for KrabiBuffer<N> {
    /// The queued items, oldest first, each as its slot's bytes.
    type V = Seq<Seq<u8>>;

    closed spec fn view(&self) -> Seq<Seq<u8>> {
        Seq::new(self.item_count(), |i: int| self.slot_bytes(self.item_slot(i)))
    }
}

/// `log2` of the pointer width, as `trailing_zeros` reports it.
proof fn lemma_pointer_width_log2()
    ensures
        usize::BITS.trailing_zeros() == (if usize::BITS == 64 { 6u32 } else { 5u32 }),
{
    let bits: u32 = usize::BITS;
    let t: u32 = u32_trailing_zeros(bits);
    vstd::std_specs::bits::axiom_u32_trailing_zeros(bits);
    if bits == 64 {
        assert(t < 32 && (64u32 >> t) & 1u32 == 1u32 ==> t == 6u32) by (bit_vector);
    } else {
        assert(t < 32 && (32u32 >> t) & 1u32 == 1u32 ==> t == 5u32) by (bit_vector);
    }
}

impl<const N: usize> KrabiBuffer<N> {
    /// Create an empty buffer whose slots are `stride` bytes long.
    ///
    /// Fails when `stride` is zero, when `N` is not a multiple of `stride`,
    /// or when fewer than two slots would result.
    pub fn new(stride: usize) -> (r: Result<Self, Error>)
        requires
            N <= isize::MAX,
        ensures
            stride == 0 ==> r == Err::<Self, Error>(Error::StrideIsZero),
            stride != 0 && N % stride != 0 ==> r == Err::<Self, Error>(
                Error::StrideNotEvenlyDivisible,
            ),
            stride != 0 && N % stride == 0 && N / stride < 2 ==> r == Err::<Self, Error>(
                Error::SlotCountTooSmall,
            ),
            stride != 0 && N % stride == 0 && N / stride >= 2 ==> (r matches Ok(b) && {
                &&& b.wf()
                &&& b.slots() == N / stride
                &&& b.slot_size() == stride
                &&& b.head_index() == 0
                &&& b.tail_index() == 0
                &&& b.marker() == marker_byte()
                &&& b@.len() == 0
                &&& b.storage() == Seq::new(N as nat, |i: int| 0u8)
            }),
    {
        if stride == 0 {
            return Err(Error::StrideIsZero);
        }
        if N % stride != 0 {
            return Err(Error::StrideNotEvenlyDivisible);
        }
        let slot_count = (N / stride) as u64;
        if slot_count < 2 {
            return Err(Error::SlotCountTooSmall);
        }
        proof {
            vstd::arithmetic::div_mod::lemma_fundamental_div_mod(N as int, stride as int);
            lemma_pointer_width_log2();
        }
        let width_code = usize::BITS.trailing_zeros() - 3;
        assert(0xC0u8 | 3u8 == 0xC3u8 && 0xC0u8 | 2u8 == 0xC2u8) by (bit_vector);
        assert(slot_count * stride == N) by {
            vstd::arithmetic::mul::lemma_mul_is_commutative(slot_count as int, stride as int);
        }
        assert(0xC0 | width_code as u8 == marker_byte());
        let buf = KrabiBuffer {
            magic: 0xC0 | width_code as u8,
            reserved: [0u8; 7],
            slot_count,
            stride: stride as u64,
            head: 0,
            tail: 0,
            buffer: [0u8; N],
        };
        proof {
            lemma_ring_len_cases(0, 0, slot_count as int);
            assert(buf.storage() =~= Seq::new(N as nat, |i: int| 0u8));
        }
        Ok(buf)
    }
}

impl<const N: usize> KrabiBuffer<N> {
    /// Usable capacity: one less than the number of slots, since one slot is
    /// always held open to tell a full buffer from an empty one.
    pub fn capacity(&self) -> (r: u64)
        requires
            self.wf(),
        ensures
            r == self.capacity_spec(),
    {
        self.slot_count - 1
    }

    /// Number of queued items.
    pub fn len(&self) -> (r: u64)
        requires
            self.wf(),
        ensures
            r == self@.len(),
    {
        let head = self.head;
        let tail = self.tail;
        let slot_count = self.slot_count;
        let distance = tail.wrapping_sub(head);
        let shifted = distance.wrapping_add(slot_count);
        proof {
            let sc = slot_count as int;
            lemma_ring_len_cases(head as int, tail as int, sc);
            vstd::arithmetic::mul::lemma_mul_inequality(1, self.stride as int, sc);
            vstd::arithmetic::mul::lemma_mul_is_commutative(sc, self.stride as int);
            assert(sc <= N);
            if tail >= head {
                assert(shifted == sc + (tail - head));
                lemma_mod_add_multiples_vanish((tail - head) as int, sc);
            } else {
                assert(shifted == tail - head + sc);
                vstd::arithmetic::div_mod::lemma_small_mod(shifted as nat, sc as nat);
            }
            assert(self@.len() == self.item_count());
        }
        shifted % slot_count
    }

    /// Whether no item is queued.
    pub fn is_empty(&self) -> (r: bool)
        requires
            self.wf(),
        ensures
            r == (self@.len() == 0),
    {
        self.len() == 0
    }

    /// The slot after `slot`, wrapping to the first after the last.
    fn increment(&self, slot: u64) -> (r: u64)
        requires
            self.wf(),
            slot < self.slots(),
        ensures
            r == ring_slot(slot as int, 1, self.slots() as int),
    {
        (slot + 1) % self.slot_count
    }
}

/// Write half of a [`KrabiBuffer`], obtained from [`KrabiBuffer::split`].
///
/// It records the geometry of the buffer it was split from, and every
/// operation names a buffer of that geometry to work on.
pub struct Producer<const N: usize> {
    slot_count: u64,
    stride: u64,
}

/// Read half of a [`KrabiBuffer`], obtained from [`KrabiBuffer::split`].
///
/// It records the geometry of the buffer it was split from, and every
/// operation names a buffer of that geometry to work on.
pub struct Consumer<const N: usize> {
    slot_count: u64,
    stride: u64,
}

impl<const N: usize> Producer<N> {
    /// Number of slots of the buffer this producer was split from.
    pub closed spec fn slots(&self) -> nat {
        self.slot_count as nat
    }

    /// Slot size of the buffer this producer was split from.
    pub closed spec fn slot_size(&self) -> nat {
        self.stride as nat
    }

    /// `rb` has the geometry of the buffer this producer was split from.
    pub open spec fn serves(&self, rb: &KrabiBuffer<N>) -> bool {
        self.slots() == rb.slots() && self.slot_size() == rb.slot_size()
    }
}

impl<const N: usize> Consumer<N> {
    /// Number of slots of the buffer this consumer was split from.
    pub closed spec fn slots(&self) -> nat {
        self.slot_count as nat
    }

    /// Slot size of the buffer this consumer was split from.
    pub closed spec fn slot_size(&self) -> nat {
        self.stride as nat
    }

    /// `rb` has the geometry of the buffer this consumer was split from.
    pub open spec fn serves(&self, rb: &KrabiBuffer<N>) -> bool {
        self.slots() == rb.slots() && self.slot_size() == rb.slot_size()
    }
}

impl<const N: usize> KrabiBuffer<N> {
    /// The slot count, slot size and marker byte of `self` and `other`
    /// agree.
    pub open spec fn same_geometry(&self, other: &Self) -> bool {
        &&& self.slots() == other.slots()
        &&& self.slot_size() == other.slot_size()
        &&& self.marker() == other.marker()
    }

    /// A producer and a consumer for this buffer, each recording its slot
    /// count and slot size.
    pub fn split(&self) -> (r: (Producer<N>, Consumer<N>))
        ensures
            r.0.slots() == self.slots(),
            r.0.slot_size() == self.slot_size(),
            r.1.slots() == self.slots(),
            r.1.slot_size() == self.slot_size(),
    {
        (
            Producer { slot_count: self.slot_count, stride: self.stride },
            Consumer { slot_count: self.slot_count, stride: self.stride },
        )
    }
}

impl<const N: usize> Producer<N> {
    /// Copy `data`, which must be exactly one slot long, into the next free
    /// slot of `rb`.
    ///
    /// Fails with `InvalidDataLength` when `data` is not one slot long and
    /// with `QueueFull` when every usable slot is occupied; `rb` is then left
    /// as it was.
    pub fn enqueue(&mut self, rb: &mut KrabiBuffer<N>, data: &[u8]) -> (r: Result<(), Error>)
        requires
            old(rb).wf(),
            old(self).serves(old(rb)),
        ensures
            *final(self) == *old(self),
            final(rb).wf(),
            final(rb).same_geometry(old(rb)),
            data@.len() != old(rb).slot_size() ==> r == Err::<(), Error>(Error::InvalidDataLength)
                && *final(rb) == *old(rb),
            data@.len() == old(rb).slot_size() && old(rb)@.len() == old(rb).capacity_spec() ==> r
                == Err::<(), Error>(Error::QueueFull) && *final(rb) == *old(rb),
            data@.len() == old(rb).slot_size() && old(rb)@.len() < old(rb).capacity_spec() ==> {
                &&& r == Ok::<(), Error>(())
                &&& final(rb)@ == old(rb)@.push(data@)
                &&& final(rb).head_index() == old(rb).head_index()
                &&& final(rb).tail_index() == ring_slot(
                    old(rb).tail_index() as int,
                    1,
                    old(rb).slots() as int,
                )
                &&& final(rb).storage() == {
                    let start = old(rb).tail_index() * old(rb).slot_size();
                    old(rb).storage().subrange(0, start as int) + data@ + old(rb).storage().subrange(
                        (start + old(rb).slot_size()) as int,
                        N as int,
                    )
                }
            },
            (r, final(rb)@) == enqueue_step(
                old(rb)@,
                old(rb).capacity_spec(),
                old(rb).slot_size(),
                data@,
            ),
    {
        proof {
            rb.lemma_len_below_slots();
        }
        if data.len() as u64 != rb.stride {
            return Err(Error::InvalidDataLength);
        }
        let current_tail = rb.tail;
        let next_tail = rb.increment(current_tail);
        let ghost sc = rb.slot_count as int;
        let ghost h = rb.head as int;
        let ghost t = current_tail as int;
        let ghost old_len = rb@.len() as int;
        proof {
            lemma_ring_len_cases(h, t, sc);
            lemma_ring_slot_cases(t, 1, sc);
        }
        if next_tail != rb.head {
            proof {
                lemma_slot_in_bounds(t, sc, rb.stride as int);
            }
            let offset = (current_tail * rb.stride) as usize;
            let stride = rb.stride as usize;
            let ghost before = rb.buffer@;
            let mut i: usize = 0;
            while i < stride
                invariant
                    0 <= i <= stride,
                    stride == old(rb).stride,
                    offset == t * stride,
                    offset + stride <= N,
                    data@.len() == stride,
                    rb.slot_count == old(rb).slot_count,
                    rb.stride == old(rb).stride,
                    rb.head == old(rb).head,
                    rb.tail == old(rb).tail,
                    rb.magic == old(rb).magic,
                    rb.reserved == old(rb).reserved,
                    before == old(rb).buffer@,
                    forall|k: int|
                        0 <= k < N && !(offset <= k < offset + i) ==> rb.buffer@[k] == before[k],
                    forall|k: int| offset <= k < offset + i ==> rb.buffer@[k] == data@[k - offset],
                decreases stride - i,
            {
                rb.buffer[offset + i] = data[i];
                i = i + 1;
            }
            rb.tail = next_tail;
            proof {
                let start = offset as int;
                assert(rb.storage() =~= old(rb).storage().subrange(0, start) + data@
                    + old(rb).storage().subrange(start + stride, N as int));
                lemma_ring_len_cases(h, next_tail as int, sc);
                lemma_ring_walk(h, t, sc);
                let st = rb.stride as int;
                assert forall|j: int| 0 <= j < old_len implies rb@[j] == old(rb)@[j] by {
                    let s = ring_slot(h, j, sc);
                    lemma_ring_slot_cases(h, j, sc);
                    lemma_slots_disjoint(s, t, st);
                    lemma_slot_in_bounds(s, sc, st);
                    assert(rb.slot_bytes(s) =~= old(rb).slot_bytes(s));
                }
                assert(rb@[old_len] =~= data@);
                assert(rb@ =~= old(rb)@.push(data@));
            }
            Ok(())
        } else {
            Err(Error::QueueFull)
        }
    }
}

impl<const N: usize> Consumer<N> {
    /// Copy the oldest queued item of `rb` into `out`, which must be exactly
    /// one slot long, and free its slot; `out` is handed back.
    ///
    /// Fails with `InvalidDataLength` when `out` is not one slot long and
    /// with `QueueEmpty` when no item is queued; `rb` and `out` are then left
    /// as they were.
    pub fn dequeue<'a>(&mut self, rb: &mut KrabiBuffer<N>, out: &'a mut [u8]) -> (r: Result<
        &'a mut [u8],
        Error,
    >)
        requires
            old(rb).wf(),
            old(self).serves(old(rb)),
        ensures
            *final(self) == *old(self),
            final(rb).wf(),
            final(rb).same_geometry(old(rb)),
            old(out)@.len() != old(rb).slot_size() ==> {
                &&& r matches Err(e) && e == Error::InvalidDataLength
                &&& *final(rb) == *old(rb)
                &&& final(out)@ == old(out)@
            },
            old(out)@.len() == old(rb).slot_size() && old(rb)@.len() == 0 ==> {
                &&& r matches Err(e) && e == Error::QueueEmpty
                &&& *final(rb) == *old(rb)
                &&& final(out)@ == old(out)@
            },
            old(out)@.len() == old(rb).slot_size() && old(rb)@.len() > 0 ==> {
                &&& r matches Ok(o) && o@ == old(rb)@[0] && o@.len() == old(out)@.len() && final(o)@
                    == final(out)@
                &&& final(rb)@ == old(rb)@.drop_first()
                &&& final(rb).head_index() == ring_slot(
                    old(rb).head_index() as int,
                    1,
                    old(rb).slots() as int,
                )
                &&& final(rb).tail_index() == old(rb).tail_index()
                &&& final(rb).storage() == old(rb).storage()
            },
            final(rb)@ == dequeue_step(old(rb)@, old(rb).slot_size(), old(out)@.len()).1,
            match dequeue_step(old(rb)@, old(rb).slot_size(), old(out)@.len()).0 {
                Ok(item) => r matches Ok(o) && o@ == item,
                Err(e) => r == Err::<&mut [u8], Error>(e),
            },
    {
        if out.len() as u64 != rb.stride {
            return Err(Error::InvalidDataLength);
        }
        let current_head = rb.head;
        let ghost sc = rb.slot_count as int;
        let ghost h = current_head as int;
        let ghost t = rb.tail as int;
        let ghost old_len = rb@.len() as int;
        proof {
            lemma_ring_len_cases(h, t, sc);
        }
        if current_head == rb.tail {
            Err(Error::QueueEmpty)
        } else {
            proof {
                lemma_slot_in_bounds(h, sc, rb.stride as int);
            }
            let offset = (current_head * rb.stride) as usize;
            let stride = rb.stride as usize;
            let mut i: usize = 0;
            while i < stride
                invariant
                    0 <= i <= stride,
                    stride == rb.stride,
                    offset == h * stride,
                    offset + stride <= N,
                    out@.len() == stride,
                    forall|k: int| 0 <= k < i ==> out@[k] == rb.buffer@[offset + k],
                decreases stride - i,
            {
                out[i] = rb.buffer[offset + i];
                i = i + 1;
            }
            let next_head = rb.increment(current_head);
            rb.head = next_head;
            proof {
                lemma_ring_slot_cases(h, 1, sc);
                lemma_ring_len_cases(next_head as int, t, sc);
                lemma_ring_walk(h, t, sc);
                lemma_ring_slot_cases(h, 0, sc);
                assert(old(rb).item_slot(0) == h);
                assert(out@ =~= old(rb).slot_bytes(h));
                assert(out@ =~= old(rb)@[0]);
                assert forall|j: int| 0 <= j < old_len - 1 implies rb@[j] == old(rb)@[j + 1] by {
                    lemma_ring_slot_step(h, j, sc);
                }
                assert(rb@ =~= old(rb)@.drop_first());
            }
            Ok(out)
        }
    }
}

impl<const N: usize> Producer<N> {
    /// Usable capacity of `rb`.
    pub fn capacity(&self, rb: &KrabiBuffer<N>) -> (r: u64)
        requires
            rb.wf(),
            self.serves(rb),
        ensures
            r == rb.capacity_spec(),
            r == self.slots() - 1,
    {
        rb.capacity()
    }

    /// Number of items queued in `rb`.
    pub fn len(&self, rb: &KrabiBuffer<N>) -> (r: u64)
        requires
            rb.wf(),
            self.serves(rb),
        ensures
            r == rb@.len(),
    {
        rb.len()
    }

    /// Whether no item is queued in `rb`.
    pub fn is_empty(&self, rb: &KrabiBuffer<N>) -> (r: bool)
        requires
            rb.wf(),
            self.serves(rb),
        ensures
            r == (rb@.len() == 0),
    {
        rb.is_empty()
    }
}

impl<const N: usize> Consumer<N> {
    /// Usable capacity of `rb`.
    pub fn capacity(&self, rb: &KrabiBuffer<N>) -> (r: u64)
        requires
            rb.wf(),
            self.serves(rb),
        ensures
            r == rb.capacity_spec(),
            r == self.slots() - 1,
    {
        rb.capacity()
    }

    /// Number of items queued in `rb`.
    pub fn len(&self, rb: &KrabiBuffer<N>) -> (r: u64)
        requires
            rb.wf(),
            self.serves(rb),
        ensures
            r == rb@.len(),
    {
        rb.len()
    }

    /// Whether no item is queued in `rb`.
    pub fn is_empty(&self, rb: &KrabiBuffer<N>) -> (r: bool)
        requires
            rb.wf(),
            self.serves(rb),
        ensures
            r == (rb@.len() == 0),
    {
        rb.is_empty()
    }
}

impl<const N: usize> KrabiBuffer<N> {
    /// The marker byte.
    pub fn magic(&self) -> (r: u8)
        ensures
            r == self.marker(),
    {
        self.magic
    }

    /// Total number of slots.
    pub fn slot_count(&self) -> (r: u64)
        ensures
            r == self.slots(),
    {
        self.slot_count
    }

    /// Size in bytes of each slot.
    pub fn stride(&self) -> (r: u64)
        ensures
            r == self.slot_size(),
    {
        self.stride
    }

    /// Index of the slot that is dequeued next.
    pub fn head(&self) -> (r: u64)
        ensures
            r == self.head_index(),
    {
        self.head
    }

    /// Index of the slot that is written next.
    pub fn tail(&self) -> (r: u64)
        ensures
            r == self.tail_index(),
    {
        self.tail
    }
}

impl<const N: usize> KrabiBuffer<N> {
    /// Fewer items are queued than there are slots.
    pub proof fn lemma_len_below_slots(&self)
        requires
            self.wf(),
        ensures
            self@.len() < self.slots(),
            self@.len() <= self.capacity_spec(),
    {
        lemma_ring_len_cases(self.head as int, self.tail as int, self.slot_count as int);
    }

    /// A buffer has at least two slots of at least one byte each, which
    /// together fill its `N` bytes, so it can hold at least one item.
    pub proof fn lemma_geometry(&self)
        requires
            self.wf(),
        ensures
            self.slots() >= 2,
            self.slot_size() >= 1,
            self.slots() * self.slot_size() == N,
            N <= isize::MAX,
            self.capacity_spec() >= 1,
            self.capacity_spec() == self.slots() - 1,
            self.storage().len() == N,
            forall|i: int| 0 <= i < self@.len() ==> (#[trigger] self@[i]).len() == self.slot_size(),
    {
        lemma_ring_len_cases(self.head as int, self.tail as int, self.slot_count as int);
        assert forall|i: int| 0 <= i < self@.len() implies (#[trigger] self@[i]).len()
            == self.slot_size() by {
            let sl = self.item_slot(i);
            lemma_ring_slot_cases(self.head as int, i, self.slot_count as int);
            lemma_slot_in_bounds(sl, self.slot_count as int, self.stride as int);
        }
    }

    /// The head and tail indices name slots of the buffer, and the number
    /// of queued items is the distance from head to tail around the ring.
    pub proof fn lemma_len_from_indices(&self)
        requires
            self.wf(),
        ensures
            self.head_index() < self.slots(),
            self.tail_index() < self.slots(),
            self@.len() == ring_len(
                self.head_index() as int,
                self.tail_index() as int,
                self.slots() as int,
            ),
    {
        lemma_ring_len_cases(self.head as int, self.tail as int, self.slot_count as int);
    }

    /// The buffer is empty exactly when head and tail name the same slot.
    pub proof fn lemma_empty_iff_indices_meet(&self)
        requires
            self.wf(),
        ensures
            self@.len() == 0 <==> self.head_index() == self.tail_index(),
    {
        lemma_ring_len_cases(self.head as int, self.tail as int, self.slot_count as int);
    }

    /// The buffer is full exactly when the slot after the tail is the head:
    /// the one slot kept free lies between them.
    pub proof fn lemma_full_iff_tail_behind_head(&self)
        requires
            self.wf(),
        ensures
            self@.len() == self.capacity_spec() <==> ring_slot(
                self.tail_index() as int,
                1,
                self.slots() as int,
            ) == self.head_index(),
    {
        lemma_ring_len_cases(self.head as int, self.tail as int, self.slot_count as int);
        lemma_ring_slot_cases(self.tail as int, 1, self.slot_count as int);
    }
}

} // verus!
