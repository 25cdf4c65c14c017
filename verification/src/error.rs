use vstd::prelude::*;

verus! {

/// Reasons a buffer cannot be created or an item cannot be moved.
#[derive(Debug, PartialEq, Eq, Structural)]
pub enum Error {
    /// The requested slot size is zero.
    StrideIsZero,
    /// The buffer size `N` is not a multiple of the slot size.
    StrideNotEvenlyDivisible,
    /// The buffer would hold fewer than two slots.
    SlotCountTooSmall,
    /// Every usable slot is occupied.
    QueueFull,
    /// No slot is occupied.
    QueueEmpty,
    /// The caller's byte slice is not exactly one slot long.
    InvalidDataLength,
}

} // verus!
