//! The fixed-capacity ring of receipt flags, kept in a
//! `ringbuffer::ConstGenericRingBuffer`.
//!
//! Verus does not look inside the ring. What it holds is named by
//! [`ring_items`], and each function below states over that name what the
//! `ringbuffer` crate does; none of these statements is proved here.

use ringbuffer::{ConstGenericRingBuffer, RingBuffer};
use vstd::prelude::*;

verus! {

/// Declares `ringbuffer::ConstGenericRingBuffer`, so that it can stand in
/// fields and signatures. Nothing is known of what is inside it.
#[verifier::external_type_specification]
#[verifier::external_body]
#[verifier::reject_recursive_types(T)]
pub struct ExConstGenericRingBuffer<T, const CAP: usize>(ConstGenericRingBuffer<T, CAP>);

/// The flags in the ring, from the one pushed longest ago to the one pushed
/// last.
pub uninterp spec fn ring_items(ring: ConstGenericRingBuffer<bool, 32>) -> Seq<bool>;

/// What `push` leaves in a ring of capacity 32 that held `items`: `value`
/// comes last, and the oldest item leaves where the ring was full.
pub open spec fn pushed(items: Seq<bool>, value: bool) -> Seq<bool> {
    if items.len() < 32 {
        items.push(value)
    } else {
        items.subrange(1, items.len() as int).push(value)
    }
}

/// `ConstGenericRingBuffer::new`: a ring that holds nothing yet.
#[verifier::external_body]
pub(crate) fn ring_new() -> (ring: ConstGenericRingBuffer<bool, 32>)
    ensures
        ring_items(ring) == Seq::<bool>::empty(),
{
    ConstGenericRingBuffer::new()
}

/// `RingBuffer::fill`: afterwards the ring is full and every item is
/// `value`, whatever it held before.
#[verifier::external_body]
pub(crate) fn ring_fill(ring: &mut ConstGenericRingBuffer<bool, 32>, value: bool)
    ensures
        ring_items(*final(ring)) == Seq::new(32, |i: int| value),
{
    ring.fill(value)
}

/// `RingBuffer::push`: `value` becomes the newest item; a full ring drops
/// its oldest item to make room.
#[verifier::external_body]
pub(crate) fn ring_push(ring: &mut ConstGenericRingBuffer<bool, 32>, value: bool)
    ensures
        ring_items(*final(ring)) == pushed(ring_items(*old(ring)), value),
{
    ring.push(value)
}

/// The position, counted from the oldest item, that a signed index names in
/// a ring of `len` items: the index modulo `len`, so that -1 names the
/// newest item.
pub open spec fn signed_position(index: int, len: int) -> int {
    index % len
}

/// `RingBuffer::get_mut_signed`: a reference to the item at
/// [`signed_position`] of `index`, or `None` where the ring is empty. The
/// ring changes only through that reference.
#[verifier::external_body]
pub(crate) fn ring_get_mut_signed(
    ring: &mut ConstGenericRingBuffer<bool, 32>,
    index: isize,
) -> (slot: Option<&mut bool>)
    ensures
        ring_items(*old(ring)).len() == 0 ==> slot is None && ring_items(*final(ring))
            == ring_items(*old(ring)),
        ring_items(*old(ring)).len() > 0 ==> slot is Some && *slot->0 == ring_items(
            *old(ring),
        )[signed_position(index as int, ring_items(*old(ring)).len() as int)] && ring_items(
            *final(ring),
        ) == ring_items(*old(ring)).update(
            signed_position(index as int, ring_items(*old(ring)).len() as int),
            *final(slot->0),
        ),
{
    ring.get_mut_signed(index)
}

/// `RingBuffer::iter`, collected: the items from oldest to newest.
#[verifier::external_body]
pub(crate) fn ring_to_vec(ring: &ConstGenericRingBuffer<bool, 32>) -> (items: Vec<bool>)
    ensures
        items@ == ring_items(*ring),
{
    ring.iter().copied().collect()
}

} // verus!
