//! The lock-free rings between the audio callbacks and the inference thread.
//!
//! A ring has one producer and one consumer, usually on two threads. Each half
//! knows what it has moved itself and how many slots it has seen to be usable;
//! what the other half does in the meantime can only make more of them usable.

use rtrb::{Consumer, Producer};
use vstd::prelude::*;

verus! {

/// The writing half of a ring.
#[verifier::external_type_specification]
#[verifier::external_body]
#[verifier::reject_recursive_types(T)]
pub struct ExProducer<T>(rtrb::Producer<T>);

/// The reading half of a ring.
#[verifier::external_type_specification]
#[verifier::external_body]
#[verifier::reject_recursive_types(T)]
pub struct ExConsumer<T>(rtrb::Consumer<T>);

/// Every sample this half has written so far, oldest first.
pub uninterp spec fn sent(producer: Producer<u32>) -> Seq<u32>;

/// How many slots this half has seen to be free and not used yet.
pub uninterp spec fn free(producer: Producer<u32>) -> nat;

/// How many samples the ring can hold.
pub uninterp spec fn ring_size(producer: Producer<u32>) -> nat;

/// Every sample this half has read so far, oldest first.
pub uninterp spec fn received(consumer: Consumer<u32>) -> Seq<u32>;

/// How many samples this half has seen to be there and not read yet.
pub uninterp spec fn stocked(consumer: Consumer<u32>) -> nat;

/// Which ring a writing half belongs to.
pub uninterp spec fn written_ring(producer: Producer<u32>) -> int;

/// Which ring a reading half belongs to.
pub uninterp spec fn read_ring(consumer: Consumer<u32>) -> int;

/// `rtrb::RingBuffer::new` makes the two halves of one empty ring of the given
/// capacity: both belong to that ring, nothing has been moved, and all slots are free. It allocates the
/// slots, and panics when they take more bytes than an allocation can.
#[verifier::external_body]
pub(crate) fn sample_ring(capacity: usize) -> (halves: (Producer<u32>, Consumer<u32>))
    requires
        capacity * 4 <= isize::MAX,
    ensures
        sent(halves.0) == Seq::<u32>::empty(),
        free(halves.0) == capacity,
        ring_size(halves.0) == capacity,
        received(halves.1) == Seq::<u32>::empty(),
        stocked(halves.1) == 0,
        written_ring(halves.0) == read_ring(halves.1),
{
    rtrb::RingBuffer::new(capacity)
}

/// `rtrb::Producer::push` writes one sample, or refuses it when the ring is
/// full. It succeeds while the half knows of a free slot; otherwise it looks
/// again, and what it finds depends on the consumer.
#[verifier::external_body]
pub(crate) fn push_sample(producer: &mut Producer<u32>, sample: u32) -> (pushed: bool)
    ensures
        pushed ==> sent(*final(producer)) == sent(*old(producer)).push(sample),
        !pushed ==> sent(*final(producer)) == sent(*old(producer)) && free(*final(producer)) == 0,
        free(*old(producer)) > 0 ==> pushed && free(*final(producer)) == free(*old(producer)) - 1,
        ring_size(*final(producer)) == ring_size(*old(producer)),
        written_ring(*final(producer)) == written_ring(*old(producer)),
{
    producer.push(sample).is_ok()
}

/// `rtrb::Producer::push_partial_slice` writes as many samples from the front
/// of a block as there are free slots, and reports that part of the block. It
/// is at least as long as the free slots the half knows of; how much longer
/// depends on the consumer.
#[verifier::external_body]
pub(crate) fn push_block(producer: &mut Producer<u32>, samples: &[u32]) -> (count: usize)
    ensures
        count <= samples@.len(),
        sent(*final(producer)) == sent(*old(producer)) + samples@.take(count as int),
        count < samples@.len() ==> free(*old(producer)) <= count && free(*final(producer)) == 0,
        free(*old(producer)) >= samples@.len() ==> free(*final(producer)) == free(*old(producer))
            - samples@.len(),
        ring_size(*final(producer)) == ring_size(*old(producer)),
        written_ring(*final(producer)) == written_ring(*old(producer)),
{
    producer.push_partial_slice(samples).0.len()
}

/// `rtrb::Producer::slots` counts the free slots. The count can only have
/// grown since the half last looked.
#[verifier::external_body]
pub(crate) fn free_slots(producer: &mut Producer<u32>) -> (slots: usize)
    ensures
        slots == free(*final(producer)),
        free(*old(producer)) <= slots <= ring_size(*final(producer)),
        sent(*final(producer)) == sent(*old(producer)),
        ring_size(*final(producer)) == ring_size(*old(producer)),
        written_ring(*final(producer)) == written_ring(*old(producer)),
{
    producer.slots()
}

/// `rtrb::RingBuffer::capacity`, reached through `rtrb::Producer::buffer`, is
/// the capacity the ring was made with.
#[verifier::external_body]
pub(crate) fn ring_capacity(producer: &Producer<u32>) -> (capacity: usize)
    ensures
        capacity == ring_size(*producer),
{
    producer.buffer().capacity()
}

/// `rtrb::Consumer::pop` reads the oldest sample, or reports an empty ring. It
/// succeeds while the half knows of a sample; otherwise it looks again, and
/// what it finds depends on the producer.
#[verifier::external_body]
pub(crate) fn pop_sample(consumer: &mut Consumer<u32>) -> (sample: Option<u32>)
    ensures
        match sample {
            Some(value) => received(*final(consumer)) == received(*old(consumer)).push(value),
            None => received(*final(consumer)) == received(*old(consumer)) && stocked(
                *final(consumer),
            ) == 0,
        },
        stocked(*old(consumer)) > 0 ==> sample is Some && stocked(*final(consumer)) == stocked(
            *old(consumer),
        ) - 1,
        read_ring(*final(consumer)) == read_ring(*old(consumer)),
{
    consumer.pop().ok()
}

/// `rtrb::Consumer::pop_partial_slice` reads as many samples as there are and
/// as fit into the front of a block, and reports that part of the block; the
/// rest is left alone. It is at least as long as the samples the half knows
/// of; how much longer depends on the producer.
#[verifier::external_body]
pub(crate) fn pop_block(consumer: &mut Consumer<u32>, block: &mut [u32]) -> (count: usize)
    ensures
        count <= old(block)@.len(),
        final(block)@.len() == old(block)@.len(),
        final(block)@.skip(count as int) == old(block)@.skip(count as int),
        received(*final(consumer)) == received(*old(consumer)) + final(block)@.take(count as int),
        count < old(block)@.len() ==> stocked(*old(consumer)) <= count && stocked(
            *final(consumer),
        ) == 0,
        stocked(*old(consumer)) >= old(block)@.len() ==> stocked(*final(consumer)) == stocked(
            *old(consumer),
        ) - old(block)@.len(),
        read_ring(*final(consumer)) == read_ring(*old(consumer)),
{
    consumer.pop_partial_slice(block).0.len()
}

/// `rtrb::Consumer::slots` counts the samples that are there. The count can
/// only have grown since the half last looked.
#[verifier::external_body]
pub(crate) fn stocked_slots(consumer: &mut Consumer<u32>) -> (slots: usize)
    ensures
        slots == stocked(*final(consumer)),
        slots >= stocked(*old(consumer)),
        received(*final(consumer)) == received(*old(consumer)),
        read_ring(*final(consumer)) == read_ring(*old(consumer)),
{
    consumer.slots()
}

/// Takes every sample out of a ring until it is found empty. What another thread
/// writes in the meantime goes too; after more samples than can be counted only
/// those already there go.
pub(crate) fn discard_all(consumer: &mut Consumer<u32>)
    ensures
        stocked(*final(consumer)) == 0,
        received(*old(consumer)).is_prefix_of(received(*final(consumer))),
        received(*final(consumer)).len() >= received(*old(consumer)).len() + stocked(
            *old(consumer),
        ),
        read_ring(*final(consumer)) == read_ring(*old(consumer)),
{
    let mut patience: u64 = u64::MAX;
    while patience > 0
        invariant
            received(*old(consumer)).is_prefix_of(received(*consumer)),
            received(*consumer).len() + stocked(*consumer) >= received(*old(consumer)).len()
                + stocked(*old(consumer)),
            read_ring(*consumer) == read_ring(*old(consumer)),
        decreases patience,
    {
        if pop_sample(consumer).is_none() {
            return;
        }
        patience = patience - 1;
    }
    let mut left: usize = stocked_slots(consumer);
    while left > 0
        invariant
            stocked(*consumer) == left,
            received(*old(consumer)).is_prefix_of(received(*consumer)),
            received(*consumer).len() + left >= received(*old(consumer)).len() + stocked(
                *old(consumer),
            ),
            read_ring(*consumer) == read_ring(*old(consumer)),
        decreases left,
    {
        pop_sample(consumer);
        left = left - 1;
    }
}

/// `rtrb::RingBuffer::new` makes the two halves of an empty ring of the given
/// capacity, which is small, so that its slots can be allocated. Nothing is
/// claimed of what a ring of other items holds.
#[verifier::external_body]
pub(crate) fn item_ring<T>(capacity: usize) -> (halves: (Producer<T>, Consumer<T>))
    requires
        capacity <= 16,
{
    rtrb::RingBuffer::new(capacity)
}

/// `rtrb::Producer::push` writes one item, or refuses it when the ring is
/// full, which depends on the consumer. A refused item is dropped.
#[verifier::external_body]
pub(crate) fn push_item<T>(producer: &mut Producer<T>, item: T) -> (pushed: bool) {
    producer.push(item).is_ok()
}

/// `rtrb::Consumer::pop` reads the oldest item, if there is one, which depends
/// on the producer.
#[verifier::external_body]
pub(crate) fn pop_item<T>(consumer: &mut Consumer<T>) -> (item: Option<T>) {
    consumer.pop().ok()
}

} // verus!
