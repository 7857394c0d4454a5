//! The sample queue between the real-time callback and a channel's worker:
//! a bounded, lock-free queue with one producer and one consumer, from the
//! ringbuf crate.
//!
//! The two ends live on different threads. What the queue holds at a given
//! moment is therefore no function of either end. What an end itself has
//! pushed, or taken out, over its life is a function of that end, and the
//! contracts here speak of that.

use vstd::prelude::*;
use std::sync::Arc;
use ringbuf::HeapRb;
use crate::sample::Sample;

verus! {

/// The largest room that a queue can be asked for. The samples of a queue
/// of this room take less than the 2 GiB that one allocation can hold
/// where addresses have 32 bits.
pub const QUEUE_ROOM_MAX: usize = 0x1fff_ffff;

/// `HeapRb<Sample>` of the ringbuf crate: a sample queue before it is split
/// into its two ends. Opaque.
#[verifier::external_body]
pub struct Ring {
    inner: HeapRb<Sample>,
}

/// `Producer<Sample, Arc<HeapRb<Sample>>>` of the ringbuf crate: the
/// producing end of a sample queue, which the real-time callback pushes
/// into. Opaque: the worker's thread takes samples out at any time, so what
/// the queue holds is no function of this value.
#[verifier::external_body]
pub struct RingProducer {
    inner: ringbuf::Producer<Sample, Arc<HeapRb<Sample>>>,
}

/// `Consumer<Sample, Arc<HeapRb<Sample>>>` of the ringbuf crate: the
/// consuming end of a sample queue, which the worker pops from. Opaque: the
/// callback's thread adds samples at any time.
#[verifier::external_body]
pub struct RingConsumer {
    inner: ringbuf::Consumer<Sample, Arc<HeapRb<Sample>>>,
}

/// The room that a queue was made with: how many items it holds at most.
/// It never changes, whatever either thread does.
pub uninterp spec fn ring_room(ring: Ring) -> nat;

/// The room of the queue that a producing end belongs to.
pub uninterp spec fn producer_room(prod: RingProducer) -> nat;

/// The room of the queue that a consuming end belongs to.
pub uninterp spec fn consumer_room(cons: RingConsumer) -> nat;

/// All that a producing end has pushed since the queue was made, in the
/// order in which it went in. Only the calls on this end change it.
pub uninterp spec fn produced(prod: RingProducer) -> Seq<Sample>;

/// All that a consuming end has taken out since the queue was made, in
/// the order in which it came out. Only the calls on this end change it.
pub uninterp spec fn consumed(cons: RingConsumer) -> Seq<Sample>;

/// `HeapRb::new`: an empty queue with room for `capacity` items. It panics
/// where `capacity` is zero, and where the items take more bytes than an
/// allocation can hold.
#[verifier::external_body]
fn ring_new(capacity: usize) -> (ring: Ring)
    requires
        0 < capacity <= QUEUE_ROOM_MAX,
    ensures
        ring_room(ring) == capacity,
{
    Ring { inner: HeapRb::new(capacity) }
}

/// `HeapRb::split`: the two ends of the queue. Both have the room of the
/// queue, and neither has pushed or taken anything yet.
#[verifier::external_body]
fn ring_split(ring: Ring) -> (ends: (RingProducer, RingConsumer))
    ensures
        producer_room(ends.0) == ring_room(ring),
        consumer_room(ends.1) == ring_room(ring),
        produced(ends.0) == Seq::<Sample>::empty(),
        consumed(ends.1) == Seq::<Sample>::empty(),
{
    let (prod, cons) = ring.inner.split();
    (RingProducer { inner: prod }, RingConsumer { inner: cons })
}

/// `Producer::capacity`: the room of the queue.
#[verifier::external_body]
fn producer_capacity(prod: &RingProducer) -> (capacity: usize)
    ensures
        capacity == producer_room(*prod),
{
    prod.inner.capacity()
}

/// `Consumer::capacity`: the room of the queue.
#[verifier::external_body]
fn consumer_capacity(cons: &RingConsumer) -> (capacity: usize)
    ensures
        capacity == consumer_room(*cons),
{
    cons.inner.capacity()
}

/// `Producer::push_slice`: appends items from the front of `elems` while
/// there is room, without waiting, and returns how many it appended: never
/// more than were offered, and never more than the queue has room for.
/// What it appended are the first that many items of `elems`, in order.
#[verifier::external_body]
fn producer_push_slice(prod: &mut RingProducer, elems: &[Sample]) -> (count: usize)
    ensures
        count <= elems@.len(),
        count <= producer_room(*old(prod)),
        producer_room(*final(prod)) == producer_room(*old(prod)),
        produced(*final(prod)) == produced(*old(prod)) + elems@.take(count as int),
{
    prod.inner.push_slice(elems)
}

/// `Producer::len`: how many items the queue held a moment ago: never more
/// than it has room for.
#[verifier::external_body]
fn producer_len(prod: &RingProducer) -> (len: usize)
    ensures
        len <= producer_room(*prod),
{
    prod.inner.len()
}

/// `Consumer::len`: how many items the queue held a moment ago: never more
/// than it has room for. The producer may have added more since.
#[verifier::external_body]
fn consumer_len(cons: &RingConsumer) -> (len: usize)
    ensures
        len <= consumer_room(*cons),
{
    cons.inner.len()
}

/// `Consumer::pop_slice`: removes the oldest items from the queue, as many
/// as `elems` has room for and the queue holds, and writes them to the
/// front of `elems`, oldest first. Returns how many: the rest of `elems`
/// is as it was.
#[verifier::external_body]
fn consumer_pop_slice(cons: &mut RingConsumer, elems: &mut Vec<Sample>) -> (count: usize)
    ensures
        count <= old(elems)@.len(),
        count <= consumer_room(*old(cons)),
        consumer_room(*final(cons)) == consumer_room(*old(cons)),
        consumed(*final(cons)) == consumed(*old(cons)) + final(elems)@.take(count as int),
        final(elems)@.len() == old(elems)@.len(),
        forall|i: int| count <= i < old(elems)@.len() ==> final(elems)@[i] == old(elems)@[i],
{
    cons.inner.pop_slice(elems.as_mut_slice())
}

/// A sample was offered to a queue that had no room for it.
#[derive(Clone, Copy, Debug, PartialEq, Eq, Structural)]
pub struct ShortWrite {
    /// How many samples were offered.
    pub offered: usize,
    /// How many of them the queue took.
    pub pushed: usize,
}

/// A new sample queue with room for `capacity` samples, as its two ends.
pub fn sample_queue(capacity: usize) -> (ends: (RingProducer, RingConsumer))
    requires
        0 < capacity <= QUEUE_ROOM_MAX,
    ensures
        producer_room(ends.0) == capacity,
        consumer_room(ends.1) == capacity,
        produced(ends.0) == Seq::<Sample>::empty(),
        consumed(ends.1) == Seq::<Sample>::empty(),
{
    ring_split(ring_new(capacity))
}

/// What is returned for a block of `offered` samples of which the queue
/// took `pushed`: an error unless it took them all.
pub open spec fn block_outcome(offered: int, pushed: int) -> Result<(), ShortWrite> {
    if pushed == offered {
        Ok(())
    } else {
        Err(ShortWrite { offered: offered as usize, pushed: pushed as usize })
    }
}

/// Judges a push: `pushed` of `offered` samples went into the queue.
pub fn check_block(offered: usize, pushed: usize) -> (r: Result<(), ShortWrite>)
    ensures
        r == block_outcome(offered as int, pushed as int),
{
    if pushed == offered {
        Ok(())
    } else {
        Err(ShortWrite { offered, pushed })
    }
}

impl RingProducer {
    /// Pushes a whole block without waiting. A queue that takes fewer
    /// samples than the block has is too small for the backend's block
    /// size: the error says how many it took, and the samples that it did
    /// not take are lost.
    pub fn push_block(&mut self, block: &[Sample]) -> (r: Result<(), ShortWrite>)
        ensures
            producer_room(*final(self)) == producer_room(*old(self)),
            r is Ok ==> produced(*final(self)) == produced(*old(self)) + block@,
            r matches Err(e) ==> produced(*final(self)) == produced(*old(self)) + block@.take(
                e.pushed as int,
            ),
            r matches Err(e) ==> e.offered == block@.len() && e.pushed < e.offered && e.pushed
                <= producer_room(*old(self)),
            block@.len() > producer_room(*old(self)) ==> r is Err,
            block@.len() == 0 ==> r is Ok,
            exists|pushed: int|
                0 <= pushed <= block@.len() && r == #[trigger] block_outcome(
                    block@.len() as int,
                    pushed,
                ),
    {
        let pushed = producer_push_slice(self, block);
        proof {
            assert(block@.take(block@.len() as int) =~= block@);
        }
        check_block(block.len(), pushed)
    }

    /// How many samples the queue held a moment ago.
    pub fn len(&self) -> (len: usize)
        ensures
            len <= producer_room(*self),
    {
        producer_len(self)
    }

    /// How many samples the queue has room for.
    pub fn capacity(&self) -> (capacity: usize)
        ensures
            capacity == producer_room(*self),
    {
        producer_capacity(self)
    }
}

impl RingConsumer {
    /// How many samples the queue held a moment ago. The producer may have
    /// added more since; only this end takes any out.
    pub fn len(&self) -> (len: usize)
        ensures
            len <= consumer_room(*self),
    {
        consumer_len(self)
    }

    /// How many samples the queue has room for.
    pub fn capacity(&self) -> (capacity: usize)
        ensures
            capacity == consumer_room(*self),
    {
        consumer_capacity(self)
    }

    /// Takes up to `n` of the oldest samples out of the queue, oldest
    /// first.
    pub fn pop_up_to(&mut self, n: usize) -> (out: Vec<Sample>)
        ensures
            out@.len() <= n,
            out@.len() <= consumer_room(*old(self)),
            consumer_room(*final(self)) == consumer_room(*old(self)),
            consumed(*final(self)) == consumed(*old(self)) + out@,
    {
        let mut out: Vec<Sample> = vec![Sample::zero(); n];
        let count = consumer_pop_slice(self, &mut out);
        out.truncate(count);
        out
    }
}

} // verus!
