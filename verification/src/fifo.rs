//! Sample queues: a bounded first-in first-out ring between two threads.
//!
//! The ring is the one of the `ringbuf` crate. Its two halves stay together in
//! a [`Fifo`], so what the queue holds changes only through the queue itself.
use vstd::prelude::*;
use vstd::slice::slice_subrange;

verus! {

/// How many samples each queue of the station can hold.
pub const RING_CAP: usize = 131072;

/// The writing half of a ring of the `ringbuf` crate.
#[verifier::external_type_specification]
#[verifier::external_body]
#[verifier::reject_recursive_types(T)]
pub struct ExProducer<T>(ringbuf::Producer<T>);

/// The reading half of a ring of the `ringbuf` crate.
#[verifier::external_type_specification]
#[verifier::external_body]
#[verifier::reject_recursive_types(T)]
pub struct ExConsumer<T>(ringbuf::Consumer<T>);

/// What the ring between two halves holds, oldest sample first.
pub uninterp spec fn ring_contents(
    producer: ringbuf::Producer<u32>,
    consumer: ringbuf::Consumer<u32>,
) -> Seq<u32>;

/// How many samples the ring behind a writing half can hold.
pub uninterp spec fn ring_capacity(producer: ringbuf::Producer<u32>) -> nat;

/// Whether the two halves belong to the same ring.
pub uninterp spec fn one_ring(
    producer: ringbuf::Producer<u32>,
    consumer: ringbuf::Consumer<u32>,
) -> bool;

/// The contents after `samples` are offered to a queue that holds `contents`:
/// as many of them as there is room for, in order, behind what was there.
pub open spec fn after_push(contents: Seq<u32>, capacity: nat, samples: Seq<u32>) -> Seq<u32> {
    contents + samples.take(accepted(contents, capacity, samples))
}

/// How many of `samples` a queue that holds `contents` has room for.
pub open spec fn accepted(contents: Seq<u32>, capacity: nat, samples: Seq<u32>) -> int {
    let room = capacity - contents.len();
    if samples.len() <= room {
        samples.len() as int
    } else {
        room
    }
}

/// How many samples come out when at most `limit` are taken.
pub open spec fn available(contents: Seq<u32>, limit: nat) -> int {
    if limit <= contents.len() {
        limit as int
    } else {
        contents.len() as int
    }
}

/// Calls `ringbuf::RingBuffer::new` and `split` on the ring it makes: the two
/// halves are of one ring, which is empty and holds at most `capacity` samples.
/// The bound keeps the ring's storage, one slot more than its capacity, within
/// what can be allocated.
#[verifier::external_body]
fn ring_halves(capacity: usize) -> (halves: (ringbuf::Producer<u32>, ringbuf::Consumer<u32>))
    requires
        (capacity + 1) * 4 <= isize::MAX,
    ensures
        one_ring(halves.0, halves.1),
        ring_contents(halves.0, halves.1) == Seq::<u32>::empty(),
        ring_capacity(halves.0) == capacity,
{
    ringbuf::RingBuffer::<u32>::new(capacity).split()
}

/// Calls `ringbuf::Producer::push_slice`: it appends the longest prefix of
/// `samples` that fits and returns that prefix's length. The reading half is
/// borrowed so that nothing leaves the ring meanwhile.
#[verifier::external_body]
fn ring_push(
    producer: &mut ringbuf::Producer<u32>,
    consumer: &ringbuf::Consumer<u32>,
    samples: &[u32],
) -> (pushed: usize)
    requires
        one_ring(*old(producer), *consumer),
        ring_contents(*old(producer), *consumer).len() <= ring_capacity(*old(producer)),
    ensures
        one_ring(*final(producer), *consumer),
        ring_capacity(*final(producer)) == ring_capacity(*old(producer)),
        pushed == accepted(
            ring_contents(*old(producer), *consumer),
            ring_capacity(*old(producer)),
            samples@,
        ),
        ring_contents(*final(producer), *consumer) == after_push(
            ring_contents(*old(producer), *consumer),
            ring_capacity(*old(producer)),
            samples@,
        ),
{
    let _ = consumer;
    producer.push_slice(samples)
}

/// Calls `ringbuf::Consumer::pop`: it takes the oldest sample out, or returns
/// `None` and changes nothing where the ring is empty. The writing half is
/// borrowed so that nothing enters the ring meanwhile.
#[verifier::external_body]
fn ring_pop(
    producer: &ringbuf::Producer<u32>,
    consumer: &mut ringbuf::Consumer<u32>,
) -> (sample: Option<u32>)
    requires
        one_ring(*producer, *old(consumer)),
    ensures
        one_ring(*producer, *final(consumer)),
        sample == (if ring_contents(*producer, *old(consumer)).len() == 0 {
            None::<u32>
        } else {
            Some(ring_contents(*producer, *old(consumer))[0])
        }),
        ring_contents(*producer, *final(consumer)) == (if ring_contents(
            *producer,
            *old(consumer),
        ).len() == 0 {
            Seq::<u32>::empty()
        } else {
            ring_contents(*producer, *old(consumer)).skip(1)
        }),
{
    let _ = producer;
    consumer.pop()
}

/// Calls `ringbuf::Consumer::pop_slice`: it moves as many of the oldest samples
/// as there are and as fit into the front of `buffer`, leaves the rest of
/// `buffer` alone, and returns how many it moved. The writing half is borrowed
/// so that nothing enters the ring meanwhile.
#[verifier::external_body]
fn ring_pop_slice(
    producer: &ringbuf::Producer<u32>,
    consumer: &mut ringbuf::Consumer<u32>,
    buffer: &mut Vec<u32>,
) -> (popped: usize)
    requires
        one_ring(*producer, *old(consumer)),
    ensures
        one_ring(*producer, *final(consumer)),
        popped == available(ring_contents(*producer, *old(consumer)), old(buffer)@.len()),
        final(buffer)@ == ring_contents(*producer, *old(consumer)).take(popped as int)
            + old(buffer)@.skip(popped as int),
        ring_contents(*producer, *final(consumer)) == ring_contents(
            *producer,
            *old(consumer),
        ).skip(popped as int),
{
    let _ = producer;
    consumer.pop_slice(buffer.as_mut_slice())
}

/// A bounded queue of samples. Its view is what it holds, oldest sample first.
pub struct Fifo {
    producer: ringbuf::Producer<u32>,
    consumer: ringbuf::Consumer<u32>,
}

impl View for Fifo {
    type V = Seq<u32>;

    closed spec fn view(&self) -> Seq<u32> {
        ring_contents(self.producer, self.consumer)
    }
}

impl Fifo {
    /// How many samples the queue can hold.
    pub closed spec fn capacity(&self) -> nat {
        ring_capacity(self.producer)
    }

    /// Both halves are of one ring, and it holds no more than it can.
    pub closed spec fn wf(&self) -> bool {
        &&& one_ring(self.producer, self.consumer)
        &&& ring_contents(self.producer, self.consumer).len() <= ring_capacity(self.producer)
    }

    /// A valid queue never holds more than its capacity.
    pub proof fn lemma_within_capacity(&self)
        requires
            self.wf(),
        ensures
            self@.len() <= self.capacity(),
    {
    }

    /// An empty queue for at most `capacity` samples.
    pub fn new(capacity: usize) -> (fifo: Fifo)
        requires
            (capacity + 1) * 4 <= isize::MAX,
        ensures
            fifo.wf(),
            fifo@ == Seq::<u32>::empty(),
            fifo.capacity() == capacity,
    {
        let (producer, consumer) = ring_halves(capacity);
        Fifo { producer, consumer }
    }

    /// Offers the samples from `from` on. The longest prefix of them that fits
    /// enters the queue; returns its length.
    pub fn push_from(&mut self, samples: &Vec<u32>, from: usize) -> (pushed: usize)
        requires
            old(self).wf(),
            from <= samples@.len(),
        ensures
            final(self).wf(),
            final(self).capacity() == old(self).capacity(),
            pushed == accepted(old(self)@, old(self).capacity(), samples@.skip(from as int)),
            final(self)@ == after_push(
                old(self)@,
                old(self).capacity(),
                samples@.skip(from as int),
            ),
    {
        let rest = slice_subrange(samples.as_slice(), from, samples.len());
        assert(rest@ =~= samples@.skip(from as int));
        ring_push(&mut self.producer, &self.consumer, rest)
    }

    /// Takes the oldest sample out, where there is one.
    pub fn pop(&mut self) -> (sample: Option<u32>)
        requires
            old(self).wf(),
        ensures
            final(self).wf(),
            final(self).capacity() == old(self).capacity(),
            old(self)@.len() == 0 ==> sample is None && final(self)@ == old(self)@,
            old(self)@.len() > 0 ==> sample == Some(old(self)@[0]) && final(self)@ == old(
                self,
            )@.skip(1),
    {
        ring_pop(&self.producer, &mut self.consumer)
    }

    /// Takes the oldest samples out, at most `limit` of them, in order.
    pub fn take_up_to(&mut self, limit: usize) -> (samples: Vec<u32>)
        requires
            old(self).wf(),
        ensures
            final(self).wf(),
            final(self).capacity() == old(self).capacity(),
            samples@ == old(self)@.take(available(old(self)@, limit as nat)),
            final(self)@ == old(self)@.skip(available(old(self)@, limit as nat)),
    {
        let mut buffer: Vec<u32> = Vec::new();
        buffer.resize(limit, 0);
        let popped: usize = ring_pop_slice(&self.producer, &mut self.consumer, &mut buffer);
        buffer.truncate(popped);
        assert(buffer@ =~= old(self)@.take(popped as int));
        buffer
    }
}

/// What a queue with enough room is offered comes out again whole and in
/// order, behind what it held before.
pub proof fn law_fifo_keeps_order(contents: Seq<u32>, capacity: nat, samples: Seq<u32>)
    requires
        contents.len() + samples.len() <= capacity,
    ensures
        ({
            let held = after_push(contents, capacity, samples);
            let first = available(held, contents.len());
            let rest = held.skip(first);
            &&& held.take(first) == contents
            &&& rest.take(available(rest, samples.len())) == samples
            &&& rest.skip(available(rest, samples.len())) == Seq::<u32>::empty()
        }),
{
    let held = after_push(contents, capacity, samples);
    assert(held.take(contents.len() as int) =~= contents);
    assert(held.skip(contents.len() as int) =~= samples);
    assert(samples.take(samples.len() as int) =~= samples);
    assert(samples.skip(samples.len() as int) =~= Seq::<u32>::empty());
}

/// A push never makes a queue exceed its capacity, and never drops or reorders
/// what it already holds.
pub proof fn law_push_respects_capacity(contents: Seq<u32>, capacity: nat, samples: Seq<u32>)
    requires
        contents.len() <= capacity,
    ensures
        after_push(contents, capacity, samples).len() <= capacity,
        after_push(contents, capacity, samples).take(contents.len() as int) == contents,
        contents.len() == capacity ==> after_push(contents, capacity, samples) == contents,
{
    assert(after_push(contents, capacity, samples).take(contents.len() as int) =~= contents);
    if contents.len() == capacity {
        assert(after_push(contents, capacity, samples) =~= contents);
    }
}

/// A queue takes as much of what it is offered as it has room for, from the front,
/// behind what it holds; it refuses a sample only where it is full.
pub proof fn law_queue_takes_what_fits(contents: Seq<u32>, capacity: nat, samples: Seq<u32>)
    requires
        contents.len() <= capacity,
    ensures
        0 <= accepted(contents, capacity, samples) <= samples.len(),
        contents.len() + accepted(contents, capacity, samples) <= capacity,
        accepted(contents, capacity, samples) < samples.len() ==> contents.len() + accepted(
            contents,
            capacity,
            samples,
        ) == capacity,
        after_push(contents, capacity, samples).len() == contents.len() + accepted(
            contents,
            capacity,
            samples,
        ),
        forall|i: int|
            0 <= i < contents.len() ==> #[trigger] after_push(contents, capacity, samples)[i]
                == contents[i],
        forall|i: int|
            contents.len() <= i < after_push(contents, capacity, samples).len()
                ==> #[trigger] after_push(contents, capacity, samples)[i] == samples[i
                - contents.len()],
{
}

/// As many samples come out as are asked for, or all there are.
pub proof fn law_queue_gives_what_it_has(contents: Seq<u32>, limit: nat)
    ensures
        0 <= available(contents, limit) <= limit,
        available(contents, limit) <= contents.len(),
        available(contents, limit) < limit ==> available(contents, limit) == contents.len(),
{
}

} // verus!
