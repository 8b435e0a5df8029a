//! The sample queue between the decoder and the audio output.
//!
//! Samples are held as the bit patterns of 32-bit floating-point numbers, so the queue carries
//! them unchanged.
use vstd::prelude::*;

verus! {

/// The writing end of an `rtrb` ring buffer.
#[verifier::external_type_specification]
#[verifier::external_body]
#[verifier::reject_recursive_types(T)]
pub struct ExProducer<T>(rtrb::Producer<T>);

/// The reading end of an `rtrb` ring buffer.
#[verifier::external_type_specification]
#[verifier::external_body]
#[verifier::reject_recursive_types(T)]
pub struct ExConsumer<T>(rtrb::Consumer<T>);

/// Whether the two ends belong to one ring buffer.
pub uninterp spec fn ring_joined(
    producer: rtrb::Producer<u32>,
    consumer: rtrb::Consumer<u32>,
) -> bool;

/// The samples that have been written and not yet read, oldest first.
pub uninterp spec fn ring_contents(
    producer: rtrb::Producer<u32>,
    consumer: rtrb::Consumer<u32>,
) -> Seq<u32>;

/// The number of samples that the ring buffer was made for.
pub uninterp spec fn ring_capacity(producer: rtrb::Producer<u32>) -> nat;

/// Calls `rtrb::RingBuffer::new`. The two ends belong together, the ring buffer is empty and
/// holds up to `capacity` samples. It reserves four bytes for each, so the capacity must leave
/// the whole allocation within what a vector may hold.
#[verifier::external_body]
fn ring_new(capacity: usize) -> (r: (rtrb::Producer<u32>, rtrb::Consumer<u32>))
    requires
        4 * capacity <= isize::MAX,
    ensures
        ring_joined(r.0, r.1),
        ring_contents(r.0, r.1) == Seq::<u32>::empty(),
        ring_capacity(r.0) == capacity,
{
    rtrb::RingBuffer::new(capacity)
}

/// Calls `rtrb::Producer::slots`, the number of samples that can be written. With the reading
/// end borrowed too, nothing is read meanwhile, so this is the capacity less what is held.
#[verifier::external_body]
fn ring_free(producer: &rtrb::Producer<u32>, consumer: &rtrb::Consumer<u32>) -> (r: usize)
    requires
        ring_joined(*producer, *consumer),
    ensures
        ring_contents(*producer, *consumer).len() + r == ring_capacity(*producer),
{
    producer.slots()
}

/// Calls `rtrb::Consumer::slots`, the number of samples that can be read. With the writing end
/// borrowed too, nothing is written meanwhile, so this is the number of samples held.
#[verifier::external_body]
fn ring_held(producer: &rtrb::Producer<u32>, consumer: &rtrb::Consumer<u32>) -> (r: usize)
    requires
        ring_joined(*producer, *consumer),
    ensures
        r == ring_contents(*producer, *consumer).len(),
        r <= ring_capacity(*producer),
{
    consumer.slots()
}

/// Calls `rtrb::Producer::push_entire_slice`, which claims a chunk of `samples.len()` slots,
/// copies the samples into it and commits it, or does nothing where fewer slots are free.
#[verifier::external_body]
fn ring_write(
    producer: &mut rtrb::Producer<u32>,
    consumer: &rtrb::Consumer<u32>,
    samples: &[u32],
) -> (r: bool)
    requires
        ring_joined(*old(producer), *consumer),
    ensures
        ring_joined(*final(producer), *consumer),
        ring_capacity(*final(producer)) == ring_capacity(*old(producer)),
        r == (ring_contents(*old(producer), *consumer).len() + samples@.len() <= ring_capacity(
            *old(producer),
        )),
        ring_contents(*final(producer), *consumer) == if r {
            ring_contents(*old(producer), *consumer) + samples@
        } else {
            ring_contents(*old(producer), *consumer)
        },
{
    producer.push_entire_slice(samples).is_ok()
}

/// Calls `rtrb::Consumer::pop_entire_slice`, which claims a chunk of `out.len()` samples, copies
/// the oldest ones out of it and commits it, or does nothing where fewer are held.
#[verifier::external_body]
fn ring_read(
    producer: &rtrb::Producer<u32>,
    consumer: &mut rtrb::Consumer<u32>,
    out: &mut Vec<u32>,
) -> (r: bool)
    requires
        ring_joined(*producer, *old(consumer)),
    ensures
        ring_joined(*producer, *final(consumer)),
        r == (old(out)@.len() <= ring_contents(*producer, *old(consumer)).len()),
        r ==> {
            &&& final(out)@ == ring_contents(*producer, *old(consumer)).take(
                old(out)@.len() as int,
            )
            &&& ring_contents(*producer, *final(consumer)) == ring_contents(
                *producer,
                *old(consumer),
            ).skip(old(out)@.len() as int)
        },
        !r ==> {
            &&& final(out)@ == old(out)@
            &&& ring_contents(*producer, *final(consumer)) == ring_contents(
                *producer,
                *old(consumer),
            )
        },
{
    consumer.pop_entire_slice(out).is_ok()
}

/// Whether `samples` fit into a queue that holds `held`.
pub open spec fn write_fits(held: Seq<u32>, capacity: nat, samples: Seq<u32>) -> bool {
    held.len() + samples.len() <= capacity
}

/// What a queue that holds `held` holds after an attempt to write `samples`.
pub open spec fn after_write(held: Seq<u32>, capacity: nat, samples: Seq<u32>) -> Seq<u32> {
    if write_fits(held, capacity, samples) {
        held + samples
    } else {
        held
    }
}

/// What an attempt to read `count` samples hands out.
pub open spec fn read_out(held: Seq<u32>, count: nat) -> Option<Seq<u32>> {
    if count <= held.len() {
        Some(held.take(count as int))
    } else {
        None
    }
}

/// What a queue that holds `held` holds after an attempt to read `count` samples.
pub open spec fn after_read(held: Seq<u32>, count: nat) -> Seq<u32> {
    if count <= held.len() {
        held.skip(count as int)
    } else {
        held
    }
}

/// A bounded first-in, first-out queue of samples.
pub struct SampleRing {
    producer: rtrb::Producer<u32>,
    consumer: rtrb::Consumer<u32>,
}

impl View for SampleRing {
    type V = Seq<u32>;

    closed spec fn view(&self) -> Seq<u32> {
        ring_contents(self.producer, self.consumer)
    }
}

impl SampleRing {
    /// The two ends belong together.
    pub closed spec fn wf(self) -> bool {
        ring_joined(self.producer, self.consumer)
    }

    /// The number of samples that the queue can hold.
    pub closed spec fn capacity(self) -> nat {
        ring_capacity(self.producer)
    }

    /// An empty queue for up to `capacity` samples.
    pub fn new(capacity: usize) -> (r: SampleRing)
        requires
            4 * capacity <= isize::MAX,
        ensures
            r.wf(),
            r@ == Seq::<u32>::empty(),
            r.capacity() == capacity,
    {
        let (producer, consumer) = ring_new(capacity);
        SampleRing { producer, consumer }
    }

    /// The number of samples that can be written now.
    pub fn free(&self) -> (r: usize)
        requires
            self.wf(),
        ensures
            self@.len() + r == self.capacity(),
    {
        ring_free(&self.producer, &self.consumer)
    }

    /// The number of samples that can be read now.
    pub fn held(&self) -> (r: usize)
        requires
            self.wf(),
        ensures
            r == self@.len(),
            r <= self.capacity(),
    {
        ring_held(&self.producer, &self.consumer)
    }

    /// Writes all the samples, or none of them where they do not all fit.
    pub fn write(&mut self, samples: &[u32]) -> (r: bool)
        requires
            old(self).wf(),
        ensures
            final(self).wf(),
            final(self).capacity() == old(self).capacity(),
            r == write_fits(old(self)@, old(self).capacity(), samples@),
            final(self)@ == after_write(old(self)@, old(self).capacity(), samples@),
    {
        ring_write(&mut self.producer, &self.consumer, samples)
    }

    /// Reads the `count` oldest samples, or nothing where fewer are held.
    pub fn read(&mut self, count: usize) -> (r: Option<Vec<u32>>)
        requires
            old(self).wf(),
        ensures
            final(self).wf(),
            final(self).capacity() == old(self).capacity(),
            match r {
                Some(samples) => read_out(old(self)@, count as nat) == Some(samples@),
                None => read_out(old(self)@, count as nat) is None,
            },
            final(self)@ == after_read(old(self)@, count as nat),
    {
        if self.held() < count {
            return None;
        }
        let mut out: Vec<u32> = vec![0u32; count];
        if ring_read(&self.producer, &mut self.consumer, &mut out) {
            Some(out)
        } else {
            None
        }
    }

    /// Drops everything that is held.
    pub fn clear(&mut self)
        requires
            old(self).wf(),
        ensures
            final(self).wf(),
            final(self).capacity() == old(self).capacity(),
            final(self)@ == Seq::<u32>::empty(),
    {
        let held: usize = self.held();
        let dropped = self.read(held);
        assert(self@ =~= Seq::<u32>::empty());
    }
}

/// One use of a queue: an attempt to write some samples, or to read a number of them.
pub enum RingUse {
    Write(Seq<u32>),
    Read(nat),
}

/// What a run of uses comes to: the samples that writing accepted, the samples that reading
/// handed out, and those still held.
pub struct RingRun {
    pub accepted: Seq<u32>,
    pub delivered: Seq<u32>,
    pub held: Seq<u32>,
}

/// What the uses come to, one after the other, on an empty queue.
pub open spec fn ring_run(uses: Seq<RingUse>, capacity: nat) -> RingRun
    decreases uses.len(),
{
    if uses.len() == 0 {
        RingRun { accepted: Seq::empty(), delivered: Seq::empty(), held: Seq::empty() }
    } else {
        let before = ring_run(uses.drop_last(), capacity);
        match uses.last() {
            RingUse::Write(samples) => RingRun {
                accepted: if write_fits(before.held, capacity, samples) {
                    before.accepted + samples
                } else {
                    before.accepted
                },
                held: after_write(before.held, capacity, samples),
                ..before
            },
            RingUse::Read(count) => RingRun {
                delivered: match read_out(before.held, count) {
                    Some(samples) => before.delivered + samples,
                    None => before.delivered,
                },
                held: after_read(before.held, count),
                ..before
            },
        }
    }
}

/// Whatever the order of writes and reads, the samples come out as they went in: those handed
/// out, followed by those still held, are exactly those accepted, in the same order. Never are
/// more held than the queue was made for.
pub proof fn law_samples_stay_in_order(uses: Seq<RingUse>, capacity: nat)
    ensures
        ring_run(uses, capacity).accepted == ring_run(uses, capacity).delivered + ring_run(
            uses,
            capacity,
        ).held,
        ring_run(uses, capacity).held.len() <= capacity,
    decreases uses.len(),
{
    let now = ring_run(uses, capacity);
    if uses.len() > 0 {
        let before = ring_run(uses.drop_last(), capacity);
        law_samples_stay_in_order(uses.drop_last(), capacity);
        match uses.last() {
            RingUse::Write(samples) => {
                if write_fits(before.held, capacity, samples) {
                    assert((before.delivered + before.held) + samples =~= before.delivered + (
                    before.held + samples));
                }
            },
            RingUse::Read(count) => {
                if count <= before.held.len() {
                    assert(before.delivered + before.held =~= (before.delivered
                        + before.held.take(count as int)) + before.held.skip(count as int));
                }
            },
        }
    } else {
        assert(now.accepted =~= now.delivered + now.held);
    }
}

/// A write that fits, into an empty queue, is handed back whole by one read of its length.
pub proof fn law_read_gives_back_write(samples: Seq<u32>, capacity: nat)
    requires
        write_fits(Seq::empty(), capacity, samples),
    ensures
        read_out(after_write(Seq::empty(), capacity, samples), samples.len()) == Some(samples),
        after_read(after_write(Seq::empty(), capacity, samples), samples.len()) == Seq::<
            u32,
        >::empty(),
{
    let held = after_write(Seq::empty(), capacity, samples);
    assert(held =~= samples);
    assert(held.take(samples.len() as int) =~= samples);
    assert(held.skip(samples.len() as int) =~= Seq::<u32>::empty());
}

/// Samples are accepted exactly where there is room for all of them, and then they stand behind
/// those that were held; otherwise nothing changes.
pub proof fn law_write_is_all_or_nothing(held: Seq<u32>, capacity: nat, samples: Seq<u32>)
    ensures
        held.len() + samples.len() <= capacity ==> write_fits(held, capacity, samples)
            && after_write(held, capacity, samples) == held + samples,
        held.len() + samples.len() > capacity ==> !write_fits(held, capacity, samples)
            && after_write(held, capacity, samples) == held,
{
}

/// Reading hands out the oldest samples and keeps the others; where fewer are held than asked for,
/// it hands out nothing and keeps them all.
pub proof fn law_read_takes_the_oldest(first: Seq<u32>, rest: Seq<u32>, count: nat)
    ensures
        read_out(first + rest, first.len()) == Some(first),
        after_read(first + rest, first.len()) == rest,
        count > first.len() ==> read_out(first, count) is None && after_read(first, count) == first,
{
    assert((first + rest).take(first.len() as int) =~= first);
    assert((first + rest).skip(first.len() as int) =~= rest);
}

/// A queue takes samples that fit behind those that it holds, hands out the oldest first, and holds
/// nothing once it is cleared.
pub proof fn law_queue_is_first_in_first_out(
    written: &mut SampleRing,
    samples: &[u32],
    accepted: bool,
    drained: &mut SampleRing,
    count: usize,
    out: Option<Vec<u32>>,
    cleared: &mut SampleRing,
)
    requires
        call_ensures(SampleRing::write, (written, samples), accepted),
        call_ensures(SampleRing::read, (drained, count), out),
        call_ensures(SampleRing::clear, (cleared,), ()),
    ensures
        accepted <==> old(written)@.len() + samples@.len() <= old(written).capacity(),
        accepted ==> final(written)@ == old(written)@ + samples@,
        !accepted ==> final(written)@ == old(written)@,
        out is Some <==> count <= old(drained)@.len(),
        out matches Some(read) ==> read@ + final(drained)@ == old(drained)@ && read@.len() == count,
        out is None ==> final(drained)@ == old(drained)@,
        final(cleared)@.len() == 0,
{
    let held = old(drained)@;
    if count <= held.len() {
        assert(held.take(count as int) + held.skip(count as int) =~= held);
    }
}

} // verus!
