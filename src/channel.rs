//! The bounded queue between one publisher and one subscriber. It carries
//! references to sample slots in publication order and applies the
//! service's overflow policy when it is full.
use vstd::prelude::*;

verus! {

/// What a publisher does when a subscriber's queue is full.
#[derive(Debug, Clone, Copy, PartialEq, Eq, Structural)]
pub enum OverflowPolicy {
    /// The oldest queued sample makes room for the new one.
    DropOldest,
    /// The new sample is not delivered to this subscriber.
    Reject,
}

/// A queued sample: the slot that holds it and its publisher sequence number.
#[derive(Debug, Clone, Copy, PartialEq, Eq, Structural)]
pub struct SampleRef {
    pub slot: usize,
    pub sequence_number: u64,
}

/// How an enqueue went.
#[derive(Debug, Clone, Copy, PartialEq, Eq, Structural)]
pub enum PushOutcome {
    /// The sample was queued.
    Delivered,
    /// The sample was queued; the oldest one was dropped to make room and its
    /// slot reference has to be released.
    DeliveredDroppingOldest(SampleRef),
    /// The queue was full; the sample was not queued.
    Rejected,
}

/// The abstract state of a channel.
pub struct ChannelState {
    pub entries: Seq<SampleRef>,
    pub capacity: nat,
    pub overflow: OverflowPolicy,
    pub lost: nat,
}

/// Sequence numbers increase strictly from front to back.
pub open spec fn strictly_increasing(s: Seq<SampleRef>) -> bool {
    forall|i: int, j: int|
        0 <= i < j < s.len() ==> #[trigger] s[i].sequence_number < #[trigger] s[j].sequence_number
}

/// `e` may follow every sample in `s`.
pub open spec fn may_follow(s: Seq<SampleRef>, e: SampleRef) -> bool {
    forall|i: int| 0 <= i < s.len() ==> #[trigger] s[i].sequence_number < e.sequence_number
}

/// The loss counter after one more loss; it saturates at the largest `u64`.
pub open spec fn one_more_loss(lost: nat) -> nat {
    if lost < u64::MAX {
        lost + 1
    } else {
        lost
    }
}

/// A well-formed channel state.
pub open spec fn channel_wf(v: ChannelState) -> bool {
    &&& v.capacity > 0
    &&& v.entries.len() <= v.capacity
    &&& v.lost <= u64::MAX
    &&& strictly_increasing(v.entries)
}

/// The state after enqueueing `e`, and the outcome.
pub open spec fn push_spec(v: ChannelState, e: SampleRef) -> (ChannelState, PushOutcome) {
    if v.entries.len() < v.capacity {
        (ChannelState { entries: v.entries.push(e), ..v }, PushOutcome::Delivered)
    } else {
        match v.overflow {
            OverflowPolicy::DropOldest => (
                ChannelState { entries: v.entries.drop_first().push(e), lost: one_more_loss(v.lost), ..v },
                PushOutcome::DeliveredDroppingOldest(v.entries[0]),
            ),
            OverflowPolicy::Reject => (
                ChannelState { lost: one_more_loss(v.lost), ..v },
                PushOutcome::Rejected,
            ),
        }
    }
}

/// The state after dequeueing, and the dequeued sample.
pub open spec fn pop_spec(v: ChannelState) -> (ChannelState, Option<SampleRef>) {
    if v.entries.len() == 0 {
        (v, None)
    } else {
        (ChannelState { entries: v.entries.drop_first(), ..v }, Some(v.entries[0]))
    }
}

/// The state after enqueueing each of `samples` in turn.
pub open spec fn push_all(v: ChannelState, samples: Seq<SampleRef>) -> ChannelState
    decreases samples.len(),
{
    if samples.len() == 0 {
        v
    } else {
        push_spec(push_all(v, samples.drop_last()), samples.last()).0
    }
}

/// The samples dequeued by `n` dequeues in turn, and the state after them.
pub open spec fn pop_n(v: ChannelState, n: nat) -> (ChannelState, Seq<SampleRef>)
    decreases n,
{
    if n == 0 {
        (v, Seq::empty())
    } else {
        let (w, got) = pop_n(v, (n - 1) as nat);
        let (x, r) = pop_spec(w);
        match r {
            Some(e) => (x, got.push(e)),
            None => (x, got),
        }
    }
}

/// A bounded single-producer single-consumer queue of sample references.
pub struct Channel {
    entries: Vec<SampleRef>,
    capacity: usize,
    overflow: OverflowPolicy,
    lost: u64,
}

impl View for Channel {
    type V = ChannelState;

    closed spec fn view(&self) -> ChannelState {
        ChannelState {
            entries: self.entries@,
            capacity: self.capacity as nat,
            overflow: self.overflow,
            lost: self.lost as nat,
        }
    }
}

impl Channel {
    /// The channel's invariant: it holds at most `capacity` samples, in
    /// strictly increasing sequence order.
    pub open spec fn wf(&self) -> bool {
        channel_wf(self@)
    }

    /// An empty channel of `capacity` places.
    pub fn new(capacity: usize, overflow: OverflowPolicy) -> (r: Self)
        requires
            capacity > 0,
        ensures
            r.wf(),
            r@.entries.len() == 0,
            r@.capacity == capacity,
            r@.overflow == overflow,
            r@.lost == 0,
    {
        Channel { entries: Vec::new(), capacity, overflow, lost: 0 }
    }

    /// Enqueues `e`, which must be newer than every queued sample, applying
    /// the overflow policy when the channel is full. The loss counter counts
    /// every sample that leaves this channel undelivered, up to the largest
    /// `u64`.
    pub fn push(&mut self, e: SampleRef) -> (r: PushOutcome)
        requires
            old(self).wf(),
            may_follow(old(self)@.entries, e),
        ensures
            final(self).wf(),
            (final(self)@, r) == push_spec(old(self)@, e),
    {
        let ghost v = self@;
        if self.entries.len() < self.capacity {
            self.entries.push(e);
            assert(self@.entries =~= v.entries.push(e));
            assert(self@ == push_spec(v, e).0);
            return PushOutcome::Delivered;
        }
        self.lost = self.lost.saturating_add(1);
        match self.overflow {
            OverflowPolicy::DropOldest => {
                let oldest = self.entries.remove(0);
                self.entries.push(e);
                assert(self@.entries =~= v.entries.drop_first().push(e));
                assert(self@ == push_spec(v, e).0);
                PushOutcome::DeliveredDroppingOldest(oldest)
            },
            OverflowPolicy::Reject => {
                assert(self@ == push_spec(v, e).0);
                PushOutcome::Rejected
            },
        }
    }

    /// Dequeues the oldest sample. It is older than every sample that stays.
    pub fn pop(&mut self) -> (r: Option<SampleRef>)
        requires
            old(self).wf(),
        ensures
            final(self).wf(),
            (final(self)@, r) == pop_spec(old(self)@),
            r matches Some(e) ==> may_follow_all(e, final(self)@.entries),
    {
        if self.entries.len() == 0 {
            return None;
        }
        let ghost v = self@;
        let e = self.entries.remove(0);
        assert(self@.entries =~= v.entries.drop_first());
        assert(self@ == pop_spec(v).0);
        proof {
            assert forall|i: int| 0 <= i < self@.entries.len() implies e.sequence_number
                < #[trigger] self@.entries[i].sequence_number by {
                assert(v.entries[0].sequence_number < v.entries[i + 1].sequence_number);
            }
        }
        Some(e)
    }

    /// Number of queued samples.
    pub fn len(&self) -> (r: usize)
        ensures
            r == self@.entries.len(),
    {
        self.entries.len()
    }

    /// Number of samples that left this channel undelivered.
    pub fn sample_loss_count(&self) -> (r: u64)
        ensures
            r == self@.lost,
    {
        self.lost
    }
}

/// Every sample in `s` is newer than `e`.
pub open spec fn may_follow_all(e: SampleRef, s: Seq<SampleRef>) -> bool {
    forall|i: int| 0 <= i < s.len() ==> e.sequence_number < #[trigger] s[i].sequence_number
}

} // verus!

verus! {

/// The smaller of two naturals.
pub open spec fn min_nat(a: nat, b: nat) -> nat {
    if a <= b {
        a
    } else {
        b
    }
}

/// `n` dequeues hand out the oldest queued samples, oldest first, and leave
/// the rest queued; the other parts of the state do not change.
pub proof fn lemma_pop_n(v: ChannelState, n: nat)
    ensures
        ({
            let k = min_nat(n, v.entries.len());
            &&& pop_n(v, n).1 == v.entries.take(k as int)
            &&& pop_n(v, n).0.entries == v.entries.skip(k as int)
            &&& pop_n(v, n).0.capacity == v.capacity
            &&& pop_n(v, n).0.overflow == v.overflow
            &&& pop_n(v, n).0.lost == v.lost
        }),
    decreases n,
{
    if n == 0 {
        assert(v.entries.take(0) =~= Seq::<SampleRef>::empty());
        assert(v.entries.skip(0) =~= v.entries);
    } else {
        lemma_pop_n(v, (n - 1) as nat);
        let k = min_nat((n - 1) as nat, v.entries.len());
        if k < v.entries.len() {
            assert(v.entries.take(k as int).push(v.entries[k as int]) =~= v.entries.take(k + 1 as int));
            assert(v.entries.skip(k as int).drop_first() =~= v.entries.skip(k + 1 as int));
        }
    }
}

/// Without overflow, enqueueing appends: the samples follow what was queued
/// and nothing is counted as lost.
pub proof fn lemma_push_all_without_overflow(v: ChannelState, samples: Seq<SampleRef>)
    requires
        v.entries.len() + samples.len() <= v.capacity,
    ensures
        push_all(v, samples).entries == v.entries + samples,
        push_all(v, samples).capacity == v.capacity,
        push_all(v, samples).overflow == v.overflow,
        push_all(v, samples).lost == v.lost,
    decreases samples.len(),
{
    if samples.len() > 0 {
        lemma_push_all_without_overflow(v, samples.drop_last());
        assert(v.entries + samples.drop_last() + seq![samples.last()] =~= v.entries + samples);
        assert((v.entries + samples.drop_last()).push(samples.last()) =~= v.entries + samples);
    }
}

/// Per-publisher order: whatever a subscriber dequeues from a well-formed
/// channel comes in strictly increasing sequence order, and the channel stays
/// well-formed.
pub proof fn lemma_delivery_in_publication_order(v: ChannelState, n: nat)
    requires
        channel_wf(v),
    ensures
        strictly_increasing(pop_n(v, n).1),
        channel_wf(pop_n(v, n).0),
{
    lemma_pop_n(v, n);
}

/// Without overflow nothing is lost: when a subscriber's empty channel takes
/// `n` samples that fit, `n` dequeues hand out exactly those samples, in the
/// order they were sent.
pub proof fn lemma_no_overflow_delivers_all(v: ChannelState, samples: Seq<SampleRef>)
    requires
        channel_wf(v),
        v.entries.len() == 0,
        samples.len() <= v.capacity,
    ensures
        pop_n(push_all(v, samples), samples.len()).1 == samples,
        pop_n(push_all(v, samples), samples.len()).0.entries.len() == 0,
        push_all(v, samples).lost == v.lost,
{
    lemma_push_all_without_overflow(v, samples);
    assert(v.entries + samples =~= samples);
    lemma_pop_n(push_all(v, samples), samples.len());
    assert(samples.take(samples.len() as int) =~= samples);
}

} // verus!
