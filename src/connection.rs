//! A publisher's slot pool and history joined to one subscriber's channel:
//! the whole data path of one connection, with each slot's reference count
//! tied to where the slot is referenced.
use vstd::prelude::*;

use crate::channel::{
    channel_wf, may_follow, push_spec, pop_spec, Channel, ChannelState, OverflowPolicy,
    PushOutcome, SampleRef,
};
use crate::history::{record_spec, History};
use crate::slot_pool::{pool_wf, PoolState, SlotPool, SlotPoolError};

verus! {

/// How often `slot` is referenced in `q`.
pub open spec fn occurrences(q: Seq<SampleRef>, slot: int) -> nat
    decreases q.len(),
{
    if q.len() == 0 {
        0
    } else {
        occurrences(q.drop_last(), slot) + if q.last().slot as int == slot {
            1nat
        } else {
            0nat
        }
    }
}

/// Counting over a concatenation adds up.
pub proof fn lemma_occurrences_concat(a: Seq<SampleRef>, b: Seq<SampleRef>, slot: int)
    ensures
        occurrences(a + b, slot) == occurrences(a, slot) + occurrences(b, slot),
    decreases b.len(),
{
    if b.len() == 0 {
        assert(a + b =~= a);
    } else {
        lemma_occurrences_concat(a, b.drop_last(), slot);
        assert((a + b).drop_last() =~= a + b.drop_last());
    }
}

/// A sequence references a slot at most once per element.
pub proof fn lemma_occurrences_bounded(q: Seq<SampleRef>, slot: int)
    ensures
        occurrences(q, slot) <= q.len(),
    decreases q.len(),
{
    if q.len() > 0 {
        lemma_occurrences_bounded(q.drop_last(), slot);
    }
}

/// Removing the element at `i` removes one reference to its slot.
pub proof fn lemma_occurrences_remove(q: Seq<SampleRef>, i: int, slot: int)
    requires
        0 <= i < q.len(),
    ensures
        occurrences(q, slot) == occurrences(q.remove(i), slot) + if q[i].slot as int == slot {
            1nat
        } else {
            0nat
        },
{
    let a = q.take(i);
    let b = q.skip(i + 1);
    assert(q =~= a + seq![q[i]] + b);
    assert(q.remove(i) =~= a + b);
    lemma_occurrences_concat(a + seq![q[i]], b, slot);
    lemma_occurrences_concat(a, seq![q[i]], slot);
    lemma_occurrences_concat(a, b, slot);
    let one = seq![q[i]];
    assert(one.drop_last() =~= Seq::<SampleRef>::empty());
    assert(occurrences(one.drop_last(), slot) == 0);
    assert(occurrences(one, slot) == if q[i].slot as int == slot {
        1nat
    } else {
        0nat
    });
}

/// Appending adds one reference to the appended slot.
pub proof fn lemma_occurrences_push(q: Seq<SampleRef>, e: SampleRef, slot: int)
    ensures
        occurrences(q.push(e), slot) == occurrences(q, slot) + if e.slot as int == slot {
            1nat
        } else {
            0nat
        },
{
    assert(q.push(e).drop_last() =~= q);
}

/// A slot referenced in `q` is counted there.
pub proof fn lemma_occurrences_member(q: Seq<SampleRef>, k: int)
    requires
        0 <= k < q.len(),
    ensures
        occurrences(q, q[k].slot as int) >= 1,
{
    lemma_occurrences_remove(q, k, q[k].slot as int);
}

/// All references that the connection holds to `slot`: in the history, in
/// the channel and as read loans.
pub open spec fn held(h: Seq<SampleRef>, c: Seq<SampleRef>, l: Seq<SampleRef>, slot: int) -> nat {
    occurrences(h, slot) + occurrences(c, slot) + occurrences(l, slot)
}

/// Each slot's count is the number of references held to it, plus one for a
/// slot that is being written; every reference names an existing slot.
pub open spec fn counts_match(
    p: PoolState,
    h: Seq<SampleRef>,
    c: Seq<SampleRef>,
    l: Seq<SampleRef>,
    writing: Option<usize>,
) -> bool {
    &&& forall|s: int|
        0 <= s < p.refcounts.len() ==> #[trigger] p.refcounts[s] as int == held(h, c, l, s) + if writing
            == Some(s as usize) {
            1int
        } else {
            0int
        }
    &&& forall|k: int| 0 <= k < h.len() ==> (#[trigger] h[k]).slot < p.refcounts.len()
    &&& forall|k: int| 0 <= k < c.len() ==> (#[trigger] c[k]).slot < p.refcounts.len()
    &&& forall|k: int| 0 <= k < l.len() ==> (#[trigger] l[k]).slot < p.refcounts.len()
    &&& writing matches Some(w) ==> w < p.refcounts.len()
}

/// Why a connection operation failed.
#[derive(Debug, Clone, Copy, PartialEq, Eq, Structural)]
pub enum ConnectionError {
    /// No slot is free, or the subscriber holds its maximum of loans.
    ExceedsMaxLoanedSamples,
    /// Sequence numbers are used up.
    SequenceExhausted,
}

/// Largest history depth, queue depth or loan budget of a connection; keeps
/// every reference count far from overflow.
pub const MAX_DEPTH: usize = 1000000;

} // verus!

verus! {

/// What recording `e` in a history of depth `depth` pushes out: nothing while
/// there is room, `e` itself at depth zero, else the oldest sample.
pub open spec fn evicted(h: Seq<SampleRef>, depth: nat, e: SampleRef) -> Option<SampleRef> {
    if h.len() < depth {
        None
    } else if depth == 0 {
        Some(e)
    } else {
        Some(h[0])
    }
}

/// What enqueueing `e` leaves without a place in the channel: nothing while
/// there is room, else the oldest sample or `e` itself, by overflow policy.
pub open spec fn displaced(v: ChannelState, e: SampleRef) -> Option<SampleRef> {
    match push_spec(v, e).1 {
        PushOutcome::Delivered => None,
        PushOutcome::DeliveredDroppingOldest(o) => Some(o),
        PushOutcome::Rejected => Some(e),
    }
}

/// One for `Some` of `slot`, else zero.
pub open spec fn one_if(o: Option<SampleRef>, slot: int) -> nat {
    match o {
        Some(x) => if x.slot as int == slot {
            1nat
        } else {
            0nat
        },
        None => 0,
    }
}

proof fn lemma_record_counts(h: Seq<SampleRef>, depth: nat, e: SampleRef, slot: int)
    requires
        h.len() <= depth,
    ensures
        occurrences(record_spec(h, depth, e), slot) + one_if(evicted(h, depth, e), slot)
            == occurrences(h, slot) + one_if(Some(e), slot),
{
    lemma_occurrences_push(h, e, slot);
    let p = h.push(e);
    if h.len() < depth {
    } else if depth == 0 {
        assert(p.skip(1) =~= h);
    } else {
        assert(p.skip(p.len() - depth) =~= p.remove(0));
        lemma_occurrences_remove(p, 0, slot);
    }
}

proof fn lemma_push_counts(v: ChannelState, e: SampleRef, slot: int)
    requires
        v.entries.len() <= v.capacity,
        v.capacity > 0,
    ensures
        occurrences(push_spec(v, e).0.entries, slot) + one_if(displaced(v, e), slot)
            == occurrences(v.entries, slot) + one_if(Some(e), slot),
{
    lemma_occurrences_push(v.entries, e, slot);
    if v.entries.len() >= v.capacity && v.overflow == OverflowPolicy::DropOldest {
        lemma_occurrences_remove(v.entries, 0, slot);
        lemma_occurrences_push(v.entries.drop_first(), e, slot);
        assert(v.entries.drop_first() =~= v.entries.remove(0));
    }
}

/// One publisher connected to one subscriber: the publisher's slot pool,
/// payloads and history, the subscriber's channel and its read loans.
pub struct Connection {
    pool: SlotPool,
    payloads: Vec<u64>,
    history: History,
    channel: Channel,
    loans: Vec<SampleRef>,
    max_loans: usize,
    next_seq: u64,
}

/// The abstract state of a connection.
pub struct ConnectionState {
    pub pool: PoolState,
    pub payloads: Seq<u64>,
    pub history: Seq<SampleRef>,
    pub depth: nat,
    pub channel: ChannelState,
    pub loans: Seq<SampleRef>,
    pub max_loans: nat,
    pub next_seq: nat,
}

impl View for Connection {
    type V = ConnectionState;

    closed spec fn view(&self) -> ConnectionState {
        ConnectionState {
            pool: self.pool@,
            payloads: self.payloads@,
            history: self.history.spec_entries(),
            depth: self.history.spec_depth(),
            channel: self.channel@,
            loans: self.loans@,
            max_loans: self.max_loans as nat,
            next_seq: self.next_seq as nat,
        }
    }
}

/// The connection's invariant: pool, history and channel well-formed, every
/// slot's count equal to the references held to it, every held sample older
/// than the next sequence number, and the sizes within bounds.
pub open spec fn connection_wf(v: ConnectionState) -> bool {
    &&& pool_wf(v.pool)
    &&& channel_wf(v.channel)
    &&& v.history.len() <= v.depth
    &&& crate::channel::strictly_increasing(v.history)
    &&& counts_match(v.pool, v.history, v.channel.entries, v.loans, None)
    &&& v.payloads.len() == v.pool.refcounts.len()
    &&& forall|k: int| 0 <= k < v.history.len() ==> (#[trigger] v.history[k]).sequence_number < v.next_seq
    &&& forall|k: int|
        0 <= k < v.channel.entries.len() ==> (#[trigger] v.channel.entries[k]).sequence_number
            < v.next_seq
    &&& v.depth <= MAX_DEPTH
    &&& v.channel.capacity <= MAX_DEPTH
    &&& v.loans.len() <= v.max_loans <= MAX_DEPTH
    &&& v.next_seq <= u64::MAX
}

} // verus!

verus! {


fn record_with_reference(
    pool: &mut SlotPool,
    history: &mut History,
    e: SampleRef,
    c: Ghost<Seq<SampleRef>>,
    l: Ghost<Seq<SampleRef>>,
)
    requires
        pool_wf(old(pool)@),
        old(history).wf(),
        old(history).spec_depth() <= MAX_DEPTH,
        c@.len() <= MAX_DEPTH,
        l@.len() <= MAX_DEPTH,
        may_follow(old(history).spec_entries(), e),
        counts_match(old(pool)@, old(history).spec_entries(), c@, l@, Some(e.slot)),
    ensures
        pool_wf(final(pool)@),
        final(history).wf(),
        final(history).spec_depth() == old(history).spec_depth(),
        final(history).spec_entries() == record_spec(
            old(history).spec_entries(),
            old(history).spec_depth(),
            e,
        ),
        final(pool)@.refcounts.len() == old(pool)@.refcounts.len(),
        counts_match(final(pool)@, final(history).spec_entries(), c@, l@, Some(e.slot)),
{
    let ghost h0 = history.spec_entries();
    let ghost depth = history.spec_depth();
    let slot = e.slot;
    proof {
        lemma_occurrences_bounded(h0, slot as int);
        lemma_occurrences_bounded(c@, slot as int);
        lemma_occurrences_bounded(l@, slot as int);
        assert(old(pool)@.refcounts[slot as int] > 0);
    }
    let _ = pool.borrow(slot);
    let ghost p2 = pool@;
    let out = history.record(e);
    let ghost h1 = history.spec_entries();
    proof {
        assert(out == evicted(h0, depth, e));
        assert forall|s: int| 0 <= s < p2.refcounts.len() implies #[trigger] p2.refcounts[s] as int
            == held(h1, c@, l@, s) + one_if(out, s) + if s == slot {
            1int
        } else {
            0int
        } by {
            lemma_record_counts(h0, depth, e, s);
        }
    }
    match out {
        Some(o) => {
            proof {
                if o != e {
                    assert(h0[0] == o);
                }
                assert(p2.refcounts[o.slot as int] >= 1);
            }
            let _ = pool.release(o.slot);
        },
        None => {},
    }
    proof {
        let p3 = pool@;
        assert forall|s: int| 0 <= s < p3.refcounts.len() implies #[trigger] p3.refcounts[s] as int
            == held(h1, c@, l@, s) + if s == slot {
            1int
        } else {
            0int
        } by {
            assert(p2.refcounts[s] as int == held(h1, c@, l@, s) + one_if(out, s) + if s == slot {
                1int
            } else {
                0int
            });
        }
        assert forall|k: int| 0 <= k < h1.len() implies (#[trigger] h1[k]).slot < p3.refcounts.len() by {
            if h1.len() == h0.len() + 1 && k == h0.len() {
            } else {
                assert(h1[k] == h0.push(e)[h0.push(e).len() - h1.len() + k]);
            }
        }
    }
}

fn enqueue_with_reference(
    pool: &mut SlotPool,
    channel: &mut Channel,
    e: SampleRef,
    h: Ghost<Seq<SampleRef>>,
    l: Ghost<Seq<SampleRef>>,
)
    requires
        pool_wf(old(pool)@),
        old(channel).wf(),
        old(channel)@.capacity <= MAX_DEPTH,
        h@.len() <= MAX_DEPTH,
        l@.len() <= MAX_DEPTH,
        may_follow(old(channel)@.entries, e),
        counts_match(old(pool)@, h@, old(channel)@.entries, l@, Some(e.slot)),
    ensures
        pool_wf(final(pool)@),
        final(channel).wf(),
        final(channel)@ == push_spec(old(channel)@, e).0,
        final(pool)@.refcounts.len() == old(pool)@.refcounts.len(),
        counts_match(final(pool)@, h@, final(channel)@.entries, l@, Some(e.slot)),
{
    let ghost c0 = channel@;
    let slot = e.slot;
    proof {
        lemma_occurrences_bounded(h@, slot as int);
        lemma_occurrences_bounded(c0.entries, slot as int);
        lemma_occurrences_bounded(l@, slot as int);
        assert(old(pool)@.refcounts[slot as int] > 0);
    }
    let _ = pool.borrow(slot);
    let ghost p4 = pool@;
    let outcome = channel.push(e);
    let ghost c1 = channel@;
    let dropped = match outcome {
        PushOutcome::Delivered => None,
        PushOutcome::DeliveredDroppingOldest(o) => Some(o),
        PushOutcome::Rejected => Some(e),
    };
    proof {
        assert(dropped == displaced(c0, e));
        assert forall|s: int| 0 <= s < p4.refcounts.len() implies #[trigger] p4.refcounts[s] as int
            == held(h@, c1.entries, l@, s) + one_if(dropped, s) + if s == slot {
            1int
        } else {
            0int
        } by {
            lemma_push_counts(c0, e, s);
        }
    }
    match dropped {
        Some(o) => {
            proof {
                if o != e {
                    assert(c0.entries[0] == o);
                }
                assert(p4.refcounts[o.slot as int] >= 1);
            }
            let _ = pool.release(o.slot);
        },
        None => {},
    }
    proof {
        let p5 = pool@;
        assert forall|s: int| 0 <= s < p5.refcounts.len() implies #[trigger] p5.refcounts[s] as int
            == held(h@, c1.entries, l@, s) + if s == slot {
            1int
        } else {
            0int
        } by {
            assert(p4.refcounts[s] as int == held(h@, c1.entries, l@, s) + one_if(dropped, s)
                + if s == slot {
                1int
            } else {
                0int
            });
        }
        assert forall|k: int| 0 <= k < c1.entries.len() implies (#[trigger] c1.entries[k]).slot
            < p5.refcounts.len() by {
            if c0.entries.len() < c0.capacity {
                if k < c0.entries.len() {
                    assert(c1.entries[k] == c0.entries[k]);
                }
            } else if c0.overflow == OverflowPolicy::DropOldest {
                if k < c0.entries.len() - 1 {
                    assert(c1.entries[k] == c0.entries[k + 1]);
                }
            } else {
                assert(c1.entries[k] == c0.entries[k]);
            }
        }
    }
}

impl Connection {
    /// The invariant.
    pub open spec fn wf(&self) -> bool {
        connection_wf(self@)
    }

    /// A connection whose publisher keeps `history_size` samples, whose
    /// subscriber queues `queue_capacity` samples under `overflow` and holds
    /// at most `max_loans` samples at once. The pool has one slot for each of
    /// these and one more to write into.
    pub fn new(
        history_size: usize,
        queue_capacity: usize,
        overflow: OverflowPolicy,
        max_loans: usize,
    ) -> (r: Self)
        requires
            0 < queue_capacity <= MAX_DEPTH,
            history_size <= MAX_DEPTH,
            max_loans <= MAX_DEPTH,
        ensures
            r.wf(),
            r@.pool.refcounts.len() == history_size + queue_capacity + max_loans + 1,
            r@.pool.free.len() == r@.pool.refcounts.len(),
            r@.history.len() == 0,
            r@.depth == history_size,
            r@.channel.entries.len() == 0,
            r@.channel.capacity == queue_capacity,
            r@.channel.overflow == overflow,
            r@.channel.lost == 0,
            r@.loans.len() == 0,
            r@.max_loans == max_loans,
            r@.next_seq == 0,
    {
        let n = history_size + queue_capacity + max_loans + 1;
        let pool = SlotPool::new(n);
        let mut payloads: Vec<u64> = Vec::new();
        let mut i: usize = 0;
        while i < n
            invariant
                i <= n,
                payloads@.len() == i,
            decreases n - i,
        {
            payloads.push(0);
            i = i + 1;
        }
        let r = Connection {
            pool,
            payloads,
            history: History::new(history_size),
            channel: Channel::new(queue_capacity, overflow),
            loans: Vec::new(),
            max_loans,
            next_seq: 0,
        };
        assert(r@.loans =~= Seq::<SampleRef>::empty());
        r
    }

    /// Loans a slot, writes `value` into it and publishes it: the sample is
    /// recorded in the history and enqueued for the subscriber; what either
    /// pushes out is released, and so is the writer's own reference. The
    /// slot written is one that nothing referenced, so no payload that a
    /// reader can still reach changes; readers see the written slot itself.
    pub fn send(&mut self, value: u64) -> (r: Result<SampleRef, ConnectionError>)
        requires
            old(self).wf(),
        ensures
            final(self).wf(),
            old(self)@.next_seq == u64::MAX ==> r == Err::<SampleRef, ConnectionError>(
                ConnectionError::SequenceExhausted,
            ) && final(self)@ == old(self)@,
            old(self)@.next_seq < u64::MAX && old(self)@.pool.free.len() == 0 ==> r == Err::<
                SampleRef,
                ConnectionError,
            >(ConnectionError::ExceedsMaxLoanedSamples) && final(self)@ == old(self)@,
            old(self)@.next_seq < u64::MAX && old(self)@.pool.free.len() > 0 ==> ({
                let e = SampleRef {
                    slot: old(self)@.pool.free.last(),
                    sequence_number: old(self)@.next_seq as u64,
                };
                &&& r == Ok::<SampleRef, ConnectionError>(e)
                &&& held(old(self)@.history, old(self)@.channel.entries, old(self)@.loans, e.slot as int)
                    == 0
                &&& final(self)@.payloads == old(self)@.payloads.update(e.slot as int, value)
                &&& final(self)@.history == record_spec(old(self)@.history, old(self)@.depth, e)
                &&& final(self)@.channel == push_spec(old(self)@.channel, e).0
                &&& final(self)@.loans == old(self)@.loans
                &&& final(self)@.next_seq == old(self)@.next_seq + 1
            }),
    {
        if self.next_seq == u64::MAX {
            return Err(ConnectionError::SequenceExhausted);
        }
        let ghost v = self@;
        let slot = match self.pool.loan() {
            Ok(slot) => slot,
            Err(_) => {
                return Err(ConnectionError::ExceedsMaxLoanedSamples);
            },
        };
        proof {
            assert(v.pool.free[v.pool.free.len() - 1] == slot);
            assert(v.pool.refcounts[slot as int] == 0);
            assert(counts_match(self@.pool, v.history, v.channel.entries, v.loans, Some(slot)));
        }
        self.payloads.set(slot, value);
        let e = SampleRef { slot, sequence_number: self.next_seq };
        self.next_seq = self.next_seq + 1;

        let ghost c0 = self.channel@;
        let ghost l0 = self.loans@;
        proof {
            assert(self.history.spec_entries() == v.history);
            assert(may_follow(v.history, e));
            assert(may_follow(v.channel.entries, e));
        }
        record_with_reference(&mut self.pool, &mut self.history, e, Ghost(c0.entries), Ghost(l0));
        let ghost h1 = self.history.spec_entries();
        proof {
            lemma_occurrences_bounded(h1, slot as int);
        }
        enqueue_with_reference(&mut self.pool, &mut self.channel, e, Ghost(h1), Ghost(l0));
        let ghost c1 = self.channel@;
        let ghost h0 = v.history;
        let ghost p5 = self.pool@;

        // the writer's reference
        let _ = self.pool.release(slot);
        proof {
            let p6 = self.pool@;
            assert forall|s: int| 0 <= s < p6.refcounts.len() implies #[trigger] p6.refcounts[s] as int
                == held(h1, c1.entries, l0, s) by {
                assert(p5.refcounts[s] as int == held(h1, c1.entries, l0, s) + if s == slot {
                    1int
                } else {
                    0int
                });
            }
            assert forall|k: int| 0 <= k < h1.len() implies (#[trigger] h1[k]).sequence_number
                < self.next_seq by {
                if h1.len() == h0.len() + 1 && k == h0.len() {
                } else {
                    assert(h1[k] == h0.push(e)[h0.push(e).len() - h1.len() + k]);
                }
            }
            assert forall|k: int| 0 <= k < c1.entries.len() implies (#[trigger] c1.entries[k]).sequence_number
                < self.next_seq by {
                if c0.entries.len() < c0.capacity {
                    if k < c0.entries.len() {
                        assert(c1.entries[k] == c0.entries[k]);
                    }
                } else if c0.overflow == OverflowPolicy::DropOldest {
                    if k < c0.entries.len() - 1 {
                        assert(c1.entries[k] == c0.entries[k + 1]);
                    }
                } else {
                    assert(c1.entries[k] == c0.entries[k]);
                }
            }
        }
        Ok(e)
    }
}


/// Slot accounting over a whole connection: a slot is in use exactly when
/// the history, the channel or a read loan references it, and the free slots
/// and the slots in use add up to the pool's capacity.
pub proof fn lemma_connection_slots_accounted(v: ConnectionState)
    requires
        connection_wf(v),
    ensures
        v.pool.free.len() + crate::slot_pool::in_use(v.pool).len() == v.pool.refcounts.len(),
        forall|s: int|
            0 <= s < v.pool.refcounts.len() ==> (#[trigger] crate::slot_pool::in_use(v.pool).contains(s)
                <==> held(v.history, v.channel.entries, v.loans, s) > 0),
{
    crate::slot_pool::lemma_slots_accounted(v.pool);
    assert forall|s: int| 0 <= s < v.pool.refcounts.len() implies (#[trigger] crate::slot_pool::in_use(
        v.pool,
    ).contains(s) <==> held(v.history, v.channel.entries, v.loans, s) > 0) by {
        assert(v.pool.refcounts[s] as int == held(v.history, v.channel.entries, v.loans, s));
    }
}

impl Connection {
    /// Takes the oldest queued sample as a read loan, unless the subscriber
    /// already holds its maximum of loans; `None` when nothing is queued.
    pub fn receive(&mut self) -> (r: Result<Option<SampleRef>, ConnectionError>)
        requires
            old(self).wf(),
        ensures
            final(self).wf(),
            old(self)@.loans.len() >= old(self)@.max_loans ==> r == Err::<
                Option<SampleRef>,
                ConnectionError,
            >(ConnectionError::ExceedsMaxLoanedSamples) && final(self)@ == old(self)@,
            old(self)@.loans.len() < old(self)@.max_loans ==> ({
                let (c, got) = pop_spec(old(self)@.channel);
                &&& r == Ok::<Option<SampleRef>, ConnectionError>(got)
                &&& final(self)@.channel == c
                &&& final(self)@.loans == match got {
                    Some(e) => old(self)@.loans.push(e),
                    None => old(self)@.loans,
                }
                &&& final(self)@.pool == old(self)@.pool
                &&& final(self)@.history == old(self)@.history
                &&& final(self)@.payloads == old(self)@.payloads
                &&& final(self)@.next_seq == old(self)@.next_seq
            }),
    {
        if self.loans.len() >= self.max_loans {
            return Err(ConnectionError::ExceedsMaxLoanedSamples);
        }
        let ghost v = self@;
        let got = self.channel.pop();
        match got {
            Some(e) => {
                self.loans.push(e);
                proof {
                    let c1 = self@.channel.entries;
                    assert(c1 =~= v.channel.entries.remove(0));
                    assert forall|s: int| 0 <= s < v.pool.refcounts.len() implies #[trigger] v.pool.refcounts[s]
                        as int == held(v.history, c1, self@.loans, s) by {
                        lemma_occurrences_remove(v.channel.entries, 0, s);
                        lemma_occurrences_push(v.loans, e, s);
                    }
                    assert forall|k: int| 0 <= k < c1.len() implies (#[trigger] c1[k]).slot
                        < v.pool.refcounts.len() && c1[k].sequence_number < v.next_seq by {
                        assert(c1[k] == v.channel.entries[k + 1]);
                    }
                    assert forall|k: int| 0 <= k < self@.loans.len() implies (#[trigger] self@.loans[k]).slot
                        < v.pool.refcounts.len() by {
                        if k < v.loans.len() {
                            assert(self@.loans[k] == v.loans[k]);
                        }
                    }
                }
                Ok(Some(e))
            },
            None => Ok(None),
        }
    }

    /// The payload of the `i`-th read loan: what was written into its slot.
    pub fn read(&self, i: usize) -> (r: u64)
        requires
            self.wf(),
            i < self@.loans.len(),
        ensures
            r == self@.payloads[self@.loans[i as int].slot as int],
    {
        let slot = self.loans[i].slot;
        self.payloads[slot]
    }

    /// The `i`-th read loan.
    pub fn loan_at(&self, i: usize) -> (r: SampleRef)
        requires
            i < self@.loans.len(),
        ensures
            r == self@.loans[i as int],
    {
        self.loans[i]
    }

    /// Number of read loans held.
    pub fn number_of_loans(&self) -> (r: usize)
        ensures
            r == self@.loans.len(),
    {
        self.loans.len()
    }

    /// Returns the `i`-th read loan; `true` when its slot went back to the
    /// free list.
    pub fn release(&mut self, i: usize) -> (r: bool)
        requires
            old(self).wf(),
            i < old(self)@.loans.len(),
        ensures
            final(self).wf(),
            ({
                let slot = old(self)@.loans[i as int].slot as int;
                &&& final(self)@.loans == old(self)@.loans.remove(i as int)
                &&& final(self)@.pool.refcounts == old(self)@.pool.refcounts.update(
                    slot,
                    (old(self)@.pool.refcounts[slot] - 1) as u32,
                )
                &&& r == (old(self)@.pool.refcounts[slot] == 1)
                &&& final(self)@.channel == old(self)@.channel
                &&& final(self)@.history == old(self)@.history
                &&& final(self)@.payloads == old(self)@.payloads
                &&& final(self)@.next_seq == old(self)@.next_seq
            }),
    {
        let ghost v = self@;
        let e = self.loans.remove(i);
        proof {
            lemma_occurrences_member(v.loans, i as int);
            assert(v.pool.refcounts[e.slot as int] >= 1);
        }
        let freed = match self.pool.release(e.slot) {
            Ok(b) => b,
            Err(_) => false,
        };
        proof {
            let p = self@.pool;
            assert forall|s: int| 0 <= s < p.refcounts.len() implies #[trigger] p.refcounts[s] as int
                == held(v.history, v.channel.entries, self@.loans, s) by {
                lemma_occurrences_remove(v.loans, i as int, s);
            }
            assert forall|k: int| 0 <= k < self@.loans.len() implies (#[trigger] self@.loans[k]).slot
                < p.refcounts.len() by {
                if k < i {
                    assert(self@.loans[k] == v.loans[k]);
                } else {
                    assert(self@.loans[k] == v.loans[k + 1]);
                }
            }
        }
        freed
    }

    /// Number of samples the subscriber lost to overflow.
    pub fn sample_loss_count(&self) -> (r: u64)
        ensures
            r == self@.channel.lost,
    {
        self.channel.sample_loss_count()
    }

    /// Number of free slots in the publisher's pool.
    pub fn free_slots(&self) -> (r: usize)
        ensures
            r == self@.pool.free.len(),
    {
        self.pool.free_len()
    }
}

} // verus!
