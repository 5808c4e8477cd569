//! The last samples of a publisher, kept for subscribers that connect later.
use vstd::prelude::*;

use crate::channel::{
    channel_wf, lemma_push_all_without_overflow, may_follow, push_all, strictly_increasing,
    Channel, ChannelState, OverflowPolicy, SampleRef,
};

verus! {

/// The last `depth` elements of `s` (all of them when there are fewer).
pub open spec fn last_n(s: Seq<SampleRef>, depth: nat) -> Seq<SampleRef> {
    if s.len() <= depth {
        s
    } else {
        s.skip(s.len() - depth)
    }
}

/// The kept samples after recording `e`.
pub open spec fn record_spec(entries: Seq<SampleRef>, depth: nat, e: SampleRef) -> Seq<SampleRef> {
    last_n(entries.push(e), depth)
}

/// The kept samples after recording each of `samples` in turn.
pub open spec fn record_all(entries: Seq<SampleRef>, depth: nat, samples: Seq<SampleRef>) -> Seq<
    SampleRef,
>
    decreases samples.len(),
{
    if samples.len() == 0 {
        entries
    } else {
        record_spec(record_all(entries, depth, samples.drop_last()), depth, samples.last())
    }
}

/// History keeps the newest samples: after recording any samples into an
/// empty history of depth `H`, it holds the last `H` of them (all of them when
/// fewer were sent), oldest first.
pub proof fn lemma_history_keeps_last(depth: nat, samples: Seq<SampleRef>)
    ensures
        record_all(Seq::empty(), depth, samples) == last_n(samples, depth),
    decreases samples.len(),
{
    if samples.len() > 0 {
        let init = samples.drop_last();
        lemma_history_keeps_last(depth, init);
        let prev = last_n(init, depth);
        assert(last_n(prev.push(samples.last()), depth) =~= last_n(samples, depth));
    }
}

/// The ring of the newest samples of a publisher.
pub struct History {
    entries: Vec<SampleRef>,
    depth: usize,
}

impl History {
    /// The kept samples, oldest first.
    pub closed spec fn spec_entries(&self) -> Seq<SampleRef> {
        self.entries@
    }

    /// How many samples are kept at most.
    pub closed spec fn spec_depth(&self) -> nat {
        self.depth as nat
    }

    /// The invariant: at most `depth` samples, oldest first.
    pub open spec fn wf(&self) -> bool {
        &&& self.spec_entries().len() <= self.spec_depth()
        &&& strictly_increasing(self.spec_entries())
    }

    /// An empty history of the given depth.
    pub fn new(depth: usize) -> (r: Self)
        ensures
            r.wf(),
            r.spec_entries().len() == 0,
            r.spec_depth() == depth,
    {
        History { entries: Vec::new(), depth }
    }

    /// Records `e`, which is newer than every kept sample. Returns the sample
    /// that no longer fits, whose slot reference has to be released; with
    /// depth zero that is `e` itself.
    pub fn record(&mut self, e: SampleRef) -> (r: Option<SampleRef>)
        requires
            old(self).wf(),
            may_follow(old(self).spec_entries(), e),
        ensures
            final(self).wf(),
            final(self).spec_depth() == old(self).spec_depth(),
            final(self).spec_entries() == record_spec(
                old(self).spec_entries(),
                old(self).spec_depth(),
                e,
            ),
            old(self).spec_entries().len() < old(self).spec_depth() ==> r is None,
            old(self).spec_depth() == 0 ==> r == Some(e),
            0 < old(self).spec_depth() <= old(self).spec_entries().len() ==> r == Some(
                old(self).spec_entries()[0],
            ),
    {
        let ghost v = self.entries@;
        if self.depth == 0 {
            assert(v.len() == 0);
            assert(v.push(e).skip(1) =~= v);
            return Some(e);
        }
        if self.entries.len() < self.depth {
            self.entries.push(e);
            return None;
        }
        let oldest = self.entries.remove(0);
        self.entries.push(e);
        assert(self.entries@ =~= v.push(e).skip(v.push(e).len() - self.depth));
        Some(oldest)
    }

    /// The kept samples, oldest first.
    pub fn entries(&self) -> (r: &Vec<SampleRef>)
        ensures
            r@ == self.spec_entries(),
    {
        &self.entries
    }
}

/// An empty channel state.
pub open spec fn empty_channel(capacity: nat, overflow: OverflowPolicy) -> ChannelState {
    ChannelState { entries: Seq::empty(), capacity, overflow, lost: 0 }
}

impl Channel {
    /// The channel of a newly connected subscriber: the publisher's history
    /// is enqueued first, oldest first, under the usual overflow policy.
    pub fn with_history(capacity: usize, overflow: OverflowPolicy, history: &History) -> (r: Self)
        requires
            capacity > 0,
            history.wf(),
        ensures
            r.wf(),
            r@ == push_all(empty_channel(capacity as nat, overflow), history.spec_entries()),
            history.spec_entries().len() <= capacity ==> r@.entries == history.spec_entries()
                && r@.lost == 0,
    {
        let mut c = Channel::new(capacity, overflow);
        let entries = history.entries();
        let ghost h = entries@;
        assert(c@.entries =~= Seq::<SampleRef>::empty());
        assert(c@ == empty_channel(capacity as nat, overflow));
        let mut i: usize = 0;
        while i < entries.len()
            invariant
                i <= h.len(),
                h == entries@,
                strictly_increasing(h),
                h.len() <= usize::MAX,
                c.wf(),
                c@ == push_all(empty_channel(capacity as nat, overflow), h.subrange(0, i as int)),
                c@.lost <= i,
                forall|k: int| 0 <= k < c@.entries.len() ==> exists|m: int| 0 <= m < i && #[trigger] c@.entries[k] == h[m],
            decreases h.len() - i,
        {
            assert(h.subrange(0, i + 1 as int).drop_last() =~= h.subrange(0, i as int));
            let e = entries[i];
            assert(may_follow(c@.entries, e)) by {
                assert forall|k: int| 0 <= k < c@.entries.len() implies #[trigger] c@.entries[k].sequence_number < e.sequence_number by {
                    let m = choose|m: int| 0 <= m < i && c@.entries[k] == h[m];
                    assert(h[m].sequence_number < h[i as int].sequence_number);
                }
            }
            let ghost before = c@;
            let _ = c.push(e);
            proof {
                assert forall|k: int| 0 <= k < c@.entries.len() implies exists|m: int| 0 <= m < i + 1 && #[trigger] c@.entries[k] == h[m] by {
                    if before.entries.len() < before.capacity {
                        if k < before.entries.len() {
                            assert(c@.entries[k] == before.entries[k]);
                        } else {
                            assert(c@.entries[k] == h[i as int]);
                        }
                    } else if before.overflow == OverflowPolicy::DropOldest {
                        if k < before.entries.len() - 1 {
                            assert(c@.entries[k] == before.entries[k + 1]);
                        } else {
                            assert(c@.entries[k] == h[i as int]);
                        }
                    } else {
                        assert(c@.entries[k] == before.entries[k]);
                    }
                }
            }
            i = i + 1;
        }
        assert(h.subrange(0, h.len() as int) =~= h);
        proof {
            if h.len() <= capacity {
                lemma_push_all_without_overflow(empty_channel(capacity as nat, overflow), h);
                assert(Seq::<SampleRef>::empty() + h =~= h);
            }
        }
        c
    }
}

} // verus!
