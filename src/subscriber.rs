//! The receiving side: one channel per connected publisher, drained in
//! round-robin order.
use vstd::prelude::*;

use crate::channel::{
    channel_wf, may_follow, pop_spec, push_spec, Channel, ChannelState, PushOutcome, SampleRef,
};

verus! {

/// The abstract state of a subscriber.
pub struct SubscriberState {
    pub channels: Seq<ChannelState>,
    pub next: nat,
}

/// The index `k` places after `next`, wrapping around `n` channels.
pub open spec fn wrap(next: nat, k: nat, n: nat) -> nat {
    if next + k < n {
        next + k
    } else {
        (next + k - n) as nat
    }
}

/// The first channel, scanning from `next + k` on in round-robin order, that
/// holds a sample.
pub open spec fn scan(chs: Seq<ChannelState>, next: nat, k: nat) -> Option<nat>
    decreases chs.len() - k,
{
    if k >= chs.len() {
        None
    } else if chs[wrap(next, k, chs.len()) as int].entries.len() > 0 {
        Some(wrap(next, k, chs.len()))
    } else {
        scan(chs, next, k + 1)
    }
}

/// The state after a receive, and what was received: the oldest sample of
/// the first non-empty channel from `next` on, with that channel's index;
/// the scan then goes on after that channel.
pub open spec fn receive_spec(v: SubscriberState) -> (SubscriberState, Option<(usize, SampleRef)>) {
    match scan(v.channels, v.next, 0) {
        None => (v, None),
        Some(i) => {
            let (c, r) = pop_spec(v.channels[i as int]);
            (
                SubscriberState {
                    channels: v.channels.update(i as int, c),
                    next: if i + 1 < v.channels.len() {
                        (i + 1) as nat
                    } else {
                        0
                    },
                },
                Some((i as usize, r->Some_0)),
            )
        },
    }
}

/// A subscriber port with the channels of its publishers.
pub struct Subscriber {
    channels: Vec<Channel>,
    next: usize,
}

impl View for Subscriber {
    type V = SubscriberState;

    closed spec fn view(&self) -> SubscriberState {
        SubscriberState { channels: self.channels@.map_values(|c: Channel| c@), next: self.next as nat }
    }
}

impl Subscriber {
    /// The invariant: every channel well-formed, the scan start in range.
    pub open spec fn wf(&self) -> bool {
        &&& forall|i: int| 0 <= i < self@.channels.len() ==> channel_wf(#[trigger] self@.channels[i])
        &&& self@.next == 0 || self@.next < self@.channels.len()
    }

    /// A subscriber without publishers.
    pub fn new() -> (r: Self)
        ensures
            r.wf(),
            r@.channels.len() == 0,
            r@.next == 0,
    {
        let r = Subscriber { channels: Vec::new(), next: 0 };
        assert(r@.channels =~= Seq::<ChannelState>::empty());
        r
    }

    /// Connects a publisher through `channel`; returns its index.
    pub fn connect(&mut self, channel: Channel) -> (r: usize)
        requires
            old(self).wf(),
            channel.wf(),
            old(self)@.channels.len() < usize::MAX,
        ensures
            final(self).wf(),
            r == old(self)@.channels.len(),
            final(self)@.channels == old(self)@.channels.push(channel@),
            final(self)@.next == old(self)@.next,
    {
        let r = self.channels.len();
        let ghost before = self.channels@;
        self.channels.push(channel);
        assert(self@.channels =~= before.map_values(|c: Channel| c@).push(channel@));
        r
    }

    /// Delivers `e` from publisher `publisher` into its channel.
    pub fn deliver(&mut self, publisher: usize, e: SampleRef) -> (r: PushOutcome)
        requires
            old(self).wf(),
            publisher < old(self)@.channels.len(),
            may_follow(old(self)@.channels[publisher as int].entries, e),
        ensures
            final(self).wf(),
            final(self)@.next == old(self)@.next,
            final(self)@.channels == old(self)@.channels.update(
                publisher as int,
                push_spec(old(self)@.channels[publisher as int], e).0,
            ),
            r == push_spec(old(self)@.channels[publisher as int], e).1,
    {
        let ghost before = self.channels@;
        assert(channel_wf(self@.channels[publisher as int]));
        let mut c = self.channels.remove(publisher);
        let r = c.push(e);
        self.channels.insert(publisher, c);
        assert(self@.channels =~= before.map_values(|c: Channel| c@).update(publisher as int, c@));
        r
    }

    /// Receives the next sample in round-robin order over the publishers, or
    /// `None` when every channel is empty.
    pub fn receive(&mut self) -> (r: Option<(usize, SampleRef)>)
        requires
            old(self).wf(),
        ensures
            final(self).wf(),
            (final(self)@, r) == receive_spec(old(self)@),
    {
        let n = self.channels.len();
        let ghost v = self@;
        let mut k: usize = 0;
        while k < n
            invariant
                n == self@.channels.len(),
                self@ == v,
                v == old(self)@,
                self.wf(),
                k <= n,
                scan(v.channels, v.next, 0) == scan(v.channels, v.next, k as nat),
            decreases n - k,
        {
            let i = if k < n - self.next {
                self.next + k
            } else {
                k - (n - self.next)
            };
            assert(i == wrap(v.next, k as nat, n as nat));
            if self.channels[i].len() > 0 {
                assert(scan(v.channels, v.next, k as nat) == Some(i as nat));
                assert(channel_wf(v.channels[i as int]));
                let mut c = self.channels.remove(i);
                assert(c@ == v.channels[i as int]);
                let e = c.pop();
                assert((c@, e) == pop_spec(v.channels[i as int]));
                self.channels.insert(i, c);
                assert(self@.channels =~= v.channels.update(i as int, c@));
                assert(e is Some);
                self.next = if i + 1 < n {
                    i + 1
                } else {
                    0
                };
                return Some((i, e.unwrap()));
            }
            k = k + 1;
        }
        None
    }

    /// Number of connected publishers.
    pub fn number_of_publishers(&self) -> (r: usize)
        ensures
            r == self@.channels.len(),
    {
        self.channels.len()
    }
}

} // verus!
