use vstd::prelude::*;
use std::collections::HashMap;

verus! {

broadcast use vstd::std_specs::hash::group_hash_axioms;

/// The references that this layer holds on each foreign device identity: for each
/// identity, how many live device references name it. The foreign stack's count for
/// the identity moves by exactly the same steps.
pub struct RefCounts {
    counts: HashMap<u64, u64>,
}

impl View for RefCounts {
    type V = Map<u64, u64>;

    closed spec fn view(&self) -> Map<u64, u64> {
        self.counts@
    }
}

impl RefCounts {
    /// How many live references name identity `id`.
    pub open spec fn live(&self, id: u64) -> nat {
        if self@.contains_key(id) {
            self@[id] as nat
        } else {
            0
        }
    }

    /// A ledger holding no reference.
    pub fn new() -> (r: RefCounts)
        ensures
            forall|id: u64| r.live(id) == 0,
    {
        RefCounts { counts: HashMap::new() }
    }

    /// How many live references name identity `id`.
    pub fn count(&self, id: u64) -> (r: u64)
        ensures
            r == self.live(id),
    {
        match self.counts.get(&id) {
            Some(c) => *c,
            None => 0,
        }
    }

    /// Records one more live reference to `id`.
    pub(crate) fn acquire(&mut self, id: u64)
        requires
            old(self).live(id) < u64::MAX,
        ensures
            constructs(*old(self), *final(self), id),
    {
        let c = self.count(id);
        self.counts.insert(id, c + 1);
    }

    /// Records that one live reference to `id` has ended.
    pub(crate) fn release(&mut self, id: u64)
        requires
            old(self).live(id) > 0,
        ensures
            destroys(*old(self), *final(self), id),
    {
        let c = self.count(id);
        self.counts.insert(id, c - 1);
    }
}

/// `after` is `before` with one more live reference to `id`, and no other change.
pub open spec fn constructs(before: RefCounts, after: RefCounts, id: u64) -> bool {
    forall|j: u64| #[trigger]
        after.live(j) == before.live(j) + (if j == id {
            1int
        } else {
            0int
        })
}

/// `after` is `before` with one live reference to `id` fewer, and no other change.
pub open spec fn destroys(before: RefCounts, after: RefCounts, id: u64) -> bool {
    forall|j: u64| #[trigger]
        after.live(j) + (if j == id {
            1int
        } else {
            0int
        }) == before.live(j)
}

/// One step in the life of device references: a reference to an identity was
/// constructed, or one was destroyed.
#[derive(Debug, Clone, Copy, PartialEq, Eq, Structural)]
pub enum RefEvent {
    Constructed(u64),
    Destroyed(u64),
}

/// The ledger moved from `before` to `after` by event `e`.
pub open spec fn steps(before: RefCounts, after: RefCounts, e: RefEvent) -> bool {
    match e {
        RefEvent::Constructed(id) => constructs(before, after, id),
        RefEvent::Destroyed(id) => destroys(before, after, id),
    }
}

/// How many references to `id` the events construct.
pub open spec fn constructed_count(events: Seq<RefEvent>, id: u64) -> int
    decreases events.len(),
{
    if events.len() == 0 {
        0
    } else {
        constructed_count(events.drop_last(), id) + if events.last() == RefEvent::Constructed(id) {
            1int
        } else {
            0int
        }
    }
}

/// How many references to `id` the events destroy.
pub open spec fn destroyed_count(events: Seq<RefEvent>, id: u64) -> int
    decreases events.len(),
{
    if events.len() == 0 {
        0
    } else {
        destroyed_count(events.drop_last(), id) + if events.last() == RefEvent::Destroyed(id) {
            1int
        } else {
            0int
        }
    }
}

/// Over any run of constructions and destructions of device references, the count held
/// on an identity moves by exactly the number of references to it constructed, less the
/// number destroyed. `states[i + 1]` is the ledger after `events[i]`.
pub proof fn lemma_net_count(states: Seq<RefCounts>, events: Seq<RefEvent>, id: u64)
    requires
        states.len() == events.len() + 1,
        forall|i: int|
            0 <= i < events.len() ==> #[trigger] steps(states[i], states[i + 1], events[i]),
    ensures
        states.last().live(id) == states[0].live(id) + constructed_count(events, id)
            - destroyed_count(events, id),
    decreases events.len(),
{
    if events.len() > 0 {
        let n = events.len() - 1;
        assert(steps(states[n], states[n + 1], events[n]));
        lemma_net_count(states.drop_last(), events.drop_last(), id);
        assert(states.drop_last().last() == states[n]);
        match events[n] {
            RefEvent::Constructed(k) => {
                assert(states[n + 1].live(id) == states[n].live(id) + (if id == k {
                    1int
                } else {
                    0int
                }));
            },
            RefEvent::Destroyed(k) => {
                assert(states[n + 1].live(id) + (if id == k {
                    1int
                } else {
                    0int
                }) == states[n].live(id));
            },
        }
    }
}

} // verus!
