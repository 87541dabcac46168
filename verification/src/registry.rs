//! Who wants to hear of which component: the subscriptions, in the order
//! in which they were registered.

use vstd::prelude::*;
use crate::descriptor::NodeId;

verus! {

/// The handle of one subscription, by which it can be taken back.
#[derive(Clone, Copy, Debug, PartialEq, Eq, Structural, Hash)]
pub struct SubscriptionId(pub u64);

/// One registered interest: `callback` is to hear of every value that
/// `node` settles on.
pub struct Subscription<S> {
    pub id: SubscriptionId,
    pub node: NodeId,
    pub callback: S,
}

/// Some subscription among `es` carries the handle `id`.
pub open spec fn holds<S>(es: Seq<Subscription<S>>, id: SubscriptionId) -> bool {
    exists|i: int| 0 <= i < es.len() && (#[trigger] es[i]).id == id
}

/// Where the subscription with handle `id` stands among `es`.
pub open spec fn place<S>(es: Seq<Subscription<S>>, id: SubscriptionId) -> int {
    choose|i: int| 0 <= i < es.len() && (#[trigger] es[i]).id == id
}

/// The subscriptions `es` without the one that carries the handle `id`.
pub open spec fn without<S>(es: Seq<Subscription<S>>, id: SubscriptionId) -> Seq<Subscription<S>> {
    if holds(es, id) {
        es.remove(place(es, id))
    } else {
        es
    }
}

/// The subscriptions of one graph.
pub struct SubscriptionRegistry<S> {
    entries: Vec<Subscription<S>>,
    issued: u64,
}

impl<S> View for SubscriptionRegistry<S> {
    type V = Seq<Subscription<S>>;

    /// The subscriptions in registration order.
    closed spec fn view(&self) -> Seq<Subscription<S>> {
        self.entries@
    }
}

impl<S> SubscriptionRegistry<S> {
    /// How many handles have been given out so far.
    pub closed spec fn issued(&self) -> nat {
        self.issued as nat
    }

    /// Handles are given out in ascending order and never twice.
    pub open spec fn wf(&self) -> bool {
        &&& forall|i: int| 0 <= i < self@.len() ==> (#[trigger] self@[i]).id.0 < self.issued()
        &&& forall|i: int, j: int|
            0 <= i < j < self@.len() ==> (#[trigger] self@[i]).id.0 < (#[trigger] self@[j]).id.0
    }

    /// The registry without subscriptions.
    pub fn new() -> (r: Self)
        ensures
            r.wf(),
            r@.len() == 0,
            r.issued() == 0,
    {
        SubscriptionRegistry { entries: Vec::new(), issued: 0 }
    }

    /// The number of subscriptions.
    pub fn len(&self) -> (n: usize)
        ensures
            n == self@.len(),
    {
        self.entries.len()
    }

    /// The subscriptions in registration order.
    pub fn entries(&self) -> (r: &Vec<Subscription<S>>)
        ensures
            r@ == self@,
    {
        &self.entries
    }

    /// Registers `callback` for the values of `node`, behind all earlier
    /// subscriptions, and returns its handle.
    pub fn subscribe(&mut self, node: NodeId, callback: S) -> (id: SubscriptionId)
        requires
            old(self).wf(),
            old(self).issued() < u64::MAX,
        ensures
            final(self).wf(),
            id.0 == old(self).issued(),
            final(self).issued() == old(self).issued() + 1,
            final(self)@ == old(self)@.push((Subscription { id, node, callback })),
    {
        let id = SubscriptionId(self.issued);
        let ghost before = self.entries@;
        self.issued = self.issued + 1;
        self.entries.push(Subscription { id, node, callback });
        proof {
            assert(before == old(self)@);
        }
        id
    }

    /// Takes the subscription with handle `id` back. Where there is none,
    /// nothing changes.
    pub fn unsubscribe(&mut self, id: SubscriptionId) -> (removed: bool)
        requires
            old(self).wf(),
        ensures
            final(self).wf(),
            final(self).issued() == old(self).issued(),
            removed <==> holds(old(self)@, id),
            final(self)@ == without(old(self)@, id),
            !holds(final(self)@, id),
    {
        let mut i: usize = 0;
        while i < self.entries.len()
            invariant
                *self == *old(self),
                self.wf(),
                i <= self.entries@.len(),
                forall|j: int| 0 <= j < i ==> (#[trigger] self.entries@[j]).id != id,
            decreases self.entries@.len() - i,
        {
            if self.entries[i].id == id {
                let ghost before = self.entries@;
                proof {
                    assert(before == self@);
                }
                let _ = self.entries.remove(i);
                return true;
            }
            i = i + 1;
        }
        false
    }
}

} // verus!
