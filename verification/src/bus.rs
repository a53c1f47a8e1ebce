//! The broadcast bus behind turn notifications and eviction notices:
//! every subscriber live at publish time receives the event; a subscriber
//! that joins later does not see earlier events.
use vstd::prelude::*;

verus! {

/// A broadcast bus with one pending-event queue per subscriber.
#[derive(Debug)]
pub struct Bus<T> {
    pub queues: Vec<Vec<T>>,
}

/// The pending events of every subscriber, oldest first.
pub open spec fn queue_views<T>(queues: Seq<Vec<T>>) -> Seq<Seq<T>> {
    Seq::new(queues.len(), |i: int| queues[i]@)
}

/// Every subscriber's queue with one more event at its tail: what a
/// publish does.
pub open spec fn publish_queues<T>(queues: Seq<Seq<T>>, event: T) -> Seq<Seq<T>> {
    Seq::new(queues.len(), |i: int| queues[i].push(event))
}

impl<T: Copy> Bus<T> {
    /// A bus with no subscribers.
    pub fn new() -> (r: Bus<T>)
        ensures
            r.queues@.len() == 0,
    {
        Bus { queues: Vec::new() }
    }

    /// Subscribes: the returned handle will observe every event published
    /// after this call, and none published before.
    pub fn subscribe(&mut self) -> (handle: usize)
        ensures
            handle == old(self).queues@.len(),
            final(self).queues@.len() == old(self).queues@.len() + 1,
            queue_views(final(self).queues@) == queue_views(old(self).queues@).push(
                Seq::<T>::empty(),
            ),
    {
        let handle = self.queues.len();
        self.queues.push(Vec::new());
        proof {
            assert(queue_views(self.queues@) =~= queue_views(old(self).queues@).push(
                Seq::<T>::empty(),
            ));
        }
        handle
    }

    /// Publishes an event to every live subscriber.
    pub fn publish(&mut self, event: T)
        ensures
            final(self).queues@.len() == old(self).queues@.len(),
            queue_views(final(self).queues@) == publish_queues(queue_views(old(self).queues@), event),
    {
        let mut i: usize = 0;
        while i < self.queues.len()
            invariant
                0 <= i <= self.queues@.len(),
                self.queues@.len() == old(self).queues@.len(),
                forall|j: int|
                    0 <= j < i ==> self.queues@[j]@ == old(self).queues@[j]@.push(event),
                forall|j: int| i <= j < self.queues@.len() ==> self.queues@[j] == old(
                    self,
                ).queues@[j],
            decreases self.queues@.len() - i,
        {
            let mut queue = self.queues.remove(i);
            queue.push(event);
            self.queues.insert(i, queue);
            i = i + 1;
        }
        proof {
            assert(queue_views(self.queues@) =~= publish_queues(
                queue_views(old(self).queues@),
                event,
            ));
        }
    }

    /// Takes the oldest pending event of one subscriber, if any.
    pub fn recv(&mut self, handle: usize) -> (r: Option<T>)
        requires
            handle < old(self).queues@.len(),
        ensures
            final(self).queues@.len() == old(self).queues@.len(),
            forall|j: int|
                0 <= j < old(self).queues@.len() && j != handle ==> final(self).queues@[j] == old(
                    self,
                ).queues@[j],
            match r {
                Some(e) => old(self).queues@[handle as int]@.len() > 0 && e == old(
                    self,
                ).queues@[handle as int]@[0] && final(self).queues@[handle as int]@ == old(
                    self,
                ).queues@[handle as int]@.drop_first(),
                None => old(self).queues@[handle as int]@.len() == 0 && final(self).queues@[handle
                    as int] == old(self).queues@[handle as int],
            },
    {
        let mut queue = self.queues.remove(handle);
        if queue.len() == 0 {
            self.queues.insert(handle, queue);
            proof {
                assert(self.queues@ =~= old(self).queues@);
            }
            return None;
        }
        let event = queue.remove(0);
        self.queues.insert(handle, queue);
        proof {
            assert(self.queues@[handle as int]@ =~= old(self).queues@[handle as int]@.drop_first());
        }
        Some(event)
    }
}

/// A turn-event waiter resumes exactly on the color it waits for.
pub open spec fn wakes(want: crate::pieces::Color, event: crate::pieces::Color) -> bool {
    event == want
}

/// Turn handoff wakes exactly the right waiter: when two caught-up
/// subscribers wait for different colors, publishing one color hands each
/// of them exactly one event, and only the subscriber waiting for that
/// color is woken by it.
pub proof fn lemma_turn_handoff(
    queues: Seq<Seq<crate::pieces::Color>>,
    h1: int,
    h2: int,
    x: crate::pieces::Color,
    y: crate::pieces::Color,
)
    requires
        0 <= h1 < queues.len(),
        0 <= h2 < queues.len(),
        h1 != h2,
        y != x,
        queues[h1] == Seq::<crate::pieces::Color>::empty(),
        queues[h2] == Seq::<crate::pieces::Color>::empty(),
    ensures
        publish_queues(queues, x)[h1] == seq![x],
        publish_queues(queues, x)[h2] == seq![x],
        wakes(x, publish_queues(queues, x)[h1][0]),
        !wakes(y, publish_queues(queues, x)[h2][0]),
        publish_queues(queues, x)[h1].len() == 1,
{
    assert(publish_queues(queues, x)[h1] =~= seq![x]);
    assert(publish_queues(queues, x)[h2] =~= seq![x]);
}

} // verus!
