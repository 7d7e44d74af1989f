use vstd::prelude::*;
use crate::types::ShippingEventIndex;

verus! {

/// What the notification worker does next.
#[derive(Clone, Copy, Debug, PartialEq, Eq, Structural)]
pub enum WorkerAction {
    /// Hand a description of the event under this index to the listener.
    Deliver(ShippingEventIndex),
    /// Submit the privileged instruction that clears the whole queue.
    SubmitClear,
    /// The pass is over.
    Done,
}

/// One pass of the notification worker over a snapshot of the queue: every
/// queued index is offered to the listener once, in order, and then one
/// clearing instruction is submitted. How a delivery went has no bearing on
/// what follows it.
pub struct NotificationPass {
    items: Vec<ShippingEventIndex>,
    next: usize,
    clear_submitted: bool,
}

impl NotificationPass {
    /// The snapshot that the pass works through.
    pub closed spec fn items(&self) -> Seq<ShippingEventIndex> {
        self.items@
    }

    /// How many items have been handed out.
    pub closed spec fn position(&self) -> nat {
        self.next as nat
    }

    /// Whether the clearing instruction has been handed out.
    pub closed spec fn clear_submitted(&self) -> bool {
        self.clear_submitted
    }

    pub closed spec fn wf(&self) -> bool {
        &&& self.next <= self.items@.len()
        &&& self.clear_submitted ==> self.next == self.items@.len()
    }

    /// Starts a pass over `snapshot`, the queued indices in queue order.
    pub fn new(snapshot: Vec<ShippingEventIndex>) -> (r: Self)
        ensures
            r.wf(),
            r.items() == snapshot@,
            r.position() == 0,
            !r.clear_submitted(),
    {
        NotificationPass { items: snapshot, next: 0, clear_submitted: false }
    }

    /// The next action of the pass: each item in turn, then the clearing
    /// instruction once, then nothing more.
    pub fn step(&mut self) -> (r: WorkerAction)
        requires
            old(self).wf(),
        ensures
            final(self).wf(),
            final(self).items() == old(self).items(),
            old(self).position() < old(self).items().len() ==> {
                &&& r == WorkerAction::Deliver(old(self).items()[old(self).position() as int])
                &&& final(self).position() == old(self).position() + 1
                &&& !final(self).clear_submitted()
            },
            old(self).position() == old(self).items().len() && !old(self).clear_submitted() ==> {
                &&& r == WorkerAction::SubmitClear
                &&& final(self).position() == old(self).position()
                &&& final(self).clear_submitted()
            },
            old(self).clear_submitted() ==> r == WorkerAction::Done && *final(self) == *old(self),
    {
        if self.next < self.items.len() {
            let idx = self.items[self.next];
            self.next = self.next + 1;
            WorkerAction::Deliver(idx)
        } else if !self.clear_submitted {
            self.clear_submitted = true;
            WorkerAction::SubmitClear
        } else {
            WorkerAction::Done
        }
    }
}

} // verus!
