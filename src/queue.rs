use vstd::prelude::*;
use crate::types::{BlockNumber, ShippingEventIndex};

verus! {

/// The indices held by a list of buckets, bucket after bucket.
pub open spec fn flatten(b: Seq<(BlockNumber, Seq<ShippingEventIndex>)>) -> Seq<ShippingEventIndex>
    decreases b.len(),
{
    if b.len() == 0 {
        Seq::empty()
    } else {
        flatten(b.drop_last()) + b.last().1
    }
}

/// The bucket of epoch `e`, empty where there is none.
pub open spec fn bucket_of(b: Seq<(BlockNumber, Seq<ShippingEventIndex>)>, e: BlockNumber) -> Seq<
    ShippingEventIndex,
>
    decreases b.len(),
{
    if b.len() == 0 {
        Seq::empty()
    } else if b.last().0 == e {
        b.last().1
    } else {
        bucket_of(b.drop_last(), e)
    }
}

/// The buckets after `idx` is queued in epoch `e`: the last bucket grows
/// where it is of epoch `e`, else a new bucket follows it.
pub open spec fn queue_pushed(
    b: Seq<(BlockNumber, Seq<ShippingEventIndex>)>,
    e: BlockNumber,
    idx: ShippingEventIndex,
) -> Seq<(BlockNumber, Seq<ShippingEventIndex>)> {
    if b.len() > 0 && b.last().0 == e {
        b.drop_last().push((e, b.last().1.push(idx)))
    } else {
        b.push((e, seq![idx]))
    }
}

/// Event indices waiting to be handed to the external listener, bucketed by
/// the epoch in which they were recorded. Buckets are kept in increasing
/// order of epoch, one per epoch.
pub struct NotificationQueue {
    buckets: Vec<(BlockNumber, Vec<ShippingEventIndex>)>,
}

impl View for NotificationQueue {
    type V = Seq<(BlockNumber, Seq<ShippingEventIndex>)>;

    closed spec fn view(&self) -> Seq<(BlockNumber, Seq<ShippingEventIndex>)> {
        self.buckets@.map_values(|e: (BlockNumber, Vec<ShippingEventIndex>)| (e.0, e.1@))
    }
}

impl NotificationQueue {
    pub closed spec fn wf(&self) -> bool {
        forall|i: int, j: int|
            0 <= i < j < self.buckets@.len() ==> #[trigger] self.buckets@[i].0
                < #[trigger] self.buckets@[j].0
    }

    /// Every index queued, in the order of the buckets.
    pub open spec fn pending(&self) -> Seq<ShippingEventIndex> {
        flatten(self@)
    }

    pub fn new() -> (r: Self)
        ensures
            r.wf(),
            r@ == Seq::<(BlockNumber, Seq<ShippingEventIndex>)>::empty(),
    {
        let r = NotificationQueue { buckets: Vec::new() };
        assert(r@ =~= Seq::<(BlockNumber, Seq<ShippingEventIndex>)>::empty());
        r
    }

    /// Queues `idx` in the bucket of `epoch`, which is no earlier than any
    /// bucket already queued.
    pub fn push(&mut self, epoch: BlockNumber, idx: ShippingEventIndex)
        requires
            old(self).wf(),
            old(self)@.len() == 0 || old(self)@.last().0 <= epoch,
        ensures
            final(self).wf(),
            final(self)@.len() > 0,
            final(self)@.last().0 == epoch,
            final(self)@ == queue_pushed(old(self)@, epoch, idx),
            final(self).pending() == old(self).pending().push(idx),
    {
        let n = self.buckets.len();
        if n > 0 && self.buckets[n - 1].0 == epoch {
            self.buckets[n - 1].1.push(idx);
            assert(self@ =~= old(self)@.drop_last().push((epoch, old(self)@.last().1.push(idx))));
            assert(self@.drop_last() =~= old(self)@.drop_last());
        } else {
            let mut v: Vec<ShippingEventIndex> = Vec::new();
            v.push(idx);
            self.buckets.push((epoch, v));
            assert(self@ =~= old(self)@.push((epoch, seq![idx])));
            assert(self@.drop_last() =~= old(self)@);
            assert(flatten(old(self)@) + seq![idx] =~= flatten(old(self)@).push(idx));
        }
    }

    /// Empties every bucket.
    pub fn clear(&mut self)
        ensures
            final(self).wf(),
            final(self)@ == Seq::<(BlockNumber, Seq<ShippingEventIndex>)>::empty(),
    {
        self.buckets = Vec::new();
        assert(self@ =~= Seq::<(BlockNumber, Seq<ShippingEventIndex>)>::empty());
    }

    /// The indices queued in the bucket of `epoch`.
    pub fn bucket(&self, epoch: BlockNumber) -> (r: Vec<ShippingEventIndex>)
        requires
            self.wf(),
        ensures
            r@ == bucket_of(self@, epoch),
    {
        let mut i: usize = self.buckets.len();
        assert(self@.subrange(0, i as int) =~= self@);
        while i > 0
            invariant
                0 <= i <= self.buckets@.len(),
                bucket_of(self@, epoch) == bucket_of(self@.subrange(0, i as int), epoch),
            decreases i,
        {
            assert(self@.subrange(0, i as int).drop_last() =~= self@.subrange(0, i - 1));
            if self.buckets[i - 1].0 == epoch {
                let r = self.buckets[i - 1].1.clone();
                assert(r@ =~= self.buckets@[i - 1].1@);
                return r;
            }
            i = i - 1;
        }
        Vec::new()
    }

    /// Every index queued, in the order of the buckets.
    pub fn all_pending(&self) -> (r: Vec<ShippingEventIndex>)
        ensures
            r@ == self.pending(),
    {
        let mut r: Vec<ShippingEventIndex> = Vec::new();
        let mut i: usize = 0;
        while i < self.buckets.len()
            invariant
                0 <= i <= self.buckets@.len(),
                r@ == flatten(self@.subrange(0, i as int)),
            decreases self.buckets@.len() - i,
        {
            let ghost before = r@;
            assert(self@.subrange(0, i + 1).drop_last() =~= self@.subrange(0, i as int));
            let list = &self.buckets[i].1;
            let mut j: usize = 0;
            while j < list.len()
                invariant
                    0 <= j <= list@.len(),
                    r@ == before + list@.subrange(0, j as int),
                decreases list@.len() - j,
            {
                r.push(list[j]);
                j = j + 1;
                assert(before + list@.subrange(0, j as int) =~= (before + list@.subrange(0, j - 1)).push(
                    list@[j - 1],
                ));
            }
            assert(list@.subrange(0, j as int) =~= list@);
            i = i + 1;
        }
        assert(self@.subrange(0, i as int) =~= self@);
        r
    }
}

} // verus!
