use vstd::prelude::*;
use crate::error::Error;
use crate::ledger::{indices_of, Module};
use crate::origin::Origin;
use crate::queue::flatten;
use crate::types::{
    valid_identifier, BlockNumber, ShipmentView, ShippingEvent, ShippingEventIndex,
    IDENTIFIER_MAX_LENGTH, SHIPMENT_MAX_PRODUCTS,
};

verus! {

/// An identifier of 0 or of `IDENTIFIER_MAX_LENGTH + 1` bytes fails
/// validation; one of 1 or of `IDENTIFIER_MAX_LENGTH` bytes passes it.
pub proof fn lemma_identifier_length_bounds(id: Seq<u8>)
    ensures
        id.len() == 0 ==> !valid_identifier(id),
        id.len() == IDENTIFIER_MAX_LENGTH + 1 ==> !valid_identifier(id),
        id.len() == 1 ==> valid_identifier(id),
        id.len() == IDENTIFIER_MAX_LENGTH ==> valid_identifier(id),
{
}

/// A signed registration of a new, well-formed identifier is refused with
/// `SHIPMENT_MAX_PRODUCTS + 1` product references and accepted with
/// `SHIPMENT_MAX_PRODUCTS`.
pub proof fn lemma_product_limit(m: Module, origin: Origin, id: Seq<u8>)
    requires
        origin is Signed,
        valid_identifier(id),
        !m.shipments_view().contains_key(id),
    ensures
        m.register_verdict(origin, id, SHIPMENT_MAX_PRODUCTS + 1) == Err::<(), Error>(
            Error::ShipmentHasTooManyProducts,
        ),
        m.register_verdict(origin, id, SHIPMENT_MAX_PRODUCTS as int) == Ok::<(), Error>(()),
{
}

/// Once a registration of `id` has taken `before` to `after`, a second
/// signed registration of `id` with an accepted product list fails with the
/// existence error (and, being refused, changes nothing).
pub proof fn lemma_register_twice(
    before: Module,
    after: Module,
    first_origin: Origin,
    first_products: int,
    id: Seq<u8>,
    rec: ShipmentView,
    origin: Origin,
    n_products: int,
)
    requires
        before.register_verdict(first_origin, id, first_products) == Ok::<(), Error>(()),
        after.shipments_view() == before.shipments_view().insert(id, rec),
        origin is Signed,
        n_products <= SHIPMENT_MAX_PRODUCTS,
    ensures
        after.register_verdict(origin, id, n_products) == Err::<(), Error>(
            Error::ShipmentAlreadyExists,
        ),
{
}

/// Successive successful writes to the log, starting from an empty log,
/// are assigned the indices 1, 2, 3, ... with no gap and no repeat, and the
/// log then holds the events written, the `k`-th under index `k`. Each write
/// is described as `store_event` describes it: it returns one more than the
/// count before it, which becomes the count, and appends its event.
pub proof fn lemma_indices_consecutive(
    states: Seq<Module>,
    events: Seq<ShippingEvent>,
    idxs: Seq<ShippingEventIndex>,
)
    requires
        states.len() == idxs.len() + 1,
        events.len() == idxs.len(),
        states[0].spec_event_count() == 0,
        states[0].log() == Seq::<ShippingEvent>::empty(),
        forall|i: int|
            0 <= i < idxs.len() ==> #[trigger] idxs[i] == states[i].spec_event_count() + 1
                && states[i + 1].spec_event_count() == idxs[i] && states[i + 1].log()
                == states[i].log().push(events[i]),
    ensures
        forall|i: int| 0 <= i < idxs.len() ==> #[trigger] idxs[i] == i + 1,
        states.last().spec_event_count() == idxs.len(),
        states.last().log() == events,
{
    assert forall|i: int| 0 <= i < idxs.len() implies #[trigger] idxs[i] == i + 1 by {
        lemma_after_writes(states, events, idxs, i);
    }
    lemma_after_writes(states, events, idxs, idxs.len() as int);
}

/// After `n` successive writes from an empty log, the count is `n` and the
/// log holds the first `n` events.
proof fn lemma_after_writes(
    states: Seq<Module>,
    events: Seq<ShippingEvent>,
    idxs: Seq<ShippingEventIndex>,
    n: int,
)
    requires
        states.len() == idxs.len() + 1,
        events.len() == idxs.len(),
        states[0].spec_event_count() == 0,
        states[0].log() == Seq::<ShippingEvent>::empty(),
        forall|i: int|
            0 <= i < idxs.len() ==> #[trigger] idxs[i] == states[i].spec_event_count() + 1
                && states[i + 1].spec_event_count() == idxs[i] && states[i + 1].log()
                == states[i].log().push(events[i]),
        0 <= n <= idxs.len(),
    ensures
        states[n].spec_event_count() == n,
        states[n].log() == events.subrange(0, n),
    decreases n,
{
    if n == 0 {
        assert(events.subrange(0, 0) =~= Seq::<ShippingEvent>::empty());
    } else {
        lemma_after_writes(states, events, idxs, n - 1);
        assert(idxs[n - 1] == states[n - 1].spec_event_count() + 1);
        assert(events.subrange(0, n - 1).push(events[n - 1]) =~= events.subrange(0, n));
    }
}

/// Members and order of `indices_of`: it holds exactly the positions plus
/// one of the events that concern `s`, in strictly increasing order.
pub proof fn lemma_indices_of(log: Seq<ShippingEvent>, s: Seq<u8>)
    requires
        log.len() < u128::MAX,
    ensures
        forall|k: ShippingEventIndex| #[trigger]
            indices_of(log, s).contains(k) <==> 1 <= k <= log.len() && log[k - 1].shipment_id@ == s,
        forall|i: int, j: int|
            0 <= i < j < indices_of(log, s).len() ==> #[trigger] indices_of(log, s)[i]
                < #[trigger] indices_of(log, s)[j],
    decreases log.len(),
{
    if log.len() > 0 {
        let init = log.drop_last();
        lemma_indices_of(init, s);
        let prev = indices_of(init, s);
        let n = log.len() as ShippingEventIndex;
        assert forall|k: ShippingEventIndex| 1 <= k <= init.len() implies #[trigger] log[k - 1]
            == init[k - 1] by {}
        if log.last().shipment_id@ == s {
            assert forall|k: ShippingEventIndex| #[trigger]
                indices_of(log, s).contains(k) <==> 1 <= k <= log.len() && log[k - 1].shipment_id@
                    == s by {
                if k == n {
                    assert(indices_of(log, s)[prev.len() as int] == k);
                } else if indices_of(log, s).contains(k) {
                    let p = indices_of(log, s).index_of(k);
                    assert(prev[p] == k);
                }
                if prev.contains(k) {
                    let p = prev.index_of(k);
                    assert(indices_of(log, s)[p] == k);
                }
            }
        } else {
            assert forall|k: ShippingEventIndex| #[trigger]
                indices_of(log, s).contains(k) <==> 1 <= k <= log.len() && log[k - 1].shipment_id@
                    == s by {}
        }
        assert forall|i: int| 0 <= i < prev.len() implies #[trigger] prev[i] <= init.len() by {
            assert(prev.contains(prev[i]));
        }
    }
}

/// The index list kept for each shipment is exactly, in increasing order,
/// the indices of the logged events that concern it; the event of index `k`
/// is the `k`-th event stored, and the count is the length of the log.
pub proof fn lemma_events_of_shipment(m: Module, s: Seq<u8>)
    requires
        m.wf(),
    ensures
        m.spec_event_count() == m.log().len(),
        m.events_of(s) == indices_of(m.log(), s),
        forall|k: ShippingEventIndex| #[trigger]
            m.events_of(s).contains(k) <==> 1 <= k <= m.log().len() && m.log()[k - 1].shipment_id@
                == s,
        forall|i: int, j: int|
            0 <= i < j < m.events_of(s).len() ==> #[trigger] m.events_of(s)[i]
                < #[trigger] m.events_of(s)[j],
{
    m.lemma_wf_log(s);
    lemma_indices_of(m.log(), s);
}

/// Index `k` is held by exactly one bucket.
pub open spec fn in_exactly_one_bucket(
    b: Seq<(BlockNumber, Seq<ShippingEventIndex>)>,
    k: ShippingEventIndex,
) -> bool {
    exists|i: int|
        0 <= i < b.len() && #[trigger] b[i].1.contains(k) && forall|j: int|
            0 <= j < b.len() && #[trigger] b[j].1.contains(k) ==> j == i
}

/// An index is in the flattened queue exactly when some bucket holds it.
pub proof fn lemma_flatten_contains(b: Seq<(BlockNumber, Seq<ShippingEventIndex>)>, k: ShippingEventIndex)
    ensures
        flatten(b).contains(k) <==> exists|i: int| 0 <= i < b.len() && #[trigger] b[i].1.contains(k),
    decreases b.len(),
{
    if b.len() > 0 {
        let init = b.drop_last();
        lemma_flatten_contains(init, k);
        let f = flatten(init);
        let l = b.last().1;
        if flatten(b).contains(k) {
            let p = flatten(b).index_of(k);
            if p < f.len() {
                assert(f[p] == k);
                let i = choose|i: int| 0 <= i < init.len() && #[trigger] init[i].1.contains(k);
                assert(b[i] == init[i]);
            } else {
                assert(l[p - f.len()] == k);
                assert(b[b.len() - 1].1.contains(k));
            }
        }
        if exists|i: int| 0 <= i < b.len() && #[trigger] b[i].1.contains(k) {
            let i = choose|i: int| 0 <= i < b.len() && #[trigger] b[i].1.contains(k);
            if i < b.len() - 1 {
                assert(init[i] == b[i]);
                let p = f.index_of(k);
                assert(flatten(b)[p] == k);
            } else {
                let q = l.index_of(k);
                assert(flatten(b)[f.len() + q] == k);
            }
        }
    }
}

/// Where the flattened queue repeats no index, no two buckets share one.
pub proof fn lemma_flatten_unique(
    b: Seq<(BlockNumber, Seq<ShippingEventIndex>)>,
    k: ShippingEventIndex,
    i: int,
    j: int,
)
    requires
        flatten(b).no_duplicates(),
        0 <= i < b.len(),
        0 <= j < b.len(),
        b[i].1.contains(k),
        b[j].1.contains(k),
    ensures
        i == j,
    decreases b.len(),
{
    let init = b.drop_last();
    let f = flatten(init);
    let l = b.last().1;
    let last = b.len() - 1;
    if i < last && j < last {
        assert(f.no_duplicates()) by {
            assert forall|x: int, y: int| 0 <= x < y < f.len() implies f[x] != f[y] by {
                assert(flatten(b)[x] == f[x]);
                assert(flatten(b)[y] == f[y]);
            }
        }
        assert(init[i] == b[i]);
        assert(init[j] == b[j]);
        lemma_flatten_unique(init, k, i, j);
    } else if i != j {
        let e = if i < last { i } else { j };
        assert(init[e] == b[e]);
        assert(init[e].1.contains(k));
        lemma_flatten_contains(init, k);
        let p = f.index_of(k);
        let q = l.index_of(k);
        assert(flatten(b)[p] == k);
        assert(flatten(b)[f.len() + q] == k);
    }
}

/// Each queued index is a logged one, not yet cleared, held by exactly one
/// bucket, once; no other index is queued. Where the ledger is fully queued
/// (as `new`, `register_shipment`, `track_shipment`, `record_event`,
/// `set_block_number` and `clear_notifications` keep it), every index logged
/// since the last clearing is held by exactly one bucket. Clearing
/// (`clear_notifications`) empties every bucket.
pub proof fn lemma_queue_holds_each_once(m: Module, k: ShippingEventIndex)
    requires
        m.wf(),
    ensures
        m.pending().no_duplicates(),
        m.pending().contains(k) ==> m.cleared_through() < k <= m.spec_event_count(),
        m.pending().contains(k) ==> in_exactly_one_bucket(m.queue(), k),
        !m.pending().contains(k) ==> forall|i: int|
            0 <= i < m.queue().len() ==> !(#[trigger] m.queue()[i].1.contains(k)),
        m.fully_queued() && m.cleared_through() < k <= m.spec_event_count() ==> in_exactly_one_bucket(
            m.queue(),
            k,
        ),
{
    m.lemma_wf_queue();
    let lo = m.cleared_through();
    let p = m.pending();
    assert(p.no_duplicates()) by {
        assert forall|x: int, y: int| 0 <= x < y < p.len() implies p[x] != p[y] by {}
    }
    lemma_flatten_contains(m.queue(), k);
    if m.fully_queued() && lo < k <= m.spec_event_count() {
        assert(p[(k - lo - 1) as int] == k);
    }
    if p.contains(k) {
        let x = p.index_of(k);
        assert(p[x] == k);
        let i = choose|i: int| 0 <= i < m.queue().len() && #[trigger] m.queue()[i].1.contains(k);
        assert forall|j: int| 0 <= j < m.queue().len() && #[trigger] m.queue()[j].1.contains(k)
            implies j == i by {
            lemma_flatten_unique(m.queue(), k, i, j);
        }
    }
}

} // verus!
