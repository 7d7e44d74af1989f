use vstd::prelude::*;
use crate::error::Error;
use crate::keyed::{copy_byte_lists, copy_bytes, list_at, views_of, ByteMap};
use crate::origin::{ensure_root, ensure_signed, Origin};
use crate::queue::{bucket_of, flatten, queue_pushed, NotificationQueue};
use crate::transition::{applied, next_status, transition};
use crate::types::{
    valid_identifier, event_type_of, AccountId, BlockNumber, Identifier, Moment, ProductId,
    ReadPoint, Reading, Shipment, ShipmentId, ShipmentStatus, ShipmentView, ShippingEvent,
    ShippingEventIndex, ShippingEventType, ShippingOperation, IDENTIFIER_MAX_LENGTH,
    SHIPMENT_MAX_PRODUCTS,
};

verus! {

/// The indices, in order of recording, of the logged events that concern
/// shipment `s`. The event at position `i` of the log has index `i + 1`.
pub open spec fn indices_of(log: Seq<ShippingEvent>, s: Seq<u8>) -> Seq<ShippingEventIndex>
    decreases log.len(),
{
    if log.len() == 0 {
        Seq::empty()
    } else if log.last().shipment_id@ == s {
        indices_of(log.drop_last(), s).push(log.len() as ShippingEventIndex)
    } else {
        indices_of(log.drop_last(), s)
    }
}

/// The indices `from + 1`, `from + 2`, ..., `to`.
pub open spec fn index_range(from: ShippingEventIndex, to: ShippingEventIndex) -> Seq<
    ShippingEventIndex,
> {
    Seq::new((to - from) as nat, |i: int| (from + 1 + i) as ShippingEventIndex)
}

/// The record that a successful registration creates.
pub open spec fn registered_record(
    id: Seq<u8>,
    owner: Seq<u8>,
    products: Seq<Seq<u8>>,
    now: Moment,
) -> ShipmentView {
    ShipmentView {
        id,
        owner,
        status: ShipmentStatus::Pending,
        products,
        registered: now,
        delivered: None,
    }
}

/// `new_log` is `old_log` with one event appended, of the given contents.
pub open spec fn appended_event(
    old_log: Seq<ShippingEvent>,
    new_log: Seq<ShippingEvent>,
    event_type: ShippingEventType,
    shipment: Seq<u8>,
    location: Option<ReadPoint>,
    readings: Seq<Reading>,
    t: Moment,
) -> bool {
    &&& new_log.len() == old_log.len() + 1
    &&& new_log.drop_last() == old_log
    &&& new_log.last().event_type == event_type
    &&& new_log.last().shipment_id@ == shipment
    &&& new_log.last().location == location
    &&& new_log.last().readings@ == readings
    &&& new_log.last().timestamp == t
}

/// The readings that an optional list supplies.
pub open spec fn supplied_readings(readings: Option<Vec<Reading>>) -> Seq<Reading> {
    match readings {
        Some(v) => v@,
        None => Seq::empty(),
    }
}

/// The shipment tracking ledger: the shipment registry, the append-only
/// shipping event log with its per-shipment index lists, and the queue of
/// event indices awaiting notification. Instructions apply one at a time.
pub struct Module {
    shipments: ByteMap<Shipment>,
    shipments_of_org: ByteMap<Vec<ShipmentId>>,
    event_count: ShippingEventIndex,
    all_events: Vec<ShippingEvent>,
    events_of_shipment: ByteMap<Vec<ShippingEventIndex>>,
    event_indices: ByteMap<ShippingEventIndex>,
    ocw_notifications: NotificationQueue,
    block_number: BlockNumber,
    cleared_through: Ghost<ShippingEventIndex>,
}

impl Module {
    /// The registry: each shipment record under its identifier.
    pub closed spec fn shipments_view(&self) -> Map<Seq<u8>, ShipmentView> {
        self.shipments@.map_values(|s: Shipment| s@)
    }

    /// The identifiers each owner registered, in order of registration.
    pub closed spec fn orgs_view(&self) -> Map<Seq<u8>, Seq<Seq<u8>>> {
        self.shipments_of_org@.map_values(|l: Vec<ShipmentId>| views_of(l@))
    }

    /// The identifiers that `owner` registered, empty where none.
    pub open spec fn shipments_of(&self, owner: Seq<u8>) -> Seq<Seq<u8>> {
        if self.orgs_view().contains_key(owner) {
            self.orgs_view()[owner]
        } else {
            Seq::empty()
        }
    }

    /// The number of events stored, which is also the last index assigned.
    pub closed spec fn spec_event_count(&self) -> ShippingEventIndex {
        self.event_count
    }

    /// The event log in storage order.
    pub closed spec fn log(&self) -> Seq<ShippingEvent> {
        self.all_events@
    }

    /// The index list kept for shipment `s`.
    pub closed spec fn events_of(&self, s: Seq<u8>) -> Seq<ShippingEventIndex> {
        list_at(self.events_of_shipment@, s)
    }

    /// Client correlation identifiers and the index each was recorded under.
    pub closed spec fn correlations(&self) -> Map<Seq<u8>, ShippingEventIndex> {
        self.event_indices@
    }

    /// The notification queue, bucket by bucket.
    pub closed spec fn queue(&self) -> Seq<(BlockNumber, Seq<ShippingEventIndex>)> {
        self.ocw_notifications@
    }

    /// Every index in the notification queue.
    pub closed spec fn pending(&self) -> Seq<ShippingEventIndex> {
        self.ocw_notifications.pending()
    }

    /// The current epoch.
    pub closed spec fn spec_block_number(&self) -> BlockNumber {
        self.block_number
    }

    /// The event count when the queue was last cleared.
    pub closed spec fn cleared_through(&self) -> ShippingEventIndex {
        self.cleared_through@
    }

    pub closed spec fn wf(&self) -> bool {
        &&& self.shipments.wf()
        &&& self.shipments_of_org.wf()
        &&& self.events_of_shipment.wf()
        &&& self.event_indices.wf()
        &&& self.ocw_notifications.wf()
        &&& self.event_count as int == self.all_events@.len()
        &&& forall|k: Seq<u8>| #[trigger]
            self.shipments@.contains_key(k) ==> self.shipments@[k]@.id == k
                && self.shipments@[k]@.wf()
        &&& forall|s: Seq<u8>| #[trigger]
            list_at(self.events_of_shipment@, s) == indices_of(self.all_events@, s)
        &&& self.cleared_through@ <= self.event_count
        &&& forall|i: int|
            0 <= i < self.ocw_notifications.pending().len() ==> self.cleared_through@
                < #[trigger] self.ocw_notifications.pending()[i] <= self.event_count
        &&& forall|i: int, j: int|
            0 <= i < j < self.ocw_notifications.pending().len() ==> #[trigger] self.ocw_notifications.pending()[i]
                < #[trigger] self.ocw_notifications.pending()[j]
        &&& (self.ocw_notifications@.len() == 0 || self.ocw_notifications@.last().0
            <= self.block_number)
    }

    /// What the invariant says of the log and of the index lists: the count
    /// is the length of the log, and the list of shipment `s` is
    /// `indices_of(log, s)`.
    pub proof fn lemma_wf_log(&self, s: Seq<u8>)
        requires
            self.wf(),
        ensures
            self.spec_event_count() == self.log().len(),
            self.log().len() < u128::MAX,
            self.events_of(s) == indices_of(self.log(), s),
    {
        assert(self.all_events.len() <= usize::MAX);
    }

    /// What the invariant says of the notification queue: it holds, in
    /// strictly increasing order, indices logged since it was last cleared.
    pub proof fn lemma_wf_queue(&self)
        requires
            self.wf(),
        ensures
            self.cleared_through() <= self.spec_event_count(),
            self.pending() == flatten(self.queue()),
            forall|i: int|
                0 <= i < self.pending().len() ==> self.cleared_through() < #[trigger] self.pending()[i]
                    <= self.spec_event_count(),
            forall|i: int, j: int|
                0 <= i < j < self.pending().len() ==> #[trigger] self.pending()[i]
                    < #[trigger] self.pending()[j],
    {
    }

    /// Every index logged since the queue was last cleared is queued, and
    /// nothing else: the state that registration, tracking, clearing and
    /// epoch changes keep. A bare `store_event` leaves its index unqueued.
    pub open spec fn fully_queued(&self) -> bool {
        self.pending() == index_range(self.cleared_through(), self.spec_event_count())
    }

    /// An empty ledger at epoch 0.
    pub fn new() -> (r: Self)
        ensures
            r.wf(),
            r.shipments_view() == Map::<Seq<u8>, ShipmentView>::empty(),
            r.orgs_view() == Map::<Seq<u8>, Seq<Seq<u8>>>::empty(),
            r.log() == Seq::<ShippingEvent>::empty(),
            r.spec_event_count() == 0,
            r.correlations() == Map::<Seq<u8>, ShippingEventIndex>::empty(),
            r.queue() == Seq::<(BlockNumber, Seq<ShippingEventIndex>)>::empty(),
            r.spec_block_number() == 0,
            r.fully_queued(),
    {
        let r = Module {
            shipments: ByteMap::new(),
            shipments_of_org: ByteMap::new(),
            event_count: 0,
            all_events: Vec::new(),
            events_of_shipment: ByteMap::new(),
            event_indices: ByteMap::new(),
            ocw_notifications: NotificationQueue::new(),
            block_number: 0,
            cleared_through: Ghost(0),
        };
        assert(r.shipments_view() =~= Map::<Seq<u8>, ShipmentView>::empty());
        assert(r.orgs_view() =~= Map::<Seq<u8>, Seq<Seq<u8>>>::empty());
        assert(index_range(0, 0) =~= Seq::<ShippingEventIndex>::empty());
        r
    }

    /// Checks the shape of an identifier: non-empty, at most
    /// `IDENTIFIER_MAX_LENGTH` bytes.
    pub fn validate_identifier(id: &[u8]) -> (r: Result<(), Error>)
        ensures
            r == (if valid_identifier(id@) {
                Ok(())
            } else {
                Err(Error::InvalidOrMissingIdentifier)
            }),
    {
        if id.len() == 0 {
            return Err(Error::InvalidOrMissingIdentifier);
        }
        if id.len() > IDENTIFIER_MAX_LENGTH {
            return Err(Error::InvalidOrMissingIdentifier);
        }
        Ok(())
    }

    /// Checks that no shipment is registered under `id`.
    pub fn validate_new_shipment(&self, id: &[u8]) -> (r: Result<(), Error>)
        requires
            self.wf(),
        ensures
            r == (if self.shipments_view().contains_key(id@) {
                Err(Error::ShipmentAlreadyExists)
            } else {
                Ok(())
            }),
    {
        if self.shipments.contains_key(id) {
            return Err(Error::ShipmentAlreadyExists);
        }
        Ok(())
    }

    /// Checks that a shipment lists at most `SHIPMENT_MAX_PRODUCTS` products.
    pub fn validate_shipment_products(props: &[ProductId]) -> (r: Result<(), Error>)
        ensures
            r == (if props@.len() <= SHIPMENT_MAX_PRODUCTS {
                Ok(())
            } else {
                Err(Error::ShipmentHasTooManyProducts)
            }),
    {
        if props.len() > SHIPMENT_MAX_PRODUCTS {
            return Err(Error::ShipmentHasTooManyProducts);
        }
        Ok(())
    }

    /// The outcome of the checks that a registration runs before any write,
    /// in the order they run.
    pub open spec fn register_verdict(
        &self,
        origin: Origin,
        id: Seq<u8>,
        n_products: int,
    ) -> Result<(), Error> {
        if !(origin is Signed) {
            Err(Error::BadOrigin)
        } else if !valid_identifier(id) {
            Err(Error::InvalidOrMissingIdentifier)
        } else if n_products > SHIPMENT_MAX_PRODUCTS {
            Err(Error::ShipmentHasTooManyProducts)
        } else if self.shipments_view().contains_key(id) {
            Err(Error::ShipmentAlreadyExists)
        } else {
            Ok(())
        }
    }

    /// Registers shipment `id` of `owner` carrying `products`, at time `now`.
    /// On success the new record is pending, is listed under its owner, and a
    /// registration event is logged and queued; the record and the event's
    /// index are returned. On failure nothing changes.
    pub fn register_shipment(
        &mut self,
        origin: &Origin,
        id: ShipmentId,
        owner: AccountId,
        products: Vec<ProductId>,
        now: Moment,
    ) -> (r: Result<(Shipment, ShippingEventIndex), Error>)
        requires
            old(self).wf(),
        ensures
            final(self).wf(),
            old(self).fully_queued() ==> final(self).fully_queued(),
            r is Ok <==> old(self).register_verdict(*origin, id@, products@.len() as int) is Ok,
            match r {
                Err(e) => {
                    &&& old(self).register_verdict(*origin, id@, products@.len() as int) == Err::<(), Error>(e)
                    &&& *final(self) == *old(self)
                },
                Ok((rec, idx)) => {
                    &&& old(self).register_verdict(*origin, id@, products@.len() as int) == Ok::<(), Error>(())
                    &&& rec@ == registered_record(id@, owner@, views_of(products@), now)
                    &&& !old(self).shipments_view().contains_key(id@)
                    &&& final(self).shipments_view() == old(self).shipments_view().insert(id@, rec@)
                    &&& final(self).orgs_view() == old(self).orgs_view().insert(
                        owner@,
                        old(self).shipments_of(owner@).push(id@),
                    )
                    &&& idx == old(self).spec_event_count() + 1
                    &&& final(self).spec_event_count() == idx
                    &&& appended_event(
                        old(self).log(),
                        final(self).log(),
                        ShippingEventType::ShipmentRegistration,
                        id@,
                        None,
                        Seq::empty(),
                        now,
                    )
                    &&& final(self).queue() == queue_pushed(old(self).queue(), old(self).spec_block_number(), idx)
                    &&& final(self).pending() == old(self).pending().push(idx)
                    &&& final(self).correlations() == old(self).correlations()
                    &&& final(self).spec_block_number() == old(self).spec_block_number()
                    &&& final(self).cleared_through() == old(self).cleared_through()
                },
            },
    {
        if let Err(e) = ensure_signed(origin) {
            return Err(e);
        }
        if let Err(e) = Self::validate_identifier(id.as_slice()) {
            return Err(e);
        }
        if let Err(e) = Self::validate_shipment_products(products.as_slice()) {
            return Err(e);
        }
        if let Err(e) = self.validate_new_shipment(id.as_slice()) {
            return Err(e);
        }
        let record = Shipment {
            id: copy_bytes(id.as_slice()),
            owner: copy_bytes(owner.as_slice()),
            status: ShipmentStatus::Pending,
            products: copy_byte_lists(&products),
            registered: now,
            delivered: None,
        };
        let event = ShippingEvent {
            event_type: ShippingEventType::ShipmentRegistration,
            shipment_id: copy_bytes(id.as_slice()),
            location: None,
            readings: Vec::new(),
            timestamp: now,
        };
        let ghost id_v = id@;
        let ghost owner_v = owner@;
        let ghost old_orgs = self.orgs_view();
        let ghost old_list = self.shipments_of(owner@);
        let id_key = copy_bytes(id.as_slice());
        let listed = copy_bytes(id.as_slice());
        self.shipments_of_org.append(owner.as_slice(), listed);
        assert(self.orgs_view() =~= old_orgs.insert(owner_v, old_list.push(id_v))) by {
            assert(views_of(list_at(self.shipments_of_org@, owner_v)) =~= old_list.push(id_v));
            assert forall|k: Seq<u8>| k != owner_v && #[trigger] self.shipments_of_org@.contains_key(k)
                implies self.shipments_of_org@[k] == old(self).shipments_of_org@[k]
                && old(self).shipments_of_org@.contains_key(k) by {
                assert(self.shipments_of_org@.get(k) == old(self).shipments_of_org@.get(k));
            }
        }
        let stored = Shipment {
            id,
            owner,
            status: ShipmentStatus::Pending,
            products,
            registered: now,
            delivered: None,
        };
        let ghost old_shipments = self.shipments_view();
        self.shipments.insert(id_key.as_slice(), stored);
        assert(self.shipments_view() =~= old_shipments.insert(id_v, record@));
        let event_idx = match self.store_event(event) {
            Ok(i) => i,
            Err(e) => return Err(e),
        };
        assert(self.ocw_notifications.pending() == old(self).ocw_notifications.pending());
        assert forall|i: int| 0 <= i < self.ocw_notifications.pending().len() implies #[trigger]
            self.ocw_notifications.pending()[i] < event_idx by {
            assert(old(self).ocw_notifications.pending()[i] <= old(self).event_count);
        }
        self.ocw_notifications.push(self.block_number, event_idx);
        proof {
            lemma_index_range_push(old(self).cleared_through(), old(self).spec_event_count());
        }
        assert(self.log().drop_last() =~= old(self).log());
        Ok((record, event_idx))
    }

    /// The outcome of the checks that a tracking operation runs before any
    /// write, in the order they run: the new status where all pass.
    pub open spec fn track_verdict(
        &self,
        origin: Origin,
        id: Seq<u8>,
        op: ShippingOperation,
    ) -> Result<ShipmentStatus, Error> {
        if !(origin is Signed) {
            Err(Error::BadOrigin)
        } else if !valid_identifier(id) {
            Err(Error::InvalidOrMissingIdentifier)
        } else if !self.shipments_view().contains_key(id) {
            Err(Error::ShipmentIsUnknown)
        } else {
            next_status(self.shipments_view()[id].status, op)
        }
    }

    /// What a successful tracking operation changes: the event is logged and
    /// queued under the next index, and the record takes the operation's
    /// effect. Nothing else changes.
    pub open spec fn track_applied(
        old_m: Module,
        new_m: Module,
        id: Seq<u8>,
        op: ShippingOperation,
        timestamp: Moment,
        location: Option<ReadPoint>,
        readings: Seq<Reading>,
        idx: ShippingEventIndex,
    ) -> bool {
        &&& new_m.shipments_view() == old_m.shipments_view().insert(
            id,
            applied(old_m.shipments_view()[id], op, timestamp),
        )
        &&& idx == old_m.spec_event_count() + 1
        &&& new_m.spec_event_count() == idx
        &&& appended_event(
            old_m.log(),
            new_m.log(),
            event_type_of(op),
            id,
            location,
            readings,
            timestamp,
        )
        &&& new_m.queue() == queue_pushed(old_m.queue(), old_m.spec_block_number(), idx)
        &&& new_m.pending() == old_m.pending().push(idx)
        &&& new_m.orgs_view() == old_m.orgs_view()
        &&& new_m.spec_block_number() == old_m.spec_block_number()
        &&& new_m.cleared_through() == old_m.cleared_through()
    }

    /// Applies `operation` to shipment `id` at `timestamp`, recording a
    /// shipping event with the given location and readings. Returns the
    /// event's index and, unless the operation is a scan, the new status.
    /// On failure nothing changes.
    pub fn track_shipment(
        &mut self,
        origin: &Origin,
        id: ShipmentId,
        operation: ShippingOperation,
        timestamp: Moment,
        location: Option<ReadPoint>,
        readings: Option<Vec<Reading>>,
    ) -> (r: Result<(ShippingEventIndex, Option<ShipmentStatus>), Error>)
        requires
            old(self).wf(),
        ensures
            final(self).wf(),
            old(self).fully_queued() ==> final(self).fully_queued(),
            r is Ok <==> old(self).track_verdict(*origin, id@, operation) is Ok,
            match r {
                Err(e) => {
                    &&& old(self).track_verdict(*origin, id@, operation) == Err::<ShipmentStatus, Error>(e)
                    &&& *final(self) == *old(self)
                },
                Ok((idx, status)) => {
                    &&& old(self).track_verdict(*origin, id@, operation) == Ok::<ShipmentStatus, Error>(
                        applied(old(self).shipments_view()[id@], operation, timestamp).status,
                    )
                    &&& status == (if operation == ShippingOperation::Scan {
                        None
                    } else {
                        Some(applied(old(self).shipments_view()[id@], operation, timestamp).status)
                    })
                    &&& Self::track_applied(
                        *old(self),
                        *final(self),
                        id@,
                        operation,
                        timestamp,
                        location,
                        supplied_readings(readings),
                        idx,
                    )
                    &&& final(self).correlations() == old(self).correlations()
                },
            },
    {
        if let Err(e) = ensure_signed(origin) {
            return Err(e);
        }
        if let Err(e) = Self::validate_identifier(id.as_slice()) {
            return Err(e);
        }
        let record = match self.shipments.get(id.as_slice()) {
            Some(s) => copy_record(s),
            None => return Err(Error::ShipmentIsUnknown),
        };
        let new_status = match transition(record.status, operation) {
            Ok(s) => s,
            Err(e) => return Err(e),
        };
        let event = ShippingEvent {
            event_type: ShippingEventType::from(operation),
            shipment_id: copy_bytes(id.as_slice()),
            location,
            readings: match readings {
                Some(v) => v,
                None => Vec::new(),
            },
            timestamp,
        };
        let ghost old_shipments = self.shipments_view();
        let ghost rec_v = record@;
        let event_idx = match self.store_event(event) {
            Ok(i) => i,
            Err(e) => return Err(e),
        };
        assert(self.ocw_notifications.pending() == old(self).ocw_notifications.pending());
        assert forall|i: int| 0 <= i < self.ocw_notifications.pending().len() implies #[trigger]
            self.ocw_notifications.pending()[i] < event_idx by {
            assert(old(self).ocw_notifications.pending()[i] <= old(self).event_count);
        }
        self.ocw_notifications.push(self.block_number, event_idx);
        proof {
            lemma_index_range_push(old(self).cleared_through(), old(self).spec_event_count());
        }
        assert(self.log().drop_last() =~= old(self).log());
        if operation == ShippingOperation::Scan {
            assert(old_shipments.insert(id@, rec_v) =~= old_shipments);
            Ok((event_idx, None))
        } else {
            let updated = if operation == ShippingOperation::Pickup {
                record.pickup()
            } else {
                record.deliver(timestamp)
            };
            self.shipments.insert(id.as_slice(), updated);
            assert(self.shipments_view() =~= old_shipments.insert(id@, updated@));
            Ok((event_idx, Some(new_status)))
        }
    }

    /// The checks of `record_event`, in the order they run: those of the
    /// correlation identifier, then those of `track_shipment`.
    pub open spec fn record_verdict(
        &self,
        origin: Origin,
        event_id: Seq<u8>,
        id: Seq<u8>,
        op: ShippingOperation,
    ) -> Result<ShipmentStatus, Error> {
        if !(origin is Signed) {
            Err(Error::BadOrigin)
        } else if !valid_identifier(event_id) {
            Err(Error::InvalidOrMissingIdentifier)
        } else if !valid_identifier(id) {
            Err(Error::InvalidOrMissingIdentifier)
        } else if self.correlations().contains_key(event_id) {
            Err(Error::ShippingEventAlreadyExists)
        } else {
            self.track_verdict(origin, id, op)
        }
    }

    /// `track_shipment` for clients that tag each event with a correlation
    /// identifier of their own: an identifier already recorded is refused,
    /// and a new one is kept with the index of its event.
    pub fn record_event(
        &mut self,
        origin: &Origin,
        event_id: Identifier,
        id: ShipmentId,
        operation: ShippingOperation,
        timestamp: Moment,
        location: Option<ReadPoint>,
        readings: Option<Vec<Reading>>,
    ) -> (r: Result<(ShippingEventIndex, Option<ShipmentStatus>), Error>)
        requires
            old(self).wf(),
        ensures
            final(self).wf(),
            old(self).fully_queued() ==> final(self).fully_queued(),
            r is Ok <==> old(self).record_verdict(*origin, event_id@, id@, operation) is Ok,
            match r {
                Err(e) => {
                    &&& old(self).record_verdict(*origin, event_id@, id@, operation) == Err::<ShipmentStatus, Error>(e)
                    &&& *final(self) == *old(self)
                },
                Ok((idx, status)) => {
                    &&& old(self).record_verdict(*origin, event_id@, id@, operation) == Ok::<ShipmentStatus, Error>(
                        applied(old(self).shipments_view()[id@], operation, timestamp).status,
                    )
                    &&& status == (if operation == ShippingOperation::Scan {
                        None
                    } else {
                        Some(applied(old(self).shipments_view()[id@], operation, timestamp).status)
                    })
                    &&& Self::track_applied(
                        *old(self),
                        *final(self),
                        id@,
                        operation,
                        timestamp,
                        location,
                        supplied_readings(readings),
                        idx,
                    )
                    &&& final(self).correlations() == old(self).correlations().insert(event_id@, idx)
                },
            },
    {
        if let Err(e) = ensure_signed(origin) {
            return Err(e);
        }
        if let Err(e) = Self::validate_identifier(event_id.as_slice()) {
            return Err(e);
        }
        if let Err(e) = Self::validate_identifier(id.as_slice()) {
            return Err(e);
        }
        if self.event_indices.contains_key(event_id.as_slice()) {
            return Err(Error::ShippingEventAlreadyExists);
        }
        match self.track_shipment(origin, id, operation, timestamp, location, readings) {
            Ok((idx, status)) => {
                self.event_indices.insert(event_id.as_slice(), idx);
                Ok((idx, status))
            },
            Err(e) => Err(e),
        }
    }

    /// Empties the whole notification queue. Only the privileged origin may
    /// do so; it does so whatever became of the deliveries.
    pub fn clear_notifications(&mut self, origin: &Origin) -> (r: Result<(), Error>)
        requires
            old(self).wf(),
        ensures
            final(self).wf(),
            r == (if *origin is Root { Ok::<(), Error>(()) } else { Err(Error::BadOrigin) }),
            r is Err ==> *final(self) == *old(self),
            r is Ok ==> {
                &&& final(self).queue() == Seq::<(BlockNumber, Seq<ShippingEventIndex>)>::empty()
                &&& final(self).fully_queued()
                &&& final(self).cleared_through() == old(self).spec_event_count()
                &&& final(self).shipments_view() == old(self).shipments_view()
                &&& final(self).orgs_view() == old(self).orgs_view()
                &&& final(self).log() == old(self).log()
                &&& final(self).spec_event_count() == old(self).spec_event_count()
                &&& forall|s: Seq<u8>| #[trigger] final(self).events_of(s) == old(self).events_of(s)
                &&& final(self).correlations() == old(self).correlations()
                &&& final(self).spec_block_number() == old(self).spec_block_number()
            },
    {
        if let Err(e) = ensure_root(origin) {
            return Err(e);
        }
        self.ocw_notifications.clear();
        self.cleared_through = Ghost(self.event_count);
        assert(index_range(self.event_count, self.event_count) =~= Seq::<ShippingEventIndex>::empty());
        Ok(())
    }

    /// Moves the ledger to epoch `n`; epochs never go back.
    pub fn set_block_number(&mut self, n: BlockNumber)
        requires
            old(self).wf(),
            old(self).spec_block_number() <= n,
        ensures
            final(self).wf(),
            final(self).spec_block_number() == n,
            final(self).shipments_view() == old(self).shipments_view(),
            final(self).orgs_view() == old(self).orgs_view(),
            final(self).log() == old(self).log(),
            final(self).spec_event_count() == old(self).spec_event_count(),
            forall|s: Seq<u8>| #[trigger] final(self).events_of(s) == old(self).events_of(s),
            final(self).correlations() == old(self).correlations(),
            final(self).queue() == old(self).queue(),
            final(self).cleared_through() == old(self).cleared_through(),
            final(self).fully_queued() == old(self).fully_queued(),
    {
        self.block_number = n;
    }

    /// The current epoch.
    pub fn block_number(&self) -> (r: BlockNumber)
        ensures
            r == self.spec_block_number(),
    {
        self.block_number
    }

    /// The record of shipment `id`, if it is registered.
    pub fn shipment_by_id(&self, id: &[u8]) -> (r: Option<&Shipment>)
        requires
            self.wf(),
        ensures
            match r {
                Some(s) => self.shipments_view().contains_key(id@) && s@ == self.shipments_view()[id@],
                None => !self.shipments_view().contains_key(id@),
            },
    {
        self.shipments.get(id)
    }

    /// The identifiers that `owner` registered, in order of registration.
    pub fn shipments_of_org(&self, owner: &[u8]) -> (r: Vec<ShipmentId>)
        requires
            self.wf(),
        ensures
            views_of(r@) == self.shipments_of(owner@),
    {
        match self.shipments_of_org.get(owner) {
            Some(l) => copy_byte_lists(l),
            None => {
                let r: Vec<ShipmentId> = Vec::new();
                assert(views_of(r@) =~= Seq::<Seq<u8>>::empty());
                r
            },
        }
    }

    /// The number of events stored so far, which is the last index assigned.
    pub fn event_count(&self) -> (r: ShippingEventIndex)
        ensures
            r == self.spec_event_count(),
    {
        self.event_count
    }

    /// The event stored under index `idx`, if any.
    pub fn event_by_idx(&self, idx: ShippingEventIndex) -> (r: Option<&ShippingEvent>)
        requires
            self.wf(),
        ensures
            match r {
                Some(e) => 1 <= idx <= self.spec_event_count() && *e == self.log()[idx - 1],
                None => !(1 <= idx <= self.spec_event_count()),
            },
    {
        if idx == 0 || idx > self.event_count {
            return None;
        }
        assert(self.all_events.len() <= usize::MAX);
        Some(&self.all_events[(idx - 1) as usize])
    }

    /// The indices of the events recorded for shipment `id`, in order.
    pub fn events_of_shipment(&self, id: &[u8]) -> (r: Vec<ShippingEventIndex>)
        requires
            self.wf(),
        ensures
            r@ == self.events_of(id@),
    {
        match self.events_of_shipment.get(id) {
            Some(l) => {
                let r = l.clone();
                assert(r@ =~= l@);
                r
            },
            None => Vec::new(),
        }
    }

    /// The index recorded under a client correlation identifier, if any.
    pub fn event_index_of(&self, event_id: &[u8]) -> (r: Option<ShippingEventIndex>)
        requires
            self.wf(),
        ensures
            match r {
                Some(i) => self.correlations().contains_key(event_id@) && i == self.correlations()[event_id@],
                None => !self.correlations().contains_key(event_id@),
            },
    {
        match self.event_indices.get(event_id) {
            Some(i) => Some(*i),
            None => None,
        }
    }

    /// The indices queued for notification in epoch `block`.
    pub fn ocw_notifications(&self, block: BlockNumber) -> (r: Vec<ShippingEventIndex>)
        requires
            self.wf(),
        ensures
            r@ == bucket_of(self.queue(), block),
    {
        self.ocw_notifications.bucket(block)
    }

    /// Every index queued for notification, bucket after bucket.
    pub fn pending_notifications(&self) -> (r: Vec<ShippingEventIndex>)
        ensures
            r@ == self.pending(),
    {
        self.ocw_notifications.all_pending()
    }

    /// Appends `event` to the log under the next index and adds that index
    /// to the shipment's index list. Returns the index. The notification
    /// queue is left to the caller.
    pub fn store_event(&mut self, event: ShippingEvent) -> (r: Result<ShippingEventIndex, Error>)
        requires
            old(self).wf(),
        ensures
            final(self).wf(),
            r == Ok::<ShippingEventIndex, Error>((old(self).spec_event_count() + 1) as ShippingEventIndex),
            final(self).spec_event_count() == old(self).spec_event_count() + 1,
            final(self).log() == old(self).log().push(event),
            final(self).queue() == old(self).queue(),
            final(self).shipments_view() == old(self).shipments_view(),
            final(self).orgs_view() == old(self).orgs_view(),
            final(self).correlations() == old(self).correlations(),
            final(self).spec_block_number() == old(self).spec_block_number(),
            final(self).cleared_through() == old(self).cleared_through(),
    {
        assert(self.all_events.len() <= usize::MAX);
        let event_idx = match self.event_count.checked_add(1) {
            Some(i) => i,
            None => return Err(Error::ShippingEventMaxExceeded),
        };
        proof {
            lemma_indices_of_push(self.all_events@, event);
        }
        self.event_count = event_idx;
        self.events_of_shipment.append(event.shipment_id.as_slice(), event_idx);
        self.all_events.push(event);
        Ok(event_idx)
    }
}

/// An owned copy of a shipment record.
fn copy_record(s: &Shipment) -> (r: Shipment)
    ensures
        r@ == s@,
{
    Shipment {
        id: copy_bytes(s.id.as_slice()),
        owner: copy_bytes(s.owner.as_slice()),
        status: s.status,
        products: copy_byte_lists(&s.products),
        registered: s.registered,
        delivered: s.delivered,
    }
}

/// Queuing the next index extends the range of indices queued.
pub proof fn lemma_index_range_push(from: ShippingEventIndex, to: ShippingEventIndex)
    requires
        from <= to < u128::MAX,
    ensures
        index_range(from, to).push((to + 1) as ShippingEventIndex) == index_range(
            from,
            (to + 1) as ShippingEventIndex,
        ),
{
    assert(index_range(from, to).push((to + 1) as ShippingEventIndex) =~= index_range(
        from,
        (to + 1) as ShippingEventIndex,
    ));
}

/// Appending an event extends the index list of its shipment by the new
/// index and leaves every other list as it was.
pub proof fn lemma_indices_of_push(log: Seq<ShippingEvent>, e: ShippingEvent)
    ensures
        forall|s: Seq<u8>| #[trigger]
            indices_of(log.push(e), s) == if e.shipment_id@ == s {
                indices_of(log, s).push((log.len() + 1) as ShippingEventIndex)
            } else {
                indices_of(log, s)
            },
{
    assert(log.push(e).drop_last() =~= log);
}

} // verus!
