use vstd::prelude::*;

verus! {

/// Opaque byte identifier (shipments, devices, event correlation ids).
pub type Identifier = Vec<u8>;

pub type ShipmentId = Identifier;

pub type DeviceId = Identifier;

/// Opaque product reference, consumed as-is.
pub type ProductId = Vec<u8>;

/// Opaque account reference.
pub type AccountId = Vec<u8>;

/// Timestamps supplied by the clock source or by clients.
pub type Moment = u64;

/// Index assigned to a shipping event by the event log.
pub type ShippingEventIndex = u128;

/// Logical epoch (block number) used to bucket pending notifications.
pub type BlockNumber = u64;

/// Largest accepted length of an identifier, in bytes.
pub const IDENTIFIER_MAX_LENGTH: usize = 10;

/// Largest accepted number of product references on one shipment.
pub const SHIPMENT_MAX_PRODUCTS: usize = 10;

#[derive(Clone, Copy, Debug, PartialEq, Eq, Structural)]
pub enum ShipmentStatus {
    Pending,
    InTransit,
    Delivered,
}

#[derive(Clone, Debug, PartialEq, Eq)]
pub struct Shipment {
    pub id: ShipmentId,
    pub owner: AccountId,
    pub status: ShipmentStatus,
    pub products: Vec<ProductId>,
    pub registered: Moment,
    pub delivered: Option<Moment>,
}

/// Mathematical model of a shipment record.
pub struct ShipmentView {
    pub id: Seq<u8>,
    pub owner: Seq<u8>,
    pub status: ShipmentStatus,
    pub products: Seq<Seq<u8>>,
    pub registered: Moment,
    pub delivered: Option<Moment>,
}

impl ShipmentView {
    /// The record invariants: a delivery time exactly when delivered, an
    /// identifier of accepted length, and a bounded product list.
    pub open spec fn wf(self) -> bool {
        &&& (self.delivered.is_some() <==> self.status == ShipmentStatus::Delivered)
        &&& valid_identifier(self.id)
        &&& self.products.len() <= SHIPMENT_MAX_PRODUCTS
    }
}

impl View for Shipment {
    type V = ShipmentView;

    open spec fn view(&self) -> ShipmentView {
        ShipmentView {
            id: self.id@,
            owner: self.owner@,
            status: self.status,
            products: crate::keyed::views_of(self.products@),
            registered: self.registered,
            delivered: self.delivered,
        }
    }
}

/// An identifier is accepted when it is non-empty and at most
/// `IDENTIFIER_MAX_LENGTH` bytes long.
pub open spec fn valid_identifier(id: Seq<u8>) -> bool {
    1 <= id.len() <= IDENTIFIER_MAX_LENGTH
}

impl Shipment {
    /// The shipment is handed to a carrier: it becomes in transit.
    pub fn pickup(self) -> (r: Self)
        ensures
            r@ == (ShipmentView { status: ShipmentStatus::InTransit, ..self@ }),
    {
        let mut s = self;
        s.status = ShipmentStatus::InTransit;
        s
    }

    /// The shipment reaches its destination at `delivered_on`.
    pub fn deliver(self, delivered_on: Moment) -> (r: Self)
        ensures
            r@ == (ShipmentView {
                status: ShipmentStatus::Delivered,
                delivered: Some(delivered_on),
                ..self@
            }),
    {
        let mut s = self;
        s.status = ShipmentStatus::Delivered;
        s.delivered = Some(delivered_on);
        s
    }
}

#[derive(Clone, Copy, Debug, PartialEq, Eq, Structural)]
pub enum ShippingOperation {
    Pickup,
    Scan,
    Deliver,
}

#[derive(Clone, Copy, Debug, PartialEq, Eq, Structural)]
pub enum ShippingEventType {
    ShipmentRegistration,
    ShipmentPickup,
    ShipmentScan,
    ShipmentDelivery,
    SensorReading,
}

/// The event type that an operation is logged under.
pub open spec fn event_type_of(op: ShippingOperation) -> ShippingEventType {
    match op {
        ShippingOperation::Pickup => ShippingEventType::ShipmentPickup,
        ShippingOperation::Scan => ShippingEventType::ShipmentScan,
        ShippingOperation::Deliver => ShippingEventType::ShipmentDelivery,
    }
}

impl From<ShippingOperation> for ShippingEventType {
    fn from(op: ShippingOperation) -> (r: Self) {
        match op {
            ShippingOperation::Pickup => ShippingEventType::ShipmentPickup,
            ShippingOperation::Scan => ShippingEventType::ShipmentScan,
            ShippingOperation::Deliver => ShippingEventType::ShipmentDelivery,
        }
    }
}

impl vstd::std_specs::convert::FromSpecImpl<ShippingOperation> for ShippingEventType {
    open spec fn obeys_from_spec() -> bool {
        true
    }

    open spec fn from_spec(op: ShippingOperation) -> ShippingEventType {
        event_type_of(op)
    }
}

/// A signed fixed-point number with 16 integer and 16 fractional bits,
/// held as its raw bits (the value is `bits / 65536`).
#[derive(Clone, Copy, Debug, PartialEq, Eq, Structural)]
pub struct Decimal {
    pub bits: i32,
}

#[derive(Clone, Copy, Debug, PartialEq, Eq, Structural)]
pub struct ReadPoint {
    pub latitude: Decimal,
    pub longitude: Decimal,
}

#[derive(Clone, Copy, Debug, PartialEq, Eq, Structural)]
pub enum ReadingType {
    Humidity,
    Pressure,
    Shock,
    Tilt,
    Temperature,
    Vibration,
}

#[derive(Clone, Debug, PartialEq, Eq)]
pub struct Reading {
    pub device_id: DeviceId,
    pub reading_type: ReadingType,
    pub timestamp: Moment,
    pub value: Decimal,
}

#[derive(Clone, Debug, PartialEq, Eq)]
pub struct ShippingEvent {
    pub event_type: ShippingEventType,
    pub shipment_id: ShipmentId,
    pub location: Option<ReadPoint>,
    pub readings: Vec<Reading>,
    pub timestamp: Moment,
}

} // verus!
