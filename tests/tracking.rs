use fixed::types::I16F16;
use product_tracking::{
    Decimal, Error, Module, Origin, ReadPoint, Reading, ReadingType, Shipment, ShipmentStatus,
    ShippingEvent, ShippingEventType, ShippingOperation,
};

const TEST_PRODUCT_ID: &str = "00012345678905";
const TEST_SHIPMENT_ID: &str = "0001";
const TEST_ORGANIZATION: &str = "Northwind";
const TEST_SENDER: &str = "Alice";
const TEST_SHIPPING_EVENT_ID: &str = "9421fec019fb48299fbe";
const LONG_VALUE: &str = "Lorem ipsum dolor sit amet, consectetur adipiscing elit. Donec aliquam ut tortor nec congue. Pellente";

fn account_key(name: &str) -> Vec<u8> {
    name.as_bytes().to_vec()
}

fn signed(name: &str) -> Origin {
    Origin::Signed(account_key(name))
}

fn hex_bytes(s: &str) -> Vec<u8> {
    (0..s.len())
        .step_by(2)
        .map(|i| u8::from_str_radix(&s[i..i + 2], 16).unwrap())
        .collect()
}

fn decimal(x: f64) -> Decimal {
    Decimal { bits: I16F16::from_num(x).to_bits() }
}

/// A ledger holding shipment `id` of the test organisation, with one
/// product, brought to `status` through the ledger's own operations.
fn ledger_with_shipment(id: &[u8], status: ShipmentStatus, now: u64) -> Module {
    let mut m = Module::new();
    m.register_shipment(
        &signed(TEST_SENDER),
        id.to_vec(),
        account_key(TEST_ORGANIZATION),
        vec![TEST_PRODUCT_ID.as_bytes().to_owned()],
        now,
    )
    .unwrap();
    match status {
        ShipmentStatus::Pending => {}
        ShipmentStatus::InTransit => {
            m.track_shipment(&signed(TEST_SENDER), id.to_vec(), ShippingOperation::Pickup, now, None, None)
                .unwrap();
        }
        ShipmentStatus::Delivered => {
            m.track_shipment(&signed(TEST_SENDER), id.to_vec(), ShippingOperation::Deliver, now, None, None)
                .unwrap();
        }
    }
    m
}

#[test]
fn record_event_with_invalid_sender() {
    let mut m = Module::new();
    let now = 42;
    assert_eq!(
        m.record_event(
            &Origin::Unsigned,
            TEST_SHIPPING_EVENT_ID.as_bytes().to_owned(),
            TEST_SHIPMENT_ID.as_bytes().to_owned(),
            ShippingOperation::Pickup,
            now,
            None,
            None
        ),
        Err(Error::BadOrigin)
    );
}

#[test]
fn record_event_with_missing_event_id() {
    let mut m = Module::new();
    let now = 42;
    assert_eq!(
        m.record_event(
            &signed(TEST_SENDER),
            vec![],
            TEST_SHIPMENT_ID.as_bytes().to_owned(),
            ShippingOperation::Pickup,
            now,
            None,
            None
        ),
        Err(Error::InvalidOrMissingIdentifier)
    );
}

#[test]
fn record_event_with_long_event_id() {
    let mut m = Module::new();
    let now = 42;
    assert_eq!(
        m.record_event(
            &signed(TEST_SENDER),
            LONG_VALUE.as_bytes().to_owned(),
            TEST_SHIPMENT_ID.as_bytes().to_owned(),
            ShippingOperation::Pickup,
            now,
            None,
            None
        ),
        Err(Error::InvalidOrMissingIdentifier)
    );
}

#[test]
fn record_event_with_missing_shipment_id() {
    let mut m = Module::new();
    let now = 42;
    assert_eq!(
        m.record_event(
            &signed(TEST_SENDER),
            hex_bytes(TEST_SHIPPING_EVENT_ID),
            vec![],
            ShippingOperation::Pickup,
            now,
            None,
            None
        ),
        Err(Error::InvalidOrMissingIdentifier)
    );
}

#[test]
fn record_event_with_long_shipment_id() {
    let mut m = Module::new();
    let now = 42;
    assert_eq!(
        m.record_event(
            &signed(TEST_SENDER),
            hex_bytes(TEST_SHIPPING_EVENT_ID),
            LONG_VALUE.as_bytes().to_owned(),
            ShippingOperation::Pickup,
            now,
            None,
            None
        ),
        Err(Error::InvalidOrMissingIdentifier)
    );
}

#[test]
fn record_event_with_existing_id() {
    let existing_event = hex_bytes(TEST_SHIPPING_EVENT_ID);
    let existing_shipment = TEST_SHIPMENT_ID.as_bytes().to_owned();
    let now = 42;
    let mut m = ledger_with_shipment(&existing_shipment, ShipmentStatus::Pending, now);
    m.record_event(
        &signed(TEST_SENDER),
        existing_event.clone(),
        existing_shipment.clone(),
        ShippingOperation::Scan,
        now,
        None,
        None,
    )
    .unwrap();
    assert_eq!(m.event_index_of(&existing_event), Some(2));

    assert_eq!(
        m.record_event(
            &signed(TEST_SENDER),
            existing_event,
            existing_shipment,
            ShippingOperation::Pickup,
            now,
            None,
            None
        ),
        Err(Error::ShippingEventAlreadyExists)
    );
    assert_eq!(m.event_count(), 2);
    assert_eq!(m.shipment_by_id(TEST_SHIPMENT_ID.as_bytes()).unwrap().status, ShipmentStatus::Pending);
}

#[test]
fn record_event_with_unknown_shipment() {
    let mut m = Module::new();
    let now = 42;
    assert_eq!(
        m.record_event(
            &signed(TEST_SENDER),
            hex_bytes(TEST_SHIPPING_EVENT_ID),
            TEST_SHIPMENT_ID.as_bytes().to_owned(),
            ShippingOperation::Pickup,
            now,
            None,
            None
        ),
        Err(Error::ShipmentIsUnknown)
    );
}

#[test]
fn record_event_for_shipment_pickup() {
    let owner = account_key(TEST_ORGANIZATION);
    let event_id = hex_bytes(TEST_SHIPPING_EVENT_ID);
    let shipment_id = TEST_SHIPMENT_ID.as_bytes().to_owned();
    let now = 42;
    let mut m = ledger_with_shipment(&shipment_id, ShipmentStatus::Pending, now);

    let r = m.record_event(
        &signed(TEST_SENDER),
        event_id.clone(),
        shipment_id.clone(),
        ShippingOperation::Pickup,
        now,
        None,
        None,
    );
    assert_eq!(r, Ok((2, Some(ShipmentStatus::InTransit))));

    assert_eq!(m.event_count(), 2);
    assert_eq!(m.event_index_of(&event_id), Some(2));
    assert_eq!(
        m.event_by_idx(2),
        Some(&ShippingEvent {
            event_type: ShippingEventType::ShipmentPickup,
            shipment_id: shipment_id.clone(),
            location: None,
            readings: vec![],
            timestamp: now,
        })
    );
    assert_eq!(m.events_of_shipment(&shipment_id), vec![1, 2]);

    assert_eq!(
        m.shipment_by_id(&shipment_id),
        Some(&Shipment {
            id: shipment_id.clone(),
            owner,
            status: ShipmentStatus::InTransit,
            products: vec![TEST_PRODUCT_ID.as_bytes().to_owned()],
            registered: now,
            delivered: None,
        })
    );
}

#[test]
fn record_event_for_shipment_delivery() {
    let owner = account_key(TEST_ORGANIZATION);
    let event_id = hex_bytes(TEST_SHIPPING_EVENT_ID);
    let shipment_id = TEST_SHIPMENT_ID.as_bytes().to_owned();
    let now = 42;
    let mut m = ledger_with_shipment(&shipment_id, ShipmentStatus::InTransit, now);

    let r = m.record_event(
        &signed(TEST_SENDER),
        event_id.clone(),
        shipment_id.clone(),
        ShippingOperation::Deliver,
        now,
        None,
        None,
    );
    assert_eq!(r, Ok((3, Some(ShipmentStatus::Delivered))));

    assert_eq!(m.event_count(), 3);
    assert_eq!(m.event_index_of(&event_id), Some(3));
    assert_eq!(
        m.event_by_idx(3),
        Some(&ShippingEvent {
            event_type: ShippingEventType::ShipmentDelivery,
            shipment_id: shipment_id.clone(),
            location: None,
            readings: vec![],
            timestamp: now,
        })
    );
    assert_eq!(m.events_of_shipment(&shipment_id), vec![1, 2, 3]);

    assert_eq!(
        m.shipment_by_id(&shipment_id),
        Some(&Shipment {
            id: shipment_id.clone(),
            owner,
            status: ShipmentStatus::Delivered,
            products: vec![TEST_PRODUCT_ID.as_bytes().to_owned()],
            registered: now,
            delivered: Some(now),
        })
    );
}

#[test]
fn record_event_for_sensor_reading() {
    let owner = account_key(TEST_ORGANIZATION);
    let event_id = hex_bytes(TEST_SHIPPING_EVENT_ID);
    let shipment_id = TEST_SHIPMENT_ID.as_bytes().to_owned();
    let now = 42;
    let mut m = ledger_with_shipment(&shipment_id, ShipmentStatus::InTransit, now);

    let earlier = m
        .record_event(
            &signed(TEST_SENDER),
            hex_bytes("88356e4576444cae8c78"),
            shipment_id.clone(),
            ShippingOperation::Scan,
            now,
            None,
            None,
        )
        .unwrap();
    assert_eq!(earlier, (3, None));

    let location = Some(ReadPoint { latitude: decimal(52.4941126), longitude: decimal(13.4355606) });
    let readings = vec![Reading {
        device_id: "14d453ea4bdf46bc8042".as_bytes().to_owned(),
        reading_type: ReadingType::Temperature,
        value: decimal(20.123),
        timestamp: now,
    }];
    let r = m.record_event(
        &signed(TEST_SENDER),
        event_id.clone(),
        shipment_id.clone(),
        ShippingOperation::Scan,
        now,
        location,
        Some(readings.clone()),
    );
    assert_eq!(r, Ok((4, None)));

    assert_eq!(m.event_count(), 4);
    assert_eq!(m.event_index_of(&event_id), Some(4));
    assert_eq!(
        m.event_by_idx(4),
        Some(&ShippingEvent {
            event_type: ShippingEventType::ShipmentScan,
            shipment_id: shipment_id.clone(),
            location,
            readings,
            timestamp: now,
        })
    );
    assert_eq!(m.events_of_shipment(&shipment_id), vec![1, 2, 3, 4]);

    // The shipment is still in transit.
    assert_eq!(
        m.shipment_by_id(&shipment_id),
        Some(&Shipment {
            id: shipment_id.clone(),
            owner,
            status: ShipmentStatus::InTransit,
            products: vec![TEST_PRODUCT_ID.as_bytes().to_owned()],
            registered: now,
            delivered: None,
        })
    );
}

#[test]
fn record_event_for_delivered_shipment() {
    let event_id = hex_bytes(TEST_SHIPPING_EVENT_ID);
    let shipment_id = TEST_SHIPMENT_ID.as_bytes().to_owned();
    let now = 42;
    let mut m = ledger_with_shipment(&shipment_id, ShipmentStatus::Delivered, now);

    assert_eq!(
        m.record_event(
            &signed(TEST_SENDER),
            event_id.clone(),
            shipment_id.clone(),
            ShippingOperation::Pickup,
            now,
            None,
            None
        ),
        Err(Error::ShipmentHasBeenDelivered)
    );
    assert_eq!(m.event_index_of(&event_id), None);
}

#[test]
fn record_event_for_intransit_shipment() {
    let event_id = hex_bytes(TEST_SHIPPING_EVENT_ID);
    let shipment_id = TEST_SHIPMENT_ID.as_bytes().to_owned();
    let now = 42;
    let mut m = ledger_with_shipment(&shipment_id, ShipmentStatus::InTransit, now);

    assert_eq!(
        m.record_event(
            &signed(TEST_SENDER),
            event_id.clone(),
            shipment_id.clone(),
            ShippingOperation::Pickup,
            now,
            None,
            None
        ),
        Err(Error::ShipmentIsInTransit)
    );
    assert_eq!(m.event_index_of(&event_id), None);
}

#[test]
fn pickup_scenario_and_second_pickup_conflict() {
    let mut m = ledger_with_shipment(b"0001", ShipmentStatus::Pending, 42);
    let r = m.track_shipment(&signed(TEST_SENDER), b"0001".to_vec(), ShippingOperation::Pickup, 42, None, None);
    assert_eq!(r, Ok((2, Some(ShipmentStatus::InTransit))));
    assert_eq!(m.event_by_idx(2).unwrap().event_type, ShippingEventType::ShipmentPickup);
    assert_eq!(m.shipment_by_id(b"0001").unwrap().status, ShipmentStatus::InTransit);

    let again = m.track_shipment(&signed(TEST_SENDER), b"0001".to_vec(), ShippingOperation::Pickup, 43, None, None);
    assert_eq!(again, Err(Error::ShipmentIsInTransit));
    assert_eq!(m.shipment_by_id(b"0001").unwrap().status, ShipmentStatus::InTransit);
    assert_eq!(m.event_count(), 2);
    assert_eq!(m.event_by_idx(3), None);
}

#[test]
fn delivery_scenario_and_later_operations_conflict() {
    let mut m = ledger_with_shipment(b"0001", ShipmentStatus::InTransit, 42);
    let r = m.track_shipment(&signed(TEST_SENDER), b"0001".to_vec(), ShippingOperation::Deliver, 100, None, None);
    assert_eq!(r, Ok((3, Some(ShipmentStatus::Delivered))));
    let rec = m.shipment_by_id(b"0001").unwrap().clone();
    assert_eq!(rec.status, ShipmentStatus::Delivered);
    assert_eq!(rec.delivered, Some(100));
    assert_eq!(m.event_by_idx(3).unwrap().event_type, ShippingEventType::ShipmentDelivery);

    for op in [ShippingOperation::Pickup, ShippingOperation::Scan, ShippingOperation::Deliver] {
        assert_eq!(
            m.track_shipment(&signed(TEST_SENDER), b"0001".to_vec(), op, 200, None, None),
            Err(Error::ShipmentHasBeenDelivered)
        );
    }
    assert_eq!(m.shipment_by_id(b"0001"), Some(&rec));
    assert_eq!(m.event_count(), 3);
}

#[test]
fn scan_scenario_keeps_status() {
    let mut m = ledger_with_shipment(b"0001", ShipmentStatus::InTransit, 42);
    let before = m.shipment_by_id(b"0001").unwrap().clone();
    let readings = vec![Reading {
        device_id: b"dev-1".to_vec(),
        reading_type: ReadingType::Humidity,
        value: Decimal { bits: 65536 * 3 },
        timestamp: 50,
    }];
    let r = m.track_shipment(&signed(TEST_SENDER), b"0001".to_vec(), ShippingOperation::Scan, 50, None, Some(readings.clone()));
    assert_eq!(r, Ok((3, None)));
    assert_eq!(m.shipment_by_id(b"0001"), Some(&before));
    let ev = m.event_by_idx(3).unwrap();
    assert_eq!(ev.event_type, ShippingEventType::ShipmentScan);
    assert_eq!(ev.readings, readings);
    assert_eq!(ev.timestamp, 50);
}

#[test]
fn pending_shipment_can_be_delivered_or_scanned() {
    let mut m = ledger_with_shipment(b"A", ShipmentStatus::Pending, 1);
    assert_eq!(
        m.track_shipment(&signed(TEST_SENDER), b"A".to_vec(), ShippingOperation::Scan, 2, None, None),
        Ok((2, None))
    );
    assert_eq!(m.shipment_by_id(b"A").unwrap().status, ShipmentStatus::Pending);
    assert_eq!(
        m.track_shipment(&signed(TEST_SENDER), b"A".to_vec(), ShippingOperation::Deliver, 3, None, None),
        Ok((3, Some(ShipmentStatus::Delivered)))
    );
    assert_eq!(m.shipment_by_id(b"A").unwrap().delivered, Some(3));
}

#[test]
fn track_shipment_checks_origin_and_identifier() {
    let mut m = ledger_with_shipment(b"0001", ShipmentStatus::Pending, 1);
    assert_eq!(
        m.track_shipment(&Origin::Root, b"0001".to_vec(), ShippingOperation::Pickup, 2, None, None),
        Err(Error::BadOrigin)
    );
    assert_eq!(
        m.track_shipment(&signed(TEST_SENDER), vec![], ShippingOperation::Pickup, 2, None, None),
        Err(Error::InvalidOrMissingIdentifier)
    );
    assert_eq!(
        m.track_shipment(&signed(TEST_SENDER), LONG_VALUE.as_bytes().to_vec(), ShippingOperation::Pickup, 2, None, None),
        Err(Error::InvalidOrMissingIdentifier)
    );
    assert_eq!(m.event_count(), 1);
    assert_eq!(m.shipment_by_id(b"0001").unwrap().status, ShipmentStatus::Pending);
}

#[test]
fn shipment_pickup_and_deliver_methods() {
    let s = Shipment {
        id: b"s".to_vec(),
        owner: b"o".to_vec(),
        status: ShipmentStatus::Pending,
        products: vec![],
        registered: 5,
        delivered: None,
    };
    let p = s.clone().pickup();
    assert_eq!(p.status, ShipmentStatus::InTransit);
    assert_eq!(p.delivered, None);
    let d = p.deliver(9);
    assert_eq!(d.status, ShipmentStatus::Delivered);
    assert_eq!(d.delivered, Some(9));
    assert_eq!(d.registered, 5);
}
