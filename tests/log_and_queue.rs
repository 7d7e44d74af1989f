use product_tracking::{
    ensure_root, ensure_signed, transition, Error, Module, NotificationPass, Origin,
    ShipmentStatus, ShippingEvent, ShippingEventType, ShippingOperation, WorkerAction,
};

fn signed(name: &str) -> Origin {
    Origin::Signed(name.as_bytes().to_vec())
}

fn event_for(id: &[u8], t: u64) -> ShippingEvent {
    ShippingEvent {
        event_type: ShippingEventType::SensorReading,
        shipment_id: id.to_vec(),
        location: None,
        readings: vec![],
        timestamp: t,
    }
}

#[test]
fn store_event_assigns_consecutive_indices() {
    let mut m = Module::new();
    let ids: [&[u8]; 5] = [b"a", b"b", b"a", b"c", b"a"];
    for (n, id) in ids.iter().enumerate() {
        assert_eq!(m.store_event(event_for(id, n as u64)), Ok(n as u128 + 1));
    }
    assert_eq!(m.event_count(), 5);
    assert_eq!(m.events_of_shipment(b"a"), vec![1, 3, 5]);
    assert_eq!(m.events_of_shipment(b"b"), vec![2]);
    assert_eq!(m.events_of_shipment(b"c"), vec![4]);
    assert_eq!(m.events_of_shipment(b"d"), Vec::<u128>::new());
    assert_eq!(m.event_by_idx(0), None);
    assert_eq!(m.event_by_idx(4), Some(&event_for(b"c", 3)));
    assert_eq!(m.event_by_idx(6), None);
    // Logging alone queues nothing: queueing is the caller's step.
    assert_eq!(m.pending_notifications(), Vec::<u128>::new());
}

#[test]
fn registration_queues_what_a_bare_log_write_does_not() {
    let mut m = Module::new();
    assert_eq!(m.store_event(event_for(b"a", 1)), Ok(1));
    assert_eq!(m.pending_notifications(), Vec::<u128>::new());
    let (_, idx) = m
        .register_shipment(&signed("Alice"), b"0001".to_vec(), b"Northwind".to_vec(), vec![], 2)
        .unwrap();
    assert_eq!(idx, 2);
    assert_eq!(m.pending_notifications(), vec![2]);
    assert_eq!(m.ocw_notifications(0), vec![2]);
}

#[test]
fn every_logged_index_is_queued_once_until_cleared() {
    let mut m = Module::new();
    m.register_shipment(&signed("Alice"), b"0001".to_vec(), b"Northwind".to_vec(), vec![], 1).unwrap();
    m.set_block_number(3);
    m.track_shipment(&signed("Alice"), b"0001".to_vec(), ShippingOperation::Pickup, 2, None, None).unwrap();
    m.register_shipment(&signed("Alice"), b"0002".to_vec(), b"Northwind".to_vec(), vec![], 2).unwrap();
    m.set_block_number(7);
    m.track_shipment(&signed("Alice"), b"0001".to_vec(), ShippingOperation::Scan, 3, None, None).unwrap();

    assert_eq!(m.block_number(), 7);
    assert_eq!(m.ocw_notifications(0), vec![1]);
    assert_eq!(m.ocw_notifications(3), vec![2, 3]);
    assert_eq!(m.ocw_notifications(7), vec![4]);
    assert_eq!(m.ocw_notifications(5), Vec::<u128>::new());
    assert_eq!(m.pending_notifications(), vec![1, 2, 3, 4]);

    // A refused instruction queues nothing.
    assert!(m.track_shipment(&signed("Alice"), b"0001".to_vec(), ShippingOperation::Pickup, 4, None, None).is_err());
    assert_eq!(m.pending_notifications(), vec![1, 2, 3, 4]);

    assert_eq!(m.clear_notifications(&Origin::Root), Ok(()));
    assert_eq!(m.pending_notifications(), Vec::<u128>::new());
    assert_eq!(m.ocw_notifications(3), Vec::<u128>::new());
    // The log itself is kept.
    assert_eq!(m.event_count(), 4);
    assert_eq!(m.events_of_shipment(b"0001"), vec![1, 2, 4]);

    m.track_shipment(&signed("Alice"), b"0002".to_vec(), ShippingOperation::Deliver, 9, None, None).unwrap();
    assert_eq!(m.pending_notifications(), vec![5]);
    assert_eq!(m.ocw_notifications(7), vec![5]);
}

#[test]
fn clearing_from_ordinary_origin_is_refused() {
    let mut m = Module::new();
    m.register_shipment(&signed("Alice"), b"0001".to_vec(), b"Northwind".to_vec(), vec![], 1).unwrap();
    assert_eq!(m.clear_notifications(&signed("Alice")), Err(Error::BadOrigin));
    assert_eq!(m.clear_notifications(&Origin::Unsigned), Err(Error::BadOrigin));
    assert_eq!(m.pending_notifications(), vec![1]);
    assert_eq!(m.ocw_notifications(0), vec![1]);
}

#[test]
fn origin_checks() {
    assert_eq!(ensure_signed(&signed("x")), Ok(()));
    assert_eq!(ensure_signed(&Origin::Root), Err(Error::BadOrigin));
    assert_eq!(ensure_signed(&Origin::Unsigned), Err(Error::BadOrigin));
    assert_eq!(ensure_root(&Origin::Root), Ok(()));
    assert_eq!(ensure_root(&signed("x")), Err(Error::BadOrigin));
    assert_eq!(ensure_root(&Origin::Unsigned), Err(Error::BadOrigin));
}

#[test]
fn transition_table() {
    assert_eq!(transition(ShipmentStatus::Pending, ShippingOperation::Pickup), Ok(ShipmentStatus::InTransit));
    assert_eq!(transition(ShipmentStatus::Pending, ShippingOperation::Scan), Ok(ShipmentStatus::Pending));
    assert_eq!(transition(ShipmentStatus::Pending, ShippingOperation::Deliver), Ok(ShipmentStatus::Delivered));
    assert_eq!(transition(ShipmentStatus::InTransit, ShippingOperation::Pickup), Err(Error::ShipmentIsInTransit));
    assert_eq!(transition(ShipmentStatus::InTransit, ShippingOperation::Scan), Ok(ShipmentStatus::InTransit));
    assert_eq!(transition(ShipmentStatus::InTransit, ShippingOperation::Deliver), Ok(ShipmentStatus::Delivered));
    assert_eq!(transition(ShipmentStatus::Delivered, ShippingOperation::Pickup), Err(Error::ShipmentHasBeenDelivered));
    assert_eq!(transition(ShipmentStatus::Delivered, ShippingOperation::Scan), Err(Error::ShipmentHasBeenDelivered));
    assert_eq!(transition(ShipmentStatus::Delivered, ShippingOperation::Deliver), Err(Error::ShipmentHasBeenDelivered));
}

#[test]
fn operation_to_event_type() {
    assert_eq!(ShippingEventType::from(ShippingOperation::Pickup), ShippingEventType::ShipmentPickup);
    assert_eq!(ShippingEventType::from(ShippingOperation::Scan), ShippingEventType::ShipmentScan);
    assert_eq!(ShippingEventType::from(ShippingOperation::Deliver), ShippingEventType::ShipmentDelivery);
}

#[test]
fn worker_pass_delivers_each_then_clears_once() {
    let mut pass = NotificationPass::new(vec![4, 7, 9]);
    assert_eq!(pass.step(), WorkerAction::Deliver(4));
    assert_eq!(pass.step(), WorkerAction::Deliver(7));
    assert_eq!(pass.step(), WorkerAction::Deliver(9));
    assert_eq!(pass.step(), WorkerAction::SubmitClear);
    assert_eq!(pass.step(), WorkerAction::Done);
    assert_eq!(pass.step(), WorkerAction::Done);

    let mut empty = NotificationPass::new(vec![]);
    assert_eq!(empty.step(), WorkerAction::SubmitClear);
    assert_eq!(empty.step(), WorkerAction::Done);
}

#[test]
fn worker_pass_over_ledger_queue_then_clear() {
    let mut m = Module::new();
    m.register_shipment(&signed("Alice"), b"0001".to_vec(), b"Northwind".to_vec(), vec![], 1).unwrap();
    m.track_shipment(&signed("Alice"), b"0001".to_vec(), ShippingOperation::Pickup, 2, None, None).unwrap();
    let mut pass = NotificationPass::new(m.pending_notifications());
    let mut offered = vec![];
    loop {
        match pass.step() {
            WorkerAction::Deliver(i) => offered.push(i),
            WorkerAction::SubmitClear => assert_eq!(m.clear_notifications(&Origin::Root), Ok(())),
            WorkerAction::Done => break,
        }
    }
    assert_eq!(offered, vec![1, 2]);
    assert_eq!(m.pending_notifications(), Vec::<u128>::new());
}
