use vstd::prelude::*;
use crate::error::Error;
use crate::types::{Moment, ShipmentStatus, ShipmentView, ShippingOperation};

verus! {

/// The status transition table: the status a shipment has after `op`, or
/// the conflict that forbids `op` in `status`. A scan never changes the
/// status.
pub open spec fn next_status(status: ShipmentStatus, op: ShippingOperation) -> Result<
    ShipmentStatus,
    Error,
> {
    match (status, op) {
        (ShipmentStatus::Delivered, _) => Err(Error::ShipmentHasBeenDelivered),
        (ShipmentStatus::InTransit, ShippingOperation::Pickup) => Err(Error::ShipmentIsInTransit),
        (_, ShippingOperation::Pickup) => Ok(ShipmentStatus::InTransit),
        (_, ShippingOperation::Deliver) => Ok(ShipmentStatus::Delivered),
        (s, ShippingOperation::Scan) => Ok(s),
    }
}

/// The record after an accepted operation at time `t`: a pickup puts it in
/// transit, a delivery marks it delivered at `t`, a scan leaves it as it is.
pub open spec fn applied(rec: ShipmentView, op: ShippingOperation, t: Moment) -> ShipmentView {
    match op {
        ShippingOperation::Pickup => ShipmentView { status: ShipmentStatus::InTransit, ..rec },
        ShippingOperation::Deliver => ShipmentView {
            status: ShipmentStatus::Delivered,
            delivered: Some(t),
            ..rec
        },
        ShippingOperation::Scan => rec,
    }
}

/// Decides an operation against the current status.
pub fn transition(status: ShipmentStatus, op: ShippingOperation) -> (r: Result<
    ShipmentStatus,
    Error,
>)
    ensures
        r == next_status(status, op),
{
    match status {
        ShipmentStatus::Delivered => Err(Error::ShipmentHasBeenDelivered),
        ShipmentStatus::InTransit => match op {
            ShippingOperation::Pickup => Err(Error::ShipmentIsInTransit),
            ShippingOperation::Scan => Ok(ShipmentStatus::InTransit),
            ShippingOperation::Deliver => Ok(ShipmentStatus::Delivered),
        },
        ShipmentStatus::Pending => match op {
            ShippingOperation::Pickup => Ok(ShipmentStatus::InTransit),
            ShippingOperation::Scan => Ok(ShipmentStatus::Pending),
            ShippingOperation::Deliver => Ok(ShipmentStatus::Delivered),
        },
    }
}

} // verus!
