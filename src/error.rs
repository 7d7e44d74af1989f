use vstd::prelude::*;

verus! {

/// Why an instruction was rejected. A rejected instruction changes nothing.
#[derive(Clone, Copy, Debug, PartialEq, Eq, Structural)]
pub enum Error {
    /// The origin is not allowed to submit the instruction.
    BadOrigin,
    InvalidOrMissingIdentifier,
    ShipmentAlreadyExists,
    ShipmentHasBeenDelivered,
    ShipmentIsInTransit,
    ShipmentIsUnknown,
    ShipmentHasTooManyProducts,
    ShippingEventAlreadyExists,
    ShippingEventMaxExceeded,
}

} // verus!
