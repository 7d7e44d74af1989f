pub mod error;
pub mod keyed;
pub mod laws;
pub mod ledger;
pub mod origin;
pub mod queue;
pub mod transition;
pub mod types;
pub mod worker;

pub use error::Error;
pub use ledger::Module;
pub use origin::{ensure_root, ensure_signed, Origin};
pub use queue::NotificationQueue;
pub use transition::transition;
pub use types::{
    AccountId, BlockNumber, Decimal, DeviceId, Identifier, Moment, ProductId, ReadPoint, Reading,
    ReadingType, Shipment, ShipmentId, ShipmentStatus, ShipmentView, ShippingEvent,
    ShippingEventIndex, ShippingEventType, ShippingOperation, IDENTIFIER_MAX_LENGTH,
    SHIPMENT_MAX_PRODUCTS,
};
pub use worker::{NotificationPass, WorkerAction};
