//! The IO boards' object dictionary, and what a log says about it.
//!
//! A node's configuration and state live in an object dictionary (`index.sub`), read and
//! written one expedited SDO at a time, and most of the `0x2000` process objects are also
//! broadcast unasked as fixed TPDOs. So a log answers "what was object `0x2010.1` of node 5
//! at 12:03:41?" from two directions: the SDO traffic, and the TPDO frames that mirror the
//! objects.
pub mod dictionary;
pub mod history;
pub mod history_laws;
pub mod laws;
pub mod log;
pub mod mirror;
pub mod replay;
pub mod sdo;
pub mod wire_laws;
pub mod wording_laws;

pub use crate::can::canopen::dictionary::{
    abort_reason, describe_object, nmt_label, object, Access, DataType, Element, Format, Labels,
    ObjectDef, DICTIONARY,
};
pub use crate::can::canopen::mirror::tpdo_objects;
pub use crate::can::canopen::sdo::{decode_sdo, SdoKind, SdoTransfer};
pub use crate::can::canopen::history::{CanOpenLog, StepSeries};
pub use crate::can::canopen::log::{
    NodeInfo, NodeKey, ObjectKey, ObjectTrack, Origin, ValueChange,
};
