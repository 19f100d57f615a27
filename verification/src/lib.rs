//! Host-side protocol core of a Bluetooth Low Energy stack: L2CAP framing,
//! the ATT codec and attribute server, the GATT server step and the decoding
//! of batched advertising reports.

pub mod att;
pub mod attribute;
pub mod attribute_server;
pub mod gatt;
pub mod gatt_laws;
pub mod l2cap;
pub mod pdu;
pub mod scan;
pub mod scan_laws;
pub mod wire;
