//! A verified broker between untrusted scripting content and a GATT stack,
//! implementing the Web Bluetooth device-access protocol: request/reply
//! handlers, the identifier-and-cache graph, per-device allowed services,
//! filter matching, and the connect/disconnect transaction.

pub mod adapter;
pub mod allowed;
pub mod manager;
pub mod messages;
pub mod properties;
pub mod scanfilter;
pub mod strmap;
pub mod strutil;
