//! The request and reply messages of the broker and its error taxonomy.
//!
//! Every handler converts driver failures into one of these errors before
//! replying; no other failure shape crosses the reply channel.

use vstd::prelude::*;
use crate::scanfilter::RequestDeviceoptions;

verus! {

#[derive(Clone, Debug, PartialEq, Eq)]
pub enum BluetoothError {
    /// No adapter present, or re-initialization failed.
    AdapterError,
    /// Adapter present but powered off.
    AdapterNotPowered,
    /// Identifier unknown, address unchooseable, or an empty result where one
    /// was required.
    NotFound,
    /// Requested service UUID not in the device's allowed set.
    Security,
    /// Connect or disconnect transaction timed out.
    Network,
    /// Read or write on an attribute that is neither a cached characteristic
    /// nor a cached descriptor, or the driver rejected the operation.
    NotSupported,
    /// Discovery-start failure, test-setup failure, or a wrong data-set name;
    /// carries a short message.
    Type(String),
}

pub type BluetoothResult<T> = Result<T, BluetoothError>;

#[derive(Debug)]
pub struct BluetoothDeviceMsg {
    pub id: String,
    pub name: Option<String>,
    pub appearance: Option<u16>,
    pub tx_power: Option<i8>,
    pub rssi: Option<i8>,
}

#[derive(Debug)]
pub struct BluetoothServiceMsg {
    pub uuid: String,
    pub is_primary: bool,
    pub instance_id: String,
}

#[derive(Debug)]
pub struct BluetoothCharacteristicMsg {
    pub uuid: String,
    pub instance_id: String,
    pub broadcast: bool,
    pub read: bool,
    pub write_without_response: bool,
    pub write: bool,
    pub notify: bool,
    pub indicate: bool,
    pub authenticated_signed_writes: bool,
    pub reliable_write: bool,
    pub writable_auxiliaries: bool,
}

#[derive(Debug)]
pub struct BluetoothDescriptorMsg {
    pub uuid: String,
    pub instance_id: String,
}

pub type BluetoothServicesMsg = Vec<BluetoothServiceMsg>;

pub type BluetoothCharacteristicsMsg = Vec<BluetoothCharacteristicMsg>;

pub type BluetoothDescriptorsMsg = Vec<BluetoothDescriptorMsg>;

/// A request to the broker. Each carries the inputs of the handler; the
/// reply travels back as the dispatcher's result.
pub enum BluetoothMethodMsg {
    RequestDevice(RequestDeviceoptions),
    GATTServerConnect(String),
    GATTServerDisconnect(String),
    GetPrimaryService(String, String),
    GetPrimaryServices(String, Option<String>),
    GetIncludedService(String, String),
    GetIncludedServices(String, Option<String>),
    GetCharacteristic(String, String),
    GetCharacteristics(String, Option<String>),
    GetDescriptor(String, String),
    GetDescriptors(String, Option<String>),
    ReadValue(String),
    WriteValue(String, Vec<u8>),
    Test(String),
    Exit,
}

/// The reply to a request, shaped to the request kind.
pub enum BluetoothReply {
    Device(BluetoothResult<BluetoothDeviceMsg>),
    Connected(BluetoothResult<bool>),
    Service(BluetoothResult<BluetoothServiceMsg>),
    Services(BluetoothResult<BluetoothServicesMsg>),
    Characteristic(BluetoothResult<BluetoothCharacteristicMsg>),
    Characteristics(BluetoothResult<BluetoothCharacteristicsMsg>),
    Descriptor(BluetoothResult<BluetoothDescriptorMsg>),
    Descriptors(BluetoothResult<BluetoothDescriptorsMsg>),
    Value(BluetoothResult<Vec<u8>>),
    Written(BluetoothResult<bool>),
    TestResult(BluetoothResult<bool>),
}

} // verus!
