//! The failures that an operation on the fake stack can report.

use vstd::prelude::*;

verus! {

/// Why an operation failed. Every failure is local: the stack is left as it
/// was and the caller may go on using it.
#[derive(Clone, Copy, Debug, PartialEq, Eq, Structural)]
pub enum BluetoothError {
    /// The value could not be read: the handle names no entity of the stack,
    /// or the attribute is optional and currently unset.
    ValueUnavailable,
    /// The adapter holds no device with the requested id.
    NoSuchDevice,
    /// The adapter holds no device at all.
    NoDeviceFound,
    /// The adapter holds no advertising data at all.
    NoAdDataFound,
    /// The device holds no GATT service with the requested id.
    NoSuchService,
    /// The service holds no GATT characteristic with the requested id.
    NoSuchCharacteristic,
    /// The characteristic holds no GATT descriptor with the requested id.
    NoSuchDescriptor,
    /// GATT services were asked of a device that is not connected.
    DeviceNotConnected,
    /// `connect` on a device that is neither connected nor connectable.
    CannotConnect,
    /// `disconnect` on a device that is not connected.
    NotConnected,
    /// A list of children would hold two with the same id.
    DuplicateId,
    /// The adapter of a discovery session may not start discovery.
    CannotStartDiscovery,
    /// The adapter of a discovery session may not stop discovery.
    CannotStopDiscovery,
    /// The modalias string has not the shape `source:vVVVVpPPPPdDDDD`.
    MalformedModalias,
    /// The operation is a placeholder without behaviour.
    NotImplemented,
}

/// The five families into which the failures fall.
#[derive(Clone, Copy, Debug, PartialEq, Eq, Structural)]
pub enum ErrorKind {
    /// A value could not be obtained.
    Unavailable,
    /// A lookup found no match.
    NotFound,
    /// The entity is in a state that forbids the action.
    InvalidState,
    /// A string could not be decoded.
    MalformedData,
    /// The operation is not supported.
    NotImplemented,
}

impl BluetoothError {
    /// The family of a failure.
    pub open spec fn spec_kind(self) -> ErrorKind {
        match self {
            BluetoothError::ValueUnavailable => ErrorKind::Unavailable,
            BluetoothError::NoSuchDevice
            | BluetoothError::NoDeviceFound
            | BluetoothError::NoAdDataFound
            | BluetoothError::NoSuchService
            | BluetoothError::NoSuchCharacteristic
            | BluetoothError::NoSuchDescriptor => ErrorKind::NotFound,
            BluetoothError::DeviceNotConnected
            | BluetoothError::CannotConnect
            | BluetoothError::NotConnected
            | BluetoothError::DuplicateId
            | BluetoothError::CannotStartDiscovery
            | BluetoothError::CannotStopDiscovery => ErrorKind::InvalidState,
            BluetoothError::MalformedModalias => ErrorKind::MalformedData,
            BluetoothError::NotImplemented => ErrorKind::NotImplemented,
        }
    }

    /// The family of a failure.
    #[verifier::when_used_as_spec(spec_kind)]
    pub fn kind(self) -> (k: ErrorKind)
        ensures
            k == self.spec_kind(),
    {
        match self {
            BluetoothError::ValueUnavailable => ErrorKind::Unavailable,
            BluetoothError::NoSuchDevice => ErrorKind::NotFound,
            BluetoothError::NoDeviceFound => ErrorKind::NotFound,
            BluetoothError::NoAdDataFound => ErrorKind::NotFound,
            BluetoothError::NoSuchService => ErrorKind::NotFound,
            BluetoothError::NoSuchCharacteristic => ErrorKind::NotFound,
            BluetoothError::NoSuchDescriptor => ErrorKind::NotFound,
            BluetoothError::DeviceNotConnected => ErrorKind::InvalidState,
            BluetoothError::CannotConnect => ErrorKind::InvalidState,
            BluetoothError::NotConnected => ErrorKind::InvalidState,
            BluetoothError::DuplicateId => ErrorKind::InvalidState,
            BluetoothError::CannotStartDiscovery => ErrorKind::InvalidState,
            BluetoothError::CannotStopDiscovery => ErrorKind::InvalidState,
            BluetoothError::MalformedModalias => ErrorKind::MalformedData,
            BluetoothError::NotImplemented => ErrorKind::NotImplemented,
        }
    }

    /// The text that describes a failure to a person.
    pub fn message(self) -> (text: &'static str)
        ensures
            text@ == self.spec_message(),
    {
        match self {
            BluetoothError::ValueUnavailable => "Could not get the value.",
            BluetoothError::NoSuchDevice => "No device exists with the given id.",
            BluetoothError::NoDeviceFound => "No device found.",
            BluetoothError::NoAdDataFound => "No ad_data found.",
            BluetoothError::NoSuchService => "No service exists with the given id.",
            BluetoothError::NoSuchCharacteristic => "No characteristic exists with the given id.",
            BluetoothError::NoSuchDescriptor => "No descriptor exists with the given id.",
            BluetoothError::DeviceNotConnected => "Device not connected.",
            BluetoothError::CannotConnect => "Could not connect to the device.",
            BluetoothError::NotConnected => "The device is not connected.",
            BluetoothError::DuplicateId => "The id is in use already.",
            BluetoothError::CannotStartDiscovery => "Failed to start discovery session",
            BluetoothError::CannotStopDiscovery => "Failed to stop discovery session",
            BluetoothError::MalformedModalias => "Could not parse the modalias.",
            BluetoothError::NotImplemented => "Not implemented.",
        }
    }

    /// The characters of [`BluetoothError::message`].
    pub open spec fn spec_message(self) -> Seq<char> {
        match self {
            BluetoothError::ValueUnavailable => "Could not get the value."@,
            BluetoothError::NoSuchDevice => "No device exists with the given id."@,
            BluetoothError::NoDeviceFound => "No device found."@,
            BluetoothError::NoAdDataFound => "No ad_data found."@,
            BluetoothError::NoSuchService => "No service exists with the given id."@,
            BluetoothError::NoSuchCharacteristic => "No characteristic exists with the given id."@,
            BluetoothError::NoSuchDescriptor => "No descriptor exists with the given id."@,
            BluetoothError::DeviceNotConnected => "Device not connected."@,
            BluetoothError::CannotConnect => "Could not connect to the device."@,
            BluetoothError::NotConnected => "The device is not connected."@,
            BluetoothError::DuplicateId => "The id is in use already."@,
            BluetoothError::CannotStartDiscovery => "Failed to start discovery session"@,
            BluetoothError::CannotStopDiscovery => "Failed to stop discovery session"@,
            BluetoothError::MalformedModalias => "Could not parse the modalias."@,
            BluetoothError::NotImplemented => "Not implemented."@,
        }
    }
}

} // verus!
