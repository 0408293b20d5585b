use fake_bluetooth::error::{BluetoothError, ErrorKind};

#[test]
fn every_error_has_its_kind() {
    assert_eq!(BluetoothError::ValueUnavailable.kind(), ErrorKind::Unavailable);
    assert_eq!(BluetoothError::NoSuchDevice.kind(), ErrorKind::NotFound);
    assert_eq!(BluetoothError::NoDeviceFound.kind(), ErrorKind::NotFound);
    assert_eq!(BluetoothError::NoAdDataFound.kind(), ErrorKind::NotFound);
    assert_eq!(BluetoothError::NoSuchService.kind(), ErrorKind::NotFound);
    assert_eq!(BluetoothError::NoSuchCharacteristic.kind(), ErrorKind::NotFound);
    assert_eq!(BluetoothError::NoSuchDescriptor.kind(), ErrorKind::NotFound);
    assert_eq!(BluetoothError::DeviceNotConnected.kind(), ErrorKind::InvalidState);
    assert_eq!(BluetoothError::CannotConnect.kind(), ErrorKind::InvalidState);
    assert_eq!(BluetoothError::NotConnected.kind(), ErrorKind::InvalidState);
    assert_eq!(BluetoothError::DuplicateId.kind(), ErrorKind::InvalidState);
    assert_eq!(BluetoothError::CannotStartDiscovery.kind(), ErrorKind::InvalidState);
    assert_eq!(BluetoothError::CannotStopDiscovery.kind(), ErrorKind::InvalidState);
    assert_eq!(BluetoothError::MalformedModalias.kind(), ErrorKind::MalformedData);
    assert_eq!(BluetoothError::NotImplemented.kind(), ErrorKind::NotImplemented);
}

#[test]
fn every_error_has_its_message() {
    assert_eq!(BluetoothError::ValueUnavailable.message(), "Could not get the value.");
    assert_eq!(BluetoothError::NoSuchDevice.message(), "No device exists with the given id.");
    assert_eq!(BluetoothError::NoDeviceFound.message(), "No device found.");
    assert_eq!(BluetoothError::NoAdDataFound.message(), "No ad_data found.");
    assert_eq!(BluetoothError::NoSuchService.message(), "No service exists with the given id.");
    assert_eq!(
        BluetoothError::NoSuchCharacteristic.message(),
        "No characteristic exists with the given id."
    );
    assert_eq!(
        BluetoothError::NoSuchDescriptor.message(),
        "No descriptor exists with the given id."
    );
    assert_eq!(BluetoothError::DeviceNotConnected.message(), "Device not connected.");
    assert_eq!(BluetoothError::CannotConnect.message(), "Could not connect to the device.");
    assert_eq!(BluetoothError::NotConnected.message(), "The device is not connected.");
    assert_eq!(BluetoothError::DuplicateId.message(), "The id is in use already.");
    assert_eq!(
        BluetoothError::CannotStartDiscovery.message(),
        "Failed to start discovery session"
    );
    assert_eq!(BluetoothError::CannotStopDiscovery.message(), "Failed to stop discovery session");
    assert_eq!(BluetoothError::MalformedModalias.message(), "Could not parse the modalias.");
    assert_eq!(BluetoothError::NotImplemented.message(), "Not implemented.");
}
