use fake_bluetooth::error::BluetoothError;
use fake_bluetooth::fake_adapters_with_results::FakeBluetoothAdapter;

fn owned(s: &str) -> String {
    String::from(s)
}

fn lone_adapter(devices: Vec<String>, addatas: Vec<String>, modalias: &str) -> FakeBluetoothAdapter {
    FakeBluetoothAdapter::new(
        owned("/org/bluez/hci0"),
        true,
        false,
        true,
        false,
        devices,
        addatas,
        owned("00:11"),
        owned("name"),
        owned("alias"),
        12,
        true,
        false,
        5,
        6,
        true,
        owned(modalias),
    )
}

#[test]
fn lone_adapter_keeps_every_attribute() {
    let adapter = lone_adapter(vec![owned("d1"), owned("d2")], vec![owned("a1")], "usb:v1D6Bp0246d0540");
    assert_eq!(adapter.get_object_path(), "/org/bluez/hci0");
    assert!(adapter.get_present());
    assert!(adapter.get_canStartDiscovery());
    assert!(!adapter.get_canStopDiscovery());
    assert_eq!(adapter.get_first_device(), Ok(owned("d1")));
    assert_eq!(adapter.get_first_addata(), Ok(owned("a1")));
    assert_eq!(adapter.get_device_list(), Ok(vec![owned("d1"), owned("d2")]));
    assert_eq!(adapter.get_address(), Ok(owned("00:11")));
    assert_eq!(adapter.get_name(), Ok(owned("name")));
    assert_eq!(adapter.get_alias(), Ok(owned("alias")));
    assert_eq!(adapter.get_class(), Ok(12));
    assert_eq!(adapter.is_powered(), Ok(false));
    assert_eq!(adapter.is_discoverable(), Ok(true));
    assert_eq!(adapter.is_pairable(), Ok(false));
    assert_eq!(adapter.get_pairable_timeout(), Ok(5));
    assert_eq!(adapter.get_discoverable_timeout(), Ok(6));
    assert_eq!(adapter.is_discovering(), Ok(true));
    assert_eq!(adapter.get_modalias(), Ok((owned("usb"), 0x1D6B, 0x0246, 0x0540)));
    assert_eq!(adapter.get_vendor_id_source(), Ok(owned("usb")));
    assert_eq!(adapter.get_vendor_id(), Ok(0x1D6B));
    assert_eq!(adapter.get_product_id(), Ok(0x0246));
    assert_eq!(adapter.get_device_id(), Ok(0x0540));
}

#[test]
fn lone_adapter_without_devices_or_ad_data() {
    let adapter = lone_adapter(vec![], vec![], "usb:v1D6Bp0246d0540");
    assert_eq!(adapter.get_first_device(), Err(BluetoothError::NoDeviceFound));
    assert_eq!(adapter.get_first_addata(), Err(BluetoothError::NoAdDataFound));
    assert_eq!(adapter.get_device_list(), Ok(vec![]));
}

#[test]
fn lone_adapter_setters_change_what_the_getters_give() {
    let mut adapter = lone_adapter(vec![], vec![], "");
    assert_eq!(adapter.set_powered(true), Ok(()));
    assert_eq!(adapter.set_discoverable(false), Ok(()));
    assert_eq!(adapter.set_pairable(true), Ok(()));
    assert_eq!(adapter.set_pairable_timeout(100), Ok(()));
    assert_eq!(adapter.set_discoverable_timeout(u32::MAX), Ok(()));
    assert_eq!(adapter.is_powered(), Ok(true));
    assert_eq!(adapter.is_discoverable(), Ok(false));
    assert_eq!(adapter.is_pairable(), Ok(true));
    assert_eq!(adapter.get_pairable_timeout(), Ok(100));
    assert_eq!(adapter.get_discoverable_timeout(), Ok(u32::MAX));
    assert_eq!(adapter.get_class(), Ok(12));
    assert_eq!(adapter.get_name(), Ok(owned("name")));
}

#[test]
fn lone_adapter_with_a_malformed_modalias_fails() {
    let adapter = lone_adapter(vec![], vec![], "usb-v1D6Bp0246d0540");
    assert_eq!(adapter.get_modalias(), Err(BluetoothError::MalformedModalias));
    assert_eq!(adapter.get_vendor_id_source(), Err(BluetoothError::MalformedModalias));
    assert_eq!(adapter.get_vendor_id(), Err(BluetoothError::MalformedModalias));
    assert_eq!(adapter.get_product_id(), Err(BluetoothError::MalformedModalias));
    assert_eq!(adapter.get_device_id(), Err(BluetoothError::MalformedModalias));
}
