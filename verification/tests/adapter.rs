use fake_bluetooth::error::BluetoothError;
use fake_bluetooth::fake_adapter::FakeBluetoothAdapter;
use fake_bluetooth::fake_device::FakeBluetoothDevice;
use fake_bluetooth::stack::FakeBluetoothStack;

fn text(s: &str) -> String {
    String::from(s)
}

fn full_adapter(stack: &mut FakeBluetoothStack, devices: Vec<FakeBluetoothDevice>) -> Result<FakeBluetoothAdapter, BluetoothError> {
    FakeBluetoothAdapter::new(
        stack,
        text("hci0"),
        true,
        true,
        false,
        true,
        devices,
        vec![text("ad1"), text("ad2")],
        text("00:11:22:33:44:55"),
        text("name"),
        text("alias"),
        7,
        true,
        false,
        30,
        60,
        true,
        vec![text("uuid1")],
        text("usb:v1D6Bp0246d0540"),
    )
}

#[test]
fn adapter_new_keeps_every_attribute() {
    let mut stack = FakeBluetoothStack::new();
    let adapter = full_adapter(&mut stack, vec![]).unwrap();
    assert_eq!(adapter.get_id(&stack), Ok(text("hci0")));
    assert_eq!(adapter.is_present(&stack), Ok(true));
    assert_eq!(adapter.is_powered(&stack), Ok(true));
    assert_eq!(adapter.get_can_start_discovery(&stack), Ok(false));
    assert_eq!(adapter.get_can_stop_discovery(&stack), Ok(true));
    assert_eq!(adapter.get_devices(&stack), Ok(vec![]));
    assert_eq!(adapter.get_ad_datas(&stack), Ok(vec![text("ad1"), text("ad2")]));
    assert_eq!(adapter.get_address(&stack), Ok(text("00:11:22:33:44:55")));
    assert_eq!(adapter.get_name(&stack), Ok(text("name")));
    assert_eq!(adapter.get_alias(&stack), Ok(text("alias")));
    assert_eq!(adapter.get_class(&stack), Ok(7));
    assert_eq!(adapter.is_discoverable(&stack), Ok(true));
    assert_eq!(adapter.is_pairable(&stack), Ok(false));
    assert_eq!(adapter.get_pairable_timeout(&stack), Ok(30));
    assert_eq!(adapter.get_discoverable_timeout(&stack), Ok(60));
    assert_eq!(adapter.is_discovering(&stack), Ok(true));
    assert_eq!(adapter.get_uuids(&stack), Ok(vec![text("uuid1")]));
    assert_eq!(adapter.get_modalias(&stack), Ok((text("usb"), 0x1D6B, 0x0246, 0x0540)));
}

#[test]
fn adapter_new_empty_has_the_defaults() {
    let mut stack = FakeBluetoothStack::new();
    let adapter = FakeBluetoothAdapter::new_empty(&mut stack);
    assert_eq!(adapter.get_id(&stack), Ok(String::new()));
    assert_eq!(adapter.is_present(&stack), Ok(true));
    assert_eq!(adapter.is_powered(&stack), Ok(false));
    assert_eq!(adapter.get_can_start_discovery(&stack), Ok(true));
    assert_eq!(adapter.get_can_stop_discovery(&stack), Ok(true));
    assert_eq!(adapter.get_devices(&stack), Ok(vec![]));
    assert_eq!(adapter.get_ad_datas(&stack), Ok(vec![]));
    assert_eq!(adapter.get_address(&stack), Ok(String::new()));
    assert_eq!(adapter.get_name(&stack), Ok(String::new()));
    assert_eq!(adapter.get_alias(&stack), Ok(String::new()));
    assert_eq!(adapter.get_class(&stack), Ok(0));
    assert_eq!(adapter.is_discoverable(&stack), Ok(false));
    assert_eq!(adapter.is_pairable(&stack), Ok(false));
    assert_eq!(adapter.get_pairable_timeout(&stack), Ok(0));
    assert_eq!(adapter.get_discoverable_timeout(&stack), Ok(0));
    assert_eq!(adapter.is_discovering(&stack), Ok(false));
    assert_eq!(adapter.get_uuids(&stack), Ok(vec![]));
}

#[test]
fn two_adapters_are_two_entities() {
    let mut stack = FakeBluetoothStack::new();
    let first = FakeBluetoothAdapter::new_empty(&mut stack);
    let second = FakeBluetoothAdapter::new_empty(&mut stack);
    assert_ne!(first, second);
    first.set_name(&mut stack, text("one")).unwrap();
    assert_eq!(first.get_name(&stack), Ok(text("one")));
    assert_eq!(second.get_name(&stack), Ok(String::new()));
}

#[test]
fn adapter_setters_change_what_the_getters_give() {
    let mut stack = FakeBluetoothStack::new();
    let adapter = FakeBluetoothAdapter::new_empty(&mut stack);
    assert_eq!(adapter.set_id(&mut stack, text("a")), Ok(()));
    assert_eq!(adapter.set_present(&mut stack, false), Ok(()));
    assert_eq!(adapter.set_powered(&mut stack, true), Ok(()));
    assert_eq!(adapter.set_can_start_discovery(&mut stack, false), Ok(()));
    assert_eq!(adapter.set_can_stop_discovery(&mut stack, false), Ok(()));
    assert_eq!(adapter.set_ad_datas(&mut stack, vec![text("x")]), Ok(()));
    assert_eq!(adapter.set_address(&mut stack, text("addr")), Ok(()));
    assert_eq!(adapter.set_name(&mut stack, text("n")), Ok(()));
    assert_eq!(adapter.set_alias(&mut stack, text("al")), Ok(()));
    assert_eq!(adapter.set_class(&mut stack, 9), Ok(()));
    assert_eq!(adapter.set_discoverable(&mut stack, true), Ok(()));
    assert_eq!(adapter.set_pairable(&mut stack, true), Ok(()));
    assert_eq!(adapter.set_pairable_timeout(&mut stack, 11), Ok(()));
    assert_eq!(adapter.set_discoverable_timeout(&mut stack, 12), Ok(()));
    assert_eq!(adapter.set_discovering(&mut stack, true), Ok(()));
    assert_eq!(adapter.set_uuids(&mut stack, vec![text("u1"), text("u2")]), Ok(()));
    assert_eq!(adapter.set_modalias(&mut stack, text("bluetooth:v1234p5678d9ABC")), Ok(()));

    assert_eq!(adapter.get_id(&stack), Ok(text("a")));
    assert_eq!(adapter.is_present(&stack), Ok(false));
    assert_eq!(adapter.is_powered(&stack), Ok(true));
    assert_eq!(adapter.get_can_start_discovery(&stack), Ok(false));
    assert_eq!(adapter.get_can_stop_discovery(&stack), Ok(false));
    assert_eq!(adapter.get_ad_datas(&stack), Ok(vec![text("x")]));
    assert_eq!(adapter.get_address(&stack), Ok(text("addr")));
    assert_eq!(adapter.get_name(&stack), Ok(text("n")));
    assert_eq!(adapter.get_alias(&stack), Ok(text("al")));
    assert_eq!(adapter.get_class(&stack), Ok(9));
    assert_eq!(adapter.is_discoverable(&stack), Ok(true));
    assert_eq!(adapter.is_pairable(&stack), Ok(true));
    assert_eq!(adapter.get_pairable_timeout(&stack), Ok(11));
    assert_eq!(adapter.get_discoverable_timeout(&stack), Ok(12));
    assert_eq!(adapter.is_discovering(&stack), Ok(true));
    assert_eq!(adapter.get_uuids(&stack), Ok(vec![text("u1"), text("u2")]));
    assert_eq!(adapter.get_vendor_id_source(&stack), Ok(text("bluetooth")));
    assert_eq!(adapter.get_vendor_id(&stack), Ok(0x1234));
    assert_eq!(adapter.get_product_id(&stack), Ok(0x5678));
    assert_eq!(adapter.get_device_id(&stack), Ok(0x9ABC));
}

#[test]
fn adapter_modalias_that_is_malformed_fails() {
    let mut stack = FakeBluetoothStack::new();
    let adapter = FakeBluetoothAdapter::new_empty(&mut stack);
    assert_eq!(adapter.get_modalias(&stack), Err(BluetoothError::MalformedModalias));
    adapter.set_modalias(&mut stack, text("bluetoothv1234p5678d9ABC")).unwrap();
    assert_eq!(adapter.get_modalias(&stack), Err(BluetoothError::MalformedModalias));
    assert_eq!(adapter.get_vendor_id_source(&stack), Err(BluetoothError::MalformedModalias));
    assert_eq!(adapter.get_vendor_id(&stack), Err(BluetoothError::MalformedModalias));
    assert_eq!(adapter.get_product_id(&stack), Err(BluetoothError::MalformedModalias));
    assert_eq!(adapter.get_device_id(&stack), Err(BluetoothError::MalformedModalias));
}

#[test]
fn adapter_that_does_not_exist_is_unavailable() {
    let mut other = FakeBluetoothStack::new();
    let adapter = FakeBluetoothAdapter::new_empty(&mut other);
    let mut stack = FakeBluetoothStack::new();
    assert_eq!(adapter.get_id(&stack), Err(BluetoothError::ValueUnavailable));
    assert_eq!(adapter.is_powered(&stack), Err(BluetoothError::ValueUnavailable));
    assert_eq!(adapter.set_powered(&mut stack, true), Err(BluetoothError::ValueUnavailable));
    assert_eq!(adapter.get_devices(&stack), Err(BluetoothError::ValueUnavailable));
    assert_eq!(adapter.get_device_list(&stack), Err(BluetoothError::ValueUnavailable));
    assert_eq!(adapter.get_first_device(&stack), Err(BluetoothError::ValueUnavailable));
    assert_eq!(adapter.get_first_ad_data(&stack), Err(BluetoothError::ValueUnavailable));
    assert_eq!(adapter.get_device(&stack, text("d")), Err(BluetoothError::ValueUnavailable));
    assert_eq!(adapter.remove_device(&mut stack, text("d")), Err(BluetoothError::ValueUnavailable));
    assert_eq!(adapter.get_modalias(&stack), Err(BluetoothError::ValueUnavailable));
    assert_eq!(adapter.get_vendor_id(&stack), Err(BluetoothError::ValueUnavailable));
    assert_eq!(
        FakeBluetoothDevice::new_empty(&mut stack, adapter, text("d")),
        Err(BluetoothError::ValueUnavailable)
    );
}

#[test]
fn adapter_new_with_a_device_that_does_not_exist_fails() {
    let mut stack = FakeBluetoothStack::new();
    let stranger = FakeBluetoothDevice { index: 3 };
    assert_eq!(full_adapter(&mut stack, vec![stranger]), Err(BluetoothError::ValueUnavailable));
    let adapter = FakeBluetoothAdapter::new_empty(&mut stack);
    assert_eq!(adapter.index, 0);
}

#[test]
fn adapter_new_with_devices_lists_them() {
    let mut stack = FakeBluetoothStack::new();
    let first = FakeBluetoothAdapter::new_empty(&mut stack);
    let d1 = FakeBluetoothDevice::new_empty(&mut stack, first, text("d1")).unwrap();
    let d2 = FakeBluetoothDevice::new_empty(&mut stack, first, text("d2")).unwrap();
    let second = full_adapter(&mut stack, vec![d2, d1]).unwrap();
    assert_eq!(second.get_devices(&stack), Ok(vec![d2, d1]));
    assert_eq!(second.get_device_list(&stack), Ok(vec![text("d2"), text("d1")]));
    assert_eq!(second.get_first_device(&stack), Ok(d2));
    assert_eq!(d2.get_adapter(&stack), Ok(first));
}

#[test]
fn adapter_first_device_and_first_ad_data() {
    let mut stack = FakeBluetoothStack::new();
    let adapter = FakeBluetoothAdapter::new_empty(&mut stack);
    assert_eq!(adapter.get_first_device(&stack), Err(BluetoothError::NoDeviceFound));
    assert_eq!(adapter.get_first_ad_data(&stack), Err(BluetoothError::NoAdDataFound));
    let d1 = FakeBluetoothDevice::new_empty(&mut stack, adapter, text("d1")).unwrap();
    let _d2 = FakeBluetoothDevice::new_empty(&mut stack, adapter, text("d2")).unwrap();
    adapter.set_ad_datas(&mut stack, vec![text("first"), text("second")]).unwrap();
    assert_eq!(adapter.get_first_device(&stack), Ok(d1));
    assert_eq!(adapter.get_first_ad_data(&stack), Ok(text("first")));
}

#[test]
fn adapter_get_device_finds_by_id() {
    let mut stack = FakeBluetoothStack::new();
    let adapter = FakeBluetoothAdapter::new_empty(&mut stack);
    let d1 = FakeBluetoothDevice::new_empty(&mut stack, adapter, text("d1")).unwrap();
    let d2 = FakeBluetoothDevice::new_empty(&mut stack, adapter, text("d2")).unwrap();
    assert_eq!(adapter.get_device(&stack, text("d1")), Ok(d1));
    assert_eq!(adapter.get_device(&stack, text("d2")), Ok(d2));
    assert_eq!(adapter.get_device(&stack, text("d3")), Err(BluetoothError::NoSuchDevice));
    assert_eq!(adapter.get_device_list(&stack), Ok(vec![text("d1"), text("d2")]));
}

#[test]
fn adapter_add_device_with_an_id_that_it_holds_fails() {
    let mut stack = FakeBluetoothStack::new();
    let adapter = FakeBluetoothAdapter::new_empty(&mut stack);
    let other = FakeBluetoothAdapter::new_empty(&mut stack);
    let d1 = FakeBluetoothDevice::new_empty(&mut stack, adapter, text("d")).unwrap();
    let d2 = FakeBluetoothDevice::new_empty(&mut stack, other, text("d")).unwrap();
    assert_ne!(d1, d2);
    // another device with the id
    assert_eq!(adapter.add_device(&mut stack, d2), Err(BluetoothError::DuplicateId));
    // the very device
    assert_eq!(adapter.add_device(&mut stack, d1), Err(BluetoothError::DuplicateId));
    assert_eq!(adapter.get_devices(&stack), Ok(vec![d1]));
    assert_eq!(adapter.get_device_list(&stack), Ok(vec![text("d")]));
    assert_eq!(adapter.get_device(&stack, text("d")), Ok(d1));
    assert_eq!(other.get_devices(&stack), Ok(vec![d2]));
}

#[test]
fn adapter_add_device_of_another_adapter() {
    let mut stack = FakeBluetoothStack::new();
    let adapter = FakeBluetoothAdapter::new_empty(&mut stack);
    let other = FakeBluetoothAdapter::new_empty(&mut stack);
    let d1 = FakeBluetoothDevice::new_empty(&mut stack, adapter, text("d1")).unwrap();
    let d2 = FakeBluetoothDevice::new_empty(&mut stack, other, text("d2")).unwrap();
    assert_eq!(adapter.add_device(&mut stack, d2), Ok(()));
    assert_eq!(adapter.get_devices(&stack), Ok(vec![d1, d2]));
    assert_eq!(adapter.get_device(&stack, text("d2")), Ok(d2));
    assert_eq!(d2.get_adapter(&stack), Ok(other));
    // once removed, the device can be added again
    assert_eq!(adapter.remove_device(&mut stack, text("d2")), Ok(()));
    assert_eq!(adapter.add_device(&mut stack, d2), Ok(()));
    assert_eq!(adapter.get_devices(&stack), Ok(vec![d1, d2]));
    assert_eq!(other.get_devices(&stack), Ok(vec![d2]));
}

#[test]
fn adapter_new_with_two_devices_of_one_id_fails() {
    let mut stack = FakeBluetoothStack::new();
    let a = FakeBluetoothAdapter::new_empty(&mut stack);
    let b = FakeBluetoothAdapter::new_empty(&mut stack);
    let da = FakeBluetoothDevice::new_empty(&mut stack, a, text("d")).unwrap();
    let db = FakeBluetoothDevice::new_empty(&mut stack, b, text("d")).unwrap();
    assert_eq!(full_adapter(&mut stack, vec![da, db]), Err(BluetoothError::DuplicateId));
    assert_eq!(full_adapter(&mut stack, vec![da, da]), Err(BluetoothError::DuplicateId));
    let c = full_adapter(&mut stack, vec![db]).unwrap();
    assert_eq!(c.index, 2);
    assert_eq!(c.get_devices(&stack), Ok(vec![db]));
}

#[test]
fn adapter_add_device_that_does_not_exist_fails() {
    let mut stack = FakeBluetoothStack::new();
    let adapter = FakeBluetoothAdapter::new_empty(&mut stack);
    let stranger = FakeBluetoothDevice { index: 0 };
    assert_eq!(adapter.add_device(&mut stack, stranger), Err(BluetoothError::ValueUnavailable));
    assert_eq!(adapter.get_devices(&stack), Ok(vec![]));
}

#[test]
fn removed_device_is_not_found_and_its_siblings_are() {
    let mut stack = FakeBluetoothStack::new();
    let adapter = FakeBluetoothAdapter::new_empty(&mut stack);
    let d1 = FakeBluetoothDevice::new_empty(&mut stack, adapter, text("d1")).unwrap();
    let d2 = FakeBluetoothDevice::new_empty(&mut stack, adapter, text("d2")).unwrap();
    let d3 = FakeBluetoothDevice::new_empty(&mut stack, adapter, text("d3")).unwrap();
    assert_eq!(adapter.remove_device(&mut stack, text("d2")), Ok(()));
    assert_eq!(adapter.get_device(&stack, text("d2")), Err(BluetoothError::NoSuchDevice));
    assert_eq!(adapter.get_device(&stack, text("d1")), Ok(d1));
    assert_eq!(adapter.get_device(&stack, text("d3")), Ok(d3));
    assert_eq!(adapter.get_devices(&stack), Ok(vec![d1, d3]));
    // the removed device lives on under its handle
    assert_eq!(d2.get_id(&stack), Ok(text("d2")));
    assert_eq!(d2.get_adapter(&stack), Ok(adapter));
    // removing an id that is not there changes nothing
    assert_eq!(adapter.remove_device(&mut stack, text("nobody")), Ok(()));
    assert_eq!(adapter.get_devices(&stack), Ok(vec![d1, d3]));
}

#[test]
fn adapter_creates_a_discovery_session_on_itself() {
    let mut stack = FakeBluetoothStack::new();
    let _first = FakeBluetoothAdapter::new_empty(&mut stack);
    let adapter = FakeBluetoothAdapter::new_empty(&mut stack);
    let session = adapter.create_discovery_session().unwrap();
    assert_eq!(session.get_adapter(), adapter);
}
