use fake_bluetooth::error::BluetoothError;
use fake_bluetooth::fake_adapter::FakeBluetoothAdapter;
use fake_bluetooth::fake_device::FakeBluetoothDevice;
use fake_bluetooth::fake_service::FakeBluetoothGATTService;
use fake_bluetooth::stack::FakeBluetoothStack;

fn name(s: &str) -> String {
    String::from(s)
}

fn full_device(
    stack: &mut FakeBluetoothStack,
    id: &str,
    adapter: FakeBluetoothAdapter,
    services: Vec<FakeBluetoothGATTService>,
) -> Result<FakeBluetoothDevice, BluetoothError> {
    FakeBluetoothDevice::new(
        stack,
        name(id),
        adapter,
        name("AA:BB"),
        Some(960),
        5,
        services,
        true,
        true,
        false,
        true,
        false,
        true,
        vec![name("u1"), name("u2")],
        Some(name("heart")),
        name("icon"),
        name("alias"),
        3,
        Some(-40),
        Some(4),
        name("bluetooth:v1234p5678d9ABC"),
    )
}

#[test]
fn device_new_keeps_every_attribute() {
    let mut stack = FakeBluetoothStack::new();
    let adapter = FakeBluetoothAdapter::new_empty(&mut stack);
    let device = full_device(&mut stack, "dev", adapter, vec![]).unwrap();
    assert_eq!(device.get_id(&stack), Ok(name("dev")));
    assert_eq!(device.get_adapter(&stack), Ok(adapter));
    assert_eq!(device.get_address(&stack), Ok(name("AA:BB")));
    assert_eq!(device.get_appearance(&stack), Ok(960));
    assert_eq!(device.get_class(&stack), Ok(5));
    assert_eq!(device.is_paired(&stack), Ok(true));
    assert_eq!(device.is_connectable(&stack), Ok(true));
    assert_eq!(device.is_connected(&stack), Ok(false));
    assert_eq!(device.is_trusted(&stack), Ok(true));
    assert_eq!(device.is_blocked(&stack), Ok(false));
    assert_eq!(device.is_legacy_pairing(&stack), Ok(true));
    assert_eq!(device.get_uuids(&stack), Ok(vec![name("u1"), name("u2")]));
    assert_eq!(device.get_name(&stack), Ok(name("heart")));
    assert_eq!(device.get_icon(&stack), Ok(name("icon")));
    assert_eq!(device.get_alias(&stack), Ok(name("alias")));
    assert_eq!(device.get_rssi(&stack), Ok(-40));
    assert_eq!(device.get_tx_power(&stack), Ok(4));
    assert_eq!(device.get_modalias(&stack), Ok((name("bluetooth"), 0x1234, 0x5678, 0x9ABC)));
    assert_eq!(adapter.get_devices(&stack), Ok(vec![device]));
}

#[test]
fn device_new_empty_has_the_defaults_and_the_derived_id() {
    let mut stack = FakeBluetoothStack::new();
    let adapter = FakeBluetoothAdapter::new_empty(&mut stack);
    adapter.set_id(&mut stack, name("hci0/")).unwrap();
    let device = FakeBluetoothDevice::new_empty(&mut stack, adapter, name("dev1")).unwrap();
    assert_eq!(device.get_id(&stack), Ok(name("hci0/dev1")));
    assert_eq!(device.get_adapter(&stack), Ok(adapter));
    assert_eq!(device.get_address(&stack), Ok(String::new()));
    assert_eq!(device.get_appearance(&stack), Err(BluetoothError::ValueUnavailable));
    assert_eq!(device.get_class(&stack), Ok(0));
    assert_eq!(device.is_paired(&stack), Ok(false));
    assert_eq!(device.is_connectable(&stack), Ok(false));
    assert_eq!(device.is_connected(&stack), Ok(false));
    assert_eq!(device.is_trusted(&stack), Ok(false));
    assert_eq!(device.is_blocked(&stack), Ok(false));
    assert_eq!(device.is_legacy_pairing(&stack), Ok(false));
    assert_eq!(device.get_uuids(&stack), Ok(vec![]));
    assert_eq!(device.get_name(&stack), Err(BluetoothError::ValueUnavailable));
    assert_eq!(device.get_icon(&stack), Ok(String::new()));
    assert_eq!(device.get_alias(&stack), Ok(String::new()));
    assert_eq!(device.get_rssi(&stack), Err(BluetoothError::ValueUnavailable));
    assert_eq!(device.get_tx_power(&stack), Err(BluetoothError::ValueUnavailable));
    assert_eq!(device.get_modalias(&stack), Err(BluetoothError::MalformedModalias));
}

#[test]
fn devices_of_two_adapters_with_one_suffix_have_two_ids() {
    let mut stack = FakeBluetoothStack::new();
    let a = FakeBluetoothAdapter::new_empty(&mut stack);
    let b = FakeBluetoothAdapter::new_empty(&mut stack);
    a.set_id(&mut stack, name("a")).unwrap();
    b.set_id(&mut stack, name("b")).unwrap();
    let da = FakeBluetoothDevice::new_empty(&mut stack, a, name("dev")).unwrap();
    let db = FakeBluetoothDevice::new_empty(&mut stack, b, name("dev")).unwrap();
    assert_ne!(da, db);
    assert_eq!(da.get_id(&stack), Ok(name("adev")));
    assert_eq!(db.get_id(&stack), Ok(name("bdev")));
}

#[test]
fn creating_a_device_twice_gives_one_device() {
    let mut stack = FakeBluetoothStack::new();
    let adapter = FakeBluetoothAdapter::new_empty(&mut stack);
    let first = full_device(&mut stack, "dev", adapter, vec![]).unwrap();
    let second = FakeBluetoothDevice::new_empty(&mut stack, adapter, name("dev")).unwrap();
    assert_eq!(first, second);
    assert_eq!(adapter.get_devices(&stack), Ok(vec![first]));
    // the attributes of the first creation stand
    assert_eq!(second.get_address(&stack), Ok(name("AA:BB")));
    // what is changed through one handle is seen through the other
    second.set_alias(&mut stack, name("changed")).unwrap();
    assert_eq!(first.get_alias(&stack), Ok(name("changed")));
    first.set_connected(&mut stack, true).unwrap();
    assert_eq!(second.is_connected(&stack), Ok(true));
}

#[test]
fn creating_a_device_twice_in_either_order_lists_it_once() {
    let mut stack = FakeBluetoothStack::new();
    let adapter = FakeBluetoothAdapter::new_empty(&mut stack);
    let other = FakeBluetoothDevice::new_empty(&mut stack, adapter, name("other")).unwrap();
    let second = FakeBluetoothDevice::new_empty(&mut stack, adapter, name("dev")).unwrap();
    let first = full_device(&mut stack, "dev", adapter, vec![]).unwrap();
    assert_eq!(first, second);
    assert_eq!(adapter.get_device_list(&stack), Ok(vec![name("other"), name("dev")]));
    assert_eq!(adapter.get_devices(&stack), Ok(vec![other, first]));
}

#[test]
fn one_id_under_two_adapters_gives_two_devices() {
    let mut stack = FakeBluetoothStack::new();
    let a = FakeBluetoothAdapter::new_empty(&mut stack);
    let b = FakeBluetoothAdapter::new_empty(&mut stack);
    let da = full_device(&mut stack, "dev", a, vec![]).unwrap();
    let db = full_device(&mut stack, "dev", b, vec![]).unwrap();
    assert_ne!(da, db);
    assert_eq!(da.get_adapter(&stack), Ok(a));
    assert_eq!(db.get_adapter(&stack), Ok(b));
}

#[test]
fn device_new_with_a_service_that_does_not_exist_fails() {
    let mut stack = FakeBluetoothStack::new();
    let adapter = FakeBluetoothAdapter::new_empty(&mut stack);
    let stranger = FakeBluetoothGATTService { index: 0 };
    assert_eq!(
        full_device(&mut stack, "dev", adapter, vec![stranger]),
        Err(BluetoothError::ValueUnavailable)
    );
    assert_eq!(adapter.get_devices(&stack), Ok(vec![]));
}

#[test]
fn device_new_under_an_adapter_that_does_not_exist_fails() {
    let mut stack = FakeBluetoothStack::new();
    let stranger = FakeBluetoothAdapter { index: 0 };
    assert_eq!(full_device(&mut stack, "dev", stranger, vec![]), Err(BluetoothError::ValueUnavailable));
}

#[test]
fn device_setters_change_what_the_getters_give() {
    let mut stack = FakeBluetoothStack::new();
    let adapter = FakeBluetoothAdapter::new_empty(&mut stack);
    let device = FakeBluetoothDevice::new_empty(&mut stack, adapter, name("dev")).unwrap();
    assert_eq!(device.set_id(&mut stack, name("renamed")), Ok(()));
    assert_eq!(device.set_address(&mut stack, name("addr")), Ok(()));
    assert_eq!(device.set_name(&mut stack, Some(name("n"))), Ok(()));
    assert_eq!(device.set_icon(&mut stack, name("i")), Ok(()));
    assert_eq!(device.set_class(&mut stack, 77), Ok(()));
    assert_eq!(device.set_appearance(&mut stack, Some(12)), Ok(()));
    assert_eq!(device.set_uuids(&mut stack, vec![name("u")]), Ok(()));
    assert_eq!(device.set_paired(&mut stack, true), Ok(()));
    assert_eq!(device.set_connectable(&mut stack, true), Ok(()));
    assert_eq!(device.set_connected(&mut stack, true), Ok(()));
    assert_eq!(device.set_trusted(&mut stack, true), Ok(()));
    assert_eq!(device.set_blocked(&mut stack, true), Ok(()));
    assert_eq!(device.set_alias(&mut stack, name("al")), Ok(()));
    assert_eq!(device.set_legacy_pairing(&mut stack, true), Ok(()));
    assert_eq!(device.set_modalias(&mut stack, name("usb:v0001p0002d0003")), Ok(()));
    assert_eq!(device.set_rssi(&mut stack, Some(-1)), Ok(()));
    assert_eq!(device.set_tx_power(&mut stack, Some(i16::MIN)), Ok(()));

    assert_eq!(device.get_id(&stack), Ok(name("renamed")));
    assert_eq!(device.get_address(&stack), Ok(name("addr")));
    assert_eq!(device.get_name(&stack), Ok(name("n")));
    assert_eq!(device.get_icon(&stack), Ok(name("i")));
    assert_eq!(device.get_class(&stack), Ok(77));
    assert_eq!(device.get_appearance(&stack), Ok(12));
    assert_eq!(device.get_uuids(&stack), Ok(vec![name("u")]));
    assert_eq!(device.is_paired(&stack), Ok(true));
    assert_eq!(device.is_connectable(&stack), Ok(true));
    assert_eq!(device.is_connected(&stack), Ok(true));
    assert_eq!(device.is_trusted(&stack), Ok(true));
    assert_eq!(device.is_blocked(&stack), Ok(true));
    assert_eq!(device.get_alias(&stack), Ok(name("al")));
    assert_eq!(device.is_legacy_pairing(&stack), Ok(true));
    assert_eq!(device.get_vendor_id_source(&stack), Ok(name("usb")));
    assert_eq!(device.get_vendor_id(&stack), Ok(1));
    assert_eq!(device.get_product_id(&stack), Ok(2));
    assert_eq!(device.get_device_id(&stack), Ok(3));
    assert_eq!(device.get_rssi(&stack), Ok(-1));
    assert_eq!(device.get_tx_power(&stack), Ok(i16::MIN));

    assert_eq!(device.set_name(&mut stack, None), Ok(()));
    assert_eq!(device.set_appearance(&mut stack, None), Ok(()));
    assert_eq!(device.set_rssi(&mut stack, None), Ok(()));
    assert_eq!(device.set_tx_power(&mut stack, None), Ok(()));
    assert_eq!(device.get_name(&stack), Err(BluetoothError::ValueUnavailable));
    assert_eq!(device.get_appearance(&stack), Err(BluetoothError::ValueUnavailable));
    assert_eq!(device.get_rssi(&stack), Err(BluetoothError::ValueUnavailable));
    assert_eq!(device.get_tx_power(&stack), Err(BluetoothError::ValueUnavailable));
}

#[test]
fn renamed_device_is_found_under_its_new_id() {
    let mut stack = FakeBluetoothStack::new();
    let adapter = FakeBluetoothAdapter::new_empty(&mut stack);
    let device = FakeBluetoothDevice::new_empty(&mut stack, adapter, name("old")).unwrap();
    device.set_id(&mut stack, name("new")).unwrap();
    assert_eq!(adapter.get_device(&stack, name("new")), Ok(device));
    assert_eq!(adapter.get_device(&stack, name("old")), Err(BluetoothError::NoSuchDevice));
}

#[test]
fn device_that_does_not_exist_is_unavailable() {
    let mut stack = FakeBluetoothStack::new();
    let device = FakeBluetoothDevice { index: 0 };
    assert_eq!(device.get_id(&stack), Err(BluetoothError::ValueUnavailable));
    assert_eq!(device.get_adapter(&stack), Err(BluetoothError::ValueUnavailable));
    assert_eq!(device.set_alias(&mut stack, name("a")), Err(BluetoothError::ValueUnavailable));
    assert_eq!(device.pair(&mut stack), Err(BluetoothError::ValueUnavailable));
    assert_eq!(device.cancel_pairing(&mut stack), Err(BluetoothError::ValueUnavailable));
    assert_eq!(device.connect(&mut stack), Err(BluetoothError::ValueUnavailable));
    assert_eq!(device.disconnect(&mut stack), Err(BluetoothError::ValueUnavailable));
    assert_eq!(device.get_modalias(&stack), Err(BluetoothError::ValueUnavailable));
    assert_eq!(device.get_device_id(&stack), Err(BluetoothError::ValueUnavailable));
    assert_eq!(device.get_gatt_services(&stack), Err(BluetoothError::ValueUnavailable));
    assert_eq!(device.get_gatt_service_structs(&stack), Err(BluetoothError::ValueUnavailable));
    assert_eq!(device.get_gatt_service(&stack, name("s")), Err(BluetoothError::ValueUnavailable));
    assert_eq!(device.remove_service(&mut stack, name("s")), Err(BluetoothError::ValueUnavailable));
    assert_eq!(
        FakeBluetoothGATTService::new_empty(&mut stack, device, name("s")),
        Err(BluetoothError::ValueUnavailable)
    );
}

#[test]
fn pair_and_cancel_pairing() {
    let mut stack = FakeBluetoothStack::new();
    let adapter = FakeBluetoothAdapter::new_empty(&mut stack);
    let device = FakeBluetoothDevice::new_empty(&mut stack, adapter, name("dev")).unwrap();
    assert_eq!(device.pair(&mut stack), Ok(()));
    assert_eq!(device.is_paired(&stack), Ok(true));
    assert_eq!(device.pair(&mut stack), Ok(()));
    assert_eq!(device.is_paired(&stack), Ok(true));
    assert_eq!(device.cancel_pairing(&mut stack), Ok(()));
    assert_eq!(device.is_paired(&stack), Ok(false));
}

#[test]
fn connect_a_connectable_device() {
    let mut stack = FakeBluetoothStack::new();
    let adapter = FakeBluetoothAdapter::new_empty(&mut stack);
    let device = FakeBluetoothDevice::new_empty(&mut stack, adapter, name("dev")).unwrap();
    device.set_connectable(&mut stack, true).unwrap();
    assert_eq!(device.is_connected(&stack), Ok(false));
    assert_eq!(device.connect(&mut stack), Ok(()));
    assert_eq!(device.is_connected(&stack), Ok(true));
}

#[test]
fn connect_again_while_connected_succeeds_and_changes_nothing() {
    let mut stack = FakeBluetoothStack::new();
    let adapter = FakeBluetoothAdapter::new_empty(&mut stack);
    let device = FakeBluetoothDevice::new_empty(&mut stack, adapter, name("dev")).unwrap();
    device.set_connectable(&mut stack, true).unwrap();
    assert_eq!(device.connect(&mut stack), Ok(()));
    assert_eq!(device.connect(&mut stack), Ok(()));
    assert_eq!(device.is_connected(&stack), Ok(true));
    // even where the device is no longer connectable
    device.set_connectable(&mut stack, false).unwrap();
    assert_eq!(device.connect(&mut stack), Ok(()));
    assert_eq!(device.is_connected(&stack), Ok(true));
}

#[test]
fn connect_a_device_that_is_not_connectable_fails() {
    let mut stack = FakeBluetoothStack::new();
    let adapter = FakeBluetoothAdapter::new_empty(&mut stack);
    let device = FakeBluetoothDevice::new_empty(&mut stack, adapter, name("dev")).unwrap();
    assert_eq!(device.connect(&mut stack), Err(BluetoothError::CannotConnect));
    assert_eq!(device.is_connected(&stack), Ok(false));
}

#[test]
fn disconnect_a_connected_device() {
    let mut stack = FakeBluetoothStack::new();
    let adapter = FakeBluetoothAdapter::new_empty(&mut stack);
    let device = FakeBluetoothDevice::new_empty(&mut stack, adapter, name("dev")).unwrap();
    device.set_connectable(&mut stack, true).unwrap();
    device.connect(&mut stack).unwrap();
    assert_eq!(device.disconnect(&mut stack), Ok(()));
    assert_eq!(device.is_connected(&stack), Ok(false));
    assert_eq!(device.is_connectable(&stack), Ok(true));
}

#[test]
fn disconnect_a_device_that_is_not_connected_fails() {
    let mut stack = FakeBluetoothStack::new();
    let adapter = FakeBluetoothAdapter::new_empty(&mut stack);
    let device = FakeBluetoothDevice::new_empty(&mut stack, adapter, name("dev")).unwrap();
    assert_eq!(device.disconnect(&mut stack), Err(BluetoothError::NotConnected));
    assert_eq!(device.is_connected(&stack), Ok(false));
    device.set_connectable(&mut stack, true).unwrap();
    device.connect(&mut stack).unwrap();
    device.disconnect(&mut stack).unwrap();
    assert_eq!(device.disconnect(&mut stack), Err(BluetoothError::NotConnected));
}

#[test]
fn profiles_are_not_implemented() {
    let mut stack = FakeBluetoothStack::new();
    let adapter = FakeBluetoothAdapter::new_empty(&mut stack);
    let device = FakeBluetoothDevice::new_empty(&mut stack, adapter, name("dev")).unwrap();
    assert_eq!(device.connect_profile(&stack, name("uuid")), Err(BluetoothError::NotImplemented));
    assert_eq!(device.disconnect_profile(&stack, name("uuid")), Err(BluetoothError::NotImplemented));
}

#[test]
fn services_of_a_device_are_read_only_while_it_is_connected() {
    let mut stack = FakeBluetoothStack::new();
    let adapter = FakeBluetoothAdapter::new_empty(&mut stack);
    let device = FakeBluetoothDevice::new_empty(&mut stack, adapter, name("dev")).unwrap();
    let s1 = FakeBluetoothGATTService::new_empty(&mut stack, device, name("s1")).unwrap();
    let s2 = FakeBluetoothGATTService::new_empty(&mut stack, device, name("s2")).unwrap();
    assert_eq!(device.get_gatt_services(&stack), Err(BluetoothError::DeviceNotConnected));
    assert_eq!(device.get_gatt_service_structs(&stack), Err(BluetoothError::DeviceNotConnected));
    assert_eq!(device.get_gatt_service(&stack, name("devs1")), Err(BluetoothError::DeviceNotConnected));
    device.set_connected(&mut stack, true).unwrap();
    assert_eq!(device.get_gatt_services(&stack), Ok(vec![name("devs1"), name("devs2")]));
    assert_eq!(device.get_gatt_service_structs(&stack), Ok(vec![s1, s2]));
    assert_eq!(device.get_gatt_service(&stack, name("devs1")), Ok(s1));
    assert_eq!(device.get_gatt_service(&stack, name("devs2")), Ok(s2));
    assert_eq!(device.get_gatt_service(&stack, name("s1")), Err(BluetoothError::NoSuchService));
}

#[test]
fn device_add_and_remove_service() {
    let mut stack = FakeBluetoothStack::new();
    let adapter = FakeBluetoothAdapter::new_empty(&mut stack);
    let device = FakeBluetoothDevice::new_empty(&mut stack, adapter, name("d")).unwrap();
    let other = FakeBluetoothDevice::new_empty(&mut stack, adapter, name("o")).unwrap();
    device.set_connected(&mut stack, true).unwrap();
    let s1 = FakeBluetoothGATTService::new_empty(&mut stack, device, name("1")).unwrap();
    let s2 = FakeBluetoothGATTService::new_empty(&mut stack, device, name("2")).unwrap();
    let foreign = FakeBluetoothGATTService::new_empty(&mut stack, other, name("3")).unwrap();
    assert_eq!(device.add_service(&mut stack, foreign), Ok(()));
    assert_eq!(device.get_gatt_service_structs(&stack), Ok(vec![s1, s2, foreign]));
    assert_eq!(device.get_gatt_services(&stack), Ok(vec![name("d1"), name("d2"), name("o3")]));
    assert_eq!(
        device.add_service(&mut stack, FakeBluetoothGATTService { index: 99 }),
        Err(BluetoothError::ValueUnavailable)
    );
    assert_eq!(device.remove_service(&mut stack, name("d1")), Ok(()));
    assert_eq!(device.get_gatt_service(&stack, name("d1")), Err(BluetoothError::NoSuchService));
    assert_eq!(device.get_gatt_service(&stack, name("d2")), Ok(s2));
    assert_eq!(device.get_gatt_service(&stack, name("o3")), Ok(foreign));
    assert_eq!(device.get_gatt_service_structs(&stack), Ok(vec![s2, foreign]));
    assert_eq!(s1.get_device(&stack), Ok(device));
    assert_eq!(s1.get_id(&stack), Ok(name("d1")));
}

#[test]
fn device_set_id_to_the_id_of_a_sibling_fails() {
    let mut stack = FakeBluetoothStack::new();
    let adapter = FakeBluetoothAdapter::new_empty(&mut stack);
    let d1 = FakeBluetoothDevice::new_empty(&mut stack, adapter, name("d1")).unwrap();
    let d2 = FakeBluetoothDevice::new_empty(&mut stack, adapter, name("d2")).unwrap();
    assert_eq!(d2.set_id(&mut stack, name("d1")), Err(BluetoothError::DuplicateId));
    assert_eq!(d2.get_id(&stack), Ok(name("d2")));
    assert_eq!(adapter.get_device_list(&stack), Ok(vec![name("d1"), name("d2")]));
    assert_eq!(adapter.get_device(&stack, name("d1")), Ok(d1));
    // once the sibling is out of the list, the id is free
    adapter.remove_device(&mut stack, name("d1")).unwrap();
    assert_eq!(d2.set_id(&mut stack, name("d1")), Ok(()));
    assert_eq!(adapter.get_device(&stack, name("d1")), Ok(d2));
}

#[test]
fn device_set_id_looks_at_every_adapter_that_lists_it() {
    let mut stack = FakeBluetoothStack::new();
    let a = FakeBluetoothAdapter::new_empty(&mut stack);
    let b = FakeBluetoothAdapter::new_empty(&mut stack);
    let da = FakeBluetoothDevice::new_empty(&mut stack, a, name("x")).unwrap();
    let db = FakeBluetoothDevice::new_empty(&mut stack, b, name("y")).unwrap();
    // the same id under different adapters is no obstacle
    assert_eq!(db.set_id(&mut stack, name("x")), Ok(()));
    assert_eq!(db.set_id(&mut stack, name("y")), Ok(()));
    // da is now listed by b too, beside db
    assert_eq!(b.add_device(&mut stack, da), Ok(()));
    assert_eq!(da.set_id(&mut stack, name("y")), Err(BluetoothError::DuplicateId));
    assert_eq!(db.set_id(&mut stack, name("x")), Err(BluetoothError::DuplicateId));
    assert_eq!(b.get_device_list(&stack), Ok(vec![name("y"), name("x")]));
}

#[test]
fn device_new_with_two_services_of_one_id_fails() {
    let mut stack = FakeBluetoothStack::new();
    let adapter = FakeBluetoothAdapter::new_empty(&mut stack);
    let d1 = FakeBluetoothDevice::new_empty(&mut stack, adapter, name("d1")).unwrap();
    let d2 = FakeBluetoothDevice::new_empty(&mut stack, adapter, name("d2")).unwrap();
    let s1 = FakeBluetoothGATTService::new_empty(&mut stack, d1, name("")).unwrap();
    let s2 = FakeBluetoothGATTService::new_empty(&mut stack, d2, name("")).unwrap();
    s2.set_id(&mut stack, name("d1")).unwrap();
    assert_eq!(full_device(&mut stack, "dev", adapter, vec![s1, s2]), Err(BluetoothError::DuplicateId));
    assert_eq!(adapter.get_device_list(&stack), Ok(vec![name("d1"), name("d2")]));
    s2.set_id(&mut stack, name("d2")).unwrap();
    let dev = full_device(&mut stack, "dev", adapter, vec![s1, s2]).unwrap();
    dev.set_connected(&mut stack, true).unwrap();
    assert_eq!(dev.get_gatt_services(&stack), Ok(vec![name("d1"), name("d2")]));
}

#[test]
fn device_add_service_with_an_id_that_it_holds_fails() {
    let mut stack = FakeBluetoothStack::new();
    let adapter = FakeBluetoothAdapter::new_empty(&mut stack);
    let device = FakeBluetoothDevice::new_empty(&mut stack, adapter, name("d")).unwrap();
    let other = FakeBluetoothDevice::new_empty(&mut stack, adapter, name("o")).unwrap();
    let s1 = FakeBluetoothGATTService::new_empty(&mut stack, device, name("s")).unwrap();
    let s2 = FakeBluetoothGATTService::new_empty(&mut stack, other, name("s")).unwrap();
    s2.set_id(&mut stack, name("ds")).unwrap();
    assert_eq!(device.add_service(&mut stack, s2), Err(BluetoothError::DuplicateId));
    assert_eq!(device.add_service(&mut stack, s1), Err(BluetoothError::DuplicateId));
    device.set_connected(&mut stack, true).unwrap();
    assert_eq!(device.get_gatt_service_structs(&stack), Ok(vec![s1]));
}
