use fake_bluetooth::error::BluetoothError;
use fake_bluetooth::fake_adapter::FakeBluetoothAdapter;
use fake_bluetooth::fake_characteristic::FakeBluetoothGATTCharacteristic;
use fake_bluetooth::fake_descriptor::FakeBluetoothGATTDescriptor;
use fake_bluetooth::fake_device::FakeBluetoothDevice;
use fake_bluetooth::fake_service::FakeBluetoothGATTService;
use fake_bluetooth::stack::FakeBluetoothStack;

#[test]
fn new_stack_holds_nothing() {
    let stack = FakeBluetoothStack::new();
    assert_eq!(FakeBluetoothAdapter { index: 0 }.get_id(&stack), Err(BluetoothError::ValueUnavailable));
    assert_eq!(FakeBluetoothDevice { index: 0 }.get_id(&stack), Err(BluetoothError::ValueUnavailable));
    let stack = FakeBluetoothStack::default();
    assert_eq!(FakeBluetoothAdapter { index: 0 }.get_id(&stack), Err(BluetoothError::ValueUnavailable));
}

#[test]
fn handles_are_numbered_in_the_order_of_creation() {
    let mut stack = FakeBluetoothStack::new();
    let a0 = FakeBluetoothAdapter::new_empty(&mut stack);
    let a1 = FakeBluetoothAdapter::new_empty(&mut stack);
    let d0 = FakeBluetoothDevice::new_empty(&mut stack, a1, String::from("x")).unwrap();
    let d1 = FakeBluetoothDevice::new_empty(&mut stack, a0, String::from("y")).unwrap();
    assert_eq!((a0.index, a1.index, d0.index, d1.index), (0, 1, 0, 1));
}

#[test]
fn two_stacks_do_not_share_entities() {
    let mut one = FakeBluetoothStack::new();
    let mut two = FakeBluetoothStack::new();
    let a = FakeBluetoothAdapter::new_empty(&mut one);
    let b = FakeBluetoothAdapter::new_empty(&mut two);
    assert_eq!(a, b);
    a.set_name(&mut one, String::from("one")).unwrap();
    assert_eq!(b.get_name(&two), Ok(String::new()));
    assert_eq!(a.get_name(&one), Ok(String::from("one")));
}

#[test]
fn a_whole_tree_is_built_and_read_back() {
    let mut stack = FakeBluetoothStack::new();
    let adapter = FakeBluetoothAdapter::new_empty(&mut stack);
    adapter.set_id(&mut stack, String::from("a")).unwrap();
    let device = FakeBluetoothDevice::new_empty(&mut stack, adapter, String::from("/d")).unwrap();
    let service = FakeBluetoothGATTService::new_empty(&mut stack, device, String::from("/s")).unwrap();
    let chr = FakeBluetoothGATTCharacteristic::new_empty(&mut stack, service, String::from("/c")).unwrap();
    let dsc = FakeBluetoothGATTDescriptor::new_empty(&mut stack, chr, String::from("/x")).unwrap();
    assert_eq!(dsc.get_id(&stack), Ok(String::from("a/d/s/c/x")));
    let chr_back = dsc.get_characteristic(&stack).unwrap();
    let service_back = chr_back.get_service(&stack).unwrap();
    let device_back = service_back.get_device(&stack).unwrap();
    let adapter_back = device_back.get_adapter(&stack).unwrap();
    assert_eq!((chr_back, service_back, device_back, adapter_back), (chr, service, device, adapter));
    device.set_connectable(&mut stack, true).unwrap();
    device.connect(&mut stack).unwrap();
    assert_eq!(adapter.get_device(&stack, String::from("a/d")), Ok(device));
    assert_eq!(device.get_gatt_service(&stack, String::from("a/d/s")), Ok(service));
    assert_eq!(service.get_gatt_characteristic(&stack, String::from("a/d/s/c")), Ok(chr));
    assert_eq!(chr.get_gatt_descriptor(&stack, String::from("a/d/s/c/x")), Ok(dsc));
    // taking the device out of the adapter leaves all that hangs on it in place
    adapter.remove_device(&mut stack, String::from("a/d")).unwrap();
    assert_eq!(adapter.get_device(&stack, String::from("a/d")), Err(BluetoothError::NoSuchDevice));
    assert_eq!(device.get_gatt_service(&stack, String::from("a/d/s")), Ok(service));
    assert_eq!(chr.get_gatt_descriptor(&stack, String::from("a/d/s/c/x")), Ok(dsc));
}
