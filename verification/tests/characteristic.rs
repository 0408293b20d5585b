use fake_bluetooth::error::BluetoothError;
use fake_bluetooth::fake_adapter::FakeBluetoothAdapter;
use fake_bluetooth::fake_characteristic::FakeBluetoothGATTCharacteristic;
use fake_bluetooth::fake_descriptor::FakeBluetoothGATTDescriptor;
use fake_bluetooth::fake_device::FakeBluetoothDevice;
use fake_bluetooth::fake_service::FakeBluetoothGATTService;
use fake_bluetooth::stack::FakeBluetoothStack;

fn label(s: &str) -> String {
    String::from(s)
}

fn stack_with_service() -> (FakeBluetoothStack, FakeBluetoothGATTService) {
    let mut stack = FakeBluetoothStack::new();
    let adapter = FakeBluetoothAdapter::new_empty(&mut stack);
    let device = FakeBluetoothDevice::new_empty(&mut stack, adapter, label("d.")).unwrap();
    let service = FakeBluetoothGATTService::new_empty(&mut stack, device, label("s.")).unwrap();
    (stack, service)
}

#[test]
fn characteristic_new_keeps_every_attribute() {
    let (mut stack, service) = stack_with_service();
    let c = FakeBluetoothGATTCharacteristic::new(
        &mut stack,
        label("chr"),
        label("2a37"),
        service,
        Some(vec![1, 2, 3]),
        true,
        vec![label("read"), label("notify")],
        vec![],
    )
    .unwrap();
    assert_eq!(c.get_id(&stack), Ok(label("chr")));
    assert_eq!(c.get_uuid(&stack), Ok(label("2a37")));
    assert_eq!(c.get_service(&stack), Ok(service));
    assert_eq!(c.get_value(&stack), Ok(vec![1, 2, 3]));
    assert_eq!(c.read_value(&stack), Ok(vec![1, 2, 3]));
    assert_eq!(c.is_notifying(&stack), Ok(true));
    assert_eq!(c.get_flags(&stack), Ok(vec![label("read"), label("notify")]));
    assert_eq!(c.get_gatt_descriptor_structs(&stack), Ok(vec![]));
    assert_eq!(service.get_gatt_characteristic_structs(&stack), Ok(vec![c]));
}

#[test]
fn characteristic_new_empty_has_the_defaults_and_the_derived_id() {
    let (mut stack, service) = stack_with_service();
    let c = FakeBluetoothGATTCharacteristic::new_empty(&mut stack, service, label("c")).unwrap();
    assert_eq!(c.get_id(&stack), Ok(label("d.s.c")));
    assert_eq!(c.get_uuid(&stack), Ok(String::new()));
    assert_eq!(c.get_service(&stack), Ok(service));
    assert_eq!(c.get_value(&stack), Err(BluetoothError::ValueUnavailable));
    assert_eq!(c.read_value(&stack), Err(BluetoothError::ValueUnavailable));
    assert_eq!(c.is_notifying(&stack), Ok(false));
    assert_eq!(c.get_flags(&stack), Ok(vec![]));
    assert_eq!(c.get_gatt_descriptors(&stack), Ok(vec![]));
}

#[test]
fn creating_a_characteristic_twice_gives_one_characteristic() {
    let (mut stack, service) = stack_with_service();
    let first = FakeBluetoothGATTCharacteristic::new_empty(&mut stack, service, label("c")).unwrap();
    let second = FakeBluetoothGATTCharacteristic::new(
        &mut stack,
        label("d.s.c"),
        label("uuid"),
        service,
        Some(vec![9]),
        true,
        vec![],
        vec![],
    )
    .unwrap();
    assert_eq!(first, second);
    assert_eq!(service.get_gatt_characteristic_structs(&stack), Ok(vec![first]));
    assert_eq!(second.get_value(&stack), Err(BluetoothError::ValueUnavailable));
    second.write_value(&mut stack, vec![4, 5]).unwrap();
    assert_eq!(first.read_value(&stack), Ok(vec![4, 5]));
}

#[test]
fn characteristic_new_with_a_descriptor_that_does_not_exist_fails() {
    let (mut stack, service) = stack_with_service();
    let r = FakeBluetoothGATTCharacteristic::new(
        &mut stack,
        label("c"),
        label(""),
        service,
        None,
        false,
        vec![],
        vec![FakeBluetoothGATTDescriptor { index: 0 }],
    );
    assert_eq!(r, Err(BluetoothError::ValueUnavailable));
    assert_eq!(service.get_gatt_characteristic_structs(&stack), Ok(vec![]));
}

#[test]
fn characteristic_setters_change_what_the_getters_give() {
    let (mut stack, service) = stack_with_service();
    let c = FakeBluetoothGATTCharacteristic::new_empty(&mut stack, service, label("c")).unwrap();
    assert_eq!(c.set_id(&mut stack, label("id")), Ok(()));
    assert_eq!(c.set_uuid(&mut stack, label("uuid")), Ok(()));
    assert_eq!(c.set_value(&mut stack, Some(vec![0, 255])), Ok(()));
    assert_eq!(c.set_notifying(&mut stack, true), Ok(()));
    assert_eq!(c.set_flags(&mut stack, vec![label("write")]), Ok(()));
    assert_eq!(c.get_id(&stack), Ok(label("id")));
    assert_eq!(c.get_uuid(&stack), Ok(label("uuid")));
    assert_eq!(c.get_value(&stack), Ok(vec![0, 255]));
    assert_eq!(c.is_notifying(&stack), Ok(true));
    assert_eq!(c.get_flags(&stack), Ok(vec![label("write")]));
    assert_eq!(c.set_value(&mut stack, None), Ok(()));
    assert_eq!(c.get_value(&stack), Err(BluetoothError::ValueUnavailable));
    assert_eq!(c.write_value(&mut stack, vec![]), Ok(()));
    assert_eq!(c.read_value(&stack), Ok(vec![]));
}

#[test]
fn start_and_stop_notify() {
    let (mut stack, service) = stack_with_service();
    let c = FakeBluetoothGATTCharacteristic::new_empty(&mut stack, service, label("c")).unwrap();
    assert_eq!(c.start_notify(&mut stack), Ok(()));
    assert_eq!(c.is_notifying(&stack), Ok(true));
    assert_eq!(c.start_notify(&mut stack), Ok(()));
    assert_eq!(c.is_notifying(&stack), Ok(true));
    assert_eq!(c.stop_notify(&mut stack), Ok(()));
    assert_eq!(c.is_notifying(&stack), Ok(false));
}

#[test]
fn characteristic_that_does_not_exist_is_unavailable() {
    let (mut stack, _service) = stack_with_service();
    let c = FakeBluetoothGATTCharacteristic { index: 0 };
    assert_eq!(c.get_id(&stack), Err(BluetoothError::ValueUnavailable));
    assert_eq!(c.get_service(&stack), Err(BluetoothError::ValueUnavailable));
    assert_eq!(c.read_value(&stack), Err(BluetoothError::ValueUnavailable));
    assert_eq!(c.write_value(&mut stack, vec![1]), Err(BluetoothError::ValueUnavailable));
    assert_eq!(c.start_notify(&mut stack), Err(BluetoothError::ValueUnavailable));
    assert_eq!(c.stop_notify(&mut stack), Err(BluetoothError::ValueUnavailable));
    assert_eq!(c.get_gatt_descriptors(&stack), Err(BluetoothError::ValueUnavailable));
    assert_eq!(c.get_gatt_descriptor(&stack, label("x")), Err(BluetoothError::ValueUnavailable));
    assert_eq!(c.remove_descriptor(&mut stack, label("x")), Err(BluetoothError::ValueUnavailable));
    assert_eq!(
        FakeBluetoothGATTDescriptor::new_empty(&mut stack, c, label("x")),
        Err(BluetoothError::ValueUnavailable)
    );
}

#[test]
fn characteristic_descriptors_are_found_added_and_removed() {
    let (mut stack, service) = stack_with_service();
    let c = FakeBluetoothGATTCharacteristic::new_empty(&mut stack, service, label("c.")).unwrap();
    let o = FakeBluetoothGATTCharacteristic::new_empty(&mut stack, service, label("o.")).unwrap();
    let d1 = FakeBluetoothGATTDescriptor::new_empty(&mut stack, c, label("1")).unwrap();
    let d2 = FakeBluetoothGATTDescriptor::new_empty(&mut stack, c, label("2")).unwrap();
    let d3 = FakeBluetoothGATTDescriptor::new_empty(&mut stack, o, label("3")).unwrap();
    assert_eq!(c.get_gatt_descriptors(&stack), Ok(vec![label("d.s.c.1"), label("d.s.c.2")]));
    assert_eq!(c.get_gatt_descriptor_structs(&stack), Ok(vec![d1, d2]));
    assert_eq!(c.get_gatt_descriptor(&stack, label("d.s.c.1")), Ok(d1));
    assert_eq!(c.get_gatt_descriptor(&stack, label("1")), Err(BluetoothError::NoSuchDescriptor));
    assert_eq!(c.add_descriptor(&mut stack, d3), Ok(()));
    assert_eq!(
        c.add_descriptor(&mut stack, FakeBluetoothGATTDescriptor { index: 3 }),
        Err(BluetoothError::ValueUnavailable)
    );
    assert_eq!(c.get_gatt_descriptor_structs(&stack), Ok(vec![d1, d2, d3]));
    assert_eq!(c.remove_descriptor(&mut stack, label("d.s.c.2")), Ok(()));
    assert_eq!(c.get_gatt_descriptor(&stack, label("d.s.c.2")), Err(BluetoothError::NoSuchDescriptor));
    assert_eq!(c.get_gatt_descriptor(&stack, label("d.s.c.1")), Ok(d1));
    assert_eq!(c.get_gatt_descriptor(&stack, label("d.s.o.3")), Ok(d3));
    assert_eq!(d2.get_characteristic(&stack), Ok(c));
    assert_eq!(d2.get_id(&stack), Ok(label("d.s.c.2")));
}

#[test]
fn characteristic_add_descriptor_with_an_id_that_it_holds_fails() {
    let (mut stack, service) = stack_with_service();
    let c = FakeBluetoothGATTCharacteristic::new_empty(&mut stack, service, label("c")).unwrap();
    let o = FakeBluetoothGATTCharacteristic::new_empty(&mut stack, service, label("o")).unwrap();
    let d1 = FakeBluetoothGATTDescriptor::new(&mut stack, label("x"), label(""), c, vec![], vec![]).unwrap();
    let d2 = FakeBluetoothGATTDescriptor::new(&mut stack, label("x"), label(""), o, vec![], vec![]).unwrap();
    assert_ne!(d1, d2);
    assert_eq!(c.add_descriptor(&mut stack, d2), Err(BluetoothError::DuplicateId));
    assert_eq!(c.add_descriptor(&mut stack, d1), Err(BluetoothError::DuplicateId));
    assert_eq!(c.get_gatt_descriptor_structs(&stack), Ok(vec![d1]));
    assert_eq!(c.get_gatt_descriptors(&stack), Ok(vec![label("x")]));
}

#[test]
fn characteristic_new_with_two_descriptors_of_one_id_fails() {
    let (mut stack, service) = stack_with_service();
    let c = FakeBluetoothGATTCharacteristic::new_empty(&mut stack, service, label("c")).unwrap();
    let o = FakeBluetoothGATTCharacteristic::new_empty(&mut stack, service, label("o")).unwrap();
    let d1 = FakeBluetoothGATTDescriptor::new(&mut stack, label("x"), label(""), c, vec![], vec![]).unwrap();
    let d2 = FakeBluetoothGATTDescriptor::new(&mut stack, label("x"), label(""), o, vec![], vec![]).unwrap();
    let r = FakeBluetoothGATTCharacteristic::new(
        &mut stack,
        label("n"),
        label(""),
        service,
        None,
        false,
        vec![],
        vec![d1, d2],
    );
    assert_eq!(r, Err(BluetoothError::DuplicateId));
    assert_eq!(service.get_gatt_characteristic_structs(&stack), Ok(vec![c, o]));
}

#[test]
fn characteristic_set_id_to_the_id_of_a_sibling_fails() {
    let (mut stack, service) = stack_with_service();
    let c1 = FakeBluetoothGATTCharacteristic::new_empty(&mut stack, service, label("1")).unwrap();
    let c2 = FakeBluetoothGATTCharacteristic::new_empty(&mut stack, service, label("2")).unwrap();
    assert_eq!(c2.set_id(&mut stack, label("d.s.1")), Err(BluetoothError::DuplicateId));
    assert_eq!(c2.get_id(&stack), Ok(label("d.s.2")));
    assert_eq!(c2.set_id(&mut stack, label("d.s.3")), Ok(()));
    assert_eq!(service.get_gatt_characteristic(&stack, label("d.s.1")), Ok(c1));
    assert_eq!(service.get_gatt_characteristic(&stack, label("d.s.3")), Ok(c2));
}
