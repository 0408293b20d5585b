use fake_bluetooth::error::BluetoothError;
use fake_bluetooth::fake_adapter::FakeBluetoothAdapter;
use fake_bluetooth::fake_characteristic::FakeBluetoothGATTCharacteristic;
use fake_bluetooth::fake_descriptor::FakeBluetoothGATTDescriptor;
use fake_bluetooth::fake_device::FakeBluetoothDevice;
use fake_bluetooth::fake_service::FakeBluetoothGATTService;
use fake_bluetooth::stack::FakeBluetoothStack;

fn tag(s: &str) -> String {
    String::from(s)
}

fn stack_with_characteristic() -> (FakeBluetoothStack, FakeBluetoothGATTCharacteristic) {
    let mut stack = FakeBluetoothStack::new();
    let adapter = FakeBluetoothAdapter::new_empty(&mut stack);
    let device = FakeBluetoothDevice::new_empty(&mut stack, adapter, tag("d-")).unwrap();
    let service = FakeBluetoothGATTService::new_empty(&mut stack, device, tag("s-")).unwrap();
    let c = FakeBluetoothGATTCharacteristic::new_empty(&mut stack, service, tag("c-")).unwrap();
    (stack, c)
}

#[test]
fn descriptor_new_keeps_every_attribute() {
    let (mut stack, c) = stack_with_characteristic();
    let d = FakeBluetoothGATTDescriptor::new(
        &mut stack,
        tag("dsc"),
        tag("2902"),
        c,
        vec![1, 0],
        vec![tag("read")],
    )
    .unwrap();
    assert_eq!(d.get_id(&stack), Ok(tag("dsc")));
    assert_eq!(d.get_uuid(&stack), Ok(tag("2902")));
    assert_eq!(d.get_characteristic(&stack), Ok(c));
    assert_eq!(d.get_value(&stack), Ok(vec![1, 0]));
    assert_eq!(d.read_value(&stack), Ok(vec![1, 0]));
    assert_eq!(d.get_flags(&stack), Ok(vec![tag("read")]));
    assert_eq!(c.get_gatt_descriptor_structs(&stack), Ok(vec![d]));
}

#[test]
fn descriptor_new_empty_has_the_defaults_and_the_derived_id() {
    let (mut stack, c) = stack_with_characteristic();
    let d = FakeBluetoothGATTDescriptor::new_empty(&mut stack, c, tag("x")).unwrap();
    assert_eq!(d.get_id(&stack), Ok(tag("d-s-c-x")));
    assert_eq!(d.get_uuid(&stack), Ok(String::new()));
    assert_eq!(d.get_characteristic(&stack), Ok(c));
    assert_eq!(d.get_value(&stack), Ok(vec![]));
    assert_eq!(d.get_flags(&stack), Ok(vec![]));
}

#[test]
fn creating_a_descriptor_twice_gives_one_descriptor() {
    let (mut stack, c) = stack_with_characteristic();
    let first = FakeBluetoothGATTDescriptor::new(
        &mut stack,
        tag("dsc"),
        tag("u"),
        c,
        vec![7],
        vec![],
    )
    .unwrap();
    let second = FakeBluetoothGATTDescriptor::new(
        &mut stack,
        tag("dsc"),
        tag("other"),
        c,
        vec![8],
        vec![tag("f")],
    )
    .unwrap();
    assert_eq!(first, second);
    assert_eq!(c.get_gatt_descriptor_structs(&stack), Ok(vec![first]));
    assert_eq!(second.get_value(&stack), Ok(vec![7]));
    assert_eq!(second.get_uuid(&stack), Ok(tag("u")));
    first.write_value(&mut stack, vec![1, 2]).unwrap();
    assert_eq!(second.read_value(&stack), Ok(vec![1, 2]));
}

#[test]
fn descriptor_setters_change_what_the_getters_give() {
    let (mut stack, c) = stack_with_characteristic();
    let d = FakeBluetoothGATTDescriptor::new_empty(&mut stack, c, tag("x")).unwrap();
    assert_eq!(d.set_id(&mut stack, tag("id")), Ok(()));
    assert_eq!(d.set_uuid(&mut stack, tag("uuid")), Ok(()));
    assert_eq!(d.set_value(&mut stack, vec![3, 2, 1]), Ok(()));
    assert_eq!(d.set_flags(&mut stack, vec![tag("a"), tag("b")]), Ok(()));
    assert_eq!(d.get_id(&stack), Ok(tag("id")));
    assert_eq!(d.get_uuid(&stack), Ok(tag("uuid")));
    assert_eq!(d.get_value(&stack), Ok(vec![3, 2, 1]));
    assert_eq!(d.get_flags(&stack), Ok(vec![tag("a"), tag("b")]));
    assert_eq!(d.write_value(&mut stack, vec![9]), Ok(()));
    assert_eq!(d.read_value(&stack), Ok(vec![9]));
}

#[test]
fn descriptor_that_does_not_exist_is_unavailable() {
    let (mut stack, _c) = stack_with_characteristic();
    let d = FakeBluetoothGATTDescriptor { index: 0 };
    assert_eq!(d.get_id(&stack), Err(BluetoothError::ValueUnavailable));
    assert_eq!(d.get_characteristic(&stack), Err(BluetoothError::ValueUnavailable));
    assert_eq!(d.get_value(&stack), Err(BluetoothError::ValueUnavailable));
    assert_eq!(d.read_value(&stack), Err(BluetoothError::ValueUnavailable));
    assert_eq!(d.write_value(&mut stack, vec![1]), Err(BluetoothError::ValueUnavailable));
    assert_eq!(d.set_flags(&mut stack, vec![]), Err(BluetoothError::ValueUnavailable));
}

#[test]
fn descriptor_new_under_a_characteristic_that_does_not_exist_fails() {
    let mut stack = FakeBluetoothStack::new();
    let r = FakeBluetoothGATTDescriptor::new(
        &mut stack,
        tag("d"),
        tag(""),
        FakeBluetoothGATTCharacteristic { index: 0 },
        vec![],
        vec![],
    );
    assert_eq!(r, Err(BluetoothError::ValueUnavailable));
}

#[test]
fn descriptor_set_id_to_the_id_of_a_sibling_fails() {
    let (mut stack, c) = stack_with_characteristic();
    let d1 = FakeBluetoothGATTDescriptor::new_empty(&mut stack, c, tag("1")).unwrap();
    let d2 = FakeBluetoothGATTDescriptor::new_empty(&mut stack, c, tag("2")).unwrap();
    assert_eq!(d2.set_id(&mut stack, tag("d-s-c-1")), Err(BluetoothError::DuplicateId));
    assert_eq!(d2.get_id(&stack), Ok(tag("d-s-c-2")));
    assert_eq!(c.get_gatt_descriptors(&stack), Ok(vec![tag("d-s-c-1"), tag("d-s-c-2")]));
    assert_eq!(d2.set_id(&mut stack, tag("free")), Ok(()));
    assert_eq!(c.get_gatt_descriptor(&stack, tag("free")), Ok(d2));
    assert_eq!(c.get_gatt_descriptor(&stack, tag("d-s-c-1")), Ok(d1));
}

#[test]
fn descriptor_that_is_new_reads_back_what_it_was_given() {
    let (mut stack, c) = stack_with_characteristic();
    let before = c.get_gatt_descriptors(&stack).unwrap();
    let d = FakeBluetoothGATTDescriptor::new(&mut stack, tag("n"), tag("u"), c, vec![5, 6], vec![tag("f")])
        .unwrap();
    assert_eq!(d.get_id(&stack), Ok(tag("n")));
    assert_eq!(d.read_value(&stack), Ok(vec![5, 6]));
    let mut expected = before;
    expected.push(tag("n"));
    assert_eq!(c.get_gatt_descriptors(&stack), Ok(expected));
    let ids = c.get_gatt_descriptors(&stack).unwrap();
    assert_eq!(ids.iter().filter(|id| id.as_str() == "n").count(), 1);
}
