use fake_bluetooth::error::BluetoothError;
use fake_bluetooth::fake_adapter::FakeBluetoothAdapter;
use fake_bluetooth::fake_characteristic::FakeBluetoothGATTCharacteristic;
use fake_bluetooth::fake_device::FakeBluetoothDevice;
use fake_bluetooth::fake_service::FakeBluetoothGATTService;
use fake_bluetooth::stack::FakeBluetoothStack;

fn word(s: &str) -> String {
    String::from(s)
}

fn stack_with_device() -> (FakeBluetoothStack, FakeBluetoothDevice) {
    let mut stack = FakeBluetoothStack::new();
    let adapter = FakeBluetoothAdapter::new_empty(&mut stack);
    let device = FakeBluetoothDevice::new_empty(&mut stack, adapter, word("dev/")).unwrap();
    (stack, device)
}

#[test]
fn service_new_keeps_every_attribute() {
    let (mut stack, device) = stack_with_device();
    let inner = FakeBluetoothGATTService::new_empty(&mut stack, device, word("inner")).unwrap();
    let service = FakeBluetoothGATTService::new(
        &mut stack,
        word("svc"),
        device,
        vec![],
        true,
        vec![inner],
        word("180d"),
    )
    .unwrap();
    assert_eq!(service.get_id(&stack), Ok(word("svc")));
    assert_eq!(service.get_device(&stack), Ok(device));
    assert_eq!(service.get_gatt_characteristic_structs(&stack), Ok(vec![]));
    assert_eq!(service.get_gatt_characteristics(&stack), Ok(vec![]));
    assert_eq!(service.is_primary(&stack), Ok(true));
    assert_eq!(service.get_includes(&stack), Ok(vec![word("dev/inner")]));
    assert_eq!(service.get_uuid(&stack), Ok(word("180d")));
}

#[test]
fn service_new_empty_has_the_defaults_and_the_derived_id() {
    let (mut stack, device) = stack_with_device();
    let service = FakeBluetoothGATTService::new_empty(&mut stack, device, word("svc")).unwrap();
    assert_eq!(service.get_id(&stack), Ok(word("dev/svc")));
    assert_eq!(service.get_device(&stack), Ok(device));
    assert_eq!(service.get_gatt_characteristic_structs(&stack), Ok(vec![]));
    assert_eq!(service.is_primary(&stack), Ok(false));
    assert_eq!(service.get_includes(&stack), Ok(vec![]));
    assert_eq!(service.get_uuid(&stack), Ok(String::new()));
}

#[test]
fn creating_a_service_twice_gives_one_service() {
    let (mut stack, device) = stack_with_device();
    let first = FakeBluetoothGATTService::new_empty(&mut stack, device, word("svc")).unwrap();
    let second = FakeBluetoothGATTService::new(
        &mut stack,
        word("dev/svc"),
        device,
        vec![],
        true,
        vec![],
        word("uuid"),
    )
    .unwrap();
    assert_eq!(first, second);
    assert_eq!(second.is_primary(&stack), Ok(false));
    second.set_uuid(&mut stack, word("changed")).unwrap();
    assert_eq!(first.get_uuid(&stack), Ok(word("changed")));
    device.set_connected(&mut stack, true).unwrap();
    assert_eq!(device.get_gatt_service_structs(&stack), Ok(vec![first]));
}

#[test]
fn creating_a_service_twice_gives_one_service_also_while_disconnected() {
    let (mut stack, device) = stack_with_device();
    assert_eq!(device.is_connected(&stack), Ok(false));
    let first = FakeBluetoothGATTService::new_empty(&mut stack, device, word("svc")).unwrap();
    let second = FakeBluetoothGATTService::new_empty(&mut stack, device, word("svc")).unwrap();
    assert_eq!(first, second);
    device.set_connected(&mut stack, true).unwrap();
    assert_eq!(device.get_gatt_services(&stack), Ok(vec![word("dev/svc")]));
}

#[test]
fn service_new_with_children_that_do_not_exist_fails() {
    let (mut stack, device) = stack_with_device();
    let r = FakeBluetoothGATTService::new(
        &mut stack,
        word("svc"),
        device,
        vec![FakeBluetoothGATTCharacteristic { index: 0 }],
        false,
        vec![],
        word(""),
    );
    assert_eq!(r, Err(BluetoothError::ValueUnavailable));
    let r = FakeBluetoothGATTService::new(
        &mut stack,
        word("svc"),
        device,
        vec![],
        false,
        vec![FakeBluetoothGATTService { index: 0 }],
        word(""),
    );
    assert_eq!(r, Err(BluetoothError::ValueUnavailable));
    device.set_connected(&mut stack, true).unwrap();
    assert_eq!(device.get_gatt_service_structs(&stack), Ok(vec![]));
}

#[test]
fn service_setters_change_what_the_getters_give() {
    let (mut stack, device) = stack_with_device();
    let service = FakeBluetoothGATTService::new_empty(&mut stack, device, word("svc")).unwrap();
    let a = FakeBluetoothGATTService::new_empty(&mut stack, device, word("a")).unwrap();
    let b = FakeBluetoothGATTService::new_empty(&mut stack, device, word("b")).unwrap();
    assert_eq!(service.set_id(&mut stack, word("id")), Ok(()));
    assert_eq!(service.set_is_primary(&mut stack, true), Ok(()));
    assert_eq!(service.set_uuid(&mut stack, word("uuid")), Ok(()));
    assert_eq!(service.set_includes(&mut stack, vec![b, a]), Ok(()));
    assert_eq!(service.get_id(&stack), Ok(word("id")));
    assert_eq!(service.is_primary(&stack), Ok(true));
    assert_eq!(service.get_uuid(&stack), Ok(word("uuid")));
    assert_eq!(service.get_includes(&stack), Ok(vec![word("dev/b"), word("dev/a")]));
    assert_eq!(
        service.set_includes(&mut stack, vec![a, FakeBluetoothGATTService { index: 50 }]),
        Err(BluetoothError::ValueUnavailable)
    );
    assert_eq!(service.get_includes(&stack), Ok(vec![word("dev/b"), word("dev/a")]));
}

#[test]
fn service_that_does_not_exist_is_unavailable() {
    let (mut stack, _device) = stack_with_device();
    let service = FakeBluetoothGATTService { index: 0 };
    assert_eq!(service.get_id(&stack), Err(BluetoothError::ValueUnavailable));
    assert_eq!(service.get_device(&stack), Err(BluetoothError::ValueUnavailable));
    assert_eq!(service.is_primary(&stack), Err(BluetoothError::ValueUnavailable));
    assert_eq!(service.set_is_primary(&mut stack, true), Err(BluetoothError::ValueUnavailable));
    assert_eq!(service.set_includes(&mut stack, vec![]), Err(BluetoothError::ValueUnavailable));
    assert_eq!(service.get_includes(&stack), Err(BluetoothError::ValueUnavailable));
    assert_eq!(service.get_gatt_characteristics(&stack), Err(BluetoothError::ValueUnavailable));
    assert_eq!(
        service.get_gatt_characteristic(&stack, word("c")),
        Err(BluetoothError::ValueUnavailable)
    );
    assert_eq!(
        service.remove_characteristic(&mut stack, word("c")),
        Err(BluetoothError::ValueUnavailable)
    );
    assert_eq!(
        service.remove_included_service(&mut stack, word("c")),
        Err(BluetoothError::ValueUnavailable)
    );
    assert_eq!(
        FakeBluetoothGATTCharacteristic::new_empty(&mut stack, service, word("c")),
        Err(BluetoothError::ValueUnavailable)
    );
}

#[test]
fn service_characteristics_are_found_added_and_removed() {
    let (mut stack, device) = stack_with_device();
    let service = FakeBluetoothGATTService::new_empty(&mut stack, device, word("s/")).unwrap();
    let other = FakeBluetoothGATTService::new_empty(&mut stack, device, word("o/")).unwrap();
    let c1 = FakeBluetoothGATTCharacteristic::new_empty(&mut stack, service, word("c1")).unwrap();
    let c2 = FakeBluetoothGATTCharacteristic::new_empty(&mut stack, service, word("c2")).unwrap();
    let c3 = FakeBluetoothGATTCharacteristic::new_empty(&mut stack, other, word("c3")).unwrap();
    assert_eq!(
        service.get_gatt_characteristics(&stack),
        Ok(vec![word("dev/s/c1"), word("dev/s/c2")])
    );
    assert_eq!(service.get_gatt_characteristic_structs(&stack), Ok(vec![c1, c2]));
    assert_eq!(service.get_gatt_characteristic(&stack, word("dev/s/c2")), Ok(c2));
    assert_eq!(
        service.get_gatt_characteristic(&stack, word("c2")),
        Err(BluetoothError::NoSuchCharacteristic)
    );
    assert_eq!(service.add_characteristic(&mut stack, c3), Ok(()));
    assert_eq!(service.get_gatt_characteristic_structs(&stack), Ok(vec![c1, c2, c3]));
    assert_eq!(
        service.add_characteristic(&mut stack, FakeBluetoothGATTCharacteristic { index: 9 }),
        Err(BluetoothError::ValueUnavailable)
    );
    assert_eq!(service.remove_characteristic(&mut stack, word("dev/s/c1")), Ok(()));
    assert_eq!(
        service.get_gatt_characteristic(&stack, word("dev/s/c1")),
        Err(BluetoothError::NoSuchCharacteristic)
    );
    assert_eq!(service.get_gatt_characteristic(&stack, word("dev/s/c2")), Ok(c2));
    assert_eq!(service.get_gatt_characteristic(&stack, word("dev/o/c3")), Ok(c3));
    assert_eq!(c1.get_service(&stack), Ok(service));
    assert_eq!(c1.get_id(&stack), Ok(word("dev/s/c1")));
}

#[test]
fn service_included_services_are_added_and_removed() {
    let (mut stack, device) = stack_with_device();
    let service = FakeBluetoothGATTService::new_empty(&mut stack, device, word("s")).unwrap();
    let a = FakeBluetoothGATTService::new_empty(&mut stack, device, word("a")).unwrap();
    let b = FakeBluetoothGATTService::new_empty(&mut stack, device, word("b")).unwrap();
    assert_eq!(service.add_included_service(&mut stack, a), Ok(()));
    assert_eq!(service.add_included_service(&mut stack, b), Ok(()));
    assert_eq!(service.add_included_service(&mut stack, a), Err(BluetoothError::DuplicateId));
    assert_eq!(
        service.add_included_service(&mut stack, FakeBluetoothGATTService { index: 77 }),
        Err(BluetoothError::ValueUnavailable)
    );
    assert_eq!(service.get_includes(&stack), Ok(vec![word("dev/a"), word("dev/b")]));
    assert_eq!(service.remove_included_service(&mut stack, word("dev/a")), Ok(()));
    assert_eq!(service.get_includes(&stack), Ok(vec![word("dev/b")]));
    assert_eq!(service.remove_included_service(&mut stack, word("dev/b")), Ok(()));
    assert_eq!(service.get_includes(&stack), Ok(vec![]));
    assert_eq!(a.get_id(&stack), Ok(word("dev/a")));
}

#[test]
fn a_service_may_include_itself() {
    let (mut stack, device) = stack_with_device();
    let service = FakeBluetoothGATTService::new_empty(&mut stack, device, word("s")).unwrap();
    assert_eq!(service.add_included_service(&mut stack, service), Ok(()));
    assert_eq!(service.get_includes(&stack), Ok(vec![word("dev/s")]));
    service.set_id(&mut stack, word("t")).unwrap();
    assert_eq!(service.get_includes(&stack), Ok(vec![word("t")]));
    assert_eq!(service.remove_included_service(&mut stack, word("t")), Ok(()));
    assert_eq!(service.get_includes(&stack), Ok(vec![]));
    assert_eq!(service.get_id(&stack), Ok(word("t")));
}

#[test]
fn service_add_characteristic_with_an_id_that_it_holds_fails() {
    let (mut stack, device) = stack_with_device();
    let service = FakeBluetoothGATTService::new_empty(&mut stack, device, word("s")).unwrap();
    let other = FakeBluetoothGATTService::new_empty(&mut stack, device, word("o")).unwrap();
    let c1 = FakeBluetoothGATTCharacteristic::new_empty(&mut stack, service, word("c")).unwrap();
    let c2 = FakeBluetoothGATTCharacteristic::new_empty(&mut stack, other, word("c")).unwrap();
    c2.set_id(&mut stack, word("dev/sc")).unwrap();
    assert_eq!(service.add_characteristic(&mut stack, c2), Err(BluetoothError::DuplicateId));
    assert_eq!(service.add_characteristic(&mut stack, c1), Err(BluetoothError::DuplicateId));
    assert_eq!(service.get_gatt_characteristic_structs(&stack), Ok(vec![c1]));
}

#[test]
fn service_new_with_two_children_of_one_id_fails() {
    let (mut stack, device) = stack_with_device();
    let a = FakeBluetoothGATTService::new_empty(&mut stack, device, word("a")).unwrap();
    let b = FakeBluetoothGATTService::new_empty(&mut stack, device, word("b")).unwrap();
    let ca = FakeBluetoothGATTCharacteristic::new_empty(&mut stack, a, word("/c")).unwrap();
    let cb = FakeBluetoothGATTCharacteristic::new_empty(&mut stack, b, word("/c")).unwrap();
    cb.set_id(&mut stack, word("dev/a/c")).unwrap();
    let r = FakeBluetoothGATTService::new(
        &mut stack,
        word("svc"),
        device,
        vec![ca, cb],
        false,
        vec![],
        word(""),
    );
    assert_eq!(r, Err(BluetoothError::DuplicateId));
    let r = FakeBluetoothGATTService::new(
        &mut stack,
        word("svc"),
        device,
        vec![],
        false,
        vec![a, a],
        word(""),
    );
    assert_eq!(r, Err(BluetoothError::DuplicateId));
    let r = FakeBluetoothGATTService::new(
        &mut stack,
        word("svc"),
        device,
        vec![ca],
        false,
        vec![a, b],
        word(""),
    );
    assert_eq!(r.unwrap().get_includes(&stack), Ok(vec![word("dev/a"), word("dev/b")]));
}

#[test]
fn service_set_includes_with_two_of_one_id_fails() {
    let (mut stack, device) = stack_with_device();
    let service = FakeBluetoothGATTService::new_empty(&mut stack, device, word("s")).unwrap();
    let a = FakeBluetoothGATTService::new_empty(&mut stack, device, word("a")).unwrap();
    assert_eq!(service.set_includes(&mut stack, vec![a, a]), Err(BluetoothError::DuplicateId));
    assert_eq!(service.get_includes(&stack), Ok(vec![]));
    assert_eq!(service.set_includes(&mut stack, vec![a]), Ok(()));
    assert_eq!(service.get_includes(&stack), Ok(vec![word("dev/a")]));
}

#[test]
fn service_set_id_to_the_id_of_a_sibling_fails() {
    let (mut stack, device) = stack_with_device();
    let s1 = FakeBluetoothGATTService::new_empty(&mut stack, device, word("1")).unwrap();
    let s2 = FakeBluetoothGATTService::new_empty(&mut stack, device, word("2")).unwrap();
    assert_eq!(s2.set_id(&mut stack, word("dev/1")), Err(BluetoothError::DuplicateId));
    assert_eq!(s2.get_id(&stack), Ok(word("dev/2")));
    // its own id is no obstacle, nor one that nobody beside it has
    assert_eq!(s2.set_id(&mut stack, word("dev/2")), Ok(()));
    assert_eq!(s2.set_id(&mut stack, word("dev/3")), Ok(()));
    assert_eq!(s1.set_id(&mut stack, word("dev/2")), Ok(()));
    device.set_connected(&mut stack, true).unwrap();
    assert_eq!(device.get_gatt_services(&stack), Ok(vec![word("dev/2"), word("dev/3")]));
}

#[test]
fn service_set_id_to_the_id_of_one_included_beside_it_fails() {
    let (mut stack, device) = stack_with_device();
    let adapter = device.get_adapter(&stack).unwrap();
    let other = FakeBluetoothDevice::new_empty(&mut stack, adapter, word("other/")).unwrap();
    let holder = FakeBluetoothGATTService::new_empty(&mut stack, device, word("holder")).unwrap();
    let a = FakeBluetoothGATTService::new_empty(&mut stack, device, word("a")).unwrap();
    let b = FakeBluetoothGATTService::new_empty(&mut stack, other, word("b")).unwrap();
    holder.set_includes(&mut stack, vec![a, b]).unwrap();
    // a and b are no siblings under a device, but holder includes both
    assert_eq!(b.set_id(&mut stack, word("dev/a")), Err(BluetoothError::DuplicateId));
    assert_eq!(holder.get_includes(&stack), Ok(vec![word("dev/a"), word("other/b")]));
    holder.remove_included_service(&mut stack, word("dev/a")).unwrap();
    assert_eq!(b.set_id(&mut stack, word("dev/a")), Ok(()));
    assert_eq!(holder.get_includes(&stack), Ok(vec![word("dev/a")]));
}
