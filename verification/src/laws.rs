//! What holds of lookup, creation and removal, whatever the stack.
//!
//! First come the facts about lists of handles alone. Then, for each kind of
//! child, what creating and removing it does to the list of its parent.
//! Last, what they do to the whole stack: that ids stay distinct among
//! siblings, and that children stay under the parents that they name.

use vstd::prelude::*;
use crate::error::BluetoothError;
use crate::fake_adapter::FakeBluetoothAdapter;
use crate::fake_characteristic::FakeBluetoothGATTCharacteristic;
use crate::fake_descriptor::FakeBluetoothGATTDescriptor;
use crate::fake_device::FakeBluetoothDevice;
use crate::fake_service::FakeBluetoothGATTService;
use crate::model::{
    first_with_id, has_other_id, holds_id_once, ids_distinct, ids_of, lemma_first_with_id,
    lemma_first_with_id_at, lemma_without_id_members, without_id, AdapterModel,
    CharacteristicModel, DescriptorModel, DeviceModel, ServiceModel, StackModel,
};

verus! {

/// Lookup looks at the ids of the listed handles only: two ways of giving
/// ids that agree on them give the same answer.
pub proof fn lemma_first_with_id_agrees<H>(
    hs: Seq<H>,
    id_of: spec_fn(H) -> Seq<char>,
    other_id_of: spec_fn(H) -> Seq<char>,
    id: Seq<char>,
)
    requires
        forall|k: int| 0 <= k < hs.len() ==> id_of(#[trigger] hs[k]) == other_id_of(hs[k]),
    ensures
        first_with_id(hs, id_of, id) == first_with_id(hs, other_id_of, id),
{
    assert(ids_of(hs, id_of) =~= ids_of(hs, other_id_of));
}

/// Lookup in a list with one more handle at its end: what was found before
/// is found still, and the new handle is found only if nothing was.
pub proof fn lemma_first_with_id_push<H>(
    hs: Seq<H>,
    id_of: spec_fn(H) -> Seq<char>,
    x: H,
    id: Seq<char>,
)
    ensures
        first_with_id(hs.push(x), id_of, id) == match first_with_id(hs, id_of, id) {
            Some(h) => Some(h),
            None => if id_of(x) == id {
                Some(x)
            } else {
                None
            },
        },
{
    let longer = hs.push(x);
    lemma_first_with_id(hs, id_of, id);
    lemma_first_with_id(longer, id_of, id);
    match ids_of(hs, id_of).index_of_first(id) {
        Some(k) => {
            assert(longer[k] == hs[k]);
            assert forall|j: int| 0 <= j < k implies id_of(#[trigger] longer[j]) != id by {
                assert(longer[j] == hs[j]);
            }
            lemma_first_with_id_at(longer, id_of, id, k);
        },
        None => {
            assert forall|j: int| 0 <= j < hs.len() implies id_of(#[trigger] longer[j]) != id by {
                assert(longer[j] == hs[j]);
            }
            if id_of(x) == id {
                assert(longer[hs.len() as int] == x);
                lemma_first_with_id_at(longer, id_of, id, hs.len() as int);
            } else {
                assert forall|j: int| 0 <= j < longer.len() implies id_of(#[trigger] longer[j])
                    != id by {
                    if j < hs.len() {
                        assert(longer[j] == hs[j]);
                    }
                }
            }
        },
    }
}

/// After an id was removed from a list, lookup of that id finds nothing.
pub proof fn lemma_removed_id_is_gone<H>(
    hs: Seq<H>,
    id_of: spec_fn(H) -> Seq<char>,
    id: Seq<char>,
)
    ensures
        first_with_id(without_id(hs, id_of, id), id_of, id) is None,
{
    lemma_without_id_members(hs, id_of, id);
    lemma_first_with_id(without_id(hs, id_of, id), id_of, id);
}

/// After an id was removed from a list, lookup of any other id finds what it
/// found before.
pub proof fn lemma_other_ids_stay<H>(
    hs: Seq<H>,
    id_of: spec_fn(H) -> Seq<char>,
    id: Seq<char>,
    other: Seq<char>,
)
    requires
        other != id,
    ensures
        first_with_id(without_id(hs, id_of, id), id_of, other) == first_with_id(hs, id_of, other),
    decreases hs.len(),
{
    let keep = has_other_id(id_of, id);
    if hs.len() == 0 {
        assert(hs.filter(keep) =~= hs) by {
            reveal_with_fuel(Seq::filter, 1);
        }
    } else {
        let init = hs.drop_last();
        let x = hs.last();
        assert(hs =~= init.push(x));
        init.lemma_filter_push(x, keep);
        lemma_other_ids_stay(init, id_of, id, other);
        lemma_first_with_id_push(init, id_of, x, other);
        if keep(x) {
            lemma_first_with_id_push(without_id(init, id_of, id), id_of, x, other);
        }
    }
}

/// A list of distinct ids stays one when a handle is added whose id lookup
/// did not find.
pub proof fn lemma_push_keeps_ids_distinct<H>(hs: Seq<H>, id_of: spec_fn(H) -> Seq<char>, x: H)
    requires
        ids_distinct(hs, id_of),
        first_with_id(hs, id_of, id_of(x)) is None,
    ensures
        ids_distinct(hs.push(x), id_of),
{
    lemma_first_with_id(hs, id_of, id_of(x));
    let longer = hs.push(x);
    assert forall|j: int, k: int| 0 <= j < k < longer.len() implies id_of(#[trigger] longer[j])
        != id_of(#[trigger] longer[k]) by {
        assert(longer[j] == hs[j]);
        if k < hs.len() {
            assert(longer[k] == hs[k]);
        } else {
            assert(longer[k] == x);
            assert(id_of(hs[j]) != id_of(x));
        }
    }
}

/// A list of distinct ids stays one when an id is removed from it.
pub proof fn lemma_without_keeps_ids_distinct<H>(
    hs: Seq<H>,
    id_of: spec_fn(H) -> Seq<char>,
    id: Seq<char>,
)
    requires
        ids_distinct(hs, id_of),
    ensures
        ids_distinct(without_id(hs, id_of, id), id_of),
    decreases hs.len(),
{
    let keep = has_other_id(id_of, id);
    if hs.len() == 0 {
        assert(hs.filter(keep) =~= hs) by {
            reveal_with_fuel(Seq::filter, 1);
        }
    } else {
        let init = hs.drop_last();
        let x = hs.last();
        assert(hs =~= init.push(x));
        init.lemma_filter_push(x, keep);
        assert forall|j: int, k: int| 0 <= j < k < init.len() implies id_of(#[trigger] init[j])
            != id_of(#[trigger] init[k]) by {
            assert(init[j] == hs[j] && init[k] == hs[k]);
        }
        lemma_without_keeps_ids_distinct(init, id_of, id);
        if keep(x) {
            let kept = without_id(init, id_of, id);
            lemma_without_id_members(init, id_of, id);
            let longer = kept.push(x);
            assert forall|j: int, k: int| 0 <= j < k < longer.len() implies id_of(
                #[trigger] longer[j],
            ) != id_of(#[trigger] longer[k]) by {
                assert(longer[j] == kept[j]);
                if k < kept.len() {
                    assert(longer[k] == kept[k]);
                } else {
                    assert(init.contains(kept[j]));
                    let i = choose|i: int| 0 <= i < init.len() && init[i] == kept[j];
                    assert(hs[i] == kept[j]);
                    assert(hs[hs.len() - 1] == x);
                    assert(id_of(hs[i]) != id_of(hs[hs.len() - 1]));
                }
            }
        }
    }
}

/// Whether the ids of a list are distinct depends on the ids of the listed
/// handles only.
pub proof fn lemma_ids_distinct_agrees<H>(
    hs: Seq<H>,
    id_of: spec_fn(H) -> Seq<char>,
    other_id_of: spec_fn(H) -> Seq<char>,
)
    requires
        forall|k: int| 0 <= k < hs.len() ==> id_of(#[trigger] hs[k]) == other_id_of(hs[k]),
        ids_distinct(hs, id_of),
    ensures
        ids_distinct(hs, other_id_of),
{
    assert forall|j: int, k: int| 0 <= j < k < hs.len() implies other_id_of(#[trigger] hs[j])
        != other_id_of(#[trigger] hs[k]) by {
        assert(id_of(hs[j]) != id_of(hs[k]));
    }
}

/// Two strings that end alike and are equal begin alike.
pub proof fn lemma_same_suffix(a: Seq<char>, b: Seq<char>, suffix: Seq<char>)
    requires
        a + suffix == b + suffix,
    ensures
        a == b,
{
    assert((a + suffix).len() == a.len() + suffix.len());
    assert((b + suffix).len() == b.len() + suffix.len());
    assert forall|i: int| 0 <= i < a.len() implies a[i] == b[i] by {
        assert((a + suffix)[i] == a[i]);
        assert((b + suffix)[i] == b[i]);
    }
    assert(a =~= b);
}

/// In a list of distinct ids, the id of each of its handles is held once.
pub proof fn lemma_distinct_holds_once<H>(hs: Seq<H>, id_of: spec_fn(H) -> Seq<char>, k: int)
    requires
        ids_distinct(hs, id_of),
        0 <= k < hs.len(),
    ensures
        holds_id_once(hs, id_of, id_of(hs[k])),
{
    assert forall|j: int| 0 <= j < hs.len() && id_of(#[trigger] hs[j]) == id_of(hs[k]) implies j
        == k by {
        if j < k {
            assert(id_of(hs[j]) != id_of(hs[k]));
        }
        if k < j {
            assert(id_of(hs[k]) != id_of(hs[j]));
        }
    }
}

/// A device that was created, or found in place of being created, is the
/// device that lookup of its id under its adapter gives afterwards, and has
/// that id.
pub proof fn law_created_device_is_found(stack: StackModel, init: DeviceModel)
    requires
        stack.wf(),
        stack.create_device(init).1 is Ok,
    ensures
        stack.create_device(init).0.find_device(
            stack.create_device(init).0.adapter(init.adapter).devices,
            init.id,
        ) == Some(stack.create_device(init).1->Ok_0),
        stack.create_device(init).0.has_device(stack.create_device(init).1->Ok_0),
        stack.create_device(init).0.device(stack.create_device(init).1->Ok_0).id == init.id,
{
    let (after, r) = stack.create_device(init);
    let siblings = stack.adapter(init.adapter).devices;
    assert(stack.has_devices(stack.adapters[init.adapter.index as int].devices));
    lemma_first_with_id(siblings, stack.device_id(), init.id);
    if stack.find_device(siblings, init.id) is None {
        let created = stack.next_device();
        assert(after.adapter(init.adapter).devices == siblings.push(created));
        assert forall|k: int| 0 <= k < siblings.len() implies (stack.device_id())(
            #[trigger] siblings[k],
        ) == (after.device_id())(siblings[k]) by {
            assert(stack.has_device(siblings[k]));
        }
        lemma_first_with_id_agrees(siblings, stack.device_id(), after.device_id(), init.id);
        lemma_first_with_id_push(siblings, after.device_id(), created, init.id);
    }
}

/// Creating a device a second time under the same adapter and the same id,
/// with whatever other attributes, gives the device of the first time and
/// changes nothing.
pub proof fn law_create_device_twice(stack: StackModel, first: DeviceModel, second: DeviceModel)
    requires
        stack.wf(),
        stack.create_device(first).1 is Ok,
        second.id == first.id,
        second.adapter == first.adapter,
    ensures
        stack.create_device(first).0.create_device(second) == stack.create_device(first),
{
    law_created_device_is_found(stack, first);
}

/// Creating a device leaves the ids of the devices of every adapter distinct
/// where they were distinct before.
pub proof fn law_create_device_keeps_ids_distinct(
    stack: StackModel,
    init: DeviceModel,
    adapter: FakeBluetoothAdapter,
)
    requires
        stack.wf(),
        stack.has_adapter(adapter),
        ids_distinct(stack.adapter(adapter).devices, stack.device_id()),
    ensures
        ids_distinct(
            stack.create_device(init).0.adapter(adapter).devices,
            stack.create_device(init).0.device_id(),
        ),
{
    let (after, r) = stack.create_device(init);
    let siblings = stack.adapter(adapter).devices;
    assert(stack.has_devices(stack.adapters[adapter.index as int].devices));
    if after != stack {
        assert forall|k: int| 0 <= k < siblings.len() implies (stack.device_id())(
            #[trigger] siblings[k],
        ) == (after.device_id())(siblings[k]) by {
            assert(stack.has_device(siblings[k]));
        }
        lemma_ids_distinct_agrees(siblings, stack.device_id(), after.device_id());
        if adapter == init.adapter {
            let created = stack.next_device();
            assert(after.adapter(adapter).devices == siblings.push(created));
            lemma_first_with_id_agrees(siblings, stack.device_id(), after.device_id(), init.id);
            lemma_push_keeps_ids_distinct(siblings, after.device_id(), created);
        } else {
            assert(after.adapter(adapter).devices == siblings);
        }
    }
}

/// A device that was created stands under the adapter that it names: its
/// adapter lists it.
pub proof fn law_created_device_is_listed(stack: StackModel, init: DeviceModel)
    requires
        stack.wf(),
        stack.create_device(init).1 is Ok,
        stack.find_device(stack.adapter(init.adapter).devices, init.id) is None,
    ensures
        stack.create_device(init).0.device(stack.create_device(init).1->Ok_0).adapter
            == init.adapter,
        stack.create_device(init).0.adapter(init.adapter).devices.last() == stack.create_device(
            init,
        ).1->Ok_0,
{
}

/// After the devices with some id were removed from an adapter, lookup of
/// that id under the adapter finds nothing.
pub proof fn law_removed_device_is_gone(
    stack: StackModel,
    adapter: FakeBluetoothAdapter,
    id: Seq<char>,
)
    requires
        stack.has_adapter(adapter),
    ensures
        stack.remove_device(adapter, id).find_device(
            stack.remove_device(adapter, id).adapter(adapter).devices,
            id,
        ) is None,
{
    lemma_removed_id_is_gone(stack.adapter(adapter).devices, stack.device_id(), id);
}

/// After the devices with some id were removed from an adapter, lookup of
/// any other id under the adapter finds what it found before.
pub proof fn law_other_devices_stay(
    stack: StackModel,
    adapter: FakeBluetoothAdapter,
    id: Seq<char>,
    other: Seq<char>,
)
    requires
        stack.has_adapter(adapter),
        other != id,
    ensures
        stack.remove_device(adapter, id).find_device(
            stack.remove_device(adapter, id).adapter(adapter).devices,
            other,
        ) == stack.find_device(stack.adapter(adapter).devices, other),
{
    lemma_other_ids_stay(stack.adapter(adapter).devices, stack.device_id(), id, other);
}

/// Removing the devices with some id from an adapter leaves the ids of the
/// devices of the adapter distinct where they were distinct before.
pub proof fn law_remove_device_keeps_ids_distinct(
    stack: StackModel,
    adapter: FakeBluetoothAdapter,
    id: Seq<char>,
)
    requires
        stack.has_adapter(adapter),
        ids_distinct(stack.adapter(adapter).devices, stack.device_id()),
    ensures
        ids_distinct(
            stack.remove_device(adapter, id).adapter(adapter).devices,
            stack.remove_device(adapter, id).device_id(),
        ),
{
    lemma_without_keeps_ids_distinct(stack.adapter(adapter).devices, stack.device_id(), id);
}

/// A service that was created, or found in place of being created, is the
/// service that lookup of its id under its device gives afterwards, and has
/// that id.
pub proof fn law_created_service_is_found(stack: StackModel, init: ServiceModel)
    requires
        stack.wf(),
        stack.create_service(init).1 is Ok,
    ensures
        stack.create_service(init).0.find_service(
            stack.create_service(init).0.device(init.device).gatt_services,
            init.id,
        ) == Some(stack.create_service(init).1->Ok_0),
        stack.create_service(init).0.has_service(stack.create_service(init).1->Ok_0),
        stack.create_service(init).0.service(stack.create_service(init).1->Ok_0).id == init.id,
{
    let (after, r) = stack.create_service(init);
    let siblings = stack.device(init.device).gatt_services;
    assert(stack.has_services(stack.devices[init.device.index as int].gatt_services));
    lemma_first_with_id(siblings, stack.service_id(), init.id);
    if stack.find_service(siblings, init.id) is None {
        let created = stack.next_service();
        assert(after.device(init.device).gatt_services == siblings.push(created));
        assert forall|k: int| 0 <= k < siblings.len() implies (stack.service_id())(
            #[trigger] siblings[k],
        ) == (after.service_id())(siblings[k]) by {
            assert(stack.has_service(siblings[k]));
        }
        lemma_first_with_id_agrees(siblings, stack.service_id(), after.service_id(), init.id);
        lemma_first_with_id_push(siblings, after.service_id(), created, init.id);
    }
}

/// Creating a service a second time under the same device and the same id,
/// with whatever other attributes, gives the service of the first time and
/// changes nothing.
pub proof fn law_create_service_twice(stack: StackModel, first: ServiceModel, second: ServiceModel)
    requires
        stack.wf(),
        stack.create_service(first).1 is Ok,
        second.id == first.id,
        second.device == first.device,
    ensures
        stack.create_service(first).0.create_service(second) == stack.create_service(first),
{
    law_created_service_is_found(stack, first);
}

/// Creating a service leaves the ids of the services of every device distinct
/// where they were distinct before.
pub proof fn law_create_service_keeps_ids_distinct(
    stack: StackModel,
    init: ServiceModel,
    device: FakeBluetoothDevice,
)
    requires
        stack.wf(),
        stack.has_device(device),
        ids_distinct(stack.device(device).gatt_services, stack.service_id()),
    ensures
        ids_distinct(
            stack.create_service(init).0.device(device).gatt_services,
            stack.create_service(init).0.service_id(),
        ),
{
    let (after, r) = stack.create_service(init);
    let siblings = stack.device(device).gatt_services;
    assert(stack.has_services(stack.devices[device.index as int].gatt_services));
    if after != stack {
        assert forall|k: int| 0 <= k < siblings.len() implies (stack.service_id())(
            #[trigger] siblings[k],
        ) == (after.service_id())(siblings[k]) by {
            assert(stack.has_service(siblings[k]));
        }
        lemma_ids_distinct_agrees(siblings, stack.service_id(), after.service_id());
        if device == init.device {
            let created = stack.next_service();
            assert(after.device(device).gatt_services == siblings.push(created));
            lemma_first_with_id_agrees(siblings, stack.service_id(), after.service_id(), init.id);
            lemma_push_keeps_ids_distinct(siblings, after.service_id(), created);
        } else {
            assert(after.device(device).gatt_services == siblings);
        }
    }
}

/// A service that was created stands under the device that it names: its
/// device lists it.
pub proof fn law_created_service_is_listed(stack: StackModel, init: ServiceModel)
    requires
        stack.wf(),
        stack.create_service(init).1 is Ok,
        stack.find_service(stack.device(init.device).gatt_services, init.id) is None,
    ensures
        stack.create_service(init).0.service(stack.create_service(init).1->Ok_0).device
            == init.device,
        stack.create_service(init).0.device(init.device).gatt_services.last()
            == stack.create_service(
            init,
        ).1->Ok_0,
{
}

/// After the services with some id were removed from a device, lookup of
/// that id under the device finds nothing.
pub proof fn law_removed_service_is_gone(
    stack: StackModel,
    device: FakeBluetoothDevice,
    id: Seq<char>,
)
    requires
        stack.has_device(device),
    ensures
        stack.remove_service(device, id).find_service(
            stack.remove_service(device, id).device(device).gatt_services,
            id,
        ) is None,
{
    lemma_removed_id_is_gone(stack.device(device).gatt_services, stack.service_id(), id);
}

/// After the services with some id were removed from a device, lookup of
/// any other id under the device finds what it found before.
pub proof fn law_other_services_stay(
    stack: StackModel,
    device: FakeBluetoothDevice,
    id: Seq<char>,
    other: Seq<char>,
)
    requires
        stack.has_device(device),
        other != id,
    ensures
        stack.remove_service(device, id).find_service(
            stack.remove_service(device, id).device(device).gatt_services,
            other,
        ) == stack.find_service(stack.device(device).gatt_services, other),
{
    lemma_other_ids_stay(stack.device(device).gatt_services, stack.service_id(), id, other);
}

/// Removing the services with some id from a device leaves the ids of the
/// services of the device distinct where they were distinct before.
pub proof fn law_remove_service_keeps_ids_distinct(
    stack: StackModel,
    device: FakeBluetoothDevice,
    id: Seq<char>,
)
    requires
        stack.has_device(device),
        ids_distinct(stack.device(device).gatt_services, stack.service_id()),
    ensures
        ids_distinct(
            stack.remove_service(device, id).device(device).gatt_services,
            stack.remove_service(device, id).service_id(),
        ),
{
    lemma_without_keeps_ids_distinct(stack.device(device).gatt_services, stack.service_id(), id);
}

/// A characteristic that was created, or found in place of being created, is
/// the characteristic that lookup of its id under its service gives afterwards,
/// and has that id.
pub proof fn law_created_characteristic_is_found(stack: StackModel, init: CharacteristicModel)
    requires
        stack.wf(),
        stack.create_characteristic(init).1 is Ok,
    ensures
        stack.create_characteristic(init).0.find_characteristic(
            stack.create_characteristic(init).0.service(init.service).gatt_characteristics,
            init.id,
        ) == Some(stack.create_characteristic(init).1->Ok_0),
        stack.create_characteristic(init).0.has_characteristic(
            stack.create_characteristic(init).1->Ok_0
        ),
        stack.create_characteristic(init).0.characteristic(
            stack.create_characteristic(init).1->Ok_0
        ).id == init.id,
{
    let (after, r) = stack.create_characteristic(init);
    let siblings = stack.service(init.service).gatt_characteristics;
    assert(
        stack.has_characteristics(stack.services[init.service.index as int].gatt_characteristics)
    );
    lemma_first_with_id(siblings, stack.characteristic_id(), init.id);
    if stack.find_characteristic(siblings, init.id) is None {
        let created = stack.next_characteristic();
        assert(after.service(init.service).gatt_characteristics == siblings.push(created));
        assert forall|k: int| 0 <= k < siblings.len() implies (stack.characteristic_id())(
            #[trigger] siblings[k],
        ) == (after.characteristic_id())(siblings[k]) by {
            assert(stack.has_characteristic(siblings[k]));
        }
        lemma_first_with_id_agrees(
            siblings,
            stack.characteristic_id(),
            after.characteristic_id(),
            init.id,
        );
        lemma_first_with_id_push(siblings, after.characteristic_id(), created, init.id);
    }
}

/// Creating a characteristic a second time under the same service and the same
/// id, with whatever other attributes, gives the characteristic of the first
/// time and changes nothing.
pub proof fn law_create_characteristic_twice(
    stack: StackModel,
    first: CharacteristicModel,
    second: CharacteristicModel,
)
    requires
        stack.wf(),
        stack.create_characteristic(first).1 is Ok,
        second.id == first.id,
        second.service == first.service,
    ensures
        stack.create_characteristic(first).0.create_characteristic(second)
            == stack.create_characteristic(first),
{
    law_created_characteristic_is_found(stack, first);
}

/// Creating a characteristic leaves the ids of the characteristics of every
/// service distinct where they were distinct before.
pub proof fn law_create_characteristic_keeps_ids_distinct(
    stack: StackModel,
    init: CharacteristicModel,
    service: FakeBluetoothGATTService,
)
    requires
        stack.wf(),
        stack.has_service(service),
        ids_distinct(stack.service(service).gatt_characteristics, stack.characteristic_id()),
    ensures
        ids_distinct(
            stack.create_characteristic(init).0.service(service).gatt_characteristics,
            stack.create_characteristic(init).0.characteristic_id(),
        ),
{
    let (after, r) = stack.create_characteristic(init);
    let siblings = stack.service(service).gatt_characteristics;
    assert(stack.has_characteristics(stack.services[service.index as int].gatt_characteristics));
    if after != stack {
        assert forall|k: int| 0 <= k < siblings.len() implies (stack.characteristic_id())(
            #[trigger] siblings[k],
        ) == (after.characteristic_id())(siblings[k]) by {
            assert(stack.has_characteristic(siblings[k]));
        }
        lemma_ids_distinct_agrees(siblings, stack.characteristic_id(), after.characteristic_id());
        if service == init.service {
            let created = stack.next_characteristic();
            assert(after.service(service).gatt_characteristics == siblings.push(created));
            lemma_first_with_id_agrees(
                siblings,
                stack.characteristic_id(),
                after.characteristic_id(),
                init.id,
            );
            lemma_push_keeps_ids_distinct(siblings, after.characteristic_id(), created);
        } else {
            assert(after.service(service).gatt_characteristics == siblings);
        }
    }
}

/// A characteristic that was created stands under the service that it names:
/// its service lists it.
pub proof fn law_created_characteristic_is_listed(stack: StackModel, init: CharacteristicModel)
    requires
        stack.wf(),
        stack.create_characteristic(init).1 is Ok,
        stack.find_characteristic(
            stack.service(init.service).gatt_characteristics,
            init.id,
        ) is None,
    ensures
        stack.create_characteristic(init).0.characteristic(
            stack.create_characteristic(init).1->Ok_0
        ).service
            == init.service,
        stack.create_characteristic(init).0.service(init.service).gatt_characteristics.last()
            == stack.create_characteristic(
            init,
        ).1->Ok_0,
{
}

/// After the characteristics with some id were removed from a service, lookup
/// of that id under the service finds nothing.
pub proof fn law_removed_characteristic_is_gone(
    stack: StackModel,
    service: FakeBluetoothGATTService,
    id: Seq<char>,
)
    requires
        stack.has_service(service),
    ensures
        stack.remove_characteristic(service, id).find_characteristic(
            stack.remove_characteristic(service, id).service(service).gatt_characteristics,
            id,
        ) is None,
{
    lemma_removed_id_is_gone(
        stack.service(service).gatt_characteristics,
        stack.characteristic_id(),
        id,
    );
}

/// After the characteristics with some id were removed from a service, lookup
/// of any other id under the service finds what it found before.
pub proof fn law_other_characteristics_stay(
    stack: StackModel,
    service: FakeBluetoothGATTService,
    id: Seq<char>,
    other: Seq<char>,
)
    requires
        stack.has_service(service),
        other != id,
    ensures
        stack.remove_characteristic(service, id).find_characteristic(
            stack.remove_characteristic(service, id).service(service).gatt_characteristics,
            other,
        ) == stack.find_characteristic(stack.service(service).gatt_characteristics, other),
{
    lemma_other_ids_stay(
        stack.service(service).gatt_characteristics,
        stack.characteristic_id(),
        id,
        other,
    );
}

/// Removing the characteristics with some id from a service leaves the ids of
/// the characteristics of the service distinct where they were distinct before.
pub proof fn law_remove_characteristic_keeps_ids_distinct(
    stack: StackModel,
    service: FakeBluetoothGATTService,
    id: Seq<char>,
)
    requires
        stack.has_service(service),
        ids_distinct(stack.service(service).gatt_characteristics, stack.characteristic_id()),
    ensures
        ids_distinct(
            stack.remove_characteristic(service, id).service(service).gatt_characteristics,
            stack.remove_characteristic(service, id).characteristic_id(),
        ),
{
    lemma_without_keeps_ids_distinct(
        stack.service(service).gatt_characteristics,
        stack.characteristic_id(),
        id,
    );
}

/// A descriptor that was created, or found in place of being created, is the
/// descriptor that lookup of its id under its characteristic gives afterwards,
/// and has that id.
pub proof fn law_created_descriptor_is_found(stack: StackModel, init: DescriptorModel)
    requires
        stack.wf(),
        stack.create_descriptor(init).1 is Ok,
    ensures
        stack.create_descriptor(init).0.find_descriptor(
            stack.create_descriptor(init).0.characteristic(init.characteristic).gatt_descriptors,
            init.id,
        ) == Some(stack.create_descriptor(init).1->Ok_0),
        stack.create_descriptor(init).0.has_descriptor(stack.create_descriptor(init).1->Ok_0),
        stack.create_descriptor(init).0.descriptor(
            stack.create_descriptor(init).1->Ok_0
        ).id == init.id,
{
    let (after, r) = stack.create_descriptor(init);
    let siblings = stack.characteristic(init.characteristic).gatt_descriptors;
    assert(
        stack.has_descriptors(
            stack.characteristics[init.characteristic.index as int].gatt_descriptors
        )
    );
    lemma_first_with_id(siblings, stack.descriptor_id(), init.id);
    if stack.find_descriptor(siblings, init.id) is None {
        let created = stack.next_descriptor();
        assert(
            after.characteristic(init.characteristic).gatt_descriptors == siblings.push(created)
        );
        assert forall|k: int| 0 <= k < siblings.len() implies (stack.descriptor_id())(
            #[trigger] siblings[k],
        ) == (after.descriptor_id())(siblings[k]) by {
            assert(stack.has_descriptor(siblings[k]));
        }
        lemma_first_with_id_agrees(siblings, stack.descriptor_id(), after.descriptor_id(), init.id);
        lemma_first_with_id_push(siblings, after.descriptor_id(), created, init.id);
    }
}

/// Creating a descriptor a second time under the same characteristic and the
/// same id, with whatever other attributes, gives the descriptor of the first
/// time and changes nothing.
pub proof fn law_create_descriptor_twice(
    stack: StackModel,
    first: DescriptorModel,
    second: DescriptorModel,
)
    requires
        stack.wf(),
        stack.create_descriptor(first).1 is Ok,
        second.id == first.id,
        second.characteristic == first.characteristic,
    ensures
        stack.create_descriptor(first).0.create_descriptor(second)
            == stack.create_descriptor(first),
{
    law_created_descriptor_is_found(stack, first);
}

/// Creating a descriptor leaves the ids of the descriptors of every
/// characteristic distinct where they were distinct before.
pub proof fn law_create_descriptor_keeps_ids_distinct(
    stack: StackModel,
    init: DescriptorModel,
    characteristic: FakeBluetoothGATTCharacteristic,
)
    requires
        stack.wf(),
        stack.has_characteristic(characteristic),
        ids_distinct(stack.characteristic(characteristic).gatt_descriptors, stack.descriptor_id()),
    ensures
        ids_distinct(
            stack.create_descriptor(init).0.characteristic(characteristic).gatt_descriptors,
            stack.create_descriptor(init).0.descriptor_id(),
        ),
{
    let (after, r) = stack.create_descriptor(init);
    let siblings = stack.characteristic(characteristic).gatt_descriptors;
    assert(
        stack.has_descriptors(stack.characteristics[characteristic.index as int].gatt_descriptors)
    );
    if after != stack {
        assert forall|k: int| 0 <= k < siblings.len() implies (stack.descriptor_id())(
            #[trigger] siblings[k],
        ) == (after.descriptor_id())(siblings[k]) by {
            assert(stack.has_descriptor(siblings[k]));
        }
        lemma_ids_distinct_agrees(siblings, stack.descriptor_id(), after.descriptor_id());
        if characteristic == init.characteristic {
            let created = stack.next_descriptor();
            assert(after.characteristic(characteristic).gatt_descriptors == siblings.push(created));
            lemma_first_with_id_agrees(
                siblings,
                stack.descriptor_id(),
                after.descriptor_id(),
                init.id,
            );
            lemma_push_keeps_ids_distinct(siblings, after.descriptor_id(), created);
        } else {
            assert(after.characteristic(characteristic).gatt_descriptors == siblings);
        }
    }
}

/// A descriptor that was created stands under the characteristic that it names:
/// its characteristic lists it.
pub proof fn law_created_descriptor_is_listed(stack: StackModel, init: DescriptorModel)
    requires
        stack.wf(),
        stack.create_descriptor(init).1 is Ok,
        stack.find_descriptor(
            stack.characteristic(init.characteristic).gatt_descriptors,
            init.id,
        ) is None,
    ensures
        stack.create_descriptor(init).0.descriptor(
            stack.create_descriptor(init).1->Ok_0
        ).characteristic
            == init.characteristic,
        stack.create_descriptor(init).0.characteristic(init.characteristic).gatt_descriptors.last()
            == stack.create_descriptor(
            init,
        ).1->Ok_0,
{
}

/// After the descriptors with some id were removed from a characteristic,
/// lookup of that id under the characteristic finds nothing.
pub proof fn law_removed_descriptor_is_gone(
    stack: StackModel,
    characteristic: FakeBluetoothGATTCharacteristic,
    id: Seq<char>,
)
    requires
        stack.has_characteristic(characteristic),
    ensures
        stack.remove_descriptor(characteristic, id).find_descriptor(
            stack.remove_descriptor(
                characteristic,
                id,
            ).characteristic(characteristic).gatt_descriptors,
            id,
        ) is None,
{
    lemma_removed_id_is_gone(
        stack.characteristic(characteristic).gatt_descriptors,
        stack.descriptor_id(),
        id,
    );
}

/// After the descriptors with some id were removed from a characteristic,
/// lookup of any other id under the characteristic finds what it found before.
pub proof fn law_other_descriptors_stay(
    stack: StackModel,
    characteristic: FakeBluetoothGATTCharacteristic,
    id: Seq<char>,
    other: Seq<char>,
)
    requires
        stack.has_characteristic(characteristic),
        other != id,
    ensures
        stack.remove_descriptor(characteristic, id).find_descriptor(
            stack.remove_descriptor(
                characteristic,
                id,
            ).characteristic(characteristic).gatt_descriptors,
            other,
        ) == stack.find_descriptor(stack.characteristic(characteristic).gatt_descriptors, other),
{
    lemma_other_ids_stay(
        stack.characteristic(characteristic).gatt_descriptors,
        stack.descriptor_id(),
        id,
        other,
    );
}

/// Removing the descriptors with some id from a characteristic leaves the ids
/// of the descriptors of the characteristic distinct where they were distinct
/// before.
pub proof fn law_remove_descriptor_keeps_ids_distinct(
    stack: StackModel,
    characteristic: FakeBluetoothGATTCharacteristic,
    id: Seq<char>,
)
    requires
        stack.has_characteristic(characteristic),
        ids_distinct(stack.characteristic(characteristic).gatt_descriptors, stack.descriptor_id()),
    ensures
        ids_distinct(
            stack.remove_descriptor(
                characteristic,
                id,
            ).characteristic(characteristic).gatt_descriptors,
            stack.remove_descriptor(characteristic, id).descriptor_id(),
        ),
{
    lemma_without_keeps_ids_distinct(
        stack.characteristic(characteristic).gatt_descriptors,
        stack.descriptor_id(),
        id,
    );
}

/// After the services with some id were removed from those that a service
/// includes, lookup of that id among them finds nothing.
pub proof fn law_removed_included_service_is_gone(
    stack: StackModel,
    service: FakeBluetoothGATTService,
    id: Seq<char>,
)
    requires
        stack.wf(),
        stack.has_service(service),
    ensures
        stack.remove_included_service(service, id).find_service(
            stack.remove_included_service(service, id).service(service).included_services,
            id,
        ) is None,
{
    let after = stack.remove_included_service(service, id);
    let kept = after.service(service).included_services;
    assert(stack.has_services(stack.services[service.index as int].included_services));
    stack.lemma_services_without(stack.service(service).included_services, id);
    assert forall|k: int| 0 <= k < kept.len() implies (stack.service_id())(#[trigger] kept[k]) == (
    after.service_id())(kept[k]) by {
        assert(stack.has_service(kept[k]));
    }
    lemma_first_with_id_agrees(kept, stack.service_id(), after.service_id(), id);
    lemma_removed_id_is_gone(stack.service(service).included_services, stack.service_id(), id);
}

/// After the services with some id were removed from those that a service
/// includes, lookup of any other id among them finds what it found before.
pub proof fn law_other_included_services_stay(
    stack: StackModel,
    service: FakeBluetoothGATTService,
    id: Seq<char>,
    other: Seq<char>,
)
    requires
        stack.wf(),
        stack.has_service(service),
        other != id,
    ensures
        stack.remove_included_service(service, id).find_service(
            stack.remove_included_service(service, id).service(service).included_services,
            other,
        ) == stack.find_service(stack.service(service).included_services, other),
{
    let after = stack.remove_included_service(service, id);
    let kept = after.service(service).included_services;
    assert(stack.has_services(stack.services[service.index as int].included_services));
    stack.lemma_services_without(stack.service(service).included_services, id);
    assert forall|k: int| 0 <= k < kept.len() implies (stack.service_id())(#[trigger] kept[k]) == (
    after.service_id())(kept[k]) by {
        assert(stack.has_service(kept[k]));
    }
    lemma_first_with_id_agrees(kept, stack.service_id(), after.service_id(), other);
    lemma_other_ids_stay(stack.service(service).included_services, stack.service_id(), id, other);
}

/// Creating a device keeps the ids of siblings distinct in the whole stack.
pub proof fn law_create_device_keeps_siblings_distinct(stack: StackModel, init: DeviceModel)
    requires
        stack.wf(),
    ensures
        stack.create_device(init).0.siblings_distinct(),
{
    let after = stack.create_device(init).0;
    if after != stack {
        assert forall|i: int| 0 <= i < after.adapters.len() implies ids_distinct(
            #[trigger] after.adapters[i].devices,
            after.device_id(),
        ) by {
            let adapter = FakeBluetoothAdapter { index: i as usize };
            assert(stack.adapter(adapter) == stack.adapters[i]);
            assert(after.adapter(adapter) == after.adapters[i]);
            law_create_device_keeps_ids_distinct(stack, init, adapter);
        }
        assert forall|i: int| 0 <= i < after.devices.len() implies ids_distinct(
            #[trigger] after.devices[i].gatt_services,
            after.service_id(),
        ) by {
            if i < stack.devices.len() {
                assert(after.devices[i] == stack.devices[i]);
            }
        }
    }
}

/// Creating a device without services keeps every child under the parent
/// that it names.
pub proof fn law_create_device_keeps_children_with_parents(stack: StackModel, init: DeviceModel)
    requires
        stack.wf(),
        stack.children_know_parents(),
        init.gatt_services.len() == 0,
    ensures
        stack.create_device(init).0.children_know_parents(),
{
    let after = stack.create_device(init).0;
    if after != stack {
        assert forall|i: int, k: int|
            0 <= i < after.adapters.len() && 0 <= k < after.adapters[i].devices.len()
                implies after.device(#[trigger] after.adapters[i].devices[k]).adapter.index
            == i by {
            assert(stack.has_devices(stack.adapters[i].devices));
            if k < stack.adapters[i].devices.len() {
                assert(after.adapters[i].devices[k] == stack.adapters[i].devices[k]);
                assert(stack.has_device(stack.adapters[i].devices[k]));
            }
        }
        assert forall|i: int, k: int|
            0 <= i < after.devices.len() && 0 <= k < after.devices[i].gatt_services.len()
                implies after.service(#[trigger] after.devices[i].gatt_services[k]).device.index
            == i by {
            assert(after.devices[i] == stack.devices[i]);
        }
    }
}

/// Removing the devices with some id from an adapter keeps the ids of
/// siblings distinct in the whole stack.
pub proof fn law_remove_device_keeps_siblings_distinct(
    stack: StackModel,
    adapter: FakeBluetoothAdapter,
    id: Seq<char>,
)
    requires
        stack.has_adapter(adapter),
        stack.siblings_distinct(),
    ensures
        stack.remove_device(adapter, id).siblings_distinct(),
{
    let after = stack.remove_device(adapter, id);
    assert forall|i: int| 0 <= i < after.adapters.len() implies ids_distinct(
        #[trigger] after.adapters[i].devices,
        after.device_id(),
    ) by {
        if i == adapter.index {
            law_remove_device_keeps_ids_distinct(stack, adapter, id);
        } else {
            assert(after.adapters[i] == stack.adapters[i]);
        }
    }
}

/// Removing the devices with some id from an adapter keeps every child
/// under the parent that it names.
pub proof fn law_remove_device_keeps_children_with_parents(
    stack: StackModel,
    adapter: FakeBluetoothAdapter,
    id: Seq<char>,
)
    requires
        stack.has_adapter(adapter),
        stack.children_know_parents(),
    ensures
        stack.remove_device(adapter, id).children_know_parents(),
{
    let after = stack.remove_device(adapter, id);
    let before = stack.adapter(adapter).devices;
    lemma_without_id_members(before, stack.device_id(), id);
    assert forall|i: int, k: int|
        0 <= i < after.adapters.len() && 0 <= k < after.adapters[i].devices.len()
            implies after.device(#[trigger] after.adapters[i].devices[k]).adapter.index == i by {
        if i == adapter.index {
            let kept = after.adapters[i].devices;
            assert(before.contains(kept[k]));
            let j = choose|j: int| 0 <= j < before.len() && before[j] == kept[k];
            assert(stack.device(stack.adapters[i].devices[j]).adapter.index == i);
        } else {
            assert(after.adapters[i] == stack.adapters[i]);
            assert(stack.device(stack.adapters[i].devices[k]).adapter.index == i);
        }
    }
}

/// Creating a service keeps the ids of siblings distinct in the whole stack.
pub proof fn law_create_service_keeps_siblings_distinct(stack: StackModel, init: ServiceModel)
    requires
        stack.wf(),
    ensures
        stack.create_service(init).0.siblings_distinct(),
{
    let after = stack.create_service(init).0;
    if after != stack {
        assert forall|i: int| 0 <= i < after.adapters.len() implies ids_distinct(
            #[trigger] after.adapters[i].devices,
            after.device_id(),
        ) by {
            let listed = stack.adapters[i].devices;
            assert(stack.has_devices(listed));
            assert forall|k: int| 0 <= k < listed.len() implies (stack.device_id())(
                #[trigger] listed[k],
            ) == (after.device_id())(listed[k]) by {
                assert(stack.has_device(listed[k]));
            }
            lemma_ids_distinct_agrees(listed, stack.device_id(), after.device_id());
        }
        assert forall|i: int| 0 <= i < after.devices.len() implies ids_distinct(
            #[trigger] after.devices[i].gatt_services,
            after.service_id(),
        ) by {
            let device = FakeBluetoothDevice { index: i as usize };
            assert(stack.device(device) == stack.devices[i]);
            assert(after.device(device) == after.devices[i]);
            law_create_service_keeps_ids_distinct(stack, init, device);
        }
        assert forall|i: int| 0 <= i < after.services.len() implies ids_distinct(
            #[trigger] after.services[i].gatt_characteristics,
            after.characteristic_id(),
        ) by {
            if i < stack.services.len() {
                assert(after.services[i] == stack.services[i]);
            }
        }
    }
}

/// Creating a service without characteristics keeps every child under the
/// parent that it names.
pub proof fn law_create_service_keeps_children_with_parents(stack: StackModel, init: ServiceModel)
    requires
        stack.wf(),
        stack.children_know_parents(),
        init.gatt_characteristics.len() == 0,
    ensures
        stack.create_service(init).0.children_know_parents(),
{
    let after = stack.create_service(init).0;
    if after != stack {
        assert forall|i: int, k: int|
            0 <= i < after.adapters.len() && 0 <= k < after.adapters[i].devices.len()
                implies after.device(#[trigger] after.adapters[i].devices[k]).adapter.index
            == i by {
            assert(stack.has_devices(stack.adapters[i].devices));
            assert(stack.has_device(stack.adapters[i].devices[k]));
            assert(stack.device(stack.adapters[i].devices[k]).adapter.index == i);
        }
        assert forall|i: int, k: int|
            0 <= i < after.devices.len() && 0 <= k < after.devices[i].gatt_services.len()
                implies after.service(#[trigger] after.devices[i].gatt_services[k]).device.index
            == i by {
            assert(stack.has_services(stack.devices[i].gatt_services));
            if k < stack.devices[i].gatt_services.len() {
                assert(after.devices[i].gatt_services[k] == stack.devices[i].gatt_services[k]);
                assert(stack.has_service(stack.devices[i].gatt_services[k]));
            }
        }
        assert forall|i: int, k: int|
            0 <= i < after.services.len() && 0 <= k < after.services[i].gatt_characteristics.len()
                implies after.characteristic(
            #[trigger] after.services[i].gatt_characteristics[k],
        ).service.index == i by {
            assert(after.services[i] == stack.services[i]);
        }
    }
}

/// Removing the services with some id from a device keeps the ids of
/// siblings distinct in the whole stack.
pub proof fn law_remove_service_keeps_siblings_distinct(
    stack: StackModel,
    device: FakeBluetoothDevice,
    id: Seq<char>,
)
    requires
        stack.wf(),
        stack.has_device(device),
    ensures
        stack.remove_service(device, id).siblings_distinct(),
{
    let after = stack.remove_service(device, id);
    assert forall|i: int| 0 <= i < after.adapters.len() implies ids_distinct(
        #[trigger] after.adapters[i].devices,
        after.device_id(),
    ) by {
        let listed = stack.adapters[i].devices;
        assert(stack.has_devices(listed));
        assert forall|k: int| 0 <= k < listed.len() implies (stack.device_id())(
            #[trigger] listed[k],
        ) == (after.device_id())(listed[k]) by {
            assert(stack.has_device(listed[k]));
        }
        lemma_ids_distinct_agrees(listed, stack.device_id(), after.device_id());
    }
    assert forall|i: int| 0 <= i < after.devices.len() implies ids_distinct(
        #[trigger] after.devices[i].gatt_services,
        after.service_id(),
    ) by {
        if i == device.index {
            law_remove_service_keeps_ids_distinct(stack, device, id);
        } else {
            assert(after.devices[i] == stack.devices[i]);
        }
    }
}

/// Removing the services with some id from a device keeps every child under
/// the parent that it names.
pub proof fn law_remove_service_keeps_children_with_parents(
    stack: StackModel,
    device: FakeBluetoothDevice,
    id: Seq<char>,
)
    requires
        stack.wf(),
        stack.has_device(device),
        stack.children_know_parents(),
    ensures
        stack.remove_service(device, id).children_know_parents(),
{
    let after = stack.remove_service(device, id);
    let before = stack.device(device).gatt_services;
    lemma_without_id_members(before, stack.service_id(), id);
    assert forall|i: int, k: int|
        0 <= i < after.adapters.len() && 0 <= k < after.adapters[i].devices.len()
            implies after.device(#[trigger] after.adapters[i].devices[k]).adapter.index == i by {
        assert(stack.has_devices(stack.adapters[i].devices));
        assert(stack.has_device(stack.adapters[i].devices[k]));
        assert(stack.device(stack.adapters[i].devices[k]).adapter.index == i);
    }
    assert forall|i: int, k: int|
        0 <= i < after.devices.len() && 0 <= k < after.devices[i].gatt_services.len()
            implies after.service(#[trigger] after.devices[i].gatt_services[k]).device.index
        == i by {
        if i == device.index {
            let kept = after.devices[i].gatt_services;
            assert(before.contains(kept[k]));
            let j = choose|j: int| 0 <= j < before.len() && before[j] == kept[k];
            assert(stack.service(stack.devices[i].gatt_services[j]).device.index == i);
        } else {
            assert(after.devices[i] == stack.devices[i]);
            assert(stack.service(stack.devices[i].gatt_services[k]).device.index == i);
        }
    }
}

/// Creating a characteristic keeps the ids of siblings distinct in the whole
/// stack.
pub proof fn law_create_characteristic_keeps_siblings_distinct(
    stack: StackModel,
    init: CharacteristicModel,
)
    requires
        stack.wf(),
    ensures
        stack.create_characteristic(init).0.siblings_distinct(),
{
    let after = stack.create_characteristic(init).0;
    if after != stack {
        assert forall|i: int| 0 <= i < after.devices.len() implies ids_distinct(
            #[trigger] after.devices[i].gatt_services,
            after.service_id(),
        ) by {
            let listed = stack.devices[i].gatt_services;
            assert(stack.has_services(listed));
            assert forall|k: int| 0 <= k < listed.len() implies (stack.service_id())(
                #[trigger] listed[k],
            ) == (after.service_id())(listed[k]) by {
                assert(stack.has_service(listed[k]));
            }
            lemma_ids_distinct_agrees(listed, stack.service_id(), after.service_id());
        }
        assert forall|i: int| 0 <= i < after.services.len() implies ids_distinct(
            #[trigger] after.services[i].gatt_characteristics,
            after.characteristic_id(),
        ) by {
            let service = FakeBluetoothGATTService { index: i as usize };
            assert(stack.service(service) == stack.services[i]);
            assert(after.service(service) == after.services[i]);
            law_create_characteristic_keeps_ids_distinct(stack, init, service);
        }
        assert forall|i: int| 0 <= i < after.characteristics.len() implies ids_distinct(
            #[trigger] after.characteristics[i].gatt_descriptors,
            after.descriptor_id(),
        ) by {
            if i < stack.characteristics.len() {
                assert(after.characteristics[i] == stack.characteristics[i]);
            }
        }
    }
}

/// Creating a characteristic without descriptors keeps every child under
/// the parent that it names.
pub proof fn law_create_characteristic_keeps_children_with_parents(
    stack: StackModel,
    init: CharacteristicModel,
)
    requires
        stack.wf(),
        stack.children_know_parents(),
        init.gatt_descriptors.len() == 0,
    ensures
        stack.create_characteristic(init).0.children_know_parents(),
{
    let after = stack.create_characteristic(init).0;
    if after != stack {
        assert forall|i: int, k: int|
            0 <= i < after.devices.len() && 0 <= k < after.devices[i].gatt_services.len()
                implies after.service(#[trigger] after.devices[i].gatt_services[k]).device.index
            == i by {
            assert(stack.has_services(stack.devices[i].gatt_services));
            assert(stack.has_service(stack.devices[i].gatt_services[k]));
            assert(stack.service(stack.devices[i].gatt_services[k]).device.index == i);
        }
        assert forall|i: int, k: int|
            0 <= i < after.services.len() && 0 <= k < after.services[i].gatt_characteristics.len()
                implies after.characteristic(
            #[trigger] after.services[i].gatt_characteristics[k],
        ).service.index == i by {
            assert(stack.has_characteristics(stack.services[i].gatt_characteristics));
            if k < stack.services[i].gatt_characteristics.len() {
                assert(after.services[i].gatt_characteristics[k]
                    == stack.services[i].gatt_characteristics[k]);
                assert(stack.has_characteristic(stack.services[i].gatt_characteristics[k]));
            }
        }
        assert forall|i: int, k: int|
            0 <= i < after.characteristics.len() && 0 <= k
                < after.characteristics[i].gatt_descriptors.len() implies after.descriptor(
            #[trigger] after.characteristics[i].gatt_descriptors[k],
        ).characteristic.index == i by {
            assert(after.characteristics[i] == stack.characteristics[i]);
        }
    }
}

/// Removing the characteristics with some id from a service keeps the ids of
/// siblings distinct in the whole stack.
pub proof fn law_remove_characteristic_keeps_siblings_distinct(
    stack: StackModel,
    service: FakeBluetoothGATTService,
    id: Seq<char>,
)
    requires
        stack.wf(),
        stack.has_service(service),
    ensures
        stack.remove_characteristic(service, id).siblings_distinct(),
{
    let after = stack.remove_characteristic(service, id);
    assert forall|i: int| 0 <= i < after.devices.len() implies ids_distinct(
        #[trigger] after.devices[i].gatt_services,
        after.service_id(),
    ) by {
        let listed = stack.devices[i].gatt_services;
        assert(stack.has_services(listed));
        assert forall|k: int| 0 <= k < listed.len() implies (stack.service_id())(
            #[trigger] listed[k],
        ) == (after.service_id())(listed[k]) by {
            assert(stack.has_service(listed[k]));
        }
        lemma_ids_distinct_agrees(listed, stack.service_id(), after.service_id());
    }
    assert forall|i: int| 0 <= i < after.services.len() implies ids_distinct(
        #[trigger] after.services[i].gatt_characteristics,
        after.characteristic_id(),
    ) by {
        if i == service.index {
            law_remove_characteristic_keeps_ids_distinct(stack, service, id);
        } else {
            assert(after.services[i] == stack.services[i]);
        }
    }
}

/// Removing the characteristics with some id from a service keeps every
/// child under the parent that it names.
pub proof fn law_remove_characteristic_keeps_children_with_parents(
    stack: StackModel,
    service: FakeBluetoothGATTService,
    id: Seq<char>,
)
    requires
        stack.wf(),
        stack.has_service(service),
        stack.children_know_parents(),
    ensures
        stack.remove_characteristic(service, id).children_know_parents(),
{
    let after = stack.remove_characteristic(service, id);
    let before = stack.service(service).gatt_characteristics;
    lemma_without_id_members(before, stack.characteristic_id(), id);
    assert forall|i: int, k: int|
        0 <= i < after.devices.len() && 0 <= k < after.devices[i].gatt_services.len()
            implies after.service(#[trigger] after.devices[i].gatt_services[k]).device.index
        == i by {
        assert(stack.has_services(stack.devices[i].gatt_services));
        assert(stack.has_service(stack.devices[i].gatt_services[k]));
        assert(stack.service(stack.devices[i].gatt_services[k]).device.index == i);
    }
    assert forall|i: int, k: int|
        0 <= i < after.services.len() && 0 <= k < after.services[i].gatt_characteristics.len()
            implies after.characteristic(
        #[trigger] after.services[i].gatt_characteristics[k],
    ).service.index == i by {
        if i == service.index {
            let kept = after.services[i].gatt_characteristics;
            assert(before.contains(kept[k]));
            let j = choose|j: int| 0 <= j < before.len() && before[j] == kept[k];
            assert(stack.characteristic(stack.services[i].gatt_characteristics[j]).service.index
                == i);
        } else {
            assert(after.services[i] == stack.services[i]);
            assert(stack.characteristic(stack.services[i].gatt_characteristics[k]).service.index
                == i);
        }
    }
}

/// Creating a descriptor keeps the ids of siblings distinct in the whole
/// stack.
pub proof fn law_create_descriptor_keeps_siblings_distinct(
    stack: StackModel,
    init: DescriptorModel,
)
    requires
        stack.wf(),
    ensures
        stack.create_descriptor(init).0.siblings_distinct(),
{
    let after = stack.create_descriptor(init).0;
    if after != stack {
        assert forall|i: int| 0 <= i < after.services.len() implies ids_distinct(
            #[trigger] after.services[i].gatt_characteristics,
            after.characteristic_id(),
        ) by {
            let listed = stack.services[i].gatt_characteristics;
            assert(stack.has_characteristics(listed));
            assert forall|k: int| 0 <= k < listed.len() implies (stack.characteristic_id())(
                #[trigger] listed[k],
            ) == (after.characteristic_id())(listed[k]) by {
                assert(stack.has_characteristic(listed[k]));
            }
            lemma_ids_distinct_agrees(
                listed,
                stack.characteristic_id(),
                after.characteristic_id(),
            );
        }
        assert forall|i: int| 0 <= i < after.characteristics.len() implies ids_distinct(
            #[trigger] after.characteristics[i].gatt_descriptors,
            after.descriptor_id(),
        ) by {
            let characteristic = FakeBluetoothGATTCharacteristic { index: i as usize };
            assert(stack.characteristic(characteristic) == stack.characteristics[i]);
            assert(after.characteristic(characteristic) == after.characteristics[i]);
            law_create_descriptor_keeps_ids_distinct(stack, init, characteristic);
        }
    }
}

/// Creating a descriptor keeps every child under the parent that it names.
pub proof fn law_create_descriptor_keeps_children_with_parents(
    stack: StackModel,
    init: DescriptorModel,
)
    requires
        stack.wf(),
        stack.children_know_parents(),
    ensures
        stack.create_descriptor(init).0.children_know_parents(),
{
    let after = stack.create_descriptor(init).0;
    if after != stack {
        assert forall|i: int, k: int|
            0 <= i < after.services.len() && 0 <= k < after.services[i].gatt_characteristics.len()
                implies after.characteristic(
            #[trigger] after.services[i].gatt_characteristics[k],
        ).service.index == i by {
            assert(stack.has_characteristics(stack.services[i].gatt_characteristics));
            assert(stack.has_characteristic(stack.services[i].gatt_characteristics[k]));
            assert(stack.characteristic(stack.services[i].gatt_characteristics[k]).service.index
                == i);
        }
        assert forall|i: int, k: int|
            0 <= i < after.characteristics.len() && 0 <= k
                < after.characteristics[i].gatt_descriptors.len() implies after.descriptor(
            #[trigger] after.characteristics[i].gatt_descriptors[k],
        ).characteristic.index == i by {
            assert(stack.has_descriptors(stack.characteristics[i].gatt_descriptors));
            if k < stack.characteristics[i].gatt_descriptors.len() {
                assert(after.characteristics[i].gatt_descriptors[k]
                    == stack.characteristics[i].gatt_descriptors[k]);
                assert(stack.has_descriptor(stack.characteristics[i].gatt_descriptors[k]));
            }
        }
    }
}

/// Removing the descriptors with some id from a characteristic keeps the ids
/// of siblings distinct in the whole stack.
pub proof fn law_remove_descriptor_keeps_siblings_distinct(
    stack: StackModel,
    characteristic: FakeBluetoothGATTCharacteristic,
    id: Seq<char>,
)
    requires
        stack.wf(),
        stack.has_characteristic(characteristic),
    ensures
        stack.remove_descriptor(characteristic, id).siblings_distinct(),
{
    let after = stack.remove_descriptor(characteristic, id);
    assert forall|i: int| 0 <= i < after.services.len() implies ids_distinct(
        #[trigger] after.services[i].gatt_characteristics,
        after.characteristic_id(),
    ) by {
        let listed = stack.services[i].gatt_characteristics;
        assert(stack.has_characteristics(listed));
        assert forall|k: int| 0 <= k < listed.len() implies (stack.characteristic_id())(
            #[trigger] listed[k],
        ) == (after.characteristic_id())(listed[k]) by {
            assert(stack.has_characteristic(listed[k]));
        }
        lemma_ids_distinct_agrees(listed, stack.characteristic_id(), after.characteristic_id());
    }
    assert forall|i: int| 0 <= i < after.characteristics.len() implies ids_distinct(
        #[trigger] after.characteristics[i].gatt_descriptors,
        after.descriptor_id(),
    ) by {
        if i == characteristic.index {
            law_remove_descriptor_keeps_ids_distinct(stack, characteristic, id);
        } else {
            assert(after.characteristics[i] == stack.characteristics[i]);
        }
    }
}

/// Removing the descriptors with some id from a characteristic keeps every
/// child under the parent that it names.
pub proof fn law_remove_descriptor_keeps_children_with_parents(
    stack: StackModel,
    characteristic: FakeBluetoothGATTCharacteristic,
    id: Seq<char>,
)
    requires
        stack.wf(),
        stack.has_characteristic(characteristic),
        stack.children_know_parents(),
    ensures
        stack.remove_descriptor(characteristic, id).children_know_parents(),
{
    let after = stack.remove_descriptor(characteristic, id);
    let before = stack.characteristic(characteristic).gatt_descriptors;
    lemma_without_id_members(before, stack.descriptor_id(), id);
    assert forall|i: int, k: int|
        0 <= i < after.services.len() && 0 <= k < after.services[i].gatt_characteristics.len()
            implies after.characteristic(
        #[trigger] after.services[i].gatt_characteristics[k],
    ).service.index == i by {
        assert(stack.has_characteristics(stack.services[i].gatt_characteristics));
        assert(stack.has_characteristic(stack.services[i].gatt_characteristics[k]));
        assert(stack.characteristic(stack.services[i].gatt_characteristics[k]).service.index
            == i);
    }
    assert forall|i: int, k: int|
        0 <= i < after.characteristics.len() && 0 <= k
            < after.characteristics[i].gatt_descriptors.len() implies after.descriptor(
        #[trigger] after.characteristics[i].gatt_descriptors[k],
    ).characteristic.index == i by {
        if i == characteristic.index {
            let kept = after.characteristics[i].gatt_descriptors;
            assert(before.contains(kept[k]));
            let j = choose|j: int| 0 <= j < before.len() && before[j] == kept[k];
            assert(stack.descriptor(
                stack.characteristics[i].gatt_descriptors[j],
            ).characteristic.index == i);
        } else {
            assert(after.characteristics[i] == stack.characteristics[i]);
            assert(stack.descriptor(
                stack.characteristics[i].gatt_descriptors[k],
            ).characteristic.index == i);
        }
    }
}

/// A stack without any entity has both: distinct ids among siblings, and
/// every child under the parent that it names.
pub proof fn law_empty_stack_is_consistent()
    ensures
        StackModel::empty().wf(),
        StackModel::empty().siblings_distinct(),
        StackModel::empty().children_know_parents(),
{
}

/// Creating an adapter without devices keeps both: distinct ids among
/// siblings, and every child under the parent that it names.
pub proof fn law_create_adapter_keeps_consistent(stack: StackModel, init: AdapterModel)
    requires
        stack.wf(),
        stack.children_know_parents(),
        init.devices.len() == 0,
    ensures
        stack.create_adapter(init).0.siblings_distinct(),
        stack.create_adapter(init).0.children_know_parents(),
{
    let after = stack.create_adapter(init).0;
    assert forall|i: int| 0 <= i < after.adapters.len() implies ids_distinct(
        #[trigger] after.adapters[i].devices,
        after.device_id(),
    ) by {
        if i < stack.adapters.len() {
            assert(after.adapters[i] == stack.adapters[i]);
        }
    }
    assert forall|i: int, k: int|
        0 <= i < after.adapters.len() && 0 <= k < after.adapters[i].devices.len()
            implies after.device(#[trigger] after.adapters[i].devices[k]).adapter.index == i by {
        assert(after.adapters[i] == stack.adapters[i]);
    }
}

/// Changing the attributes of an adapter, its devices aside, keeps both:
/// distinct ids among siblings, and every child under the parent that it
/// names.
pub proof fn law_adapter_attributes_keep_consistent(
    stack: StackModel,
    adapter: FakeBluetoothAdapter,
    m: AdapterModel,
)
    requires
        stack.has_adapter(adapter),
        stack.siblings_distinct(),
        stack.children_know_parents(),
        m.devices == stack.adapter(adapter).devices,
    ensures
        stack.with_adapter(adapter, m).siblings_distinct(),
        stack.with_adapter(adapter, m).children_know_parents(),
{
    let after = stack.with_adapter(adapter, m);
    assert forall|i: int| 0 <= i < after.adapters.len() implies ids_distinct(
        #[trigger] after.adapters[i].devices,
        after.device_id(),
    ) by {
        assert(after.adapters[i].devices == stack.adapters[i].devices);
    }
    assert forall|i: int, k: int|
        0 <= i < after.adapters.len() && 0 <= k < after.adapters[i].devices.len()
            implies after.device(#[trigger] after.adapters[i].devices[k]).adapter.index == i by {
        assert(after.adapters[i].devices == stack.adapters[i].devices);
        assert(stack.device(stack.adapters[i].devices[k]).adapter.index == i);
    }
}

/// Changing the attributes of a device, its id, its adapter and its services
/// aside, keeps both: distinct ids among siblings, and every child under the
/// parent that it names.
pub proof fn law_device_attributes_keep_consistent(
    stack: StackModel,
    device: FakeBluetoothDevice,
    m: DeviceModel,
)
    requires
        stack.wf(),
        stack.has_device(device),
        stack.children_know_parents(),
        m.id == stack.device(device).id,
        m.adapter == stack.device(device).adapter,
        m.gatt_services == stack.device(device).gatt_services,
    ensures
        stack.with_device(device, m).siblings_distinct(),
        stack.with_device(device, m).children_know_parents(),
{
    let after = stack.with_device(device, m);
    assert forall|i: int| 0 <= i < after.adapters.len() implies ids_distinct(
        #[trigger] after.adapters[i].devices,
        after.device_id(),
    ) by {
        let listed = stack.adapters[i].devices;
        assert(stack.has_devices(listed));
        assert forall|k: int| 0 <= k < listed.len() implies (stack.device_id())(
            #[trigger] listed[k],
        ) == (after.device_id())(listed[k]) by {
            assert(stack.has_device(listed[k]));
        }
        lemma_ids_distinct_agrees(listed, stack.device_id(), after.device_id());
    }
    assert forall|i: int| 0 <= i < after.devices.len() implies ids_distinct(
        #[trigger] after.devices[i].gatt_services,
        after.service_id(),
    ) by {
        assert(after.devices[i].gatt_services == stack.devices[i].gatt_services);
    }
    assert forall|i: int, k: int|
        0 <= i < after.adapters.len() && 0 <= k < after.adapters[i].devices.len()
            implies after.device(#[trigger] after.adapters[i].devices[k]).adapter.index == i by {
        assert(stack.has_devices(stack.adapters[i].devices));
        assert(stack.has_device(stack.adapters[i].devices[k]));
        assert(stack.device(stack.adapters[i].devices[k]).adapter.index == i);
    }
    assert forall|i: int, k: int|
        0 <= i < after.devices.len() && 0 <= k < after.devices[i].gatt_services.len()
            implies after.service(#[trigger] after.devices[i].gatt_services[k]).device.index
        == i by {
        assert(after.devices[i].gatt_services == stack.devices[i].gatt_services);
        assert(stack.service(stack.devices[i].gatt_services[k]).device.index == i);
    }
}

/// Changing the attributes of a service, its id, its device and its
/// characteristics aside, keeps both: distinct ids among siblings, and every
/// child under the parent that it names.
pub proof fn law_service_attributes_keep_consistent(
    stack: StackModel,
    service: FakeBluetoothGATTService,
    m: ServiceModel,
)
    requires
        stack.wf(),
        stack.has_service(service),
        stack.children_know_parents(),
        m.id == stack.service(service).id,
        m.device == stack.service(service).device,
        m.gatt_characteristics == stack.service(service).gatt_characteristics,
    ensures
        stack.with_service(service, m).siblings_distinct(),
        stack.with_service(service, m).children_know_parents(),
{
    let after = stack.with_service(service, m);
    assert forall|i: int| 0 <= i < after.devices.len() implies ids_distinct(
        #[trigger] after.devices[i].gatt_services,
        after.service_id(),
    ) by {
        let listed = stack.devices[i].gatt_services;
        assert(stack.has_services(listed));
        assert forall|k: int| 0 <= k < listed.len() implies (stack.service_id())(
            #[trigger] listed[k],
        ) == (after.service_id())(listed[k]) by {
            assert(stack.has_service(listed[k]));
        }
        lemma_ids_distinct_agrees(listed, stack.service_id(), after.service_id());
    }
    assert forall|i: int| 0 <= i < after.services.len() implies ids_distinct(
        #[trigger] after.services[i].gatt_characteristics,
        after.characteristic_id(),
    ) by {
        assert(after.services[i].gatt_characteristics == stack.services[i].gatt_characteristics);
    }
    assert forall|i: int, k: int|
        0 <= i < after.devices.len() && 0 <= k < after.devices[i].gatt_services.len()
            implies after.service(#[trigger] after.devices[i].gatt_services[k]).device.index
        == i by {
        assert(stack.has_services(stack.devices[i].gatt_services));
        assert(stack.has_service(stack.devices[i].gatt_services[k]));
        assert(stack.service(stack.devices[i].gatt_services[k]).device.index == i);
    }
    assert forall|i: int, k: int|
        0 <= i < after.services.len() && 0 <= k < after.services[i].gatt_characteristics.len()
            implies after.characteristic(
        #[trigger] after.services[i].gatt_characteristics[k],
    ).service.index == i by {
        assert(after.services[i].gatt_characteristics == stack.services[i].gatt_characteristics);
        assert(stack.characteristic(stack.services[i].gatt_characteristics[k]).service.index
            == i);
    }
}

/// Changing the attributes of a characteristic, its id, its service and its
/// descriptors aside, keeps both: distinct ids among siblings, and every
/// child under the parent that it names.
pub proof fn law_characteristic_attributes_keep_consistent(
    stack: StackModel,
    characteristic: FakeBluetoothGATTCharacteristic,
    m: CharacteristicModel,
)
    requires
        stack.wf(),
        stack.has_characteristic(characteristic),
        stack.children_know_parents(),
        m.id == stack.characteristic(characteristic).id,
        m.service == stack.characteristic(characteristic).service,
        m.gatt_descriptors == stack.characteristic(characteristic).gatt_descriptors,
    ensures
        stack.with_characteristic(characteristic, m).siblings_distinct(),
        stack.with_characteristic(characteristic, m).children_know_parents(),
{
    let after = stack.with_characteristic(characteristic, m);
    assert forall|i: int| 0 <= i < after.services.len() implies ids_distinct(
        #[trigger] after.services[i].gatt_characteristics,
        after.characteristic_id(),
    ) by {
        let listed = stack.services[i].gatt_characteristics;
        assert(stack.has_characteristics(listed));
        assert forall|k: int| 0 <= k < listed.len() implies (stack.characteristic_id())(
            #[trigger] listed[k],
        ) == (after.characteristic_id())(listed[k]) by {
            assert(stack.has_characteristic(listed[k]));
        }
        lemma_ids_distinct_agrees(listed, stack.characteristic_id(), after.characteristic_id());
    }
    assert forall|i: int| 0 <= i < after.characteristics.len() implies ids_distinct(
        #[trigger] after.characteristics[i].gatt_descriptors,
        after.descriptor_id(),
    ) by {
        assert(after.characteristics[i].gatt_descriptors
            == stack.characteristics[i].gatt_descriptors);
    }
    assert forall|i: int, k: int|
        0 <= i < after.services.len() && 0 <= k < after.services[i].gatt_characteristics.len()
            implies after.characteristic(
        #[trigger] after.services[i].gatt_characteristics[k],
    ).service.index == i by {
        assert(stack.has_characteristics(stack.services[i].gatt_characteristics));
        assert(stack.has_characteristic(stack.services[i].gatt_characteristics[k]));
        assert(stack.characteristic(stack.services[i].gatt_characteristics[k]).service.index
            == i);
    }
    assert forall|i: int, k: int|
        0 <= i < after.characteristics.len() && 0 <= k
            < after.characteristics[i].gatt_descriptors.len() implies after.descriptor(
        #[trigger] after.characteristics[i].gatt_descriptors[k],
    ).characteristic.index == i by {
        assert(after.characteristics[i].gatt_descriptors
            == stack.characteristics[i].gatt_descriptors);
        assert(stack.descriptor(
            stack.characteristics[i].gatt_descriptors[k],
        ).characteristic.index == i);
    }
}

/// Changing the attributes of a descriptor, its id and its characteristic
/// aside, keeps both: distinct ids among siblings, and every child under the
/// parent that it names.
pub proof fn law_descriptor_attributes_keep_consistent(
    stack: StackModel,
    descriptor: FakeBluetoothGATTDescriptor,
    m: DescriptorModel,
)
    requires
        stack.wf(),
        stack.has_descriptor(descriptor),
        stack.children_know_parents(),
        m.id == stack.descriptor(descriptor).id,
        m.characteristic == stack.descriptor(descriptor).characteristic,
    ensures
        stack.with_descriptor(descriptor, m).siblings_distinct(),
        stack.with_descriptor(descriptor, m).children_know_parents(),
{
    let after = stack.with_descriptor(descriptor, m);
    assert forall|i: int| 0 <= i < after.characteristics.len() implies ids_distinct(
        #[trigger] after.characteristics[i].gatt_descriptors,
        after.descriptor_id(),
    ) by {
        let listed = stack.characteristics[i].gatt_descriptors;
        assert(stack.has_descriptors(listed));
        assert forall|k: int| 0 <= k < listed.len() implies (stack.descriptor_id())(
            #[trigger] listed[k],
        ) == (after.descriptor_id())(listed[k]) by {
            assert(stack.has_descriptor(listed[k]));
        }
        lemma_ids_distinct_agrees(listed, stack.descriptor_id(), after.descriptor_id());
    }
    assert forall|i: int, k: int|
        0 <= i < after.characteristics.len() && 0 <= k
            < after.characteristics[i].gatt_descriptors.len() implies after.descriptor(
        #[trigger] after.characteristics[i].gatt_descriptors[k],
    ).characteristic.index == i by {
        assert(stack.has_descriptors(stack.characteristics[i].gatt_descriptors));
        assert(stack.has_descriptor(stack.characteristics[i].gatt_descriptors[k]));
        assert(stack.descriptor(
            stack.characteristics[i].gatt_descriptors[k],
        ).characteristic.index == i);
    }
}

/// Adding a device to the devices of an adapter, or failing to, leaves
/// the ids of the list distinct where they were distinct before: an id that
/// the list holds is never added again.
pub proof fn law_add_device_keeps_ids_distinct(
    stack: StackModel,
    adapter: FakeBluetoothAdapter,
    child: FakeBluetoothDevice,
)
    requires
        stack.has_adapter(adapter),
        ids_distinct(stack.adapter(adapter).devices, stack.device_id()),
    ensures
        ids_distinct(
            stack.add_device(adapter, child).0.adapter(adapter).devices,
            stack.add_device(adapter, child).0.device_id(),
        ),
{
    if stack.add_device(adapter, child).1 is Ok {
        let after = stack.add_device(adapter, child).0;
        let listed = stack.adapter(adapter).devices;
        lemma_push_keeps_ids_distinct(listed, stack.device_id(), child);
        assert forall|k: int| 0 <= k < listed.push(child).len() implies (stack.device_id())(
            #[trigger] listed.push(child)[k],
        ) == (after.device_id())(listed.push(child)[k]) by {
            assert(after.devices.len() == stack.devices.len());
            assert(after.devices[listed.push(child)[k].index as int].id
                == stack.devices[listed.push(child)[k].index as int].id);
        }
        lemma_ids_distinct_agrees(listed.push(child), stack.device_id(), after.device_id());
    }
}

/// After adding a device to the devices of an adapter of a well formed
/// stack, whether it succeeds or fails, the stack is well formed: in no
/// list do two children have the same id.
pub proof fn law_add_device_keeps_well_formed(
    stack: StackModel,
    adapter: FakeBluetoothAdapter,
    child: FakeBluetoothDevice,
)
    requires
        stack.wf(),
    ensures
        stack.add_device(adapter, child).0.wf(),
        stack.add_device(adapter, child).1 is Err ==> stack.add_device(adapter, child).0 == stack,
{
    stack.lemma_add_device(adapter, child);
}

/// Adding a service to the services of a device, or failing to, leaves
/// the ids of the list distinct where they were distinct before: an id that
/// the list holds is never added again.
pub proof fn law_add_service_keeps_ids_distinct(
    stack: StackModel,
    device: FakeBluetoothDevice,
    child: FakeBluetoothGATTService,
)
    requires
        stack.has_device(device),
        ids_distinct(stack.device(device).gatt_services, stack.service_id()),
    ensures
        ids_distinct(
            stack.add_service(device, child).0.device(device).gatt_services,
            stack.add_service(device, child).0.service_id(),
        ),
{
    if stack.add_service(device, child).1 is Ok {
        let after = stack.add_service(device, child).0;
        let listed = stack.device(device).gatt_services;
        lemma_push_keeps_ids_distinct(listed, stack.service_id(), child);
        assert forall|k: int| 0 <= k < listed.push(child).len() implies (stack.service_id())(
            #[trigger] listed.push(child)[k],
        ) == (after.service_id())(listed.push(child)[k]) by {
            assert(after.services.len() == stack.services.len());
            assert(after.services[listed.push(child)[k].index as int].id
                == stack.services[listed.push(child)[k].index as int].id);
        }
        lemma_ids_distinct_agrees(listed.push(child), stack.service_id(), after.service_id());
    }
}

/// After adding a service to the services of a device of a well formed
/// stack, whether it succeeds or fails, the stack is well formed: in no
/// list do two children have the same id.
pub proof fn law_add_service_keeps_well_formed(
    stack: StackModel,
    device: FakeBluetoothDevice,
    child: FakeBluetoothGATTService,
)
    requires
        stack.wf(),
    ensures
        stack.add_service(device, child).0.wf(),
        stack.add_service(device, child).1 is Err ==> stack.add_service(device, child).0 == stack,
{
    stack.lemma_add_service(device, child);
}

/// Adding a characteristic to the characteristics of a service, or failing to,
/// leaves the ids of the list distinct where they were distinct before: an id
/// that the list holds is never added again.
pub proof fn law_add_characteristic_keeps_ids_distinct(
    stack: StackModel,
    service: FakeBluetoothGATTService,
    child: FakeBluetoothGATTCharacteristic,
)
    requires
        stack.has_service(service),
        ids_distinct(stack.service(service).gatt_characteristics, stack.characteristic_id()),
    ensures
        ids_distinct(
            stack.add_characteristic(service, child).0.service(service).gatt_characteristics,
            stack.add_characteristic(service, child).0.characteristic_id(),
        ),
{
    if stack.add_characteristic(service, child).1 is Ok {
        let after = stack.add_characteristic(service, child).0;
        let listed = stack.service(service).gatt_characteristics;
        lemma_push_keeps_ids_distinct(listed, stack.characteristic_id(), child);
        assert forall|k: int| 0 <= k < listed.push(child).len() implies (stack.characteristic_id())(
            #[trigger] listed.push(child)[k],
        ) == (after.characteristic_id())(listed.push(child)[k]) by {
            assert(after.characteristics.len() == stack.characteristics.len());
            assert(after.characteristics[listed.push(child)[k].index as int].id
                == stack.characteristics[listed.push(child)[k].index as int].id);
        }
        lemma_ids_distinct_agrees(
            listed.push(child),
            stack.characteristic_id(),
            after.characteristic_id(),
        );
    }
}

/// After adding a characteristic to the characteristics of a service of a well
/// formed stack, whether it succeeds or fails, the stack is well formed: in no
/// list do two children have the same id.
pub proof fn law_add_characteristic_keeps_well_formed(
    stack: StackModel,
    service: FakeBluetoothGATTService,
    child: FakeBluetoothGATTCharacteristic,
)
    requires
        stack.wf(),
    ensures
        stack.add_characteristic(service, child).0.wf(),
        stack.add_characteristic(service, child).1 is Err
            ==> stack.add_characteristic(service, child).0 == stack,
{
    stack.lemma_add_characteristic(service, child);
}

/// Adding a service to the services that a service includes, or failing to,
/// leaves the ids of the list distinct where they were distinct before: an id
/// that the list holds is never added again.
pub proof fn law_add_included_service_keeps_ids_distinct(
    stack: StackModel,
    service: FakeBluetoothGATTService,
    child: FakeBluetoothGATTService,
)
    requires
        stack.wf(),
        stack.has_service(service),
        ids_distinct(stack.service(service).included_services, stack.service_id()),
    ensures
        ids_distinct(
            stack.add_included_service(service, child).0.service(service).included_services,
            stack.add_included_service(service, child).0.service_id(),
        ),
{
    if stack.add_included_service(service, child).1 is Ok {
        let after = stack.add_included_service(service, child).0;
        let listed = stack.service(service).included_services;
        assert(stack.has_services(stack.services[service.index as int].included_services));
        lemma_push_keeps_ids_distinct(listed, stack.service_id(), child);
        assert forall|k: int| 0 <= k < listed.push(child).len() implies (stack.service_id())(
            #[trigger] listed.push(child)[k],
        ) == (after.service_id())(listed.push(child)[k]) by {
            if k < listed.len() {
                assert(stack.has_service(listed[k]));
            }
            assert(after.services.len() == stack.services.len());
            assert(after.services[listed.push(child)[k].index as int].id
                == stack.services[listed.push(child)[k].index as int].id);
        }
        lemma_ids_distinct_agrees(listed.push(child), stack.service_id(), after.service_id());
    }
}

/// After adding a service to the services that a service includes of a well
/// formed stack, whether it succeeds or fails, the stack is well formed: in no
/// list do two children have the same id.
pub proof fn law_add_included_service_keeps_well_formed(
    stack: StackModel,
    service: FakeBluetoothGATTService,
    child: FakeBluetoothGATTService,
)
    requires
        stack.wf(),
    ensures
        stack.add_included_service(service, child).0.wf(),
        stack.add_included_service(service, child).1 is Err
            ==> stack.add_included_service(service, child).0 == stack,
{
    stack.lemma_add_included_service(service, child);
}

/// Adding a descriptor to the descriptors of a characteristic, or failing to,
/// leaves the ids of the list distinct where they were distinct before: an id
/// that the list holds is never added again.
pub proof fn law_add_descriptor_keeps_ids_distinct(
    stack: StackModel,
    characteristic: FakeBluetoothGATTCharacteristic,
    child: FakeBluetoothGATTDescriptor,
)
    requires
        stack.has_characteristic(characteristic),
        ids_distinct(stack.characteristic(characteristic).gatt_descriptors, stack.descriptor_id()),
    ensures
        ids_distinct(
            stack.add_descriptor(
                characteristic,
                child,
            ).0.characteristic(characteristic).gatt_descriptors,
            stack.add_descriptor(characteristic, child).0.descriptor_id(),
        ),
{
    if stack.add_descriptor(characteristic, child).1 is Ok {
        let after = stack.add_descriptor(characteristic, child).0;
        let listed = stack.characteristic(characteristic).gatt_descriptors;
        lemma_push_keeps_ids_distinct(listed, stack.descriptor_id(), child);
        assert forall|k: int| 0 <= k < listed.push(child).len() implies (stack.descriptor_id())(
            #[trigger] listed.push(child)[k],
        ) == (after.descriptor_id())(listed.push(child)[k]) by {
            assert(after.descriptors.len() == stack.descriptors.len());
            assert(after.descriptors[listed.push(child)[k].index as int].id
                == stack.descriptors[listed.push(child)[k].index as int].id);
        }
        lemma_ids_distinct_agrees(listed.push(child), stack.descriptor_id(), after.descriptor_id());
    }
}

/// After adding a descriptor to the descriptors of a characteristic of a well
/// formed stack, whether it succeeds or fails, the stack is well formed: in no
/// list do two children have the same id.
pub proof fn law_add_descriptor_keeps_well_formed(
    stack: StackModel,
    characteristic: FakeBluetoothGATTCharacteristic,
    child: FakeBluetoothGATTDescriptor,
)
    requires
        stack.wf(),
    ensures
        stack.add_descriptor(characteristic, child).0.wf(),
        stack.add_descriptor(characteristic, child).1 is Err
            ==> stack.add_descriptor(characteristic, child).0 == stack,
{
    stack.lemma_add_descriptor(characteristic, child);
}

/// Giving a device another id, or failing to, leaves a well formed stack
/// well formed: the id is not given where a list that holds the device
/// holds another device with that id.
pub proof fn law_rename_device_keeps_well_formed(
    stack: StackModel,
    device: FakeBluetoothDevice,
    id: Seq<char>,
)
    requires
        stack.wf(),
    ensures
        stack.rename_device(device, id).0.wf(),
        stack.rename_device(device, id).1 is Ok ==> stack.rename_device(device, id).0.device(
            device,
        ).id == id,
        stack.rename_device(device, id).1 is Err ==> stack.rename_device(device, id).0 == stack,
{
    if stack.rename_device(device, id).1 is Ok {
        stack.lemma_rename_device(device, id);
    }
}

/// After a device was created in a well formed stack, or found in place
/// of being created, the list of its adapter holds its id exactly once.
pub proof fn law_created_device_is_held_once(stack: StackModel, init: DeviceModel)
    requires
        stack.wf(),
        stack.create_device(init).1 is Ok,
    ensures
        holds_id_once(
            stack.create_device(init).0.adapter(init.adapter).devices,
            stack.create_device(init).0.device_id(),
            init.id,
        ),
{
    let after = stack.create_device(init).0;
    let listed = after.adapter(init.adapter).devices;
    law_created_device_is_found(stack, init);
    law_create_device_keeps_ids_distinct(stack, init, init.adapter);
    assert(ids_distinct(stack.adapters[init.adapter.index as int].devices, stack.device_id()));
    lemma_first_with_id(listed, after.device_id(), init.id);
    let k = ids_of(listed, after.device_id()).index_of_first(init.id)->0;
    lemma_distinct_holds_once(listed, after.device_id(), k);
}

/// A device that is new has the attributes that it was created with, and
/// stands at the end of the list of its adapter, behind those that were
/// there. One that was found keeps its attributes, and the stack stays as
/// it was.
pub proof fn law_created_device_is_as_given(stack: StackModel, init: DeviceModel)
    requires
        stack.wf(),
        stack.create_device(init).1 is Ok,
    ensures
        stack.find_device(stack.adapter(init.adapter).devices, init.id) is None
            ==> stack.create_device(init).0.device(stack.create_device(init).1->Ok_0) == init
            && stack.create_device(init).0.adapter(init.adapter).devices == stack.adapter(
            init.adapter,
        ).devices.push(stack.create_device(init).1->Ok_0),
        stack.find_device(stack.adapter(init.adapter).devices, init.id) matches Some(found)
            ==> stack.create_device(init)
                == (stack, Ok::<FakeBluetoothDevice, BluetoothError>(found)),
{
}

/// Giving a service another id, or failing to, leaves a well formed stack
/// well formed: the id is not given where a list that holds the service
/// holds another service with that id.
pub proof fn law_rename_service_keeps_well_formed(
    stack: StackModel,
    service: FakeBluetoothGATTService,
    id: Seq<char>,
)
    requires
        stack.wf(),
    ensures
        stack.rename_service(service, id).0.wf(),
        stack.rename_service(service, id).1 is Ok ==> stack.rename_service(service, id).0.service(
            service,
        ).id == id,
        stack.rename_service(service, id).1 is Err ==> stack.rename_service(service, id).0 == stack,
{
    if stack.rename_service(service, id).1 is Ok {
        stack.lemma_rename_service(service, id);
    }
}

/// After a service was created in a well formed stack, or found in place
/// of being created, the list of its device holds its id exactly once.
pub proof fn law_created_service_is_held_once(stack: StackModel, init: ServiceModel)
    requires
        stack.wf(),
        stack.create_service(init).1 is Ok,
    ensures
        holds_id_once(
            stack.create_service(init).0.device(init.device).gatt_services,
            stack.create_service(init).0.service_id(),
            init.id,
        ),
{
    let after = stack.create_service(init).0;
    let listed = after.device(init.device).gatt_services;
    law_created_service_is_found(stack, init);
    law_create_service_keeps_ids_distinct(stack, init, init.device);
    assert(ids_distinct(stack.devices[init.device.index as int].gatt_services, stack.service_id()));
    lemma_first_with_id(listed, after.service_id(), init.id);
    let k = ids_of(listed, after.service_id()).index_of_first(init.id)->0;
    lemma_distinct_holds_once(listed, after.service_id(), k);
}

/// A service that is new has the attributes that it was created with, and
/// stands at the end of the list of its device, behind those that were
/// there. One that was found keeps its attributes, and the stack stays as
/// it was.
pub proof fn law_created_service_is_as_given(stack: StackModel, init: ServiceModel)
    requires
        stack.wf(),
        stack.create_service(init).1 is Ok,
    ensures
        stack.find_service(stack.device(init.device).gatt_services, init.id) is None
            ==> stack.create_service(init).0.service(stack.create_service(init).1->Ok_0) == init
            && stack.create_service(init).0.device(init.device).gatt_services == stack.device(
            init.device,
        ).gatt_services.push(stack.create_service(init).1->Ok_0),
        stack.find_service(stack.device(init.device).gatt_services, init.id) matches Some(found)
            ==> stack.create_service(init)
                == (stack, Ok::<FakeBluetoothGATTService, BluetoothError>(found)),
{
}

/// Giving a characteristic another id, or failing to, leaves a well formed
/// stack well formed: the id is not given where a list that holds the
/// characteristic holds another characteristic with that id.
pub proof fn law_rename_characteristic_keeps_well_formed(
    stack: StackModel,
    characteristic: FakeBluetoothGATTCharacteristic,
    id: Seq<char>,
)
    requires
        stack.wf(),
    ensures
        stack.rename_characteristic(characteristic, id).0.wf(),
        stack.rename_characteristic(characteristic, id).1 is Ok
            ==> stack.rename_characteristic(characteristic, id).0.characteristic(
            characteristic,
        ).id == id,
        stack.rename_characteristic(characteristic, id).1 is Err
            ==> stack.rename_characteristic(characteristic, id).0 == stack,
{
    if stack.rename_characteristic(characteristic, id).1 is Ok {
        stack.lemma_rename_characteristic(characteristic, id);
    }
}

/// After a characteristic was created in a well formed stack, or found in place
/// of being created, the list of its service holds its id exactly once.
pub proof fn law_created_characteristic_is_held_once(stack: StackModel, init: CharacteristicModel)
    requires
        stack.wf(),
        stack.create_characteristic(init).1 is Ok,
    ensures
        holds_id_once(
            stack.create_characteristic(init).0.service(init.service).gatt_characteristics,
            stack.create_characteristic(init).0.characteristic_id(),
            init.id,
        ),
{
    let after = stack.create_characteristic(init).0;
    let listed = after.service(init.service).gatt_characteristics;
    law_created_characteristic_is_found(stack, init);
    law_create_characteristic_keeps_ids_distinct(stack, init, init.service);
    assert(
        ids_distinct(
            stack.services[init.service.index as int].gatt_characteristics,
            stack.characteristic_id(),
        )
    );
    lemma_first_with_id(listed, after.characteristic_id(), init.id);
    let k = ids_of(listed, after.characteristic_id()).index_of_first(init.id)->0;
    lemma_distinct_holds_once(listed, after.characteristic_id(), k);
}

/// A characteristic that is new has the attributes that it was created with,
/// and stands at the end of the list of its service, behind those that were
/// there. One that was found keeps its attributes, and the stack stays as it
/// was.
pub proof fn law_created_characteristic_is_as_given(stack: StackModel, init: CharacteristicModel)
    requires
        stack.wf(),
        stack.create_characteristic(init).1 is Ok,
    ensures
        stack.find_characteristic(stack.service(init.service).gatt_characteristics, init.id) is None
            ==> stack.create_characteristic(init).0.characteristic(
                stack.create_characteristic(init).1->Ok_0
            ) == init
            && stack.create_characteristic(init).0.service(init.service).gatt_characteristics
                == stack.service(
            init.service,
        ).gatt_characteristics.push(stack.create_characteristic(init).1->Ok_0),
        stack.find_characteristic(
            stack.service(init.service).gatt_characteristics,
            init.id,
        ) matches Some(found)
            ==> stack.create_characteristic(init)
                == (stack, Ok::<FakeBluetoothGATTCharacteristic, BluetoothError>(found)),
{
}

/// Giving a descriptor another id, or failing to, leaves a well formed stack
/// well formed: the id is not given where a list that holds the descriptor
/// holds another descriptor with that id.
pub proof fn law_rename_descriptor_keeps_well_formed(
    stack: StackModel,
    descriptor: FakeBluetoothGATTDescriptor,
    id: Seq<char>,
)
    requires
        stack.wf(),
    ensures
        stack.rename_descriptor(descriptor, id).0.wf(),
        stack.rename_descriptor(descriptor, id).1 is Ok
            ==> stack.rename_descriptor(descriptor, id).0.descriptor(
            descriptor,
        ).id == id,
        stack.rename_descriptor(descriptor, id).1 is Err
            ==> stack.rename_descriptor(descriptor, id).0 == stack,
{
    if stack.rename_descriptor(descriptor, id).1 is Ok {
        stack.lemma_rename_descriptor(descriptor, id);
    }
}

/// After a descriptor was created in a well formed stack, or found in place
/// of being created, the list of its characteristic holds its id exactly once.
pub proof fn law_created_descriptor_is_held_once(stack: StackModel, init: DescriptorModel)
    requires
        stack.wf(),
        stack.create_descriptor(init).1 is Ok,
    ensures
        holds_id_once(
            stack.create_descriptor(init).0.characteristic(init.characteristic).gatt_descriptors,
            stack.create_descriptor(init).0.descriptor_id(),
            init.id,
        ),
{
    let after = stack.create_descriptor(init).0;
    let listed = after.characteristic(init.characteristic).gatt_descriptors;
    law_created_descriptor_is_found(stack, init);
    law_create_descriptor_keeps_ids_distinct(stack, init, init.characteristic);
    assert(
        ids_distinct(
            stack.characteristics[init.characteristic.index as int].gatt_descriptors,
            stack.descriptor_id(),
        )
    );
    lemma_first_with_id(listed, after.descriptor_id(), init.id);
    let k = ids_of(listed, after.descriptor_id()).index_of_first(init.id)->0;
    lemma_distinct_holds_once(listed, after.descriptor_id(), k);
}

/// A descriptor that is new has the attributes that it was created with, and
/// stands at the end of the list of its characteristic, behind those that were
/// there. One that was found keeps its attributes, and the stack stays as
/// it was.
pub proof fn law_created_descriptor_is_as_given(stack: StackModel, init: DescriptorModel)
    requires
        stack.wf(),
        stack.create_descriptor(init).1 is Ok,
    ensures
        stack.find_descriptor(
            stack.characteristic(init.characteristic).gatt_descriptors,
            init.id,
        ) is None
            ==> stack.create_descriptor(init).0.descriptor(
                stack.create_descriptor(init).1->Ok_0
            ) == init
            && stack.create_descriptor(init).0.characteristic(init.characteristic).gatt_descriptors
                == stack.characteristic(
            init.characteristic,
        ).gatt_descriptors.push(stack.create_descriptor(init).1->Ok_0),
        stack.find_descriptor(
            stack.characteristic(init.characteristic).gatt_descriptors,
            init.id,
        ) matches Some(found)
            ==> stack.create_descriptor(init)
                == (stack, Ok::<FakeBluetoothGATTDescriptor, BluetoothError>(found)),
{
}

/// Default services under two devices with different ids, made with the
/// same suffix, are two services with different ids: each has the id of its
/// device followed by the suffix. One that is new is not primary and holds
/// nothing.
pub proof fn law_default_services_of_two_devices(
    stack: StackModel,
    first: FakeBluetoothDevice,
    second: FakeBluetoothDevice,
    suffix: Seq<char>,
)
    requires
        stack.wf(),
        stack.has_device(first),
        stack.has_device(second),
        stack.device(first).id != stack.device(second).id,
        stack.services.len() + 1 < usize::MAX,
    ensures
        ({
            let id1 = stack.device(first).id + suffix;
            let id2 = stack.device(second).id + suffix;
            let (mid, r1) = stack.create_service(ServiceModel::empty(id1, first));
            let (after, r2) = mid.create_service(ServiceModel::empty(id2, second));
            &&& r1 is Ok
            &&& r2 is Ok
            &&& mid.device(second).id == stack.device(second).id
            &&& after.service(r1->Ok_0).id == id1
            &&& after.service(r2->Ok_0).id == id2
            &&& id1 != id2
            &&& r1->Ok_0 != r2->Ok_0
            &&& stack.find_service(stack.device(first).gatt_services, id1) is None ==> mid.service(
                r1->Ok_0,
            ) == ServiceModel::empty(id1, first)
            &&& mid.find_service(mid.device(second).gatt_services, id2) is None ==> after.service(
                r2->Ok_0,
            ) == ServiceModel::empty(id2, second)
        }),
{
    let id1 = stack.device(first).id + suffix;
    let id2 = stack.device(second).id + suffix;
    let init1 = ServiceModel::empty(id1, first);
    let (mid, r1) = stack.create_service(init1);
    let init2 = ServiceModel::empty(id2, second);
    if id1 == id2 {
        lemma_same_suffix(stack.device(first).id, stack.device(second).id, suffix);
    }
    law_created_service_is_found(stack, init1);
    if stack.find_service(stack.device(first).gatt_services, id1) is None {
        stack.lemma_insert_service(init1);
    }
    assert(mid.wf());
    assert(mid.has_device(second));
    law_created_service_is_found(mid, init2);
    let (after, r2) = mid.create_service(init2);
    assert(mid.has_service(r1->Ok_0));
    assert(after.service(r1->Ok_0).id == mid.service(r1->Ok_0).id);
}

} // verus!
