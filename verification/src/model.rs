//! The mathematical model of the stack: what every contract of this crate
//! speaks of.
//!
//! A stack is five arenas, one per kind of entity. An entity is named by its
//! position in the arena of its kind; that position is what a handle holds.
//! Arenas only grow, so a handle that names an entity names it for ever.

use vstd::prelude::*;
use crate::error::BluetoothError;
use crate::fake_adapter::FakeBluetoothAdapter;
use crate::fake_characteristic::FakeBluetoothGATTCharacteristic;
use crate::fake_descriptor::FakeBluetoothGATTDescriptor;
use crate::fake_device::FakeBluetoothDevice;
use crate::fake_service::FakeBluetoothGATTService;
use crate::laws::{
    lemma_first_with_id_agrees, lemma_ids_distinct_agrees, lemma_push_keeps_ids_distinct,
    lemma_without_keeps_ids_distinct,
};

verus! {

/// The attributes of an adapter.
#[verifier::ext_equal]
pub struct AdapterModel {
    pub id: Seq<char>,
    pub is_present: bool,
    pub is_powered: bool,
    pub can_start_discovery: bool,
    pub can_stop_discovery: bool,
    /// The devices of the adapter, in the order in which they were added.
    pub devices: Seq<FakeBluetoothDevice>,
    pub ad_datas: Seq<Seq<char>>,
    pub address: Seq<char>,
    pub name: Seq<char>,
    pub alias: Seq<char>,
    pub class: u32,
    pub is_discoverable: bool,
    pub is_pairable: bool,
    pub pairable_timeout: u32,
    pub discoverable_timeout: u32,
    pub is_discovering: bool,
    pub uuids: Seq<Seq<char>>,
    pub modalias: Seq<char>,
}

/// The attributes of a device.
#[verifier::ext_equal]
pub struct DeviceModel {
    pub id: Seq<char>,
    /// The adapter that the device was created under.
    pub adapter: FakeBluetoothAdapter,
    pub address: Seq<char>,
    pub appearance: Option<u16>,
    pub class: u32,
    /// The services of the device, in the order in which they were added.
    pub gatt_services: Seq<FakeBluetoothGATTService>,
    pub is_paired: bool,
    pub is_connectable: bool,
    pub is_connected: bool,
    pub is_trusted: bool,
    pub is_blocked: bool,
    pub is_legacy_pairing: bool,
    pub uuids: Seq<Seq<char>>,
    pub name: Option<Seq<char>>,
    pub icon: Seq<char>,
    pub alias: Seq<char>,
    pub product_version: u32,
    pub rssi: Option<i16>,
    pub tx_power: Option<i16>,
    pub modalias: Seq<char>,
}

/// The attributes of a GATT service.
#[verifier::ext_equal]
pub struct ServiceModel {
    pub id: Seq<char>,
    /// The device that the service was created under.
    pub device: FakeBluetoothDevice,
    /// The characteristics of the service, in the order in which they were
    /// added.
    pub gatt_characteristics: Seq<FakeBluetoothGATTCharacteristic>,
    pub is_primary: bool,
    /// The services that this one includes, in the order in which they were
    /// added.
    pub included_services: Seq<FakeBluetoothGATTService>,
    pub uuid: Seq<char>,
}

/// The attributes of a GATT characteristic.
#[verifier::ext_equal]
pub struct CharacteristicModel {
    pub id: Seq<char>,
    pub uuid: Seq<char>,
    /// The service that the characteristic was created under.
    pub service: FakeBluetoothGATTService,
    pub value: Option<Seq<u8>>,
    pub is_notifying: bool,
    pub flags: Seq<Seq<char>>,
    /// The descriptors of the characteristic, in the order in which they were
    /// added.
    pub gatt_descriptors: Seq<FakeBluetoothGATTDescriptor>,
}

/// The attributes of a GATT descriptor.
#[verifier::ext_equal]
pub struct DescriptorModel {
    pub id: Seq<char>,
    pub uuid: Seq<char>,
    /// The characteristic that the descriptor was created under.
    pub characteristic: FakeBluetoothGATTCharacteristic,
    pub value: Seq<u8>,
    pub flags: Seq<Seq<char>>,
}

/// The whole stack: every entity that was ever created, by kind.
#[verifier::ext_equal]
pub struct StackModel {
    pub adapters: Seq<AdapterModel>,
    pub devices: Seq<DeviceModel>,
    pub services: Seq<ServiceModel>,
    pub characteristics: Seq<CharacteristicModel>,
    pub descriptors: Seq<DescriptorModel>,
}

/// The characters of an optional string.
pub open spec fn text_of(value: Option<String>) -> Option<Seq<char>> {
    match value {
        Some(text) => Some(text@),
        None => None,
    }
}

/// The bytes of an optional byte vector.
pub open spec fn bytes_of(value: Option<Vec<u8>>) -> Option<Seq<u8>> {
    match value {
        Some(bytes) => Some(bytes@),
        None => None,
    }
}

/// The ids of the entities that the handles name, in the same order, where
/// `id_of` gives the id of the entity that a handle names.
pub open spec fn ids_of<H>(hs: Seq<H>, id_of: spec_fn(H) -> Seq<char>) -> Seq<Seq<char>> {
    Seq::new(hs.len(), |k: int| id_of(hs[k]))
}

/// The first of the handles whose entity has the given id.
pub open spec fn first_with_id<H>(
    hs: Seq<H>,
    id_of: spec_fn(H) -> Seq<char>,
    id: Seq<char>,
) -> Option<H> {
    match ids_of(hs, id_of).index_of_first(id) {
        Some(k) => Some(hs[k]),
        None => None,
    }
}

/// The test that a handle passes if its entity has another id than the given
/// one.
pub open spec fn has_other_id<H>(id_of: spec_fn(H) -> Seq<char>, id: Seq<char>) -> spec_fn(
    H,
) -> bool {
    |h: H| id_of(h) != id
}

/// The handles whose entity has another id than the given one, in the same
/// order.
pub open spec fn without_id<H>(hs: Seq<H>, id_of: spec_fn(H) -> Seq<char>, id: Seq<char>) -> Seq<
    H,
> {
    hs.filter(has_other_id(id_of, id))
}

/// Do no two of the handles name entities with the same id?
pub open spec fn ids_distinct<H>(hs: Seq<H>, id_of: spec_fn(H) -> Seq<char>) -> bool {
    forall|j: int, k: int|
        0 <= j < k < hs.len() ==> id_of(#[trigger] hs[j]) != id_of(#[trigger] hs[k])
}

/// Does exactly one position of the list hold a handle whose entity has the
/// given id?
pub open spec fn holds_id_once<H>(
    hs: Seq<H>,
    id_of: spec_fn(H) -> Seq<char>,
    id: Seq<char>,
) -> bool {
    exists|k: int|
        0 <= k < hs.len() && id_of(#[trigger] hs[k]) == id && forall|j: int|
            0 <= j < hs.len() && id_of(#[trigger] hs[j]) == id ==> j == k
}

/// Does the list hold `h`, and beside it another handle whose entity has the
/// given id?
pub open spec fn id_taken_beside<H>(
    hs: Seq<H>,
    id_of: spec_fn(H) -> Seq<char>,
    h: H,
    id: Seq<char>,
) -> bool {
    hs.contains(h) && exists|k: int| 0 <= k < hs.len() && #[trigger] hs[k] != h
        && id_of(hs[k]) == id
}

/// What the first handle with a given id is: one of the handles, with that
/// id, and with no handle of that id before it; and that there is one
/// whenever some handle has that id.
pub proof fn lemma_first_with_id<H>(hs: Seq<H>, id_of: spec_fn(H) -> Seq<char>, id: Seq<char>)
    ensures
        first_with_id(hs, id_of, id) matches Some(h) ==> hs.contains(h) && id_of(h) == id,
        first_with_id(hs, id_of, id) is None <==> forall|k: int|
            0 <= k < hs.len() ==> id_of(#[trigger] hs[k]) != id,
        ids_of(hs, id_of).index_of_first(id) matches Some(k) ==> 0 <= k < hs.len() && id_of(hs[k])
            == id && forall|j: int| 0 <= j < k ==> id_of(#[trigger] hs[j]) != id,
{
    let ids = ids_of(hs, id_of);
    ids.index_of_first_ensures(id);
    match ids.index_of_first(id) {
        Some(k) => {
            assert(ids[k] == id);
            assert forall|j: int| 0 <= j < k implies id_of(#[trigger] hs[j]) != id by {
                assert(ids[j] != id);
            }
        },
        None => {
            assert forall|k: int| 0 <= k < hs.len() implies id_of(#[trigger] hs[k]) != id by {
                assert(ids[k] == id_of(hs[k]));
                assert(ids.contains(ids[k]));
            }
        },
    }
}

/// The handle at a position is the first with its id if no handle before it
/// has that id.
pub proof fn lemma_first_with_id_at<H>(
    hs: Seq<H>,
    id_of: spec_fn(H) -> Seq<char>,
    id: Seq<char>,
    k: int,
)
    requires
        0 <= k < hs.len(),
        id_of(hs[k]) == id,
        forall|j: int| 0 <= j < k ==> id_of(#[trigger] hs[j]) != id,
    ensures
        first_with_id(hs, id_of, id) == Some(hs[k]),
{
    lemma_first_with_id(hs, id_of, id);
    assert(id_of(hs[k]) == id);
    let found = ids_of(hs, id_of).index_of_first(id);
    assert(found is Some);
    let f = found->0;
    if f < k {
        assert(id_of(hs[f]) != id);
    }
    if k < f {
        assert(id_of(hs[k]) != id);
    }
}

/// What removing an id keeps are handles that were there before.
pub proof fn lemma_without_id_members<H>(
    hs: Seq<H>,
    id_of: spec_fn(H) -> Seq<char>,
    id: Seq<char>,
)
    ensures
        forall|k: int|
            0 <= k < without_id(hs, id_of, id).len() ==> hs.contains(
                #[trigger] without_id(hs, id_of, id)[k],
            ) && id_of(without_id(hs, id_of, id)[k]) != id,
{
    let kept = without_id(hs, id_of, id);
    assert forall|k: int| 0 <= k < kept.len() implies hs.contains(#[trigger] kept[k]) && id_of(
        kept[k],
    ) != id by {
        hs.lemma_filter_pred(has_other_id(id_of, id), k);
        assert(kept.contains(kept[k]));
        hs.lemma_filter_contains_rev(has_other_id(id_of, id), kept[k]);
    }
}

/// The function from a handle to the id of the device that it names among
/// the given devices.
pub open spec fn id_of_device(
    devices: Seq<DeviceModel>,
) -> spec_fn(FakeBluetoothDevice) -> Seq<char> {
    |h: FakeBluetoothDevice| devices[h.index as int].id
}

/// The function from a handle to the id of the service that it names among
/// the given services.
pub open spec fn id_of_service(
    services: Seq<ServiceModel>,
) -> spec_fn(FakeBluetoothGATTService) -> Seq<char> {
    |h: FakeBluetoothGATTService| services[h.index as int].id
}

/// The function from a handle to the id of the characteristic that it names
/// among the given characteristics.
pub open spec fn id_of_characteristic(
    characteristics: Seq<CharacteristicModel>,
) -> spec_fn(FakeBluetoothGATTCharacteristic) -> Seq<char> {
    |h: FakeBluetoothGATTCharacteristic| characteristics[h.index as int].id
}

/// The function from a handle to the id of the descriptor that it names among
/// the given descriptors.
pub open spec fn id_of_descriptor(
    descriptors: Seq<DescriptorModel>,
) -> spec_fn(FakeBluetoothGATTDescriptor) -> Seq<char> {
    |h: FakeBluetoothGATTDescriptor| descriptors[h.index as int].id
}

impl AdapterModel {
    /// An adapter with the given id, present, able to start and to stop
    /// discovery, and otherwise empty.
    pub open spec fn empty(id: Seq<char>) -> AdapterModel {
        AdapterModel {
            id,
            is_present: true,
            is_powered: false,
            can_start_discovery: true,
            can_stop_discovery: true,
            devices: Seq::empty(),
            ad_datas: Seq::empty(),
            address: Seq::empty(),
            name: Seq::empty(),
            alias: Seq::empty(),
            class: 0,
            is_discoverable: false,
            is_pairable: false,
            pairable_timeout: 0,
            discoverable_timeout: 0,
            is_discovering: false,
            uuids: Seq::empty(),
            modalias: Seq::empty(),
        }
    }
}

impl DeviceModel {
    /// A device with the given id under the given adapter, and otherwise empty.
    pub open spec fn empty(id: Seq<char>, adapter: FakeBluetoothAdapter) -> DeviceModel {
        DeviceModel {
            id,
            adapter,
            address: Seq::empty(),
            appearance: None,
            class: 0,
            gatt_services: Seq::empty(),
            is_paired: false,
            is_connectable: false,
            is_connected: false,
            is_trusted: false,
            is_blocked: false,
            is_legacy_pairing: false,
            uuids: Seq::empty(),
            name: None,
            icon: Seq::empty(),
            alias: Seq::empty(),
            product_version: 0,
            rssi: None,
            tx_power: None,
            modalias: Seq::empty(),
        }
    }
}

impl ServiceModel {
    /// A service with the given id under the given device, and otherwise empty.
    pub open spec fn empty(id: Seq<char>, device: FakeBluetoothDevice) -> ServiceModel {
        ServiceModel {
            id,
            device,
            gatt_characteristics: Seq::empty(),
            is_primary: false,
            included_services: Seq::empty(),
            uuid: Seq::empty(),
        }
    }
}

impl CharacteristicModel {
    /// A characteristic with the given id under the given service, and
    /// otherwise empty.
    pub open spec fn empty(
        id: Seq<char>,
        service: FakeBluetoothGATTService,
    ) -> CharacteristicModel {
        CharacteristicModel {
            id,
            uuid: Seq::empty(),
            service,
            value: None,
            is_notifying: false,
            flags: Seq::empty(),
            gatt_descriptors: Seq::empty(),
        }
    }
}

impl DescriptorModel {
    /// A descriptor with the given id under the given characteristic, and
    /// otherwise empty.
    pub open spec fn empty(
        id: Seq<char>,
        characteristic: FakeBluetoothGATTCharacteristic,
    ) -> DescriptorModel {
        DescriptorModel {
            id,
            uuid: Seq::empty(),
            characteristic,
            value: Seq::empty(),
            flags: Seq::empty(),
        }
    }
}

impl StackModel {
    /// The stack without any entity.
    pub open spec fn empty() -> StackModel {
        StackModel {
            adapters: Seq::empty(),
            devices: Seq::empty(),
            services: Seq::empty(),
            characteristics: Seq::empty(),
            descriptors: Seq::empty(),
        }
    }

    /// Does the handle name an adapter of this stack?
    pub open spec fn has_adapter(self, h: FakeBluetoothAdapter) -> bool {
        h.index < self.adapters.len()
    }

    /// Does the handle name a device of this stack?
    pub open spec fn has_device(self, h: FakeBluetoothDevice) -> bool {
        h.index < self.devices.len()
    }

    /// Does the handle name a service of this stack?
    pub open spec fn has_service(self, h: FakeBluetoothGATTService) -> bool {
        h.index < self.services.len()
    }

    /// Does the handle name a characteristic of this stack?
    pub open spec fn has_characteristic(self, h: FakeBluetoothGATTCharacteristic) -> bool {
        h.index < self.characteristics.len()
    }

    /// Does the handle name a descriptor of this stack?
    pub open spec fn has_descriptor(self, h: FakeBluetoothGATTDescriptor) -> bool {
        h.index < self.descriptors.len()
    }

    /// The adapter that the handle names.
    pub open spec fn adapter(self, h: FakeBluetoothAdapter) -> AdapterModel
        recommends
            self.has_adapter(h),
    {
        self.adapters[h.index as int]
    }

    /// The device that the handle names.
    pub open spec fn device(self, h: FakeBluetoothDevice) -> DeviceModel
        recommends
            self.has_device(h),
    {
        self.devices[h.index as int]
    }

    /// The service that the handle names.
    pub open spec fn service(self, h: FakeBluetoothGATTService) -> ServiceModel
        recommends
            self.has_service(h),
    {
        self.services[h.index as int]
    }

    /// The characteristic that the handle names.
    pub open spec fn characteristic(self, h: FakeBluetoothGATTCharacteristic) -> CharacteristicModel
        recommends
            self.has_characteristic(h),
    {
        self.characteristics[h.index as int]
    }

    /// The descriptor that the handle names.
    pub open spec fn descriptor(self, h: FakeBluetoothGATTDescriptor) -> DescriptorModel
        recommends
            self.has_descriptor(h),
    {
        self.descriptors[h.index as int]
    }

    /// This stack with one adapter replaced.
    pub open spec fn with_adapter(self, h: FakeBluetoothAdapter, m: AdapterModel) -> StackModel
        recommends
            self.has_adapter(h),
    {
        StackModel { adapters: self.adapters.update(h.index as int, m), ..self }
    }

    /// This stack with one device replaced.
    pub open spec fn with_device(self, h: FakeBluetoothDevice, m: DeviceModel) -> StackModel
        recommends
            self.has_device(h),
    {
        StackModel { devices: self.devices.update(h.index as int, m), ..self }
    }

    /// This stack with one service replaced.
    pub open spec fn with_service(self, h: FakeBluetoothGATTService, m: ServiceModel) -> StackModel
        recommends
            self.has_service(h),
    {
        StackModel { services: self.services.update(h.index as int, m), ..self }
    }

    /// This stack with one characteristic replaced.
    pub open spec fn with_characteristic(
        self,
        h: FakeBluetoothGATTCharacteristic,
        m: CharacteristicModel,
    ) -> StackModel
        recommends
            self.has_characteristic(h),
    {
        StackModel { characteristics: self.characteristics.update(h.index as int, m), ..self }
    }

    /// This stack with one descriptor replaced.
    pub open spec fn with_descriptor(
        self,
        h: FakeBluetoothGATTDescriptor,
        m: DescriptorModel,
    ) -> StackModel
        recommends
            self.has_descriptor(h),
    {
        StackModel { descriptors: self.descriptors.update(h.index as int, m), ..self }
    }

    /// Does every handle of the sequence name a device of this stack?
    pub open spec fn has_devices(self, hs: Seq<FakeBluetoothDevice>) -> bool {
        forall|k: int| 0 <= k < hs.len() ==> self.has_device(#[trigger] hs[k])
    }

    /// Does every handle of the sequence name a service of this stack?
    pub open spec fn has_services(self, hs: Seq<FakeBluetoothGATTService>) -> bool {
        forall|k: int| 0 <= k < hs.len() ==> self.has_service(#[trigger] hs[k])
    }

    /// Does every handle of the sequence name a characteristic of this stack?
    pub open spec fn has_characteristics(self, hs: Seq<FakeBluetoothGATTCharacteristic>) -> bool {
        forall|k: int| 0 <= k < hs.len() ==> self.has_characteristic(#[trigger] hs[k])
    }

    /// Does every handle of the sequence name a descriptor of this stack?
    pub open spec fn has_descriptors(self, hs: Seq<FakeBluetoothGATTDescriptor>) -> bool {
        forall|k: int| 0 <= k < hs.len() ==> self.has_descriptor(#[trigger] hs[k])
    }

    /// The function from a handle to the id of the device that it names.
    pub open spec fn device_id(self) -> spec_fn(FakeBluetoothDevice) -> Seq<char> {
        id_of_device(self.devices)
    }

    /// The ids of the devices that the handles name, in the same order.
    pub open spec fn device_ids(self, hs: Seq<FakeBluetoothDevice>) -> Seq<Seq<char>> {
        ids_of(hs, self.device_id())
    }

    /// The function from a handle to the id of the service that it names.
    pub open spec fn service_id(self) -> spec_fn(FakeBluetoothGATTService) -> Seq<char> {
        id_of_service(self.services)
    }

    /// The ids of the services that the handles name, in the same order.
    pub open spec fn service_ids(self, hs: Seq<FakeBluetoothGATTService>) -> Seq<Seq<char>> {
        ids_of(hs, self.service_id())
    }

    /// The function from a handle to the id of the characteristic that it
    /// names.
    pub open spec fn characteristic_id(
        self,
    ) -> spec_fn(FakeBluetoothGATTCharacteristic) -> Seq<char> {
        id_of_characteristic(self.characteristics)
    }

    /// The ids of the characteristics that the handles name, in the same order.
    pub open spec fn characteristic_ids(
        self,
        hs: Seq<FakeBluetoothGATTCharacteristic>,
    ) -> Seq<Seq<char>> {
        ids_of(hs, self.characteristic_id())
    }

    /// The function from a handle to the id of the descriptor that it names.
    pub open spec fn descriptor_id(self) -> spec_fn(FakeBluetoothGATTDescriptor) -> Seq<char> {
        id_of_descriptor(self.descriptors)
    }

    /// The ids of the descriptors that the handles name, in the same order.
    pub open spec fn descriptor_ids(self, hs: Seq<FakeBluetoothGATTDescriptor>) -> Seq<Seq<char>> {
        ids_of(hs, self.descriptor_id())
    }

    /// The first of the handles whose device has the given id.
    pub open spec fn find_device(
        self,
        hs: Seq<FakeBluetoothDevice>,
        id: Seq<char>,
    ) -> Option<FakeBluetoothDevice> {
        first_with_id(hs, self.device_id(), id)
    }

    /// The first of the handles whose service has the given id.
    pub open spec fn find_service(
        self,
        hs: Seq<FakeBluetoothGATTService>,
        id: Seq<char>,
    ) -> Option<FakeBluetoothGATTService> {
        first_with_id(hs, self.service_id(), id)
    }

    /// The first of the handles whose characteristic has the given id.
    pub open spec fn find_characteristic(
        self,
        hs: Seq<FakeBluetoothGATTCharacteristic>,
        id: Seq<char>,
    ) -> Option<FakeBluetoothGATTCharacteristic> {
        first_with_id(hs, self.characteristic_id(), id)
    }

    /// The first of the handles whose descriptor has the given id.
    pub open spec fn find_descriptor(
        self,
        hs: Seq<FakeBluetoothGATTDescriptor>,
        id: Seq<char>,
    ) -> Option<FakeBluetoothGATTDescriptor> {
        first_with_id(hs, self.descriptor_id(), id)
    }

    /// The handles whose device has another id than the given one, in the
    /// same order.
    pub open spec fn devices_without(
        self,
        hs: Seq<FakeBluetoothDevice>,
        id: Seq<char>,
    ) -> Seq<FakeBluetoothDevice> {
        without_id(hs, self.device_id(), id)
    }

    /// The handles whose service has another id than the given one, in the
    /// same order.
    pub open spec fn services_without(
        self,
        hs: Seq<FakeBluetoothGATTService>,
        id: Seq<char>,
    ) -> Seq<FakeBluetoothGATTService> {
        without_id(hs, self.service_id(), id)
    }

    /// The handles whose characteristic has another id than the given one, in
    /// the same order.
    pub open spec fn characteristics_without(
        self,
        hs: Seq<FakeBluetoothGATTCharacteristic>,
        id: Seq<char>,
    ) -> Seq<FakeBluetoothGATTCharacteristic> {
        without_id(hs, self.characteristic_id(), id)
    }

    /// The handles whose descriptor has another id than the given one, in the
    /// same order.
    pub open spec fn descriptors_without(
        self,
        hs: Seq<FakeBluetoothGATTDescriptor>,
        id: Seq<char>,
    ) -> Seq<FakeBluetoothGATTDescriptor> {
        without_id(hs, self.descriptor_id(), id)
    }

    /// The stack is well formed: every handle that it holds names an entity
    /// of it, and in no list of children do two have the same id.
    pub open spec fn wf(self) -> bool {
        &&& self.handles_exist()
        &&& self.siblings_distinct()
        &&& self.includes_distinct()
    }

    /// Every handle that an entity of the stack holds names an entity of the
    /// stack, and every entity of the stack can be named by a handle.
    pub open spec fn handles_exist(self) -> bool {
        &&& self.adapters.len() <= usize::MAX
        &&& self.devices.len() <= usize::MAX
        &&& self.services.len() <= usize::MAX
        &&& self.characteristics.len() <= usize::MAX
        &&& self.descriptors.len() <= usize::MAX
        &&& forall|i: int|
            0 <= i < self.adapters.len() ==> self.has_devices(#[trigger] self.adapters[i].devices)
        &&& forall|i: int|
            0 <= i < self.devices.len() ==> self.has_adapter((#[trigger] self.devices[i]).adapter)
                && self.has_services(self.devices[i].gatt_services)
        &&& forall|i: int|
            0 <= i < self.services.len() ==> self.has_device((#[trigger] self.services[i]).device)
                && self.has_characteristics(self.services[i].gatt_characteristics)
                && self.has_services(self.services[i].included_services)
        &&& forall|i: int|
            0 <= i < self.characteristics.len() ==> self.has_service(
                (#[trigger] self.characteristics[i]).service,
            ) && self.has_descriptors(self.characteristics[i].gatt_descriptors)
        &&& forall|i: int|
            0 <= i < self.descriptors.len() ==> self.has_characteristic(
                (#[trigger] self.descriptors[i]).characteristic,
            )
    }

    /// Under every parent, no two children have the same id: no two devices
    /// of an adapter, services of a device, characteristics of a service or
    /// descriptors of a characteristic. The services that a service includes
    /// have [`StackModel::includes_distinct`] of their own.
    pub open spec fn siblings_distinct(self) -> bool {
        &&& forall|i: int|
            0 <= i < self.adapters.len() ==> ids_distinct(
                #[trigger] self.adapters[i].devices,
                self.device_id(),
            )
        &&& forall|i: int|
            0 <= i < self.devices.len() ==> ids_distinct(
                #[trigger] self.devices[i].gatt_services,
                self.service_id(),
            )
        &&& forall|i: int|
            0 <= i < self.services.len() ==> ids_distinct(
                #[trigger] self.services[i].gatt_characteristics,
                self.characteristic_id(),
            )
        &&& forall|i: int|
            0 <= i < self.characteristics.len() ==> ids_distinct(
                #[trigger] self.characteristics[i].gatt_descriptors,
                self.descriptor_id(),
            )
    }

    /// No two of the services that a service includes have the same id.
    pub open spec fn includes_distinct(self) -> bool {
        forall|i: int|
            0 <= i < self.services.len() ==> ids_distinct(
                #[trigger] self.services[i].included_services,
                self.service_id(),
            )
    }

    /// Does some adapter list the device, and beside it another device with
    /// the given id?
    pub open spec fn device_id_taken(self, h: FakeBluetoothDevice, id: Seq<char>) -> bool {
        exists|i: int|
            0 <= i < self.adapters.len() && id_taken_beside(
                #[trigger] self.adapters[i].devices,
                self.device_id(),
                h,
                id,
            )
    }

    /// Does some device list the service, or some service include it, and
    /// beside it another service with the given id?
    pub open spec fn service_id_taken(self, h: FakeBluetoothGATTService, id: Seq<char>) -> bool {
        ||| exists|i: int|
            0 <= i < self.devices.len() && id_taken_beside(
                #[trigger] self.devices[i].gatt_services,
                self.service_id(),
                h,
                id,
            )
        ||| exists|i: int|
            0 <= i < self.services.len() && id_taken_beside(
                #[trigger] self.services[i].included_services,
                self.service_id(),
                h,
                id,
            )
    }

    /// Does some service list the characteristic, and beside it another
    /// characteristic with the given id?
    pub open spec fn characteristic_id_taken(
        self,
        h: FakeBluetoothGATTCharacteristic,
        id: Seq<char>,
    ) -> bool {
        exists|i: int|
            0 <= i < self.services.len() && id_taken_beside(
                #[trigger] self.services[i].gatt_characteristics,
                self.characteristic_id(),
                h,
                id,
            )
    }

    /// Does some characteristic list the descriptor, and beside it another
    /// descriptor with the given id?
    pub open spec fn descriptor_id_taken(
        self,
        h: FakeBluetoothGATTDescriptor,
        id: Seq<char>,
    ) -> bool {
        exists|i: int|
            0 <= i < self.characteristics.len() && id_taken_beside(
                #[trigger] self.characteristics[i].gatt_descriptors,
                self.descriptor_id(),
                h,
                id,
            )
    }

    /// Every child stands under the parent that it names: whatever an
    /// adapter, device, service or characteristic lists as its child was
    /// created under it.
    pub open spec fn children_know_parents(self) -> bool {
        &&& forall|i: int, k: int|
            0 <= i < self.adapters.len() && 0 <= k < self.adapters[i].devices.len()
                ==> self.device(#[trigger] self.adapters[i].devices[k]).adapter.index == i
        &&& forall|i: int, k: int|
            0 <= i < self.devices.len() && 0 <= k < self.devices[i].gatt_services.len()
                ==> self.service(#[trigger] self.devices[i].gatt_services[k]).device.index == i
        &&& forall|i: int, k: int|
            0 <= i < self.services.len() && 0 <= k < self.services[i].gatt_characteristics.len()
                ==> self.characteristic(
                #[trigger] self.services[i].gatt_characteristics[k],
            ).service.index == i
        &&& forall|i: int, k: int|
            0 <= i < self.characteristics.len() && 0 <= k
                < self.characteristics[i].gatt_descriptors.len() ==> self.descriptor(
                #[trigger] self.characteristics[i].gatt_descriptors[k],
            ).characteristic.index == i
    }

    /// Every handle that names an entity of `self` names one of `later` too.
    pub open spec fn grows_to(self, later: StackModel) -> bool {
        &&& self.adapters.len() <= later.adapters.len()
        &&& self.devices.len() <= later.devices.len()
        &&& self.services.len() <= later.services.len()
        &&& self.characteristics.len() <= later.characteristics.len()
        &&& self.descriptors.len() <= later.descriptors.len()
    }
    /// This stack after every device with the given id was taken out of the
    /// devices of an adapter.
    pub open spec fn remove_device(self, h: FakeBluetoothAdapter, id: Seq<char>) -> StackModel
        recommends
            self.has_adapter(h),
    {
        self.with_adapter(
            h,
            AdapterModel {
                devices: self.devices_without(self.adapter(h).devices, id),
                ..self.adapter(h)
            },
        )
    }

    /// This stack after every service with the given id was taken out of the
    /// services of a device.
    pub open spec fn remove_service(self, h: FakeBluetoothDevice, id: Seq<char>) -> StackModel
        recommends
            self.has_device(h),
    {
        self.with_device(
            h,
            DeviceModel {
                gatt_services: self.services_without(self.device(h).gatt_services, id),
                ..self.device(h)
            },
        )
    }

    /// This stack after every characteristic with the given id was taken out of
    /// the characteristics of a service.
    pub open spec fn remove_characteristic(
        self,
        h: FakeBluetoothGATTService,
        id: Seq<char>,
    ) -> StackModel
        recommends
            self.has_service(h),
    {
        self.with_service(
            h,
            ServiceModel {
                gatt_characteristics: self.characteristics_without(
                    self.service(h).gatt_characteristics,
                    id,
                ),
                ..self.service(h)
            },
        )
    }

    /// This stack after every service with the given id was taken out of the
    /// services that a service includes.
    pub open spec fn remove_included_service(
        self,
        h: FakeBluetoothGATTService,
        id: Seq<char>,
    ) -> StackModel
        recommends
            self.has_service(h),
    {
        self.with_service(
            h,
            ServiceModel {
                included_services: self.services_without(self.service(h).included_services, id),
                ..self.service(h)
            },
        )
    }

    /// This stack after every descriptor with the given id was taken out of the
    /// descriptors of a characteristic.
    pub open spec fn remove_descriptor(
        self,
        h: FakeBluetoothGATTCharacteristic,
        id: Seq<char>,
    ) -> StackModel
        recommends
            self.has_characteristic(h),
    {
        self.with_characteristic(
            h,
            CharacteristicModel {
                gatt_descriptors: self.descriptors_without(
                    self.characteristic(h).gatt_descriptors,
                    id,
                ),
                ..self.characteristic(h)
            },
        )
    }

    /// What giving a device another id gives: the stack afterwards and the
    /// outcome. Nothing changes, and the outcome is a failure, where the
    /// device does not exist, and where a list that holds it holds another
    /// device with that id.
    pub open spec fn rename_device(self, h: FakeBluetoothDevice, id: Seq<char>) -> (
        StackModel,
        Result<(), BluetoothError>,
    ) {
        if !self.has_device(h) {
            (self, Err(BluetoothError::ValueUnavailable))
        } else if self.device_id_taken(h, id) {
            (self, Err(BluetoothError::DuplicateId))
        } else {
            (self.with_device(h, DeviceModel { id, ..self.device(h) }), Ok(()))
        }
    }

    /// What giving a service another id gives: the stack afterwards and the
    /// outcome. Nothing changes, and the outcome is a failure, where the
    /// service does not exist, and where a list that holds it holds another
    /// service with that id.
    pub open spec fn rename_service(self, h: FakeBluetoothGATTService, id: Seq<char>) -> (
        StackModel,
        Result<(), BluetoothError>,
    ) {
        if !self.has_service(h) {
            (self, Err(BluetoothError::ValueUnavailable))
        } else if self.service_id_taken(h, id) {
            (self, Err(BluetoothError::DuplicateId))
        } else {
            (self.with_service(h, ServiceModel { id, ..self.service(h) }), Ok(()))
        }
    }

    /// What giving a characteristic another id gives: the stack afterwards and
    /// the outcome. Nothing changes, and the outcome is a failure, where the
    /// characteristic does not exist, and where a list that holds it holds
    /// another characteristic with that id.
    pub open spec fn rename_characteristic(
        self,
        h: FakeBluetoothGATTCharacteristic,
        id: Seq<char>,
    ) -> (
        StackModel,
        Result<(), BluetoothError>,
    ) {
        if !self.has_characteristic(h) {
            (self, Err(BluetoothError::ValueUnavailable))
        } else if self.characteristic_id_taken(h, id) {
            (self, Err(BluetoothError::DuplicateId))
        } else {
            (
                self.with_characteristic(h, CharacteristicModel { id, ..self.characteristic(h) }),
                Ok(()),
            )
        }
    }

    /// What giving a descriptor another id gives: the stack afterwards and the
    /// outcome. Nothing changes, and the outcome is a failure, where the
    /// descriptor does not exist, and where a list that holds it holds another
    /// descriptor with that id.
    pub open spec fn rename_descriptor(self, h: FakeBluetoothGATTDescriptor, id: Seq<char>) -> (
        StackModel,
        Result<(), BluetoothError>,
    ) {
        if !self.has_descriptor(h) {
            (self, Err(BluetoothError::ValueUnavailable))
        } else if self.descriptor_id_taken(h, id) {
            (self, Err(BluetoothError::DuplicateId))
        } else {
            (self.with_descriptor(h, DescriptorModel { id, ..self.descriptor(h) }), Ok(()))
        }
    }

    /// What adding a device to the devices of an adapter gives: the
    /// stack afterwards and the outcome. Nothing changes, and the outcome is
    /// a failure, where one of the two does not exist, and where the list
    /// already holds a device with the id of the one to add, be it that
    /// very device. Else the device is added at the end of the list.
    pub open spec fn add_device(self, h: FakeBluetoothAdapter, child: FakeBluetoothDevice) -> (
        StackModel,
        Result<(), BluetoothError>,
    ) {
        if !self.has_adapter(h) || !self.has_device(child) {
            (self, Err(BluetoothError::ValueUnavailable))
        } else if self.find_device(self.adapter(h).devices, self.device(child).id) is Some {
            (self, Err(BluetoothError::DuplicateId))
        } else {
            (
                self.with_adapter(
                    h,
                    AdapterModel {
                        devices: self.adapter(h).devices.push(child),
                        ..self.adapter(h)
                    },
                ),
                Ok(()),
            )
        }
    }

    /// What adding a service to the services of a device gives: the
    /// stack afterwards and the outcome. Nothing changes, and the outcome is
    /// a failure, where one of the two does not exist, and where the list
    /// already holds a service with the id of the one to add, be it that
    /// very service. Else the service is added at the end of the list.
    pub open spec fn add_service(self, h: FakeBluetoothDevice, child: FakeBluetoothGATTService) -> (
        StackModel,
        Result<(), BluetoothError>,
    ) {
        if !self.has_device(h) || !self.has_service(child) {
            (self, Err(BluetoothError::ValueUnavailable))
        } else if self.find_service(self.device(h).gatt_services, self.service(child).id) is Some {
            (self, Err(BluetoothError::DuplicateId))
        } else {
            (
                self.with_device(
                    h,
                    DeviceModel {
                        gatt_services: self.device(h).gatt_services.push(child),
                        ..self.device(h)
                    },
                ),
                Ok(()),
            )
        }
    }

    /// What adding a characteristic to the characteristics of a service gives:
    /// the stack afterwards and the outcome. Nothing changes, and the outcome
    /// is a failure, where one of the two does not exist, and where the list
    /// already holds a characteristic with the id of the one to add, be it that
    /// very characteristic. Else the characteristic is added at the end of the
    /// list.
    pub open spec fn add_characteristic(
        self,
        h: FakeBluetoothGATTService,
        child: FakeBluetoothGATTCharacteristic,
    ) -> (
        StackModel,
        Result<(), BluetoothError>,
    ) {
        if !self.has_service(h) || !self.has_characteristic(child) {
            (self, Err(BluetoothError::ValueUnavailable))
        } else if self.find_characteristic(self.service(
            h
        ).gatt_characteristics, self.characteristic(child).id) is Some {
            (self, Err(BluetoothError::DuplicateId))
        } else {
            (
                self.with_service(
                    h,
                    ServiceModel {
                        gatt_characteristics: self.service(h).gatt_characteristics.push(child),
                        ..self.service(h)
                    },
                ),
                Ok(()),
            )
        }
    }

    /// What adding a service to the services that a service includes gives: the
    /// stack afterwards and the outcome. Nothing changes, and the outcome is
    /// a failure, where one of the two does not exist, and where the list
    /// already holds a service with the id of the one to add, be it that
    /// very service. Else the service is added at the end of the list.
    pub open spec fn add_included_service(
        self,
        h: FakeBluetoothGATTService,
        child: FakeBluetoothGATTService,
    ) -> (
        StackModel,
        Result<(), BluetoothError>,
    ) {
        if !self.has_service(h) || !self.has_service(child) {
            (self, Err(BluetoothError::ValueUnavailable))
        } else if self.find_service(
            self.service(h).included_services,
            self.service(child).id,
        ) is Some {
            (self, Err(BluetoothError::DuplicateId))
        } else {
            (
                self.with_service(
                    h,
                    ServiceModel {
                        included_services: self.service(h).included_services.push(child),
                        ..self.service(h)
                    },
                ),
                Ok(()),
            )
        }
    }

    /// What adding a descriptor to the descriptors of a characteristic gives:
    /// the stack afterwards and the outcome. Nothing changes, and the outcome
    /// is a failure, where one of the two does not exist, and where the list
    /// already holds a descriptor with the id of the one to add, be it that
    /// very descriptor. Else the descriptor is added at the end of the list.
    pub open spec fn add_descriptor(
        self,
        h: FakeBluetoothGATTCharacteristic,
        child: FakeBluetoothGATTDescriptor,
    ) -> (
        StackModel,
        Result<(), BluetoothError>,
    ) {
        if !self.has_characteristic(h) || !self.has_descriptor(child) {
            (self, Err(BluetoothError::ValueUnavailable))
        } else if self.find_descriptor(
            self.characteristic(h).gatt_descriptors,
            self.descriptor(child).id,
        ) is Some {
            (self, Err(BluetoothError::DuplicateId))
        } else {
            (
                self.with_characteristic(
                    h,
                    CharacteristicModel {
                        gatt_descriptors: self.characteristic(h).gatt_descriptors.push(child),
                        ..self.characteristic(h)
                    },
                ),
                Ok(()),
            )
        }
    }

    /// The handle that the next adapter created in this stack gets.
    pub open spec fn next_adapter(self) -> FakeBluetoothAdapter {
        FakeBluetoothAdapter { index: self.adapters.len() as usize }
    }

    /// The handle that the next device created in this stack gets.
    pub open spec fn next_device(self) -> FakeBluetoothDevice {
        FakeBluetoothDevice { index: self.devices.len() as usize }
    }

    /// The handle that the next service created in this stack gets.
    pub open spec fn next_service(self) -> FakeBluetoothGATTService {
        FakeBluetoothGATTService { index: self.services.len() as usize }
    }

    /// The handle that the next characteristic created in this stack gets.
    pub open spec fn next_characteristic(self) -> FakeBluetoothGATTCharacteristic {
        FakeBluetoothGATTCharacteristic { index: self.characteristics.len() as usize }
    }

    /// The handle that the next descriptor created in this stack gets.
    pub open spec fn next_descriptor(self) -> FakeBluetoothGATTDescriptor {
        FakeBluetoothGATTDescriptor { index: self.descriptors.len() as usize }
    }

    /// This stack with a new adapter at the end of the adapters.
    pub open spec fn insert_adapter(self, init: AdapterModel) -> StackModel {
        StackModel { adapters: self.adapters.push(init), ..self }
    }

    /// This stack with a new device: at the end of the devices, and at the
    /// end of the devices of its adapter.
    pub open spec fn insert_device(self, init: DeviceModel) -> StackModel
        recommends
            self.has_adapter(init.adapter),
    {
        let parent = self.adapter(init.adapter);
        StackModel {
            adapters: self.adapters.update(
                init.adapter.index as int,
                AdapterModel { devices: parent.devices.push(self.next_device()), ..parent },
            ),
            devices: self.devices.push(init),
            ..self
        }
    }

    /// This stack with a new service: at the end of the services, and at the
    /// end of the services of its device.
    pub open spec fn insert_service(self, init: ServiceModel) -> StackModel
        recommends
            self.has_device(init.device),
    {
        let parent = self.device(init.device);
        StackModel {
            devices: self.devices.update(
                init.device.index as int,
                DeviceModel {
                    gatt_services: parent.gatt_services.push(self.next_service()),
                    ..parent
                },
            ),
            services: self.services.push(init),
            ..self
        }
    }

    /// This stack with a new characteristic: at the end of the
    /// characteristics, and at the end of the characteristics of its service.
    pub open spec fn insert_characteristic(self, init: CharacteristicModel) -> StackModel
        recommends
            self.has_service(init.service),
    {
        let parent = self.service(init.service);
        StackModel {
            services: self.services.update(
                init.service.index as int,
                ServiceModel {
                    gatt_characteristics: parent.gatt_characteristics.push(
                        self.next_characteristic(),
                    ),
                    ..parent
                },
            ),
            characteristics: self.characteristics.push(init),
            ..self
        }
    }

    /// This stack with a new descriptor: at the end of the descriptors, and
    /// at the end of the descriptors of its characteristic.
    pub open spec fn insert_descriptor(self, init: DescriptorModel) -> StackModel
        recommends
            self.has_characteristic(init.characteristic),
    {
        let parent = self.characteristic(init.characteristic);
        StackModel {
            characteristics: self.characteristics.update(
                init.characteristic.index as int,
                CharacteristicModel {
                    gatt_descriptors: parent.gatt_descriptors.push(self.next_descriptor()),
                    ..parent
                },
            ),
            descriptors: self.descriptors.push(init),
            ..self
        }
    }

    /// What creating an adapter gives: the stack afterwards and the outcome.
    /// The adapter is created unless one of its devices does not exist, or
    /// two of them have the same id.
    pub open spec fn create_adapter(self, init: AdapterModel) -> (
        StackModel,
        Result<FakeBluetoothAdapter, BluetoothError>,
    ) {
        if !self.has_devices(init.devices) {
            (self, Err(BluetoothError::ValueUnavailable))
        } else if !ids_distinct(init.devices, self.device_id()) {
            (self, Err(BluetoothError::DuplicateId))
        } else {
            (self.insert_adapter(init), Ok(self.next_adapter()))
        }
    }

    /// What creating a device gives: the stack afterwards and the outcome.
    /// Where the adapter already holds a device with that id, the first such
    /// device is the outcome and nothing changes. Else the device is created,
    /// unless one of its services does not exist, or two of them have the
    /// same id.
    pub open spec fn create_device(self, init: DeviceModel) -> (
        StackModel,
        Result<FakeBluetoothDevice, BluetoothError>,
    ) {
        if !self.has_adapter(init.adapter) {
            (self, Err(BluetoothError::ValueUnavailable))
        } else {
            match self.find_device(self.adapter(init.adapter).devices, init.id) {
                Some(existing) => (self, Ok(existing)),
                None => if !self.has_services(init.gatt_services) {
                    (self, Err(BluetoothError::ValueUnavailable))
                } else if !ids_distinct(init.gatt_services, self.service_id()) {
                    (self, Err(BluetoothError::DuplicateId))
                } else {
                    (self.insert_device(init), Ok(self.next_device()))
                },
            }
        }
    }

    /// What creating a service gives: the stack afterwards and the outcome.
    /// Where the device already holds a service with that id, the first such
    /// service is the outcome and nothing changes. Else the service is
    /// created, unless one of its characteristics or included services does
    /// not exist, or two in one of these lists have the same id.
    pub open spec fn create_service(self, init: ServiceModel) -> (
        StackModel,
        Result<FakeBluetoothGATTService, BluetoothError>,
    ) {
        if !self.has_device(init.device) {
            (self, Err(BluetoothError::ValueUnavailable))
        } else {
            match self.find_service(self.device(init.device).gatt_services, init.id) {
                Some(existing) => (self, Ok(existing)),
                None => if !self.has_characteristics(init.gatt_characteristics)
                    || !self.has_services(init.included_services) {
                    (self, Err(BluetoothError::ValueUnavailable))
                } else if !ids_distinct(init.gatt_characteristics, self.characteristic_id())
                    || !ids_distinct(init.included_services, self.service_id()) {
                    (self, Err(BluetoothError::DuplicateId))
                } else {
                    (self.insert_service(init), Ok(self.next_service()))
                },
            }
        }
    }

    /// What creating a characteristic gives: the stack afterwards and the
    /// outcome. Where the service already holds a characteristic with that
    /// id, the first such characteristic is the outcome and nothing changes.
    /// Else the characteristic is created, unless one of its descriptors does
    /// not exist, or two of them have the same id.
    pub open spec fn create_characteristic(self, init: CharacteristicModel) -> (
        StackModel,
        Result<FakeBluetoothGATTCharacteristic, BluetoothError>,
    ) {
        if !self.has_service(init.service) {
            (self, Err(BluetoothError::ValueUnavailable))
        } else {
            match self.find_characteristic(
                self.service(init.service).gatt_characteristics,
                init.id,
            ) {
                Some(existing) => (self, Ok(existing)),
                None => if !self.has_descriptors(init.gatt_descriptors) {
                    (self, Err(BluetoothError::ValueUnavailable))
                } else if !ids_distinct(init.gatt_descriptors, self.descriptor_id()) {
                    (self, Err(BluetoothError::DuplicateId))
                } else {
                    (self.insert_characteristic(init), Ok(self.next_characteristic()))
                },
            }
        }
    }

    /// What creating a descriptor gives: the stack afterwards and the
    /// outcome. Where the characteristic already holds a descriptor with that
    /// id, the first such descriptor is the outcome and nothing changes. Else
    /// the descriptor is created.
    pub open spec fn create_descriptor(self, init: DescriptorModel) -> (
        StackModel,
        Result<FakeBluetoothGATTDescriptor, BluetoothError>,
    ) {
        if !self.has_characteristic(init.characteristic) {
            (self, Err(BluetoothError::ValueUnavailable))
        } else {
            match self.find_descriptor(
                self.characteristic(init.characteristic).gatt_descriptors,
                init.id,
            ) {
                Some(existing) => (self, Ok(existing)),
                None => (self.insert_descriptor(init), Ok(self.next_descriptor())),
            }
        }
    }

    /// Replacing an adapter by one whose devices exist keeps every handle of
    /// the stack in place.
    proof fn lemma_with_adapter_handles(self, h: FakeBluetoothAdapter, m: AdapterModel)
        requires
            self.handles_exist(),
            self.has_adapter(h),
            self.has_devices(m.devices),
        ensures
            self.with_adapter(h, m).handles_exist(),
    {
        let later = self.with_adapter(h, m);
        assert forall|i: int| 0 <= i < later.adapters.len() implies later.has_devices(
            #[trigger] later.adapters[i].devices,
        ) by {
            if i != h.index {
                assert(self.has_devices(self.adapters[i].devices));
            }
        }
    }

    /// Replacing a device by one whose adapter and services exist keeps
    /// every handle of the stack in place.
    proof fn lemma_with_device_handles(self, h: FakeBluetoothDevice, m: DeviceModel)
        requires
            self.handles_exist(),
            self.has_device(h),
            self.has_adapter(m.adapter),
            self.has_services(m.gatt_services),
        ensures
            self.with_device(h, m).handles_exist(),
    {
        let later = self.with_device(h, m);
        assert forall|i: int| 0 <= i < later.adapters.len() implies later.has_devices(
            #[trigger] later.adapters[i].devices,
        ) by {
            assert(self.has_devices(self.adapters[i].devices));
        }
        assert forall|i: int| 0 <= i < later.services.len() implies later.has_device(
            (#[trigger] later.services[i]).device,
        ) by {
            assert(self.has_device(self.services[i].device));
        }
    }

    /// Replacing a service by one whose device, characteristics and included
    /// services exist keeps every handle of the stack in place.
    proof fn lemma_with_service_handles(self, h: FakeBluetoothGATTService, m: ServiceModel)
        requires
            self.handles_exist(),
            self.has_service(h),
            self.has_device(m.device),
            self.has_characteristics(m.gatt_characteristics),
            self.has_services(m.included_services),
        ensures
            self.with_service(h, m).handles_exist(),
    {
        let later = self.with_service(h, m);
        assert forall|i: int| 0 <= i < later.devices.len() implies later.has_adapter(
            (#[trigger] later.devices[i]).adapter,
        ) && later.has_services(later.devices[i].gatt_services) by {
            assert(self.has_services(self.devices[i].gatt_services));
        }
        assert forall|i: int| 0 <= i < later.services.len() implies later.has_device(
            (#[trigger] later.services[i]).device,
        ) && later.has_characteristics(later.services[i].gatt_characteristics)
            && later.has_services(later.services[i].included_services) by {
            if i != h.index {
                assert(self.has_services(self.services[i].included_services));
                assert(self.has_characteristics(self.services[i].gatt_characteristics));
            }
        }
        assert forall|i: int| 0 <= i < later.characteristics.len() implies later.has_service(
            (#[trigger] later.characteristics[i]).service,
        ) && later.has_descriptors(later.characteristics[i].gatt_descriptors) by {
            assert(self.has_service(self.characteristics[i].service));
        }
    }

    /// Replacing a characteristic by one whose service and descriptors exist
    /// keeps every handle of the stack in place.
    proof fn lemma_with_characteristic_handles(
        self,
        h: FakeBluetoothGATTCharacteristic,
        m: CharacteristicModel,
    )
        requires
            self.handles_exist(),
            self.has_characteristic(h),
            self.has_service(m.service),
            self.has_descriptors(m.gatt_descriptors),
        ensures
            self.with_characteristic(h, m).handles_exist(),
    {
        let later = self.with_characteristic(h, m);
        assert forall|i: int| 0 <= i < later.services.len() implies later.has_device(
            (#[trigger] later.services[i]).device,
        ) && later.has_characteristics(later.services[i].gatt_characteristics)
            && later.has_services(later.services[i].included_services) by {
            assert(self.has_characteristics(self.services[i].gatt_characteristics));
        }
        assert forall|i: int| 0 <= i < later.descriptors.len() implies later.has_characteristic(
            (#[trigger] later.descriptors[i]).characteristic,
        ) by {
            assert(self.has_characteristic(self.descriptors[i].characteristic));
        }
    }

    /// Replacing a descriptor by one whose characteristic exists keeps
    /// every handle of the stack in place.
    proof fn lemma_with_descriptor_handles(self, h: FakeBluetoothGATTDescriptor, m: DescriptorModel)
        requires
            self.handles_exist(),
            self.has_descriptor(h),
            self.has_characteristic(m.characteristic),
        ensures
            self.with_descriptor(h, m).handles_exist(),
    {
        let later = self.with_descriptor(h, m);
        assert forall|i: int| 0 <= i < later.characteristics.len() implies later.has_service(
            (#[trigger] later.characteristics[i]).service,
        ) && later.has_descriptors(later.characteristics[i].gatt_descriptors) by {
            assert(self.has_descriptors(self.characteristics[i].gatt_descriptors));
        }
    }
    /// Creating an adapter whose devices exist keeps every handle of the stack
    /// in place.
    proof fn lemma_insert_adapter_handles(self, init: AdapterModel)
        requires
            self.handles_exist(),
            self.has_devices(init.devices),
            self.adapters.len() < usize::MAX,
        ensures
            self.insert_adapter(init).handles_exist(),
    {
        let later = self.insert_adapter(init);
        assert forall|i: int| 0 <= i < later.adapters.len() implies later.has_devices(
            #[trigger] later.adapters[i].devices,
        ) by {
            if i < self.adapters.len() {
                assert(self.has_devices(self.adapters[i].devices));
            }
        }
    }

    /// Creating a device whose adapter and services exist keeps every handle
    /// of the stack in place.
    proof fn lemma_insert_device_handles(self, init: DeviceModel)
        requires
            self.handles_exist(),
            self.has_adapter(init.adapter),
            self.has_services(init.gatt_services),
            self.devices.len() < usize::MAX,
        ensures
            self.insert_device(init).handles_exist(),
    {
        let later = self.insert_device(init);
        assert forall|i: int| 0 <= i < later.adapters.len() implies later.has_devices(
            #[trigger] later.adapters[i].devices,
        ) by {
            assert(self.has_devices(self.adapters[i].devices));
        }
        assert forall|i: int| 0 <= i < later.devices.len() implies later.has_adapter(
            (#[trigger] later.devices[i]).adapter,
        ) && later.has_services(later.devices[i].gatt_services) by {
            if i < self.devices.len() {
                assert(self.has_services(self.devices[i].gatt_services));
            }
        }
        assert forall|i: int| 0 <= i < later.services.len() implies later.has_device(
            (#[trigger] later.services[i]).device,
        ) by {
            assert(self.has_device(self.services[i].device));
        }
    }

    /// Creating a service whose device, characteristics and included services
    /// exist keeps every handle of the stack in place.
    proof fn lemma_insert_service_handles(self, init: ServiceModel)
        requires
            self.handles_exist(),
            self.has_device(init.device),
            self.has_characteristics(init.gatt_characteristics),
            self.has_services(init.included_services),
            self.services.len() < usize::MAX,
        ensures
            self.insert_service(init).handles_exist(),
    {
        let later = self.insert_service(init);
        assert forall|i: int| 0 <= i < later.devices.len() implies later.has_adapter(
            (#[trigger] later.devices[i]).adapter,
        ) && later.has_services(later.devices[i].gatt_services) by {
            assert(self.has_services(self.devices[i].gatt_services));
        }
        assert forall|i: int| 0 <= i < later.services.len() implies later.has_device(
            (#[trigger] later.services[i]).device,
        ) && later.has_characteristics(later.services[i].gatt_characteristics)
            && later.has_services(later.services[i].included_services) by {
            if i < self.services.len() {
                assert(self.has_services(self.services[i].included_services));
                assert(self.has_characteristics(self.services[i].gatt_characteristics));
            }
        }
        assert forall|i: int| 0 <= i < later.characteristics.len() implies later.has_service(
            (#[trigger] later.characteristics[i]).service,
        ) && later.has_descriptors(later.characteristics[i].gatt_descriptors) by {
            assert(self.has_service(self.characteristics[i].service));
        }
    }

    /// Creating a characteristic whose service and descriptors exist keeps
    /// every handle of the stack in place.
    proof fn lemma_insert_characteristic_handles(self, init: CharacteristicModel)
        requires
            self.handles_exist(),
            self.has_service(init.service),
            self.has_descriptors(init.gatt_descriptors),
            self.characteristics.len() < usize::MAX,
        ensures
            self.insert_characteristic(init).handles_exist(),
    {
        let later = self.insert_characteristic(init);
        assert forall|i: int| 0 <= i < later.services.len() implies later.has_device(
            (#[trigger] later.services[i]).device,
        ) && later.has_characteristics(later.services[i].gatt_characteristics)
            && later.has_services(later.services[i].included_services) by {
            assert(self.has_characteristics(self.services[i].gatt_characteristics));
            assert(self.has_services(self.services[i].included_services));
        }
        assert forall|i: int| 0 <= i < later.characteristics.len() implies later.has_service(
            (#[trigger] later.characteristics[i]).service,
        ) && later.has_descriptors(later.characteristics[i].gatt_descriptors) by {
            if i < self.characteristics.len() {
                assert(self.has_descriptors(self.characteristics[i].gatt_descriptors));
            }
        }
        assert forall|i: int| 0 <= i < later.descriptors.len() implies later.has_characteristic(
            (#[trigger] later.descriptors[i]).characteristic,
        ) by {
            assert(self.has_characteristic(self.descriptors[i].characteristic));
        }
    }

    /// Creating a descriptor whose characteristic exists keeps every handle of
    /// the stack in place.
    proof fn lemma_insert_descriptor_handles(self, init: DescriptorModel)
        requires
            self.handles_exist(),
            self.has_characteristic(init.characteristic),
            self.descriptors.len() < usize::MAX,
        ensures
            self.insert_descriptor(init).handles_exist(),
    {
        let later = self.insert_descriptor(init);
        assert forall|i: int| 0 <= i < later.characteristics.len() implies later.has_service(
            (#[trigger] later.characteristics[i]).service,
        ) && later.has_descriptors(later.characteristics[i].gatt_descriptors) by {
            assert(self.has_descriptors(self.characteristics[i].gatt_descriptors));
        }
    }
    /// What removing an id keeps of existing devices are existing devices.
    pub proof fn lemma_devices_without(self, hs: Seq<FakeBluetoothDevice>, id: Seq<char>)
        requires
            self.has_devices(hs),
        ensures
            self.has_devices(self.devices_without(hs, id)),
    {
        lemma_without_id_members(hs, self.device_id(), id);
        let kept = self.devices_without(hs, id);
        assert forall|k: int| 0 <= k < kept.len() implies self.has_device(#[trigger] kept[k]) by {
            assert(hs.contains(kept[k]));
        }
    }

    /// What removing an id keeps of existing services are existing services.
    pub proof fn lemma_services_without(self, hs: Seq<FakeBluetoothGATTService>, id: Seq<char>)
        requires
            self.has_services(hs),
        ensures
            self.has_services(self.services_without(hs, id)),
    {
        lemma_without_id_members(hs, self.service_id(), id);
        let kept = self.services_without(hs, id);
        assert forall|k: int| 0 <= k < kept.len() implies self.has_service(#[trigger] kept[k]) by {
            assert(hs.contains(kept[k]));
        }
    }

    /// What removing an id keeps of existing characteristics are existing
    /// characteristics.
    pub proof fn lemma_characteristics_without(
        self,
        hs: Seq<FakeBluetoothGATTCharacteristic>,
        id: Seq<char>,
    )
        requires
            self.has_characteristics(hs),
        ensures
            self.has_characteristics(self.characteristics_without(hs, id)),
    {
        lemma_without_id_members(hs, self.characteristic_id(), id);
        let kept = self.characteristics_without(hs, id);
        assert forall|k: int| 0 <= k < kept.len() implies self.has_characteristic(
            #[trigger] kept[k],
        ) by {
            assert(hs.contains(kept[k]));
        }
    }

    /// What removing an id keeps of existing descriptors are existing
    /// descriptors.
    pub proof fn lemma_descriptors_without(
        self,
        hs: Seq<FakeBluetoothGATTDescriptor>,
        id: Seq<char>,
    )
        requires
            self.has_descriptors(hs),
        ensures
            self.has_descriptors(self.descriptors_without(hs, id)),
    {
        lemma_without_id_members(hs, self.descriptor_id(), id);
        let kept = self.descriptors_without(hs, id);
        assert forall|k: int| 0 <= k < kept.len() implies self.has_descriptor(
            #[trigger] kept[k],
        ) by {
            assert(hs.contains(kept[k]));
        }
    }
    /// Where every device keeps its id, a list of the devices of an adapter
    /// that stays as it was keeps its ids distinct.
    proof fn lemma_device_lists_frame(self, later: StackModel)
        requires
            self.handles_exist(),
            self.siblings_distinct(),
            self.devices.len() <= later.devices.len(),
            forall|j: int|
                0 <= j < self.devices.len() ==> (#[trigger] later.devices[j]).id
                    == self.devices[j].id,
        ensures
            forall|i: int|
                0 <= i < self.adapters.len() && i < later.adapters.len()
                    && later.adapters[i].devices == self.adapters[i].devices ==> ids_distinct(
                    #[trigger] later.adapters[i].devices,
                    later.device_id(),
                ),
    {
        assert forall|i: int|
            0 <= i < self.adapters.len() && i < later.adapters.len()
                && later.adapters[i].devices == self.adapters[i].devices implies ids_distinct(
            #[trigger] later.adapters[i].devices,
            later.device_id(),
        ) by {
            let listed = self.adapters[i].devices;
            assert(self.has_devices(listed));
            assert forall|k: int| 0 <= k < listed.len() implies (self.device_id())(
                #[trigger] listed[k],
            ) == (later.device_id())(listed[k]) by {
                assert(self.has_device(listed[k]));
            }
            lemma_ids_distinct_agrees(listed, self.device_id(), later.device_id());
        }
    }

    /// Where every service keeps its id, a list of the services of a device
    /// that stays as it was keeps its ids distinct.
    proof fn lemma_service_lists_frame(self, later: StackModel)
        requires
            self.handles_exist(),
            self.siblings_distinct(),
            self.services.len() <= later.services.len(),
            forall|j: int|
                0 <= j < self.services.len() ==> (#[trigger] later.services[j]).id
                    == self.services[j].id,
        ensures
            forall|i: int|
                0 <= i < self.devices.len() && i < later.devices.len()
                    && later.devices[i].gatt_services == self.devices[i].gatt_services
                        ==> ids_distinct(
                    #[trigger] later.devices[i].gatt_services,
                    later.service_id(),
                ),
    {
        assert forall|i: int|
            0 <= i < self.devices.len() && i < later.devices.len()
                && later.devices[i].gatt_services
                    == self.devices[i].gatt_services implies ids_distinct(
            #[trigger] later.devices[i].gatt_services,
            later.service_id(),
        ) by {
            let listed = self.devices[i].gatt_services;
            assert(self.has_services(listed));
            assert forall|k: int| 0 <= k < listed.len() implies (self.service_id())(
                #[trigger] listed[k],
            ) == (later.service_id())(listed[k]) by {
                assert(self.has_service(listed[k]));
            }
            lemma_ids_distinct_agrees(listed, self.service_id(), later.service_id());
        }
    }

    /// Where every characteristic keeps its id, a list of the characteristics
    /// of a service that stays as it was keeps its ids distinct.
    proof fn lemma_characteristic_lists_frame(self, later: StackModel)
        requires
            self.handles_exist(),
            self.siblings_distinct(),
            self.characteristics.len() <= later.characteristics.len(),
            forall|j: int|
                0 <= j < self.characteristics.len() ==> (#[trigger] later.characteristics[j]).id
                    == self.characteristics[j].id,
        ensures
            forall|i: int|
                0 <= i < self.services.len() && i < later.services.len()
                    && later.services[i].gatt_characteristics
                        == self.services[i].gatt_characteristics ==> ids_distinct(
                    #[trigger] later.services[i].gatt_characteristics,
                    later.characteristic_id(),
                ),
    {
        assert forall|i: int|
            0 <= i < self.services.len() && i < later.services.len()
                && later.services[i].gatt_characteristics
                    == self.services[i].gatt_characteristics implies ids_distinct(
            #[trigger] later.services[i].gatt_characteristics,
            later.characteristic_id(),
        ) by {
            let listed = self.services[i].gatt_characteristics;
            assert(self.has_characteristics(listed));
            assert forall|k: int| 0 <= k < listed.len() implies (self.characteristic_id())(
                #[trigger] listed[k],
            ) == (later.characteristic_id())(listed[k]) by {
                assert(self.has_characteristic(listed[k]));
            }
            lemma_ids_distinct_agrees(listed, self.characteristic_id(), later.characteristic_id());
        }
    }

    /// Where every service keeps its id, a list of the services that a service
    /// includes that stays as it was keeps its ids distinct.
    proof fn lemma_included_lists_frame(self, later: StackModel)
        requires
            self.handles_exist(),
            self.includes_distinct(),
            self.services.len() <= later.services.len(),
            forall|j: int|
                0 <= j < self.services.len() ==> (#[trigger] later.services[j]).id
                    == self.services[j].id,
        ensures
            forall|i: int|
                0 <= i < self.services.len() && i < later.services.len()
                    && later.services[i].included_services == self.services[i].included_services
                        ==> ids_distinct(
                    #[trigger] later.services[i].included_services,
                    later.service_id(),
                ),
    {
        assert forall|i: int|
            0 <= i < self.services.len() && i < later.services.len()
                && later.services[i].included_services
                    == self.services[i].included_services implies ids_distinct(
            #[trigger] later.services[i].included_services,
            later.service_id(),
        ) by {
            let listed = self.services[i].included_services;
            assert(self.has_services(listed));
            assert forall|k: int| 0 <= k < listed.len() implies (self.service_id())(
                #[trigger] listed[k],
            ) == (later.service_id())(listed[k]) by {
                assert(self.has_service(listed[k]));
            }
            lemma_ids_distinct_agrees(listed, self.service_id(), later.service_id());
        }
    }

    /// Where every descriptor keeps its id, a list of the descriptors of a
    /// characteristic that stays as it was keeps its ids distinct.
    proof fn lemma_descriptor_lists_frame(self, later: StackModel)
        requires
            self.handles_exist(),
            self.siblings_distinct(),
            self.descriptors.len() <= later.descriptors.len(),
            forall|j: int|
                0 <= j < self.descriptors.len() ==> (#[trigger] later.descriptors[j]).id
                    == self.descriptors[j].id,
        ensures
            forall|i: int|
                0 <= i < self.characteristics.len() && i < later.characteristics.len()
                    && later.characteristics[i].gatt_descriptors
                        == self.characteristics[i].gatt_descriptors ==> ids_distinct(
                    #[trigger] later.characteristics[i].gatt_descriptors,
                    later.descriptor_id(),
                ),
    {
        assert forall|i: int|
            0 <= i < self.characteristics.len() && i < later.characteristics.len()
                && later.characteristics[i].gatt_descriptors
                    == self.characteristics[i].gatt_descriptors implies ids_distinct(
            #[trigger] later.characteristics[i].gatt_descriptors,
            later.descriptor_id(),
        ) by {
            let listed = self.characteristics[i].gatt_descriptors;
            assert(self.has_descriptors(listed));
            assert forall|k: int| 0 <= k < listed.len() implies (self.descriptor_id())(
                #[trigger] listed[k],
            ) == (later.descriptor_id())(listed[k]) by {
                assert(self.has_descriptor(listed[k]));
            }
            lemma_ids_distinct_agrees(listed, self.descriptor_id(), later.descriptor_id());
        }
    }

    /// Replacing an adapter by one whose devices exist and have distinct ids
    /// keeps the stack well formed.
    pub proof fn lemma_with_adapter(self, h: FakeBluetoothAdapter, m: AdapterModel)
        requires
            self.wf(),
            self.has_adapter(h),
            self.has_devices(m.devices),
            ids_distinct(m.devices, self.device_id()),
        ensures
            self.with_adapter(h, m).wf(),
    {
        let later = self.with_adapter(h, m);
        self.lemma_with_adapter_handles(h, m);
        self.lemma_device_lists_frame(later);
        self.lemma_service_lists_frame(later);
        self.lemma_characteristic_lists_frame(later);
        self.lemma_included_lists_frame(later);
        self.lemma_descriptor_lists_frame(later);
        assert forall|i: int| 0 <= i < later.adapters.len() implies ids_distinct(
            #[trigger] later.adapters[i].devices,
            later.device_id(),
        ) by {
        }
    }

    /// Replacing a device by one with the same id, whose adapter and services
    /// exist and whose services have distinct ids, keeps the stack well
    /// formed.
    pub proof fn lemma_with_device(self, h: FakeBluetoothDevice, m: DeviceModel)
        requires
            self.wf(),
            self.has_device(h),
            m.id == self.device(h).id,
            self.has_adapter(m.adapter),
            self.has_services(m.gatt_services),
            ids_distinct(m.gatt_services, self.service_id()),
        ensures
            self.with_device(h, m).wf(),
    {
        let later = self.with_device(h, m);
        self.lemma_with_device_handles(h, m);
        self.lemma_device_lists_frame(later);
        self.lemma_service_lists_frame(later);
        self.lemma_characteristic_lists_frame(later);
        self.lemma_included_lists_frame(later);
        self.lemma_descriptor_lists_frame(later);
        assert forall|i: int| 0 <= i < later.devices.len() implies ids_distinct(
            #[trigger] later.devices[i].gatt_services,
            later.service_id(),
        ) by {
        }
    }

    /// Replacing a service by one with the same id, whose device,
    /// characteristics and included services exist and whose characteristics
    /// and included services have distinct ids, keeps the stack well formed.
    pub proof fn lemma_with_service(self, h: FakeBluetoothGATTService, m: ServiceModel)
        requires
            self.wf(),
            self.has_service(h),
            m.id == self.service(h).id,
            self.has_device(m.device),
            self.has_characteristics(m.gatt_characteristics),
            self.has_services(m.included_services),
            ids_distinct(m.gatt_characteristics, self.characteristic_id()),
            ids_distinct(m.included_services, self.service_id()),
        ensures
            self.with_service(h, m).wf(),
    {
        let later = self.with_service(h, m);
        self.lemma_with_service_handles(h, m);
        self.lemma_device_lists_frame(later);
        self.lemma_service_lists_frame(later);
        self.lemma_characteristic_lists_frame(later);
        self.lemma_included_lists_frame(later);
        self.lemma_descriptor_lists_frame(later);
        assert forall|i: int| 0 <= i < later.services.len() implies ids_distinct(
            #[trigger] later.services[i].gatt_characteristics,
            later.characteristic_id(),
        ) by {
        }
        assert forall|i: int| 0 <= i < later.services.len() implies ids_distinct(
            #[trigger] later.services[i].included_services,
            later.service_id(),
        ) by {
            if i == h.index {
                let given = m.included_services;
                assert(self.has_services(given));
                assert forall|k: int| 0 <= k < given.len() implies (self.service_id())(
                    #[trigger] given[k],
                ) == (later.service_id())(given[k]) by {
                    assert(self.has_service(given[k]));
                }
                lemma_ids_distinct_agrees(given, self.service_id(), later.service_id());
            }
        }
    }

    /// Replacing a characteristic by one with the same id, whose service and
    /// descriptors exist and whose descriptors have distinct ids, keeps the
    /// stack well formed.
    pub proof fn lemma_with_characteristic(
        self,
        h: FakeBluetoothGATTCharacteristic,
        m: CharacteristicModel,
    )
        requires
            self.wf(),
            self.has_characteristic(h),
            m.id == self.characteristic(h).id,
            self.has_service(m.service),
            self.has_descriptors(m.gatt_descriptors),
            ids_distinct(m.gatt_descriptors, self.descriptor_id()),
        ensures
            self.with_characteristic(h, m).wf(),
    {
        let later = self.with_characteristic(h, m);
        self.lemma_with_characteristic_handles(h, m);
        self.lemma_device_lists_frame(later);
        self.lemma_service_lists_frame(later);
        self.lemma_characteristic_lists_frame(later);
        self.lemma_included_lists_frame(later);
        self.lemma_descriptor_lists_frame(later);
        assert forall|i: int| 0 <= i < later.characteristics.len() implies ids_distinct(
            #[trigger] later.characteristics[i].gatt_descriptors,
            later.descriptor_id(),
        ) by {
        }
    }

    /// Replacing a descriptor by one with the same id, whose characteristic
    /// exists, keeps the stack well formed.
    pub proof fn lemma_with_descriptor(self, h: FakeBluetoothGATTDescriptor, m: DescriptorModel)
        requires
            self.wf(),
            self.has_descriptor(h),
            m.id == self.descriptor(h).id,
            self.has_characteristic(m.characteristic),
        ensures
            self.with_descriptor(h, m).wf(),
    {
        let later = self.with_descriptor(h, m);
        self.lemma_with_descriptor_handles(h, m);
        self.lemma_device_lists_frame(later);
        self.lemma_service_lists_frame(later);
        self.lemma_characteristic_lists_frame(later);
        self.lemma_included_lists_frame(later);
        self.lemma_descriptor_lists_frame(later);
    }

    /// Creating an adapter whose devices exist and have distinct ids keeps
    /// the stack well formed.
    pub proof fn lemma_insert_adapter(self, init: AdapterModel)
        requires
            self.wf(),
            self.has_devices(init.devices),
            ids_distinct(init.devices, self.device_id()),
            self.adapters.len() < usize::MAX,
        ensures
            self.insert_adapter(init).wf(),
    {
        let later = self.insert_adapter(init);
        self.lemma_insert_adapter_handles(init);
        self.lemma_device_lists_frame(later);
        self.lemma_service_lists_frame(later);
        self.lemma_characteristic_lists_frame(later);
        self.lemma_included_lists_frame(later);
        self.lemma_descriptor_lists_frame(later);
        assert forall|i: int| 0 <= i < later.adapters.len() implies ids_distinct(
            #[trigger] later.adapters[i].devices,
            later.device_id(),
        ) by {
        }
    }

    /// Creating a device under an adapter that holds no device of its id,
    /// with services that exist and have distinct ids, keeps the stack well
    /// formed.
    pub proof fn lemma_insert_device(self, init: DeviceModel)
        requires
            self.wf(),
            self.has_adapter(init.adapter),
            self.find_device(self.adapter(init.adapter).devices, init.id) is None,
            self.has_services(init.gatt_services),
            ids_distinct(init.gatt_services, self.service_id()),
            self.devices.len() < usize::MAX,
        ensures
            self.insert_device(init).wf(),
    {
        let later = self.insert_device(init);
        self.lemma_insert_device_handles(init);
        self.lemma_device_lists_frame(later);
        self.lemma_service_lists_frame(later);
        self.lemma_characteristic_lists_frame(later);
        self.lemma_included_lists_frame(later);
        self.lemma_descriptor_lists_frame(later);
        assert forall|i: int| 0 <= i < later.adapters.len() implies ids_distinct(
            #[trigger] later.adapters[i].devices,
            later.device_id(),
        ) by {
            if i == init.adapter.index {
                let siblings = self.adapters[i].devices;
                let created = self.next_device();
                assert(later.adapters[i].devices == siblings.push(created));
                assert(self.has_devices(siblings));
                assert forall|k: int| 0 <= k < siblings.len() implies (self.device_id())(
                    #[trigger] siblings[k],
                ) == (later.device_id())(siblings[k]) by {
                    assert(self.has_device(siblings[k]));
                }
                lemma_ids_distinct_agrees(siblings, self.device_id(), later.device_id());
                lemma_first_with_id_agrees(
                    siblings,
                    self.device_id(),
                    later.device_id(),
                    init.id,
                );
                lemma_push_keeps_ids_distinct(siblings, later.device_id(), created);
            }
        }
        assert forall|i: int| 0 <= i < later.devices.len() implies ids_distinct(
            #[trigger] later.devices[i].gatt_services,
            later.service_id(),
        ) by {
        }
    }

    /// Creating a service under a device that holds no service of its id,
    /// with characteristics and included services that exist and have
    /// distinct ids, keeps the stack well formed.
    pub proof fn lemma_insert_service(self, init: ServiceModel)
        requires
            self.wf(),
            self.has_device(init.device),
            self.find_service(self.device(init.device).gatt_services, init.id) is None,
            self.has_characteristics(init.gatt_characteristics),
            self.has_services(init.included_services),
            ids_distinct(init.gatt_characteristics, self.characteristic_id()),
            ids_distinct(init.included_services, self.service_id()),
            self.services.len() < usize::MAX,
        ensures
            self.insert_service(init).wf(),
    {
        let later = self.insert_service(init);
        self.lemma_insert_service_handles(init);
        self.lemma_device_lists_frame(later);
        self.lemma_service_lists_frame(later);
        self.lemma_characteristic_lists_frame(later);
        self.lemma_included_lists_frame(later);
        self.lemma_descriptor_lists_frame(later);
        assert forall|i: int| 0 <= i < later.devices.len() implies ids_distinct(
            #[trigger] later.devices[i].gatt_services,
            later.service_id(),
        ) by {
            if i == init.device.index {
                let siblings = self.devices[i].gatt_services;
                let created = self.next_service();
                assert(later.devices[i].gatt_services == siblings.push(created));
                assert(self.has_services(siblings));
                assert forall|k: int| 0 <= k < siblings.len() implies (self.service_id())(
                    #[trigger] siblings[k],
                ) == (later.service_id())(siblings[k]) by {
                    assert(self.has_service(siblings[k]));
                }
                lemma_ids_distinct_agrees(siblings, self.service_id(), later.service_id());
                lemma_first_with_id_agrees(
                    siblings,
                    self.service_id(),
                    later.service_id(),
                    init.id,
                );
                lemma_push_keeps_ids_distinct(siblings, later.service_id(), created);
            }
        }
        assert forall|i: int| 0 <= i < later.services.len() implies ids_distinct(
            #[trigger] later.services[i].gatt_characteristics,
            later.characteristic_id(),
        ) by {
        }
        assert forall|i: int| 0 <= i < later.services.len() implies ids_distinct(
            #[trigger] later.services[i].included_services,
            later.service_id(),
        ) by {
            if i == self.services.len() {
                let given = init.included_services;
                assert(self.has_services(given));
                assert forall|k: int| 0 <= k < given.len() implies (self.service_id())(
                    #[trigger] given[k],
                ) == (later.service_id())(given[k]) by {
                    assert(self.has_service(given[k]));
                }
                lemma_ids_distinct_agrees(given, self.service_id(), later.service_id());
            }
        }
    }

    /// Creating a characteristic under a service that holds no
    /// characteristic of its id, with descriptors that exist and have
    /// distinct ids, keeps the stack well formed.
    pub proof fn lemma_insert_characteristic(self, init: CharacteristicModel)
        requires
            self.wf(),
            self.has_service(init.service),
            self.find_characteristic(self.service(init.service).gatt_characteristics, init.id)
                is None,
            self.has_descriptors(init.gatt_descriptors),
            ids_distinct(init.gatt_descriptors, self.descriptor_id()),
            self.characteristics.len() < usize::MAX,
        ensures
            self.insert_characteristic(init).wf(),
    {
        let later = self.insert_characteristic(init);
        self.lemma_insert_characteristic_handles(init);
        self.lemma_device_lists_frame(later);
        self.lemma_service_lists_frame(later);
        self.lemma_characteristic_lists_frame(later);
        self.lemma_included_lists_frame(later);
        self.lemma_descriptor_lists_frame(later);
        assert forall|i: int| 0 <= i < later.services.len() implies ids_distinct(
            #[trigger] later.services[i].gatt_characteristics,
            later.characteristic_id(),
        ) by {
            if i == init.service.index {
                let siblings = self.services[i].gatt_characteristics;
                let created = self.next_characteristic();
                assert(later.services[i].gatt_characteristics == siblings.push(created));
                assert(self.has_characteristics(siblings));
                assert forall|k: int| 0 <= k < siblings.len() implies (self.characteristic_id())(
                    #[trigger] siblings[k],
                ) == (later.characteristic_id())(siblings[k]) by {
                    assert(self.has_characteristic(siblings[k]));
                }
                lemma_ids_distinct_agrees(
                    siblings,
                    self.characteristic_id(),
                    later.characteristic_id(),
                );
                lemma_first_with_id_agrees(
                    siblings,
                    self.characteristic_id(),
                    later.characteristic_id(),
                    init.id,
                );
                lemma_push_keeps_ids_distinct(siblings, later.characteristic_id(), created);
            }
        }
        assert forall|i: int| 0 <= i < later.characteristics.len() implies ids_distinct(
            #[trigger] later.characteristics[i].gatt_descriptors,
            later.descriptor_id(),
        ) by {
        }
        assert forall|i: int| 0 <= i < later.services.len() implies ids_distinct(
            #[trigger] later.services[i].included_services,
            later.service_id(),
        ) by {
        }
    }

    /// Creating a descriptor under a characteristic that holds no descriptor
    /// of its id keeps the stack well formed.
    pub proof fn lemma_insert_descriptor(self, init: DescriptorModel)
        requires
            self.wf(),
            self.has_characteristic(init.characteristic),
            self.find_descriptor(
                self.characteristic(init.characteristic).gatt_descriptors,
                init.id,
            ) is None,
            self.descriptors.len() < usize::MAX,
        ensures
            self.insert_descriptor(init).wf(),
    {
        let later = self.insert_descriptor(init);
        self.lemma_insert_descriptor_handles(init);
        self.lemma_device_lists_frame(later);
        self.lemma_service_lists_frame(later);
        self.lemma_characteristic_lists_frame(later);
        self.lemma_included_lists_frame(later);
        self.lemma_descriptor_lists_frame(later);
        assert forall|i: int| 0 <= i < later.characteristics.len() implies ids_distinct(
            #[trigger] later.characteristics[i].gatt_descriptors,
            later.descriptor_id(),
        ) by {
            if i == init.characteristic.index {
                let siblings = self.characteristics[i].gatt_descriptors;
                let created = self.next_descriptor();
                assert(later.characteristics[i].gatt_descriptors == siblings.push(created));
                assert(self.has_descriptors(siblings));
                assert forall|k: int| 0 <= k < siblings.len() implies (self.descriptor_id())(
                    #[trigger] siblings[k],
                ) == (later.descriptor_id())(siblings[k]) by {
                    assert(self.has_descriptor(siblings[k]));
                }
                lemma_ids_distinct_agrees(siblings, self.descriptor_id(), later.descriptor_id());
                lemma_first_with_id_agrees(
                    siblings,
                    self.descriptor_id(),
                    later.descriptor_id(),
                    init.id,
                );
                lemma_push_keeps_ids_distinct(siblings, later.descriptor_id(), created);
            }
        }
    }

    /// Giving a device an id that no list holds beside it keeps the stack
    /// well formed.
    pub proof fn lemma_rename_device(self, h: FakeBluetoothDevice, id: Seq<char>)
        requires
            self.wf(),
            self.has_device(h),
            !self.device_id_taken(h, id),
        ensures
            self.rename_device(h, id).0.wf(),
    {
        let m = DeviceModel { id, ..self.device(h) };
        let later = self.with_device(h, m);
        self.lemma_with_device_handles(h, m);
        self.lemma_service_lists_frame(later);
        self.lemma_characteristic_lists_frame(later);
        self.lemma_included_lists_frame(later);
        self.lemma_descriptor_lists_frame(later);
        assert forall|i: int| 0 <= i < later.adapters.len() implies ids_distinct(
            #[trigger] later.adapters[i].devices,
            later.device_id(),
        ) by {
            let listed = self.adapters[i].devices;
            assert(later.adapters[i].devices == listed);
            assert(self.has_devices(listed));
            assert forall|j: int, k: int| 0 <= j < k < listed.len() implies (later.device_id())(
                #[trigger] listed[j],
            ) != (later.device_id())(#[trigger] listed[k]) by {
                assert(self.has_device(listed[j]) && self.has_device(listed[k]));
                assert((self.device_id())(listed[j]) != (self.device_id())(listed[k]));
                if listed[j] == h || listed[k] == h {
                    assert(listed.contains(h));
                    assert(!id_taken_beside(listed, self.device_id(), h, id));
                }
            }
        }
    }

    /// Giving a service an id that no list holds beside it keeps the stack
    /// well formed.
    pub proof fn lemma_rename_service(self, h: FakeBluetoothGATTService, id: Seq<char>)
        requires
            self.wf(),
            self.has_service(h),
            !self.service_id_taken(h, id),
        ensures
            self.rename_service(h, id).0.wf(),
    {
        let m = ServiceModel { id, ..self.service(h) };
        let later = self.with_service(h, m);
        self.lemma_with_service_handles(h, m);
        self.lemma_device_lists_frame(later);
        self.lemma_characteristic_lists_frame(later);
        self.lemma_descriptor_lists_frame(later);
        assert forall|i: int| 0 <= i < later.devices.len() implies ids_distinct(
            #[trigger] later.devices[i].gatt_services,
            later.service_id(),
        ) by {
            let listed = self.devices[i].gatt_services;
            assert(later.devices[i].gatt_services == listed);
            assert(self.has_services(listed));
            assert forall|j: int, k: int| 0 <= j < k < listed.len() implies (later.service_id())(
                #[trigger] listed[j],
            ) != (later.service_id())(#[trigger] listed[k]) by {
                assert(self.has_service(listed[j]) && self.has_service(listed[k]));
                assert((self.service_id())(listed[j]) != (self.service_id())(listed[k]));
                if listed[j] == h || listed[k] == h {
                    assert(listed.contains(h));
                    assert(!id_taken_beside(listed, self.service_id(), h, id));
                }
            }
        }
        assert forall|i: int| 0 <= i < later.services.len() implies ids_distinct(
            #[trigger] later.services[i].included_services,
            later.service_id(),
        ) by {
            let listed = self.services[i].included_services;
            assert(later.services[i].included_services == listed);
            assert(self.has_services(listed));
            assert forall|j: int, k: int| 0 <= j < k < listed.len() implies (later.service_id())(
                #[trigger] listed[j],
            ) != (later.service_id())(#[trigger] listed[k]) by {
                assert(self.has_service(listed[j]) && self.has_service(listed[k]));
                assert((self.service_id())(listed[j]) != (self.service_id())(listed[k]));
                if listed[j] == h || listed[k] == h {
                    assert(listed.contains(h));
                    assert(!id_taken_beside(listed, self.service_id(), h, id));
                }
            }
        }
    }

    /// Giving a characteristic an id that no list holds beside it keeps the
    /// stack well formed.
    pub proof fn lemma_rename_characteristic(
        self,
        h: FakeBluetoothGATTCharacteristic,
        id: Seq<char>,
    )
        requires
            self.wf(),
            self.has_characteristic(h),
            !self.characteristic_id_taken(h, id),
        ensures
            self.rename_characteristic(h, id).0.wf(),
    {
        let m = CharacteristicModel { id, ..self.characteristic(h) };
        let later = self.with_characteristic(h, m);
        self.lemma_with_characteristic_handles(h, m);
        self.lemma_device_lists_frame(later);
        self.lemma_service_lists_frame(later);
        self.lemma_included_lists_frame(later);
        self.lemma_descriptor_lists_frame(later);
        assert forall|i: int| 0 <= i < later.services.len() implies ids_distinct(
            #[trigger] later.services[i].gatt_characteristics,
            later.characteristic_id(),
        ) by {
            let listed = self.services[i].gatt_characteristics;
            assert(later.services[i].gatt_characteristics == listed);
            assert(self.has_characteristics(listed));
            assert forall|j: int, k: int|
                0 <= j < k < listed.len() implies (later.characteristic_id())(
                #[trigger] listed[j],
            ) != (later.characteristic_id())(#[trigger] listed[k]) by {
                assert(self.has_characteristic(listed[j]) && self.has_characteristic(listed[k]));
                assert(
                    (self.characteristic_id())(listed[j]) != (self.characteristic_id())(listed[k])
                );
                if listed[j] == h || listed[k] == h {
                    assert(listed.contains(h));
                    assert(!id_taken_beside(listed, self.characteristic_id(), h, id));
                }
            }
        }
    }

    /// Giving a descriptor an id that no list holds beside it keeps the stack
    /// well formed.
    pub proof fn lemma_rename_descriptor(self, h: FakeBluetoothGATTDescriptor, id: Seq<char>)
        requires
            self.wf(),
            self.has_descriptor(h),
            !self.descriptor_id_taken(h, id),
        ensures
            self.rename_descriptor(h, id).0.wf(),
    {
        let m = DescriptorModel { id, ..self.descriptor(h) };
        let later = self.with_descriptor(h, m);
        self.lemma_with_descriptor_handles(h, m);
        self.lemma_device_lists_frame(later);
        self.lemma_service_lists_frame(later);
        self.lemma_characteristic_lists_frame(later);
        self.lemma_included_lists_frame(later);
        assert forall|i: int| 0 <= i < later.characteristics.len() implies ids_distinct(
            #[trigger] later.characteristics[i].gatt_descriptors,
            later.descriptor_id(),
        ) by {
            let listed = self.characteristics[i].gatt_descriptors;
            assert(later.characteristics[i].gatt_descriptors == listed);
            assert(self.has_descriptors(listed));
            assert forall|j: int, k: int| 0 <= j < k < listed.len() implies (later.descriptor_id())(
                #[trigger] listed[j],
            ) != (later.descriptor_id())(#[trigger] listed[k]) by {
                assert(self.has_descriptor(listed[j]) && self.has_descriptor(listed[k]));
                assert((self.descriptor_id())(listed[j]) != (self.descriptor_id())(listed[k]));
                if listed[j] == h || listed[k] == h {
                    assert(listed.contains(h));
                    assert(!id_taken_beside(listed, self.descriptor_id(), h, id));
                }
            }
        }
    }

    /// Adding with [`StackModel::add_device`] keeps the stack well formed.
    pub proof fn lemma_add_device(self, h: FakeBluetoothAdapter, child: FakeBluetoothDevice)
        requires
            self.wf(),
        ensures
            self.add_device(h, child).0.wf(),
    {
        if self.add_device(h, child).1 is Ok {
            let listed = self.adapter(h).devices;
            assert(self.has_devices(self.adapters[h.index as int].devices));
            lemma_push_keeps_ids_distinct(listed, self.device_id(), child);
            self.lemma_with_adapter(
                h,
                AdapterModel { devices: listed.push(child), ..self.adapter(h) },
            );
        }
    }

    /// Removing with [`StackModel::remove_device`] keeps the stack well formed.
    pub proof fn lemma_remove_device(self, h: FakeBluetoothAdapter, id: Seq<char>)
        requires
            self.wf(),
            self.has_adapter(h),
        ensures
            self.remove_device(h, id).wf(),
    {
        let listed = self.adapter(h).devices;
        assert(self.has_devices(self.adapters[h.index as int].devices));
        self.lemma_devices_without(listed, id);
        lemma_without_keeps_ids_distinct(listed, self.device_id(), id);
        self.lemma_with_adapter(
            h,
            AdapterModel { devices: self.devices_without(listed, id), ..self.adapter(h) },
        );
    }

    /// Adding with [`StackModel::add_service`] keeps the stack well formed.
    pub proof fn lemma_add_service(self, h: FakeBluetoothDevice, child: FakeBluetoothGATTService)
        requires
            self.wf(),
        ensures
            self.add_service(h, child).0.wf(),
    {
        if self.add_service(h, child).1 is Ok {
            let listed = self.device(h).gatt_services;
            assert(self.has_services(self.devices[h.index as int].gatt_services));
            lemma_push_keeps_ids_distinct(listed, self.service_id(), child);
            self.lemma_with_device(
                h,
                DeviceModel { gatt_services: listed.push(child), ..self.device(h) },
            );
        }
    }

    /// Removing with [`StackModel::remove_service`] keeps the stack well
    /// formed.
    pub proof fn lemma_remove_service(self, h: FakeBluetoothDevice, id: Seq<char>)
        requires
            self.wf(),
            self.has_device(h),
        ensures
            self.remove_service(h, id).wf(),
    {
        let listed = self.device(h).gatt_services;
        assert(self.has_services(self.devices[h.index as int].gatt_services));
        self.lemma_services_without(listed, id);
        lemma_without_keeps_ids_distinct(listed, self.service_id(), id);
        self.lemma_with_device(
            h,
            DeviceModel { gatt_services: self.services_without(listed, id), ..self.device(h) },
        );
    }

    /// Adding with [`StackModel::add_characteristic`] keeps the stack well
    /// formed.
    pub proof fn lemma_add_characteristic(
        self,
        h: FakeBluetoothGATTService,
        child: FakeBluetoothGATTCharacteristic,
    )
        requires
            self.wf(),
        ensures
            self.add_characteristic(h, child).0.wf(),
    {
        if self.add_characteristic(h, child).1 is Ok {
            let listed = self.service(h).gatt_characteristics;
            assert(self.has_characteristics(self.services[h.index as int].gatt_characteristics));
            lemma_push_keeps_ids_distinct(listed, self.characteristic_id(), child);
            self.lemma_with_service(
                h,
                ServiceModel { gatt_characteristics: listed.push(child), ..self.service(h) },
            );
        }
    }

    /// Removing with [`StackModel::remove_characteristic`] keeps the stack well
    /// formed.
    pub proof fn lemma_remove_characteristic(self, h: FakeBluetoothGATTService, id: Seq<char>)
        requires
            self.wf(),
            self.has_service(h),
        ensures
            self.remove_characteristic(h, id).wf(),
    {
        let listed = self.service(h).gatt_characteristics;
        assert(self.has_characteristics(self.services[h.index as int].gatt_characteristics));
        self.lemma_characteristics_without(listed, id);
        lemma_without_keeps_ids_distinct(listed, self.characteristic_id(), id);
        self.lemma_with_service(
            h,
            ServiceModel {
                gatt_characteristics: self.characteristics_without(listed, id),
                ..self.service(h)
            },
        );
    }

    /// Adding with [`StackModel::add_included_service`] keeps the stack well
    /// formed.
    pub proof fn lemma_add_included_service(
        self,
        h: FakeBluetoothGATTService,
        child: FakeBluetoothGATTService,
    )
        requires
            self.wf(),
        ensures
            self.add_included_service(h, child).0.wf(),
    {
        if self.add_included_service(h, child).1 is Ok {
            let listed = self.service(h).included_services;
            assert(self.has_services(self.services[h.index as int].included_services));
            lemma_push_keeps_ids_distinct(listed, self.service_id(), child);
            self.lemma_with_service(
                h,
                ServiceModel { included_services: listed.push(child), ..self.service(h) },
            );
        }
    }

    /// Removing with [`StackModel::remove_included_service`] keeps the stack
    /// well formed.
    pub proof fn lemma_remove_included_service(self, h: FakeBluetoothGATTService, id: Seq<char>)
        requires
            self.wf(),
            self.has_service(h),
        ensures
            self.remove_included_service(h, id).wf(),
    {
        let listed = self.service(h).included_services;
        assert(self.has_services(self.services[h.index as int].included_services));
        self.lemma_services_without(listed, id);
        lemma_without_keeps_ids_distinct(listed, self.service_id(), id);
        self.lemma_with_service(
            h,
            ServiceModel {
                included_services: self.services_without(listed, id),
                ..self.service(h)
            },
        );
    }

    /// Adding with [`StackModel::add_descriptor`] keeps the stack well formed.
    pub proof fn lemma_add_descriptor(
        self,
        h: FakeBluetoothGATTCharacteristic,
        child: FakeBluetoothGATTDescriptor,
    )
        requires
            self.wf(),
        ensures
            self.add_descriptor(h, child).0.wf(),
    {
        if self.add_descriptor(h, child).1 is Ok {
            let listed = self.characteristic(h).gatt_descriptors;
            assert(self.has_descriptors(self.characteristics[h.index as int].gatt_descriptors));
            lemma_push_keeps_ids_distinct(listed, self.descriptor_id(), child);
            self.lemma_with_characteristic(
                h,
                CharacteristicModel {
                    gatt_descriptors: listed.push(child),
                    ..self.characteristic(h)
                },
            );
        }
    }

    /// Removing with [`StackModel::remove_descriptor`] keeps the stack well
    /// formed.
    pub proof fn lemma_remove_descriptor(self, h: FakeBluetoothGATTCharacteristic, id: Seq<char>)
        requires
            self.wf(),
            self.has_characteristic(h),
        ensures
            self.remove_descriptor(h, id).wf(),
    {
        let listed = self.characteristic(h).gatt_descriptors;
        assert(self.has_descriptors(self.characteristics[h.index as int].gatt_descriptors));
        self.lemma_descriptors_without(listed, id);
        lemma_without_keeps_ids_distinct(listed, self.descriptor_id(), id);
        self.lemma_with_characteristic(
            h,
            CharacteristicModel {
                gatt_descriptors: self.descriptors_without(listed, id),
                ..self.characteristic(h)
            },
        );
    }
}

} // verus!