//! The stack itself: the arenas that hold every entity.

use vstd::prelude::*;
use crate::fake_adapter::FakeBluetoothAdapter;
use crate::fake_characteristic::FakeBluetoothGATTCharacteristic;
use crate::fake_descriptor::FakeBluetoothGATTDescriptor;
use crate::fake_device::FakeBluetoothDevice;
use crate::fake_service::FakeBluetoothGATTService;
use crate::model::{
    has_other_id, id_taken_beside, ids_distinct, AdapterModel, CharacteristicModel,
    DescriptorModel, DeviceModel, ServiceModel, StackModel,
};

verus! {

/// What the stack stores of an adapter.
#[derive(Debug)]
pub struct AdapterRecord {
    pub id: String,
    pub is_present: bool,
    pub is_powered: bool,
    pub can_start_discovery: bool,
    pub can_stop_discovery: bool,
    pub devices: Vec<FakeBluetoothDevice>,
    pub ad_datas: Vec<String>,
    pub address: String,
    pub name: String,
    pub alias: String,
    pub class: u32,
    pub is_discoverable: bool,
    pub is_pairable: bool,
    pub pairable_timeout: u32,
    pub discoverable_timeout: u32,
    pub is_discovering: bool,
    pub uuids: Vec<String>,
    pub modalias: String,
}

/// What the stack stores of a device.
#[derive(Debug)]
pub struct DeviceRecord {
    pub id: String,
    pub adapter: FakeBluetoothAdapter,
    pub address: String,
    pub appearance: Option<u16>,
    pub class: u32,
    pub gatt_services: Vec<FakeBluetoothGATTService>,
    pub is_paired: bool,
    pub is_connectable: bool,
    pub is_connected: bool,
    pub is_trusted: bool,
    pub is_blocked: bool,
    pub is_legacy_pairing: bool,
    pub uuids: Vec<String>,
    pub name: Option<String>,
    pub icon: String,
    pub alias: String,
    pub product_version: u32,
    pub rssi: Option<i16>,
    pub tx_power: Option<i16>,
    pub modalias: String,
}

/// What the stack stores of a GATT service.
#[derive(Debug)]
pub struct ServiceRecord {
    pub id: String,
    pub device: FakeBluetoothDevice,
    pub gatt_characteristics: Vec<FakeBluetoothGATTCharacteristic>,
    pub is_primary: bool,
    pub included_services: Vec<FakeBluetoothGATTService>,
    pub uuid: String,
}

/// What the stack stores of a GATT characteristic.
#[derive(Debug)]
pub struct CharacteristicRecord {
    pub id: String,
    pub uuid: String,
    pub service: FakeBluetoothGATTService,
    pub value: Option<Vec<u8>>,
    pub is_notifying: bool,
    pub flags: Vec<String>,
    pub gatt_descriptors: Vec<FakeBluetoothGATTDescriptor>,
}

/// What the stack stores of a GATT descriptor.
#[derive(Debug)]
pub struct DescriptorRecord {
    pub id: String,
    pub uuid: String,
    pub characteristic: FakeBluetoothGATTCharacteristic,
    pub value: Vec<u8>,
    pub flags: Vec<String>,
}

impl View for AdapterRecord {
    type V = AdapterModel;

    open spec fn view(&self) -> AdapterModel {
        AdapterModel {
            id: self.id@,
            is_present: self.is_present,
            is_powered: self.is_powered,
            can_start_discovery: self.can_start_discovery,
            can_stop_discovery: self.can_stop_discovery,
            devices: self.devices@,
            ad_datas: self.ad_datas.deep_view(),
            address: self.address@,
            name: self.name@,
            alias: self.alias@,
            class: self.class,
            is_discoverable: self.is_discoverable,
            is_pairable: self.is_pairable,
            pairable_timeout: self.pairable_timeout,
            discoverable_timeout: self.discoverable_timeout,
            is_discovering: self.is_discovering,
            uuids: self.uuids.deep_view(),
            modalias: self.modalias@,
        }
    }
}

impl View for DeviceRecord {
    type V = DeviceModel;

    open spec fn view(&self) -> DeviceModel {
        DeviceModel {
            id: self.id@,
            adapter: self.adapter,
            address: self.address@,
            appearance: self.appearance,
            class: self.class,
            gatt_services: self.gatt_services@,
            is_paired: self.is_paired,
            is_connectable: self.is_connectable,
            is_connected: self.is_connected,
            is_trusted: self.is_trusted,
            is_blocked: self.is_blocked,
            is_legacy_pairing: self.is_legacy_pairing,
            uuids: self.uuids.deep_view(),
            name: match self.name {
                Some(n) => Some(n@),
                None => None,
            },
            icon: self.icon@,
            alias: self.alias@,
            product_version: self.product_version,
            rssi: self.rssi,
            tx_power: self.tx_power,
            modalias: self.modalias@,
        }
    }
}

impl View for ServiceRecord {
    type V = ServiceModel;

    open spec fn view(&self) -> ServiceModel {
        ServiceModel {
            id: self.id@,
            device: self.device,
            gatt_characteristics: self.gatt_characteristics@,
            is_primary: self.is_primary,
            included_services: self.included_services@,
            uuid: self.uuid@,
        }
    }
}

impl View for CharacteristicRecord {
    type V = CharacteristicModel;

    open spec fn view(&self) -> CharacteristicModel {
        CharacteristicModel {
            id: self.id@,
            uuid: self.uuid@,
            service: self.service,
            value: match self.value {
                Some(v) => Some(v@),
                None => None,
            },
            is_notifying: self.is_notifying,
            flags: self.flags.deep_view(),
            gatt_descriptors: self.gatt_descriptors@,
        }
    }
}

impl View for DescriptorRecord {
    type V = DescriptorModel;

    open spec fn view(&self) -> DescriptorModel {
        DescriptorModel {
            id: self.id@,
            uuid: self.uuid@,
            characteristic: self.characteristic,
            value: self.value@,
            flags: self.flags.deep_view(),
        }
    }
}

/// A fake Bluetooth stack: the owner of every adapter, device, service,
/// characteristic and descriptor that was created in it. Entities are reached
/// through handles and are never destroyed; removing one from its parent only
/// takes it out of the parent's list.
#[derive(Debug)]
pub struct FakeBluetoothStack {
    pub(crate) adapters: Vec<AdapterRecord>,
    pub(crate) devices: Vec<DeviceRecord>,
    pub(crate) services: Vec<ServiceRecord>,
    pub(crate) characteristics: Vec<CharacteristicRecord>,
    pub(crate) descriptors: Vec<DescriptorRecord>,
}

impl Default for FakeBluetoothStack {
    fn default() -> (stack: FakeBluetoothStack)
        ensures
            stack@ == StackModel::empty(),
            stack@.wf(),
    {
        FakeBluetoothStack::new()
    }
}

impl FakeBluetoothStack {
    /// The model of the stack.
    pub open(crate) spec fn view(&self) -> StackModel {
        StackModel {
            adapters: Seq::new(self.adapters@.len(), |i: int| self.adapters@[i]@),
            devices: Seq::new(self.devices@.len(), |i: int| self.devices@[i]@),
            services: Seq::new(self.services@.len(), |i: int| self.services@[i]@),
            characteristics: Seq::new(
                self.characteristics@.len(),
                |i: int| self.characteristics@[i]@,
            ),
            descriptors: Seq::new(self.descriptors@.len(), |i: int| self.descriptors@[i]@),
        }
    }

    /// A stack without any entity.
    pub fn new() -> (stack: FakeBluetoothStack)
        ensures
            stack@ == StackModel::empty(),
            stack@.wf(),
    {
        let stack = FakeBluetoothStack {
            adapters: Vec::new(),
            devices: Vec::new(),
            services: Vec::new(),
            characteristics: Vec::new(),
            descriptors: Vec::new(),
        };
        assert(stack@.adapters =~= Seq::empty());
        assert(stack@.devices =~= Seq::empty());
        assert(stack@.services =~= Seq::empty());
        assert(stack@.characteristics =~= Seq::empty());
        assert(stack@.descriptors =~= Seq::empty());
        stack
    }

    /// Does every one of the handles name a device of the stack?
    pub(crate) fn has_devices(&self, handles: &Vec<FakeBluetoothDevice>) -> (all: bool)
        ensures
            all == self@.has_devices(handles@),
    {
        let mut k: usize = 0;
        while k < handles.len()
            invariant
                k <= handles.len(),
                forall|j: int| 0 <= j < k ==> self@.has_device(#[trigger] handles@[j]),
            decreases handles.len() - k,
        {
            if handles[k].index >= self.devices.len() {
                return false;
            }
            k = k + 1;
        }
        true
    }

    /// The first of the handles whose device has the given id.
    pub(crate) fn find_device(
        &self,
        handles: &Vec<FakeBluetoothDevice>,
        id: &String,
    ) -> (found: Option<FakeBluetoothDevice>)
        requires
            self@.has_devices(handles@),
        ensures
            found == self@.find_device(handles@, id@),
    {
        let ghost ids = self@.device_ids(handles@);
        let mut k: usize = 0;
        while k < handles.len()
            invariant
                k <= handles.len(),
                self@.has_devices(handles@),
                ids == self@.device_ids(handles@),
                forall|j: int| 0 <= j < k ==> ids[j] != id@,
            decreases handles.len() - k,
        {
            let handle = handles[k];
            if self.devices[handle.index].id == *id {
                proof {
                    ids.index_of_first_ensures(id@);
                    assert(ids[k as int] == id@);
                }
                return Some(handle);
            }
            k = k + 1;
        }
        proof {
            ids.index_of_first_ensures(id@);
        }
        None
    }

    /// The ids of the devices that the handles name, in the same order.
    pub(crate) fn device_ids(&self, handles: &Vec<FakeBluetoothDevice>) -> (ids: Vec<String>)
        requires
            self@.has_devices(handles@),
        ensures
            ids.deep_view() == self@.device_ids(handles@),
    {
        let mut ids: Vec<String> = Vec::new();
        let mut k: usize = 0;
        while k < handles.len()
            invariant
                k <= handles.len(),
                self@.has_devices(handles@),
                ids@.len() == k,
                forall|j: int| 0 <= j < k ==> (#[trigger] ids@[j])@ == self@.device(handles@[j]).id,
            decreases handles.len() - k,
        {
            ids.push(self.devices[handles[k].index].id.clone());
            k = k + 1;
        }
        assert(ids.deep_view() =~= self@.device_ids(handles@));
        ids
    }

    /// The handles whose device has another id than the given one, in the
    /// same order.
    pub(crate) fn devices_without(
        &self,
        handles: &Vec<FakeBluetoothDevice>,
        id: &String,
    ) -> (kept: Vec<FakeBluetoothDevice>)
        requires
            self@.has_devices(handles@),
        ensures
            kept@ == self@.devices_without(handles@, id@),
    {
        let ghost keep = has_other_id(self@.device_id(), id@);
        let mut kept: Vec<FakeBluetoothDevice> = Vec::new();
        let mut k: usize = 0;
        assert(handles@.take(0).filter(keep) =~= Seq::empty()) by {
            reveal_with_fuel(Seq::filter, 1);
        }
        while k < handles.len()
            invariant
                k <= handles.len(),
                self@.has_devices(handles@),
                keep == has_other_id(self@.device_id(), id@),
                kept@ == handles@.take(k as int).filter(keep),
            decreases handles.len() - k,
        {
            let handle = handles[k];
            proof {
                handles@.take(k as int).lemma_filter_push(handle, keep);
                assert(handles@.take(k as int).push(handle) =~= handles@.take(k + 1));
            }
            if self.devices[handle.index].id != *id {
                kept.push(handle);
            }
            k = k + 1;
        }
        assert(handles@.take(k as int) =~= handles@);
        kept
    }

    /// Does every one of the handles name a service of the stack?
    pub(crate) fn has_services(&self, handles: &Vec<FakeBluetoothGATTService>) -> (all: bool)
        ensures
            all == self@.has_services(handles@),
    {
        let mut k: usize = 0;
        while k < handles.len()
            invariant
                k <= handles.len(),
                forall|j: int| 0 <= j < k ==> self@.has_service(#[trigger] handles@[j]),
            decreases handles.len() - k,
        {
            if handles[k].index >= self.services.len() {
                return false;
            }
            k = k + 1;
        }
        true
    }

    /// The first of the handles whose service has the given id.
    pub(crate) fn find_service(
        &self,
        handles: &Vec<FakeBluetoothGATTService>,
        id: &String,
    ) -> (found: Option<FakeBluetoothGATTService>)
        requires
            self@.has_services(handles@),
        ensures
            found == self@.find_service(handles@, id@),
    {
        let ghost ids = self@.service_ids(handles@);
        let mut k: usize = 0;
        while k < handles.len()
            invariant
                k <= handles.len(),
                self@.has_services(handles@),
                ids == self@.service_ids(handles@),
                forall|j: int| 0 <= j < k ==> ids[j] != id@,
            decreases handles.len() - k,
        {
            let handle = handles[k];
            if self.services[handle.index].id == *id {
                proof {
                    ids.index_of_first_ensures(id@);
                    assert(ids[k as int] == id@);
                }
                return Some(handle);
            }
            k = k + 1;
        }
        proof {
            ids.index_of_first_ensures(id@);
        }
        None
    }

    /// The ids of the services that the handles name, in the same order.
    pub(crate) fn service_ids(&self, handles: &Vec<FakeBluetoothGATTService>) -> (ids: Vec<String>)
        requires
            self@.has_services(handles@),
        ensures
            ids.deep_view() == self@.service_ids(handles@),
    {
        let mut ids: Vec<String> = Vec::new();
        let mut k: usize = 0;
        while k < handles.len()
            invariant
                k <= handles.len(),
                self@.has_services(handles@),
                ids@.len() == k,
                forall|j: int| 0 <= j < k ==> (#[trigger] ids@[j])@ == self@.service(
                    handles@[j]
                ).id,
            decreases handles.len() - k,
        {
            ids.push(self.services[handles[k].index].id.clone());
            k = k + 1;
        }
        assert(ids.deep_view() =~= self@.service_ids(handles@));
        ids
    }

    /// The handles whose service has another id than the given one, in the
    /// same order.
    pub(crate) fn services_without(
        &self,
        handles: &Vec<FakeBluetoothGATTService>,
        id: &String,
    ) -> (kept: Vec<FakeBluetoothGATTService>)
        requires
            self@.has_services(handles@),
        ensures
            kept@ == self@.services_without(handles@, id@),
    {
        let ghost keep = has_other_id(self@.service_id(), id@);
        let mut kept: Vec<FakeBluetoothGATTService> = Vec::new();
        let mut k: usize = 0;
        assert(handles@.take(0).filter(keep) =~= Seq::empty()) by {
            reveal_with_fuel(Seq::filter, 1);
        }
        while k < handles.len()
            invariant
                k <= handles.len(),
                self@.has_services(handles@),
                keep == has_other_id(self@.service_id(), id@),
                kept@ == handles@.take(k as int).filter(keep),
            decreases handles.len() - k,
        {
            let handle = handles[k];
            proof {
                handles@.take(k as int).lemma_filter_push(handle, keep);
                assert(handles@.take(k as int).push(handle) =~= handles@.take(k + 1));
            }
            if self.services[handle.index].id != *id {
                kept.push(handle);
            }
            k = k + 1;
        }
        assert(handles@.take(k as int) =~= handles@);
        kept
    }

    /// Does every one of the handles name a characteristic of the stack?
    pub(crate) fn has_characteristics(
        &self,
        handles: &Vec<FakeBluetoothGATTCharacteristic>,
    ) -> (all: bool)
        ensures
            all == self@.has_characteristics(handles@),
    {
        let mut k: usize = 0;
        while k < handles.len()
            invariant
                k <= handles.len(),
                forall|j: int| 0 <= j < k ==> self@.has_characteristic(#[trigger] handles@[j]),
            decreases handles.len() - k,
        {
            if handles[k].index >= self.characteristics.len() {
                return false;
            }
            k = k + 1;
        }
        true
    }

    /// The first of the handles whose characteristic has the given id.
    pub(crate) fn find_characteristic(
        &self,
        handles: &Vec<FakeBluetoothGATTCharacteristic>,
        id: &String,
    ) -> (found: Option<FakeBluetoothGATTCharacteristic>)
        requires
            self@.has_characteristics(handles@),
        ensures
            found == self@.find_characteristic(handles@, id@),
    {
        let ghost ids = self@.characteristic_ids(handles@);
        let mut k: usize = 0;
        while k < handles.len()
            invariant
                k <= handles.len(),
                self@.has_characteristics(handles@),
                ids == self@.characteristic_ids(handles@),
                forall|j: int| 0 <= j < k ==> ids[j] != id@,
            decreases handles.len() - k,
        {
            let handle = handles[k];
            if self.characteristics[handle.index].id == *id {
                proof {
                    ids.index_of_first_ensures(id@);
                    assert(ids[k as int] == id@);
                }
                return Some(handle);
            }
            k = k + 1;
        }
        proof {
            ids.index_of_first_ensures(id@);
        }
        None
    }

    /// The ids of the characteristics that the handles name, in the same order.
    pub(crate) fn characteristic_ids(
        &self,
        handles: &Vec<FakeBluetoothGATTCharacteristic>,
    ) -> (ids: Vec<String>)
        requires
            self@.has_characteristics(handles@),
        ensures
            ids.deep_view() == self@.characteristic_ids(handles@),
    {
        let mut ids: Vec<String> = Vec::new();
        let mut k: usize = 0;
        while k < handles.len()
            invariant
                k <= handles.len(),
                self@.has_characteristics(handles@),
                ids@.len() == k,
                forall|j: int| 0 <= j < k ==> (#[trigger] ids@[j])@ == self@.characteristic(
                    handles@[j]
                ).id,
            decreases handles.len() - k,
        {
            ids.push(self.characteristics[handles[k].index].id.clone());
            k = k + 1;
        }
        assert(ids.deep_view() =~= self@.characteristic_ids(handles@));
        ids
    }

    /// The handles whose characteristic has another id than the given one, in
    /// the same order.
    pub(crate) fn characteristics_without(
        &self,
        handles: &Vec<FakeBluetoothGATTCharacteristic>,
        id: &String,
    ) -> (kept: Vec<FakeBluetoothGATTCharacteristic>)
        requires
            self@.has_characteristics(handles@),
        ensures
            kept@ == self@.characteristics_without(handles@, id@),
    {
        let ghost keep = has_other_id(self@.characteristic_id(), id@);
        let mut kept: Vec<FakeBluetoothGATTCharacteristic> = Vec::new();
        let mut k: usize = 0;
        assert(handles@.take(0).filter(keep) =~= Seq::empty()) by {
            reveal_with_fuel(Seq::filter, 1);
        }
        while k < handles.len()
            invariant
                k <= handles.len(),
                self@.has_characteristics(handles@),
                keep == has_other_id(self@.characteristic_id(), id@),
                kept@ == handles@.take(k as int).filter(keep),
            decreases handles.len() - k,
        {
            let handle = handles[k];
            proof {
                handles@.take(k as int).lemma_filter_push(handle, keep);
                assert(handles@.take(k as int).push(handle) =~= handles@.take(k + 1));
            }
            if self.characteristics[handle.index].id != *id {
                kept.push(handle);
            }
            k = k + 1;
        }
        assert(handles@.take(k as int) =~= handles@);
        kept
    }

    /// Does every one of the handles name a descriptor of the stack?
    pub(crate) fn has_descriptors(&self, handles: &Vec<FakeBluetoothGATTDescriptor>) -> (all: bool)
        ensures
            all == self@.has_descriptors(handles@),
    {
        let mut k: usize = 0;
        while k < handles.len()
            invariant
                k <= handles.len(),
                forall|j: int| 0 <= j < k ==> self@.has_descriptor(#[trigger] handles@[j]),
            decreases handles.len() - k,
        {
            if handles[k].index >= self.descriptors.len() {
                return false;
            }
            k = k + 1;
        }
        true
    }

    /// The first of the handles whose descriptor has the given id.
    pub(crate) fn find_descriptor(
        &self,
        handles: &Vec<FakeBluetoothGATTDescriptor>,
        id: &String,
    ) -> (found: Option<FakeBluetoothGATTDescriptor>)
        requires
            self@.has_descriptors(handles@),
        ensures
            found == self@.find_descriptor(handles@, id@),
    {
        let ghost ids = self@.descriptor_ids(handles@);
        let mut k: usize = 0;
        while k < handles.len()
            invariant
                k <= handles.len(),
                self@.has_descriptors(handles@),
                ids == self@.descriptor_ids(handles@),
                forall|j: int| 0 <= j < k ==> ids[j] != id@,
            decreases handles.len() - k,
        {
            let handle = handles[k];
            if self.descriptors[handle.index].id == *id {
                proof {
                    ids.index_of_first_ensures(id@);
                    assert(ids[k as int] == id@);
                }
                return Some(handle);
            }
            k = k + 1;
        }
        proof {
            ids.index_of_first_ensures(id@);
        }
        None
    }

    /// The ids of the descriptors that the handles name, in the same order.
    pub(crate) fn descriptor_ids(
        &self,
        handles: &Vec<FakeBluetoothGATTDescriptor>,
    ) -> (ids: Vec<String>)
        requires
            self@.has_descriptors(handles@),
        ensures
            ids.deep_view() == self@.descriptor_ids(handles@),
    {
        let mut ids: Vec<String> = Vec::new();
        let mut k: usize = 0;
        while k < handles.len()
            invariant
                k <= handles.len(),
                self@.has_descriptors(handles@),
                ids@.len() == k,
                forall|j: int| 0 <= j < k ==> (#[trigger] ids@[j])@ == self@.descriptor(
                    handles@[j]
                ).id,
            decreases handles.len() - k,
        {
            ids.push(self.descriptors[handles[k].index].id.clone());
            k = k + 1;
        }
        assert(ids.deep_view() =~= self@.descriptor_ids(handles@));
        ids
    }

    /// The handles whose descriptor has another id than the given one, in the
    /// same order.
    pub(crate) fn descriptors_without(
        &self,
        handles: &Vec<FakeBluetoothGATTDescriptor>,
        id: &String,
    ) -> (kept: Vec<FakeBluetoothGATTDescriptor>)
        requires
            self@.has_descriptors(handles@),
        ensures
            kept@ == self@.descriptors_without(handles@, id@),
    {
        let ghost keep = has_other_id(self@.descriptor_id(), id@);
        let mut kept: Vec<FakeBluetoothGATTDescriptor> = Vec::new();
        let mut k: usize = 0;
        assert(handles@.take(0).filter(keep) =~= Seq::empty()) by {
            reveal_with_fuel(Seq::filter, 1);
        }
        while k < handles.len()
            invariant
                k <= handles.len(),
                self@.has_descriptors(handles@),
                keep == has_other_id(self@.descriptor_id(), id@),
                kept@ == handles@.take(k as int).filter(keep),
            decreases handles.len() - k,
        {
            let handle = handles[k];
            proof {
                handles@.take(k as int).lemma_filter_push(handle, keep);
                assert(handles@.take(k as int).push(handle) =~= handles@.take(k + 1));
            }
            if self.descriptors[handle.index].id != *id {
                kept.push(handle);
            }
            k = k + 1;
        }
        assert(handles@.take(k as int) =~= handles@);
        kept
    }
    /// Do no two of the handles name devices with the same id?
    pub(crate) fn distinct_device_ids(&self, handles: &Vec<FakeBluetoothDevice>) -> (distinct: bool)
        requires
            self@.has_devices(handles@),
        ensures
            distinct == ids_distinct(handles@, self@.device_id()),
    {
        let mut k: usize = 0;
        while k < handles.len()
            invariant
                k <= handles.len(),
                self@.has_devices(handles@),
                forall|a: int, b: int|
                    0 <= a < b < k ==> (self@.device_id())(#[trigger] handles@[a]) != (
                    self@.device_id())(#[trigger] handles@[b]),
            decreases handles.len() - k,
        {
            let mut j: usize = 0;
            while j < k
                invariant
                    j <= k < handles.len(),
                    self@.has_devices(handles@),
                    forall|a: int|
                        0 <= a < j ==> (self@.device_id())(#[trigger] handles@[a]) != (
                        self@.device_id())(handles@[k as int]),
                decreases k - j,
            {
                if self.devices[handles[j].index].id == self.devices[handles[k].index].id {
                    assert((self@.device_id())(handles@[j as int]) == (self@.device_id())(
                        handles@[k as int],
                    ));
                    return false;
                }
                j = j + 1;
            }
            k = k + 1;
        }
        true
    }

    /// Does the list hold `h`, and beside it another device with the given
    /// id?
    pub(crate) fn device_id_taken_in(
        &self,
        handles: &Vec<FakeBluetoothDevice>,
        h: FakeBluetoothDevice,
        id: &String,
    ) -> (taken: bool)
        requires
            self@.has_devices(handles@),
        ensures
            taken == id_taken_beside(handles@, self@.device_id(), h, id@),
    {
        let mut holds: bool = false;
        let mut other: bool = false;
        let mut k: usize = 0;
        while k < handles.len()
            invariant
                k <= handles.len(),
                self@.has_devices(handles@),
                holds <==> exists|a: int| 0 <= a < k && #[trigger] handles@[a] == h,
                other <==> exists|a: int|
                    0 <= a < k && #[trigger] handles@[a] != h && (self@.device_id())(handles@[a])
                        == id@,
            decreases handles.len() - k,
        {
            let x = handles[k];
            if x.index == h.index {
                assert(handles@[k as int] == h);
                holds = true;
            } else if self.devices[x.index].id == *id {
                assert(handles@[k as int] != h && (self@.device_id())(handles@[k as int]) == id@);
                other = true;
            }
            k = k + 1;
        }
        holds && other
    }

    /// Does some list hold `h`, and beside it another device with the given
    /// id?
    pub(crate) fn device_id_taken(&self, h: FakeBluetoothDevice, id: &String) -> (taken: bool)
        requires
            self@.wf(),
        ensures
            taken == self@.device_id_taken(h, id@),
    {
        let mut i: usize = 0;
        while i < self.adapters.len()
            invariant
                i <= self.adapters.len(),
                self@.wf(),
                forall|a: int|
                    0 <= a < i ==> !id_taken_beside(
                        #[trigger] self@.adapters[a].devices,
                        self@.device_id(),
                        h,
                        id@,
                    ),
            decreases self.adapters.len() - i,
        {
            assert(self@.has_devices(self@.adapters[i as int].devices));
            if self.device_id_taken_in(&self.adapters[i].devices, h, id) {
                return true;
            }
            i = i + 1;
        }
        false
    }

    /// Do no two of the handles name services with the same id?
    pub(crate) fn distinct_service_ids(
        &self,
        handles: &Vec<FakeBluetoothGATTService>,
    ) -> (distinct: bool)
        requires
            self@.has_services(handles@),
        ensures
            distinct == ids_distinct(handles@, self@.service_id()),
    {
        let mut k: usize = 0;
        while k < handles.len()
            invariant
                k <= handles.len(),
                self@.has_services(handles@),
                forall|a: int, b: int|
                    0 <= a < b < k ==> (self@.service_id())(#[trigger] handles@[a]) != (
                    self@.service_id())(#[trigger] handles@[b]),
            decreases handles.len() - k,
        {
            let mut j: usize = 0;
            while j < k
                invariant
                    j <= k < handles.len(),
                    self@.has_services(handles@),
                    forall|a: int|
                        0 <= a < j ==> (self@.service_id())(#[trigger] handles@[a]) != (
                        self@.service_id())(handles@[k as int]),
                decreases k - j,
            {
                if self.services[handles[j].index].id == self.services[handles[k].index].id {
                    assert((self@.service_id())(handles@[j as int]) == (self@.service_id())(
                        handles@[k as int],
                    ));
                    return false;
                }
                j = j + 1;
            }
            k = k + 1;
        }
        true
    }

    /// Does the list hold `h`, and beside it another service with the given
    /// id?
    pub(crate) fn service_id_taken_in(
        &self,
        handles: &Vec<FakeBluetoothGATTService>,
        h: FakeBluetoothGATTService,
        id: &String,
    ) -> (taken: bool)
        requires
            self@.has_services(handles@),
        ensures
            taken == id_taken_beside(handles@, self@.service_id(), h, id@),
    {
        let mut holds: bool = false;
        let mut other: bool = false;
        let mut k: usize = 0;
        while k < handles.len()
            invariant
                k <= handles.len(),
                self@.has_services(handles@),
                holds <==> exists|a: int| 0 <= a < k && #[trigger] handles@[a] == h,
                other <==> exists|a: int|
                    0 <= a < k && #[trigger] handles@[a] != h && (self@.service_id())(handles@[a])
                        == id@,
            decreases handles.len() - k,
        {
            let x = handles[k];
            if x.index == h.index {
                assert(handles@[k as int] == h);
                holds = true;
            } else if self.services[x.index].id == *id {
                assert(handles@[k as int] != h && (self@.service_id())(handles@[k as int]) == id@);
                other = true;
            }
            k = k + 1;
        }
        holds && other
    }

    /// Does some list hold `h`, and beside it another service with the given
    /// id?
    pub(crate) fn service_id_taken(&self, h: FakeBluetoothGATTService, id: &String) -> (taken: bool)
        requires
            self@.wf(),
        ensures
            taken == self@.service_id_taken(h, id@),
    {
        let mut i: usize = 0;
        while i < self.devices.len()
            invariant
                i <= self.devices.len(),
                self@.wf(),
                forall|a: int|
                    0 <= a < i ==> !id_taken_beside(
                        #[trigger] self@.devices[a].gatt_services,
                        self@.service_id(),
                        h,
                        id@,
                    ),
            decreases self.devices.len() - i,
        {
            assert(self@.has_services(self@.devices[i as int].gatt_services));
            if self.service_id_taken_in(&self.devices[i].gatt_services, h, id) {
                return true;
            }
            i = i + 1;
        }
        let mut i: usize = 0;
        while i < self.services.len()
            invariant
                i <= self.services.len(),
                self@.wf(),
                forall|a: int|
                    0 <= a < i ==> !id_taken_beside(
                        #[trigger] self@.services[a].included_services,
                        self@.service_id(),
                        h,
                        id@,
                    ),
            decreases self.services.len() - i,
        {
            assert(self@.has_services(self@.services[i as int].included_services));
            if self.service_id_taken_in(&self.services[i].included_services, h, id) {
                return true;
            }
            i = i + 1;
        }
        false
    }

    /// Do no two of the handles name characteristics with the same id?
    pub(crate) fn distinct_characteristic_ids(
        &self,
        handles: &Vec<FakeBluetoothGATTCharacteristic>,
    ) -> (distinct: bool)
        requires
            self@.has_characteristics(handles@),
        ensures
            distinct == ids_distinct(handles@, self@.characteristic_id()),
    {
        let mut k: usize = 0;
        while k < handles.len()
            invariant
                k <= handles.len(),
                self@.has_characteristics(handles@),
                forall|a: int, b: int|
                    0 <= a < b < k ==> (self@.characteristic_id())(#[trigger] handles@[a]) != (
                    self@.characteristic_id())(#[trigger] handles@[b]),
            decreases handles.len() - k,
        {
            let mut j: usize = 0;
            while j < k
                invariant
                    j <= k < handles.len(),
                    self@.has_characteristics(handles@),
                    forall|a: int|
                        0 <= a < j ==> (self@.characteristic_id())(#[trigger] handles@[a]) != (
                        self@.characteristic_id())(handles@[k as int]),
                decreases k - j,
            {
                if self.characteristics[handles[j].index].id
                    == self.characteristics[handles[k].index].id {
                    assert((self@.characteristic_id())(handles@[j as int]) == (
                    self@.characteristic_id())(
                        handles@[k as int],
                    ));
                    return false;
                }
                j = j + 1;
            }
            k = k + 1;
        }
        true
    }

    /// Does the list hold `h`, and beside it another characteristic with the
    /// given id?
    pub(crate) fn characteristic_id_taken_in(
        &self,
        handles: &Vec<FakeBluetoothGATTCharacteristic>,
        h: FakeBluetoothGATTCharacteristic,
        id: &String,
    ) -> (taken: bool)
        requires
            self@.has_characteristics(handles@),
        ensures
            taken == id_taken_beside(handles@, self@.characteristic_id(), h, id@),
    {
        let mut holds: bool = false;
        let mut other: bool = false;
        let mut k: usize = 0;
        while k < handles.len()
            invariant
                k <= handles.len(),
                self@.has_characteristics(handles@),
                holds <==> exists|a: int| 0 <= a < k && #[trigger] handles@[a] == h,
                other <==> exists|a: int|
                    0 <= a < k && #[trigger] handles@[a] != h
                        && (self@.characteristic_id())(handles@[a])
                        == id@,
            decreases handles.len() - k,
        {
            let x = handles[k];
            if x.index == h.index {
                assert(handles@[k as int] == h);
                holds = true;
            } else if self.characteristics[x.index].id == *id {
                assert(
                    handles@[k as int] != h
                        && (self@.characteristic_id())(handles@[k as int]) == id@
                );
                other = true;
            }
            k = k + 1;
        }
        holds && other
    }

    /// Does some list hold `h`, and beside it another characteristic with the
    /// given id?
    pub(crate) fn characteristic_id_taken(
        &self,
        h: FakeBluetoothGATTCharacteristic,
        id: &String,
    ) -> (taken: bool)
        requires
            self@.wf(),
        ensures
            taken == self@.characteristic_id_taken(h, id@),
    {
        let mut i: usize = 0;
        while i < self.services.len()
            invariant
                i <= self.services.len(),
                self@.wf(),
                forall|a: int|
                    0 <= a < i ==> !id_taken_beside(
                        #[trigger] self@.services[a].gatt_characteristics,
                        self@.characteristic_id(),
                        h,
                        id@,
                    ),
            decreases self.services.len() - i,
        {
            assert(self@.has_characteristics(self@.services[i as int].gatt_characteristics));
            if self.characteristic_id_taken_in(&self.services[i].gatt_characteristics, h, id) {
                return true;
            }
            i = i + 1;
        }
        false
    }

    /// Do no two of the handles name descriptors with the same id?
    pub(crate) fn distinct_descriptor_ids(
        &self,
        handles: &Vec<FakeBluetoothGATTDescriptor>,
    ) -> (distinct: bool)
        requires
            self@.has_descriptors(handles@),
        ensures
            distinct == ids_distinct(handles@, self@.descriptor_id()),
    {
        let mut k: usize = 0;
        while k < handles.len()
            invariant
                k <= handles.len(),
                self@.has_descriptors(handles@),
                forall|a: int, b: int|
                    0 <= a < b < k ==> (self@.descriptor_id())(#[trigger] handles@[a]) != (
                    self@.descriptor_id())(#[trigger] handles@[b]),
            decreases handles.len() - k,
        {
            let mut j: usize = 0;
            while j < k
                invariant
                    j <= k < handles.len(),
                    self@.has_descriptors(handles@),
                    forall|a: int|
                        0 <= a < j ==> (self@.descriptor_id())(#[trigger] handles@[a]) != (
                        self@.descriptor_id())(handles@[k as int]),
                decreases k - j,
            {
                if self.descriptors[handles[j].index].id == self.descriptors[handles[k].index].id {
                    assert((self@.descriptor_id())(handles@[j as int]) == (self@.descriptor_id())(
                        handles@[k as int],
                    ));
                    return false;
                }
                j = j + 1;
            }
            k = k + 1;
        }
        true
    }

    /// Does the list hold `h`, and beside it another descriptor with the given
    /// id?
    pub(crate) fn descriptor_id_taken_in(
        &self,
        handles: &Vec<FakeBluetoothGATTDescriptor>,
        h: FakeBluetoothGATTDescriptor,
        id: &String,
    ) -> (taken: bool)
        requires
            self@.has_descriptors(handles@),
        ensures
            taken == id_taken_beside(handles@, self@.descriptor_id(), h, id@),
    {
        let mut holds: bool = false;
        let mut other: bool = false;
        let mut k: usize = 0;
        while k < handles.len()
            invariant
                k <= handles.len(),
                self@.has_descriptors(handles@),
                holds <==> exists|a: int| 0 <= a < k && #[trigger] handles@[a] == h,
                other <==> exists|a: int|
                    0 <= a < k && #[trigger] handles@[a] != h
                        && (self@.descriptor_id())(handles@[a])
                        == id@,
            decreases handles.len() - k,
        {
            let x = handles[k];
            if x.index == h.index {
                assert(handles@[k as int] == h);
                holds = true;
            } else if self.descriptors[x.index].id == *id {
                assert(
                    handles@[k as int] != h && (self@.descriptor_id())(handles@[k as int]) == id@
                );
                other = true;
            }
            k = k + 1;
        }
        holds && other
    }

    /// Does some list hold `h`, and beside it another descriptor with the given
    /// id?
    pub(crate) fn descriptor_id_taken(
        &self,
        h: FakeBluetoothGATTDescriptor,
        id: &String,
    ) -> (taken: bool)
        requires
            self@.wf(),
        ensures
            taken == self@.descriptor_id_taken(h, id@),
    {
        let mut i: usize = 0;
        while i < self.characteristics.len()
            invariant
                i <= self.characteristics.len(),
                self@.wf(),
                forall|a: int|
                    0 <= a < i ==> !id_taken_beside(
                        #[trigger] self@.characteristics[a].gatt_descriptors,
                        self@.descriptor_id(),
                        h,
                        id@,
                    ),
            decreases self.characteristics.len() - i,
        {
            assert(self@.has_descriptors(self@.characteristics[i as int].gatt_descriptors));
            if self.descriptor_id_taken_in(&self.characteristics[i].gatt_descriptors, h, id) {
                return true;
            }
            i = i + 1;
        }
        false
    }
}

} // verus!
