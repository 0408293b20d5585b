//! Devices: the peers that an adapter has found.

use vstd::prelude::*;
use vstd::string::StringExecFns;
use crate::error::BluetoothError;
use crate::fake_adapter::FakeBluetoothAdapter;
use crate::fake_service::FakeBluetoothGATTService;
use crate::modalias::{
    modalias_device, modalias_product, modalias_source, modalias_vendor, modalias_well_formed,
    parse_modalias,
};
use crate::model::{lemma_first_with_id, text_of, DeviceModel};
use crate::stack::{DeviceRecord, FakeBluetoothStack};

verus! {

/// A handle on one device of a stack. Copies of a handle name the same
/// device: what is changed through one is seen through the other.
#[derive(Clone, Copy, Debug, PartialEq, Eq, Hash, Structural)]
pub struct FakeBluetoothDevice {
    /// The position of the device among those of its stack.
    pub index: usize,
}

impl FakeBluetoothDevice {
    /// The device with the given id under the given adapter: the one that the
    /// adapter already holds under that id, if there is one, and else a new
    /// device with the given attributes, added at the end of the adapter's
    /// devices. Fails if the adapter, or one of the services of a device that
    /// would be new, does not exist, and if two of those services have the
    /// same id.
    pub fn new(
        stack: &mut FakeBluetoothStack,
        id: String,
        adapter: FakeBluetoothAdapter,
        address: String,
        appearance: Option<u16>,
        class: u32,
        gatt_services: Vec<FakeBluetoothGATTService>,
        is_paired: bool,
        is_connectable: bool,
        is_connected: bool,
        is_trusted: bool,
        is_blocked: bool,
        is_legacy_pairing: bool,
        uuids: Vec<String>,
        name: Option<String>,
        icon: String,
        alias: String,
        product_version: u32,
        rssi: Option<i16>,
        tx_power: Option<i16>,
        modalias: String,
    ) -> (r: Result<FakeBluetoothDevice, BluetoothError>)
        requires
            old(stack)@.wf(),
        ensures
            (final(stack)@, r) == old(stack)@.create_device(
                (DeviceModel {
                    id: id@,
                    adapter,
                    address: address@,
                    appearance,
                    class,
                    gatt_services: gatt_services@,
                    is_paired,
                    is_connectable,
                    is_connected,
                    is_trusted,
                    is_blocked,
                    is_legacy_pairing,
                    uuids: uuids.deep_view(),
                    name: text_of(name),
                    icon: icon@,
                    alias: alias@,
                    product_version,
                    rssi,
                    tx_power,
                    modalias: modalias@,
                }),
            ),
            final(stack)@.wf(),
            old(stack)@.grows_to(final(stack)@),
            r matches Ok(device) ==> final(stack)@.has_device(device) && final(stack)@.device(
                device,
            ).id == id@,
            r matches Err(e)
                ==> e == BluetoothError::ValueUnavailable || e == BluetoothError::DuplicateId,
    {
        if adapter.index >= stack.adapters.len() {
            return Err(BluetoothError::ValueUnavailable);
        }
        proof {
            assert(stack@.has_devices(stack@.adapters[adapter.index as int].devices));
            stack@.device_ids(stack@.adapter(adapter).devices).index_of_first_ensures(id@);
        }
        if let Some(existing) = stack.find_device(&stack.adapters[adapter.index].devices, &id) {
            return Ok(existing);
        }
        if !stack.has_services(&gatt_services) {
            return Err(BluetoothError::ValueUnavailable);
        }
        if !stack.distinct_service_ids(&gatt_services) {
            return Err(BluetoothError::DuplicateId);
        }
        let device = FakeBluetoothDevice { index: stack.devices.len() };
        let record = DeviceRecord {
            id,
            adapter,
            address,
            appearance,
            class,
            gatt_services,
            is_paired,
            is_connectable,
            is_connected,
            is_trusted,
            is_blocked,
            is_legacy_pairing,
            uuids,
            name,
            icon,
            alias,
            product_version,
            rssi,
            tx_power,
            modalias,
        };
        let ghost init = record@;
        stack.devices.push(record);
        stack.adapters[adapter.index].devices.push(device);
        proof {
            assert(stack@ =~= old(stack)@.insert_device(init));
            assert(old(stack)@.devices.len() + 1 == stack.devices.len());
            old(stack)@.lemma_insert_device(init);
        }
        Ok(device)
    }

    /// The device whose id is the adapter's id followed by `device_id`, under
    /// the given adapter: the one that the adapter already holds under that
    /// id, if there is one, and else a new device without any attribute set.
    /// Fails if the adapter does not exist.
    pub fn new_empty(
        stack: &mut FakeBluetoothStack,
        adapter: FakeBluetoothAdapter,
        device_id: String,
    ) -> (r: Result<FakeBluetoothDevice, BluetoothError>)
        requires
            old(stack)@.wf(),
        ensures
            (final(stack)@, r) == old(stack)@.create_device(
                DeviceModel::empty(old(stack)@.adapter(adapter).id + device_id@, adapter),
            ),
            r is Ok <==> old(stack)@.has_adapter(adapter),
            final(stack)@.wf(),
            old(stack)@.grows_to(final(stack)@),
            r matches Ok(device) ==> final(stack)@.has_device(device) && final(stack)@.device(
                device,
            ).id == old(stack)@.adapter(adapter).id + device_id@,
            r matches Err(e) ==> e == BluetoothError::ValueUnavailable,
    {
        if adapter.index >= stack.adapters.len() {
            return Err(BluetoothError::ValueUnavailable);
        }
        let id = stack.adapters[adapter.index].id.clone().concat(device_id.as_str());
        let gatt_services: Vec<FakeBluetoothGATTService> = Vec::new();
        let uuids: Vec<String> = Vec::new();
        assert(uuids.deep_view() =~= Seq::empty());
        FakeBluetoothDevice::new(
            stack,
            id,
            adapter,
            String::new(),
            None,
            0,
            gatt_services,
            false,
            false,
            false,
            false,
            false,
            false,
            uuids,
            None,
            String::new(),
            String::new(),
            0,
            None,
            None,
            String::new(),
        )
    }

    /// The id of the device.
    pub fn get_id(&self, stack: &FakeBluetoothStack) -> (r: Result<String, BluetoothError>)
        ensures
            r is Ok <==> stack@.has_device(*self),
            r matches Ok(v) ==> v@ == stack@.device(*self).id,
            r matches Err(e) ==> e == BluetoothError::ValueUnavailable,
    {
        if self.index < stack.devices.len() {
            Ok(stack.devices[self.index].id.clone())
        } else {
            Err(BluetoothError::ValueUnavailable)
        }
    }

    /// Gives the device another id. Fails, and changes nothing, if a list that
    /// holds the device holds another device with that id.
    pub fn set_id(
        &self,
        stack: &mut FakeBluetoothStack,
        value: String,
    ) -> (r: Result<(), BluetoothError>)
        requires
            old(stack)@.wf(),
        ensures
            (final(stack)@, r) == old(stack)@.rename_device(*self, value@),
            r is Ok <==> old(stack)@.has_device(*self)
                && !old(stack)@.device_id_taken(*self, value@),
            final(stack)@.wf(),
    {
        if self.index >= stack.devices.len() {
            return Err(BluetoothError::ValueUnavailable);
        }
        if stack.device_id_taken(*self, &value) {
            return Err(BluetoothError::DuplicateId);
        }
        stack.devices[self.index].id = value;
        proof {
            let m = DeviceModel { id: value@, ..old(stack)@.device(*self) };
            assert(stack@ =~= old(stack)@.with_device(*self, m));
            old(stack)@.lemma_rename_device(*self, value@);
        }
        Ok(())
    }

    /// The address of the device.
    pub fn get_address(&self, stack: &FakeBluetoothStack) -> (r: Result<String, BluetoothError>)
        ensures
            r is Ok <==> stack@.has_device(*self),
            r matches Ok(v) ==> v@ == stack@.device(*self).address,
            r matches Err(e) ==> e == BluetoothError::ValueUnavailable,
    {
        if self.index < stack.devices.len() {
            Ok(stack.devices[self.index].address.clone())
        } else {
            Err(BluetoothError::ValueUnavailable)
        }
    }

    /// Sets the address of the device.
    pub fn set_address(
        &self,
        stack: &mut FakeBluetoothStack,
        value: String,
    ) -> (r: Result<(), BluetoothError>)
        ensures
            r is Ok <==> old(stack)@.has_device(*self),
            r is Ok ==> final(stack)@ == old(stack)@.with_device(
                *self,
                (DeviceModel { address: value@, ..old(stack)@.device(*self) }),
            ),
            r matches Err(e)
                ==> e == BluetoothError::ValueUnavailable && final(stack)@ == old(stack)@,
            old(stack)@.wf() ==> final(stack)@.wf(),
    {
        if self.index < stack.devices.len() {
            stack.devices[self.index].address = value;
            proof {
                let m = DeviceModel { address: value@, ..old(stack)@.device(*self) };
                assert(stack@ =~= old(stack)@.with_device(*self, m));
                if old(stack)@.wf() {
                    old(stack)@.lemma_with_device(*self, m);
                }
            }
            Ok(())
        } else {
            Err(BluetoothError::ValueUnavailable)
        }
    }

    /// The name of the device. Fails while the device has no name.
    pub fn get_name(&self, stack: &FakeBluetoothStack) -> (r: Result<String, BluetoothError>)
        ensures
            r is Ok <==> stack@.has_device(*self) && stack@.device(*self).name is Some,
            r matches Ok(v) ==> stack@.device(*self).name == Some(v@),
            r matches Err(e) ==> e == BluetoothError::ValueUnavailable,
    {
        if self.index < stack.devices.len() {
            match &stack.devices[self.index].name {
                Some(v) => Ok(v.clone()),
                None => Err(BluetoothError::ValueUnavailable),
            }
        } else {
            Err(BluetoothError::ValueUnavailable)
        }
    }

    /// Sets the name of the device, or takes it away.
    pub fn set_name(
        &self,
        stack: &mut FakeBluetoothStack,
        value: Option<String>,
    ) -> (r: Result<(), BluetoothError>)
        ensures
            r is Ok <==> old(stack)@.has_device(*self),
            r is Ok ==> final(stack)@ == old(stack)@.with_device(
                *self,
                (DeviceModel { name: text_of(value), ..old(stack)@.device(*self) }),
            ),
            r matches Err(e)
                ==> e == BluetoothError::ValueUnavailable && final(stack)@ == old(stack)@,
            old(stack)@.wf() ==> final(stack)@.wf(),
    {
        if self.index < stack.devices.len() {
            stack.devices[self.index].name = value;
            proof {
                let m = DeviceModel { name: text_of(value), ..old(stack)@.device(*self) };
                assert(stack@ =~= old(stack)@.with_device(*self, m));
                if old(stack)@.wf() {
                    old(stack)@.lemma_with_device(*self, m);
                }
            }
            Ok(())
        } else {
            Err(BluetoothError::ValueUnavailable)
        }
    }

    /// The icon of the device.
    pub fn get_icon(&self, stack: &FakeBluetoothStack) -> (r: Result<String, BluetoothError>)
        ensures
            r is Ok <==> stack@.has_device(*self),
            r matches Ok(v) ==> v@ == stack@.device(*self).icon,
            r matches Err(e) ==> e == BluetoothError::ValueUnavailable,
    {
        if self.index < stack.devices.len() {
            Ok(stack.devices[self.index].icon.clone())
        } else {
            Err(BluetoothError::ValueUnavailable)
        }
    }

    /// Sets the icon of the device.
    pub fn set_icon(
        &self,
        stack: &mut FakeBluetoothStack,
        value: String,
    ) -> (r: Result<(), BluetoothError>)
        ensures
            r is Ok <==> old(stack)@.has_device(*self),
            r is Ok ==> final(stack)@ == old(stack)@.with_device(
                *self,
                (DeviceModel { icon: value@, ..old(stack)@.device(*self) }),
            ),
            r matches Err(e)
                ==> e == BluetoothError::ValueUnavailable && final(stack)@ == old(stack)@,
            old(stack)@.wf() ==> final(stack)@.wf(),
    {
        if self.index < stack.devices.len() {
            stack.devices[self.index].icon = value;
            proof {
                let m = DeviceModel { icon: value@, ..old(stack)@.device(*self) };
                assert(stack@ =~= old(stack)@.with_device(*self, m));
                if old(stack)@.wf() {
                    old(stack)@.lemma_with_device(*self, m);
                }
            }
            Ok(())
        } else {
            Err(BluetoothError::ValueUnavailable)
        }
    }

    /// The class of the device.
    pub fn get_class(&self, stack: &FakeBluetoothStack) -> (r: Result<u32, BluetoothError>)
        ensures
            r is Ok <==> stack@.has_device(*self),
            r matches Ok(v) ==> v == stack@.device(*self).class,
            r matches Err(e) ==> e == BluetoothError::ValueUnavailable,
    {
        if self.index < stack.devices.len() {
            Ok(stack.devices[self.index].class)
        } else {
            Err(BluetoothError::ValueUnavailable)
        }
    }

    /// Sets the class of the device.
    pub fn set_class(
        &self,
        stack: &mut FakeBluetoothStack,
        value: u32,
    ) -> (r: Result<(), BluetoothError>)
        ensures
            r is Ok <==> old(stack)@.has_device(*self),
            r is Ok ==> final(stack)@ == old(stack)@.with_device(
                *self,
                (DeviceModel { class: value, ..old(stack)@.device(*self) }),
            ),
            r matches Err(e)
                ==> e == BluetoothError::ValueUnavailable && final(stack)@ == old(stack)@,
            old(stack)@.wf() ==> final(stack)@.wf(),
    {
        if self.index < stack.devices.len() {
            stack.devices[self.index].class = value;
            proof {
                let m = DeviceModel { class: value, ..old(stack)@.device(*self) };
                assert(stack@ =~= old(stack)@.with_device(*self, m));
                if old(stack)@.wf() {
                    old(stack)@.lemma_with_device(*self, m);
                }
            }
            Ok(())
        } else {
            Err(BluetoothError::ValueUnavailable)
        }
    }

    /// The appearance of the device. Fails while the device has none.
    pub fn get_appearance(&self, stack: &FakeBluetoothStack) -> (r: Result<u16, BluetoothError>)
        ensures
            r is Ok <==> stack@.has_device(*self) && stack@.device(*self).appearance is Some,
            r matches Ok(v) ==> stack@.device(*self).appearance == Some(v),
            r matches Err(e) ==> e == BluetoothError::ValueUnavailable,
    {
        if self.index < stack.devices.len() {
            match stack.devices[self.index].appearance {
                Some(v) => Ok(v),
                None => Err(BluetoothError::ValueUnavailable),
            }
        } else {
            Err(BluetoothError::ValueUnavailable)
        }
    }

    /// Sets the appearance of the device, or takes it away.
    pub fn set_appearance(
        &self,
        stack: &mut FakeBluetoothStack,
        value: Option<u16>,
    ) -> (r: Result<(), BluetoothError>)
        ensures
            r is Ok <==> old(stack)@.has_device(*self),
            r is Ok ==> final(stack)@ == old(stack)@.with_device(
                *self,
                (DeviceModel { appearance: value, ..old(stack)@.device(*self) }),
            ),
            r matches Err(e)
                ==> e == BluetoothError::ValueUnavailable && final(stack)@ == old(stack)@,
            old(stack)@.wf() ==> final(stack)@.wf(),
    {
        if self.index < stack.devices.len() {
            stack.devices[self.index].appearance = value;
            proof {
                let m = DeviceModel { appearance: value, ..old(stack)@.device(*self) };
                assert(stack@ =~= old(stack)@.with_device(*self, m));
                if old(stack)@.wf() {
                    old(stack)@.lemma_with_device(*self, m);
                }
            }
            Ok(())
        } else {
            Err(BluetoothError::ValueUnavailable)
        }
    }

    /// The UUIDs that the device advertises.
    pub fn get_uuids(&self, stack: &FakeBluetoothStack) -> (r: Result<Vec<String>, BluetoothError>)
        ensures
            r is Ok <==> stack@.has_device(*self),
            r matches Ok(v) ==> v.deep_view() == stack@.device(*self).uuids,
            r matches Err(e) ==> e == BluetoothError::ValueUnavailable,
    {
        if self.index < stack.devices.len() {
            let v = stack.devices[self.index].uuids.clone();
            assert(v@ =~= stack.devices[self.index as int].uuids@);
            Ok(v)
        } else {
            Err(BluetoothError::ValueUnavailable)
        }
    }

    /// Sets the UUIDs that the device advertises.
    pub fn set_uuids(
        &self,
        stack: &mut FakeBluetoothStack,
        value: Vec<String>,
    ) -> (r: Result<(), BluetoothError>)
        ensures
            r is Ok <==> old(stack)@.has_device(*self),
            r is Ok ==> final(stack)@ == old(stack)@.with_device(
                *self,
                (DeviceModel { uuids: value.deep_view(), ..old(stack)@.device(*self) }),
            ),
            r matches Err(e)
                ==> e == BluetoothError::ValueUnavailable && final(stack)@ == old(stack)@,
            old(stack)@.wf() ==> final(stack)@.wf(),
    {
        if self.index < stack.devices.len() {
            stack.devices[self.index].uuids = value;
            proof {
                let m = DeviceModel { uuids: value.deep_view(), ..old(stack)@.device(*self) };
                assert(stack@ =~= old(stack)@.with_device(*self, m));
                if old(stack)@.wf() {
                    old(stack)@.lemma_with_device(*self, m);
                }
            }
            Ok(())
        } else {
            Err(BluetoothError::ValueUnavailable)
        }
    }

    /// Whether the device is paired.
    pub fn is_paired(&self, stack: &FakeBluetoothStack) -> (r: Result<bool, BluetoothError>)
        ensures
            r is Ok <==> stack@.has_device(*self),
            r matches Ok(v) ==> v == stack@.device(*self).is_paired,
            r matches Err(e) ==> e == BluetoothError::ValueUnavailable,
    {
        if self.index < stack.devices.len() {
            Ok(stack.devices[self.index].is_paired)
        } else {
            Err(BluetoothError::ValueUnavailable)
        }
    }

    /// Sets whether the device is paired.
    pub fn set_paired(
        &self,
        stack: &mut FakeBluetoothStack,
        value: bool,
    ) -> (r: Result<(), BluetoothError>)
        ensures
            r is Ok <==> old(stack)@.has_device(*self),
            r is Ok ==> final(stack)@ == old(stack)@.with_device(
                *self,
                (DeviceModel { is_paired: value, ..old(stack)@.device(*self) }),
            ),
            r matches Err(e)
                ==> e == BluetoothError::ValueUnavailable && final(stack)@ == old(stack)@,
            old(stack)@.wf() ==> final(stack)@.wf(),
    {
        if self.index < stack.devices.len() {
            stack.devices[self.index].is_paired = value;
            proof {
                let m = DeviceModel { is_paired: value, ..old(stack)@.device(*self) };
                assert(stack@ =~= old(stack)@.with_device(*self, m));
                if old(stack)@.wf() {
                    old(stack)@.lemma_with_device(*self, m);
                }
            }
            Ok(())
        } else {
            Err(BluetoothError::ValueUnavailable)
        }
    }

    /// Whether the device accepts a connection.
    pub fn is_connectable(&self, stack: &FakeBluetoothStack) -> (r: Result<bool, BluetoothError>)
        ensures
            r is Ok <==> stack@.has_device(*self),
            r matches Ok(v) ==> v == stack@.device(*self).is_connectable,
            r matches Err(e) ==> e == BluetoothError::ValueUnavailable,
    {
        if self.index < stack.devices.len() {
            Ok(stack.devices[self.index].is_connectable)
        } else {
            Err(BluetoothError::ValueUnavailable)
        }
    }

    /// Sets whether the device accepts a connection.
    pub fn set_connectable(
        &self,
        stack: &mut FakeBluetoothStack,
        value: bool,
    ) -> (r: Result<(), BluetoothError>)
        ensures
            r is Ok <==> old(stack)@.has_device(*self),
            r is Ok ==> final(stack)@ == old(stack)@.with_device(
                *self,
                (DeviceModel { is_connectable: value, ..old(stack)@.device(*self) }),
            ),
            r matches Err(e)
                ==> e == BluetoothError::ValueUnavailable && final(stack)@ == old(stack)@,
            old(stack)@.wf() ==> final(stack)@.wf(),
    {
        if self.index < stack.devices.len() {
            stack.devices[self.index].is_connectable = value;
            proof {
                let m = DeviceModel { is_connectable: value, ..old(stack)@.device(*self) };
                assert(stack@ =~= old(stack)@.with_device(*self, m));
                if old(stack)@.wf() {
                    old(stack)@.lemma_with_device(*self, m);
                }
            }
            Ok(())
        } else {
            Err(BluetoothError::ValueUnavailable)
        }
    }

    /// Whether the device is connected.
    pub fn is_connected(&self, stack: &FakeBluetoothStack) -> (r: Result<bool, BluetoothError>)
        ensures
            r is Ok <==> stack@.has_device(*self),
            r matches Ok(v) ==> v == stack@.device(*self).is_connected,
            r matches Err(e) ==> e == BluetoothError::ValueUnavailable,
    {
        if self.index < stack.devices.len() {
            Ok(stack.devices[self.index].is_connected)
        } else {
            Err(BluetoothError::ValueUnavailable)
        }
    }

    /// Sets whether the device is connected, whatever it was.
    pub fn set_connected(
        &self,
        stack: &mut FakeBluetoothStack,
        value: bool,
    ) -> (r: Result<(), BluetoothError>)
        ensures
            r is Ok <==> old(stack)@.has_device(*self),
            r is Ok ==> final(stack)@ == old(stack)@.with_device(
                *self,
                (DeviceModel { is_connected: value, ..old(stack)@.device(*self) }),
            ),
            r matches Err(e)
                ==> e == BluetoothError::ValueUnavailable && final(stack)@ == old(stack)@,
            old(stack)@.wf() ==> final(stack)@.wf(),
    {
        if self.index < stack.devices.len() {
            stack.devices[self.index].is_connected = value;
            proof {
                let m = DeviceModel { is_connected: value, ..old(stack)@.device(*self) };
                assert(stack@ =~= old(stack)@.with_device(*self, m));
                if old(stack)@.wf() {
                    old(stack)@.lemma_with_device(*self, m);
                }
            }
            Ok(())
        } else {
            Err(BluetoothError::ValueUnavailable)
        }
    }

    /// Whether the device is trusted.
    pub fn is_trusted(&self, stack: &FakeBluetoothStack) -> (r: Result<bool, BluetoothError>)
        ensures
            r is Ok <==> stack@.has_device(*self),
            r matches Ok(v) ==> v == stack@.device(*self).is_trusted,
            r matches Err(e) ==> e == BluetoothError::ValueUnavailable,
    {
        if self.index < stack.devices.len() {
            Ok(stack.devices[self.index].is_trusted)
        } else {
            Err(BluetoothError::ValueUnavailable)
        }
    }

    /// Sets whether the device is trusted.
    pub fn set_trusted(
        &self,
        stack: &mut FakeBluetoothStack,
        value: bool,
    ) -> (r: Result<(), BluetoothError>)
        ensures
            r is Ok <==> old(stack)@.has_device(*self),
            r is Ok ==> final(stack)@ == old(stack)@.with_device(
                *self,
                (DeviceModel { is_trusted: value, ..old(stack)@.device(*self) }),
            ),
            r matches Err(e)
                ==> e == BluetoothError::ValueUnavailable && final(stack)@ == old(stack)@,
            old(stack)@.wf() ==> final(stack)@.wf(),
    {
        if self.index < stack.devices.len() {
            stack.devices[self.index].is_trusted = value;
            proof {
                let m = DeviceModel { is_trusted: value, ..old(stack)@.device(*self) };
                assert(stack@ =~= old(stack)@.with_device(*self, m));
                if old(stack)@.wf() {
                    old(stack)@.lemma_with_device(*self, m);
                }
            }
            Ok(())
        } else {
            Err(BluetoothError::ValueUnavailable)
        }
    }

    /// Whether the device is blocked.
    pub fn is_blocked(&self, stack: &FakeBluetoothStack) -> (r: Result<bool, BluetoothError>)
        ensures
            r is Ok <==> stack@.has_device(*self),
            r matches Ok(v) ==> v == stack@.device(*self).is_blocked,
            r matches Err(e) ==> e == BluetoothError::ValueUnavailable,
    {
        if self.index < stack.devices.len() {
            Ok(stack.devices[self.index].is_blocked)
        } else {
            Err(BluetoothError::ValueUnavailable)
        }
    }

    /// Sets whether the device is blocked.
    pub fn set_blocked(
        &self,
        stack: &mut FakeBluetoothStack,
        value: bool,
    ) -> (r: Result<(), BluetoothError>)
        ensures
            r is Ok <==> old(stack)@.has_device(*self),
            r is Ok ==> final(stack)@ == old(stack)@.with_device(
                *self,
                (DeviceModel { is_blocked: value, ..old(stack)@.device(*self) }),
            ),
            r matches Err(e)
                ==> e == BluetoothError::ValueUnavailable && final(stack)@ == old(stack)@,
            old(stack)@.wf() ==> final(stack)@.wf(),
    {
        if self.index < stack.devices.len() {
            stack.devices[self.index].is_blocked = value;
            proof {
                let m = DeviceModel { is_blocked: value, ..old(stack)@.device(*self) };
                assert(stack@ =~= old(stack)@.with_device(*self, m));
                if old(stack)@.wf() {
                    old(stack)@.lemma_with_device(*self, m);
                }
            }
            Ok(())
        } else {
            Err(BluetoothError::ValueUnavailable)
        }
    }

    /// The alias of the device.
    pub fn get_alias(&self, stack: &FakeBluetoothStack) -> (r: Result<String, BluetoothError>)
        ensures
            r is Ok <==> stack@.has_device(*self),
            r matches Ok(v) ==> v@ == stack@.device(*self).alias,
            r matches Err(e) ==> e == BluetoothError::ValueUnavailable,
    {
        if self.index < stack.devices.len() {
            Ok(stack.devices[self.index].alias.clone())
        } else {
            Err(BluetoothError::ValueUnavailable)
        }
    }

    /// Sets the alias of the device.
    pub fn set_alias(
        &self,
        stack: &mut FakeBluetoothStack,
        value: String,
    ) -> (r: Result<(), BluetoothError>)
        ensures
            r is Ok <==> old(stack)@.has_device(*self),
            r is Ok ==> final(stack)@ == old(stack)@.with_device(
                *self,
                (DeviceModel { alias: value@, ..old(stack)@.device(*self) }),
            ),
            r matches Err(e)
                ==> e == BluetoothError::ValueUnavailable && final(stack)@ == old(stack)@,
            old(stack)@.wf() ==> final(stack)@.wf(),
    {
        if self.index < stack.devices.len() {
            stack.devices[self.index].alias = value;
            proof {
                let m = DeviceModel { alias: value@, ..old(stack)@.device(*self) };
                assert(stack@ =~= old(stack)@.with_device(*self, m));
                if old(stack)@.wf() {
                    old(stack)@.lemma_with_device(*self, m);
                }
            }
            Ok(())
        } else {
            Err(BluetoothError::ValueUnavailable)
        }
    }

    /// Whether the device pairs the legacy way.
    pub fn is_legacy_pairing(&self, stack: &FakeBluetoothStack) -> (r: Result<bool, BluetoothError>)
        ensures
            r is Ok <==> stack@.has_device(*self),
            r matches Ok(v) ==> v == stack@.device(*self).is_legacy_pairing,
            r matches Err(e) ==> e == BluetoothError::ValueUnavailable,
    {
        if self.index < stack.devices.len() {
            Ok(stack.devices[self.index].is_legacy_pairing)
        } else {
            Err(BluetoothError::ValueUnavailable)
        }
    }

    /// Sets whether the device pairs the legacy way.
    pub fn set_legacy_pairing(
        &self,
        stack: &mut FakeBluetoothStack,
        value: bool,
    ) -> (r: Result<(), BluetoothError>)
        ensures
            r is Ok <==> old(stack)@.has_device(*self),
            r is Ok ==> final(stack)@ == old(stack)@.with_device(
                *self,
                (DeviceModel { is_legacy_pairing: value, ..old(stack)@.device(*self) }),
            ),
            r matches Err(e)
                ==> e == BluetoothError::ValueUnavailable && final(stack)@ == old(stack)@,
            old(stack)@.wf() ==> final(stack)@.wf(),
    {
        if self.index < stack.devices.len() {
            stack.devices[self.index].is_legacy_pairing = value;
            proof {
                let m = DeviceModel { is_legacy_pairing: value, ..old(stack)@.device(*self) };
                assert(stack@ =~= old(stack)@.with_device(*self, m));
                if old(stack)@.wf() {
                    old(stack)@.lemma_with_device(*self, m);
                }
            }
            Ok(())
        } else {
            Err(BluetoothError::ValueUnavailable)
        }
    }

    /// Sets the modalias of the device. The string is not looked at until it is
    /// decoded.
    pub fn set_modalias(
        &self,
        stack: &mut FakeBluetoothStack,
        value: String,
    ) -> (r: Result<(), BluetoothError>)
        ensures
            r is Ok <==> old(stack)@.has_device(*self),
            r is Ok ==> final(stack)@ == old(stack)@.with_device(
                *self,
                (DeviceModel { modalias: value@, ..old(stack)@.device(*self) }),
            ),
            r matches Err(e)
                ==> e == BluetoothError::ValueUnavailable && final(stack)@ == old(stack)@,
            old(stack)@.wf() ==> final(stack)@.wf(),
    {
        if self.index < stack.devices.len() {
            stack.devices[self.index].modalias = value;
            proof {
                let m = DeviceModel { modalias: value@, ..old(stack)@.device(*self) };
                assert(stack@ =~= old(stack)@.with_device(*self, m));
                if old(stack)@.wf() {
                    old(stack)@.lemma_with_device(*self, m);
                }
            }
            Ok(())
        } else {
            Err(BluetoothError::ValueUnavailable)
        }
    }

    /// The signal strength of the device. Fails while none is known.
    pub fn get_rssi(&self, stack: &FakeBluetoothStack) -> (r: Result<i16, BluetoothError>)
        ensures
            r is Ok <==> stack@.has_device(*self) && stack@.device(*self).rssi is Some,
            r matches Ok(v) ==> stack@.device(*self).rssi == Some(v),
            r matches Err(e) ==> e == BluetoothError::ValueUnavailable,
    {
        if self.index < stack.devices.len() {
            match stack.devices[self.index].rssi {
                Some(v) => Ok(v),
                None => Err(BluetoothError::ValueUnavailable),
            }
        } else {
            Err(BluetoothError::ValueUnavailable)
        }
    }

    /// Sets the signal strength of the device, or takes it away.
    pub fn set_rssi(
        &self,
        stack: &mut FakeBluetoothStack,
        value: Option<i16>,
    ) -> (r: Result<(), BluetoothError>)
        ensures
            r is Ok <==> old(stack)@.has_device(*self),
            r is Ok ==> final(stack)@ == old(stack)@.with_device(
                *self,
                (DeviceModel { rssi: value, ..old(stack)@.device(*self) }),
            ),
            r matches Err(e)
                ==> e == BluetoothError::ValueUnavailable && final(stack)@ == old(stack)@,
            old(stack)@.wf() ==> final(stack)@.wf(),
    {
        if self.index < stack.devices.len() {
            stack.devices[self.index].rssi = value;
            proof {
                let m = DeviceModel { rssi: value, ..old(stack)@.device(*self) };
                assert(stack@ =~= old(stack)@.with_device(*self, m));
                if old(stack)@.wf() {
                    old(stack)@.lemma_with_device(*self, m);
                }
            }
            Ok(())
        } else {
            Err(BluetoothError::ValueUnavailable)
        }
    }

    /// The transmission power of the device. Fails while none is known.
    pub fn get_tx_power(&self, stack: &FakeBluetoothStack) -> (r: Result<i16, BluetoothError>)
        ensures
            r is Ok <==> stack@.has_device(*self) && stack@.device(*self).tx_power is Some,
            r matches Ok(v) ==> stack@.device(*self).tx_power == Some(v),
            r matches Err(e) ==> e == BluetoothError::ValueUnavailable,
    {
        if self.index < stack.devices.len() {
            match stack.devices[self.index].tx_power {
                Some(v) => Ok(v),
                None => Err(BluetoothError::ValueUnavailable),
            }
        } else {
            Err(BluetoothError::ValueUnavailable)
        }
    }

    /// Sets the transmission power of the device, or takes it away.
    pub fn set_tx_power(
        &self,
        stack: &mut FakeBluetoothStack,
        value: Option<i16>,
    ) -> (r: Result<(), BluetoothError>)
        ensures
            r is Ok <==> old(stack)@.has_device(*self),
            r is Ok ==> final(stack)@ == old(stack)@.with_device(
                *self,
                (DeviceModel { tx_power: value, ..old(stack)@.device(*self) }),
            ),
            r matches Err(e)
                ==> e == BluetoothError::ValueUnavailable && final(stack)@ == old(stack)@,
            old(stack)@.wf() ==> final(stack)@.wf(),
    {
        if self.index < stack.devices.len() {
            stack.devices[self.index].tx_power = value;
            proof {
                let m = DeviceModel { tx_power: value, ..old(stack)@.device(*self) };
                assert(stack@ =~= old(stack)@.with_device(*self, m));
                if old(stack)@.wf() {
                    old(stack)@.lemma_with_device(*self, m);
                }
            }
            Ok(())
        } else {
            Err(BluetoothError::ValueUnavailable)
        }
    }


    /// The adapter that the device was created under.
    pub fn get_adapter(
        &self,
        stack: &FakeBluetoothStack,
    ) -> (r: Result<FakeBluetoothAdapter, BluetoothError>)
        ensures
            r is Ok <==> stack@.has_device(*self),
            r matches Ok(adapter) ==> adapter == stack@.device(*self).adapter,
            r matches Ok(adapter) ==> (stack@.wf() ==> stack@.has_adapter(adapter)),
            r matches Err(e) ==> e == BluetoothError::ValueUnavailable,
    {
        if self.index < stack.devices.len() {
            Ok(stack.devices[self.index].adapter)
        } else {
            Err(BluetoothError::ValueUnavailable)
        }
    }

    /// Pairs the device.
    pub fn pair(&self, stack: &mut FakeBluetoothStack) -> (r: Result<(), BluetoothError>)
        ensures
            r is Ok <==> old(stack)@.has_device(*self),
            r is Ok ==> final(stack)@ == old(stack)@.with_device(
                *self,
                (DeviceModel { is_paired: true, ..old(stack)@.device(*self) }),
            ),
            r matches Err(e)
                ==> e == BluetoothError::ValueUnavailable && final(stack)@ == old(stack)@,
            old(stack)@.wf() ==> final(stack)@.wf(),
    {
        self.set_paired(stack, true)
    }

    /// Takes the pairing of the device back.
    pub fn cancel_pairing(&self, stack: &mut FakeBluetoothStack) -> (r: Result<(), BluetoothError>)
        ensures
            r is Ok <==> old(stack)@.has_device(*self),
            r is Ok ==> final(stack)@ == old(stack)@.with_device(
                *self,
                (DeviceModel { is_paired: false, ..old(stack)@.device(*self) }),
            ),
            r matches Err(e)
                ==> e == BluetoothError::ValueUnavailable && final(stack)@ == old(stack)@,
            old(stack)@.wf() ==> final(stack)@.wf(),
    {
        self.set_paired(stack, false)
    }

    /// The modalias of the device, decoded: its source and its vendor,
    /// product and device numbers. Fails if the device does not exist, and if
    /// its modalias has not the shape `source:vVVVVpPPPPdDDDD`.
    pub fn get_modalias(
        &self,
        stack: &FakeBluetoothStack,
    ) -> (r: Result<(String, u32, u32, u32), BluetoothError>)
        ensures
            r is Ok <==> stack@.has_device(*self) && modalias_well_formed(
                stack@.device(*self).modalias,
            ),
            r matches Ok(parts) ==> parts.0@ == modalias_source(stack@.device(*self).modalias)
                && parts.1 == modalias_vendor(stack@.device(*self).modalias) && parts.2
                == modalias_product(stack@.device(*self).modalias) && parts.3 == modalias_device(
                stack@.device(*self).modalias,
            ),
            r matches Err(e) ==> e == if stack@.has_device(*self) {
                BluetoothError::MalformedModalias
            } else {
                BluetoothError::ValueUnavailable
            },
    {
        if self.index < stack.devices.len() {
            parse_modalias(stack.devices[self.index].modalias.as_str())
        } else {
            Err(BluetoothError::ValueUnavailable)
        }
    }

    /// The source of the vendor id: what stands before the `:` of the
    /// modalias. Fails where [`FakeBluetoothDevice::get_modalias`] fails.
    pub fn get_vendor_id_source(
        &self,
        stack: &FakeBluetoothStack,
    ) -> (r: Result<String, BluetoothError>)
        ensures
            r is Ok <==> stack@.has_device(*self) && modalias_well_formed(
                stack@.device(*self).modalias,
            ),
            r matches Ok(source) ==> source@ == modalias_source(stack@.device(*self).modalias),
            r matches Err(e) ==> e == if stack@.has_device(*self) {
                BluetoothError::MalformedModalias
            } else {
                BluetoothError::ValueUnavailable
            },
    {
        match self.get_modalias(stack) {
            Ok(parts) => Ok(parts.0),
            Err(e) => Err(e),
        }
    }

    /// The vendor number of the modalias. Fails where
    /// [`FakeBluetoothDevice::get_modalias`] fails.
    pub fn get_vendor_id(&self, stack: &FakeBluetoothStack) -> (r: Result<u32, BluetoothError>)
        ensures
            r is Ok <==> stack@.has_device(*self) && modalias_well_formed(
                stack@.device(*self).modalias,
            ),
            r matches Ok(vendor) ==> vendor == modalias_vendor(stack@.device(*self).modalias),
            r matches Err(e) ==> e == if stack@.has_device(*self) {
                BluetoothError::MalformedModalias
            } else {
                BluetoothError::ValueUnavailable
            },
    {
        match self.get_modalias(stack) {
            Ok(parts) => Ok(parts.1),
            Err(e) => Err(e),
        }
    }

    /// The product number of the modalias. Fails where
    /// [`FakeBluetoothDevice::get_modalias`] fails.
    pub fn get_product_id(&self, stack: &FakeBluetoothStack) -> (r: Result<u32, BluetoothError>)
        ensures
            r is Ok <==> stack@.has_device(*self) && modalias_well_formed(
                stack@.device(*self).modalias,
            ),
            r matches Ok(product) ==> product == modalias_product(stack@.device(*self).modalias),
            r matches Err(e) ==> e == if stack@.has_device(*self) {
                BluetoothError::MalformedModalias
            } else {
                BluetoothError::ValueUnavailable
            },
    {
        match self.get_modalias(stack) {
            Ok(parts) => Ok(parts.2),
            Err(e) => Err(e),
        }
    }

    /// The device number of the modalias. Fails where
    /// [`FakeBluetoothDevice::get_modalias`] fails.
    pub fn get_device_id(&self, stack: &FakeBluetoothStack) -> (r: Result<u32, BluetoothError>)
        ensures
            r is Ok <==> stack@.has_device(*self) && modalias_well_formed(
                stack@.device(*self).modalias,
            ),
            r matches Ok(device) ==> device == modalias_device(stack@.device(*self).modalias),
            r matches Err(e) ==> e == if stack@.has_device(*self) {
                BluetoothError::MalformedModalias
            } else {
                BluetoothError::ValueUnavailable
            },
    {
        match self.get_modalias(stack) {
            Ok(parts) => Ok(parts.3),
            Err(e) => Err(e),
        }
    }

    /// The ids of the services of the device, in the order in which they were
    /// added. Fails while the device is not connected.
    pub fn get_gatt_services(
        &self,
        stack: &FakeBluetoothStack,
    ) -> (r: Result<Vec<String>, BluetoothError>)
        requires
            stack@.wf(),
        ensures
            r is Ok <==> stack@.has_device(*self) && stack@.device(*self).is_connected,
            r matches Ok(ids) ==> ids.deep_view() == stack@.service_ids(
                stack@.device(*self).gatt_services,
            ),
            r matches Err(e) ==> e == if stack@.has_device(*self) {
                BluetoothError::DeviceNotConnected
            } else {
                BluetoothError::ValueUnavailable
            },
    {
        if self.index >= stack.devices.len() {
            return Err(BluetoothError::ValueUnavailable);
        }
        if !stack.devices[self.index].is_connected {
            return Err(BluetoothError::DeviceNotConnected);
        }
        assert(stack@.has_services(stack@.devices[self.index as int].gatt_services));
        Ok(stack.service_ids(&stack.devices[self.index].gatt_services))
    }

    /// The services of the device, in the order in which they were added.
    /// Fails while the device is not connected.
    pub fn get_gatt_service_structs(
        &self,
        stack: &FakeBluetoothStack,
    ) -> (r: Result<Vec<FakeBluetoothGATTService>, BluetoothError>)
        ensures
            r is Ok <==> stack@.has_device(*self) && stack@.device(*self).is_connected,
            r matches Ok(services) ==> services@ == stack@.device(*self).gatt_services,
            r matches Err(e) ==> e == if stack@.has_device(*self) {
                BluetoothError::DeviceNotConnected
            } else {
                BluetoothError::ValueUnavailable
            },
    {
        if self.index >= stack.devices.len() {
            return Err(BluetoothError::ValueUnavailable);
        }
        if !stack.devices[self.index].is_connected {
            return Err(BluetoothError::DeviceNotConnected);
        }
        let services = stack.devices[self.index].gatt_services.clone();
        assert(services@ =~= stack.devices[self.index as int].gatt_services@);
        Ok(services)
    }

    /// The first service of the device that has the given id. Fails while
    /// the device is not connected, and if it holds no such service.
    pub fn get_gatt_service(
        &self,
        stack: &FakeBluetoothStack,
        id: String,
    ) -> (r: Result<FakeBluetoothGATTService, BluetoothError>)
        requires
            stack@.wf(),
        ensures
            r is Ok <==> stack@.has_device(*self) && stack@.device(*self).is_connected
                && stack@.find_service(stack@.device(*self).gatt_services, id@) is Some,
            r matches Ok(found) ==> stack@.find_service(
                stack@.device(*self).gatt_services,
                id@,
            ) == Some(found),
            r matches Ok(found) ==> stack@.has_service(found) && stack@.service(found).id == id@,
            r matches Err(e) ==> e == if !stack@.has_device(*self) {
                BluetoothError::ValueUnavailable
            } else if !stack@.device(*self).is_connected {
                BluetoothError::DeviceNotConnected
            } else {
                BluetoothError::NoSuchService
            },
    {
        if self.index >= stack.devices.len() {
            return Err(BluetoothError::ValueUnavailable);
        }
        if !stack.devices[self.index].is_connected {
            return Err(BluetoothError::DeviceNotConnected);
        }
        proof {
            assert(stack@.has_services(stack@.devices[self.index as int].gatt_services));
            lemma_first_with_id(stack@.device(*self).gatt_services, stack@.service_id(), id@);
        }
        match stack.find_service(&stack.devices[self.index].gatt_services, &id) {
            Some(found) => Ok(found),
            None => Err(BluetoothError::NoSuchService),
        }
    }

    /// Adds a service at the end of the services of the device, whatever device
    /// it was created under. Fails, and changes nothing, if the device or the
    /// service does not exist, and if the device already holds a service with
    /// the id of the one to add.
    pub fn add_service(
        &self,
        stack: &mut FakeBluetoothStack,
        service: FakeBluetoothGATTService,
    ) -> (r: Result<(), BluetoothError>)
        requires
            old(stack)@.wf(),
        ensures
            (final(stack)@, r) == old(stack)@.add_service(*self, service),
            r is Ok <==> old(stack)@.has_device(*self) && old(stack)@.has_service(service)
                && old(stack)@.find_service(
                old(stack)@.device(*self).gatt_services,
                old(stack)@.service(service).id,
            ) is None,
            final(stack)@.wf(),
    {
        if self.index >= stack.devices.len() || service.index >= stack.services.len() {
            return Err(BluetoothError::ValueUnavailable);
        }
        assert(stack@.has_services(stack@.devices[self.index as int].gatt_services));
        if stack.find_service(
            &stack.devices[self.index].gatt_services,
            &stack.services[service.index].id,
        ).is_some() {
            return Err(BluetoothError::DuplicateId);
        }
        stack.devices[self.index].gatt_services.push(service);
        proof {
            assert(stack@ =~= old(stack)@.add_service(*self, service).0);
            old(stack)@.lemma_add_service(*self, service);
        }
        Ok(())
    }

    /// Takes every service with the given id out of the services of the device.
    /// The services themselves stay in the stack. Fails if the device does not
    /// exist.
    pub fn remove_service(
        &self,
        stack: &mut FakeBluetoothStack,
        id: String,
    ) -> (r: Result<(), BluetoothError>)
        requires
            old(stack)@.wf(),
        ensures
            r is Ok <==> old(stack)@.has_device(*self),
            r is Ok ==> final(stack)@ == old(stack)@.remove_service(*self, id@),
            r matches Err(e)
                ==> e == BluetoothError::ValueUnavailable && final(stack)@ == old(stack)@,
            final(stack)@.wf(),
    {
        if self.index < stack.devices.len() {
            assert(stack@.has_services(stack@.devices[self.index as int].gatt_services));
            let kept = stack.services_without(&stack.devices[self.index].gatt_services, &id);
            stack.devices[self.index].gatt_services = kept;
            proof {
                assert(stack@ =~= old(stack)@.remove_service(*self, id@));
                old(stack)@.lemma_remove_service(*self, id@);
            }
            Ok(())
        } else {
            Err(BluetoothError::ValueUnavailable)
        }
    }

    /// Connecting a profile is not supported: always fails.
    pub fn connect_profile(
        &self,
        stack: &FakeBluetoothStack,
        uuid: String,
    ) -> (r: Result<(), BluetoothError>)
        ensures
            r == Err::<(), BluetoothError>(BluetoothError::NotImplemented),
    {
        Err(BluetoothError::NotImplemented)
    }

    /// Disconnecting a profile is not supported: always fails.
    pub fn disconnect_profile(
        &self,
        stack: &FakeBluetoothStack,
        uuid: String,
    ) -> (r: Result<(), BluetoothError>)
        ensures
            r == Err::<(), BluetoothError>(BluetoothError::NotImplemented),
    {
        Err(BluetoothError::NotImplemented)
    }

    /// Connects the device. Succeeds, and changes nothing, on a device that
    /// is connected already; connects a device that is connectable; fails on
    /// one that is neither.
    pub fn connect(&self, stack: &mut FakeBluetoothStack) -> (r: Result<(), BluetoothError>)
        ensures
            r is Ok <==> old(stack)@.has_device(*self) && (old(stack)@.device(*self).is_connected
                || old(stack)@.device(*self).is_connectable),
            r is Ok ==> final(stack)@ == old(stack)@.with_device(
                *self,
                (DeviceModel { is_connected: true, ..old(stack)@.device(*self) }),
            ),
            r matches Err(e) ==> final(stack)@ == old(stack)@ && e == if old(stack)@.has_device(
                *self,
            ) {
                BluetoothError::CannotConnect
            } else {
                BluetoothError::ValueUnavailable
            },
            old(stack)@.wf() ==> final(stack)@.wf(),
    {
        if self.index >= stack.devices.len() {
            return Err(BluetoothError::ValueUnavailable);
        }
        let is_connectable = stack.devices[self.index].is_connectable;
        let is_connected = stack.devices[self.index].is_connected;
        if is_connected {
            proof {
                let m = DeviceModel { is_connected: true, ..old(stack)@.device(*self) };
                assert(stack@ =~= old(stack)@.with_device(*self, m));
            }
            return Ok(());
        }
        if is_connectable {
            return self.set_connected(stack, true);
        }
        Err(BluetoothError::CannotConnect)
    }

    /// Disconnects the device. Fails on a device that is not connected.
    pub fn disconnect(&self, stack: &mut FakeBluetoothStack) -> (r: Result<(), BluetoothError>)
        ensures
            r is Ok <==> old(stack)@.has_device(*self) && old(stack)@.device(*self).is_connected,
            r is Ok ==> final(stack)@ == old(stack)@.with_device(
                *self,
                (DeviceModel { is_connected: false, ..old(stack)@.device(*self) }),
            ),
            r matches Err(e) ==> final(stack)@ == old(stack)@ && e == if old(stack)@.has_device(
                *self,
            ) {
                BluetoothError::NotConnected
            } else {
                BluetoothError::ValueUnavailable
            },
            old(stack)@.wf() ==> final(stack)@.wf(),
    {
        if self.index >= stack.devices.len() {
            return Err(BluetoothError::ValueUnavailable);
        }
        if stack.devices[self.index].is_connected {
            return self.set_connected(stack, false);
        }
        Err(BluetoothError::NotConnected)
    }
}

} // verus!
