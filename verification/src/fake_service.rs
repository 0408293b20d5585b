//! GATT services: what a connected device offers.

use vstd::prelude::*;
use vstd::string::StringExecFns;
use crate::error::BluetoothError;
use crate::fake_characteristic::FakeBluetoothGATTCharacteristic;
use crate::fake_device::FakeBluetoothDevice;
use crate::model::{ids_distinct, lemma_first_with_id, ServiceModel};
use crate::stack::{FakeBluetoothStack, ServiceRecord};

verus! {

/// A handle on one GATT service of a stack. Copies of a handle name the same
/// service: what is changed through one is seen through the other.
#[derive(Clone, Copy, Debug, PartialEq, Eq, Hash, Structural)]
pub struct FakeBluetoothGATTService {
    /// The position of the service among those of its stack.
    pub index: usize,
}

impl FakeBluetoothGATTService {
    /// The service with the given id under the given device: the one that the
    /// device already holds under that id, if there is one, whether or not
    /// the device is connected, and else a new service with the given
    /// attributes, added at the end of the device's services. Fails if the
    /// device, or one of the characteristics or included services of a
    /// service that would be new, does not exist, and if two in one of those
    /// lists have the same id.
    pub fn new(
        stack: &mut FakeBluetoothStack,
        id: String,
        device: FakeBluetoothDevice,
        gatt_characteristics: Vec<FakeBluetoothGATTCharacteristic>,
        is_primary: bool,
        included_services: Vec<FakeBluetoothGATTService>,
        uuid: String,
    ) -> (r: Result<FakeBluetoothGATTService, BluetoothError>)
        requires
            old(stack)@.wf(),
        ensures
            (final(stack)@, r) == old(stack)@.create_service(
                (ServiceModel {
                    id: id@,
                    device,
                    gatt_characteristics: gatt_characteristics@,
                    is_primary,
                    included_services: included_services@,
                    uuid: uuid@,
                }),
            ),
            final(stack)@.wf(),
            old(stack)@.grows_to(final(stack)@),
            r matches Ok(service) ==> final(stack)@.has_service(service) && final(stack)@.service(
                service,
            ).id == id@,
            r matches Err(e)
                ==> e == BluetoothError::ValueUnavailable || e == BluetoothError::DuplicateId,
    {
        if device.index >= stack.devices.len() {
            return Err(BluetoothError::ValueUnavailable);
        }
        proof {
            assert(stack@.has_services(stack@.devices[device.index as int].gatt_services));
            lemma_first_with_id(stack@.device(device).gatt_services, stack@.service_id(), id@);
        }
        if let Some(existing) = stack.find_service(
            &stack.devices[device.index].gatt_services,
            &id,
        ) {
            return Ok(existing);
        }
        if !stack.has_characteristics(&gatt_characteristics) || !stack.has_services(
            &included_services,
        ) {
            return Err(BluetoothError::ValueUnavailable);
        }
        if !stack.distinct_characteristic_ids(&gatt_characteristics)
            || !stack.distinct_service_ids(&included_services) {
            return Err(BluetoothError::DuplicateId);
        }
        let service = FakeBluetoothGATTService { index: stack.services.len() };
        let record = ServiceRecord {
            id,
            device,
            gatt_characteristics,
            is_primary,
            included_services,
            uuid,
        };
        let ghost init = record@;
        stack.services.push(record);
        stack.devices[device.index].gatt_services.push(service);
        proof {
            assert(stack@ =~= old(stack)@.insert_service(init));
            assert(old(stack)@.services.len() + 1 == stack.services.len());
            old(stack)@.lemma_insert_service(init);
        }
        Ok(service)
    }

    /// The service whose id is the device's id followed by `service_id`,
    /// under the given device: the one that the device already holds under
    /// that id, if there is one, and else a new service without any attribute
    /// set. Fails if the device does not exist.
    pub fn new_empty(
        stack: &mut FakeBluetoothStack,
        device: FakeBluetoothDevice,
        service_id: String,
    ) -> (r: Result<FakeBluetoothGATTService, BluetoothError>)
        requires
            old(stack)@.wf(),
        ensures
            (final(stack)@, r) == old(stack)@.create_service(
                ServiceModel::empty(old(stack)@.device(device).id + service_id@, device),
            ),
            r is Ok <==> old(stack)@.has_device(device),
            final(stack)@.wf(),
            old(stack)@.grows_to(final(stack)@),
            r matches Ok(service) ==> final(stack)@.has_service(service) && final(stack)@.service(
                service,
            ).id == old(stack)@.device(device).id + service_id@,
            r matches Err(e) ==> e == BluetoothError::ValueUnavailable,
    {
        if device.index >= stack.devices.len() {
            return Err(BluetoothError::ValueUnavailable);
        }
        let id = stack.devices[device.index].id.clone().concat(service_id.as_str());
        FakeBluetoothGATTService::new(
            stack,
            id,
            device,
            Vec::new(),
            false,
            Vec::new(),
            String::new(),
        )
    }

    /// The id of the service.
    pub fn get_id(&self, stack: &FakeBluetoothStack) -> (r: Result<String, BluetoothError>)
        ensures
            r is Ok <==> stack@.has_service(*self),
            r matches Ok(v) ==> v@ == stack@.service(*self).id,
            r matches Err(e) ==> e == BluetoothError::ValueUnavailable,
    {
        if self.index < stack.services.len() {
            Ok(stack.services[self.index].id.clone())
        } else {
            Err(BluetoothError::ValueUnavailable)
        }
    }

    /// Gives the service another id. Fails, and changes nothing, if a list that
    /// holds the service holds another service with that id.
    pub fn set_id(
        &self,
        stack: &mut FakeBluetoothStack,
        value: String,
    ) -> (r: Result<(), BluetoothError>)
        requires
            old(stack)@.wf(),
        ensures
            (final(stack)@, r) == old(stack)@.rename_service(*self, value@),
            r is Ok <==> old(stack)@.has_service(*self)
                && !old(stack)@.service_id_taken(*self, value@),
            final(stack)@.wf(),
    {
        if self.index >= stack.services.len() {
            return Err(BluetoothError::ValueUnavailable);
        }
        if stack.service_id_taken(*self, &value) {
            return Err(BluetoothError::DuplicateId);
        }
        stack.services[self.index].id = value;
        proof {
            let m = ServiceModel { id: value@, ..old(stack)@.service(*self) };
            assert(stack@ =~= old(stack)@.with_service(*self, m));
            old(stack)@.lemma_rename_service(*self, value@);
        }
        Ok(())
    }

    /// The characteristics of the service, in the order in which they were
    /// added.
    pub fn get_gatt_characteristic_structs(
        &self,
        stack: &FakeBluetoothStack,
    ) -> (r: Result<Vec<FakeBluetoothGATTCharacteristic>, BluetoothError>)
        ensures
            r is Ok <==> stack@.has_service(*self),
            r matches Ok(v) ==> v@ == stack@.service(*self).gatt_characteristics,
            r matches Err(e) ==> e == BluetoothError::ValueUnavailable,
    {
        if self.index < stack.services.len() {
            let v = stack.services[self.index].gatt_characteristics.clone();
            assert(v@ =~= stack.services[self.index as int].gatt_characteristics@);
            Ok(v)
        } else {
            Err(BluetoothError::ValueUnavailable)
        }
    }

    /// Whether the service is a primary one.
    pub fn is_primary(&self, stack: &FakeBluetoothStack) -> (r: Result<bool, BluetoothError>)
        ensures
            r is Ok <==> stack@.has_service(*self),
            r matches Ok(v) ==> v == stack@.service(*self).is_primary,
            r matches Err(e) ==> e == BluetoothError::ValueUnavailable,
    {
        if self.index < stack.services.len() {
            Ok(stack.services[self.index].is_primary)
        } else {
            Err(BluetoothError::ValueUnavailable)
        }
    }

    /// Sets whether the service is a primary one.
    pub fn set_is_primary(
        &self,
        stack: &mut FakeBluetoothStack,
        value: bool,
    ) -> (r: Result<(), BluetoothError>)
        ensures
            r is Ok <==> old(stack)@.has_service(*self),
            r is Ok ==> final(stack)@ == old(stack)@.with_service(
                *self,
                (ServiceModel { is_primary: value, ..old(stack)@.service(*self) }),
            ),
            r matches Err(e)
                ==> e == BluetoothError::ValueUnavailable && final(stack)@ == old(stack)@,
            old(stack)@.wf() ==> final(stack)@.wf(),
    {
        if self.index < stack.services.len() {
            stack.services[self.index].is_primary = value;
            proof {
                let m = ServiceModel { is_primary: value, ..old(stack)@.service(*self) };
                assert(stack@ =~= old(stack)@.with_service(*self, m));
                if old(stack)@.wf() {
                    old(stack)@.lemma_with_service(*self, m);
                }
            }
            Ok(())
        } else {
            Err(BluetoothError::ValueUnavailable)
        }
    }

    /// Sets the services that this one includes. Fails, and changes nothing, if
    /// the service or one of those does not exist, or if two of those have the
    /// same id.
    pub fn set_includes(
        &self,
        stack: &mut FakeBluetoothStack,
        value: Vec<FakeBluetoothGATTService>,
    ) -> (r: Result<(), BluetoothError>)
        requires
            old(stack)@.wf(),
        ensures
            r is Ok <==> old(stack)@.has_service(*self) && old(stack)@.has_services(value@)
                && ids_distinct(value@, old(stack)@.service_id()),
            r is Ok ==> final(stack)@ == old(stack)@.with_service(
                *self,
                (ServiceModel { included_services: value@, ..old(stack)@.service(*self) }),
            ),
            r is Err ==> final(stack)@ == old(stack)@,
            r matches Err(e)
                ==> e == if old(stack)@.has_service(*self) && old(stack)@.has_services(value@) {
                BluetoothError::DuplicateId
            } else {
                BluetoothError::ValueUnavailable
            },
            final(stack)@.wf(),
    {
        if self.index >= stack.services.len() || !stack.has_services(&value) {
            return Err(BluetoothError::ValueUnavailable);
        }
        if !stack.distinct_service_ids(&value) {
            return Err(BluetoothError::DuplicateId);
        }
        stack.services[self.index].included_services = value;
        proof {
            let m = ServiceModel { included_services: value@, ..old(stack)@.service(*self) };
            assert(stack@ =~= old(stack)@.with_service(*self, m));
            old(stack)@.lemma_with_service(*self, m);
        }
        Ok(())
    }

    /// The UUID of the service.
    pub fn get_uuid(&self, stack: &FakeBluetoothStack) -> (r: Result<String, BluetoothError>)
        ensures
            r is Ok <==> stack@.has_service(*self),
            r matches Ok(v) ==> v@ == stack@.service(*self).uuid,
            r matches Err(e) ==> e == BluetoothError::ValueUnavailable,
    {
        if self.index < stack.services.len() {
            Ok(stack.services[self.index].uuid.clone())
        } else {
            Err(BluetoothError::ValueUnavailable)
        }
    }

    /// Sets the UUID of the service.
    pub fn set_uuid(
        &self,
        stack: &mut FakeBluetoothStack,
        value: String,
    ) -> (r: Result<(), BluetoothError>)
        ensures
            r is Ok <==> old(stack)@.has_service(*self),
            r is Ok ==> final(stack)@ == old(stack)@.with_service(
                *self,
                (ServiceModel { uuid: value@, ..old(stack)@.service(*self) }),
            ),
            r matches Err(e)
                ==> e == BluetoothError::ValueUnavailable && final(stack)@ == old(stack)@,
            old(stack)@.wf() ==> final(stack)@.wf(),
    {
        if self.index < stack.services.len() {
            stack.services[self.index].uuid = value;
            proof {
                let m = ServiceModel { uuid: value@, ..old(stack)@.service(*self) };
                assert(stack@ =~= old(stack)@.with_service(*self, m));
                if old(stack)@.wf() {
                    old(stack)@.lemma_with_service(*self, m);
                }
            }
            Ok(())
        } else {
            Err(BluetoothError::ValueUnavailable)
        }
    }

    /// The device that the service was created under.
    pub fn get_device(
        &self,
        stack: &FakeBluetoothStack,
    ) -> (r: Result<FakeBluetoothDevice, BluetoothError>)
        ensures
            r is Ok <==> stack@.has_service(*self),
            r matches Ok(device) ==> device == stack@.service(*self).device,
            r matches Ok(device) ==> (stack@.wf() ==> stack@.has_device(device)),
            r matches Err(e) ==> e == BluetoothError::ValueUnavailable,
    {
        if self.index < stack.services.len() {
            Ok(stack.services[self.index].device)
        } else {
            Err(BluetoothError::ValueUnavailable)
        }
    }

    /// The ids of the characteristics of the service, in the order in which
    /// they were added.
    pub fn get_gatt_characteristics(
        &self,
        stack: &FakeBluetoothStack,
    ) -> (r: Result<Vec<String>, BluetoothError>)
        requires
            stack@.wf(),
        ensures
            r is Ok <==> stack@.has_service(*self),
            r matches Ok(ids) ==> ids.deep_view() == stack@.characteristic_ids(
                stack@.service(*self).gatt_characteristics,
            ),
            r matches Err(e) ==> e == BluetoothError::ValueUnavailable,
    {
        if self.index < stack.services.len() {
            assert(
                stack@.has_characteristics(stack@.services[self.index as int].gatt_characteristics)
            );
            Ok(stack.characteristic_ids(&stack.services[self.index].gatt_characteristics))
        } else {
            Err(BluetoothError::ValueUnavailable)
        }
    }

    /// The first characteristic of the service that has the given id. Fails if
    /// the service holds no such characteristic.
    pub fn get_gatt_characteristic(
        &self,
        stack: &FakeBluetoothStack,
        id: String,
    ) -> (r: Result<FakeBluetoothGATTCharacteristic, BluetoothError>)
        requires
            stack@.wf(),
        ensures
            r is Ok <==> stack@.has_service(*self) && stack@.find_characteristic(
                stack@.service(*self).gatt_characteristics,
                id@,
            ) is Some,
            r matches Ok(found) ==> stack@.find_characteristic(
                stack@.service(*self).gatt_characteristics,
                id@,
            ) == Some(found),
            r matches Ok(found)
                ==> stack@.has_characteristic(found) && stack@.characteristic(found).id == id@,
            r matches Err(e) ==> e == if stack@.has_service(*self) {
                BluetoothError::NoSuchCharacteristic
            } else {
                BluetoothError::ValueUnavailable
            },
    {
        if self.index >= stack.services.len() {
            return Err(BluetoothError::ValueUnavailable);
        }
        proof {
            assert(
                stack@.has_characteristics(stack@.services[self.index as int].gatt_characteristics)
            );
            lemma_first_with_id(
                stack@.service(*self).gatt_characteristics,
                stack@.characteristic_id(),
                id@,
            );
        }
        match stack.find_characteristic(&stack.services[self.index].gatt_characteristics, &id) {
            Some(found) => Ok(found),
            None => Err(BluetoothError::NoSuchCharacteristic),
        }
    }

    /// Adds a characteristic at the end of the characteristics of the service,
    /// whatever service it was created under. Fails, and changes nothing, if
    /// the service or the characteristic does not exist, and if the service
    /// already holds a characteristic with the id of the one to add.
    pub fn add_characteristic(
        &self,
        stack: &mut FakeBluetoothStack,
        characteristic: FakeBluetoothGATTCharacteristic,
    ) -> (r: Result<(), BluetoothError>)
        requires
            old(stack)@.wf(),
        ensures
            (final(stack)@, r) == old(stack)@.add_characteristic(*self, characteristic),
            r is Ok <==> old(stack)@.has_service(*self)
                && old(stack)@.has_characteristic(characteristic)
                    && old(stack)@.find_characteristic(
                old(stack)@.service(*self).gatt_characteristics,
                old(stack)@.characteristic(characteristic).id,
            ) is None,
            final(stack)@.wf(),
    {
        if self.index >= stack.services.len()
            || characteristic.index >= stack.characteristics.len() {
            return Err(BluetoothError::ValueUnavailable);
        }
        assert(stack@.has_characteristics(stack@.services[self.index as int].gatt_characteristics));
        if stack.find_characteristic(
            &stack.services[self.index].gatt_characteristics,
            &stack.characteristics[characteristic.index].id,
        ).is_some() {
            return Err(BluetoothError::DuplicateId);
        }
        stack.services[self.index].gatt_characteristics.push(characteristic);
        proof {
            assert(stack@ =~= old(stack)@.add_characteristic(*self, characteristic).0);
            old(stack)@.lemma_add_characteristic(*self, characteristic);
        }
        Ok(())
    }

    /// Takes every characteristic with the given id out of the characteristics
    /// of the service. The characteristics themselves stay in the stack. Fails
    /// if the service does not exist.
    pub fn remove_characteristic(
        &self,
        stack: &mut FakeBluetoothStack,
        id: String,
    ) -> (r: Result<(), BluetoothError>)
        requires
            old(stack)@.wf(),
        ensures
            r is Ok <==> old(stack)@.has_service(*self),
            r is Ok ==> final(stack)@ == old(stack)@.remove_characteristic(*self, id@),
            r matches Err(e)
                ==> e == BluetoothError::ValueUnavailable && final(stack)@ == old(stack)@,
            final(stack)@.wf(),
    {
        if self.index < stack.services.len() {
            assert(
                stack@.has_characteristics(stack@.services[self.index as int].gatt_characteristics)
            );
            let kept = stack.characteristics_without(
                &stack.services[self.index].gatt_characteristics,
                &id,
            );
            stack.services[self.index].gatt_characteristics = kept;
            proof {
                assert(stack@ =~= old(stack)@.remove_characteristic(*self, id@));
                old(stack)@.lemma_remove_characteristic(*self, id@);
            }
            Ok(())
        } else {
            Err(BluetoothError::ValueUnavailable)
        }
    }

    /// Adds a service at the end of the services that this one includes. Fails,
    /// and changes nothing, if either service does not exist, and if this one
    /// already includes a service with the id of the one to add.
    pub fn add_included_service(
        &self,
        stack: &mut FakeBluetoothStack,
        service: FakeBluetoothGATTService,
    ) -> (r: Result<(), BluetoothError>)
        requires
            old(stack)@.wf(),
        ensures
            (final(stack)@, r) == old(stack)@.add_included_service(*self, service),
            r is Ok <==> old(stack)@.has_service(*self) && old(stack)@.has_service(service)
                && old(stack)@.find_service(
                old(stack)@.service(*self).included_services,
                old(stack)@.service(service).id,
            ) is None,
            final(stack)@.wf(),
    {
        if self.index >= stack.services.len() || service.index >= stack.services.len() {
            return Err(BluetoothError::ValueUnavailable);
        }
        assert(stack@.has_services(stack@.services[self.index as int].included_services));
        if stack.find_service(
            &stack.services[self.index].included_services,
            &stack.services[service.index].id,
        ).is_some() {
            return Err(BluetoothError::DuplicateId);
        }
        stack.services[self.index].included_services.push(service);
        proof {
            assert(stack@ =~= old(stack)@.add_included_service(*self, service).0);
            old(stack)@.lemma_add_included_service(*self, service);
        }
        Ok(())
    }

    /// Takes every service with the given id out of the services that this one
    /// includes. Fails if the service does not exist.
    pub fn remove_included_service(
        &self,
        stack: &mut FakeBluetoothStack,
        id: String,
    ) -> (r: Result<(), BluetoothError>)
        requires
            old(stack)@.wf(),
        ensures
            r is Ok <==> old(stack)@.has_service(*self),
            r is Ok ==> final(stack)@ == old(stack)@.remove_included_service(*self, id@),
            r matches Err(e)
                ==> e == BluetoothError::ValueUnavailable && final(stack)@ == old(stack)@,
            final(stack)@.wf(),
    {
        if self.index < stack.services.len() {
            assert(stack@.has_services(stack@.services[self.index as int].included_services));
            let kept = stack.services_without(&stack.services[self.index].included_services, &id);
            stack.services[self.index].included_services = kept;
            proof {
                assert(stack@ =~= old(stack)@.remove_included_service(*self, id@));
                old(stack)@.lemma_remove_included_service(*self, id@);
            }
            Ok(())
        } else {
            Err(BluetoothError::ValueUnavailable)
        }
    }

    /// The ids of the services that this one includes, in the order in which
    /// they were added.
    pub fn get_includes(
        &self,
        stack: &FakeBluetoothStack,
    ) -> (r: Result<Vec<String>, BluetoothError>)
        requires
            stack@.wf(),
        ensures
            r is Ok <==> stack@.has_service(*self),
            r matches Ok(ids) ==> ids.deep_view() == stack@.service_ids(
                stack@.service(*self).included_services,
            ),
            r matches Err(e) ==> e == BluetoothError::ValueUnavailable,
    {
        if self.index < stack.services.len() {
            assert(stack@.has_services(stack@.services[self.index as int].included_services));
            Ok(stack.service_ids(&stack.services[self.index].included_services))
        } else {
            Err(BluetoothError::ValueUnavailable)
        }
    }

}

} // verus!
