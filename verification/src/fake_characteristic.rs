//! GATT characteristics: the values that a service exposes.

use vstd::prelude::*;
use vstd::string::StringExecFns;
use crate::error::BluetoothError;
use crate::fake_descriptor::FakeBluetoothGATTDescriptor;
use crate::fake_service::FakeBluetoothGATTService;
use crate::model::{bytes_of, lemma_first_with_id, CharacteristicModel};
use crate::stack::{CharacteristicRecord, FakeBluetoothStack};

verus! {

/// A handle on one GATT characteristic of a stack. Copies of a handle name
/// the same characteristic: what is changed through one is seen through the
/// other.
#[derive(Clone, Copy, Debug, PartialEq, Eq, Hash, Structural)]
pub struct FakeBluetoothGATTCharacteristic {
    /// The position of the characteristic among those of its stack.
    pub index: usize,
}

impl FakeBluetoothGATTCharacteristic {
    /// The characteristic with the given id under the given service: the one
    /// that the service already holds under that id, if there is one, and
    /// else a new characteristic with the given attributes, added at the end
    /// of the service's characteristics. Fails if the service, or one of the
    /// descriptors of a characteristic that would be new, does not exist, and
    /// if two of those descriptors have the same id.
    pub fn new(
        stack: &mut FakeBluetoothStack,
        id: String,
        uuid: String,
        service: FakeBluetoothGATTService,
        value: Option<Vec<u8>>,
        is_notifying: bool,
        flags: Vec<String>,
        gatt_descriptors: Vec<FakeBluetoothGATTDescriptor>,
    ) -> (r: Result<FakeBluetoothGATTCharacteristic, BluetoothError>)
        requires
            old(stack)@.wf(),
        ensures
            (final(stack)@, r) == old(stack)@.create_characteristic(
                (CharacteristicModel {
                    id: id@,
                    uuid: uuid@,
                    service,
                    value: bytes_of(value),
                    is_notifying,
                    flags: flags.deep_view(),
                    gatt_descriptors: gatt_descriptors@,
                }),
            ),
            final(stack)@.wf(),
            old(stack)@.grows_to(final(stack)@),
            r matches Ok(characteristic) ==> final(stack)@.has_characteristic(characteristic)
                && final(stack)@.characteristic(characteristic).id == id@,
            r matches Err(e)
                ==> e == BluetoothError::ValueUnavailable || e == BluetoothError::DuplicateId,
    {
        if service.index >= stack.services.len() {
            return Err(BluetoothError::ValueUnavailable);
        }
        proof {
            assert(stack@.has_characteristics(
                stack@.services[service.index as int].gatt_characteristics,
            ));
            lemma_first_with_id(
                stack@.service(service).gatt_characteristics,
                stack@.characteristic_id(),
                id@,
            );
        }
        if let Some(existing) = stack.find_characteristic(
            &stack.services[service.index].gatt_characteristics,
            &id,
        ) {
            return Ok(existing);
        }
        if !stack.has_descriptors(&gatt_descriptors) {
            return Err(BluetoothError::ValueUnavailable);
        }
        if !stack.distinct_descriptor_ids(&gatt_descriptors) {
            return Err(BluetoothError::DuplicateId);
        }
        let characteristic = FakeBluetoothGATTCharacteristic { index: stack.characteristics.len() };
        let record = CharacteristicRecord {
            id,
            uuid,
            service,
            value,
            is_notifying,
            flags,
            gatt_descriptors,
        };
        let ghost init = record@;
        stack.characteristics.push(record);
        stack.services[service.index].gatt_characteristics.push(characteristic);
        proof {
            assert(stack@ =~= old(stack)@.insert_characteristic(init));
            assert(old(stack)@.characteristics.len() + 1 == stack.characteristics.len());
            old(stack)@.lemma_insert_characteristic(init);
        }
        Ok(characteristic)
    }

    /// The characteristic whose id is the service's id followed by
    /// `characteristic_id`, under the given service: the one that the service
    /// already holds under that id, if there is one, and else a new
    /// characteristic without any attribute set. Fails if the service does
    /// not exist.
    pub fn new_empty(
        stack: &mut FakeBluetoothStack,
        service: FakeBluetoothGATTService,
        characteristic_id: String,
    ) -> (r: Result<FakeBluetoothGATTCharacteristic, BluetoothError>)
        requires
            old(stack)@.wf(),
        ensures
            (final(stack)@, r) == old(stack)@.create_characteristic(
                CharacteristicModel::empty(
                    old(stack)@.service(service).id + characteristic_id@,
                    service,
                ),
            ),
            r is Ok <==> old(stack)@.has_service(service),
            final(stack)@.wf(),
            old(stack)@.grows_to(final(stack)@),
            r matches Ok(characteristic) ==> final(stack)@.has_characteristic(characteristic)
                && final(stack)@.characteristic(characteristic).id == old(stack)@.service(
                service,
            ).id + characteristic_id@,
            r matches Err(e) ==> e == BluetoothError::ValueUnavailable,
    {
        if service.index >= stack.services.len() {
            return Err(BluetoothError::ValueUnavailable);
        }
        let id = stack.services[service.index].id.clone().concat(characteristic_id.as_str());
        let flags: Vec<String> = Vec::new();
        assert(flags.deep_view() =~= Seq::empty());
        FakeBluetoothGATTCharacteristic::new(
            stack,
            id,
            String::new(),
            service,
            None,
            false,
            flags,
            Vec::new(),
        )
    }

    /// The id of the characteristic.
    pub fn get_id(&self, stack: &FakeBluetoothStack) -> (r: Result<String, BluetoothError>)
        ensures
            r is Ok <==> stack@.has_characteristic(*self),
            r matches Ok(v) ==> v@ == stack@.characteristic(*self).id,
            r matches Err(e) ==> e == BluetoothError::ValueUnavailable,
    {
        if self.index < stack.characteristics.len() {
            Ok(stack.characteristics[self.index].id.clone())
        } else {
            Err(BluetoothError::ValueUnavailable)
        }
    }

    /// Gives the characteristic another id. Fails, and changes nothing, if a
    /// list that holds the characteristic holds another characteristic with
    /// that id.
    pub fn set_id(
        &self,
        stack: &mut FakeBluetoothStack,
        value: String,
    ) -> (r: Result<(), BluetoothError>)
        requires
            old(stack)@.wf(),
        ensures
            (final(stack)@, r) == old(stack)@.rename_characteristic(*self, value@),
            r is Ok <==> old(stack)@.has_characteristic(*self)
                && !old(stack)@.characteristic_id_taken(*self, value@),
            final(stack)@.wf(),
    {
        if self.index >= stack.characteristics.len() {
            return Err(BluetoothError::ValueUnavailable);
        }
        if stack.characteristic_id_taken(*self, &value) {
            return Err(BluetoothError::DuplicateId);
        }
        stack.characteristics[self.index].id = value;
        proof {
            let m = CharacteristicModel { id: value@, ..old(stack)@.characteristic(*self) };
            assert(stack@ =~= old(stack)@.with_characteristic(*self, m));
            old(stack)@.lemma_rename_characteristic(*self, value@);
        }
        Ok(())
    }

    /// The UUID of the characteristic.
    pub fn get_uuid(&self, stack: &FakeBluetoothStack) -> (r: Result<String, BluetoothError>)
        ensures
            r is Ok <==> stack@.has_characteristic(*self),
            r matches Ok(v) ==> v@ == stack@.characteristic(*self).uuid,
            r matches Err(e) ==> e == BluetoothError::ValueUnavailable,
    {
        if self.index < stack.characteristics.len() {
            Ok(stack.characteristics[self.index].uuid.clone())
        } else {
            Err(BluetoothError::ValueUnavailable)
        }
    }

    /// Sets the UUID of the characteristic.
    pub fn set_uuid(
        &self,
        stack: &mut FakeBluetoothStack,
        value: String,
    ) -> (r: Result<(), BluetoothError>)
        ensures
            r is Ok <==> old(stack)@.has_characteristic(*self),
            r is Ok ==> final(stack)@ == old(stack)@.with_characteristic(
                *self,
                (CharacteristicModel { uuid: value@, ..old(stack)@.characteristic(*self) }),
            ),
            r matches Err(e)
                ==> e == BluetoothError::ValueUnavailable && final(stack)@ == old(stack)@,
            old(stack)@.wf() ==> final(stack)@.wf(),
    {
        if self.index < stack.characteristics.len() {
            stack.characteristics[self.index].uuid = value;
            proof {
                let m = CharacteristicModel { uuid: value@, ..old(stack)@.characteristic(*self) };
                assert(stack@ =~= old(stack)@.with_characteristic(*self, m));
                if old(stack)@.wf() {
                    old(stack)@.lemma_with_characteristic(*self, m);
                }
            }
            Ok(())
        } else {
            Err(BluetoothError::ValueUnavailable)
        }
    }

    /// The value of the characteristic. Fails while the characteristic has no
    /// value.
    pub fn get_value(&self, stack: &FakeBluetoothStack) -> (r: Result<Vec<u8>, BluetoothError>)
        ensures
            r is Ok <==> stack@.has_characteristic(*self)
                && stack@.characteristic(*self).value is Some,
            r matches Ok(v) ==> stack@.characteristic(*self).value == Some(v@),
            r matches Err(e) ==> e == BluetoothError::ValueUnavailable,
    {
        if self.index < stack.characteristics.len() {
            match &stack.characteristics[self.index].value {
                Some(v) => Ok(v.clone()),
                None => Err(BluetoothError::ValueUnavailable),
            }
        } else {
            Err(BluetoothError::ValueUnavailable)
        }
    }

    /// Sets the value of the characteristic, or takes it away.
    pub fn set_value(
        &self,
        stack: &mut FakeBluetoothStack,
        value: Option<Vec<u8>>,
    ) -> (r: Result<(), BluetoothError>)
        ensures
            r is Ok <==> old(stack)@.has_characteristic(*self),
            r is Ok ==> final(stack)@ == old(stack)@.with_characteristic(
                *self,
                (CharacteristicModel {
                    value: bytes_of(value),
                    ..old(stack)@.characteristic(*self)
                }),
            ),
            r matches Err(e)
                ==> e == BluetoothError::ValueUnavailable && final(stack)@ == old(stack)@,
            old(stack)@.wf() ==> final(stack)@.wf(),
    {
        if self.index < stack.characteristics.len() {
            stack.characteristics[self.index].value = value;
            proof {
                let m = CharacteristicModel {
                    value: bytes_of(value),
                    ..old(stack)@.characteristic(*self)
                };
                assert(stack@ =~= old(stack)@.with_characteristic(*self, m));
                if old(stack)@.wf() {
                    old(stack)@.lemma_with_characteristic(*self, m);
                }
            }
            Ok(())
        } else {
            Err(BluetoothError::ValueUnavailable)
        }
    }

    /// Whether the characteristic notifies of changes of its value.
    pub fn is_notifying(&self, stack: &FakeBluetoothStack) -> (r: Result<bool, BluetoothError>)
        ensures
            r is Ok <==> stack@.has_characteristic(*self),
            r matches Ok(v) ==> v == stack@.characteristic(*self).is_notifying,
            r matches Err(e) ==> e == BluetoothError::ValueUnavailable,
    {
        if self.index < stack.characteristics.len() {
            Ok(stack.characteristics[self.index].is_notifying)
        } else {
            Err(BluetoothError::ValueUnavailable)
        }
    }

    /// Sets whether the characteristic notifies of changes of its value.
    pub fn set_notifying(
        &self,
        stack: &mut FakeBluetoothStack,
        value: bool,
    ) -> (r: Result<(), BluetoothError>)
        ensures
            r is Ok <==> old(stack)@.has_characteristic(*self),
            r is Ok ==> final(stack)@ == old(stack)@.with_characteristic(
                *self,
                (CharacteristicModel { is_notifying: value, ..old(stack)@.characteristic(*self) }),
            ),
            r matches Err(e)
                ==> e == BluetoothError::ValueUnavailable && final(stack)@ == old(stack)@,
            old(stack)@.wf() ==> final(stack)@.wf(),
    {
        if self.index < stack.characteristics.len() {
            stack.characteristics[self.index].is_notifying = value;
            proof {
                let m = CharacteristicModel {
                    is_notifying: value,
                    ..old(stack)@.characteristic(*self)
                };
                assert(stack@ =~= old(stack)@.with_characteristic(*self, m));
                if old(stack)@.wf() {
                    old(stack)@.lemma_with_characteristic(*self, m);
                }
            }
            Ok(())
        } else {
            Err(BluetoothError::ValueUnavailable)
        }
    }

    /// The flags of the characteristic.
    pub fn get_flags(&self, stack: &FakeBluetoothStack) -> (r: Result<Vec<String>, BluetoothError>)
        ensures
            r is Ok <==> stack@.has_characteristic(*self),
            r matches Ok(v) ==> v.deep_view() == stack@.characteristic(*self).flags,
            r matches Err(e) ==> e == BluetoothError::ValueUnavailable,
    {
        if self.index < stack.characteristics.len() {
            let v = stack.characteristics[self.index].flags.clone();
            assert(v@ =~= stack.characteristics[self.index as int].flags@);
            Ok(v)
        } else {
            Err(BluetoothError::ValueUnavailable)
        }
    }

    /// Sets the flags of the characteristic.
    pub fn set_flags(
        &self,
        stack: &mut FakeBluetoothStack,
        value: Vec<String>,
    ) -> (r: Result<(), BluetoothError>)
        ensures
            r is Ok <==> old(stack)@.has_characteristic(*self),
            r is Ok ==> final(stack)@ == old(stack)@.with_characteristic(
                *self,
                (CharacteristicModel {
                    flags: value.deep_view(),
                    ..old(stack)@.characteristic(*self)
                }),
            ),
            r matches Err(e)
                ==> e == BluetoothError::ValueUnavailable && final(stack)@ == old(stack)@,
            old(stack)@.wf() ==> final(stack)@.wf(),
    {
        if self.index < stack.characteristics.len() {
            stack.characteristics[self.index].flags = value;
            proof {
                let m = CharacteristicModel {
                    flags: value.deep_view(),
                    ..old(stack)@.characteristic(*self)
                };
                assert(stack@ =~= old(stack)@.with_characteristic(*self, m));
                if old(stack)@.wf() {
                    old(stack)@.lemma_with_characteristic(*self, m);
                }
            }
            Ok(())
        } else {
            Err(BluetoothError::ValueUnavailable)
        }
    }

    /// The descriptors of the characteristic, in the order in which they were
    /// added.
    pub fn get_gatt_descriptor_structs(
        &self,
        stack: &FakeBluetoothStack,
    ) -> (r: Result<Vec<FakeBluetoothGATTDescriptor>, BluetoothError>)
        ensures
            r is Ok <==> stack@.has_characteristic(*self),
            r matches Ok(v) ==> v@ == stack@.characteristic(*self).gatt_descriptors,
            r matches Err(e) ==> e == BluetoothError::ValueUnavailable,
    {
        if self.index < stack.characteristics.len() {
            let v = stack.characteristics[self.index].gatt_descriptors.clone();
            assert(v@ =~= stack.characteristics[self.index as int].gatt_descriptors@);
            Ok(v)
        } else {
            Err(BluetoothError::ValueUnavailable)
        }
    }

    /// The service that the characteristic was created under.
    pub fn get_service(
        &self,
        stack: &FakeBluetoothStack,
    ) -> (r: Result<FakeBluetoothGATTService, BluetoothError>)
        ensures
            r is Ok <==> stack@.has_characteristic(*self),
            r matches Ok(service) ==> service == stack@.characteristic(*self).service,
            r matches Ok(service) ==> (stack@.wf() ==> stack@.has_service(service)),
            r matches Err(e) ==> e == BluetoothError::ValueUnavailable,
    {
        if self.index < stack.characteristics.len() {
            Ok(stack.characteristics[self.index].service)
        } else {
            Err(BluetoothError::ValueUnavailable)
        }
    }

    /// Makes the characteristic notify of changes of its value.
    pub fn start_notify(&self, stack: &mut FakeBluetoothStack) -> (r: Result<(), BluetoothError>)
        ensures
            r is Ok <==> old(stack)@.has_characteristic(*self),
            r is Ok ==> final(stack)@ == old(stack)@.with_characteristic(
                *self,
                (CharacteristicModel { is_notifying: true, ..old(stack)@.characteristic(*self) }),
            ),
            r matches Err(e)
                ==> e == BluetoothError::ValueUnavailable && final(stack)@ == old(stack)@,
            old(stack)@.wf() ==> final(stack)@.wf(),
    {
        self.set_notifying(stack, true)
    }

    /// Makes the characteristic stop notifying of changes of its value.
    pub fn stop_notify(&self, stack: &mut FakeBluetoothStack) -> (r: Result<(), BluetoothError>)
        ensures
            r is Ok <==> old(stack)@.has_characteristic(*self),
            r is Ok ==> final(stack)@ == old(stack)@.with_characteristic(
                *self,
                (CharacteristicModel { is_notifying: false, ..old(stack)@.characteristic(*self) }),
            ),
            r matches Err(e)
                ==> e == BluetoothError::ValueUnavailable && final(stack)@ == old(stack)@,
            old(stack)@.wf() ==> final(stack)@.wf(),
    {
        self.set_notifying(stack, false)
    }

    /// The ids of the descriptors of the characteristic, in the order in which
    /// they were added.
    pub fn get_gatt_descriptors(
        &self,
        stack: &FakeBluetoothStack,
    ) -> (r: Result<Vec<String>, BluetoothError>)
        requires
            stack@.wf(),
        ensures
            r is Ok <==> stack@.has_characteristic(*self),
            r matches Ok(ids) ==> ids.deep_view() == stack@.descriptor_ids(
                stack@.characteristic(*self).gatt_descriptors,
            ),
            r matches Err(e) ==> e == BluetoothError::ValueUnavailable,
    {
        if self.index < stack.characteristics.len() {
            assert(
                stack@.has_descriptors(stack@.characteristics[self.index as int].gatt_descriptors)
            );
            Ok(stack.descriptor_ids(&stack.characteristics[self.index].gatt_descriptors))
        } else {
            Err(BluetoothError::ValueUnavailable)
        }
    }

    /// The first descriptor of the characteristic that has the given id. Fails
    /// if the characteristic holds no such descriptor.
    pub fn get_gatt_descriptor(
        &self,
        stack: &FakeBluetoothStack,
        id: String,
    ) -> (r: Result<FakeBluetoothGATTDescriptor, BluetoothError>)
        requires
            stack@.wf(),
        ensures
            r is Ok <==> stack@.has_characteristic(*self) && stack@.find_descriptor(
                stack@.characteristic(*self).gatt_descriptors,
                id@,
            ) is Some,
            r matches Ok(found) ==> stack@.find_descriptor(
                stack@.characteristic(*self).gatt_descriptors,
                id@,
            ) == Some(found),
            r matches Ok(found)
                ==> stack@.has_descriptor(found) && stack@.descriptor(found).id == id@,
            r matches Err(e) ==> e == if stack@.has_characteristic(*self) {
                BluetoothError::NoSuchDescriptor
            } else {
                BluetoothError::ValueUnavailable
            },
    {
        if self.index >= stack.characteristics.len() {
            return Err(BluetoothError::ValueUnavailable);
        }
        proof {
            assert(
                stack@.has_descriptors(stack@.characteristics[self.index as int].gatt_descriptors)
            );
            lemma_first_with_id(
                stack@.characteristic(*self).gatt_descriptors,
                stack@.descriptor_id(),
                id@,
            );
        }
        match stack.find_descriptor(&stack.characteristics[self.index].gatt_descriptors, &id) {
            Some(found) => Ok(found),
            None => Err(BluetoothError::NoSuchDescriptor),
        }
    }

    /// Adds a descriptor at the end of the descriptors of the characteristic,
    /// whatever characteristic it was created under. Fails, and changes
    /// nothing, if the characteristic or the descriptor does not exist, and if
    /// the characteristic already holds a descriptor with the id of the one to
    /// add.
    pub fn add_descriptor(
        &self,
        stack: &mut FakeBluetoothStack,
        descriptor: FakeBluetoothGATTDescriptor,
    ) -> (r: Result<(), BluetoothError>)
        requires
            old(stack)@.wf(),
        ensures
            (final(stack)@, r) == old(stack)@.add_descriptor(*self, descriptor),
            r is Ok <==> old(stack)@.has_characteristic(*self)
                && old(stack)@.has_descriptor(descriptor) && old(stack)@.find_descriptor(
                old(stack)@.characteristic(*self).gatt_descriptors,
                old(stack)@.descriptor(descriptor).id,
            ) is None,
            final(stack)@.wf(),
    {
        if self.index >= stack.characteristics.len()
            || descriptor.index >= stack.descriptors.len() {
            return Err(BluetoothError::ValueUnavailable);
        }
        assert(stack@.has_descriptors(stack@.characteristics[self.index as int].gatt_descriptors));
        if stack.find_descriptor(
            &stack.characteristics[self.index].gatt_descriptors,
            &stack.descriptors[descriptor.index].id,
        ).is_some() {
            return Err(BluetoothError::DuplicateId);
        }
        stack.characteristics[self.index].gatt_descriptors.push(descriptor);
        proof {
            assert(stack@ =~= old(stack)@.add_descriptor(*self, descriptor).0);
            old(stack)@.lemma_add_descriptor(*self, descriptor);
        }
        Ok(())
    }

    /// Takes every descriptor with the given id out of the descriptors of the
    /// characteristic. The descriptors themselves stay in the stack. Fails if
    /// the characteristic does not exist.
    pub fn remove_descriptor(
        &self,
        stack: &mut FakeBluetoothStack,
        id: String,
    ) -> (r: Result<(), BluetoothError>)
        requires
            old(stack)@.wf(),
        ensures
            r is Ok <==> old(stack)@.has_characteristic(*self),
            r is Ok ==> final(stack)@ == old(stack)@.remove_descriptor(*self, id@),
            r matches Err(e)
                ==> e == BluetoothError::ValueUnavailable && final(stack)@ == old(stack)@,
            final(stack)@.wf(),
    {
        if self.index < stack.characteristics.len() {
            assert(
                stack@.has_descriptors(stack@.characteristics[self.index as int].gatt_descriptors)
            );
            let kept = stack.descriptors_without(
                &stack.characteristics[self.index].gatt_descriptors,
                &id,
            );
            stack.characteristics[self.index].gatt_descriptors = kept;
            proof {
                assert(stack@ =~= old(stack)@.remove_descriptor(*self, id@));
                old(stack)@.lemma_remove_descriptor(*self, id@);
            }
            Ok(())
        } else {
            Err(BluetoothError::ValueUnavailable)
        }
    }

    /// Reads the value of the characteristic. Fails while the characteristic
    /// has no value.
    pub fn read_value(&self, stack: &FakeBluetoothStack) -> (r: Result<Vec<u8>, BluetoothError>)
        ensures
            r is Ok <==> stack@.has_characteristic(*self) && stack@.characteristic(*self).value
                is Some,
            r matches Ok(v) ==> stack@.characteristic(*self).value == Some(v@),
            r matches Err(e) ==> e == BluetoothError::ValueUnavailable,
    {
        self.get_value(stack)
    }

    /// Writes the value of the characteristic.
    pub fn write_value(
        &self,
        stack: &mut FakeBluetoothStack,
        value: Vec<u8>,
    ) -> (r: Result<(), BluetoothError>)
        ensures
            r is Ok <==> old(stack)@.has_characteristic(*self),
            r is Ok ==> final(stack)@ == old(stack)@.with_characteristic(
                *self,
                (CharacteristicModel { value: Some(value@), ..old(stack)@.characteristic(*self) }),
            ),
            r matches Err(e)
                ==> e == BluetoothError::ValueUnavailable && final(stack)@ == old(stack)@,
            old(stack)@.wf() ==> final(stack)@.wf(),
    {
        self.set_value(stack, Some(value))
    }
}

} // verus!
