//! GATT descriptors: the leaves of the stack.

use vstd::prelude::*;
use vstd::string::StringExecFns;
use crate::error::BluetoothError;
use crate::fake_characteristic::FakeBluetoothGATTCharacteristic;
use crate::model::{lemma_first_with_id, DescriptorModel};
use crate::stack::{DescriptorRecord, FakeBluetoothStack};

verus! {

/// A handle on one GATT descriptor of a stack. Copies of a handle name the
/// same descriptor: what is changed through one is seen through the other.
#[derive(Clone, Copy, Debug, PartialEq, Eq, Hash, Structural)]
pub struct FakeBluetoothGATTDescriptor {
    /// The position of the descriptor among those of its stack.
    pub index: usize,
}

impl FakeBluetoothGATTDescriptor {
    /// The descriptor with the given id under the given characteristic: the
    /// one that the characteristic already holds under that id, if there is
    /// one, and else a new descriptor with the given attributes, added at the
    /// end of the characteristic's descriptors. Fails if the characteristic
    /// does not exist.
    pub fn new(
        stack: &mut FakeBluetoothStack,
        id: String,
        uuid: String,
        characteristic: FakeBluetoothGATTCharacteristic,
        value: Vec<u8>,
        flags: Vec<String>,
    ) -> (r: Result<FakeBluetoothGATTDescriptor, BluetoothError>)
        requires
            old(stack)@.wf(),
        ensures
            (final(stack)@, r) == old(stack)@.create_descriptor(
                (DescriptorModel {
                    id: id@,
                    uuid: uuid@,
                    characteristic,
                    value: value@,
                    flags: flags.deep_view(),
                }),
            ),
            r is Ok <==> old(stack)@.has_characteristic(characteristic),
            final(stack)@.wf(),
            old(stack)@.grows_to(final(stack)@),
            r matches Ok(descriptor) ==> final(stack)@.has_descriptor(descriptor)
                && final(stack)@.descriptor(descriptor).id == id@,
            r matches Err(e) ==> e == BluetoothError::ValueUnavailable,
    {
        if characteristic.index >= stack.characteristics.len() {
            return Err(BluetoothError::ValueUnavailable);
        }
        proof {
            assert(stack@.has_descriptors(
                stack@.characteristics[characteristic.index as int].gatt_descriptors,
            ));
            lemma_first_with_id(
                stack@.characteristic(characteristic).gatt_descriptors,
                stack@.descriptor_id(),
                id@,
            );
        }
        if let Some(existing) = stack.find_descriptor(
            &stack.characteristics[characteristic.index].gatt_descriptors,
            &id,
        ) {
            return Ok(existing);
        }
        let descriptor = FakeBluetoothGATTDescriptor { index: stack.descriptors.len() };
        let record = DescriptorRecord { id, uuid, characteristic, value, flags };
        let ghost init = record@;
        stack.descriptors.push(record);
        stack.characteristics[characteristic.index].gatt_descriptors.push(descriptor);
        proof {
            assert(stack@ =~= old(stack)@.insert_descriptor(init));
            assert(old(stack)@.descriptors.len() + 1 == stack.descriptors.len());
            old(stack)@.lemma_insert_descriptor(init);
        }
        Ok(descriptor)
    }

    /// The descriptor whose id is the characteristic's id followed by
    /// `descriptor_id`, under the given characteristic: the one that the
    /// characteristic already holds under that id, if there is one, and else
    /// a new descriptor without any attribute set. Fails if the
    /// characteristic does not exist.
    pub fn new_empty(
        stack: &mut FakeBluetoothStack,
        characteristic: FakeBluetoothGATTCharacteristic,
        descriptor_id: String,
    ) -> (r: Result<FakeBluetoothGATTDescriptor, BluetoothError>)
        requires
            old(stack)@.wf(),
        ensures
            (final(stack)@, r) == old(stack)@.create_descriptor(
                DescriptorModel::empty(
                    old(stack)@.characteristic(characteristic).id + descriptor_id@,
                    characteristic,
                ),
            ),
            r is Ok <==> old(stack)@.has_characteristic(characteristic),
            final(stack)@.wf(),
            old(stack)@.grows_to(final(stack)@),
            r matches Ok(descriptor) ==> final(stack)@.has_descriptor(descriptor)
                && final(stack)@.descriptor(descriptor).id == old(stack)@.characteristic(
                characteristic,
            ).id + descriptor_id@,
            r matches Err(e) ==> e == BluetoothError::ValueUnavailable,
    {
        if characteristic.index >= stack.characteristics.len() {
            return Err(BluetoothError::ValueUnavailable);
        }
        let id = stack.characteristics[characteristic.index].id.clone().concat(
            descriptor_id.as_str(),
        );
        let flags: Vec<String> = Vec::new();
        assert(flags.deep_view() =~= Seq::empty());
        FakeBluetoothGATTDescriptor::new(
            stack,
            id,
            String::new(),
            characteristic,
            Vec::new(),
            flags,
        )
    }

    /// The id of the descriptor.
    pub fn get_id(&self, stack: &FakeBluetoothStack) -> (r: Result<String, BluetoothError>)
        ensures
            r is Ok <==> stack@.has_descriptor(*self),
            r matches Ok(v) ==> v@ == stack@.descriptor(*self).id,
            r matches Err(e) ==> e == BluetoothError::ValueUnavailable,
    {
        if self.index < stack.descriptors.len() {
            Ok(stack.descriptors[self.index].id.clone())
        } else {
            Err(BluetoothError::ValueUnavailable)
        }
    }

    /// Gives the descriptor another id. Fails, and changes nothing, if a list
    /// that holds the descriptor holds another descriptor with that id.
    pub fn set_id(
        &self,
        stack: &mut FakeBluetoothStack,
        value: String,
    ) -> (r: Result<(), BluetoothError>)
        requires
            old(stack)@.wf(),
        ensures
            (final(stack)@, r) == old(stack)@.rename_descriptor(*self, value@),
            r is Ok <==> old(stack)@.has_descriptor(*self)
                && !old(stack)@.descriptor_id_taken(*self, value@),
            final(stack)@.wf(),
    {
        if self.index >= stack.descriptors.len() {
            return Err(BluetoothError::ValueUnavailable);
        }
        if stack.descriptor_id_taken(*self, &value) {
            return Err(BluetoothError::DuplicateId);
        }
        stack.descriptors[self.index].id = value;
        proof {
            let m = DescriptorModel { id: value@, ..old(stack)@.descriptor(*self) };
            assert(stack@ =~= old(stack)@.with_descriptor(*self, m));
            old(stack)@.lemma_rename_descriptor(*self, value@);
        }
        Ok(())
    }

    /// The UUID of the descriptor.
    pub fn get_uuid(&self, stack: &FakeBluetoothStack) -> (r: Result<String, BluetoothError>)
        ensures
            r is Ok <==> stack@.has_descriptor(*self),
            r matches Ok(v) ==> v@ == stack@.descriptor(*self).uuid,
            r matches Err(e) ==> e == BluetoothError::ValueUnavailable,
    {
        if self.index < stack.descriptors.len() {
            Ok(stack.descriptors[self.index].uuid.clone())
        } else {
            Err(BluetoothError::ValueUnavailable)
        }
    }

    /// Sets the UUID of the descriptor.
    pub fn set_uuid(
        &self,
        stack: &mut FakeBluetoothStack,
        value: String,
    ) -> (r: Result<(), BluetoothError>)
        ensures
            r is Ok <==> old(stack)@.has_descriptor(*self),
            r is Ok ==> final(stack)@ == old(stack)@.with_descriptor(
                *self,
                (DescriptorModel { uuid: value@, ..old(stack)@.descriptor(*self) }),
            ),
            r matches Err(e)
                ==> e == BluetoothError::ValueUnavailable && final(stack)@ == old(stack)@,
            old(stack)@.wf() ==> final(stack)@.wf(),
    {
        if self.index < stack.descriptors.len() {
            stack.descriptors[self.index].uuid = value;
            proof {
                let m = DescriptorModel { uuid: value@, ..old(stack)@.descriptor(*self) };
                assert(stack@ =~= old(stack)@.with_descriptor(*self, m));
                if old(stack)@.wf() {
                    old(stack)@.lemma_with_descriptor(*self, m);
                }
            }
            Ok(())
        } else {
            Err(BluetoothError::ValueUnavailable)
        }
    }

    /// The value of the descriptor.
    pub fn get_value(&self, stack: &FakeBluetoothStack) -> (r: Result<Vec<u8>, BluetoothError>)
        ensures
            r is Ok <==> stack@.has_descriptor(*self),
            r matches Ok(v) ==> v@ == stack@.descriptor(*self).value,
            r matches Err(e) ==> e == BluetoothError::ValueUnavailable,
    {
        if self.index < stack.descriptors.len() {
            Ok(stack.descriptors[self.index].value.clone())
        } else {
            Err(BluetoothError::ValueUnavailable)
        }
    }

    /// Sets the value of the descriptor.
    pub fn set_value(
        &self,
        stack: &mut FakeBluetoothStack,
        value: Vec<u8>,
    ) -> (r: Result<(), BluetoothError>)
        ensures
            r is Ok <==> old(stack)@.has_descriptor(*self),
            r is Ok ==> final(stack)@ == old(stack)@.with_descriptor(
                *self,
                (DescriptorModel { value: value@, ..old(stack)@.descriptor(*self) }),
            ),
            r matches Err(e)
                ==> e == BluetoothError::ValueUnavailable && final(stack)@ == old(stack)@,
            old(stack)@.wf() ==> final(stack)@.wf(),
    {
        if self.index < stack.descriptors.len() {
            stack.descriptors[self.index].value = value;
            proof {
                let m = DescriptorModel { value: value@, ..old(stack)@.descriptor(*self) };
                assert(stack@ =~= old(stack)@.with_descriptor(*self, m));
                if old(stack)@.wf() {
                    old(stack)@.lemma_with_descriptor(*self, m);
                }
            }
            Ok(())
        } else {
            Err(BluetoothError::ValueUnavailable)
        }
    }

    /// The flags of the descriptor.
    pub fn get_flags(&self, stack: &FakeBluetoothStack) -> (r: Result<Vec<String>, BluetoothError>)
        ensures
            r is Ok <==> stack@.has_descriptor(*self),
            r matches Ok(v) ==> v.deep_view() == stack@.descriptor(*self).flags,
            r matches Err(e) ==> e == BluetoothError::ValueUnavailable,
    {
        if self.index < stack.descriptors.len() {
            let v = stack.descriptors[self.index].flags.clone();
            assert(v@ =~= stack.descriptors[self.index as int].flags@);
            Ok(v)
        } else {
            Err(BluetoothError::ValueUnavailable)
        }
    }

    /// Sets the flags of the descriptor.
    pub fn set_flags(
        &self,
        stack: &mut FakeBluetoothStack,
        value: Vec<String>,
    ) -> (r: Result<(), BluetoothError>)
        ensures
            r is Ok <==> old(stack)@.has_descriptor(*self),
            r is Ok ==> final(stack)@ == old(stack)@.with_descriptor(
                *self,
                (DescriptorModel { flags: value.deep_view(), ..old(stack)@.descriptor(*self) }),
            ),
            r matches Err(e)
                ==> e == BluetoothError::ValueUnavailable && final(stack)@ == old(stack)@,
            old(stack)@.wf() ==> final(stack)@.wf(),
    {
        if self.index < stack.descriptors.len() {
            stack.descriptors[self.index].flags = value;
            proof {
                let m = DescriptorModel {
                    flags: value.deep_view(),
                    ..old(stack)@.descriptor(*self)
                };
                assert(stack@ =~= old(stack)@.with_descriptor(*self, m));
                if old(stack)@.wf() {
                    old(stack)@.lemma_with_descriptor(*self, m);
                }
            }
            Ok(())
        } else {
            Err(BluetoothError::ValueUnavailable)
        }
    }

    /// The characteristic that the descriptor was created under.
    pub fn get_characteristic(
        &self,
        stack: &FakeBluetoothStack,
    ) -> (r: Result<FakeBluetoothGATTCharacteristic, BluetoothError>)
        ensures
            r is Ok <==> stack@.has_descriptor(*self),
            r matches Ok(characteristic) ==> characteristic == stack@.descriptor(
                *self,
            ).characteristic,
            r matches Ok(characteristic) ==> (stack@.wf() ==> stack@.has_characteristic(
                characteristic,
            )),
            r matches Err(e) ==> e == BluetoothError::ValueUnavailable,
    {
        if self.index < stack.descriptors.len() {
            Ok(stack.descriptors[self.index].characteristic)
        } else {
            Err(BluetoothError::ValueUnavailable)
        }
    }

    /// Reads the value of the descriptor.
    pub fn read_value(&self, stack: &FakeBluetoothStack) -> (r: Result<Vec<u8>, BluetoothError>)
        ensures
            r is Ok <==> stack@.has_descriptor(*self),
            r matches Ok(v) ==> v@ == stack@.descriptor(*self).value,
            r matches Err(e) ==> e == BluetoothError::ValueUnavailable,
    {
        self.get_value(stack)
    }

    /// Writes the value of the descriptor.
    pub fn write_value(
        &self,
        stack: &mut FakeBluetoothStack,
        value: Vec<u8>,
    ) -> (r: Result<(), BluetoothError>)
        ensures
            r is Ok <==> old(stack)@.has_descriptor(*self),
            r is Ok ==> final(stack)@ == old(stack)@.with_descriptor(
                *self,
                (DescriptorModel { value: value@, ..old(stack)@.descriptor(*self) }),
            ),
            r matches Err(e)
                ==> e == BluetoothError::ValueUnavailable && final(stack)@ == old(stack)@,
            old(stack)@.wf() ==> final(stack)@.wf(),
    {
        self.set_value(stack, value)
    }
}

} // verus!
