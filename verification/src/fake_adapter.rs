//! Adapters: the roots of the stack, each standing for a Bluetooth controller.

use vstd::prelude::*;
use crate::error::BluetoothError;
use crate::fake_device::FakeBluetoothDevice;
use crate::fake_discovery_session::FakeBluetoothDiscoverySession;
use crate::modalias::{
    modalias_device, modalias_product, modalias_source, modalias_vendor, modalias_well_formed,
    parse_modalias,
};
use crate::model::{ids_distinct, lemma_first_with_id, AdapterModel};
use crate::stack::{AdapterRecord, FakeBluetoothStack};

verus! {

/// A handle on one adapter of a stack. Copies of a handle name the same
/// adapter: what is changed through one is seen through the other.
#[derive(Clone, Copy, Debug, PartialEq, Eq, Hash, Structural)]
pub struct FakeBluetoothAdapter {
    /// The position of the adapter among those of its stack.
    pub index: usize,
}

impl FakeBluetoothAdapter {
    /// A new adapter with the given attributes. Fails, and creates nothing,
    /// if one of the devices does not exist, and if two of them have the same
    /// id.
    pub fn new(
        stack: &mut FakeBluetoothStack,
        id: String,
        is_present: bool,
        is_powered: bool,
        can_start_discovery: bool,
        can_stop_discovery: bool,
        devices: Vec<FakeBluetoothDevice>,
        ad_datas: Vec<String>,
        address: String,
        name: String,
        alias: String,
        class: u32,
        is_discoverable: bool,
        is_pairable: bool,
        pairable_timeout: u32,
        discoverable_timeout: u32,
        is_discovering: bool,
        uuids: Vec<String>,
        modalias: String,
    ) -> (r: Result<FakeBluetoothAdapter, BluetoothError>)
        requires
            old(stack)@.wf(),
        ensures
            (final(stack)@, r) == old(stack)@.create_adapter(
                (AdapterModel {
                    id: id@,
                    is_present,
                    is_powered,
                    can_start_discovery,
                    can_stop_discovery,
                    devices: devices@,
                    ad_datas: ad_datas.deep_view(),
                    address: address@,
                    name: name@,
                    alias: alias@,
                    class,
                    is_discoverable,
                    is_pairable,
                    pairable_timeout,
                    discoverable_timeout,
                    is_discovering,
                    uuids: uuids.deep_view(),
                    modalias: modalias@,
                }),
            ),
            r is Ok <==> old(stack)@.has_devices(devices@) && ids_distinct(
                devices@,
                old(stack)@.device_id(),
            ),
            final(stack)@.wf(),
            old(stack)@.grows_to(final(stack)@),
            r matches Ok(adapter) ==> final(stack)@.has_adapter(adapter) && final(stack)@.adapter(
                adapter,
            ).id == id@,
            r matches Err(e)
                ==> e == BluetoothError::ValueUnavailable || e == BluetoothError::DuplicateId,
    {
        if !stack.has_devices(&devices) {
            return Err(BluetoothError::ValueUnavailable);
        }
        if !stack.distinct_device_ids(&devices) {
            return Err(BluetoothError::DuplicateId);
        }
        let adapter = FakeBluetoothAdapter { index: stack.adapters.len() };
        let record = AdapterRecord {
            id,
            is_present,
            is_powered,
            can_start_discovery,
            can_stop_discovery,
            devices,
            ad_datas,
            address,
            name,
            alias,
            class,
            is_discoverable,
            is_pairable,
            pairable_timeout,
            discoverable_timeout,
            is_discovering,
            uuids,
            modalias,
        };
        let ghost init = record@;
        stack.adapters.push(record);
        proof {
            assert(stack@ =~= old(stack)@.insert_adapter(init));
            assert(old(stack)@.adapters.len() + 1 == stack.adapters.len());
            old(stack)@.lemma_insert_adapter(init);
        }
        Ok(adapter)
    }

    /// A new adapter with the empty id: present, able to start and to stop
    /// discovery, and without any other attribute set.
    pub fn new_empty(stack: &mut FakeBluetoothStack) -> (adapter: FakeBluetoothAdapter)
        requires
            old(stack)@.wf(),
        ensures
            final(stack)@ == old(stack)@.insert_adapter(AdapterModel::empty(Seq::empty())),
            adapter == old(stack)@.next_adapter(),
            final(stack)@.wf(),
            old(stack)@.grows_to(final(stack)@),
            final(stack)@.has_adapter(adapter),
            final(stack)@.adapter(adapter).id == Seq::<char>::empty(),
    {
        let adapter = FakeBluetoothAdapter { index: stack.adapters.len() };
        let record = AdapterRecord {
            id: String::new(),
            is_present: true,
            is_powered: false,
            can_start_discovery: true,
            can_stop_discovery: true,
            devices: Vec::new(),
            ad_datas: Vec::new(),
            address: String::new(),
            name: String::new(),
            alias: String::new(),
            class: 0,
            is_discoverable: false,
            is_pairable: false,
            pairable_timeout: 0,
            discoverable_timeout: 0,
            is_discovering: false,
            uuids: Vec::new(),
            modalias: String::new(),
        };
        let ghost init = record@;
        stack.adapters.push(record);
        proof {
            assert(init =~~= AdapterModel::empty(Seq::empty()));
            assert(stack@ =~= old(stack)@.insert_adapter(init));
            assert(old(stack)@.adapters.len() + 1 == stack.adapters.len());
            old(stack)@.lemma_insert_adapter(init);
        }
        adapter
    }

    /// The id of the adapter.
    pub fn get_id(&self, stack: &FakeBluetoothStack) -> (r: Result<String, BluetoothError>)
        ensures
            r is Ok <==> stack@.has_adapter(*self),
            r matches Ok(v) ==> v@ == stack@.adapter(*self).id,
            r matches Err(e) ==> e == BluetoothError::ValueUnavailable,
    {
        if self.index < stack.adapters.len() {
            Ok(stack.adapters[self.index].id.clone())
        } else {
            Err(BluetoothError::ValueUnavailable)
        }
    }

    /// Gives the adapter another id.
    pub fn set_id(
        &self,
        stack: &mut FakeBluetoothStack,
        value: String,
    ) -> (r: Result<(), BluetoothError>)
        ensures
            r is Ok <==> old(stack)@.has_adapter(*self),
            r is Ok ==> final(stack)@ == old(stack)@.with_adapter(
                *self,
                (AdapterModel { id: value@, ..old(stack)@.adapter(*self) }),
            ),
            r matches Err(e)
                ==> e == BluetoothError::ValueUnavailable && final(stack)@ == old(stack)@,
            old(stack)@.wf() ==> final(stack)@.wf(),
    {
        if self.index < stack.adapters.len() {
            stack.adapters[self.index].id = value;
            proof {
                let m = AdapterModel { id: value@, ..old(stack)@.adapter(*self) };
                assert(stack@ =~= old(stack)@.with_adapter(*self, m));
                if old(stack)@.wf() {
                    old(stack)@.lemma_with_adapter(*self, m);
                }
            }
            Ok(())
        } else {
            Err(BluetoothError::ValueUnavailable)
        }
    }

    /// Whether the adapter is present.
    pub fn is_present(&self, stack: &FakeBluetoothStack) -> (r: Result<bool, BluetoothError>)
        ensures
            r is Ok <==> stack@.has_adapter(*self),
            r matches Ok(v) ==> v == stack@.adapter(*self).is_present,
            r matches Err(e) ==> e == BluetoothError::ValueUnavailable,
    {
        if self.index < stack.adapters.len() {
            Ok(stack.adapters[self.index].is_present)
        } else {
            Err(BluetoothError::ValueUnavailable)
        }
    }

    /// Sets whether the adapter is present.
    pub fn set_present(
        &self,
        stack: &mut FakeBluetoothStack,
        value: bool,
    ) -> (r: Result<(), BluetoothError>)
        ensures
            r is Ok <==> old(stack)@.has_adapter(*self),
            r is Ok ==> final(stack)@ == old(stack)@.with_adapter(
                *self,
                (AdapterModel { is_present: value, ..old(stack)@.adapter(*self) }),
            ),
            r matches Err(e)
                ==> e == BluetoothError::ValueUnavailable && final(stack)@ == old(stack)@,
            old(stack)@.wf() ==> final(stack)@.wf(),
    {
        if self.index < stack.adapters.len() {
            stack.adapters[self.index].is_present = value;
            proof {
                let m = AdapterModel { is_present: value, ..old(stack)@.adapter(*self) };
                assert(stack@ =~= old(stack)@.with_adapter(*self, m));
                if old(stack)@.wf() {
                    old(stack)@.lemma_with_adapter(*self, m);
                }
            }
            Ok(())
        } else {
            Err(BluetoothError::ValueUnavailable)
        }
    }

    /// Whether the adapter is powered.
    pub fn is_powered(&self, stack: &FakeBluetoothStack) -> (r: Result<bool, BluetoothError>)
        ensures
            r is Ok <==> stack@.has_adapter(*self),
            r matches Ok(v) ==> v == stack@.adapter(*self).is_powered,
            r matches Err(e) ==> e == BluetoothError::ValueUnavailable,
    {
        if self.index < stack.adapters.len() {
            Ok(stack.adapters[self.index].is_powered)
        } else {
            Err(BluetoothError::ValueUnavailable)
        }
    }

    /// Sets whether the adapter is powered.
    pub fn set_powered(
        &self,
        stack: &mut FakeBluetoothStack,
        value: bool,
    ) -> (r: Result<(), BluetoothError>)
        ensures
            r is Ok <==> old(stack)@.has_adapter(*self),
            r is Ok ==> final(stack)@ == old(stack)@.with_adapter(
                *self,
                (AdapterModel { is_powered: value, ..old(stack)@.adapter(*self) }),
            ),
            r matches Err(e)
                ==> e == BluetoothError::ValueUnavailable && final(stack)@ == old(stack)@,
            old(stack)@.wf() ==> final(stack)@.wf(),
    {
        if self.index < stack.adapters.len() {
            stack.adapters[self.index].is_powered = value;
            proof {
                let m = AdapterModel { is_powered: value, ..old(stack)@.adapter(*self) };
                assert(stack@ =~= old(stack)@.with_adapter(*self, m));
                if old(stack)@.wf() {
                    old(stack)@.lemma_with_adapter(*self, m);
                }
            }
            Ok(())
        } else {
            Err(BluetoothError::ValueUnavailable)
        }
    }

    /// Whether a discovery session on the adapter may start discovery.
    pub fn get_can_start_discovery(
        &self,
        stack: &FakeBluetoothStack,
    ) -> (r: Result<bool, BluetoothError>)
        ensures
            r is Ok <==> stack@.has_adapter(*self),
            r matches Ok(v) ==> v == stack@.adapter(*self).can_start_discovery,
            r matches Err(e) ==> e == BluetoothError::ValueUnavailable,
    {
        if self.index < stack.adapters.len() {
            Ok(stack.adapters[self.index].can_start_discovery)
        } else {
            Err(BluetoothError::ValueUnavailable)
        }
    }

    /// Sets whether a discovery session on the adapter may start discovery.
    pub fn set_can_start_discovery(
        &self,
        stack: &mut FakeBluetoothStack,
        value: bool,
    ) -> (r: Result<(), BluetoothError>)
        ensures
            r is Ok <==> old(stack)@.has_adapter(*self),
            r is Ok ==> final(stack)@ == old(stack)@.with_adapter(
                *self,
                (AdapterModel { can_start_discovery: value, ..old(stack)@.adapter(*self) }),
            ),
            r matches Err(e)
                ==> e == BluetoothError::ValueUnavailable && final(stack)@ == old(stack)@,
            old(stack)@.wf() ==> final(stack)@.wf(),
    {
        if self.index < stack.adapters.len() {
            stack.adapters[self.index].can_start_discovery = value;
            proof {
                let m = AdapterModel { can_start_discovery: value, ..old(stack)@.adapter(*self) };
                assert(stack@ =~= old(stack)@.with_adapter(*self, m));
                if old(stack)@.wf() {
                    old(stack)@.lemma_with_adapter(*self, m);
                }
            }
            Ok(())
        } else {
            Err(BluetoothError::ValueUnavailable)
        }
    }

    /// Whether a discovery session on the adapter may stop discovery.
    pub fn get_can_stop_discovery(
        &self,
        stack: &FakeBluetoothStack,
    ) -> (r: Result<bool, BluetoothError>)
        ensures
            r is Ok <==> stack@.has_adapter(*self),
            r matches Ok(v) ==> v == stack@.adapter(*self).can_stop_discovery,
            r matches Err(e) ==> e == BluetoothError::ValueUnavailable,
    {
        if self.index < stack.adapters.len() {
            Ok(stack.adapters[self.index].can_stop_discovery)
        } else {
            Err(BluetoothError::ValueUnavailable)
        }
    }

    /// Sets whether a discovery session on the adapter may stop discovery.
    pub fn set_can_stop_discovery(
        &self,
        stack: &mut FakeBluetoothStack,
        value: bool,
    ) -> (r: Result<(), BluetoothError>)
        ensures
            r is Ok <==> old(stack)@.has_adapter(*self),
            r is Ok ==> final(stack)@ == old(stack)@.with_adapter(
                *self,
                (AdapterModel { can_stop_discovery: value, ..old(stack)@.adapter(*self) }),
            ),
            r matches Err(e)
                ==> e == BluetoothError::ValueUnavailable && final(stack)@ == old(stack)@,
            old(stack)@.wf() ==> final(stack)@.wf(),
    {
        if self.index < stack.adapters.len() {
            stack.adapters[self.index].can_stop_discovery = value;
            proof {
                let m = AdapterModel { can_stop_discovery: value, ..old(stack)@.adapter(*self) };
                assert(stack@ =~= old(stack)@.with_adapter(*self, m));
                if old(stack)@.wf() {
                    old(stack)@.lemma_with_adapter(*self, m);
                }
            }
            Ok(())
        } else {
            Err(BluetoothError::ValueUnavailable)
        }
    }

    /// The devices of the adapter, in the order in which they were added.
    pub fn get_devices(
        &self,
        stack: &FakeBluetoothStack,
    ) -> (r: Result<Vec<FakeBluetoothDevice>, BluetoothError>)
        ensures
            r is Ok <==> stack@.has_adapter(*self),
            r matches Ok(v) ==> v@ == stack@.adapter(*self).devices,
            r matches Err(e) ==> e == BluetoothError::ValueUnavailable,
    {
        if self.index < stack.adapters.len() {
            let v = stack.adapters[self.index].devices.clone();
            assert(v@ =~= stack.adapters[self.index as int].devices@);
            Ok(v)
        } else {
            Err(BluetoothError::ValueUnavailable)
        }
    }

    /// The advertising data of the adapter.
    pub fn get_ad_datas(
        &self,
        stack: &FakeBluetoothStack,
    ) -> (r: Result<Vec<String>, BluetoothError>)
        ensures
            r is Ok <==> stack@.has_adapter(*self),
            r matches Ok(v) ==> v.deep_view() == stack@.adapter(*self).ad_datas,
            r matches Err(e) ==> e == BluetoothError::ValueUnavailable,
    {
        if self.index < stack.adapters.len() {
            let v = stack.adapters[self.index].ad_datas.clone();
            assert(v@ =~= stack.adapters[self.index as int].ad_datas@);
            Ok(v)
        } else {
            Err(BluetoothError::ValueUnavailable)
        }
    }

    /// Sets the advertising data of the adapter.
    pub fn set_ad_datas(
        &self,
        stack: &mut FakeBluetoothStack,
        value: Vec<String>,
    ) -> (r: Result<(), BluetoothError>)
        ensures
            r is Ok <==> old(stack)@.has_adapter(*self),
            r is Ok ==> final(stack)@ == old(stack)@.with_adapter(
                *self,
                (AdapterModel { ad_datas: value.deep_view(), ..old(stack)@.adapter(*self) }),
            ),
            r matches Err(e)
                ==> e == BluetoothError::ValueUnavailable && final(stack)@ == old(stack)@,
            old(stack)@.wf() ==> final(stack)@.wf(),
    {
        if self.index < stack.adapters.len() {
            stack.adapters[self.index].ad_datas = value;
            proof {
                let m = AdapterModel { ad_datas: value.deep_view(), ..old(stack)@.adapter(*self) };
                assert(stack@ =~= old(stack)@.with_adapter(*self, m));
                if old(stack)@.wf() {
                    old(stack)@.lemma_with_adapter(*self, m);
                }
            }
            Ok(())
        } else {
            Err(BluetoothError::ValueUnavailable)
        }
    }

    /// The address of the adapter.
    pub fn get_address(&self, stack: &FakeBluetoothStack) -> (r: Result<String, BluetoothError>)
        ensures
            r is Ok <==> stack@.has_adapter(*self),
            r matches Ok(v) ==> v@ == stack@.adapter(*self).address,
            r matches Err(e) ==> e == BluetoothError::ValueUnavailable,
    {
        if self.index < stack.adapters.len() {
            Ok(stack.adapters[self.index].address.clone())
        } else {
            Err(BluetoothError::ValueUnavailable)
        }
    }

    /// Sets the address of the adapter.
    pub fn set_address(
        &self,
        stack: &mut FakeBluetoothStack,
        value: String,
    ) -> (r: Result<(), BluetoothError>)
        ensures
            r is Ok <==> old(stack)@.has_adapter(*self),
            r is Ok ==> final(stack)@ == old(stack)@.with_adapter(
                *self,
                (AdapterModel { address: value@, ..old(stack)@.adapter(*self) }),
            ),
            r matches Err(e)
                ==> e == BluetoothError::ValueUnavailable && final(stack)@ == old(stack)@,
            old(stack)@.wf() ==> final(stack)@.wf(),
    {
        if self.index < stack.adapters.len() {
            stack.adapters[self.index].address = value;
            proof {
                let m = AdapterModel { address: value@, ..old(stack)@.adapter(*self) };
                assert(stack@ =~= old(stack)@.with_adapter(*self, m));
                if old(stack)@.wf() {
                    old(stack)@.lemma_with_adapter(*self, m);
                }
            }
            Ok(())
        } else {
            Err(BluetoothError::ValueUnavailable)
        }
    }

    /// The name of the adapter.
    pub fn get_name(&self, stack: &FakeBluetoothStack) -> (r: Result<String, BluetoothError>)
        ensures
            r is Ok <==> stack@.has_adapter(*self),
            r matches Ok(v) ==> v@ == stack@.adapter(*self).name,
            r matches Err(e) ==> e == BluetoothError::ValueUnavailable,
    {
        if self.index < stack.adapters.len() {
            Ok(stack.adapters[self.index].name.clone())
        } else {
            Err(BluetoothError::ValueUnavailable)
        }
    }

    /// Sets the name of the adapter.
    pub fn set_name(
        &self,
        stack: &mut FakeBluetoothStack,
        value: String,
    ) -> (r: Result<(), BluetoothError>)
        ensures
            r is Ok <==> old(stack)@.has_adapter(*self),
            r is Ok ==> final(stack)@ == old(stack)@.with_adapter(
                *self,
                (AdapterModel { name: value@, ..old(stack)@.adapter(*self) }),
            ),
            r matches Err(e)
                ==> e == BluetoothError::ValueUnavailable && final(stack)@ == old(stack)@,
            old(stack)@.wf() ==> final(stack)@.wf(),
    {
        if self.index < stack.adapters.len() {
            stack.adapters[self.index].name = value;
            proof {
                let m = AdapterModel { name: value@, ..old(stack)@.adapter(*self) };
                assert(stack@ =~= old(stack)@.with_adapter(*self, m));
                if old(stack)@.wf() {
                    old(stack)@.lemma_with_adapter(*self, m);
                }
            }
            Ok(())
        } else {
            Err(BluetoothError::ValueUnavailable)
        }
    }

    /// The alias of the adapter.
    pub fn get_alias(&self, stack: &FakeBluetoothStack) -> (r: Result<String, BluetoothError>)
        ensures
            r is Ok <==> stack@.has_adapter(*self),
            r matches Ok(v) ==> v@ == stack@.adapter(*self).alias,
            r matches Err(e) ==> e == BluetoothError::ValueUnavailable,
    {
        if self.index < stack.adapters.len() {
            Ok(stack.adapters[self.index].alias.clone())
        } else {
            Err(BluetoothError::ValueUnavailable)
        }
    }

    /// Sets the alias of the adapter.
    pub fn set_alias(
        &self,
        stack: &mut FakeBluetoothStack,
        value: String,
    ) -> (r: Result<(), BluetoothError>)
        ensures
            r is Ok <==> old(stack)@.has_adapter(*self),
            r is Ok ==> final(stack)@ == old(stack)@.with_adapter(
                *self,
                (AdapterModel { alias: value@, ..old(stack)@.adapter(*self) }),
            ),
            r matches Err(e)
                ==> e == BluetoothError::ValueUnavailable && final(stack)@ == old(stack)@,
            old(stack)@.wf() ==> final(stack)@.wf(),
    {
        if self.index < stack.adapters.len() {
            stack.adapters[self.index].alias = value;
            proof {
                let m = AdapterModel { alias: value@, ..old(stack)@.adapter(*self) };
                assert(stack@ =~= old(stack)@.with_adapter(*self, m));
                if old(stack)@.wf() {
                    old(stack)@.lemma_with_adapter(*self, m);
                }
            }
            Ok(())
        } else {
            Err(BluetoothError::ValueUnavailable)
        }
    }

    /// The class of the adapter.
    pub fn get_class(&self, stack: &FakeBluetoothStack) -> (r: Result<u32, BluetoothError>)
        ensures
            r is Ok <==> stack@.has_adapter(*self),
            r matches Ok(v) ==> v == stack@.adapter(*self).class,
            r matches Err(e) ==> e == BluetoothError::ValueUnavailable,
    {
        if self.index < stack.adapters.len() {
            Ok(stack.adapters[self.index].class)
        } else {
            Err(BluetoothError::ValueUnavailable)
        }
    }

    /// Sets the class of the adapter.
    pub fn set_class(
        &self,
        stack: &mut FakeBluetoothStack,
        value: u32,
    ) -> (r: Result<(), BluetoothError>)
        ensures
            r is Ok <==> old(stack)@.has_adapter(*self),
            r is Ok ==> final(stack)@ == old(stack)@.with_adapter(
                *self,
                (AdapterModel { class: value, ..old(stack)@.adapter(*self) }),
            ),
            r matches Err(e)
                ==> e == BluetoothError::ValueUnavailable && final(stack)@ == old(stack)@,
            old(stack)@.wf() ==> final(stack)@.wf(),
    {
        if self.index < stack.adapters.len() {
            stack.adapters[self.index].class = value;
            proof {
                let m = AdapterModel { class: value, ..old(stack)@.adapter(*self) };
                assert(stack@ =~= old(stack)@.with_adapter(*self, m));
                if old(stack)@.wf() {
                    old(stack)@.lemma_with_adapter(*self, m);
                }
            }
            Ok(())
        } else {
            Err(BluetoothError::ValueUnavailable)
        }
    }

    /// Whether the adapter can be discovered.
    pub fn is_discoverable(&self, stack: &FakeBluetoothStack) -> (r: Result<bool, BluetoothError>)
        ensures
            r is Ok <==> stack@.has_adapter(*self),
            r matches Ok(v) ==> v == stack@.adapter(*self).is_discoverable,
            r matches Err(e) ==> e == BluetoothError::ValueUnavailable,
    {
        if self.index < stack.adapters.len() {
            Ok(stack.adapters[self.index].is_discoverable)
        } else {
            Err(BluetoothError::ValueUnavailable)
        }
    }

    /// Sets whether the adapter can be discovered.
    pub fn set_discoverable(
        &self,
        stack: &mut FakeBluetoothStack,
        value: bool,
    ) -> (r: Result<(), BluetoothError>)
        ensures
            r is Ok <==> old(stack)@.has_adapter(*self),
            r is Ok ==> final(stack)@ == old(stack)@.with_adapter(
                *self,
                (AdapterModel { is_discoverable: value, ..old(stack)@.adapter(*self) }),
            ),
            r matches Err(e)
                ==> e == BluetoothError::ValueUnavailable && final(stack)@ == old(stack)@,
            old(stack)@.wf() ==> final(stack)@.wf(),
    {
        if self.index < stack.adapters.len() {
            stack.adapters[self.index].is_discoverable = value;
            proof {
                let m = AdapterModel { is_discoverable: value, ..old(stack)@.adapter(*self) };
                assert(stack@ =~= old(stack)@.with_adapter(*self, m));
                if old(stack)@.wf() {
                    old(stack)@.lemma_with_adapter(*self, m);
                }
            }
            Ok(())
        } else {
            Err(BluetoothError::ValueUnavailable)
        }
    }

    /// Whether the adapter accepts pairing.
    pub fn is_pairable(&self, stack: &FakeBluetoothStack) -> (r: Result<bool, BluetoothError>)
        ensures
            r is Ok <==> stack@.has_adapter(*self),
            r matches Ok(v) ==> v == stack@.adapter(*self).is_pairable,
            r matches Err(e) ==> e == BluetoothError::ValueUnavailable,
    {
        if self.index < stack.adapters.len() {
            Ok(stack.adapters[self.index].is_pairable)
        } else {
            Err(BluetoothError::ValueUnavailable)
        }
    }

    /// Sets whether the adapter accepts pairing.
    pub fn set_pairable(
        &self,
        stack: &mut FakeBluetoothStack,
        value: bool,
    ) -> (r: Result<(), BluetoothError>)
        ensures
            r is Ok <==> old(stack)@.has_adapter(*self),
            r is Ok ==> final(stack)@ == old(stack)@.with_adapter(
                *self,
                (AdapterModel { is_pairable: value, ..old(stack)@.adapter(*self) }),
            ),
            r matches Err(e)
                ==> e == BluetoothError::ValueUnavailable && final(stack)@ == old(stack)@,
            old(stack)@.wf() ==> final(stack)@.wf(),
    {
        if self.index < stack.adapters.len() {
            stack.adapters[self.index].is_pairable = value;
            proof {
                let m = AdapterModel { is_pairable: value, ..old(stack)@.adapter(*self) };
                assert(stack@ =~= old(stack)@.with_adapter(*self, m));
                if old(stack)@.wf() {
                    old(stack)@.lemma_with_adapter(*self, m);
                }
            }
            Ok(())
        } else {
            Err(BluetoothError::ValueUnavailable)
        }
    }

    /// The time after which the adapter stops accepting pairing.
    pub fn get_pairable_timeout(
        &self,
        stack: &FakeBluetoothStack,
    ) -> (r: Result<u32, BluetoothError>)
        ensures
            r is Ok <==> stack@.has_adapter(*self),
            r matches Ok(v) ==> v == stack@.adapter(*self).pairable_timeout,
            r matches Err(e) ==> e == BluetoothError::ValueUnavailable,
    {
        if self.index < stack.adapters.len() {
            Ok(stack.adapters[self.index].pairable_timeout)
        } else {
            Err(BluetoothError::ValueUnavailable)
        }
    }

    /// Sets the time after which the adapter stops accepting pairing.
    pub fn set_pairable_timeout(
        &self,
        stack: &mut FakeBluetoothStack,
        value: u32,
    ) -> (r: Result<(), BluetoothError>)
        ensures
            r is Ok <==> old(stack)@.has_adapter(*self),
            r is Ok ==> final(stack)@ == old(stack)@.with_adapter(
                *self,
                (AdapterModel { pairable_timeout: value, ..old(stack)@.adapter(*self) }),
            ),
            r matches Err(e)
                ==> e == BluetoothError::ValueUnavailable && final(stack)@ == old(stack)@,
            old(stack)@.wf() ==> final(stack)@.wf(),
    {
        if self.index < stack.adapters.len() {
            stack.adapters[self.index].pairable_timeout = value;
            proof {
                let m = AdapterModel { pairable_timeout: value, ..old(stack)@.adapter(*self) };
                assert(stack@ =~= old(stack)@.with_adapter(*self, m));
                if old(stack)@.wf() {
                    old(stack)@.lemma_with_adapter(*self, m);
                }
            }
            Ok(())
        } else {
            Err(BluetoothError::ValueUnavailable)
        }
    }

    /// The time after which the adapter can no longer be discovered.
    pub fn get_discoverable_timeout(
        &self,
        stack: &FakeBluetoothStack,
    ) -> (r: Result<u32, BluetoothError>)
        ensures
            r is Ok <==> stack@.has_adapter(*self),
            r matches Ok(v) ==> v == stack@.adapter(*self).discoverable_timeout,
            r matches Err(e) ==> e == BluetoothError::ValueUnavailable,
    {
        if self.index < stack.adapters.len() {
            Ok(stack.adapters[self.index].discoverable_timeout)
        } else {
            Err(BluetoothError::ValueUnavailable)
        }
    }

    /// Sets the time after which the adapter can no longer be discovered.
    pub fn set_discoverable_timeout(
        &self,
        stack: &mut FakeBluetoothStack,
        value: u32,
    ) -> (r: Result<(), BluetoothError>)
        ensures
            r is Ok <==> old(stack)@.has_adapter(*self),
            r is Ok ==> final(stack)@ == old(stack)@.with_adapter(
                *self,
                (AdapterModel { discoverable_timeout: value, ..old(stack)@.adapter(*self) }),
            ),
            r matches Err(e)
                ==> e == BluetoothError::ValueUnavailable && final(stack)@ == old(stack)@,
            old(stack)@.wf() ==> final(stack)@.wf(),
    {
        if self.index < stack.adapters.len() {
            stack.adapters[self.index].discoverable_timeout = value;
            proof {
                let m = AdapterModel { discoverable_timeout: value, ..old(stack)@.adapter(*self) };
                assert(stack@ =~= old(stack)@.with_adapter(*self, m));
                if old(stack)@.wf() {
                    old(stack)@.lemma_with_adapter(*self, m);
                }
            }
            Ok(())
        } else {
            Err(BluetoothError::ValueUnavailable)
        }
    }

    /// Whether the adapter is discovering.
    pub fn is_discovering(&self, stack: &FakeBluetoothStack) -> (r: Result<bool, BluetoothError>)
        ensures
            r is Ok <==> stack@.has_adapter(*self),
            r matches Ok(v) ==> v == stack@.adapter(*self).is_discovering,
            r matches Err(e) ==> e == BluetoothError::ValueUnavailable,
    {
        if self.index < stack.adapters.len() {
            Ok(stack.adapters[self.index].is_discovering)
        } else {
            Err(BluetoothError::ValueUnavailable)
        }
    }

    /// Sets whether the adapter is discovering.
    pub fn set_discovering(
        &self,
        stack: &mut FakeBluetoothStack,
        value: bool,
    ) -> (r: Result<(), BluetoothError>)
        ensures
            r is Ok <==> old(stack)@.has_adapter(*self),
            r is Ok ==> final(stack)@ == old(stack)@.with_adapter(
                *self,
                (AdapterModel { is_discovering: value, ..old(stack)@.adapter(*self) }),
            ),
            r matches Err(e)
                ==> e == BluetoothError::ValueUnavailable && final(stack)@ == old(stack)@,
            old(stack)@.wf() ==> final(stack)@.wf(),
    {
        if self.index < stack.adapters.len() {
            stack.adapters[self.index].is_discovering = value;
            proof {
                let m = AdapterModel { is_discovering: value, ..old(stack)@.adapter(*self) };
                assert(stack@ =~= old(stack)@.with_adapter(*self, m));
                if old(stack)@.wf() {
                    old(stack)@.lemma_with_adapter(*self, m);
                }
            }
            Ok(())
        } else {
            Err(BluetoothError::ValueUnavailable)
        }
    }

    /// The UUIDs of the adapter.
    pub fn get_uuids(&self, stack: &FakeBluetoothStack) -> (r: Result<Vec<String>, BluetoothError>)
        ensures
            r is Ok <==> stack@.has_adapter(*self),
            r matches Ok(v) ==> v.deep_view() == stack@.adapter(*self).uuids,
            r matches Err(e) ==> e == BluetoothError::ValueUnavailable,
    {
        if self.index < stack.adapters.len() {
            let v = stack.adapters[self.index].uuids.clone();
            assert(v@ =~= stack.adapters[self.index as int].uuids@);
            Ok(v)
        } else {
            Err(BluetoothError::ValueUnavailable)
        }
    }

    /// Sets the UUIDs of the adapter.
    pub fn set_uuids(
        &self,
        stack: &mut FakeBluetoothStack,
        value: Vec<String>,
    ) -> (r: Result<(), BluetoothError>)
        ensures
            r is Ok <==> old(stack)@.has_adapter(*self),
            r is Ok ==> final(stack)@ == old(stack)@.with_adapter(
                *self,
                (AdapterModel { uuids: value.deep_view(), ..old(stack)@.adapter(*self) }),
            ),
            r matches Err(e)
                ==> e == BluetoothError::ValueUnavailable && final(stack)@ == old(stack)@,
            old(stack)@.wf() ==> final(stack)@.wf(),
    {
        if self.index < stack.adapters.len() {
            stack.adapters[self.index].uuids = value;
            proof {
                let m = AdapterModel { uuids: value.deep_view(), ..old(stack)@.adapter(*self) };
                assert(stack@ =~= old(stack)@.with_adapter(*self, m));
                if old(stack)@.wf() {
                    old(stack)@.lemma_with_adapter(*self, m);
                }
            }
            Ok(())
        } else {
            Err(BluetoothError::ValueUnavailable)
        }
    }

    /// Sets the modalias of the adapter. The string is not looked at until it
    /// is decoded.
    pub fn set_modalias(
        &self,
        stack: &mut FakeBluetoothStack,
        value: String,
    ) -> (r: Result<(), BluetoothError>)
        ensures
            r is Ok <==> old(stack)@.has_adapter(*self),
            r is Ok ==> final(stack)@ == old(stack)@.with_adapter(
                *self,
                (AdapterModel { modalias: value@, ..old(stack)@.adapter(*self) }),
            ),
            r matches Err(e)
                ==> e == BluetoothError::ValueUnavailable && final(stack)@ == old(stack)@,
            old(stack)@.wf() ==> final(stack)@.wf(),
    {
        if self.index < stack.adapters.len() {
            stack.adapters[self.index].modalias = value;
            proof {
                let m = AdapterModel { modalias: value@, ..old(stack)@.adapter(*self) };
                assert(stack@ =~= old(stack)@.with_adapter(*self, m));
                if old(stack)@.wf() {
                    old(stack)@.lemma_with_adapter(*self, m);
                }
            }
            Ok(())
        } else {
            Err(BluetoothError::ValueUnavailable)
        }
    }

    /// The first device of the adapter that has the given id. Fails if the
    /// adapter holds no such device.
    pub fn get_device(
        &self,
        stack: &FakeBluetoothStack,
        id: String,
    ) -> (r: Result<FakeBluetoothDevice, BluetoothError>)
        requires
            stack@.wf(),
        ensures
            r is Ok <==> stack@.has_adapter(*self) && stack@.find_device(
                stack@.adapter(*self).devices,
                id@,
            ) is Some,
            r matches Ok(found) ==> stack@.find_device(
                stack@.adapter(*self).devices,
                id@,
            ) == Some(found),
            r matches Ok(found) ==> stack@.has_device(found) && stack@.device(found).id == id@,
            r matches Err(e) ==> e == if stack@.has_adapter(*self) {
                BluetoothError::NoSuchDevice
            } else {
                BluetoothError::ValueUnavailable
            },
    {
        if self.index >= stack.adapters.len() {
            return Err(BluetoothError::ValueUnavailable);
        }
        proof {
            assert(stack@.has_devices(stack@.adapters[self.index as int].devices));
            lemma_first_with_id(stack@.adapter(*self).devices, stack@.device_id(), id@);
        }
        match stack.find_device(&stack.adapters[self.index].devices, &id) {
            Some(found) => Ok(found),
            None => Err(BluetoothError::NoSuchDevice),
        }
    }

    /// The ids of the devices of the adapter, in the order in which they were
    /// added.
    pub fn get_device_list(
        &self,
        stack: &FakeBluetoothStack,
    ) -> (r: Result<Vec<String>, BluetoothError>)
        requires
            stack@.wf(),
        ensures
            r is Ok <==> stack@.has_adapter(*self),
            r matches Ok(ids) ==> ids.deep_view() == stack@.device_ids(
                stack@.adapter(*self).devices,
            ),
            r matches Err(e) ==> e == BluetoothError::ValueUnavailable,
    {
        if self.index < stack.adapters.len() {
            assert(stack@.has_devices(stack@.adapters[self.index as int].devices));
            Ok(stack.device_ids(&stack.adapters[self.index].devices))
        } else {
            Err(BluetoothError::ValueUnavailable)
        }
    }

    /// The first device of the adapter. Fails if the adapter holds none.
    pub fn get_first_device(
        &self,
        stack: &FakeBluetoothStack,
    ) -> (r: Result<FakeBluetoothDevice, BluetoothError>)
        ensures
            r is Ok <==> stack@.has_adapter(*self) && stack@.adapter(*self).devices.len() > 0,
            r matches Ok(device) ==> device == stack@.adapter(*self).devices[0],
            r matches Ok(device) ==> (stack@.wf() ==> stack@.has_device(device)),
            r matches Err(e) ==> e == if stack@.has_adapter(*self) {
                BluetoothError::NoDeviceFound
            } else {
                BluetoothError::ValueUnavailable
            },
    {
        if self.index >= stack.adapters.len() {
            return Err(BluetoothError::ValueUnavailable);
        }
        if stack.adapters[self.index].devices.len() == 0 {
            return Err(BluetoothError::NoDeviceFound);
        }
        proof {
            if stack@.wf() {
                assert(stack@.has_devices(stack@.adapters[self.index as int].devices));
            }
        }
        Ok(stack.adapters[self.index].devices[0])
    }

    /// Adds a device at the end of the devices of the adapter, whatever adapter
    /// it was created under. Fails, and changes nothing, if the adapter or the
    /// device does not exist, and if the adapter already holds a device with
    /// the id of the one to add.
    pub fn add_device(
        &self,
        stack: &mut FakeBluetoothStack,
        device: FakeBluetoothDevice,
    ) -> (r: Result<(), BluetoothError>)
        requires
            old(stack)@.wf(),
        ensures
            (final(stack)@, r) == old(stack)@.add_device(*self, device),
            r is Ok <==> old(stack)@.has_adapter(*self) && old(stack)@.has_device(device)
                && old(stack)@.find_device(
                old(stack)@.adapter(*self).devices,
                old(stack)@.device(device).id,
            ) is None,
            final(stack)@.wf(),
    {
        if self.index >= stack.adapters.len() || device.index >= stack.devices.len() {
            return Err(BluetoothError::ValueUnavailable);
        }
        assert(stack@.has_devices(stack@.adapters[self.index as int].devices));
        if stack.find_device(
            &stack.adapters[self.index].devices,
            &stack.devices[device.index].id,
        ).is_some() {
            return Err(BluetoothError::DuplicateId);
        }
        stack.adapters[self.index].devices.push(device);
        proof {
            assert(stack@ =~= old(stack)@.add_device(*self, device).0);
            old(stack)@.lemma_add_device(*self, device);
        }
        Ok(())
    }

    /// Takes every device with the given id out of the devices of the adapter.
    /// The devices themselves stay in the stack. Fails if the adapter does not
    /// exist.
    pub fn remove_device(
        &self,
        stack: &mut FakeBluetoothStack,
        id: String,
    ) -> (r: Result<(), BluetoothError>)
        requires
            old(stack)@.wf(),
        ensures
            r is Ok <==> old(stack)@.has_adapter(*self),
            r is Ok ==> final(stack)@ == old(stack)@.remove_device(*self, id@),
            r matches Err(e)
                ==> e == BluetoothError::ValueUnavailable && final(stack)@ == old(stack)@,
            final(stack)@.wf(),
    {
        if self.index < stack.adapters.len() {
            assert(stack@.has_devices(stack@.adapters[self.index as int].devices));
            let kept = stack.devices_without(&stack.adapters[self.index].devices, &id);
            stack.adapters[self.index].devices = kept;
            proof {
                assert(stack@ =~= old(stack)@.remove_device(*self, id@));
                old(stack)@.lemma_remove_device(*self, id@);
            }
            Ok(())
        } else {
            Err(BluetoothError::ValueUnavailable)
        }
    }

    /// The first piece of advertising data of the adapter. Fails if the
    /// adapter holds none.
    pub fn get_first_ad_data(
        &self,
        stack: &FakeBluetoothStack,
    ) -> (r: Result<String, BluetoothError>)
        ensures
            r is Ok <==> stack@.has_adapter(*self) && stack@.adapter(*self).ad_datas.len() > 0,
            r matches Ok(data) ==> data@ == stack@.adapter(*self).ad_datas[0],
            r matches Err(e) ==> e == if stack@.has_adapter(*self) {
                BluetoothError::NoAdDataFound
            } else {
                BluetoothError::ValueUnavailable
            },
    {
        if self.index >= stack.adapters.len() {
            return Err(BluetoothError::ValueUnavailable);
        }
        if stack.adapters[self.index].ad_datas.len() == 0 {
            return Err(BluetoothError::NoAdDataFound);
        }
        Ok(stack.adapters[self.index].ad_datas[0].clone())
    }

    /// A discovery session on the adapter.
    pub fn create_discovery_session(
        &self,
    ) -> (r: Result<FakeBluetoothDiscoverySession, BluetoothError>)
        ensures
            r matches Ok(session) && session.adapter() == *self,
    {
        FakeBluetoothDiscoverySession::create_session(*self)
    }

    /// The modalias of the adapter, decoded: its source and its vendor,
    /// product and device numbers. Fails if the adapter does not exist, and if
    /// its modalias has not the shape `source:vVVVVpPPPPdDDDD`.
    pub fn get_modalias(
        &self,
        stack: &FakeBluetoothStack,
    ) -> (r: Result<(String, u32, u32, u32), BluetoothError>)
        ensures
            r is Ok <==> stack@.has_adapter(*self) && modalias_well_formed(
                stack@.adapter(*self).modalias,
            ),
            r matches Ok(parts) ==> parts.0@ == modalias_source(stack@.adapter(*self).modalias)
                && parts.1 == modalias_vendor(stack@.adapter(*self).modalias) && parts.2
                == modalias_product(stack@.adapter(*self).modalias) && parts.3 == modalias_device(
                stack@.adapter(*self).modalias,
            ),
            r matches Err(e) ==> e == if stack@.has_adapter(*self) {
                BluetoothError::MalformedModalias
            } else {
                BluetoothError::ValueUnavailable
            },
    {
        if self.index < stack.adapters.len() {
            parse_modalias(stack.adapters[self.index].modalias.as_str())
        } else {
            Err(BluetoothError::ValueUnavailable)
        }
    }

    /// The source of the vendor id: what stands before the `:` of the
    /// modalias. Fails where [`FakeBluetoothAdapter::get_modalias`] fails.
    pub fn get_vendor_id_source(
        &self,
        stack: &FakeBluetoothStack,
    ) -> (r: Result<String, BluetoothError>)
        ensures
            r is Ok <==> stack@.has_adapter(*self) && modalias_well_formed(
                stack@.adapter(*self).modalias,
            ),
            r matches Ok(source) ==> source@ == modalias_source(stack@.adapter(*self).modalias),
            r matches Err(e) ==> e == if stack@.has_adapter(*self) {
                BluetoothError::MalformedModalias
            } else {
                BluetoothError::ValueUnavailable
            },
    {
        match self.get_modalias(stack) {
            Ok(parts) => Ok(parts.0),
            Err(e) => Err(e),
        }
    }

    /// The vendor number of the modalias. Fails where
    /// [`FakeBluetoothAdapter::get_modalias`] fails.
    pub fn get_vendor_id(&self, stack: &FakeBluetoothStack) -> (r: Result<u32, BluetoothError>)
        ensures
            r is Ok <==> stack@.has_adapter(*self) && modalias_well_formed(
                stack@.adapter(*self).modalias,
            ),
            r matches Ok(vendor) ==> vendor == modalias_vendor(stack@.adapter(*self).modalias),
            r matches Err(e) ==> e == if stack@.has_adapter(*self) {
                BluetoothError::MalformedModalias
            } else {
                BluetoothError::ValueUnavailable
            },
    {
        match self.get_modalias(stack) {
            Ok(parts) => Ok(parts.1),
            Err(e) => Err(e),
        }
    }

    /// The product number of the modalias. Fails where
    /// [`FakeBluetoothAdapter::get_modalias`] fails.
    pub fn get_product_id(&self, stack: &FakeBluetoothStack) -> (r: Result<u32, BluetoothError>)
        ensures
            r is Ok <==> stack@.has_adapter(*self) && modalias_well_formed(
                stack@.adapter(*self).modalias,
            ),
            r matches Ok(product) ==> product == modalias_product(stack@.adapter(*self).modalias),
            r matches Err(e) ==> e == if stack@.has_adapter(*self) {
                BluetoothError::MalformedModalias
            } else {
                BluetoothError::ValueUnavailable
            },
    {
        match self.get_modalias(stack) {
            Ok(parts) => Ok(parts.2),
            Err(e) => Err(e),
        }
    }

    /// The device number of the modalias. Fails where
    /// [`FakeBluetoothAdapter::get_modalias`] fails.
    pub fn get_device_id(&self, stack: &FakeBluetoothStack) -> (r: Result<u32, BluetoothError>)
        ensures
            r is Ok <==> stack@.has_adapter(*self) && modalias_well_formed(
                stack@.adapter(*self).modalias,
            ),
            r matches Ok(device) ==> device == modalias_device(stack@.adapter(*self).modalias),
            r matches Err(e) ==> e == if stack@.has_adapter(*self) {
                BluetoothError::MalformedModalias
            } else {
                BluetoothError::ValueUnavailable
            },
    {
        match self.get_modalias(stack) {
            Ok(parts) => Ok(parts.3),
            Err(e) => Err(e),
        }
    }

}

} // verus!
