//! A free-standing adapter: one that belongs to no stack and names its
//! devices by their ids alone.

use vstd::prelude::*;
use crate::error::BluetoothError;
use crate::modalias::{
    modalias_device, modalias_product, modalias_source, modalias_vendor, modalias_well_formed,
    parse_modalias,
};

verus! {

/// An adapter that holds all of its attributes itself. Only its power,
/// its visibility, its readiness to pair and the two timeouts can be changed
/// after it was made.
#[allow(non_snake_case)]
#[derive(Debug)]
pub struct FakeBluetoothAdapter {
    object_path: String,
    isPresent: bool,
    isPowered: bool,
    canStartDiscovery: bool,
    canStopDiscovery: bool,
    devices: Vec<String>,
    addatas: Vec<String>,
    address: String,
    name: String,
    alias: String,
    class: u32,
    isDiscoverable: bool,
    isPairable: bool,
    pairableTimeout: u32,
    discoverableTimeout: u32,
    isDiscovering: bool,
    modalias: String,
}

/// The attributes of a free-standing adapter.
#[verifier::ext_equal]
pub struct AdapterAttributes {
    pub object_path: Seq<char>,
    pub is_present: bool,
    pub is_powered: bool,
    pub can_start_discovery: bool,
    pub can_stop_discovery: bool,
    /// The ids of the devices of the adapter.
    pub devices: Seq<Seq<char>>,
    pub ad_datas: Seq<Seq<char>>,
    pub address: Seq<char>,
    pub name: Seq<char>,
    pub alias: Seq<char>,
    pub class: u32,
    pub is_discoverable: bool,
    pub is_pairable: bool,
    pub pairable_timeout: u32,
    pub discoverable_timeout: u32,
    pub is_discovering: bool,
    pub modalias: Seq<char>,
}

impl View for FakeBluetoothAdapter {
    type V = AdapterAttributes;

    closed spec fn view(&self) -> AdapterAttributes {
        AdapterAttributes {
            object_path: self.object_path@,
            is_present: self.isPresent,
            is_powered: self.isPowered,
            can_start_discovery: self.canStartDiscovery,
            can_stop_discovery: self.canStopDiscovery,
            devices: self.devices.deep_view(),
            ad_datas: self.addatas.deep_view(),
            address: self.address@,
            name: self.name@,
            alias: self.alias@,
            class: self.class,
            is_discoverable: self.isDiscoverable,
            is_pairable: self.isPairable,
            pairable_timeout: self.pairableTimeout,
            discoverable_timeout: self.discoverableTimeout,
            is_discovering: self.isDiscovering,
            modalias: self.modalias@,
        }
    }
}

#[allow(non_snake_case)]
impl FakeBluetoothAdapter {
    /// An adapter with the given attributes.
    pub fn new(
        object_path: String,
        isPresent: bool,
        isPowered: bool,
        canStartDiscovery: bool,
        canStopDiscovery: bool,
        devices: Vec<String>,
        addatas: Vec<String>,
        address: String,
        name: String,
        alias: String,
        class: u32,
        isDiscoverable: bool,
        isPairable: bool,
        pairableTimeout: u32,
        discoverableTimeout: u32,
        isDiscovering: bool,
        modalias: String,
    ) -> (adapter: FakeBluetoothAdapter)
        ensures
            adapter@ == (AdapterAttributes {
                object_path: object_path@,
                is_present: isPresent,
                is_powered: isPowered,
                can_start_discovery: canStartDiscovery,
                can_stop_discovery: canStopDiscovery,
                devices: devices.deep_view(),
                ad_datas: addatas.deep_view(),
                address: address@,
                name: name@,
                alias: alias@,
                class,
                is_discoverable: isDiscoverable,
                is_pairable: isPairable,
                pairable_timeout: pairableTimeout,
                discoverable_timeout: discoverableTimeout,
                is_discovering: isDiscovering,
                modalias: modalias@,
            }),
    {
        FakeBluetoothAdapter {
            object_path,
            isPresent,
            isPowered,
            canStartDiscovery,
            canStopDiscovery,
            devices,
            addatas,
            address,
            name,
            alias,
            class,
            isDiscoverable,
            isPairable,
            pairableTimeout,
            discoverableTimeout,
            isDiscovering,
            modalias,
        }
    }

    /// The object path of the adapter.
    pub fn get_object_path(&self) -> (path: String)
        ensures
            path@ == self@.object_path,
    {
        self.object_path.clone()
    }

    /// Whether the adapter is present.
    pub fn get_present(&self) -> (present: bool)
        ensures
            present == self@.is_present,
    {
        self.isPresent
    }

    /// Whether the adapter may start discovery.
    pub fn get_canStartDiscovery(&self) -> (allowed: bool)
        ensures
            allowed == self@.can_start_discovery,
    {
        self.canStartDiscovery
    }

    /// Whether the adapter may stop discovery.
    pub fn get_canStopDiscovery(&self) -> (allowed: bool)
        ensures
            allowed == self@.can_stop_discovery,
    {
        self.canStopDiscovery
    }

    /// The id of the first device of the adapter. Fails if the adapter holds
    /// none.
    pub fn get_first_device(&self) -> (r: Result<String, BluetoothError>)
        ensures
            r is Ok <==> self@.devices.len() > 0,
            r matches Ok(id) ==> id@ == self@.devices[0],
            r matches Err(e) ==> e == BluetoothError::NoDeviceFound,
    {
        if self.devices.len() == 0 {
            return Err(BluetoothError::NoDeviceFound);
        }
        Ok(self.devices[0].clone())
    }

    /// The first piece of advertising data of the adapter. Fails if the
    /// adapter holds none.
    pub fn get_first_addata(&self) -> (r: Result<String, BluetoothError>)
        ensures
            r is Ok <==> self@.ad_datas.len() > 0,
            r matches Ok(data) ==> data@ == self@.ad_datas[0],
            r matches Err(e) ==> e == BluetoothError::NoAdDataFound,
    {
        if self.addatas.len() == 0 {
            return Err(BluetoothError::NoAdDataFound);
        }
        Ok(self.addatas[0].clone())
    }

    /// The ids of the devices of the adapter.
    pub fn get_device_list(&self) -> (r: Result<Vec<String>, BluetoothError>)
        ensures
            r matches Ok(ids) && ids.deep_view() == self@.devices,
    {
        let ids = self.devices.clone();
        assert(ids@ =~= self.devices@);
        Ok(ids)
    }

    /// The address of the adapter.
    pub fn get_address(&self) -> (r: Result<String, BluetoothError>)
        ensures
            r matches Ok(address) && address@ == self@.address,
    {
        Ok(self.address.clone())
    }

    /// The name of the adapter.
    pub fn get_name(&self) -> (r: Result<String, BluetoothError>)
        ensures
            r matches Ok(name) && name@ == self@.name,
    {
        Ok(self.name.clone())
    }

    /// The alias of the adapter.
    pub fn get_alias(&self) -> (r: Result<String, BluetoothError>)
        ensures
            r matches Ok(alias) && alias@ == self@.alias,
    {
        Ok(self.alias.clone())
    }

    /// The class of the adapter.
    pub fn get_class(&self) -> (r: Result<u32, BluetoothError>)
        ensures
            r == Ok::<u32, BluetoothError>(self@.class),
    {
        Ok(self.class)
    }

    /// Whether the adapter is powered.
    pub fn is_powered(&self) -> (r: Result<bool, BluetoothError>)
        ensures
            r == Ok::<bool, BluetoothError>(self@.is_powered),
    {
        Ok(self.isPowered)
    }

    /// Sets whether the adapter is powered.
    pub fn set_powered(&mut self, value: bool) -> (r: Result<(), BluetoothError>)
        ensures
            r is Ok,
            final(self)@ == (AdapterAttributes { is_powered: value, ..old(self)@ }),
    {
        self.isPowered = value;
        Ok(())
    }

    /// Whether the adapter can be discovered.
    pub fn is_discoverable(&self) -> (r: Result<bool, BluetoothError>)
        ensures
            r == Ok::<bool, BluetoothError>(self@.is_discoverable),
    {
        Ok(self.isDiscoverable)
    }

    /// Sets whether the adapter can be discovered.
    pub fn set_discoverable(&mut self, value: bool) -> (r: Result<(), BluetoothError>)
        ensures
            r is Ok,
            final(self)@ == (AdapterAttributes { is_discoverable: value, ..old(self)@ }),
    {
        self.isDiscoverable = value;
        Ok(())
    }

    /// Whether the adapter accepts pairing.
    pub fn is_pairable(&self) -> (r: Result<bool, BluetoothError>)
        ensures
            r == Ok::<bool, BluetoothError>(self@.is_pairable),
    {
        Ok(self.isPairable)
    }

    /// Sets whether the adapter accepts pairing.
    pub fn set_pairable(&mut self, value: bool) -> (r: Result<(), BluetoothError>)
        ensures
            r is Ok,
            final(self)@ == (AdapterAttributes { is_pairable: value, ..old(self)@ }),
    {
        self.isPairable = value;
        Ok(())
    }

    /// The time after which the adapter stops accepting pairing.
    pub fn get_pairable_timeout(&self) -> (r: Result<u32, BluetoothError>)
        ensures
            r == Ok::<u32, BluetoothError>(self@.pairable_timeout),
    {
        Ok(self.pairableTimeout)
    }

    /// Sets the time after which the adapter stops accepting pairing.
    pub fn set_pairable_timeout(&mut self, value: u32) -> (r: Result<(), BluetoothError>)
        ensures
            r is Ok,
            final(self)@ == (AdapterAttributes { pairable_timeout: value, ..old(self)@ }),
    {
        self.pairableTimeout = value;
        Ok(())
    }

    /// The time after which the adapter can no longer be discovered.
    pub fn get_discoverable_timeout(&self) -> (r: Result<u32, BluetoothError>)
        ensures
            r == Ok::<u32, BluetoothError>(self@.discoverable_timeout),
    {
        Ok(self.discoverableTimeout)
    }

    /// Sets the time after which the adapter can no longer be discovered.
    pub fn set_discoverable_timeout(&mut self, value: u32) -> (r: Result<(), BluetoothError>)
        ensures
            r is Ok,
            final(self)@ == (AdapterAttributes { discoverable_timeout: value, ..old(self)@ }),
    {
        self.discoverableTimeout = value;
        Ok(())
    }

    /// Whether the adapter is discovering.
    pub fn is_discovering(&self) -> (r: Result<bool, BluetoothError>)
        ensures
            r == Ok::<bool, BluetoothError>(self@.is_discovering),
    {
        Ok(self.isDiscovering)
    }

    /// The modalias of the adapter, decoded: its source and its vendor,
    /// product and device numbers. Fails if the modalias has not the shape
    /// `source:vVVVVpPPPPdDDDD`.
    pub fn get_modalias(&self) -> (r: Result<(String, u32, u32, u32), BluetoothError>)
        ensures
            r is Ok <==> modalias_well_formed(self@.modalias),
            r matches Ok(parts) ==> parts.0@ == modalias_source(self@.modalias) && parts.1
                == modalias_vendor(self@.modalias) && parts.2 == modalias_product(self@.modalias)
                && parts.3 == modalias_device(self@.modalias),
            r matches Err(e) ==> e == BluetoothError::MalformedModalias,
    {
        parse_modalias(self.modalias.as_str())
    }

    /// The source of the vendor id: what stands before the `:` of the
    /// modalias. Fails where [`FakeBluetoothAdapter::get_modalias`] fails.
    pub fn get_vendor_id_source(&self) -> (r: Result<String, BluetoothError>)
        ensures
            r is Ok <==> modalias_well_formed(self@.modalias),
            r matches Ok(source) ==> source@ == modalias_source(self@.modalias),
            r matches Err(e) ==> e == BluetoothError::MalformedModalias,
    {
        match self.get_modalias() {
            Ok(parts) => Ok(parts.0),
            Err(e) => Err(e),
        }
    }

    /// The vendor number of the modalias. Fails where
    /// [`FakeBluetoothAdapter::get_modalias`] fails.
    pub fn get_vendor_id(&self) -> (r: Result<u32, BluetoothError>)
        ensures
            r is Ok <==> modalias_well_formed(self@.modalias),
            r matches Ok(vendor) ==> vendor == modalias_vendor(self@.modalias),
            r matches Err(e) ==> e == BluetoothError::MalformedModalias,
    {
        match self.get_modalias() {
            Ok(parts) => Ok(parts.1),
            Err(e) => Err(e),
        }
    }

    /// The product number of the modalias. Fails where
    /// [`FakeBluetoothAdapter::get_modalias`] fails.
    pub fn get_product_id(&self) -> (r: Result<u32, BluetoothError>)
        ensures
            r is Ok <==> modalias_well_formed(self@.modalias),
            r matches Ok(product) ==> product == modalias_product(self@.modalias),
            r matches Err(e) ==> e == BluetoothError::MalformedModalias,
    {
        match self.get_modalias() {
            Ok(parts) => Ok(parts.2),
            Err(e) => Err(e),
        }
    }

    /// The device number of the modalias. Fails where
    /// [`FakeBluetoothAdapter::get_modalias`] fails.
    pub fn get_device_id(&self) -> (r: Result<u32, BluetoothError>)
        ensures
            r is Ok <==> modalias_well_formed(self@.modalias),
            r matches Ok(device) ==> device == modalias_device(self@.modalias),
            r matches Err(e) ==> e == BluetoothError::MalformedModalias,
    {
        match self.get_modalias() {
            Ok(parts) => Ok(parts.3),
            Err(e) => Err(e),
        }
    }
}

} // verus!
