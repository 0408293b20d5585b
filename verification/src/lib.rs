//! An in-memory stand-in for a Bluetooth Low Energy stack, for driving code
//! that talks to Bluetooth without any hardware.
//!
//! A [`stack::FakeBluetoothStack`] owns every entity: adapters, the devices
//! under them, the GATT services under those, their characteristics and the
//! descriptors of these. An entity is reached through a handle, a small
//! value that can be copied freely; all copies name the same entity. An
//! operation takes the handle and the stack. One that changes anything takes
//! the stack by `&mut`, so it runs alone from its first step to its last,
//! the looking up and the inserting of a get-or-create among them.
//!
//! Under one parent no two children have the same id. Creating a child
//! under an id that its parent holds gives the child that is there; adding
//! one, or giving one another id, fails with
//! [`error::BluetoothError::DuplicateId`] where a list would hold an id
//! twice.
//!
//! Nothing here panics. A handle that names no entity of the stack it is
//! used with gives [`error::BluetoothError::ValueUnavailable`].
//!
//! Every public function carries a contract over [`model::StackModel`], the
//! mathematical picture of a stack, and [`laws`] states what follows for
//! creation, lookup and removal.

pub mod error;
pub mod fake_adapter;
pub mod fake_adapters_with_results;
pub mod fake_characteristic;
pub mod fake_descriptor;
pub mod fake_device;
pub mod fake_discovery_session;
pub mod fake_service;
pub mod laws;
pub mod modalias;
pub mod model;
pub mod stack;
