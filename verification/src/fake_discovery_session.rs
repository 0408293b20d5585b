//! Discovery sessions: handles through which discovery on one adapter is
//! started and stopped.

use vstd::prelude::*;
use crate::error::BluetoothError;
use crate::fake_adapter::FakeBluetoothAdapter;
use crate::stack::FakeBluetoothStack;

verus! {

/// A discovery session on one adapter. The session holds the adapter's
/// handle, not a copy of its attributes: what it may do is decided by the
/// adapter as it is when the session is asked.
#[derive(Debug)]
pub struct FakeBluetoothDiscoverySession {
    adapter: FakeBluetoothAdapter,
}

impl FakeBluetoothDiscoverySession {
    /// The adapter that the session is bound to.
    pub closed spec fn adapter(&self) -> FakeBluetoothAdapter {
        self.adapter
    }

    /// A session on the given adapter.
    pub fn create_session(adapter: FakeBluetoothAdapter) -> (r: Result<
        FakeBluetoothDiscoverySession,
        BluetoothError,
    >)
        ensures
            r matches Ok(session) && session.adapter() == adapter,
    {
        Ok(FakeBluetoothDiscoverySession::new(adapter))
    }

    fn new(adapter: FakeBluetoothAdapter) -> (session: FakeBluetoothDiscoverySession)
        ensures
            session.adapter() == adapter,
    {
        FakeBluetoothDiscoverySession { adapter }
    }

    /// The adapter that the session is bound to.
    pub fn get_adapter(&self) -> (adapter: FakeBluetoothAdapter)
        ensures
            adapter == self.adapter(),
    {
        self.adapter
    }

    /// Starts discovery. Succeeds exactly if the adapter may start discovery
    /// now; the session keeps no record of it.
    pub fn start_discovery(&self, stack: &FakeBluetoothStack) -> (r: Result<(), BluetoothError>)
        ensures
            r is Ok <==> stack@.has_adapter(self.adapter()) && stack@.adapter(
                self.adapter(),
            ).can_start_discovery,
            r matches Err(e) ==> e == if stack@.has_adapter(self.adapter()) {
                BluetoothError::CannotStartDiscovery
            } else {
                BluetoothError::ValueUnavailable
            },
    {
        match self.adapter.get_can_start_discovery(stack) {
            Ok(false) => Err(BluetoothError::CannotStartDiscovery),
            Ok(true) => Ok(()),
            Err(e) => Err(e),
        }
    }

    /// Stops discovery. Succeeds exactly if the adapter may stop discovery
    /// now; the session keeps no record of it.
    pub fn stop_discovery(&self, stack: &FakeBluetoothStack) -> (r: Result<(), BluetoothError>)
        ensures
            r is Ok <==> stack@.has_adapter(self.adapter()) && stack@.adapter(
                self.adapter(),
            ).can_stop_discovery,
            r matches Err(e) ==> e == if stack@.has_adapter(self.adapter()) {
                BluetoothError::CannotStopDiscovery
            } else {
                BluetoothError::ValueUnavailable
            },
    {
        match self.adapter.get_can_stop_discovery(stack) {
            Ok(false) => Err(BluetoothError::CannotStopDiscovery),
            Ok(true) => Ok(()),
            Err(e) => Err(e),
        }
    }
}

} // verus!
