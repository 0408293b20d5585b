use fake_bluetooth::error::BluetoothError;
use fake_bluetooth::fake_adapter::FakeBluetoothAdapter;
use fake_bluetooth::fake_discovery_session::FakeBluetoothDiscoverySession;
use fake_bluetooth::stack::FakeBluetoothStack;

#[test]
fn session_is_bound_to_its_adapter() {
    let mut stack = FakeBluetoothStack::new();
    let a = FakeBluetoothAdapter::new_empty(&mut stack);
    let b = FakeBluetoothAdapter::new_empty(&mut stack);
    let session = FakeBluetoothDiscoverySession::create_session(b).unwrap();
    assert_eq!(session.get_adapter(), b);
    assert_ne!(session.get_adapter(), a);
}

#[test]
fn discovery_starts_and_stops_where_the_adapter_allows_it() {
    let mut stack = FakeBluetoothStack::new();
    let adapter = FakeBluetoothAdapter::new_empty(&mut stack);
    let session = FakeBluetoothDiscoverySession::create_session(adapter).unwrap();
    assert_eq!(session.start_discovery(&stack), Ok(()));
    assert_eq!(session.stop_discovery(&stack), Ok(()));
    // the session keeps no state: stopping twice is as good as once
    assert_eq!(session.stop_discovery(&stack), Ok(()));
    assert_eq!(adapter.is_discovering(&stack), Ok(false));
}

#[test]
fn discovery_fails_where_the_adapter_forbids_it() {
    let mut stack = FakeBluetoothStack::new();
    let adapter = FakeBluetoothAdapter::new_empty(&mut stack);
    adapter.set_can_start_discovery(&mut stack, false).unwrap();
    let session = FakeBluetoothDiscoverySession::create_session(adapter).unwrap();
    assert_eq!(session.start_discovery(&stack), Err(BluetoothError::CannotStartDiscovery));
    assert_eq!(session.stop_discovery(&stack), Ok(()));
    adapter.set_can_stop_discovery(&mut stack, false).unwrap();
    assert_eq!(session.stop_discovery(&stack), Err(BluetoothError::CannotStopDiscovery));
}

#[test]
fn session_follows_the_adapter_as_it_is_now() {
    let mut stack = FakeBluetoothStack::new();
    let adapter = FakeBluetoothAdapter::new_empty(&mut stack);
    let session = adapter.create_discovery_session().unwrap();
    assert_eq!(session.start_discovery(&stack), Ok(()));
    adapter.set_can_start_discovery(&mut stack, false).unwrap();
    assert_eq!(session.start_discovery(&stack), Err(BluetoothError::CannotStartDiscovery));
    adapter.set_can_start_discovery(&mut stack, true).unwrap();
    assert_eq!(session.start_discovery(&stack), Ok(()));
    adapter.set_can_stop_discovery(&mut stack, false).unwrap();
    assert_eq!(session.stop_discovery(&stack), Err(BluetoothError::CannotStopDiscovery));
    adapter.set_can_stop_discovery(&mut stack, true).unwrap();
    assert_eq!(session.stop_discovery(&stack), Ok(()));
}

#[test]
fn session_on_an_adapter_that_does_not_exist_is_unavailable() {
    let stack = FakeBluetoothStack::new();
    let session = FakeBluetoothDiscoverySession::create_session(FakeBluetoothAdapter { index: 0 }).unwrap();
    assert_eq!(session.start_discovery(&stack), Err(BluetoothError::ValueUnavailable));
    assert_eq!(session.stop_discovery(&stack), Err(BluetoothError::ValueUnavailable));
}
