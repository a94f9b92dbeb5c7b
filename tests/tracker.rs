use omgpp::{ConnectionState, ConnectionTracker, Endpoint};

fn ep(port: u16) -> Endpoint {
    Endpoint::from_ipv6(1, port)
}

#[test]
fn unknown_identity_is_never_seen() {
    let t = ConnectionTracker::new(3000);
    assert_eq!(t.state(&42), ConnectionState::NeverSeen);
    assert_eq!(t.client_connection(&42), None);
    assert_eq!(t.client_endpoint(&42), None);
    assert_eq!(t.client_by_connection(7), None);
    assert!(t.active_clients().is_empty());
}

#[test]
fn unverified_peer_has_handle_and_timestamp() {
    let mut t = ConnectionTracker::new(3000);
    t.track_client_connected_unverified(1, ep(10), 100, 5);
    assert_eq!(t.state(&1), ConnectionState::ConnectedUnverified);
    assert_eq!(t.client_connection(&1), Some(100));
    assert_eq!(t.client_endpoint(&1), Some(ep(10)));
    assert_eq!(t.client_by_connection(100), Some(1));
    assert!(t.active_connections().is_empty());
    assert!(t.active_clients().is_empty());
}

#[test]
fn verified_after_unverified_keeps_bindings() {
    let mut t = ConnectionTracker::new(3000);
    t.track_client_connected_unverified(1, ep(10), 100, 5);
    t.track_client_connected(1, ep(10), 100);
    assert_eq!(t.state(&1), ConnectionState::Connected);
    assert_eq!(t.client_connection(&1), Some(100));
    assert_eq!(t.client_endpoint(&1), Some(ep(10)));
    assert_eq!(t.client_by_connection(100), Some(1));
    // no timestamp any more: never expires
    assert!(t.expired_unverified_connections(u64::MAX).is_empty());
    assert_eq!(t.active_connections(), vec![100]);
    assert_eq!(t.active_clients(), vec![(1, ep(10))]);
}

#[test]
fn disconnected_peer_has_no_handle() {
    let mut t = ConnectionTracker::new(3000);
    t.track_client_connected(1, ep(10), 100);
    t.track_client_disconnected(&1);
    assert_eq!(t.state(&1), ConnectionState::Disconnected);
    assert_eq!(t.client_connection(&1), None);
    assert_eq!(t.client_endpoint(&1), None);
    assert_eq!(t.client_by_connection(100), None);
}

#[test]
fn handle_reuse_evicts_previous_holder() {
    let mut t = ConnectionTracker::new(3000);
    t.track_client_connected(1, ep(10), 100);
    t.track_client_connected_unverified(2, ep(20), 100, 0);
    assert_eq!(t.client_by_connection(100), Some(2));
    assert_eq!(t.state(&1), ConnectionState::Disconnected);
    assert_eq!(t.client_connection(&1), None);
    assert_eq!(t.client_endpoint(&1), None);
}

#[test]
fn endpoint_reuse_evicts_previous_holder() {
    let mut t = ConnectionTracker::new(3000);
    t.track_client_connected(1, ep(10), 100);
    t.track_client_connected(2, ep(10), 200);
    assert_eq!(t.state(&1), ConnectionState::Disconnected);
    assert_eq!(t.client_endpoint(&2), Some(ep(10)));
    assert_eq!(t.client_connection(&1), None);
}

#[test]
fn expiry_is_strictly_older_than_period() {
    let mut t = ConnectionTracker::new(3000);
    t.track_client_connected_unverified(1, ep(10), 100, 1000);
    t.track_client_connected_unverified(2, ep(20), 200, 2000);
    t.track_client_connected(3, ep(30), 300);
    assert!(t.expired_unverified_connections(4000).is_empty());
    assert_eq!(t.expired_unverified_connections(4001), vec![100]);
    let mut both = t.expired_unverified_connections(5001);
    both.sort();
    assert_eq!(both, vec![100, 200]);
    // a clock before the first-seen time expires nothing
    assert!(t.expired_unverified_connections(0).is_empty());
}

#[test]
fn removing_expired_forgets_them() {
    let mut t = ConnectionTracker::new(3000);
    t.track_client_connected_unverified(1, ep(10), 100, 0);
    t.track_client_connected_unverified(2, ep(20), 200, 2000);
    let closed = t.remove_expired_unverified(3001);
    assert_eq!(closed, vec![100]);
    assert_eq!(t.state(&1), ConnectionState::Disconnected);
    assert_eq!(t.client_connection(&1), None);
    assert_eq!(t.state(&2), ConnectionState::ConnectedUnverified);
    assert_eq!(t.client_connection(&2), Some(200));
    assert!(t.remove_expired_unverified(3001).is_empty());
}

#[test]
fn expire_period_is_kept() {
    assert_eq!(ConnectionTracker::new(1234).expire_period(), 1234);
}
