use omgpp::transport::{REFUSED_REASON, UNVERIFIED_REASON};
use omgpp::wire::encode_command;
use omgpp::{
    identity_from_endpoint, Client, ClientDelivery, ClientEventAction, ConnectionState, Endpoint,
    NetError, Server, ServerDelivery, ServerEventAction, ServerSettings, TransportState,
};

const LOOPBACK: u128 = 1;
const PORT: u16 = 55655;

/// A client core and the server-side view of its connection.
struct Peer {
    client: Client,
    endpoint: Endpoint,
    handle: u32,
}

fn server_endpoint() -> Endpoint {
    Endpoint::from_ipv6(LOOPBACK, PORT)
}

/// Runs the transport events and the handshake between `server` and a new
/// client at `port` whose connection the server knows as `handle`. Returns
/// the server-side states reported and the client-side states reported.
fn handshake(server: &mut Server, port: u16, handle: u32, now: u64) -> (Peer, Vec<ConnectionState>, Vec<ConnectionState>) {
    let mut client = Client::new(LOOPBACK, PORT);
    let endpoint = Endpoint::from_ipv6(LOOPBACK, port);
    let id = identity_from_endpoint(&endpoint);
    let mut server_states = Vec::new();
    let mut client_states = Vec::new();

    assert_eq!(client.connect(), Ok(server_endpoint()));
    client.socket_opened();
    match client.on_connection_event(TransportState::Inactive, TransportState::Connecting) {
        ClientEventAction::StateChanged(s) => client_states.push(s),
        other => panic!("unexpected {:?}", other),
    }
    match server.on_connection_event(endpoint, handle, TransportState::Inactive, TransportState::Connecting, now) {
        ServerEventAction::AdmissionRequested { peer, endpoint: e } => {
            assert_eq!(peer, id);
            assert_eq!(e, endpoint);
            server_states.push(ConnectionState::Connecting);
        }
        other => panic!("unexpected {:?}", other),
    }
    match server.on_connection_event(endpoint, handle, TransportState::Connecting, TransportState::Connected, now) {
        ServerEventAction::StateChanged { peer, state, .. } => {
            assert_eq!(peer, id);
            server_states.push(state);
        }
        other => panic!("unexpected {:?}", other),
    }
    assert_eq!(
        client.on_connection_event(TransportState::Connecting, TransportState::Connected),
        ClientEventAction::Authenticate
    );
    client_states.push(client.state());
    let auth = client.auth_request(None).unwrap();
    assert!(auth.reliable);
    let reply = match server.on_message(handle, &auth.payload).unwrap() {
        ServerDelivery::Admitted { sender, endpoint: e, reply } => {
            assert_eq!(sender, id);
            assert_eq!(e, endpoint);
            server_states.push(server.connection_tracker().state(&id));
            reply
        }
        other => panic!("unexpected {:?}", other),
    };
    assert_eq!(reply.connections, vec![handle]);
    assert!(reply.reliable);
    match client.on_message(&reply.payload).unwrap() {
        ClientDelivery::Admitted => client_states.push(client.state()),
        other => panic!("unexpected {:?}", other),
    }
    (Peer { client, endpoint, handle }, server_states, client_states)
}

#[test]
fn admission_success() {
    let mut server = Server::new(LOOPBACK, PORT);
    let (mut peer, server_states, client_states) = handshake(&mut server, 40000, 5, 0);
    let order = vec![
        ConnectionState::Connecting,
        ConnectionState::ConnectedUnverified,
        ConnectionState::Connected,
    ];
    assert_eq!(server_states, order);
    assert_eq!(client_states, order);
    let id = identity_from_endpoint(&peer.endpoint);
    let out = server.send(&id, 7, b"hi").unwrap();
    assert_eq!(out.connections, vec![peer.handle]);
    assert!(!out.reliable);
    match peer.client.on_message(&out.payload).unwrap() {
        ClientDelivery::Message { sender, msg_type, data } => {
            assert_eq!(sender, server_endpoint());
            assert_eq!(msg_type, 7);
            assert_eq!(data, b"hi".to_vec());
        }
        other => panic!("unexpected {:?}", other),
    }
}

#[test]
fn admission_refusal() {
    let mut server = Server::new(LOOPBACK, PORT);
    let mut client = Client::new(LOOPBACK, PORT);
    client.socket_opened();
    client.on_connection_event(TransportState::Inactive, TransportState::Connecting);
    let endpoint = Endpoint::from_ipv6(LOOPBACK, 40001);
    let id = identity_from_endpoint(&endpoint);
    let action = server.on_connection_event(endpoint, 6, TransportState::Inactive, TransportState::Connecting, 0);
    assert_eq!(action, ServerEventAction::AdmissionRequested { peer: id, endpoint });
    // the admission callback refuses: the connection is closed with this reason
    assert_eq!(REFUSED_REASON, "You are not allowed to connect");
    assert_eq!(server.connection_tracker().state(&id), ConnectionState::NeverSeen);
    assert_eq!(server.connection_tracker().client_connection(&id), None);
    assert_eq!(
        client.on_connection_event(TransportState::Connecting, TransportState::ClosedByPeer),
        ClientEventAction::StateChanged(ConnectionState::Disconnected)
    );
}

#[test]
fn unverified_expiry() {
    let mut server = Server::new(LOOPBACK, PORT);
    let endpoint = Endpoint::from_ipv6(LOOPBACK, 40002);
    let id = identity_from_endpoint(&endpoint);
    server.on_connection_event(endpoint, 7, TransportState::Inactive, TransportState::Connecting, 0);
    server.on_connection_event(endpoint, 7, TransportState::Connecting, TransportState::Connected, 0);
    assert!(server.remove_expired_unverified(3000).is_empty());
    assert_eq!(server.remove_expired_unverified(3001), vec![7]);
    assert_eq!(UNVERIFIED_REASON, "Unverified");
    assert_eq!(server.connection_tracker().client_connection(&id), None);
    assert_eq!(server.connection_tracker().client_endpoint(&id), None);
    assert_eq!(server.connection_tracker().state(&id), ConnectionState::Disconnected);
}

#[test]
fn broadcast_fan_out() {
    let mut server = Server::new(LOOPBACK, PORT);
    let mut peers = Vec::new();
    for (k, port) in [41000u16, 41001, 41002].iter().enumerate() {
        let (peer, _, _) = handshake(&mut server, *port, 10 + k as u32, 0);
        peers.push(peer);
    }
    let out = server.broadcast(42, b"x");
    let mut handles = out.connections.clone();
    handles.sort();
    assert_eq!(handles, vec![10, 11, 12]);
    for peer in peers.iter_mut() {
        match peer.client.on_message(&out.payload).unwrap() {
            ClientDelivery::Message { msg_type, data, .. } => {
                assert_eq!(msg_type, 42);
                assert_eq!(data, b"x".to_vec());
            }
            other => panic!("unexpected {:?}", other),
        }
        assert_eq!(peer.client.state(), ConnectionState::Connected);
    }
}

#[test]
fn rpc_round_trip() {
    let mut server = Server::new(LOOPBACK, PORT);
    let (mut peer, _, _) = handshake(&mut server, 40003, 8, 0);
    let id = identity_from_endpoint(&peer.endpoint);
    let call = peer.client.call_rpc(true, 9, 123, 0, Some(b"q")).unwrap();
    assert!(call.reliable);
    match server.on_message(peer.handle, &call.payload).unwrap() {
        ServerDelivery::Rpc { sender, endpoint, reliable, method_id, request_id, arg_type, arg_data } => {
            assert_eq!(sender, id);
            assert_eq!(endpoint, peer.endpoint);
            assert!(reliable);
            assert_eq!((method_id, request_id, arg_type), (9, 123, 0));
            assert_eq!(arg_data, b"q".to_vec());
        }
        other => panic!("unexpected {:?}", other),
    }
    let answer = server.call_rpc(&id, true, 9, 123, 1, Some(b"r")).unwrap();
    assert_eq!(answer.connections, vec![peer.handle]);
    match peer.client.on_message(&answer.payload).unwrap() {
        ClientDelivery::Rpc { sender, reliable, method_id, request_id, arg_type, arg_data } => {
            assert_eq!(sender, server_endpoint());
            assert!(reliable);
            assert_eq!((method_id, request_id, arg_type), (9, 123, 1));
            assert_eq!(arg_data, b"r".to_vec());
        }
        other => panic!("unexpected {:?}", other),
    }
}

#[test]
fn pre_admission_gating() {
    let mut server = Server::new(LOOPBACK, PORT);
    let mut client = Client::new(LOOPBACK, PORT);
    client.socket_opened();
    let endpoint = Endpoint::from_ipv6(LOOPBACK, 40004);
    server.on_connection_event(endpoint, 9, TransportState::Inactive, TransportState::Connecting, 0);
    server.on_connection_event(endpoint, 9, TransportState::Connecting, TransportState::Connected, 0);
    let msg = client.send_reliable(1, b"early").unwrap();
    assert!(matches!(server.on_message(9, &msg.payload), Ok(ServerDelivery::Dropped)));
    let call = client.call_rpc(false, 1, 2, 3, None).unwrap();
    assert!(matches!(server.on_message(9, &call.payload), Ok(ServerDelivery::Dropped)));
}

#[test]
fn resources_command_answers_location() {
    let settings = ServerSettings { resource_location: "https://cdn.example/res".to_string() };
    let mut server = Server::with_settings(LOOPBACK, PORT, settings, 3000);
    let endpoint = Endpoint::from_ipv6(LOOPBACK, 40005);
    server.on_connection_event(endpoint, 4, TransportState::Inactive, TransportState::Connecting, 0);
    server.on_connection_event(endpoint, 4, TransportState::Connecting, TransportState::Connected, 0);
    let request = encode_command("RESOURCES", 17, &[]);
    match server.on_message(4, &request).unwrap() {
        ServerDelivery::Reply(out) => {
            assert_eq!(out.connections, vec![4]);
            assert!(out.reliable);
            assert_eq!(out.payload, encode_command("RESOURCES", 17, &["https://cdn.example/res".to_string()]));
        }
        other => panic!("unexpected {:?}", other),
    }
}

#[test]
fn unknown_command_is_dropped() {
    let mut server = Server::new(LOOPBACK, PORT);
    let endpoint = Endpoint::from_ipv6(LOOPBACK, 40006);
    let id = identity_from_endpoint(&endpoint);
    server.on_connection_event(endpoint, 3, TransportState::Inactive, TransportState::Connecting, 0);
    server.on_connection_event(endpoint, 3, TransportState::Connecting, TransportState::Connected, 0);
    let request = encode_command("auth", 1, &[]);
    assert!(matches!(server.on_message(3, &request), Ok(ServerDelivery::Dropped)));
    assert_eq!(server.connection_tracker().state(&id), ConnectionState::ConnectedUnverified);
}

#[test]
fn message_from_unknown_connection_is_refused() {
    let mut server = Server::new(LOOPBACK, PORT);
    let payload = omgpp::wire::encode_message(1, b"x");
    assert!(matches!(server.on_message(99, &payload), Err(NetError::UnknownPeer)));
}

#[test]
fn malformed_payload_is_reported() {
    let mut server = Server::new(LOOPBACK, PORT);
    let (peer, _, _) = handshake(&mut server, 40007, 2, 0);
    assert!(matches!(server.on_message(peer.handle, &[0x0a, 0x09]), Err(NetError::DecodeFailed)));
    // the peer stays admitted
    let id = identity_from_endpoint(&peer.endpoint);
    assert_eq!(server.connection_tracker().state(&id), ConnectionState::Connected);
}

#[test]
fn session_end_disconnects_on_both_sides() {
    let mut server = Server::new(LOOPBACK, PORT);
    let (mut peer, _, _) = handshake(&mut server, 40008, 1, 0);
    let id = identity_from_endpoint(&peer.endpoint);
    let action = server.on_connection_event(peer.endpoint, 1, TransportState::Connected, TransportState::ProblemDetectedLocally, 5);
    assert_eq!(action, ServerEventAction::StateChanged { peer: id, endpoint: peer.endpoint, state: ConnectionState::Disconnected });
    assert!(matches!(server.send(&id, 1, b"x"), Err(NetError::UnknownPeer)));
    assert_eq!(
        peer.client.on_connection_event(TransportState::Connected, TransportState::Inactive),
        ClientEventAction::StateChanged(ConnectionState::Disconnected)
    );
    assert_eq!(
        server.on_connection_event(peer.endpoint, 1, TransportState::Connected, TransportState::FinWait, 5),
        ServerEventAction::Ignored
    );
}

#[test]
fn send_command_to_peer() {
    let mut server = Server::new(LOOPBACK, PORT);
    let (peer, _, _) = handshake(&mut server, 40009, 12, 0);
    let id = identity_from_endpoint(&peer.endpoint);
    let out = server.send_command(&id, "PING".to_string(), 3, None).unwrap();
    assert_eq!(out.payload, encode_command("PING", 3, &[]));
    assert!(out.reliable);
    let rel = server.send_reliable(&id, 2, b"y").unwrap();
    assert!(rel.reliable);
    assert_eq!(server.active_clients(), vec![(id, peer.endpoint)]);
    let all = server.call_rpc_broadcast(false, 1, 2, 3, None);
    assert_eq!(all.connections, vec![12]);
    assert!(!all.reliable);
    let allr = server.broadcast_reliable(5, b"z");
    assert!(allr.reliable);
    assert_eq!(allr.connections, vec![12]);
}

#[test]
fn client_without_socket_cannot_send() {
    let client = Client::new(LOOPBACK, PORT);
    assert!(matches!(client.send(1, b"x"), Err(NetError::NotConnected)));
    assert!(matches!(client.send_reliable(1, b"x"), Err(NetError::NotConnected)));
    assert!(matches!(client.call_rpc(true, 1, 2, 3, None), Err(NetError::NotConnected)));
    assert!(matches!(client.send_cmd("AUTH", 0, None), Err(NetError::NotConnected)));
    assert!(!client.disconnect());
}

#[test]
fn client_connect_twice_is_refused() {
    let mut client = Client::new(LOOPBACK, PORT);
    client.socket_opened();
    client.on_connection_event(TransportState::Inactive, TransportState::Connecting);
    assert_eq!(client.connect(), Err(NetError::AlreadyConnected));
    client.on_connection_event(TransportState::Connecting, TransportState::ClosedByPeer);
    assert_eq!(client.connect(), Ok(server_endpoint()));
}

#[test]
fn client_ignores_auth_refusal_text() {
    let mut client = Client::new(LOOPBACK, PORT);
    client.socket_opened();
    client.on_connection_event(TransportState::Inactive, TransportState::Connecting);
    client.on_connection_event(TransportState::Connecting, TransportState::Connected);
    let no = encode_command("AUTH", 0, &["no".to_string()]);
    assert!(matches!(client.on_message(&no), Ok(ClientDelivery::Dropped)));
    assert_eq!(client.state(), ConnectionState::ConnectedUnverified);
}

#[test]
fn auth_request_carries_credentials() {
    let mut client = Client::new(LOOPBACK, PORT);
    client.socket_opened();
    let p = client.auth_request(Some(vec!["user".to_string(), "secret".to_string()])).unwrap();
    assert_eq!(p.payload, encode_command("AUTH", 0, &["user".to_string(), "secret".to_string()]));
}
