use omgpp::{CmdHandler, CmdHandlerContainer, ConnectionState, NetError};

#[test]
fn duplicate_registration_fails() {
    let mut c: CmdHandlerContainer<u32> = CmdHandlerContainer::new();
    assert_eq!(c.register_handler(CmdHandler::new("PING", false, 1)), Ok(()));
    assert_eq!(
        c.register_handler(CmdHandler::from_string("PING".to_string(), true, 2)),
        Err(NetError::AlreadyRegistered("PING".to_string()))
    );
    let h = c.handle(&"PING".to_string(), ConnectionState::NeverSeen).unwrap();
    assert_eq!(h.handler, 1);
}

#[test]
fn unknown_command_has_no_handler() {
    let mut c: CmdHandlerContainer<u32> = CmdHandlerContainer::new();
    c.register_handler(CmdHandler::new("PING", false, 1)).unwrap();
    assert!(c.handle(&"PONG".to_string(), ConnectionState::Connected).is_none());
}

#[test]
fn auth_required_handler_needs_connected_peer() {
    let mut c: CmdHandlerContainer<u32> = CmdHandlerContainer::new();
    c.register_handler(CmdHandler::new("SECRET", true, 7)).unwrap();
    for s in [
        ConnectionState::NeverSeen,
        ConnectionState::Disconnected,
        ConnectionState::Disconnecting,
        ConnectionState::Connecting,
        ConnectionState::ConnectedUnverified,
    ] {
        assert!(c.handle(&"SECRET".to_string(), s).is_none());
    }
    assert_eq!(c.handle(&"SECRET".to_string(), ConnectionState::Connected).unwrap().handler, 7);
}
