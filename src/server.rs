use vstd::prelude::*;
use crate::cmd::{CmdHandler, CmdHandlerContainer};
use crate::endpoint::{identity_of, Endpoint, PeerId};
use crate::error::NetError;
use crate::state::ConnectionState;
use crate::tracker::{addr, ConnectionTracker, TrackerView};
use crate::transport::{is_session_end, session_ended, Outgoing, OutgoingView, TransportState};
use crate::wire::{decode, decode_frame, encode_command, encode_frame, encode_message, encode_rpc, texts, Frame, FrameView};

verus! {

/// The text `AUTH`.
pub open spec fn auth_text() -> Seq<char> {
    seq!['A', 'U', 'T', 'H']
}

/// The text `RESOURCES`.
pub open spec fn resources_text() -> Seq<char> {
    seq!['R', 'E', 'S', 'O', 'U', 'R', 'C', 'E', 'S']
}

/// The text `ok`.
pub open spec fn ok_text() -> Seq<char> {
    seq!['o', 'k']
}

/// The bytes of an optional payload; none stands for empty.
pub open spec fn opt_bytes(b: Option<&[u8]>) -> Seq<u8> {
    match b {
        Some(s) => s@,
        None => seq![],
    }
}

/// The texts of optional arguments; none stands for no arguments.
pub open spec fn opt_texts(a: Option<Vec<String>>) -> Seq<Seq<char>> {
    match a {
        Some(v) => texts(v@),
        None => seq![],
    }
}

/// Settings of a server.
#[derive(Debug)]
pub struct ServerSettings {
    /// Answer to the `RESOURCES` command.
    pub resource_location: String,
}

/// The server's built-in commands.
#[derive(Debug, Clone, Copy, PartialEq, Eq, Structural)]
pub enum ServerCommand {
    Auth,
    Resources,
}

/// What the caller does after a transport state-change event.
#[derive(Debug, Clone, Copy, PartialEq, Eq)]
pub enum ServerEventAction {
    /// A peer asks to connect: report `Connecting`, then ask the admission
    /// callback and accept the connection or close it with [`crate::transport::REFUSED_REASON`].
    AdmissionRequested { peer: PeerId, endpoint: Endpoint },
    /// The peer's state changed to `state`: report it.
    StateChanged { peer: PeerId, endpoint: Endpoint, state: ConnectionState },
    /// Nothing to do.
    Ignored,
}

/// What the caller does with a received payload.
#[derive(Debug)]
pub enum ServerDelivery {
    /// Nothing: an empty envelope, an unknown or gated command, or a message
    /// from a peer not yet admitted.
    Dropped,
    /// Hand an application message to the message callback.
    Message { sender: PeerId, endpoint: Endpoint, msg_type: i64, data: Vec<u8> },
    /// Hand an RPC call to the RPC callback.
    Rpc {
        sender: PeerId,
        endpoint: Endpoint,
        reliable: bool,
        method_id: i64,
        request_id: u64,
        arg_type: i64,
        arg_data: Vec<u8>,
    },
    /// The sender completed the handshake: report `Connected`, then send `reply`.
    Admitted { sender: PeerId, endpoint: Endpoint, reply: Outgoing },
    /// Send `reply`.
    Reply(Outgoing),
}

/// Model of a [`ServerDelivery`].
pub enum DeliveryView {
    Dropped,
    Message { sender: PeerId, endpoint: Endpoint, msg_type: i64, data: Seq<u8> },
    Rpc {
        sender: PeerId,
        endpoint: Endpoint,
        reliable: bool,
        method_id: i64,
        request_id: u64,
        arg_type: i64,
        arg_data: Seq<u8>,
    },
    Admitted { sender: PeerId, endpoint: Endpoint, reply: OutgoingView },
    Reply(OutgoingView),
}

impl View for ServerDelivery {
    type V = DeliveryView;

    open spec fn view(&self) -> DeliveryView {
        match self {
            ServerDelivery::Dropped => DeliveryView::Dropped,
            ServerDelivery::Message { sender, endpoint, msg_type, data } => DeliveryView::Message {
                sender: *sender,
                endpoint: *endpoint,
                msg_type: *msg_type,
                data: data@,
            },
            ServerDelivery::Rpc {
                sender,
                endpoint,
                reliable,
                method_id,
                request_id,
                arg_type,
                arg_data,
            } => DeliveryView::Rpc {
                sender: *sender,
                endpoint: *endpoint,
                reliable: *reliable,
                method_id: *method_id,
                request_id: *request_id,
                arg_type: *arg_type,
                arg_data: arg_data@,
            },
            ServerDelivery::Admitted { sender, endpoint, reply } => DeliveryView::Admitted {
                sender: *sender,
                endpoint: *endpoint,
                reply: reply@,
            },
            ServerDelivery::Reply(o) => DeliveryView::Reply(o@),
        }
    }
}

/// Whether some identity holds handle `c`.
pub open spec fn knows_connection(t: TrackerView, c: u32) -> bool {
    exists|i: PeerId| #[trigger] t.handles.contains_key(i) && t.handles[i] == c
}

/// The identity that holds handle `c`.
pub open spec fn sender_of(t: TrackerView, c: u32) -> PeerId {
    choose|i: PeerId| #[trigger] t.handles.contains_key(i) && t.handles[i] == c
}

/// The endpoint recorded for `i`.
pub open spec fn endpoint_of(t: TrackerView, i: PeerId) -> Endpoint {
    Endpoint { ip: t.addresses[i].0, port: t.addresses[i].1 }
}

/// A reliable command frame to the single connection `c`.
pub open spec fn command_reply(c: u32, cmd: Seq<char>, request_id: u64, args: Seq<Seq<char>>) -> OutgoingView {
    OutgoingView {
        connections: seq![c],
        reliable: true,
        payload: encode_frame(FrameView::Command { cmd, request_id, args }),
    }
}

/// What a payload received on connection `c` yields, given the tracked peers
/// `t` and the resource location `location`. A payload from an unknown
/// connection is refused; messages and RPC calls reach the callbacks only from
/// admitted peers; `AUTH` admits the sender and is answered `ok`;
/// `RESOURCES` is answered with the resource location; other commands drop.
pub open spec fn received(t: TrackerView, location: Seq<char>, c: u32, payload: Seq<u8>) -> Result<
    DeliveryView,
    NetError,
> {
    if !knows_connection(t, c) {
        Err(NetError::UnknownPeer)
    } else {
        let sender = sender_of(t, c);
        let ep = endpoint_of(t, sender);
        let verified = t.state(sender) == ConnectionState::Connected;
        match decode_frame(payload) {
            None => Err(NetError::DecodeFailed),
            Some(None) => Ok(DeliveryView::Dropped),
            Some(Some(FrameView::Message { msg_type, data })) => if verified {
                Ok(DeliveryView::Message { sender, endpoint: ep, msg_type, data })
            } else {
                Ok(DeliveryView::Dropped)
            },
            Some(Some(FrameView::Rpc { reliable, method_id, request_id, arg_type, arg_data })) => if verified {
                Ok(
                    DeliveryView::Rpc {
                        sender,
                        endpoint: ep,
                        reliable,
                        method_id,
                        request_id,
                        arg_type,
                        arg_data,
                    },
                )
            } else {
                Ok(DeliveryView::Dropped)
            },
            Some(Some(FrameView::Command { cmd, request_id, args })) => if cmd == auth_text() {
                Ok(
                    DeliveryView::Admitted {
                        sender,
                        endpoint: ep,
                        reply: command_reply(c, auth_text(), request_id, seq![ok_text()]),
                    },
                )
            } else if cmd == resources_text() {
                Ok(DeliveryView::Reply(command_reply(c, resources_text(), request_id, seq![location])))
            } else {
                Ok(DeliveryView::Dropped)
            },
        }
    }
}

/// The tracked peers after receiving `payload` on `c`: the sender admitted
/// when it is an `AUTH` command, otherwise unchanged.
pub open spec fn tracker_after_receive(t: TrackerView, c: u32, payload: Seq<u8>) -> TrackerView {
    if knows_connection(t, c) {
        match decode_frame(payload) {
            Some(Some(FrameView::Command { cmd, request_id, args })) => if cmd == auth_text() {
                let sender = sender_of(t, c);
                t.admit_verified(sender, endpoint_of(t, sender), c)
            } else {
                t
            },
            _ => t,
        }
    } else {
        t
    }
}

/// Server side of the runtime: the connection tracker, the settings and the
/// built-in command handlers. It decides; the caller runs the transport.
pub struct Server {
    ip: u128,
    port: u16,
    connection_tracker: ConnectionTracker,
    settings: ServerSettings,
    cmd_handlers: CmdHandlerContainer<ServerCommand>,
}

impl Server {
    /// The model of the tracked peers.
    pub closed spec fn tracker(&self) -> TrackerView {
        self.connection_tracker@
    }

    /// The configured resource location.
    pub closed spec fn resource_location(&self) -> Seq<char> {
        self.settings.resource_location@
    }

    /// The bound address and port.
    pub closed spec fn bind_endpoint(&self) -> Endpoint {
        Endpoint { ip: self.ip, port: self.port }
    }

    /// The server's invariant: the tracker's, and the two built-in commands,
    /// neither requiring admission.
    pub closed spec fn wf(&self) -> bool {
        &&& self.connection_tracker@.wf()
        &&& self.cmd_handlers.wf()
        &&& self.cmd_handlers.entries().len() == 2
        &&& self.cmd_handlers.entries()[0].cmd@ == auth_text()
        &&& !self.cmd_handlers.entries()[0].auth_required
        &&& self.cmd_handlers.entries()[0].handler == ServerCommand::Auth
        &&& self.cmd_handlers.entries()[1].cmd@ == resources_text()
        &&& !self.cmd_handlers.entries()[1].auth_required
        &&& self.cmd_handlers.entries()[1].handler == ServerCommand::Resources
    }

    /// A server bound to `ip`:`port` (IPv6 form) with an empty resource
    /// location and unverified peers expiring after three seconds.
    pub fn new(ip: u128, port: u16) -> (r: Server)
        ensures
            r.wf(),
            r.bind_endpoint() == (Endpoint { ip, port }),
            r.resource_location() == Seq::<char>::empty(),
            r.tracker().handles.is_empty(),
            r.tracker().states.is_empty(),
            r.tracker().expiry == 3000,
    {
        Server::with_settings(ip, port, ServerSettings { resource_location: String::new() }, 3000)
    }

    /// A server bound to `ip`:`port` (IPv6 form) with `settings`, whose
    /// unverified peers expire after `expiry_ms` milliseconds.
    pub fn with_settings(ip: u128, port: u16, settings: ServerSettings, expiry_ms: u64) -> (r:
        Server)
        ensures
            r.wf(),
            r.bind_endpoint() == (Endpoint { ip, port }),
            r.resource_location() == settings.resource_location@,
            r.tracker().handles.is_empty(),
            r.tracker().states.is_empty(),
            r.tracker().expiry == expiry_ms,
    {
        let mut cmd_handlers: CmdHandlerContainer<ServerCommand> = CmdHandlerContainer::new();
        proof {
            reveal_strlit("AUTH");
            reveal_strlit("RESOURCES");
        }
        let auth = CmdHandler::new("AUTH", false, ServerCommand::Auth);
        assert(auth.cmd@ =~= auth_text());
        assert(!cmd_handlers.has(auth.cmd@));
        let _ = cmd_handlers.register_handler(auth);
        let resources = CmdHandler::new("RESOURCES", false, ServerCommand::Resources);
        assert(resources.cmd@ =~= resources_text());
        proof {
            assert(!cmd_handlers.has(resources.cmd@)) by {
                if cmd_handlers.has(resources.cmd@) {
                    let k = choose|k: int|
                        0 <= k < cmd_handlers.entries().len() && (
                        #[trigger] cmd_handlers.entries()[k]).cmd@ == resources.cmd@;
                    assert(cmd_handlers.entries()[k].cmd@.len() == 4);
                }
            }
        }
        let _ = cmd_handlers.register_handler(resources);
        Server {
            ip,
            port,
            connection_tracker: ConnectionTracker::new(expiry_ms),
            settings,
            cmd_handlers,
        }
    }

    /// The tracker of connected peers.
    pub fn connection_tracker(&self) -> (r: &ConnectionTracker)
        ensures
            r@ == self.tracker(),
    {
        &self.connection_tracker
    }

    /// The admitted peers with their endpoints: exactly those.
    pub fn active_clients(&self) -> (r: Vec<(PeerId, Endpoint)>)
        requires
            self.wf(),
        ensures
            forall|k: int|
                0 <= k < r@.len() ==> self.tracker().state(#[trigger] r@[k].0)
                    == ConnectionState::Connected && self.tracker().addresses.contains_key(r@[k].0)
                    && self.tracker().addresses[r@[k].0] == addr(r@[k].1),
            forall|i: PeerId|
                #[trigger] self.tracker().state(i) == ConnectionState::Connected ==> exists|k: int|
                    0 <= k < r@.len() && r@[k].0 == i,
    {
        self.connection_tracker.active_clients()
    }

    /// Decides what a transport state change of the connection `connection`
    /// to `endpoint` means, and records it.
    pub fn on_connection_event(
        &mut self,
        endpoint: Endpoint,
        connection: u32,
        from: TransportState,
        to: TransportState,
        now: u64,
    ) -> (r: ServerEventAction)
        requires
            old(self).wf(),
        ensures
            final(self).wf(),
            final(self).resource_location() == old(self).resource_location(),
            ({
                let id = identity_of(endpoint);
                let t = old(self).tracker();
                if from == TransportState::Inactive && to == TransportState::Connecting {
                    r == ServerEventAction::AdmissionRequested { peer: id, endpoint }
                        && final(self).tracker() == t
                } else if is_session_end(from, to) {
                    r == ServerEventAction::StateChanged {
                        peer: id,
                        endpoint,
                        state: ConnectionState::Disconnected,
                    } && final(self).tracker() == t.disconnect(id)
                } else if from == TransportState::Connecting && to == TransportState::Connected {
                    r == ServerEventAction::StateChanged {
                        peer: id,
                        endpoint,
                        state: ConnectionState::ConnectedUnverified,
                    } && final(self).tracker() == t.admit_unverified(id, endpoint, connection, now)
                } else {
                    r == ServerEventAction::Ignored && final(self).tracker() == t
                }
            }),
    {
        let peer = ConnectionTracker::generate_endpoint_uuid(&endpoint);
        if from == TransportState::Inactive && to == TransportState::Connecting {
            ServerEventAction::AdmissionRequested { peer, endpoint }
        } else if session_ended(from, to) {
            self.connection_tracker.track_client_disconnected(&peer);
            let state = self.connection_tracker.state(&peer);
            ServerEventAction::StateChanged { peer, endpoint, state }
        } else if from == TransportState::Connecting && to == TransportState::Connected {
            self.connection_tracker.track_client_connected_unverified(peer, endpoint, connection, now);
            let state = self.connection_tracker.state(&peer);
            ServerEventAction::StateChanged { peer, endpoint, state }
        } else {
            ServerEventAction::Ignored
        }
    }

    /// Forgets the unverified peers that have expired at `now` and gives the
    /// handles to close with [`crate::transport::UNVERIFIED_REASON`].
    pub fn remove_expired_unverified(&mut self, now: u64) -> (r: Vec<u32>)
        requires
            old(self).wf(),
        ensures
            final(self).wf(),
            final(self).resource_location() == old(self).resource_location(),
            forall|k: int|
                0 <= k < r@.len() ==> old(self).tracker().expired_handle(#[trigger] r@[k], now),
            forall|i: PeerId| #[trigger]
                old(self).tracker().expired(i, now) ==> r@.contains(old(self).tracker().handles[i])
                    && final(self).tracker().dropped(i),
            forall|i: PeerId|
                !old(self).tracker().expired(i, now) ==> #[trigger] old(self).tracker().same_at(
                    final(self).tracker(),
                    i,
                ),
    {
        self.connection_tracker.remove_expired_unverified(now)
    }
}


impl Server {
    proof fn lemma_builtin_dispatch(&self, name: Seq<char>, sender: ConnectionState)
        requires
            self.wf(),
        ensures
            self.cmd_handlers.dispatched(name, sender) == (if name == auth_text() {
                Some(self.cmd_handlers.entries()[0])
            } else if name == resources_text() {
                Some(self.cmd_handlers.entries()[1])
            } else {
                None::<CmdHandler<ServerCommand>>
            }),
    {
        let e = self.cmd_handlers.entries();
        if name == auth_text() {
            assert(e[0].cmd@ == name);
            assert(self.cmd_handlers.has(name));
        } else if name == resources_text() {
            assert(e[1].cmd@ == name);
            assert(self.cmd_handlers.has(name));
        } else {
            assert(!self.cmd_handlers.has(name)) by {
                if self.cmd_handlers.has(name) {
                    let k = choose|k: int| 0 <= k < e.len() && (#[trigger] e[k]).cmd@ == name;
                    assert(k == 0 || k == 1);
                }
            }
        }
    }

    /// Decides what a payload received on `connection` yields, and records an
    /// admission. See [`received`] and [`tracker_after_receive`].
    pub fn on_message(&mut self, connection: u32, payload: &[u8]) -> (r: Result<ServerDelivery, NetError>)
        requires
            old(self).wf(),
        ensures
            final(self).wf(),
            final(self).resource_location() == old(self).resource_location(),
            final(self).tracker() == tracker_after_receive(old(self).tracker(), connection, payload@),
            match r {
                Ok(d) => received(old(self).tracker(), old(self).resource_location(), connection, payload@)
                    == Ok::<DeliveryView, NetError>(d@),
                Err(e) => received(old(self).tracker(), old(self).resource_location(), connection, payload@)
                    == Err::<DeliveryView, NetError>(e),
            },
    {
        let ghost t = self.connection_tracker@;
        let sender = match self.connection_tracker.client_by_connection(connection) {
            None => {
                assert(!knows_connection(t, connection));
                return Err(NetError::UnknownPeer);
            },
            Some(s) => s,
        };
        proof {
            assert(knows_connection(t, connection));
            let c = sender_of(t, connection);
            assert(t.handles[c] == connection && t.handles[sender] == connection);
            assert(c == sender);
            assert(t.addresses.contains_key(sender));
        }
        let endpoint = match self.connection_tracker.client_endpoint(&sender) {
            None => return Err(NetError::UnknownPeer),
            Some(e) => e,
        };
        let state = self.connection_tracker.state(&sender);
        let verified = state.is_connected();
        let frame = match decode(payload) {
            Err(e) => return Err(e),
            Ok(None) => return Ok(ServerDelivery::Dropped),
            Ok(Some(f)) => f,
        };
        match frame {
            Frame::Message { msg_type, data } => {
                if verified {
                    Ok(ServerDelivery::Message { sender, endpoint, msg_type, data })
                } else {
                    Ok(ServerDelivery::Dropped)
                }
            },
            Frame::Rpc { reliable, method_id, request_id, arg_type, arg_data } => {
                if verified {
                    Ok(
                        ServerDelivery::Rpc {
                            sender,
                            endpoint,
                            reliable,
                            method_id,
                            request_id,
                            arg_type,
                            arg_data,
                        },
                    )
                } else {
                    Ok(ServerDelivery::Dropped)
                }
            },
            Frame::Command { cmd, request_id, args } => {
                proof {
                    self.lemma_builtin_dispatch(cmd@, state);
                }
                let which = match self.cmd_handlers.handle(&cmd, state) {
                    None => None,
                    Some(h) => Some(h.handler),
                };
                match which {
                    None => Ok(ServerDelivery::Dropped),
                    Some(ServerCommand::Auth) => {
                        self.connection_tracker.track_client_connected(sender, endpoint, connection);
                        let reply = reply_to(connection, cmd.as_str(), request_id, ok_args());
                        Ok(ServerDelivery::Admitted { sender, endpoint, reply })
                    },
                    Some(ServerCommand::Resources) => {
                        let mut args: Vec<String> = Vec::new();
                        args.push(self.settings.resource_location.clone());
                        assert(texts(args@) =~= seq![self.settings.resource_location@]);
                        Ok(ServerDelivery::Reply(reply_to(connection, cmd.as_str(), request_id, args)))
                    },
                }
            },
        }
    }

    fn send_with_flags(&self, client: &PeerId, msg_type: i64, data: &[u8], reliable: bool) -> (r:
        Result<Outgoing, NetError>)
        requires
            self.wf(),
        ensures
            match r {
                Ok(o) => self.tracker().handles.contains_key(*client) && o@ == (OutgoingView {
                    connections: seq![self.tracker().handles[*client]],
                    reliable,
                    payload: encode_frame(FrameView::Message { msg_type, data: data@ }),
                }),
                Err(e) => !self.tracker().handles.contains_key(*client) && e == NetError::UnknownPeer,
            },
    {
        let connection = match self.connection_tracker.client_connection(client) {
            None => return Err(NetError::UnknownPeer),
            Some(c) => c,
        };
        let payload = encode_message(msg_type, data);
        let mut connections: Vec<u32> = Vec::new();
        connections.push(connection);
        assert(connections@ =~= seq![connection]);
        Ok(Outgoing { connections, reliable, payload })
    }

    /// An unreliable application message to `client`; `UnknownPeer` exactly
    /// when it has no handle.
    pub fn send(&self, client: &PeerId, msg_type: i64, data: &[u8]) -> (r: Result<Outgoing, NetError>)
        requires
            self.wf(),
        ensures
            match r {
                Ok(o) => self.tracker().handles.contains_key(*client) && o@ == (OutgoingView {
                    connections: seq![self.tracker().handles[*client]],
                    reliable: false,
                    payload: encode_frame(FrameView::Message { msg_type, data: data@ }),
                }),
                Err(e) => !self.tracker().handles.contains_key(*client) && e == NetError::UnknownPeer,
            },
    {
        self.send_with_flags(client, msg_type, data, false)
    }

    /// A reliable application message to `client`; `UnknownPeer` exactly
    /// when it has no handle.
    pub fn send_reliable(&self, client: &PeerId, msg_type: i64, data: &[u8]) -> (r: Result<
        Outgoing,
        NetError,
    >)
        requires
            self.wf(),
        ensures
            match r {
                Ok(o) => self.tracker().handles.contains_key(*client) && o@ == (OutgoingView {
                    connections: seq![self.tracker().handles[*client]],
                    reliable: true,
                    payload: encode_frame(FrameView::Message { msg_type, data: data@ }),
                }),
                Err(e) => !self.tracker().handles.contains_key(*client) && e == NetError::UnknownPeer,
            },
    {
        self.send_with_flags(client, msg_type, data, true)
    }

    /// A reliable command to `client`; absent arguments are sent as none.
    /// `UnknownPeer` exactly when it has no handle.
    pub fn send_command(&self, client: &PeerId, cmd: String, request_id: u64, args: Option<Vec<String>>) -> (r:
        Result<Outgoing, NetError>)
        requires
            self.wf(),
        ensures
            match r {
                Ok(o) => self.tracker().handles.contains_key(*client) && o@ == command_reply(
                    self.tracker().handles[*client],
                    cmd@,
                    request_id,
                    opt_texts(args),
                ),
                Err(e) => !self.tracker().handles.contains_key(*client) && e == NetError::UnknownPeer,
            },
    {
        let connection = match self.connection_tracker.client_connection(client) {
            None => return Err(NetError::UnknownPeer),
            Some(c) => c,
        };
        let args = match args {
            Some(a) => a,
            None => {
                let none: Vec<String> = Vec::new();
                assert(texts(none@) =~= seq![]);
                none
            },
        };
        Ok(reply_to(connection, cmd.as_str(), request_id, args))
    }

    /// An RPC call to `client`, reliable when `reliable`; absent argument
    /// data is sent as empty. `UnknownPeer` exactly when it has no handle.
    pub fn call_rpc(
        &self,
        client: &PeerId,
        reliable: bool,
        method_id: i64,
        request_id: u64,
        arg_type: i64,
        arg_data: Option<&[u8]>,
    ) -> (r: Result<Outgoing, NetError>)
        requires
            self.wf(),
        ensures
            match r {
                Ok(o) => self.tracker().handles.contains_key(*client) && o@ == (OutgoingView {
                    connections: seq![self.tracker().handles[*client]],
                    reliable,
                    payload: encode_frame(
                        FrameView::Rpc {
                            reliable,
                            method_id,
                            request_id,
                            arg_type,
                            arg_data: opt_bytes(arg_data),
                        },
                    ),
                }),
                Err(e) => !self.tracker().handles.contains_key(*client) && e == NetError::UnknownPeer,
            },
    {
        let connection = match self.connection_tracker.client_connection(client) {
            None => return Err(NetError::UnknownPeer),
            Some(c) => c,
        };
        let empty: [u8; 0] = [];
        let bytes: &[u8] = match arg_data {
            Some(b) => b,
            None => {
                assert(empty@ =~= seq![]);
                &empty
            },
        };
        let payload = encode_rpc(reliable, method_id, request_id, arg_type, bytes);
        let mut connections: Vec<u32> = Vec::new();
        connections.push(connection);
        assert(connections@ =~= seq![connection]);
        Ok(Outgoing { connections, reliable, payload })
    }

    fn broadcast_with_flags(&self, payload: Vec<u8>, reliable: bool) -> (r: Outgoing)
        requires
            self.wf(),
        ensures
            r.payload == payload,
            r.reliable == reliable,
            forall|k: int|
                0 <= k < r.connections@.len() ==> self.tracker().connected_handle(
                    #[trigger] r.connections@[k],
                ),
            forall|i: PeerId|
                #[trigger] self.tracker().state(i) == ConnectionState::Connected
                    ==> r.connections@.contains(self.tracker().handles[i]),
    {
        let connections = self.connection_tracker.active_connections();
        Outgoing { connections, reliable, payload }
    }

    /// An unreliable application message to every admitted peer: exactly their handles.
    pub fn broadcast(&self, msg_type: i64, data: &[u8]) -> (r: Outgoing)
        requires
            self.wf(),
        ensures
            r.payload@ == encode_frame(FrameView::Message { msg_type, data: data@ }),
            !r.reliable,
            forall|k: int|
                0 <= k < r.connections@.len() ==> self.tracker().connected_handle(
                    #[trigger] r.connections@[k],
                ),
            forall|i: PeerId|
                #[trigger] self.tracker().state(i) == ConnectionState::Connected
                    ==> r.connections@.contains(self.tracker().handles[i]),
    {
        self.broadcast_with_flags(encode_message(msg_type, data), false)
    }

    /// A reliable application message to every admitted peer: exactly their handles.
    pub fn broadcast_reliable(&self, msg_type: i64, data: &[u8]) -> (r: Outgoing)
        requires
            self.wf(),
        ensures
            r.payload@ == encode_frame(FrameView::Message { msg_type, data: data@ }),
            r.reliable,
            forall|k: int|
                0 <= k < r.connections@.len() ==> self.tracker().connected_handle(
                    #[trigger] r.connections@[k],
                ),
            forall|i: PeerId|
                #[trigger] self.tracker().state(i) == ConnectionState::Connected
                    ==> r.connections@.contains(self.tracker().handles[i]),
    {
        self.broadcast_with_flags(encode_message(msg_type, data), true)
    }

    /// An RPC call to every admitted peer, reliable when `reliable`: exactly their handles.
    pub fn call_rpc_broadcast(
        &self,
        reliable: bool,
        method_id: i64,
        request_id: u64,
        arg_type: i64,
        arg_data: Option<&[u8]>,
    ) -> (r: Outgoing)
        requires
            self.wf(),
        ensures
            r.payload@ == encode_frame(
                FrameView::Rpc { reliable, method_id, request_id, arg_type, arg_data: opt_bytes(arg_data) },
            ),
            r.reliable == reliable,
            forall|k: int|
                0 <= k < r.connections@.len() ==> self.tracker().connected_handle(
                    #[trigger] r.connections@[k],
                ),
            forall|i: PeerId|
                #[trigger] self.tracker().state(i) == ConnectionState::Connected
                    ==> r.connections@.contains(self.tracker().handles[i]),
    {
        let empty: [u8; 0] = [];
        let bytes: &[u8] = match arg_data {
            Some(b) => b,
            None => {
                assert(empty@ =~= seq![]);
                &empty
            },
        };
        self.broadcast_with_flags(encode_rpc(reliable, method_id, request_id, arg_type, bytes), reliable)
    }
}

/// The single argument `ok`.
fn ok_args() -> (r: Vec<String>)
    ensures
        texts(r@) == seq![ok_text()],
{
    proof {
        reveal_strlit("ok");
    }
    let ok = "ok".to_owned();
    assert(ok@ =~= ok_text());
    let mut r: Vec<String> = Vec::new();
    r.push(ok);
    assert(texts(r@) =~= seq![ok_text()]);
    r
}

/// A reliable command frame to the single connection `c`.
fn reply_to(c: u32, cmd: &str, request_id: u64, args: Vec<String>) -> (r: Outgoing)
    ensures
        r@ == command_reply(c, cmd@, request_id, texts(args@)),
{
    let payload = encode_command(cmd, request_id, args.as_slice());
    let mut connections: Vec<u32> = Vec::new();
    connections.push(c);
    assert(connections@ =~= seq![c]);
    Outgoing { connections, reliable: true, payload }
}

} // verus!
