use vstd::prelude::*;
use crate::cmd::{CmdHandler, CmdHandlerContainer};
use crate::endpoint::Endpoint;
use crate::error::NetError;
use crate::server::{auth_text, ok_text, opt_bytes, opt_texts};
use crate::state::ConnectionState;
use crate::transport::{is_session_end, session_ended, Packet, TransportState};
use crate::wire::{decode, decode_frame, encode_command, encode_frame, encode_message, encode_rpc, texts, Frame, FrameView};

verus! {

/// The client's built-in commands.
#[derive(Debug, Clone, Copy, PartialEq, Eq, Structural)]
pub enum ClientCommand {
    Auth,
}

/// What the caller does after a transport state-change event.
#[derive(Debug, Clone, Copy, PartialEq, Eq)]
pub enum ClientEventAction {
    /// The state changed to the one given: report it.
    StateChanged(ConnectionState),
    /// The session is up: report `ConnectedUnverified`, then ask the
    /// authentication callback for credentials and send [`Client::auth_request`].
    Authenticate,
    /// Nothing to do.
    Ignored,
}

/// What the caller does with a payload from the server.
#[derive(Debug)]
pub enum ClientDelivery {
    /// Nothing.
    Dropped,
    /// Hand an application message to the message callback.
    Message { sender: Endpoint, msg_type: i64, data: Vec<u8> },
    /// Hand an RPC call to the RPC callback.
    Rpc {
        sender: Endpoint,
        reliable: bool,
        method_id: i64,
        request_id: u64,
        arg_type: i64,
        arg_data: Vec<u8>,
    },
    /// The server admitted this client: report `Connected`.
    Admitted,
}

/// Model of a [`ClientDelivery`].
pub enum ClientDeliveryView {
    Dropped,
    Message { sender: Endpoint, msg_type: i64, data: Seq<u8> },
    Rpc {
        sender: Endpoint,
        reliable: bool,
        method_id: i64,
        request_id: u64,
        arg_type: i64,
        arg_data: Seq<u8>,
    },
    Admitted,
}

impl View for ClientDelivery {
    type V = ClientDeliveryView;

    open spec fn view(&self) -> ClientDeliveryView {
        match self {
            ClientDelivery::Dropped => ClientDeliveryView::Dropped,
            ClientDelivery::Message { sender, msg_type, data } => ClientDeliveryView::Message {
                sender: *sender,
                msg_type: *msg_type,
                data: data@,
            },
            ClientDelivery::Rpc { sender, reliable, method_id, request_id, arg_type, arg_data } =>
                ClientDeliveryView::Rpc {
                sender: *sender,
                reliable: *reliable,
                method_id: *method_id,
                request_id: *request_id,
                arg_type: *arg_type,
                arg_data: arg_data@,
            },
            ClientDelivery::Admitted => ClientDeliveryView::Admitted,
        }
    }
}

/// Whether a command is the server's acceptance: `AUTH` whose first argument is `ok`.
pub open spec fn is_acceptance(cmd: Seq<char>, args: Seq<Seq<char>>) -> bool {
    cmd == auth_text() && args.len() > 0 && args[0] == ok_text()
}

/// What a payload from the server at `server` yields. The client trusts its
/// server: messages and calls are delivered in any state.
pub open spec fn client_received(server: Endpoint, payload: Seq<u8>) -> Result<
    ClientDeliveryView,
    NetError,
> {
    match decode_frame(payload) {
        None => Err(NetError::DecodeFailed),
        Some(None) => Ok(ClientDeliveryView::Dropped),
        Some(Some(FrameView::Message { msg_type, data })) => Ok(
            ClientDeliveryView::Message { sender: server, msg_type, data },
        ),
        Some(Some(FrameView::Rpc { reliable, method_id, request_id, arg_type, arg_data })) => Ok(
            ClientDeliveryView::Rpc { sender: server, reliable, method_id, request_id, arg_type, arg_data },
        ),
        Some(Some(FrameView::Command { cmd, request_id, args })) => if is_acceptance(cmd, args) {
            Ok(ClientDeliveryView::Admitted)
        } else {
            Ok(ClientDeliveryView::Dropped)
        },
    }
}

/// Client side of the runtime: the server's endpoint, the client's own
/// state and whether a socket was opened. It decides; the caller runs the
/// transport.
pub struct Client {
    server_endpoint: Endpoint,
    state: ConnectionState,
    socket_open: bool,
    cmd_handlers: CmdHandlerContainer<ClientCommand>,
}

impl Client {
    /// The server's endpoint.
    pub closed spec fn server(&self) -> Endpoint {
        self.server_endpoint
    }

    /// The client's state.
    pub closed spec fn current_state(&self) -> ConnectionState {
        self.state
    }

    /// Whether a socket was opened.
    pub closed spec fn has_socket(&self) -> bool {
        self.socket_open
    }

    /// The client's invariant: the one built-in `AUTH` command, not requiring admission.
    pub closed spec fn wf(&self) -> bool {
        &&& self.cmd_handlers.wf()
        &&& self.cmd_handlers.entries().len() == 1
        &&& self.cmd_handlers.entries()[0].cmd@ == auth_text()
        &&& !self.cmd_handlers.entries()[0].auth_required
        &&& self.cmd_handlers.entries()[0].handler == ClientCommand::Auth
    }

    /// A client of the server at `server_ip`:`server_port` (IPv6 form), never connected.
    pub fn new(server_ip: u128, server_port: u16) -> (r: Client)
        ensures
            r.wf(),
            r.server() == (Endpoint { ip: server_ip, port: server_port }),
            r.current_state() == ConnectionState::NeverSeen,
            !r.has_socket(),
    {
        let mut cmd_handlers: CmdHandlerContainer<ClientCommand> = CmdHandlerContainer::new();
        proof {
            reveal_strlit("AUTH");
        }
        let auth = CmdHandler::new("AUTH", false, ClientCommand::Auth);
        assert(auth.cmd@ =~= auth_text());
        assert(!cmd_handlers.has(auth.cmd@));
        let _ = cmd_handlers.register_handler(auth);
        Client {
            server_endpoint: Endpoint { ip: server_ip, port: server_port },
            state: ConnectionState::NeverSeen,
            socket_open: false,
            cmd_handlers,
        }
    }

    /// The client's state.
    pub fn state(&self) -> (r: ConnectionState)
        ensures
            r == self.current_state(),
    {
        self.state
    }

    /// The server's endpoint.
    pub fn server_endpoint(&self) -> (r: Endpoint)
        ensures
            r == self.server(),
    {
        self.server_endpoint
    }

    /// Whether a socket was opened.
    pub fn socket_is_open(&self) -> (r: bool)
        ensures
            r == self.has_socket(),
    {
        self.socket_open
    }

    /// The endpoint to open a socket to; `AlreadyConnected` exactly when a
    /// socket is open and the client is connecting or connected.
    pub fn connect(&self) -> (r: Result<Endpoint, NetError>)
        ensures
            (self.has_socket() && (self.current_state() == ConnectionState::Connecting
                || self.current_state() == ConnectionState::Connected)) ==> r == Err::<
                Endpoint,
                NetError,
            >(NetError::AlreadyConnected),
            !(self.has_socket() && (self.current_state() == ConnectionState::Connecting
                || self.current_state() == ConnectionState::Connected)) ==> r == Ok::<
                Endpoint,
                NetError,
            >(self.server()),
    {
        let busy = match self.state {
            ConnectionState::Connecting | ConnectionState::Connected => true,
            _ => false,
        };
        if self.socket_open && busy {
            Err(NetError::AlreadyConnected)
        } else {
            Ok(self.server_endpoint)
        }
    }

    /// Records that a socket to the server was opened.
    pub fn socket_opened(&mut self)
        requires
            old(self).wf(),
        ensures
            final(self).wf(),
            final(self).has_socket(),
            final(self).server() == old(self).server(),
            final(self).current_state() == old(self).current_state(),
    {
        self.socket_open = true;
    }

    /// Whether there is a connection to close (with reason code 0 and an empty reason).
    pub fn disconnect(&self) -> (r: bool)
        ensures
            r == self.has_socket(),
    {
        self.socket_open
    }

    /// A reliable command to the server; absent arguments are sent as none.
    /// `NotConnected` exactly when no socket is open.
    pub fn send_cmd(&self, cmd: &str, request_id: u64, args: Option<Vec<String>>) -> (r: Result<
        Packet,
        NetError,
    >)
        ensures
            match r {
                Ok(p) => self.has_socket() && p.reliable && p.payload@ == encode_frame(
                    FrameView::Command { cmd: cmd@, request_id, args: opt_texts(args) },
                ),
                Err(e) => !self.has_socket() && e == NetError::NotConnected,
            },
    {
        if !self.socket_open {
            return Err(NetError::NotConnected);
        }
        let args = match args {
            Some(a) => a,
            None => {
                let none: Vec<String> = Vec::new();
                assert(texts(none@) =~= seq![]);
                none
            },
        };
        Ok(Packet { reliable: true, payload: encode_command(cmd, request_id, args.as_slice()) })
    }

    /// The admission request: `AUTH` with request id 0 and the credentials.
    pub fn auth_request(&self, credentials: Option<Vec<String>>) -> (r: Result<Packet, NetError>)
        ensures
            match r {
                Ok(p) => self.has_socket() && p.reliable && p.payload@ == encode_frame(
                    FrameView::Command { cmd: auth_text(), request_id: 0, args: opt_texts(credentials) },
                ),
                Err(e) => !self.has_socket() && e == NetError::NotConnected,
            },
    {
        proof {
            reveal_strlit("AUTH");
        }
        let r = self.send_cmd("AUTH", 0, credentials);
        assert("AUTH"@ =~= auth_text());
        r
    }

    fn send_with_flags(&self, reliable: bool, msg_type: i64, data: &[u8]) -> (r: Result<Packet, NetError>)
        ensures
            match r {
                Ok(p) => self.has_socket() && p.reliable == reliable && p.payload@ == encode_frame(
                    FrameView::Message { msg_type, data: data@ },
                ),
                Err(e) => !self.has_socket() && e == NetError::NotConnected,
            },
    {
        if !self.socket_open {
            return Err(NetError::NotConnected);
        }
        Ok(Packet { reliable, payload: encode_message(msg_type, data) })
    }

    /// An unreliable application message to the server; `NotConnected`
    /// exactly when no socket is open.
    pub fn send(&self, msg_type: i64, data: &[u8]) -> (r: Result<Packet, NetError>)
        ensures
            match r {
                Ok(p) => self.has_socket() && !p.reliable && p.payload@ == encode_frame(
                    FrameView::Message { msg_type, data: data@ },
                ),
                Err(e) => !self.has_socket() && e == NetError::NotConnected,
            },
    {
        self.send_with_flags(false, msg_type, data)
    }

    /// A reliable application message to the server; `NotConnected`
    /// exactly when no socket is open.
    pub fn send_reliable(&self, msg_type: i64, data: &[u8]) -> (r: Result<Packet, NetError>)
        ensures
            match r {
                Ok(p) => self.has_socket() && p.reliable && p.payload@ == encode_frame(
                    FrameView::Message { msg_type, data: data@ },
                ),
                Err(e) => !self.has_socket() && e == NetError::NotConnected,
            },
    {
        self.send_with_flags(true, msg_type, data)
    }

    /// An RPC call to the server, reliable when `reliable`; absent argument
    /// data is sent as empty. `NotConnected` exactly when no socket is open.
    pub fn call_rpc(
        &self,
        reliable: bool,
        method_id: i64,
        request_id: u64,
        arg_type: i64,
        arg_data: Option<&[u8]>,
    ) -> (r: Result<Packet, NetError>)
        ensures
            match r {
                Ok(p) => self.has_socket() && p.reliable == reliable && p.payload@ == encode_frame(
                    FrameView::Rpc {
                        reliable,
                        method_id,
                        request_id,
                        arg_type,
                        arg_data: opt_bytes(arg_data),
                    },
                ),
                Err(e) => !self.has_socket() && e == NetError::NotConnected,
            },
    {
        if !self.socket_open {
            return Err(NetError::NotConnected);
        }
        let empty: [u8; 0] = [];
        let bytes: &[u8] = match arg_data {
            Some(b) => b,
            None => {
                assert(empty@ =~= seq![]);
                &empty
            },
        };
        Ok(Packet { reliable, payload: encode_rpc(reliable, method_id, request_id, arg_type, bytes) })
    }

    /// Decides what a transport state change means for the client, and records it.
    pub fn on_connection_event(&mut self, from: TransportState, to: TransportState) -> (r:
        ClientEventAction)
        requires
            old(self).wf(),
        ensures
            final(self).wf(),
            final(self).server() == old(self).server(),
            final(self).has_socket() == old(self).has_socket(),
            if from == TransportState::Inactive && to == TransportState::Connecting {
                r == ClientEventAction::StateChanged(ConnectionState::Connecting)
                    && final(self).current_state() == ConnectionState::Connecting
            } else if is_session_end(from, to) {
                r == ClientEventAction::StateChanged(ConnectionState::Disconnected)
                    && final(self).current_state() == ConnectionState::Disconnected
            } else if from == TransportState::Connecting && to == TransportState::Connected {
                r == ClientEventAction::Authenticate && final(self).current_state()
                    == ConnectionState::ConnectedUnverified
            } else {
                r == ClientEventAction::Ignored && final(self).current_state() == old(
                    self,
                ).current_state()
            },
    {
        if from == TransportState::Inactive && to == TransportState::Connecting {
            self.state = ConnectionState::Connecting;
            ClientEventAction::StateChanged(self.state)
        } else if session_ended(from, to) {
            self.state = ConnectionState::Disconnected;
            ClientEventAction::StateChanged(self.state)
        } else if from == TransportState::Connecting && to == TransportState::Connected {
            self.state = ConnectionState::ConnectedUnverified;
            ClientEventAction::Authenticate
        } else {
            ClientEventAction::Ignored
        }
    }

    /// Decides what a payload from the server yields; the server's acceptance
    /// makes the client `Connected`. See [`client_received`].
    pub fn on_message(&mut self, payload: &[u8]) -> (r: Result<ClientDelivery, NetError>)
        requires
            old(self).wf(),
        ensures
            final(self).wf(),
            final(self).server() == old(self).server(),
            final(self).has_socket() == old(self).has_socket(),
            match r {
                Ok(d) => client_received(old(self).server(), payload@) == Ok::<
                    ClientDeliveryView,
                    NetError,
                >(d@),
                Err(e) => client_received(old(self).server(), payload@) == Err::<
                    ClientDeliveryView,
                    NetError,
                >(e),
            },
            r matches Ok(ClientDelivery::Admitted) ==> final(self).current_state()
                == ConnectionState::Connected,
            !(r matches Ok(ClientDelivery::Admitted)) ==> final(self).current_state() == old(
                self,
            ).current_state(),
    {
        let sender = self.server_endpoint;
        let frame = match decode(payload) {
            Err(e) => return Err(e),
            Ok(None) => return Ok(ClientDelivery::Dropped),
            Ok(Some(f)) => f,
        };
        match frame {
            Frame::Message { msg_type, data } => Ok(ClientDelivery::Message { sender, msg_type, data }),
            Frame::Rpc { reliable, method_id, request_id, arg_type, arg_data } => Ok(
                ClientDelivery::Rpc { sender, reliable, method_id, request_id, arg_type, arg_data },
            ),
            Frame::Command { cmd, request_id, args } => {
                proof {
                    let e = self.cmd_handlers.entries();
                    if cmd@ == auth_text() {
                        assert(e[0].cmd@ == cmd@);
                        assert(self.cmd_handlers.has(cmd@));
                    } else {
                        assert(!self.cmd_handlers.has(cmd@)) by {
                            if self.cmd_handlers.has(cmd@) {
                                let k = choose|k: int|
                                    0 <= k < e.len() && (#[trigger] e[k]).cmd@ == cmd@;
                                assert(k == 0);
                            }
                        }
                    }
                }
                let which = match self.cmd_handlers.handle(&cmd, self.state) {
                    None => None,
                    Some(h) => Some(h.handler),
                };
                match which {
                    None => Ok(ClientDelivery::Dropped),
                    Some(ClientCommand::Auth) => {
                        if args.len() > 0 && is_ok(&args[0]) {
                            self.state = ConnectionState::Connected;
                            Ok(ClientDelivery::Admitted)
                        } else {
                            Ok(ClientDelivery::Dropped)
                        }
                    },
                }
            },
        }
    }
}

/// Whether `s` is the text `ok`.
fn is_ok(s: &String) -> (r: bool)
    ensures
        r == (s@ == ok_text()),
{
    proof {
        reveal_strlit("ok");
    }
    let ok = "ok".to_owned();
    assert(ok@ =~= ok_text());
    *s == ok
}

} // verus!
