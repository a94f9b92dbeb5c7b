//! Networking core of a small client/server runtime: the wire envelope, the
//! connection tracker, the command dispatcher and the per-event decisions of
//! the server and client endpoints. Transport I/O is performed by the caller.
//! Also the resource registry that a server advertises.

mod bimaps;
pub mod client;
pub mod cmd;
pub mod endpoint;
pub mod error;
pub mod ffi;
pub mod resources;
pub mod server;
mod state;
pub mod tracker;
pub mod transport;
pub mod varint;
pub mod wire;

pub use client::{Client, ClientCommand, ClientDelivery, ClientEventAction};
pub use cmd::{CmdHandler, CmdHandlerContainer};
pub use endpoint::{identity_from_endpoint, Endpoint, PeerId};
pub use error::NetError;
pub use ffi::{EndpointFFI, ToFfi, UuidFFI};
pub use resources::{
    AssetCollection, AssetListing, Assets, Folder, Resource, ResourceIndexer, ResourceManager,
    ResourceRegistry, ResourceRegistryItem,
};
pub use server::{Server, ServerCommand, ServerDelivery, ServerEventAction, ServerSettings};
pub use state::ConnectionState;
pub use tracker::ConnectionTracker;
pub use transport::{Outgoing, Packet, TransportState};
pub use wire::Frame;
