//! Synchronisation engine of a photo backup service: the wire protocol, the
//! replicated history log of each repository, and the decisions of the client
//! and server sessions, stated as contracts and proved.

pub mod batch;
pub mod bus;
pub mod client;
pub mod codec;
pub mod config;
pub mod discovery;
pub mod frame;
pub mod header;
pub mod json;
pub mod listener;
pub mod loader;
pub mod message;
pub mod path;
pub mod protocol;
pub mod reader;
pub mod replay_laws;
pub mod server;
pub mod session;
pub mod text;
pub mod tree;
pub mod varint;
pub mod wire;
