//! Rendezvous store and connection negotiation logic for peer-to-peer data channels.

pub mod acceptor;
pub mod client;
pub mod clock;
pub mod connection;
pub mod peer_id;
pub mod relay;
pub mod store;
pub mod text;

pub use client::P2PClient;
pub use relay::RoomConfig;
