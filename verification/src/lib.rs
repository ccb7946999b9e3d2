//! Connectivity core of a peer-to-peer validator node.
//!
//! Two engines carry the weight: the signed handshake — identity records
//! sealed into domain-separated, authenticated envelopes and exchanged
//! over a request/response substrate — and the peer connectivity
//! controller, which admits or rejects connections under capacity and
//! priority rules, schedules dials, runs liveness timers and drives
//! discovery without runaway query loops. The transport, the discovery
//! protocol and the scoring machinery stay outside; they hand the engines
//! plain values and take plain values back.

pub mod config;
pub mod enr;
pub mod envelope;
pub mod handshake;
pub mod json;
pub mod node_info;
pub mod peer_manager;
pub mod peer_store;
pub mod signing;
pub mod varint;

pub use envelope::Envelope;
pub use node_info::parse_envelope;
pub use node_info::NodeInfo;
pub use node_info::NodeMetadata;
pub use peer_manager::PeerManager;
pub use peer_manager::PeerManagerEvent;
