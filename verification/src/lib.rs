//! A verified mock peer for a Kademlia-style node-discovery protocol.
//!
//! The crate implements the wire codec, the session cryptography and the
//! scripted handler state machine of a mock protocol participant: an endpoint
//! that completes (or deliberately mishandles) the real handshake so that test
//! scenarios can inject adversarial behaviour at the wire level.
pub mod behaviour;
pub mod bytes;
pub mod change_ip;
pub mod crypto;
pub mod eclipse;
pub mod enr_update;
pub mod handler;
pub mod session;
pub mod ecdh;
pub mod errors;
pub mod rpc;
pub mod utils;
pub mod wire;
