//! The decision core of a mesh-VPN daemon: peer sessions, routing, relaying,
//! rekeying, obfuscation planning and stream framing, with the cryptography and
//! the sockets left to the program around it.

pub mod addr;
pub mod clock;
pub mod entropy;
pub mod epoch;
pub mod order;
pub mod peer;
pub mod peer_manager;
pub mod port;
pub mod quic;
pub mod relay_client;
pub mod rendezvous;
pub mod tls;
pub mod wire;
