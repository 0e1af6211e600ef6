//! A NAT-traversal relay for a peer-to-peer overlay on a local tunnel
//! interface, written as decision functions without I/O.
//!
//! * [`stun`] decides what one cycle of public-address discovery writes and
//!   when the next cycle runs, and frames STUN messages.
//! * [`traffic`] keeps the table of per-peer loopback connections and decides
//!   where each inbound datagram and each tunnel reply goes.
//! * [`endpoint`] joins locally learned peer mappings with externally
//!   confirmed peer addresses and says when the tunnel is to be repointed.
//!
//! The caller owns the sockets, queues and timers: it hands each event to the
//! library and performs what the library answers.

pub mod addr;
pub mod endpoint;
pub mod peers;
pub mod stun;
pub mod traffic;

