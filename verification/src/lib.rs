//! The core of a peer-to-peer overlay network: peers with 160-bit
//! identifiers form a ring, keep it right by periodic stabilization, and
//! pass signed envelopes from hop to hop toward the successor of their
//! destination.
//!
//! - [`did`]: identifiers and arithmetic on the ring.
//! - [`ring`]: the ring table of one node, its lookups and its
//!   stabilizer.
//! - [`convergence`]: how a ring of connected peers comes to rest under
//!   the stabilizer.
//! - [`message`], [`chunk`], [`wire`]: the envelope, its fragments and
//!   their wire formats.
//! - [`transport`], [`dummy`], [`pool`]: connection states, an
//!   in-memory transport and the pool of a peer's connections.
//! - [`swarm`]: one node, its callback, its router and its builder.
//! - [`session`], [`storage`], [`config`], [`backend`], [`rpc`]: what a
//!   node is set up with and what rides on top of it.
//! - [`ice_server`]: the form of a list of ICE servers.
//! - [`assoc`], [`held`], [`error`]: lists read as maps, a holder for
//!   trait objects, and the error kinds.

pub mod assoc;
pub mod backend;
pub mod chunk;
pub mod config;
pub mod convergence;
pub mod did;
pub mod dummy;
pub mod error;
pub mod held;
pub mod ice_server;
pub mod message;
pub mod pool;
pub mod ring;
pub mod rpc;
pub mod session;
pub mod storage;
pub mod swarm;
pub mod transport;
pub mod wire;
