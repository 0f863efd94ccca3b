//! The node manager of a network of append-only channels: a registry that converges by gossip,
//! discovery, topics that merge many members into one log, and the upkeep of replicas.
//!
//! The library decides and computes; it does no input or output and reads no clock. A
//! [`node::Node`] is a daemon's whole state. Around it stand what it is made of:
//!
//! - [`identity`] and [`registry`]: who owns a name, and how two claims to it are settled;
//! - [`membership`] and [`broadcast`]: who is alive and where, and what peers tell each other;
//! - [`subscription`] and [`backoff`]: replicas being kept, and how retries are spaced;
//! - [`names`], [`node_identity`], [`startup`], [`shutdown`]: the layout of a data directory, a
//!   node's own identity, and the two ends of a daemon's life;
//! - [`mux_idle`]: how a loop that found no work waits;
//! - [`wire`]: the messages of peers and clients;
//! - [`name_map`], [`table`], [`text`], [`time`], [`addr`]: the plain data beneath.
pub mod addr;
pub mod backoff;
pub mod broadcast;
pub mod config;
pub mod error;
pub mod identity;
pub mod limits;
pub mod membership;
pub mod mux_idle;
pub mod name_map;
pub mod names;
pub mod node;
pub mod node_identity;
pub mod promises;
pub mod registry;
pub mod shutdown;
pub mod startup;
pub mod subscription;
pub mod table;
pub mod text;
pub mod time;
pub mod wire;
