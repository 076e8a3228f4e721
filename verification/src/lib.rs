//! A record-and-replay HTTP/WebSocket proxy library.
//!
//! The library holds the verified core of the proxy: the route catalog and its
//! invariants, route resolution with a `$$$` wildcard, derivation of storage
//! paths for recorded bodies, the file-to-directory collision repair plan,
//! WebSocket message classification and replay scheduling, and the decision
//! logic of the request dispatcher and the record pipeline. Network and
//! filesystem work is done by the surrounding application, which feeds the
//! results back into these functions as plain values.

pub mod builder;
pub mod configuration;
pub mod data_loader;
pub mod router;
pub mod storage;
pub mod strutil;
pub mod ws;
