//! A sharded in-memory key/value server's core: the wire codec, command
//! decoding, the per-shard store, key routing and the processor's replies,
//! each stated as a contract and proved.
//!
//! - `frame`, `parser`, `decimal`: frames, their encoding and the incremental
//!   parser; `round_trip` proves what the two promise each other; `driver`
//!   takes every frame a batch of bytes completes.
//! - `command`: requests decoded into commands.
//! - `value`, `storage`, `request`, `response`: a shard's map and its protocol.
//! - `router`: which shard owns a key.
//! - `processor`: what each command needs from storage and the reply it makes;
//!   `semantics` states the laws of storage, `INCR` and routing.
//! - `stream`: the end-of-input rule and the outbound buffer of a frame stream.
//! - `buf`, `data_type`: the byte buffers of the `bytes` crate and the value
//!   types built on them.
use vstd::prelude::*;

pub mod buf;
pub mod command;
pub mod data_type;
pub mod decimal;
pub mod driver;
pub mod frame;
pub mod parser;
pub mod processor;
pub mod request;
pub mod response;
pub mod round_trip;
pub mod router;
pub mod semantics;
pub mod storage;
pub mod stream;
pub mod value;

verus! {

} // verus!
