//! A correlated request/response transport over a duplex byte stream.
//!
//! One process drives actions inside another over a single connection:
//! envelopes (a correlation id plus a tagged message) are framed with a
//! length prefix, written atomically, and matched back to their senders
//! through a correlation table. This crate holds the verified core: the
//! wire codec, the correlation table, and the per-side session state
//! machines. Socket handling and scheduling live with the caller.

pub mod client;
pub mod codec;
pub mod correlation;
pub mod decode;
pub mod encode;
pub mod packets;
pub mod server;
