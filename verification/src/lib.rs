//! A verified command pipeline for a shared pixel canvas.
//!
//! Battery-powered radio nodes send drawing commands to a fixed modem node,
//! which validates them and forwards them over a byte-stuffed serial link to a
//! host relay; the relay validates and remaps coordinates and drives an HTTP
//! display service.  This crate holds the verified core of that pipeline:
//! the message schema, the wire codec and framing, the modem's frame
//! validation, the host-side incremental frame decoder, and the board
//! manager's three operating modes.

pub mod proto;
pub mod wire;
pub mod codec;
pub mod frame;
pub mod ingest;
pub mod modem;
pub mod board;
