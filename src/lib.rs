//! uRPC: a small RPC framing and dispatch library for peer-to-peer links over
//! any reliable byte stream.
//!
//! A request packet is a 7-byte header, a body and an optional side buffer; a
//! reply packet is a 6-byte header, a body and an optional side buffer.  The
//! server side parses requests and frames replies; the client side frames
//! requests and parses replies into per-channel reply slots.
pub mod client;
pub mod codec;
pub mod consts;
pub mod error;
pub mod laws;
pub mod server;
pub mod shape;
pub mod wire;

pub use error::Error;
pub use wire::{
    rep_header_from_bytes, req_header_from_bytes, Opts, ReplyHeader, RequestHeader,
};
pub use shape::{OptBuf, OptBufNo, OptBufYes};
pub use codec::Body;
