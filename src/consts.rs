//! Constant parameters of the wire format.
use vstd::prelude::*;

verus! {

/// Size in bytes of the request packet header.
pub const REQ_HEADER_LEN: usize = 7;

/// Size in bytes of the reply packet header.
pub const REP_HEADER_LEN: usize = 6;

} // verus!
