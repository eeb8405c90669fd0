//! Shape tags: whether a method carries a side buffer, fixed by type.
use vstd::prelude::*;

verus! {

/// Tag type saying whether an RPC method carries a side buffer.
pub trait OptBuf {
    spec fn present() -> bool;

    /// Whether the tagged direction carries a side buffer.
    fn opt_buf() -> (r: bool)
        ensures
            r == Self::present(),
    ;
}

/// The method carries a side buffer in this direction.
#[derive(Debug)]
pub struct OptBufYes {}

/// The method carries no side buffer in this direction.
#[derive(Debug)]
pub struct OptBufNo {}

impl OptBuf for OptBufYes {
    open spec fn present() -> bool {
        true
    }

    fn opt_buf() -> (r: bool) {
        true
    }
}

impl OptBuf for OptBufNo {
    open spec fn present() -> bool {
        false
    }

    fn opt_buf() -> (r: bool) {
        false
    }
}

} // verus!
