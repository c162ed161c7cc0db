//! The kinds of failure the protocol distinguishes.

use vstd::prelude::*;

verus! {

/// How an exchange failed.
#[derive(Debug, Clone, Copy, PartialEq, Eq, Structural)]
pub enum FraktError {
    /// An I/O fault or a stream that ended early.
    Transport,
    /// A malformed envelope, an unknown header or a misaligned payload.
    Protocol,
    /// A setting that cannot be used.
    Config,
}

} // verus!
