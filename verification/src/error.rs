//! What can go wrong: a search that was configured impossibly, and the
//! internal checks that guard against handing out a wrong key.

use vstd::prelude::*;

verus! {

/// A search window that cannot be used. The caller can correct it and try
/// again.
#[derive(Clone, Copy, Debug, PartialEq, Eq, Structural)]
pub enum ConfigError {
    /// The window begins after it ends.
    WindowReversed,
    /// The window reaches past the end of an encoded public key.
    WindowPastEncoding,
    /// The window holds fewer bytes than the target.
    WindowTooShort,
}

/// A broken internal invariant. No key derived after one of these may be
/// used: the caller is expected to stop.
#[derive(Clone, Copy, Debug, PartialEq, Eq, Structural)]
pub enum InvariantViolation {
    /// The low three bits of a scalar are none of those a clamped key
    /// reduces to.
    UnexpectedLowBits,
    /// The alias of a scalar does not fit below `2^255`.
    AliasOutOfRange,
    /// A private key did not survive reduction and conversion back.
    RoundTripMismatch,
    /// A derived private key does not give the public key that matched.
    PublicKeyMismatch,
}

} // verus!
