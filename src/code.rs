//! Application error codes as carried on the wire.
use vstd::prelude::*;

verus! {

/// The largest value a QUIC variable-length integer can carry (2^62 - 1).
pub const VARINT_MAX: u64 = 0x3fff_ffff_ffff_ffff;

/// The wire code used for an application error code: codes that a variable-length
/// integer cannot carry are clamped to the largest one it can.
pub open spec fn wire_code(code: u64) -> u64 {
    if code <= VARINT_MAX {
        code
    } else {
        VARINT_MAX
    }
}

/// Maps an application error code to the code sent to the peer.
pub fn clamp_code(code: u64) -> (r: u64)
    ensures
        r == wire_code(code),
{
    if code <= VARINT_MAX {
        code
    } else {
        VARINT_MAX
    }
}

} // verus!
