//! Rendezvous (introduction) service: a host registers under a short code,
//! a client resolves that code back into the host's network address, and the
//! two peers then connect directly without further server relay.

use vstd::prelude::*;

pub mod codes;
pub mod msg;
pub mod registry;
pub mod server;
pub mod tracker;

verus! {

/// Elapsed time between a recorded timestamp and `now`, clamped at zero when
/// the clock appears to have moved backwards.
pub open spec fn elapsed(t: u64, now: u64) -> int {
    if now >= t {
        now - t
    } else {
        0
    }
}

/// Executable counterpart of [`elapsed`].
pub fn elapsed_since(t: u64, now: u64) -> (e: u64)
    ensures
        e == elapsed(t, now),
{
    if now >= t {
        now - t
    } else {
        0
    }
}

} // verus!
