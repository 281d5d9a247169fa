//! The listener's fixed limits and its retry policy.
//!
//! The accept loop, the admission semaphore and the shutdown fan-out are
//! runtime plumbing; what stands here is what they decide by: the admission
//! bound, and the exponential backoff ladder for failed accepts.

use vstd::prelude::*;

verus! {

/// The most connections the server accepts at once; beyond it, new
/// connections wait until one ends.
pub const MAX_CONNECTIONS: usize = 250;

/// The first wait, in seconds, after a failed accept.
pub const FIRST_BACKOFF_SECS: u64 = 1;

/// The wait after the next failed accept: the waits double from one second
/// to 64; one more failure after that and the listener gives up.
pub fn next_backoff(backoff: u64) -> (r: Option<u64>)
    ensures
        backoff > 64 ==> r is None,
        backoff <= 64 ==> (r matches Some(b) && b == 2 * backoff),
{
    if backoff > 64 {
        None
    } else {
        Some(backoff * 2)
    }
}

} // verus!
