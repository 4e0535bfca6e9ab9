//! Access to the wall clock.
use vstd::prelude::*;
use std::time::{SystemTime, UNIX_EPOCH};

verus! {

/// Calls `SystemTime::now` and `duration_since(UNIX_EPOCH)`: the current wall-clock
/// time in milliseconds since the UNIX epoch, or 0 when the clock reads earlier
/// than the epoch (the `Err` case of `duration_since`). Nothing is stated of the
/// value: it depends on the clock.
#[verifier::external_body]
pub(crate) fn now_millis() -> (res: u64) {
    match SystemTime::now().duration_since(UNIX_EPOCH) {
        Ok(d) => d.as_millis() as u64,
        Err(_) => 0,
    }
}

} // verus!
