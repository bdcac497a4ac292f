//! Recovery from store write failures.
//!
//! When a write fails, the worker hands control here. The policy says,
//! for each attempt, whether to retry the same height after a backoff
//! delay or to defer it. A deferred height is never lost: the failed
//! write left the store without it, so the next gap scan lists it
//! again (see `lemma_failed_height_discoverable` in the store module).

use vstd::prelude::*;

verus! {

/// What to do about a failed store write.
#[derive(Clone, Copy, Debug, PartialEq, Eq, Structural)]
pub enum RecoveryAction {
    /// Reconnect and retry the same height after this many
    /// milliseconds.
    Retry(u64),
    /// Stop retrying; leave the height for the gap scanner and the
    /// audit pass.
    Defer,
}

/// How long to wait before retry number `attempt`: the base delay
/// grows linearly with the attempt, saturating at the largest delay.
pub open spec fn backoff_delay(base_ms: u64, attempt: u32) -> u64 {
    if base_ms * (attempt + 1) > u64::MAX {
        u64::MAX
    } else {
        (base_ms * (attempt + 1)) as u64
    }
}

/// The retry policy of the recovery manager.
#[derive(Clone, Copy, Debug, PartialEq, Eq, Structural)]
pub struct RecoveryPolicy {
    /// How many retries a height gets before it is deferred.
    pub max_retries: u32,
    /// The delay before the first retry, in milliseconds.
    pub base_delay_ms: u64,
}

impl RecoveryPolicy {
    /// Decide what to do after the `attempt`-th failure of one height
    /// (counting from zero): retry with a growing backoff while
    /// attempts remain, defer afterwards — never drop the height.
    pub fn decide(&self, attempt: u32) -> (a: RecoveryAction)
        ensures
            attempt < self.max_retries ==> a == RecoveryAction::Retry(
                backoff_delay(self.base_delay_ms, attempt),
            ),
            attempt >= self.max_retries ==> a == RecoveryAction::Defer,
    {
        if attempt < self.max_retries {
            let factor = attempt as u64 + 1;
            match self.base_delay_ms.checked_mul(factor) {
                Some(d) => RecoveryAction::Retry(d),
                None => RecoveryAction::Retry(u64::MAX),
            }
        } else {
            RecoveryAction::Defer
        }
    }
}

} // verus!
