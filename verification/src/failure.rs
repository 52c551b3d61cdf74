//! When a page fails to rasterize, and whether to try again.

use vstd::prelude::*;

verus! {

/// Extra attempts a page gets after a timeout, beyond the first.
pub const MAX_RENDER_RETRIES: u8 = 2;

/// Why a page could not be rasterized.
#[derive(Debug)]
pub struct RenderError {
    /// Whether the renderer ran out of time. That usually means the machine was busy; every
    /// other failure comes out the same however often it is tried.
    pub timed_out: bool,
    /// The renderer's own message.
    pub message: String,
}

/// A rasterization that failed, and whether it is worth another attempt.
#[derive(Debug)]
pub struct Failure {
    /// The renderer's own message, shown on the error tile.
    pub message: String,
    /// Attempts remaining. Zero means that this rasterization has been given up on.
    pub retries_left: u8,
}

/// How many attempts remain after an error, when `previous` remained before it.
pub open spec fn retries_after(timed_out: bool, previous: Option<u8>) -> u8 {
    if timed_out {
        match previous {
            Some(left) => left,
            None => MAX_RENDER_RETRIES,
        }
    } else {
        0
    }
}

impl Failure {
    /// The failure to record for `error`, carrying over whatever retries an earlier attempt
    /// at the same rasterization had left.
    pub fn from_error(error: &RenderError, previous: Option<&Failure>) -> (failure: Failure)
        ensures
            failure.message@ == error.message@,
            failure.retries_left == retries_after(
                error.timed_out,
                match previous {
                    Some(failure) => Some(failure.retries_left),
                    None => None,
                },
            ),
    {
        let retries_left = if error.timed_out {
            match previous {
                Some(failure) => failure.retries_left,
                None => MAX_RENDER_RETRIES,
            }
        } else {
            0
        };
        Failure { message: error.message.clone(), retries_left }
    }

    /// Spends one retry, reporting whether there was one to spend.
    pub fn take_retry(&mut self) -> (spent: bool)
        ensures
            spent == (old(self).retries_left > 0),
            final(self).retries_left == (if spent {
                old(self).retries_left - 1
            } else {
                0
            }),
            final(self).message == old(self).message,
    {
        if self.retries_left == 0 {
            return false;
        }
        self.retries_left -= 1;
        true
    }

    /// Whether this rasterization has been abandoned.
    pub fn gave_up(&self) -> (gave_up: bool)
        ensures
            gave_up == (self.retries_left == 0),
    {
        self.retries_left == 0
    }
}

/// What remains of a page's retries after `attempts` timeouts, each after the first followed
/// by a retry that was spent.
pub open spec fn retries_over(attempts: nat) -> u8
    decreases attempts,
{
    if attempts <= 1 {
        retries_after(true, None)
    } else {
        let left = retries_over((attempts - 1) as nat);
        retries_after(
            true,
            Some(
                if left > 0 {
                    (left - 1) as u8
                } else {
                    0
                },
            ),
        )
    }
}

/// A page that keeps timing out is tried a bounded number of times: once and then as often as
/// there are retries.
pub proof fn law_a_page_that_keeps_timing_out_is_given_up_on(attempts: nat)
    ensures
        (retries_over(attempts) == 0) == (attempts > MAX_RENDER_RETRIES),
    decreases attempts,
{
    if attempts > 1 {
        law_a_page_that_keeps_timing_out_is_given_up_on((attempts - 1) as nat);
        reveal_with_fuel(retries_over, 4);
    }
}

/// An error other than a timeout is never retried, whatever was left.
pub proof fn law_only_a_timeout_is_retried(previous: Option<u8>)
    ensures
        retries_after(false, previous) == 0,
{
}

} // verus!
