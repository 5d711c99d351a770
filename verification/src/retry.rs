//! Bounded retries with exponential backoff.
use backon::BackoffBuilder;
use std::time::Duration;
use vstd::prelude::*;

use crate::errors::{is_retryable, EmitterError};

verus! {

/// Retry knobs. A retryable error triggers a reconnect and a retry, up to
/// `max_attempts` of them, with exponential backoff capped at `max_backoff`.
#[derive(Debug, Clone, Copy, PartialEq, Eq, Structural)]
pub struct RetryConfig {
    /// Retry budget after the first call, failed reconnects included.
    pub max_attempts: u32,
    /// In milliseconds.
    pub initial_backoff: u64,
    /// In milliseconds.
    pub max_backoff: u64,
}

impl Default for RetryConfig {
    fn default() -> (r: Self)
        ensures
            r == (RetryConfig { max_attempts: 5, initial_backoff: 250, max_backoff: 10_000 }),
    {
        RetryConfig { max_attempts: 5, initial_backoff: 250, max_backoff: 10_000 }
    }
}

/// The delay in nanoseconds before retry number `i` of an exponential backoff
/// from `min_ms` on, capped at `max_ms`.
pub uninterp spec fn backoff_delay(min_ms: u64, max_ms: u64, i: u32) -> u128;

/// `backon::ExponentialBuilder` without jitter yields one delay per attempt:
/// the first is the minimum, later ones grow and are never above the maximum.
/// By how much they grow goes through floating point and is not said.
#[verifier::external_body]
fn exponential_delay(min_ms: u64, max_ms: u64, times: u32, i: u32) -> (r: Option<u128>)
    ensures
        r == if i < times {
            Some(backoff_delay(min_ms, max_ms, i))
        } else {
            None
        },
        i == 0 && i < times ==> r == Some((min_ms * 1_000_000) as u128),
        0 < i < times ==> r->0 <= max_ms * 1_000_000,
{
    backon::ExponentialBuilder::default()
        .with_min_delay(Duration::from_millis(min_ms))
        .with_max_delay(Duration::from_millis(max_ms))
        .with_max_times(times as usize)
        .build()
        .nth(i as usize)
        .map(|d| d.as_nanos())
}

impl RetryConfig {
    /// The retries of one operation, none of them used yet.
    pub fn backoff(&self) -> (r: Backoff)
        ensures
            r.wf(),
            r.config() == *self,
            r.used() == 0,
    {
        Backoff { config: *self, used: 0 }
    }
}

/// The retries of one operation.
#[derive(Debug)]
pub struct Backoff {
    config: RetryConfig,
    used: u32,
}

/// What a failed attempt leads to.
#[derive(Debug, Clone, Copy, PartialEq, Eq, Structural)]
pub enum AfterError {
    /// Wait so many nanoseconds, reconnect, try again.
    Retry(u128),
    /// Give the error up to the caller.
    Fail,
}

/// What a failure is answered once `used` retries have been, and how many have
/// been then.
pub open spec fn answer(config: RetryConfig, used: u32, mendable: bool) -> (AfterError, u32) {
    if mendable && used < config.max_attempts {
        (
            AfterError::Retry(backoff_delay(config.initial_backoff, config.max_backoff, used)),
            (used + 1) as u32,
        )
    } else {
        (AfterError::Fail, used)
    }
}

impl Backoff {
    pub closed spec fn config(&self) -> RetryConfig {
        self.config
    }

    pub closed spec fn used(&self) -> u32 {
        self.used
    }

    pub open spec fn wf(&self) -> bool {
        self.used() <= self.config().max_attempts
    }

    /// The delay before the next retry, while the budget lasts: the first is
    /// the initial backoff, later ones are within the cap.
    pub fn next(&mut self) -> (r: Option<u128>)
        requires
            old(self).wf(),
        ensures
            final(self).wf(),
            final(self).config() == old(self).config(),
            if old(self).used() < old(self).config().max_attempts {
                &&& r == Some(
                    backoff_delay(
                        old(self).config().initial_backoff,
                        old(self).config().max_backoff,
                        old(self).used(),
                    ),
                )
                &&& final(self).used() == old(self).used() + 1
                &&& old(self).used() == 0 ==> r->0 == old(self).config().initial_backoff
                    * 1_000_000
                &&& old(self).used() > 0 ==> r->0 <= old(self).config().max_backoff * 1_000_000
            } else {
                r is None && final(self).used() == old(self).used()
            },
    {
        let r: Option<u128> = exponential_delay(
            self.config.initial_backoff,
            self.config.max_backoff,
            self.config.max_attempts,
            self.used,
        );
        if self.used < self.config.max_attempts {
            self.used = self.used + 1;
        }
        r
    }

    /// A failure that a retry can mend is retried while the budget lasts; any
    /// other is given up at once.
    pub fn on_failure(&mut self, mendable: bool) -> (r: AfterError)
        requires
            old(self).wf(),
        ensures
            final(self).wf(),
            final(self).config() == old(self).config(),
            (r, final(self).used()) == answer(old(self).config(), old(self).used(), mendable),
    {
        if mendable {
            if let Some(d) = self.next() {
                return AfterError::Retry(d);
            }
        }
        AfterError::Fail
    }

    /// A retryable error is retried while the budget lasts; any other fails
    /// at once. A failed reconnect counts like a failed attempt.
    pub fn on_error(&mut self, e: &EmitterError) -> (r: AfterError)
        requires
            old(self).wf(),
        ensures
            final(self).wf(),
            final(self).config() == old(self).config(),
            (r, final(self).used()) == answer(
                old(self).config(),
                old(self).used(),
                e@.retryable(),
            ),
    {
        self.on_failure(is_retryable(e))
    }
}

} // verus!
