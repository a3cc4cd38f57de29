//! Errors of the library, and when a failed request is tried again.

use vstd::prelude::*;

verus! {

/// What can go wrong in the library and around it. Every variant carries the
/// text that describes the failure.
#[derive(Debug, Clone)]
pub enum AMPError {
    DataFetch(String),
    CorrelationFailed(String),
    ApiError { status: u16, message: String },
    NotificationFailed(String),
    GeolocationFailed(String),
    InvalidCoordinate(String),
    ConfigError(String),
    IoError(String),
    JsonError(String),
    HttpError(String),
    DecimalError(String),
    TimeError(String),
    Unknown(String),
}

/// What a function of the library returns that can fail.
pub type Result<T> = std::result::Result<T, AMPError>;

/// How often and how patiently a failed request is tried again.
#[derive(Debug, Clone)]
pub struct RetryConfig {
    /// Number of attempts in all, the first one included.
    pub max_attempts: u32,
    /// Pause after the first failure, in milliseconds.
    pub base_delay_ms: u64,
    /// Longest pause, in milliseconds.
    pub max_delay_ms: u64,
}

impl Default for RetryConfig {
    fn default() -> (config: Self)
        ensures
            config.max_attempts == 3,
            config.base_delay_ms == 500,
            config.max_delay_ms == 30_000,
    {
        Self { max_attempts: 3, base_delay_ms: 500, max_delay_ms: 30_000 }
    }
}

/// Two to the power `n`.
pub open spec fn pow2(n: nat) -> int
    decreases n,
{
    if n == 0 {
        1
    } else {
        2 * pow2((n - 1) as nat)
    }
}

impl RetryConfig {
    /// The pause after a failure that `earlier` failures went before: the
    /// base delay, doubled once for each earlier failure, but never longer
    /// than the longest pause.
    pub open spec fn delay_after(self, earlier: nat) -> int {
        let doubled = self.base_delay_ms * pow2(earlier);
        if doubled <= self.max_delay_ms {
            doubled
        } else {
            self.max_delay_ms as int
        }
    }

    /// What to do when an attempt has failed and `earlier` attempts failed
    /// before it: `None` to give up, because no attempt is left, or the pause
    /// in milliseconds after which to try again.
    pub fn after_failure(&self, earlier: u32) -> (pause: Option<u64>)
        ensures
            pause is Some <==> earlier + 1 < self.max_attempts,
            pause matches Some(delay) ==> delay == self.delay_after(earlier as nat),
    {
        if self.max_attempts == 0 || earlier >= self.max_attempts - 1 {
            return None;
        }
        let mut delay: u64 = self.base_delay_ms;
        let mut doubled: u32 = 0;
        while doubled < earlier
            invariant
                doubled <= earlier,
                earlier + 1 < self.max_attempts,
                delay == self.base_delay_ms * pow2(doubled as nat),
            decreases earlier - doubled,
        {
            proof {
                assert(self.base_delay_ms * pow2((doubled + 1) as nat) == 2 * delay)
                    by (nonlinear_arith)
                    requires
                        delay == self.base_delay_ms * pow2(doubled as nat),
                        pow2((doubled + 1) as nat) == 2 * pow2(doubled as nat),
                ;
            }
            if delay > self.max_delay_ms / 2 {
                proof {
                    lemma_pow2_monotonic((doubled + 1) as nat, earlier as nat);
                    assert(self.base_delay_ms * pow2((doubled + 1) as nat) <= self.base_delay_ms
                        * pow2(earlier as nat)) by (nonlinear_arith)
                        requires
                            pow2((doubled + 1) as nat) <= pow2(earlier as nat),
                    ;
                }
                return Some(self.max_delay_ms);
            }
            delay = delay * 2;
            doubled = doubled + 1;
        }
        if delay <= self.max_delay_ms {
            Some(delay)
        } else {
            Some(self.max_delay_ms)
        }
    }
}

/// A power of two is at least one.
pub proof fn lemma_pow2_positive(n: nat)
    ensures
        pow2(n) >= 1,
    decreases n,
{
    if n > 0 {
        lemma_pow2_positive((n - 1) as nat);
    }
}

/// A greater exponent gives a power of two that is no smaller.
pub proof fn lemma_pow2_monotonic(a: nat, b: nat)
    requires
        a <= b,
    ensures
        pow2(a) <= pow2(b),
    decreases b,
{
    if a < b {
        lemma_pow2_monotonic(a, (b - 1) as nat);
        lemma_pow2_positive((b - 1) as nat);
    }
}

} // verus!
