//! A second attempt after an error.

use crate::error;
use crate::error::{classify_error, is_retryable, Error, ErrorView};
use crate::time::Duration;
use crate::types::RetryConfig;
use vstd::prelude::*;

verus! {

/// How often something is tried and how long the first wait is.
#[derive(Debug, Clone, Copy, PartialEq, Eq, Structural)]
pub struct RetryOptions {
    pub max_attempts: usize,
    pub base_delay: Duration,
}

impl Default for RetryOptions {
    fn default() -> (r: RetryOptions)
        ensures
            r == (RetryOptions { max_attempts: 3, base_delay: Duration { nanos: 500_000_000 } }),
    {
        RetryOptions { max_attempts: 3, base_delay: Duration::from_millis(500) }
    }
}

/// How often something is tried: three times where nothing is said.
pub open spec fn attempts(o: RetryOptions) -> nat {
    if o.max_attempts == 0 {
        3
    } else {
        o.max_attempts as nat
    }
}

/// How long the first wait is: half a second where nothing is said.
pub open spec fn first_delay(o: RetryOptions) -> nat {
    if o.base_delay.nanos == 0 {
        500_000_000
    } else {
        o.base_delay.nanos as nat
    }
}

/// Every wait is three times as long as the one before.
pub open spec fn power_of_three(n: nat) -> nat
    decreases n,
{
    if n == 0 {
        1
    } else {
        3 * power_of_three((n - 1) as nat)
    }
}

/// The wait behind an attempt, held at the longest span of time.
pub open spec fn delay_after(o: RetryOptions, attempt: nat) -> nat {
    let d = first_delay(o) * power_of_three((attempt - 1) as nat);
    if d > u128::MAX {
        u128::MAX as nat
    } else {
        d
    }
}

/// What to do behind an attempt that failed.
#[derive(Debug)]
pub enum RetryStep {
    /// Stop with this error.
    GiveUp(Error),
    /// Try again after this time.
    Again(Duration),
}

/// Whether an attempt is the last one: there are no more, or another one cannot
/// succeed.
pub open spec fn is_last(o: RetryOptions, attempt: nat, e: ErrorView) -> bool {
    attempt >= attempts(o) || !error::retryable(error::classified_view(e))
}

/// A power of three is positive, and a larger one for a larger number.
proof fn lemma_power_of_three(n: nat, m: nat)
    requires
        n <= m,
    ensures
        0 < power_of_three(n) <= power_of_three(m),
    decreases m,
{
    if n < m {
        lemma_power_of_three(n, (m - 1) as nat);
    } else if n > 0 {
        lemma_power_of_three((n - 1) as nat, (m - 1) as nat);
    }
}

impl RetryOptions {
    /// The options that a configuration gives.
    pub fn of_config(cfg: &RetryConfig) -> (r: RetryOptions)
        ensures
            r.max_attempts == cfg.max_attempts,
            r.base_delay.nanos == cfg.base_delay_ms * 1_000_000,
    {
        RetryOptions {
            max_attempts: cfg.max_attempts,
            base_delay: Duration::from_millis(cfg.base_delay_ms),
        }
    }

    /// How often something is tried.
    pub fn max(&self) -> (r: usize)
        ensures
            r == attempts(*self),
    {
        if self.max_attempts == 0 {
            3
        } else {
            self.max_attempts
        }
    }

    /// The wait behind an attempt.
    pub fn delay(&self, attempt: usize) -> (r: Duration)
        requires
            attempt >= 1,
        ensures
            r.nanos == delay_after(*self, attempt as nat),
    {
        let base: u128 = if self.base_delay.is_zero() {
            500_000_000
        } else {
            self.base_delay.nanos
        };
        let mut d: u128 = base;
        let mut i: usize = 1;
        assert(base * power_of_three(0) == base) by {
            assert(power_of_three(0) == 1);
            assert(base * 1 == base);
        }
        while i < attempt
            invariant
                1 <= i <= attempt,
                base == first_delay(*self),
                base > 0,
                d == base * power_of_three((i - 1) as nat),
            decreases attempt - i,
        {
            proof {
                lemma_power_of_three(i as nat, (attempt - 1) as nat);
                assert(base * power_of_three(i as nat) == 3 * (base * power_of_three(
                    (i - 1) as nat,
                ))) by (nonlinear_arith)
                    requires
                        power_of_three(i as nat) == 3 * power_of_three((i - 1) as nat),
                ;
                assert(base * power_of_three(i as nat) <= base * power_of_three(
                    (attempt - 1) as nat,
                )) by (nonlinear_arith)
                    requires
                        power_of_three(i as nat) <= power_of_three((attempt - 1) as nat),
                ;
            }
            if d > u128::MAX / 3 {
                return Duration { nanos: u128::MAX };
            }
            d = d * 3;
            i += 1;
        }
        Duration { nanos: d }
    }

    /// What to do behind an attempt that failed.
    pub fn after_failure(&self, attempt: usize, err: &Error) -> (r: RetryStep)
        requires
            attempt >= 1,
        ensures
            match r {
                RetryStep::GiveUp(e) => is_last(*self, attempt as nat, err@) && e@
                    == error::classified_view(err@),
                RetryStep::Again(d) => !is_last(*self, attempt as nat, err@) && d.nanos
                    == delay_after(*self, attempt as nat),
            },
    {
        let classified = classify_error(err);
        if attempt >= self.max() || !is_retryable(&classified) {
            return RetryStep::GiveUp(classified);
        }
        RetryStep::Again(self.delay(attempt))
    }
}

/// A wait is never shorter than the one before.
pub proof fn waits_grow(o: RetryOptions, attempt: nat)
    requires
        attempt >= 1,
    ensures
        delay_after(o, attempt) <= delay_after(o, attempt + 1),
        first_delay(o) <= delay_after(o, attempt),
{
    let n = (attempt - 1) as nat;
    lemma_power_of_three(n, attempt);
    lemma_power_of_three(0, n);
    assert(first_delay(o) * power_of_three(n) <= first_delay(o) * power_of_three(attempt))
        by (nonlinear_arith)
        requires
            power_of_three(n) <= power_of_three(attempt),
    ;
    assert(first_delay(o) * 1 <= first_delay(o) * power_of_three(n)) by (nonlinear_arith)
        requires
            1 <= power_of_three(n),
    ;
}

/// A wrong format fails at once.
pub proof fn format_errors_fail_fast(o: RetryOptions, attempt: nat, e: ErrorView)
    requires
        error::kind_of(e, error::lower_case(e.words())) == error::ErrorCode::FormatError,
    ensures
        is_last(o, attempt, e),
{
}

/// There is an end to the attempts, whatever the errors are.
pub proof fn attempts_end(o: RetryOptions, e: ErrorView)
    ensures
        is_last(o, attempts(o), e),
{
}

/// The first wait is the one that is given, or half a second; every wait is three
/// times the one before, up to the longest span of time.
pub proof fn waits_triple(o: RetryOptions, attempt: nat)
    requires
        attempt >= 1,
    ensures
        delay_after(o, 1) == (if o.base_delay.nanos == 0 {
            500_000_000
        } else {
            o.base_delay.nanos as nat
        }),
        delay_after(o, attempt + 1) == (if 3 * delay_after(o, attempt) > u128::MAX {
            u128::MAX as nat
        } else {
            3 * delay_after(o, attempt)
        }),
{
    let n = (attempt - 1) as nat;
    let base = first_delay(o);
    assert(power_of_three(0) == 1);
    assert(base * 1 == base);
    assert(base * power_of_three(attempt) == 3 * (base * power_of_three(n))) by (nonlinear_arith)
        requires
            power_of_three(attempt) == 3 * power_of_three(n),
    ;
}

/// Something is tried as often as is said, or three times, and another time only
/// behind an error that can pass.
pub proof fn tried_again_while_it_can_help(o: RetryOptions, attempt: nat, e: ErrorView)
    ensures
        ({
            let most = if o.max_attempts == 0 {
                3nat
            } else {
                o.max_attempts as nat
            };
            let code = error::classified_view(e)->code;
            let passing = code == error::ErrorCode::RateLimited || code
                == error::ErrorCode::QpsLimited || code == error::ErrorCode::SendTimeout || code
                == error::ErrorCode::Unknown;
            is_last(o, attempt, e) <==> attempt >= most || !passing
        }),
{
}

} // verus!
