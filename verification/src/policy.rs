//! Pure supervision policies: the per-source circuit breaker and the rule that decides
//! whether a failure degrades the watcher or ends it.

use crate::clock::{duration_from_secs, duration_of_secs};
use crate::ports::Criticality;
use std::time::Duration;
use vstd::arithmetic::power2::{lemma2_to64, lemma_pow2_strictly_increases, pow2};
use vstd::bits::lemma_u64_shl_is_mul;
use vstd::prelude::*;

verus! {

#[derive(Debug, Clone, Copy, PartialEq, Eq, Structural)]
pub enum BreakerState {
    Closed,
    Open,
}

/// Circuit breaker with per-source exponential backoff.
#[derive(Debug, Clone)]
pub struct CircuitBreaker {
    state: BreakerState,
    consecutive_failures: u32,
    /// Consecutive failures at which a Critical source becomes fatal.
    crit_threshold: u32,
    base_backoff_secs: u64,
    max_backoff_secs: u64,
}

/// What a breaker is, seen from outside.
pub struct BreakerModel {
    pub state: BreakerState,
    pub failures: u32,
    pub threshold: u32,
    pub base_secs: u64,
    pub max_secs: u64,
}

impl View for CircuitBreaker {
    type V = BreakerModel;

    closed spec fn view(&self) -> BreakerModel {
        BreakerModel {
            state: self.state,
            failures: self.consecutive_failures,
            threshold: self.crit_threshold,
            base_secs: self.base_backoff_secs,
            max_secs: self.max_backoff_secs,
        }
    }
}

/// The smaller of two integers.
pub open spec fn min_int(a: int, b: int) -> int {
    if a <= b { a } else { b }
}

/// `a * b`, pinned to `u64::MAX` when it does not fit.
pub open spec fn saturating_product(a: int, b: int) -> int {
    min_int(a * b, u64::MAX as int)
}

/// Backoff in seconds after `failures` consecutive failures: the base while nothing has
/// failed, otherwise `base * 2^(min(failures, 16) - 1)` (saturating), capped at `max`.
pub open spec fn backoff_secs_of(failures: u32, base: u64, max: u64) -> int {
    if failures == 0 {
        base as int
    } else {
        min_int(
            saturating_product(base as int, pow2((min_int(failures as int, 16) - 1) as nat) as int),
            max as int,
        )
    }
}

/// The breaker's current backoff, in seconds.
pub open spec fn backoff_of(m: BreakerModel) -> int {
    backoff_secs_of(m.failures, m.base_secs, m.max_secs)
}

/// `x + 1`, pinned at `u32::MAX`.
pub open spec fn saturating_succ(x: u32) -> u32 {
    if x == u32::MAX { x } else { (x + 1) as u32 }
}

impl CircuitBreaker {
    /// A closed breaker with no failures, a 1 s base backoff and a 60 s ceiling.
    pub fn new(crit_threshold: u32) -> (b: Self)
        ensures
            b@.state == BreakerState::Closed,
            b@.failures == 0,
            b@.threshold == crit_threshold,
            b@.base_secs == 1,
            b@.max_secs == 60,
    {
        CircuitBreaker {
            state: BreakerState::Closed,
            consecutive_failures: 0,
            crit_threshold,
            base_backoff_secs: 1,
            max_backoff_secs: 60,
        }
    }

    pub fn state(&self) -> (s: BreakerState)
        ensures
            s == self@.state,
    {
        self.state
    }

    pub fn consecutive_failures(&self) -> (n: u32)
        ensures
            n == self@.failures,
    {
        self.consecutive_failures
    }

    /// The threshold this breaker was built with.
    pub fn crit_threshold(&self) -> (n: u32)
        ensures
            n == self@.threshold,
    {
        self.crit_threshold
    }

    pub fn is_open(&self) -> (b: bool)
        ensures
            b == (self@.state == BreakerState::Open),
    {
        self.state == BreakerState::Open
    }

    /// A success closes the breaker and forgets every earlier failure.
    pub fn record_success(&mut self)
        ensures
            final(self)@.failures == 0,
            final(self)@.state == BreakerState::Closed,
            final(self)@.threshold == old(self)@.threshold,
            final(self)@.base_secs == old(self)@.base_secs,
            final(self)@.max_secs == old(self)@.max_secs,
    {
        self.consecutive_failures = 0;
        self.state = BreakerState::Closed;
    }

    /// A failure opens the breaker and counts one more consecutive failure (saturating).
    pub fn record_failure(&mut self)
        ensures
            final(self)@.failures == saturating_succ(old(self)@.failures),
            final(self)@.state == BreakerState::Open,
            final(self)@.threshold == old(self)@.threshold,
            final(self)@.base_secs == old(self)@.base_secs,
            final(self)@.max_secs == old(self)@.max_secs,
    {
        self.consecutive_failures = self.consecutive_failures.saturating_add(1);
        self.state = BreakerState::Open;
    }

    /// Opens the breaker without counting a failure (a target unavailable at boot).
    pub fn trip_open(&mut self)
        ensures
            final(self)@.failures == old(self)@.failures,
            final(self)@.state == BreakerState::Open,
            final(self)@.threshold == old(self)@.threshold,
            final(self)@.base_secs == old(self)@.base_secs,
            final(self)@.max_secs == old(self)@.max_secs,
    {
        self.state = BreakerState::Open;
    }

    /// The current backoff in whole seconds.
    pub fn backoff_secs(&self) -> (s: u64)
        ensures
            s == backoff_of(self@),
    {
        if self.consecutive_failures == 0 {
            return self.base_backoff_secs;
        }
        let capped: u32 = if self.consecutive_failures < 16 { self.consecutive_failures } else { 16 };
        let shift: u64 = (capped - 1) as u64;
        proof {
            lemma2_to64();
            lemma_pow2_strictly_increases(shift as nat, 16);
            lemma_u64_shl_is_mul(1, shift);
        }
        let factor: u64 = 1u64 << shift;
        let scaled: u64 = match self.base_backoff_secs.checked_mul(factor) {
            Some(v) => v,
            None => u64::MAX,
        };
        if scaled < self.max_backoff_secs {
            scaled
        } else {
            self.max_backoff_secs
        }
    }

    /// The current backoff: `base * 2^(failures - 1)` seconds, saturated at the ceiling.
    pub fn backoff(&self) -> (d: Duration)
        ensures
            d == duration_of_secs(backoff_of(self@) as u64),
    {
        duration_from_secs(self.backoff_secs())
    }
}

/// Action the supervisor must take after a failure, given the criticality.
#[derive(Debug, Clone, Copy, PartialEq, Eq, Structural)]
pub enum FailureAction {
    /// Log and continue (Optional, or a transient Critical failure).
    Degrade,
    /// Persistent critical failure: terminate the process with a non-zero exit.
    Fatal,
}

/// The central critical-vs-optional rule over a breaker's model.
pub open spec fn failure_action_of(criticality: Criticality, m: BreakerModel) -> FailureAction {
    match criticality {
        Criticality::Optional => FailureAction::Degrade,
        Criticality::Critical => if m.failures >= m.threshold {
            FailureAction::Fatal
        } else {
            FailureAction::Degrade
        },
    }
}

/// Critical is fatal only once the consecutive failures reach the threshold; Optional
/// never brings the process down.
pub fn classify_failure(criticality: Criticality, breaker: &CircuitBreaker) -> (a: FailureAction)
    ensures
        a == failure_action_of(criticality, breaker@),
{
    match criticality {
        Criticality::Optional => FailureAction::Degrade,
        Criticality::Critical => {
            if breaker.consecutive_failures() >= breaker.crit_threshold() {
                FailureAction::Fatal
            } else {
                FailureAction::Degrade
            }
        },
    }
}

/// The failure count after `k` more consecutive failures, starting from `n`.
pub open spec fn failures_after(n: u32, k: nat) -> u32
    decreases k,
{
    if k == 0 {
        n
    } else {
        saturating_succ(failures_after(n, (k - 1) as nat))
    }
}

/// Starting from zero, `k` consecutive failures are counted exactly until the counter
/// saturates at `u32::MAX`.
pub proof fn law_failures_count_exactly(k: nat)
    ensures
        failures_after(0, k) == min_int(k as int, u32::MAX as int),
    decreases k,
{
    if k > 0 {
        law_failures_count_exactly((k - 1) as nat);
    }
}

/// An Optional source never brings the process down, whatever its breaker holds.
pub proof fn law_optional_never_fatal(m: BreakerModel)
    ensures
        failure_action_of(Criticality::Optional, m) == FailureAction::Degrade,
{
}

/// A Critical source tolerates transient failures: starting from a fresh breaker, `k`
/// consecutive failures are fatal exactly when `k` reaches the threshold.
pub proof fn law_critical_fatal_at_threshold(m: BreakerModel, k: nat)
    requires
        m.failures == 0,
        k <= u32::MAX,
    ensures
        failure_action_of(Criticality::Critical, BreakerModel { failures: failures_after(0, k), ..m })
            == (if k >= m.threshold { FailureAction::Fatal } else { FailureAction::Degrade }),
{
    law_failures_count_exactly(k);
}

/// After a success, a Critical source with a positive threshold only degrades on its
/// next failure.
pub proof fn law_success_forgives(m: BreakerModel)
    requires
        m.threshold > 1,
    ensures
        failure_action_of(
            Criticality::Critical,
            BreakerModel { failures: saturating_succ(0), state: BreakerState::Open, ..m },
        ) == FailureAction::Degrade,
{
}

/// The backoff never drops below the base nor exceeds the ceiling.
pub proof fn law_backoff_bounded(failures: u32, base: u64, max: u64)
    requires
        base <= max,
    ensures
        base <= backoff_secs_of(failures, base, max) <= max,
{
    if failures > 0 {
        let k = (min_int(failures as int, 16) - 1) as nat;
        vstd::arithmetic::power2::lemma_pow2_pos(k);
        vstd::arithmetic::mul::lemma_mul_inequality(1, pow2(k) as int, base as int);
        vstd::arithmetic::mul::lemma_mul_is_commutative(base as int, pow2(k) as int);
    }
}

/// More consecutive failures never shorten the backoff.
pub proof fn law_backoff_monotone(f1: u32, f2: u32, base: u64, max: u64)
    requires
        f1 <= f2,
        base <= max,
    ensures
        backoff_secs_of(f1, base, max) <= backoff_secs_of(f2, base, max),
{
    law_backoff_bounded(f2, base, max);
    if f1 > 0 {
        let k1 = (min_int(f1 as int, 16) - 1) as nat;
        let k2 = (min_int(f2 as int, 16) - 1) as nat;
        if k1 < k2 {
            lemma_pow2_strictly_increases(k1, k2);
        }
        vstd::arithmetic::mul::lemma_mul_inequality(pow2(k1) as int, pow2(k2) as int, base as int);
        vstd::arithmetic::mul::lemma_mul_is_commutative(base as int, pow2(k1) as int);
        vstd::arithmetic::mul::lemma_mul_is_commutative(base as int, pow2(k2) as int);
    }
}

/// With the default 1 s base and 60 s ceiling the backoff doubles per failure, and from
/// the seventh consecutive failure on it stays at the ceiling.
pub proof fn law_default_backoff_doubles_then_saturates(failures: u32)
    ensures
        1 <= failures <= 6 ==> backoff_secs_of(failures, 1, 60) == pow2((failures - 1) as nat),
        failures >= 7 ==> backoff_secs_of(failures, 1, 60) == 60,
{
    lemma2_to64();
    if failures >= 7 {
        let k = (min_int(failures as int, 16) - 1) as nat;
        if k > 6 {
            lemma_pow2_strictly_increases(6, k);
        }
    }
}

} // verus!
