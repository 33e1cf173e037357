use crate::text::{decimal, decimal_string};
use crate::types::NodeId;
use vstd::prelude::*;
use vstd::string::*;

verus! {

/// The largest duration that `std::time::Duration` can hold, in
/// nanoseconds: `u64::MAX` seconds and 999 999 999 nanoseconds.
pub const DURATION_MAX_NANOS: u128 = 18_446_744_073_709_551_615_999_999_999;

/// How long a sender waits before it tries again. Durations are in
/// nanoseconds.
#[derive(Debug, Clone, Copy, PartialEq, Eq, Structural)]
pub enum RetryStrategy {
    Static { delay: u128 },
    Exponential { base: u128, max: u128 },
}

/// 2 to the power `n`.
pub open spec fn two_pow(n: nat) -> nat
    decreases n,
{
    if n == 0 {
        1
    } else {
        2 * two_pow((n - 1) as nat)
    }
}

impl RetryStrategy {
    /// Whether the delay after `attempts` attempts can be computed: always
    /// for a static delay; for an exponential one, when `2^attempts` fits in
    /// a `u32` and `base * 2^attempts` fits in a duration.
    pub open spec fn delay_defined(self, attempts: u32) -> bool {
        match self {
            RetryStrategy::Static { .. } => true,
            RetryStrategy::Exponential { base, .. } => attempts < 32 && base * two_pow(
                attempts as nat,
            ) <= DURATION_MAX_NANOS,
        }
    }

    /// The delay after `attempts` attempts: the static delay, or
    /// `base * 2^attempts` capped at `max`.
    pub open spec fn delay(self, attempts: u32) -> int {
        match self {
            RetryStrategy::Static { delay } => delay as int,
            RetryStrategy::Exponential { base, max } => {
                let d = base * two_pow(attempts as nat);
                if d <= max {
                    d
                } else {
                    max as int
                }
            },
        }
    }

    /// The delay before the next try after `attempts` attempts.
    pub fn calculate_retry_delay(&self, attempts: u32) -> (d: u128)
        requires
            self.delay_defined(attempts),
        ensures
            d == self.delay(attempts),
    {
        match self {
            RetryStrategy::Static { delay } => *delay,
            RetryStrategy::Exponential { base, max } => {
                let mut p: u128 = 1;
                let mut i: u32 = 0;
                while i < attempts
                    invariant
                        i <= attempts < 32,
                        p == two_pow(i as nat),
                        1 <= p <= 0x8000_0000,
                    decreases attempts - i,
                {
                    proof {
                        lemma_two_pow_bound(i as nat);
                    }
                    p = p * 2;
                    i = i + 1;
                }
                assert(*base * p <= DURATION_MAX_NANOS);
                let delay = *base * p;
                if delay <= *max {
                    delay
                } else {
                    *max
                }
            },
        }
    }

    /// The delay after `attempts` attempts, or `None` where computing it
    /// overflows.
    pub fn checked_retry_delay(&self, attempts: u32) -> (d: Option<u128>)
        ensures
            match d {
                Some(v) => self.delay_defined(attempts) && v == self.delay(attempts),
                None => !self.delay_defined(attempts),
            },
    {
        match self {
            RetryStrategy::Static { .. } => Some(self.calculate_retry_delay(attempts)),
            RetryStrategy::Exponential { base, .. } => {
                if attempts >= 32 {
                    return None;
                }
                let mut p: u128 = 1;
                let mut i: u32 = 0;
                while i < attempts
                    invariant
                        i <= attempts < 32,
                        p == two_pow(i as nat),
                        1 <= p <= 0x8000_0000,
                    decreases attempts - i,
                {
                    proof {
                        lemma_two_pow_bound(i as nat);
                    }
                    p = p * 2;
                    i = i + 1;
                }
                if *base > DURATION_MAX_NANOS / p {
                    proof {
                        lemma_div_bound(*base as int, p as int, DURATION_MAX_NANOS as int);
                    }
                    return None;
                }
                proof {
                    lemma_div_bound(*base as int, p as int, DURATION_MAX_NANOS as int);
                }
                Some(self.calculate_retry_delay(attempts))
            },
        }
    }

    /// The step of a sender's retry loop after its try number
    /// `attempts + 1` failed: the count of attempts made, and the delay to
    /// wait before the next try, or `None` when `retry_count` tries are
    /// spent.
    pub fn after_failed_attempt(&self, attempts: u32, retry_count: u32) -> (r: (u32, Option<u128>))
        requires
            attempts < retry_count,
            attempts + 1 < retry_count ==> self.delay_defined((attempts + 1) as u32),
        ensures
            r.0 == attempts + 1,
            r.1 == (if attempts + 1 < retry_count {
                Some(self.delay((attempts + 1) as u32) as u128)
            } else {
                None::<u128>
            }),
    {
        let next = attempts + 1;
        if next < retry_count {
            (next, Some(self.calculate_retry_delay(next)))
        } else {
            (next, None)
        }
    }
}

proof fn lemma_two_pow_bound(n: nat)
    requires
        n < 31,
    ensures
        1 <= two_pow(n) <= 0x4000_0000,
{
    lemma_two_pow_monotone(n, 30);
    lemma_two_pow_30();
}

proof fn lemma_two_pow_30()
    ensures
        two_pow(30) == 0x4000_0000,
{
    reveal_with_fuel(two_pow, 31);
}

proof fn lemma_two_pow_monotone(a: nat, b: nat)
    requires
        a <= b,
    ensures
        1 <= two_pow(a) <= two_pow(b),
    decreases b,
{
    if b > a {
        lemma_two_pow_monotone(a, (b - 1) as nat);
    } else if a > 0 {
        lemma_two_pow_monotone((a - 1) as nat, (a - 1) as nat);
    }
}

proof fn lemma_div_bound(a: int, p: int, m: int)
    requires
        p > 0,
        a >= 0,
        m >= 0,
    ensures
        a > m / p <==> a * p > m,
{
    assert(a > m / p <==> a * p > m) by (nonlinear_arith)
        requires
            p > 0,
            a >= 0,
            m >= 0,
    ;
}

/// A static strategy waits the same after any number of attempts.
pub proof fn lemma_static_delay_constant(s: RetryStrategy, a: u32, b: u32)
    requires
        s is Static,
    ensures
        s.delay(a) == s.delay(b),
{
}

/// An exponential strategy never waits longer than its cap, and waits no
/// less after more attempts.
pub proof fn lemma_exponential_delay_capped_and_growing(s: RetryStrategy, a: u32, b: u32)
    requires
        s is Exponential,
        a <= b,
    ensures
        s.delay(a) <= s->max,
        s.delay(a) <= s.delay(b),
{
    lemma_two_pow_monotone(a as nat, b as nat);
    let base = s->base;
    assert(base * two_pow(a as nat) <= base * two_pow(b as nat)) by (nonlinear_arith)
        requires
            two_pow(a as nat) <= two_pow(b as nat),
    ;
}

/// An exponential strategy first waits its base (capped), and doubles the
/// wait after each attempt for as long as the cap is not reached.
pub proof fn lemma_exponential_delay_doubles(s: RetryStrategy, a: u32)
    requires
        s is Exponential,
        a < u32::MAX,
    ensures
        s.delay(0) == if s->base <= s->max {
            s->base as int
        } else {
            s->max as int
        },
        s->base * two_pow((a + 1) as nat) <= s->max ==> s.delay((a + 1) as u32) == 2 * s.delay(a),
        s->base * two_pow((a + 1) as nat) > s->max ==> s.delay((a + 1) as u32) == s->max,
{
    lemma_two_pow_monotone(a as nat, (a + 1) as nat);
    let base = s->base;
    assert(two_pow(0) == 1);
    assert(base * two_pow((a + 1) as nat) == 2 * (base * two_pow(a as nat))) by (nonlinear_arith)
        requires
            two_pow((a + 1) as nat) == 2 * two_pow(a as nat),
    ;
    assert(base * two_pow(a as nat) <= base * two_pow((a + 1) as nat)) by (nonlinear_arith)
        requires
            two_pow(a as nat) <= two_pow((a + 1) as nat),
    ;
}

/// The error text of a send that has used up its retries.
pub open spec fn retries_exhausted_text(node_id: NodeId) -> Seq<char> {
    "Failed to send message to "@ + decimal(node_id as nat) + ": Max retry attempts reached"@
}

/// The error that a send to `node_id` gives once its retries are spent.
pub fn retries_exhausted(node_id: NodeId) -> (e: String)
    ensures
        e@ == retries_exhausted_text(node_id),
{
    proof {
        reveal_strlit("Failed to send message to ");
        reveal_strlit(": Max retry attempts reached");
    }
    let mut e = String::from_str("Failed to send message to ");
    let digits = decimal_string(node_id);
    e.append(digits.as_str());
    e.append(": Max retry attempts reached");
    e
}

} // verus!
