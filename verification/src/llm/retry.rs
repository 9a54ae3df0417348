//! Retry policy for LLM calls: which errors are transient and how long to
//! wait before the next attempt (exponential backoff with deterministic
//! jitter). Delays are in milliseconds.
use vstd::prelude::*;
use vstd::string::StringSliceAdditionalSpecFns;

use crate::error::KernelError;

verus! {

/// Configuration for retry behavior.
#[derive(Debug, Clone, Copy, PartialEq, Eq, Structural)]
pub struct RetryConfig {
    /// Maximum number of retry attempts (0 = no retry).
    pub max_retries: u32,
    /// Base delay for exponential backoff, in milliseconds.
    pub base_delay_ms: u64,
}

impl Default for RetryConfig {
    fn default() -> (c: RetryConfig)
        ensures
            c.max_retries == 3,
            c.base_delay_ms == 1000,
    {
        RetryConfig { max_retries: 3, base_delay_ms: 1000 }
    }
}

/// A client wrapper that retries on transient errors.
pub struct RetryClient<C> {
    inner: C,
    config: RetryConfig,
}

impl<C> RetryClient<C> {
    /// The wrapped client.
    pub closed spec fn inner_spec(&self) -> C {
        self.inner
    }

    /// The retry configuration.
    pub closed spec fn config_spec(&self) -> RetryConfig {
        self.config
    }

    /// Wrap a client with retry behavior.
    pub fn new(inner: C, config: RetryConfig) -> (r: RetryClient<C>)
        ensures
            r.inner_spec() == inner,
            r.config_spec() == config,
    {
        RetryClient { inner, config }
    }

    /// Access the underlying client.
    pub fn inner(&self) -> (c: &C)
        ensures
            *c == self.inner_spec(),
    {
        &self.inner
    }

    /// The retry configuration.
    pub fn config(&self) -> (c: RetryConfig)
        ensures
            c == self.config_spec(),
    {
        self.config
    }
}

/// `"HTTP 5..."`: the message of an HTTP 5xx error.
pub open spec fn server_error_text(b: Seq<u8>) -> bool {
    b.len() > 5 && b[0] == 72 && b[1] == 84 && b[2] == 84 && b[3] == 80 && b[4] == 32 && b[5]
        == 53
}

/// Backoff before retry number `attempt` (0-based) with base delay `base`:
/// `base * 2^min(attempt, 6)` (saturating), capped at 60 000 ms, then scaled
/// by a jitter factor in `[0.5, 1.5)` drawn from a multiplicative hash of
/// the attempt number.
pub open spec fn backoff_ms(attempt: int, base: int) -> int {
    let shift = if attempt < 6 {
        attempt
    } else {
        6
    };
    let exp = base * vstd::arithmetic::power2::pow2(shift as nat);
    let sat = if exp > u64::MAX {
        u64::MAX as int
    } else {
        exp
    };
    let capped = if sat < 60000 {
        sat
    } else {
        60000
    };
    let jitter = (attempt * 2654435769) % 1000;
    capped * (500 + jitter) / 1000
}

/// The delay before retrying after `err`: the larger of the server's
/// `retry-after` hint (saturated to `u64` milliseconds) and the backoff for
/// a rate limit, the backoff for an HTTP 5xx API error, nothing otherwise.
pub open spec fn retry_delay_spec(err: KernelError, attempt: int, base: int) -> Option<int> {
    match err {
        KernelError::RateLimited(secs) => {
            let hint = if secs * 1000 > u64::MAX {
                u64::MAX as int
            } else {
                secs * 1000
            };
            let b = backoff_ms(attempt, base);
            Some(if hint >= b {
                hint
            } else {
                b
            })
        },
        KernelError::LlmApi(msg) => if server_error_text(vstd::utf8::encode_utf8(msg@)) {
            Some(backoff_ms(attempt, base))
        } else {
            None
        },
        _ => None,
    }
}

/// `a * b`, saturated at `u64::MAX`.
fn sat_mul(a: u64, b: u64) -> (r: u64)
    ensures
        r as int == if a * b > u64::MAX {
            u64::MAX as int
        } else {
            a * b
        },
{
    match a.checked_mul(b) {
        Some(v) => v,
        None => u64::MAX,
    }
}

/// Check if an API error message indicates a server error (`"HTTP 5xx: ..."`).
pub fn is_server_error(msg: &str) -> (b: bool)
    ensures
        b == server_error_text(msg.spec_bytes()),
{
    let b = msg.as_bytes();
    b.len() > 5 && b[0] == 72u8 && b[1] == 84u8 && b[2] == 84u8 && b[3] == 80u8 && b[4] == 32u8
        && b[5] == 53u8
}

/// Exponential backoff with jitter, in milliseconds.
pub fn backoff_with_jitter(attempt: u32, base_delay_ms: u64) -> (ms: u64)
    ensures
        ms as int == backoff_ms(attempt as int, base_delay_ms as int),
        ms <= 89940,
{
    let shift: u32 = if attempt < 6 {
        attempt
    } else {
        6
    };
    let factor: u64 = 1u64 << shift;
    proof {
        vstd::arithmetic::power2::lemma2_to64();
        assert(factor == vstd::arithmetic::power2::pow2(shift as nat)) by {
            vstd::bits::lemma_u64_shl_is_mul(1, shift as u64);
        }
    }
    let exp: u64 = sat_mul(base_delay_ms, factor);
    let capped: u64 = if exp < 60000 {
        exp
    } else {
        60000
    };
    let jitter: u64 = (attempt as u64 * 2654435769u64) % 1000;
    assert(capped * (500 + jitter) <= 60000 * 1499) by (nonlinear_arith)
        requires
            capped <= 60000,
            jitter < 1000,
    ;
    let r = capped * (500 + jitter) / 1000;
    assert(r <= 89940);
    r
}

/// Whether `err` is worth retrying, and after how many milliseconds.
pub fn retry_delay(err: &KernelError, attempt: u32, base_delay_ms: u64) -> (d: Option<u64>)
    ensures
        err is RateLimited ==> (d is Some && d->0 >= backoff_ms(
            attempt as int,
            base_delay_ms as int,
        ) && d->0 >= (if err->RateLimited_0 * 1000 > u64::MAX {
            u64::MAX as int
        } else {
            err->RateLimited_0 * 1000
        })),
        match d {
            Some(ms) => retry_delay_spec(*err, attempt as int, base_delay_ms as int) == Some(
                ms as int,
            ),
            None => retry_delay_spec(*err, attempt as int, base_delay_ms as int) is None,
        },
{
    match err {
        KernelError::RateLimited(secs) => {
            let hint = sat_mul(*secs, 1000);
            let b = backoff_with_jitter(attempt, base_delay_ms);
            Some(
                if hint >= b {
                    hint
                } else {
                    b
                },
            )
        },
        KernelError::LlmApi(msg) => {
            if is_server_error(msg.as_str()) {
                Some(backoff_with_jitter(attempt, base_delay_ms))
            } else {
                None
            }
        },
        _ => None,
    }
}

/// After attempt number `attempt` (0-based) failed with `err`: the delay
/// before trying again, or `None` to give up and return `err` (retries
/// exhausted, or the error is not transient).
pub fn next_retry_delay(config: &RetryConfig, attempt: u32, err: &KernelError) -> (d: Option<u64>)
    ensures
        attempt >= config.max_retries ==> d is None,
        attempt < config.max_retries ==> match d {
            Some(ms) => retry_delay_spec(*err, attempt as int, config.base_delay_ms as int)
                == Some(ms as int),
            None => retry_delay_spec(*err, attempt as int, config.base_delay_ms as int) is None,
        },
{
    if attempt >= config.max_retries {
        return None;
    }
    retry_delay(err, attempt, config.base_delay_ms)
}

/// A rate-limited call is retried after the larger of the backoff and the
/// server's `retry-after` hint: the delay is at least the backoff for the
/// attempt, at least the hint in milliseconds (saturated to `u64`), and one
/// of the two. Exactly the other transient errors (HTTP 5xx API errors) are
/// retried after the backoff alone.
pub proof fn lemma_rate_limit_waits_for_both(secs: u64, attempt: int, base: int)
    ensures
        retry_delay_spec(KernelError::RateLimited(secs), attempt, base) is Some,
        retry_delay_spec(KernelError::RateLimited(secs), attempt, base)->0 >= backoff_ms(
            attempt,
            base,
        ),
        retry_delay_spec(KernelError::RateLimited(secs), attempt, base)->0 >= if secs * 1000
            > u64::MAX {
            u64::MAX as int
        } else {
            secs * 1000
        },
        retry_delay_spec(KernelError::RateLimited(secs), attempt, base)->0 == backoff_ms(
            attempt,
            base,
        ) || retry_delay_spec(KernelError::RateLimited(secs), attempt, base)->0 == if secs * 1000
            > u64::MAX {
            u64::MAX as int
        } else {
            secs * 1000
        },
{
}

/// The backoff before retry `attempt` is the exponential delay
/// `base * 2^min(attempt, 6)`, capped at 60 000 ms, scaled by a jitter factor
/// between one half (inclusive) and three halves (exclusive).
pub proof fn lemma_backoff_within_jitter_band(attempt: int, base: int)
    requires
        attempt >= 0,
        base >= 0,
    ensures
        ({
            let e = base * vstd::arithmetic::power2::pow2(
                (if attempt < 6 {
                    attempt
                } else {
                    6
                }) as nat,
            );
            let capped = if e < 60000 {
                e
            } else {
                60000
            };
            &&& 2 * backoff_ms(attempt, base) + 2 > capped
            &&& 2 * backoff_ms(attempt, base) < 3 * capped || capped == 0
            &&& backoff_ms(attempt, base) <= 89940
        }),
{
    let shift = if attempt < 6 {
        attempt
    } else {
        6
    };
    let p = vstd::arithmetic::power2::pow2(shift as nat);
    vstd::arithmetic::power2::lemma_pow2_pos(shift as nat);
    let e = base * p;
    assert(e >= 0) by (nonlinear_arith)
        requires
            base >= 0,
            p > 0,
            e == base * p,
    ;
    let sat = if e > u64::MAX {
        u64::MAX as int
    } else {
        e
    };
    let capped = if sat < 60000 {
        sat
    } else {
        60000
    };
    assert(capped == if e < 60000 {
        e
    } else {
        60000
    });
    let jitter = (attempt * 2654435769) % 1000;
    assert(0 <= jitter < 1000);
    let r = capped * (500 + jitter) / 1000;
    assert(r == backoff_ms(attempt, base));
    assert(2 * r + 2 > capped && (2 * r < 3 * capped || capped == 0) && r <= 89940)
        by (nonlinear_arith)
        requires
            0 <= capped <= 60000,
            0 <= jitter < 1000,
            r == capped * (500 + jitter) / 1000,
    ;
}

} // verus!
