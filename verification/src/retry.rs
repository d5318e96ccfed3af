//! Retry and timeout policy for provider HTTP requests, and the decision
//! taken after each attempt.
use vstd::prelude::*;

use crate::text::{chars_of, parse_u64, parse_u64_spec, string_of, trim, trim_bounds};
use crate::time::{TimeSpan, MAX_SPAN_NANOS, NANOS_PER_MILLI, NANOS_PER_SEC};

verus! {

/// Default number of retries after a safely retryable HTTP request fails.
pub const DEFAULT_MAX_RETRIES: usize = 10;

/// Default deadline, in seconds, for connecting and receiving HTTP response
/// headers.
pub const DEFAULT_REQUEST_TIMEOUT_SECS: u64 = 30;

/// Default maximum idle time, in seconds, between complete events on an
/// established stream.
pub const DEFAULT_STREAM_IDLE_TIMEOUT_SECS: u64 = 120;

pub const DEFAULT_INITIAL_BACKOFF_MILLIS: u64 = 200;

pub const DEFAULT_MAX_BACKOFF_SECS: u64 = 10;

pub const DEFAULT_RATE_LIMIT_BACKOFF_SECS: u64 = 1;

/// The largest exponent of the exponential backoff multiplier.
pub const MAX_BACKOFF_SHIFT: usize = 31;

/// Retry and timeout policy shared by all HTTP providers.
///
/// `max_retries` counts retries after the initial request, so a value of `10`
/// permits at most eleven attempts for failures that are safe to retry.
#[derive(Clone, Copy, Debug, PartialEq, Eq)]
pub struct RetryConfig {
    max_retries: usize,
    request_timeout: TimeSpan,
    stream_idle_timeout: Option<TimeSpan>,
    initial_backoff: TimeSpan,
    max_backoff: TimeSpan,
    rate_limit_backoff: TimeSpan,
}

/// The settings of a [`RetryConfig`].
pub struct RetryConfigView {
    pub max_retries: usize,
    pub request_timeout: TimeSpan,
    pub stream_idle_timeout: Option<TimeSpan>,
    pub initial_backoff: TimeSpan,
    pub max_backoff: TimeSpan,
    pub rate_limit_backoff: TimeSpan,
}

impl View for RetryConfig {
    type V = RetryConfigView;

    closed spec fn view(&self) -> RetryConfigView {
        RetryConfigView {
            max_retries: self.max_retries,
            request_timeout: self.request_timeout,
            stream_idle_timeout: self.stream_idle_timeout,
            initial_backoff: self.initial_backoff,
            max_backoff: self.max_backoff,
            rate_limit_backoff: self.rate_limit_backoff,
        }
    }
}

/// `2^n`.
pub open spec fn pow2(n: nat) -> nat
    decreases n,
{
    if n == 0 {
        1
    } else {
        2 * pow2((n - 1) as nat)
    }
}

proof fn lemma_pow2_monotone(a: nat, b: nat)
    requires
        a <= b,
    ensures
        pow2(a) <= pow2(b),
    decreases b,
{
    if a < b {
        lemma_pow2_monotone(a, (b - 1) as nat);
    }
}

pub open spec fn min_nat(a: nat, b: nat) -> nat {
    if a <= b {
        a
    } else {
        b
    }
}

/// The cap of the `retry_index`-th exponential delay, in nanoseconds:
/// `initial * 2^min(retry_index, 31)`, saturated at the largest span and
/// capped by `max`.
pub open spec fn backoff_bound(initial: nat, max: nat, retry_index: nat) -> nat {
    let shift = min_nat(retry_index, MAX_BACKOFF_SHIFT as nat);
    min_nat(min_nat(initial * pow2(shift), MAX_SPAN_NANOS as nat), max)
}

/// The whole milliseconds of a span of `nanos`, saturated at `u64::MAX`.
pub open spec fn saturated_millis(nanos: nat) -> nat {
    min_nat(nanos / (NANOS_PER_MILLI as nat), u64::MAX as nat)
}

/// `r` (in nanoseconds) is an equal-jitter delay drawn under `bound`: the
/// bound itself when it holds at most one millisecond, otherwise a whole
/// number of milliseconds between half the bound and the bound.
pub open spec fn is_equal_jitter(bound: nat, r: nat) -> bool {
    let m = saturated_millis(bound);
    if m <= 1 {
        r == bound
    } else {
        &&& r % (NANOS_PER_MILLI as nat) == 0
        &&& m / 2 <= r / (NANOS_PER_MILLI as nat) <= m
    }
}

/// How a failed HTTP status is retried.
#[derive(Clone, Copy, Debug, PartialEq, Eq, Structural)]
pub enum RetryKind {
    Never,
    Exponential,
    RateLimit,
}

/// The retry kind of an HTTP status: `429` waits for the rate limit;
/// `408`, `409`, `425` and the server errors other than `501` and `505` back
/// off exponentially; everything else is not retried.
pub open spec fn retry_kind_spec(status: u16) -> RetryKind {
    if status == 429 {
        RetryKind::RateLimit
    } else if status == 408 || status == 409 || status == 425 || (500 <= status <= 599 && status
        != 501 && status != 505) {
        RetryKind::Exponential
    } else {
        RetryKind::Never
    }
}

/// Server errors are retried with backoff: every status of `500..=599`
/// but `501` and `505` backs off exponentially. Only `429` waits for the
/// rate limit; successes, redirects, and client errors other than `408`,
/// `409`, `425` and `429` are never retried, and neither are `501` and `505`.
pub proof fn lemma_server_errors_are_retried(status: u16)
    ensures
        500 <= status <= 599 && status != 501 && status != 505 ==> retry_kind_spec(status)
            == RetryKind::Exponential,
        (status == 408 || status == 409 || status == 425) ==> retry_kind_spec(status)
            == RetryKind::Exponential,
        retry_kind_spec(status) == RetryKind::RateLimit <==> status == 429,
        (status < 400 || (400 <= status <= 499 && status != 408 && status != 409 && status != 425
            && status != 429) || status == 501 || status == 505 || status >= 600)
            ==> retry_kind_spec(status) == RetryKind::Never,
{
}

/// Classifies an HTTP status for retrying.
pub fn retry_kind(status: u16) -> (r: RetryKind)
    ensures
        r == retry_kind_spec(status),
{
    if status == 429 {
        return RetryKind::RateLimit;
    }
    if status == 408 || status == 409 || status == 425 || (500 <= status && status <= 599
        && status != 501 && status != 505) {
        return RetryKind::Exponential;
    }
    RetryKind::Never
}

/// A uniformly random integer of `low..=high` (`fastrand::u64`).
#[verifier::external_body]
pub(crate) fn random_u64_inclusive(low: u64, high: u64) -> (r: u64)
    requires
        low <= high,
    ensures
        low <= r <= high,
{
    fastrand::u64(low..=high)
}

/// Keeps half of the exponential delay and randomizes the other half, so
/// that delays keep growing while retries of many clients spread out.
pub fn equal_jitter(upper_bound: TimeSpan) -> (r: TimeSpan)
    ensures
        is_equal_jitter(upper_bound.spec_nanos(), r.spec_nanos()),
{
    let whole = upper_bound.as_millis();
    let millis: u64 = if whole > u64::MAX as u128 {
        u64::MAX
    } else {
        whole as u64
    };
    if millis <= 1 {
        return upper_bound;
    }
    let picked = random_u64_inclusive(millis / 2, millis);
    let r = TimeSpan::from_millis(picked);
    assert(((picked as nat) * (NANOS_PER_MILLI as nat)) / (NANOS_PER_MILLI as nat) == picked)
        by (nonlinear_arith);
    assert(((picked as nat) * (NANOS_PER_MILLI as nat)) % (NANOS_PER_MILLI as nat) == 0)
        by (nonlinear_arith);
    r
}

impl RetryConfig {
    pub open spec fn spec_max_retries(&self) -> nat {
        self@.max_retries as nat
    }

    pub open spec fn spec_request_timeout(&self) -> TimeSpan {
        self@.request_timeout
    }

    pub open spec fn spec_stream_idle_timeout(&self) -> Option<TimeSpan> {
        self@.stream_idle_timeout
    }

    pub open spec fn spec_initial_backoff(&self) -> TimeSpan {
        self@.initial_backoff
    }

    pub open spec fn spec_max_backoff(&self) -> TimeSpan {
        self@.max_backoff
    }

    pub open spec fn spec_rate_limit_backoff(&self) -> TimeSpan {
        self@.rate_limit_backoff
    }

    /// The cap of the delay before retry number `retry_index + 1`.
    pub open spec fn spec_backoff_bound(&self, retry_index: nat) -> nat {
        backoff_bound(
            self.spec_initial_backoff().spec_nanos(),
            self.spec_max_backoff().spec_nanos(),
            retry_index,
        )
    }

    /// The delay before a rate-limited retry, in nanoseconds.
    pub open spec fn spec_rate_limit_delay(&self, retry_after: Option<TimeSpan>) -> nat {
        let wanted = match retry_after {
            Some(d) => d.spec_nanos(),
            None => self.spec_rate_limit_backoff().spec_nanos(),
        };
        min_nat(wanted, self.spec_max_backoff().spec_nanos())
    }

    pub fn max_retries(&self) -> (r: usize)
        ensures
            r == self.spec_max_retries(),
    {
        self.max_retries
    }

    pub fn request_timeout(&self) -> (r: TimeSpan)
        ensures
            r == self.spec_request_timeout(),
    {
        self.request_timeout
    }

    /// The maximum time allowed between complete server-sent events; `None`
    /// disables the established-stream idle deadline.
    pub fn stream_idle_timeout(&self) -> (r: Option<TimeSpan>)
        ensures
            r == self.spec_stream_idle_timeout(),
    {
        self.stream_idle_timeout
    }

    pub fn initial_backoff(&self) -> (r: TimeSpan)
        ensures
            r == self.spec_initial_backoff(),
    {
        self.initial_backoff
    }

    pub fn max_backoff(&self) -> (r: TimeSpan)
        ensures
            r == self.spec_max_backoff(),
    {
        self.max_backoff
    }

    pub fn rate_limit_backoff(&self) -> (r: TimeSpan)
        ensures
            r == self.spec_rate_limit_backoff(),
    {
        self.rate_limit_backoff
    }

    pub fn with_max_retries(self, max_retries: usize) -> (r: Self)
        ensures
            r@ == (RetryConfigView { max_retries, ..self@ }),
            r.spec_max_retries() == max_retries,
    {
        RetryConfig { max_retries, ..self }
    }

    /// Sets the deadline for connecting and receiving HTTP response headers.
    pub fn with_request_timeout(self, request_timeout: TimeSpan) -> (r: Self)
        ensures
            r@ == (RetryConfigView { request_timeout, ..self@ }),
            r.spec_request_timeout() == request_timeout,
    {
        RetryConfig { request_timeout, ..self }
    }

    /// Sets the maximum wait for the next complete event once response
    /// headers have arrived.
    pub fn with_stream_idle_timeout(self, stream_idle_timeout: TimeSpan) -> (r: Self)
        ensures
            r@ == (RetryConfigView { stream_idle_timeout: Some(stream_idle_timeout), ..self@ }),
            r.spec_stream_idle_timeout() == Some(stream_idle_timeout),
    {
        RetryConfig { stream_idle_timeout: Some(stream_idle_timeout), ..self }
    }

    /// Disables the established-stream idle deadline.
    pub fn without_stream_idle_timeout(self) -> (r: Self)
        ensures
            r@ == (RetryConfigView { stream_idle_timeout: None, ..self@ }),
            r.spec_stream_idle_timeout() is None,
    {
        RetryConfig { stream_idle_timeout: None, ..self }
    }

    pub fn with_initial_backoff(self, initial_backoff: TimeSpan) -> (r: Self)
        ensures
            r@ == (RetryConfigView { initial_backoff, ..self@ }),
            r.spec_initial_backoff() == initial_backoff,
    {
        RetryConfig { initial_backoff, ..self }
    }

    pub fn with_max_backoff(self, max_backoff: TimeSpan) -> (r: Self)
        ensures
            r@ == (RetryConfigView { max_backoff, ..self@ }),
            r.spec_max_backoff() == max_backoff,
    {
        RetryConfig { max_backoff, ..self }
    }

    /// Sets the fixed fallback delay used for HTTP 429 without `Retry-After`.
    pub fn with_rate_limit_backoff(self, rate_limit_backoff: TimeSpan) -> (r: Self)
        ensures
            r@ == (RetryConfigView { rate_limit_backoff, ..self@ }),
            r.spec_rate_limit_backoff() == rate_limit_backoff,
    {
        RetryConfig { rate_limit_backoff, ..self }
    }

    /// The cap of the delay before retry number `retry_index + 1`.
    pub fn backoff_upper_bound(&self, retry_index: usize) -> (r: TimeSpan)
        ensures
            r.spec_nanos() == self.spec_backoff_bound(retry_index as nat),
    {
        let shift: usize = if retry_index < MAX_BACKOFF_SHIFT {
            retry_index
        } else {
            MAX_BACKOFF_SHIFT
        };
        let mut multiplier: u32 = 1;
        let mut i: usize = 0;
        proof {
            reveal_with_fuel(pow2, 32);
            assert(pow2(31) == 0x8000_0000);
        }
        while i < shift
            invariant
                i <= shift <= MAX_BACKOFF_SHIFT,
                multiplier == pow2(i as nat),
                pow2(31) == 0x8000_0000,
            decreases shift - i,
        {
            proof {
                lemma_pow2_monotone((i + 1) as nat, 31);
            }
            multiplier = multiplier * 2;
            i += 1;
        }
        self.initial_backoff.saturating_mul(multiplier).min(self.max_backoff)
    }

    /// The randomized delay before retry number `retry_index + 1` of a
    /// transient failure.
    pub fn exponential_delay(&self, retry_index: usize) -> (r: TimeSpan)
        ensures
            is_equal_jitter(self.spec_backoff_bound(retry_index as nat), r.spec_nanos()),
    {
        equal_jitter(self.backoff_upper_bound(retry_index))
    }

    /// The delay before retrying HTTP 429: the server's `Retry-After`, or the
    /// configured fallback, capped by the maximum backoff.
    pub fn rate_limit_delay(&self, retry_after: Option<TimeSpan>) -> (r: TimeSpan)
        ensures
            r.spec_nanos() == self.spec_rate_limit_delay(retry_after),
    {
        let wanted = match retry_after {
            Some(d) => d,
            None => self.rate_limit_backoff,
        };
        wanted.min(self.max_backoff)
    }
}

impl Default for RetryConfig {
    fn default() -> (r: Self)
        ensures
            r.spec_max_retries() == DEFAULT_MAX_RETRIES,
            r.spec_request_timeout().spec_nanos() == DEFAULT_REQUEST_TIMEOUT_SECS * NANOS_PER_SEC,
            r.spec_stream_idle_timeout() matches Some(t) && t.spec_nanos()
                == DEFAULT_STREAM_IDLE_TIMEOUT_SECS * NANOS_PER_SEC,
            r.spec_initial_backoff().spec_nanos() == DEFAULT_INITIAL_BACKOFF_MILLIS
                * NANOS_PER_MILLI,
            r.spec_max_backoff().spec_nanos() == DEFAULT_MAX_BACKOFF_SECS * NANOS_PER_SEC,
            r.spec_rate_limit_backoff().spec_nanos() == DEFAULT_RATE_LIMIT_BACKOFF_SECS
                * NANOS_PER_SEC,
    {
        RetryConfig {
            max_retries: DEFAULT_MAX_RETRIES,
            request_timeout: TimeSpan::from_secs(DEFAULT_REQUEST_TIMEOUT_SECS),
            stream_idle_timeout: Some(TimeSpan::from_secs(DEFAULT_STREAM_IDLE_TIMEOUT_SECS)),
            initial_backoff: TimeSpan::from_millis(DEFAULT_INITIAL_BACKOFF_MILLIS),
            max_backoff: TimeSpan::from_secs(DEFAULT_MAX_BACKOFF_SECS),
            rate_limit_backoff: TimeSpan::from_secs(DEFAULT_RATE_LIMIT_BACKOFF_SECS),
        }
    }
}

/// What one HTTP attempt produced.
#[derive(Clone, Copy, Debug, PartialEq, Eq)]
pub enum AttemptOutcome {
    /// No response headers arrived before the request deadline.
    HeaderTimeout,
    /// The transport failed; `connect` tells whether it failed while
    /// connecting, before the request could reach the server.
    TransportError { connect: bool },
    /// A response with this status, and its parsed `Retry-After`, if any.
    Status { status: u16, retry_after: Option<TimeSpan> },
}

/// What to do after an attempt.
#[derive(Clone, Copy, Debug, PartialEq, Eq)]
pub enum RetryStep {
    /// Hand the successful response to the caller.
    Deliver,
    /// Report the failure to the caller without retrying.
    Fail,
    /// Wait `delay`, then make retry number `retry_number`.
    Retry { retry_number: usize, delay: TimeSpan },
}

/// The step after an attempt when `retries_used` retries were made before
/// it: whether to deliver, fail, or retry. The delay of a transient failure
/// is randomized; it is stated by `is_equal_jitter`.
pub open spec fn retry_step_allowed(
    config: RetryConfig,
    retries_used: nat,
    outcome: AttemptOutcome,
    step: RetryStep,
) -> bool {
    let budget_left = retries_used < config.spec_max_retries();
    let exponential = |s: RetryStep|
        s matches RetryStep::Retry { retry_number, delay } && retry_number == retries_used + 1
            && is_equal_jitter(config.spec_backoff_bound(retries_used), delay.spec_nanos());
    match outcome {
        AttemptOutcome::HeaderTimeout => step is Fail,
        AttemptOutcome::TransportError { connect } => if connect && budget_left {
            exponential(step)
        } else {
            step is Fail
        },
        AttemptOutcome::Status { status, retry_after } => if 200 <= status <= 299 {
            step is Deliver
        } else if retry_kind_spec(status) is Never || !budget_left {
            step is Fail
        } else if retry_kind_spec(status) is RateLimit {
            step matches RetryStep::Retry { retry_number, delay } && retry_number == retries_used
                + 1 && delay.spec_nanos() == config.spec_rate_limit_delay(retry_after)
        } else {
            exponential(step)
        },
    }
}

/// Decides what follows an HTTP attempt. Header timeouts and transport
/// failures after the request may have reached the server are never
/// retried; neither is anything once `max_retries` retries were made.
pub fn next_retry_step(config: &RetryConfig, retries_used: usize, outcome: AttemptOutcome) -> (r:
    RetryStep)
    ensures
        retry_step_allowed(*config, retries_used as nat, outcome, r),
        r matches RetryStep::Retry { retry_number, .. } ==> retries_used < config.spec_max_retries()
            && retry_number == retries_used + 1,
{
    match outcome {
        AttemptOutcome::HeaderTimeout => RetryStep::Fail,
        AttemptOutcome::TransportError { connect } => {
            if connect && retries_used < config.max_retries {
                let delay = config.exponential_delay(retries_used);
                RetryStep::Retry { retry_number: retries_used + 1, delay }
            } else {
                RetryStep::Fail
            }
        },
        AttemptOutcome::Status { status, retry_after } => {
            if 200 <= status && status <= 299 {
                return RetryStep::Deliver;
            }
            let kind = retry_kind(status);
            if kind == RetryKind::Never || retries_used >= config.max_retries {
                return RetryStep::Fail;
            }
            let delay = if kind == RetryKind::RateLimit {
                config.rate_limit_delay(retry_after)
            } else {
                config.exponential_delay(retries_used)
            };
            RetryStep::Retry { retry_number: retries_used + 1, delay }
        },
    }
}

/// Seconds since the Unix epoch of an HTTP date
/// (`httpdate::parse_http_date`), or `None` when the text is not one.
pub uninterp spec fn http_date_secs(value: Seq<char>) -> Option<u64>;

/// Parses an HTTP date (`httpdate::parse_http_date`) into whole seconds since
/// the Unix epoch. The crate yields the epoch plus a whole number of
/// seconds, so nothing is lost; which texts it accepts is left to the name.
#[verifier::external_body]
fn parse_http_date_secs(value: &str) -> (r: Option<u64>)
    ensures
        r == http_date_secs(value@),
{
    match httpdate::parse_http_date(value) {
        Ok(t) => match t.duration_since(std::time::UNIX_EPOCH) {
            Ok(d) => Some(d.as_secs()),
            Err(_) => None,
        },
        Err(_) => None,
    }
}

/// The wait until `retry_at` (seconds since the epoch), seen at `now`
/// (since the epoch), in nanoseconds: zero once that moment has passed.
pub open spec fn wait_until(retry_at: nat, now: nat) -> nat {
    let at = retry_at * (NANOS_PER_SEC as nat);
    if at >= now {
        (at - now) as nat
    } else {
        0
    }
}

/// The `Retry-After` wait given as an HTTP date, in nanoseconds.
pub open spec fn retry_after_date_spec(retry_at: Option<u64>, now: nat) -> Option<nat> {
    match retry_at {
        Some(t) => Some(wait_until(t as nat, now)),
        None => None,
    }
}

/// The `Retry-After` wait for a header value: whole seconds when the trimmed
/// value is an unsigned integer, otherwise the time until the HTTP date it
/// names, if any.
pub open spec fn retry_after_spec(value: Seq<char>, now: nat) -> Option<nat> {
    match parse_u64_spec(trim(value)) {
        Some(secs) => Some((secs as nat) * (NANOS_PER_SEC as nat)),
        None => retry_after_date_spec(http_date_secs(trim(value)), now),
    }
}

/// The wait until an HTTP-date `Retry-After`, seen at `now`.
pub fn retry_after_from_date(retry_at: Option<u64>, now: TimeSpan) -> (r: Option<TimeSpan>)
    ensures
        match (r, retry_after_date_spec(retry_at, now.spec_nanos())) {
            (Some(d), Some(n)) => d.spec_nanos() == n,
            (None, None) => true,
            _ => false,
        },
{
    match retry_at {
        Some(secs) => Some(TimeSpan::from_secs(secs).saturating_sub(now)),
        None => None,
    }
}

/// Reads a `Retry-After` header value seen at `now` (time since the Unix
/// epoch).
pub fn parse_retry_after(value: &str, now: TimeSpan) -> (r: Option<TimeSpan>)
    ensures
        match (r, retry_after_spec(value@, now.spec_nanos())) {
            (Some(d), Some(n)) => d.spec_nanos() == n,
            (None, None) => true,
            _ => false,
        },
{
    let v = chars_of(value);
    let (a, b) = trim_bounds(&v);
    match parse_u64(&v, a, b) {
        Some(secs) => {
            return Some(TimeSpan::from_secs(secs));
        },
        None => {},
    }
    let trimmed = string_of(&v, a, b);
    retry_after_from_date(parse_http_date_secs(trimmed.as_str()), now)
}

} // verus!
