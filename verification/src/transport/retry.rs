//! Bounded retries for provider HTTP calls.
//!
//! Delays are whole nanoseconds. The clock and the random sample are arguments
//! of the functions that compute, so a delay is exact for each value of them.

use vstd::arithmetic::power2::{lemma_pow2_unfold, pow2};
use vstd::prelude::*;

use crate::error::{InterruptSignal, LegError, Result};
use crate::events::now_nanos;
use crate::text::{numeral, opt_view, parse_number, trim, trimmed};
use crate::transport::http::{header_views, HttpCall, HttpClient, HttpResponse};
use crate::transport::trace::{CallTrace, TraceView};

verus! {

/// The longest delay, for the exponential backoff and for `Retry-After`: 30
/// seconds.
pub const MAX_RETRY_DELAY: u128 = 30_000_000_000;

/// Nanoseconds in a second.
pub const SECOND: u128 = 1_000_000_000;

/// The smaller of two numbers.
pub open spec fn least(a: nat, b: nat) -> nat {
    if a <= b {
        a
    } else {
        b
    }
}

/// Retry settings for a [`RetryingHttpClient`].
#[derive(Debug, Clone, Copy, PartialEq, Eq, Structural)]
pub struct RetryPolicy {
    /// How often a call is repeated at most, the first attempt not counted.
    pub max_retries: usize,
    /// The ceiling of the first delay, in nanoseconds.
    pub base_delay: u128,
}

/// The backoff ceiling before retry `n`, counted from one: the base delay,
/// doubled for each retry after the first, and never over the longest delay.
pub open spec fn backoff(base: nat, n: nat) -> nat {
    least(base * pow2(if n > 1 { (n - 1) as nat } else { 0 }), MAX_RETRY_DELAY as nat)
}

/// Doubling the base delay once more doubles the ceiling, up to the cap.
proof fn lemma_backoff_step(base: nat, n: nat)
    requires
        n >= 1,
    ensures
        backoff(base, n + 1) == least(2 * backoff(base, n), MAX_RETRY_DELAY as nat),
        backoff(base, n) <= backoff(base, n + 1),
{
    lemma_pow2_unfold(n);
    let p = pow2((n - 1) as nat);
    assert(base * (2 * p) == 2 * (base * p)) by (nonlinear_arith);
}

/// The ceilings grow with the retry number and never pass the longest delay.
pub proof fn law_backoff_grows_to_its_cap(base: nat, m: nat, n: nat)
    requires
        m <= n,
    ensures
        backoff(base, m) <= backoff(base, n) <= MAX_RETRY_DELAY,
    decreases n - m,
{
    if m < n {
        law_backoff_grows_to_its_cap(base, m, (n - 1) as nat);
        if n >= 2 {
            lemma_backoff_step(base, (n - 1) as nat);
        }
    }
}

/// The number that [`parse_http_date`] reads out of an HTTP date.
///
/// [`parse_http_date`]: httpdate::parse_http_date
pub uninterp spec fn http_date_seconds(value: Seq<char>) -> Option<u64>;

/// `httpdate::parse_http_date`: the date of an HTTP header, in whole seconds
/// since the Unix epoch, or `None` where the text is no HTTP date. What a text
/// reads as is named, not spelled out.
#[verifier::external_body]
fn http_date(value: &str) -> (seconds: Option<u64>)
    ensures
        seconds == http_date_seconds(value@),
{
    let date = httpdate::parse_http_date(value).ok()?;
    date.duration_since(std::time::UNIX_EPOCH).ok().map(|since| since.as_secs())
}

/// The time left at `now` until a moment `seconds` after the epoch.
pub open spec fn time_until(seconds: u64, now: nat) -> nat {
    let deadline = seconds as nat * SECOND as nat;
    if deadline > now {
        (deadline - now) as nat
    } else {
        0
    }
}

/// The nanoseconds from `now` until `seconds` after the epoch; none once that
/// has passed.
pub fn deadline_delay(seconds: u64, now: u128) -> (delay: u128)
    ensures
        delay == time_until(seconds, now as nat),
{
    let deadline: u128 = seconds as u128 * SECOND;
    if deadline > now {
        deadline - now
    } else {
        0
    }
}

/// The delay that a `Retry-After` header asks for at `now`: a number of
/// seconds, or the time left until an HTTP date.
pub open spec fn requested_delay(value: Seq<char>, now: nat) -> Option<nat> {
    let value = trimmed(value);
    match numeral(value, u64::MAX as nat) {
        Some(seconds) => Some(seconds * SECOND as nat),
        None => match http_date_seconds(value) {
            Some(seconds) => Some(time_until(seconds, now)),
            None => None,
        },
    }
}

/// Reads a `Retry-After` header at `now`, in nanoseconds since the epoch.
pub fn parse_retry_after(value: &str, now: u128) -> (delay: Option<u128>)
    ensures
        delay matches Some(d) ==> requested_delay(value@, now as nat) == Some(d as nat),
        delay is None ==> requested_delay(value@, now as nat) is None,
{
    let value = trim(value);
    if let Some(seconds) = parse_number(value.as_str(), u64::MAX) {
        return Some(seconds as u128 * SECOND);
    }
    match http_date(value.as_str()) {
        Some(seconds) => Some(deadline_delay(seconds, now)),
        None => None,
    }
}

/// The delay within `ceiling` that a random sample picks.
pub open spec fn jittered(ceiling: nat, sample: u64) -> nat {
    sample as nat % (ceiling + 1)
}

/// The delay within `ceiling` that `sample` picks.
pub fn jitter(ceiling: u128, sample: u64) -> (delay: u128)
    ensures
        delay == jittered(ceiling as nat, sample),
        delay <= ceiling,
{
    if ceiling >= u64::MAX as u128 {
        assert(jittered(ceiling as nat, sample) == sample) by {
            vstd::arithmetic::div_mod::lemma_small_mod(sample as nat, ceiling as nat + 1);
        }
        sample as u128
    } else {
        sample as u128 % (ceiling + 1)
    }
}

/// A random number: what a freshly seeded `std::hash::RandomState` makes of a
/// constant through `hash_one`. Nothing is claimed of it.
#[verifier::external_body]
fn random_sample() -> u64 {
    std::hash::BuildHasher::hash_one(&std::hash::RandomState::new(), 0u64)
}

/// A random delay of at most `ceiling`: the one that some sample picks.
pub fn full_jitter(ceiling: u128) -> (delay: u128)
    ensures
        delay <= ceiling,
        exists|sample: u64| delay == #[trigger] jittered(ceiling as nat, sample),
{
    jitter(ceiling, random_sample())
}

impl RetryPolicy {
    /// A policy of at most `max_retries` repetitions whose first delay is at
    /// most `base_delay` nanoseconds.
    pub fn new(max_retries: usize, base_delay: u128) -> (policy: Self)
        ensures
            policy.max_retries == max_retries,
            policy.base_delay == base_delay,
    {
        RetryPolicy { max_retries, base_delay }
    }

    /// The delay before retry `n` at `now` for a random sample.
    pub open spec fn delay_spec(
        &self,
        n: nat,
        retry_after: Option<Seq<char>>,
        now: nat,
        sample: u64,
    ) -> nat {
        let jittered_delay = jittered(backoff(self.base_delay as nat, n), sample);
        match retry_after {
            Some(value) => match requested_delay(value, now) {
                Some(delay) => least(delay, MAX_RETRY_DELAY as nat),
                None => jittered_delay,
            },
            None => jittered_delay,
        }
    }

    /// Whether `delay` is the delay before retry `n` at some moment and for some
    /// random sample.
    pub open spec fn is_delay(&self, n: nat, retry_after: Option<Seq<char>>, delay: u128) -> bool {
        exists|now: nat, sample: u64| delay == #[trigger] self.delay_spec(n, retry_after, now, sample)
    }

    /// The ceiling of the delay before a retry, counted from one.
    pub fn backoff_ceiling(&self, retry_number: usize) -> (ceiling: u128)
        ensures
            ceiling == backoff(self.base_delay as nat, retry_number as nat),
    {
        let ghost base = self.base_delay as nat;
        let mut delay: u128 = if self.base_delay <= MAX_RETRY_DELAY {
            self.base_delay
        } else {
            MAX_RETRY_DELAY
        };
        let mut n: usize = 1;
        proof {
            vstd::arithmetic::power2::lemma2_to64();
        }
        assert(pow2(0) == 1);
        assert(base * pow2(0) == base) by (nonlinear_arith)
            requires
                pow2(0) == 1,
        ;
        assert(backoff(base, 1) == least(base, MAX_RETRY_DELAY as nat));
        assert(backoff(base, 0) == backoff(base, 1));
        while n < retry_number
            invariant
                1 <= n,
                n <= retry_number || (retry_number == 0 && n == 1),
                base == self.base_delay,
                backoff(base, 0) == backoff(base, 1),
                delay == backoff(base, n as nat),
                delay <= MAX_RETRY_DELAY,
            decreases retry_number - n,
        {
            if delay == 0 || delay >= MAX_RETRY_DELAY {
                proof {
                    lemma_backoff_rests(base, n as nat, retry_number as nat);
                }
                return delay;
            }
            proof {
                lemma_backoff_step(base, n as nat);
            }
            delay = if delay * 2 <= MAX_RETRY_DELAY {
                delay * 2
            } else {
                MAX_RETRY_DELAY
            };
            n = n + 1;
        }
        delay
    }

    /// The delay before retry `retry_number`, at `now` and for `sample`.
    pub fn delay_at(
        &self,
        retry_number: usize,
        retry_after: Option<&str>,
        now: u128,
        sample: u64,
    ) -> (delay: u128)
        ensures
            delay == self.delay_spec(
                retry_number as nat,
                opt_view(retry_after),
                now as nat,
                sample,
            ),
            delay <= MAX_RETRY_DELAY,
    {
        if let Some(value) = retry_after {
            if let Some(delay) = parse_retry_after(value, now) {
                return if delay <= MAX_RETRY_DELAY {
                    delay
                } else {
                    MAX_RETRY_DELAY
                };
            }
        }
        jitter(self.backoff_ceiling(retry_number), sample)
    }

    /// The delay before retry `retry_number`: what the provider asks for, or a
    /// random delay within the backoff ceiling, and never more than
    /// [`MAX_RETRY_DELAY`].
    pub fn delay(&self, retry_number: usize, retry_after: Option<&str>) -> (delay: u128)
        ensures
            delay <= MAX_RETRY_DELAY,
            self.is_delay(retry_number as nat, opt_view(retry_after), delay),
    {
        let now: u128 = now_nanos();
        let sample: u64 = random_sample();
        let delay: u128 = self.delay_at(retry_number, retry_after, now, sample);
        assert(delay == self.delay_spec(
            retry_number as nat,
            opt_view(retry_after),
            now as nat,
            sample,
        ));
        delay
    }

    /// The wait before a request is made once more, when `result` came back and
    /// `retries` retries are used up; `None` where it is not made again.
    pub fn next_wait(
        &self,
        retries: usize,
        result: &Result<HttpResponse>,
        now: u128,
        sample: u64,
    ) -> (wait: Option<u128>)
        ensures
            wait is Some <==> is_repeated(*self, retries as nat, *result),
            wait matches Some(delay) ==> delay == self.delay_spec(
                retries as nat + 1,
                retry_after_of(*result),
                now as nat,
                sample,
            ),
    {
        if !is_retryable(result) || retries >= self.max_retries {
            return None;
        }
        let wait: u128 = match result {
            Ok(response) => match &response.retry_after {
                Some(value) => self.delay_at(retries + 1, Some(value.as_str()), now, sample),
                None => self.delay_at(retries + 1, None, now, sample),
            },
            Err(_) => self.delay_at(retries + 1, None, now, sample),
        };
        Some(wait)
    }
}

/// A ceiling that is zero or at its cap stays what it is.
proof fn lemma_backoff_rests(base: nat, m: nat, n: nat)
    requires
        1 <= m <= n,
        backoff(base, m) == 0 || backoff(base, m) == MAX_RETRY_DELAY,
    ensures
        backoff(base, n) == backoff(base, m),
    decreases n - m,
{
    if m < n {
        lemma_backoff_rests(base, m, (n - 1) as nat);
        lemma_backoff_step(base, (n - 1) as nat);
    }
}

/// A numeric `Retry-After` fixes the delay, whatever the clock and the sample.
pub proof fn law_numeric_retry_after_fixes_the_delay(
    policy: RetryPolicy,
    n: nat,
    value: Seq<char>,
    now: nat,
    sample: u64,
)
    requires
        numeral(trimmed(value), u64::MAX as nat) is Some,
    ensures
        policy.delay_spec(n, Some(value), now, sample) == least(
            numeral(trimmed(value), u64::MAX as nat).unwrap() * SECOND as nat,
            MAX_RETRY_DELAY as nat,
        ),
{
}

/// Without a usable `Retry-After` the delay stays within the backoff ceiling.
pub proof fn law_delay_is_within_the_ceiling(
    policy: RetryPolicy,
    n: nat,
    now: nat,
    sample: u64,
)
    ensures
        policy.delay_spec(n, None, now, sample) <= backoff(policy.base_delay as nat, n),
{
    let ceiling = backoff(policy.base_delay as nat, n);
    vstd::arithmetic::div_mod::lemma_mod_bound(sample as int, ceiling as int + 1);
}

/// The statuses after which a request may be repeated.
pub open spec fn retryable_status(status: u16) -> bool {
    status == 408 || status == 429 || status == 500 || status == 502 || status == 503 || status
        == 504 || status == 529
}

/// Whether a request may be repeated after `status`.
pub fn is_retryable_status(status: u16) -> (retryable: bool)
    ensures
        retryable == retryable_status(status),
{
    status == 408 || status == 429 || status == 500 || status == 502 || status == 503 || status
        == 504 || status == 529
}

/// Whether a result allows another attempt: a retryable status, or a transient
/// connection failure.
pub open spec fn may_repeat(result: Result<HttpResponse>) -> bool {
    match result {
        Ok(response) => retryable_status(response.status),
        Err(LegError::Transport(_)) => true,
        Err(_) => false,
    }
}

/// Whether `result` allows another attempt.
pub fn is_retryable(result: &Result<HttpResponse>) -> (retryable: bool)
    ensures
        retryable == may_repeat(*result),
{
    match result {
        Ok(response) => is_retryable_status(response.status),
        Err(LegError::Transport(_)) => true,
        Err(_) => false,
    }
}

/// The attempts of `calls`, up to the largest count.
pub open spec fn total_attempts(calls: Seq<HttpCall>) -> u64
    decreases calls.len(),
{
    if calls.len() == 0 {
        0
    } else {
        let sum = total_attempts(calls.drop_last()) + calls.last().attempts;
        if sum <= u64::MAX {
            sum as u64
        } else {
            u64::MAX
        }
    }
}

/// The `Retry-After` value that came with `result`, if any.
pub open spec fn retry_after_of(result: Result<HttpResponse>) -> Option<Seq<char>> {
    match result {
        Ok(response) => opt_view(response.retry_after),
        Err(_) => None,
    }
}

/// Whether a request is made once more, when `result` came back and `retries` of
/// the policy's retries are used up.
pub open spec fn is_repeated(
    policy: RetryPolicy,
    retries: nat,
    result: Result<HttpResponse>,
) -> bool {
    may_repeat(result) && retries < policy.max_retries
}

/// Whether `result` is the last of `calls`, after which the request is not made
/// once more.
pub open spec fn is_settled(
    policy: RetryPolicy,
    calls: Seq<HttpCall>,
    result: Result<HttpResponse>,
) -> bool {
    calls.len() > 0 && result == calls.last().result && !is_repeated(
        policy,
        (calls.len() - 1) as nat,
        result,
    )
}

/// Whether what was done for a request ends in `call` under `policy`.
///
/// A look for a signal, which takes no time, comes before the first call. After a
/// call that allows it the request is made once more, when the delay before that
/// retry has passed without a signal. The call returned has the attempts of all
/// calls, and its result is the last one, after which the request is not made once
/// more, or the signal that cut a wait short.
pub open spec fn settles(policy: RetryPolicy, trace: TraceView, call: HttpCall) -> bool {
    let calls = trace.calls;
    let waits = trace.waits;
    &&& call.attempts == total_attempts(calls)
    &&& waits.len() > 0
    &&& waits[0].0 == 0
    &&& forall|i: int| 1 <= i < waits.len() ==> is_wait(policy, calls, i, (#[trigger] waits[i]).0)
    &&& forall|i: int| 0 <= i < waits.len() - 1 ==> (#[trigger] waits[i]).1 is None
    &&& match waits.last().1 {
        None => calls.len() == waits.len() && is_settled(policy, calls, call.result),
        Some(signal) => calls.len() + 1 == waits.len() && call.result == Err::<
            HttpResponse,
            LegError,
        >(LegError::Interrupted { signal }),
    }
}

/// Whether `nanos` is the delay before retry `n`, which the calls before it allow.
pub open spec fn is_wait(policy: RetryPolicy, calls: Seq<HttpCall>, n: int, nanos: u128) -> bool {
    &&& n <= calls.len()
    &&& is_repeated(policy, (n - 1) as nat, calls[n - 1].result)
    &&& policy.is_delay(n as nat, retry_after_of(calls[n - 1].result), nanos)
}

/// Repeats the HTTP calls that may be repeated.
pub struct RetryingHttpClient<H> {
    /// The client that makes the calls.
    pub inner: H,
    /// How often, and after which delays, they are repeated.
    pub policy: RetryPolicy,
}

impl<H> RetryingHttpClient<H> {
    /// Wraps `inner` with a bounded retry policy.
    pub fn new(inner: H, policy: RetryPolicy) -> (client: Self)
        ensures
            client.inner == inner,
            client.policy == policy,
    {
        RetryingHttpClient { inner, policy }
    }
}

/// Whether `inner` can do what `trace` holds for one and the same request.
pub open spec fn is_done_by<H: HttpClient>(
    inner: H,
    url: Seq<char>,
    headers: Seq<(Seq<char>, Seq<char>)>,
    body: Seq<char>,
    trace: TraceView,
) -> bool {
    &&& forall|i: int|
        0 <= i < trace.calls.len() ==> inner.may_call(url, headers, body, #[trigger] trace.calls[i])
    &&& forall|i: int|
        0 <= i < trace.waits.len() ==> inner.may_pause(
            (#[trigger] trace.waits[i]).0,
            trace.waits[i].1,
        )
}

impl<H: HttpClient> RetryingHttpClient<H> {
    /// Makes the call and repeats it as the policy allows. The inner client
    /// gets the same request each time. What was done for it is returned too.
    pub fn post_repeatedly(&self, url: &str, headers: &[(&str, &str)], body: &str) -> (made: (
        HttpCall,
        CallTrace,
    ))
        ensures
            settles(self.policy, made.1@, made.0),
            is_done_by(self.inner, url@, header_views(headers@), body@, made.1@),
    {
        let mut trace = CallTrace::new();
        let first = trace.pause(&self.inner, 0);
        if let Some(signal) = first {
            let call = HttpCall::new(Err(LegError::Interrupted { signal }), 0);
            return (call, trace);
        }
        let mut retries: usize = 0;
        let mut attempts: u64 = 0;
        loop
            invariant
                retries <= self.policy.max_retries,
                trace@.calls.len() == retries,
                trace@.waits.len() == retries + 1,
                attempts == total_attempts(trace@.calls),
                trace@.waits[0].0 == 0,
                forall|i: int|
                    1 <= i < trace@.waits.len() ==> is_wait(
                        self.policy,
                        trace@.calls,
                        i,
                        (#[trigger] trace@.waits[i]).0,
                    ),
                forall|i: int|
                    0 <= i < trace@.waits.len() ==> (#[trigger] trace@.waits[i]).1 is None,
                is_done_by(self.inner, url@, header_views(headers@), body@, trace@),
            decreases self.policy.max_retries - retries,
        {
            let ghost before = trace@;
            let call = trace.post(&self.inner, url, headers, body);
            attempts = attempts.saturating_add(call.attempts);
            let ghost calls = trace@.calls;
            proof {
                assert(calls.drop_last() == before.calls);
                assert forall|i: int| 1 <= i < trace@.waits.len() implies is_wait(
                    self.policy,
                    calls,
                    i,
                    (#[trigger] trace@.waits[i]).0,
                ) by {
                    assert(is_wait(self.policy, before.calls, i, before.waits[i].0));
                    assert(calls[i - 1] == before.calls[i - 1]);
                }
            }
            let now: u128 = now_nanos();
            let sample: u64 = random_sample();
            match self.policy.next_wait(retries, &call.result, now, sample) {
                None => {
                    let call = HttpCall::new(call.result, attempts);
                    assert(is_settled(self.policy, calls, call.result));
                    return (call, trace);
                },
                Some(wait) => {
                    let ghost waits = trace@.waits;
                    let signal = trace.pause(&self.inner, wait);
                    proof {
                        assert(wait == self.policy.delay_spec(
                            calls.len(),
                            retry_after_of(call.result),
                            now as nat,
                            sample,
                        ));
                        assert(is_wait(self.policy, calls, waits.len() as int, wait));
                        assert forall|i: int| 1 <= i < trace@.waits.len() implies is_wait(
                            self.policy,
                            calls,
                            i,
                            (#[trigger] trace@.waits[i]).0,
                        ) by {
                            if i < waits.len() {
                                assert(trace@.waits[i] == waits[i]);
                            }
                        }
                    }
                    if let Some(signal) = signal {
                        let call = HttpCall::new(Err(LegError::Interrupted { signal }), attempts);
                        assert(settles(self.policy, trace@, call));
                        return (call, trace);
                    }
                },
            }
            retries = retries + 1;
        }
    }
}

impl<H: HttpClient> HttpClient for RetryingHttpClient<H> {
    open spec fn may_answer(
        &self,
        url: Seq<char>,
        headers: Seq<(Seq<char>, Seq<char>)>,
        body: Seq<char>,
        result: Result<HttpResponse>,
    ) -> bool {
        exists|call: HttpCall| #[trigger]
            self.may_call(url, headers, body, call) && call.result == result
    }

    open spec fn may_call(
        &self,
        url: Seq<char>,
        headers: Seq<(Seq<char>, Seq<char>)>,
        body: Seq<char>,
        call: HttpCall,
    ) -> bool {
        exists|trace: TraceView| #[trigger]
            settles(self.policy, trace, call) && is_done_by(self.inner, url, headers, body, trace)
    }

    open spec fn may_pause(&self, nanos: u128, signal: Option<InterruptSignal>) -> bool {
        self.inner.may_pause(nanos, signal)
    }

    fn post_json(&self, url: &str, headers: &[(&str, &str)], body: &str) -> (result: Result<
        HttpResponse,
    >) {
        let (call, trace) = self.post_repeatedly(url, headers, body);
        assert(self.may_call(url@, header_views(headers@), body@, call));
        call.result
    }

    fn post_json_with_attempts(&self, url: &str, headers: &[(&str, &str)], body: &str) -> (call:
        HttpCall) {
        let (call, trace) = self.post_repeatedly(url, headers, body);
        assert(settles(self.policy, trace@, call));
        call
    }

    /// Waits as the inner client does.
    fn pause(&self, nanos: u128) -> (signal: Option<InterruptSignal>) {
        self.inner.pause(nanos)
    }
}

/// Whether `made` is the least number of answers of `script` after which a request
/// is not made once more under `policy`.
pub open spec fn is_enough(policy: RetryPolicy, script: Seq<HttpCall>, made: nat) -> bool {
    &&& 0 < made <= script.len()
    &&& !is_repeated(policy, (made - 1) as nat, script[made - 1].result)
    &&& forall|i: int|
        0 <= i < made - 1 ==> is_repeated(policy, i as nat, (#[trigger] script[i]).result)
}

/// The answers of a client decide how often it is called: over a `script` of its
/// answers exactly one number of calls settles the request without a signal. It is
/// at most one more than the policy's retries, the call returned has the last
/// result made, and its attempts are those of the calls made.
pub proof fn law_answers_settle_the_request(
    policy: RetryPolicy,
    script: Seq<HttpCall>,
    made: nat,
    trace: TraceView,
    call: HttpCall,
)
    requires
        made <= script.len(),
        trace.calls == script.take(made as int),
        settles(policy, trace, call),
        trace.waits.last().1 is None,
    ensures
        is_enough(policy, script, made),
        made <= policy.max_retries + 1,
        forall|other: nat| #[trigger] is_enough(policy, script, other) ==> other == made,
        call.result == script[made - 1].result,
        call.attempts == total_attempts(script.take(made as int)),
{
    let calls = script.take(made as int);
    assert forall|i: int| 0 <= i < made - 1 implies is_repeated(
        policy,
        i as nat,
        (#[trigger] script[i]).result,
    ) by {
        assert(is_wait(policy, calls, i + 1, trace.waits[i + 1].0));
        assert(calls[i] == script[i]);
    }
    assert(calls.last() == script[made - 1]);
    if made >= 2 {
        assert(is_repeated(policy, (made - 2) as nat, script[made - 2].result));
    }
    assert forall|other: nat| #[trigger] is_enough(policy, script, other) implies other
        == made by {
        if other < made {
            assert(is_repeated(policy, (other - 1) as nat, script[other - 1].result));
        }
        if made < other {
            assert(is_repeated(policy, (made - 1) as nat, script[made - 1].result));
        }
    }
}

/// A script with an answer for every call that the policy allows is long enough
/// to settle the request.
pub proof fn law_a_full_script_is_enough(policy: RetryPolicy, script: Seq<HttpCall>)
    requires
        script.len() > policy.max_retries,
    ensures
        exists|made: nat| #[trigger] is_enough(policy, script, made),
{
    lemma_enough_from(policy, script, 1);
}

proof fn lemma_enough_from(policy: RetryPolicy, script: Seq<HttpCall>, from: nat)
    requires
        0 < from <= policy.max_retries + 1 <= script.len(),
        forall|i: int|
            0 <= i < from - 1 ==> is_repeated(policy, i as nat, (#[trigger] script[i]).result),
    ensures
        exists|made: nat| #[trigger] is_enough(policy, script, made),
    decreases policy.max_retries + 1 - from,
{
    if is_repeated(policy, (from - 1) as nat, script[from - 1].result) {
        lemma_enough_from(policy, script, from + 1);
    } else {
        assert(is_enough(policy, script, from));
    }
}

/// A client that no signal interrupts is called until its answers settle the
/// request, and never once more.
pub proof fn law_an_undisturbed_request_settles<H: HttpClient>(
    inner: H,
    url: Seq<char>,
    headers: Seq<(Seq<char>, Seq<char>)>,
    body: Seq<char>,
    policy: RetryPolicy,
    trace: TraceView,
    call: HttpCall,
)
    requires
        settles(policy, trace, call),
        is_done_by(inner, url, headers, body, trace),
        forall|nanos: u128, signal: InterruptSignal|
            !#[trigger] inner.may_pause(nanos, Some(signal)),
    ensures
        is_settled(policy, trace.calls, call.result),
        is_enough(policy, trace.calls, trace.calls.len()),
{
    let last = trace.waits[trace.waits.len() - 1];
    assert(inner.may_pause(last.0, last.1));
    assert(last.1 is None);
    assert forall|i: int| 0 <= i < trace.calls.len() - 1 implies is_repeated(
        policy,
        i as nat,
        (#[trigger] trace.calls[i]).result,
    ) by {
        assert(is_wait(policy, trace.calls, i + 1, trace.waits[i + 1].0));
    }
}

/// Where every call counts one attempt, a settled call counts one for each of
/// them: at most one more than the policy's retries.
pub proof fn law_attempts_are_bounded(policy: RetryPolicy, trace: TraceView, call: HttpCall)
    requires
        settles(policy, trace, call),
        forall|i: int| 0 <= i < trace.calls.len() ==> (#[trigger] trace.calls[i]).attempts == 1,
    ensures
        call.attempts == least(trace.calls.len(), u64::MAX as nat),
        call.attempts <= policy.max_retries + 1,
{
    let n = trace.calls.len();
    lemma_total_of_ones(trace.calls);
    if n >= 2 {
        assert(is_wait(policy, trace.calls, n - 1, trace.waits[n - 1].0));
    }
}

proof fn lemma_total_of_ones(calls: Seq<HttpCall>)
    requires
        forall|i: int| 0 <= i < calls.len() ==> (#[trigger] calls[i]).attempts == 1,
    ensures
        total_attempts(calls) == least(calls.len(), u64::MAX as nat),
    decreases calls.len(),
{
    if calls.len() > 0 {
        lemma_total_of_ones(calls.drop_last());
    }
}

} // verus!
