//! When a command that runs is ended, and when a request is repeated.

use vstd::prelude::*;

use crate::error::{LegError, Result};
use crate::laws::text::{law_numbers_are_read_as_they_are_written, writes};
use crate::laws::turns::sum_of;
use crate::text::{numeral, trimmed};
use crate::tools::process::{Poll, RunNext, RunState};
use crate::transport::http::{HttpCall, HttpResponse};
use crate::transport::retry::{
    backoff, http_date_seconds, is_wait, jittered, may_repeat, settles, total_attempts, RetryPolicy,
};
use crate::transport::trace::TraceView;

verus! {

/// Nanoseconds in a second.
pub open spec fn seconds(n: nat) -> nat {
    n * 1_000_000_000
}

/// A process is asked to end once, by a signal or when its time is up before it has
/// exited; it is forced to end 50 milliseconds after that. Only a process whose time was
/// up counts as timed out, and the time of its exit is that of the look that first saw
/// it.
pub proof fn law_looks_end_a_process_in_time(state: RunState, poll: Poll)
    requires
        state.consistent(poll.now),
    ensures
        ({
            let after = state.after(poll);
            let exited = state.exited_at is Some || poll.exited;
            let late = !exited && !state.timed_out && poll.now >= state.timeout;
            let asks = state.graceful_at is None && (poll.signaled || late);
            &&& state.interrupts(poll) || state.expires(poll) <==> asks
            &&& after.timeout == state.timeout
            &&& after.timed_out <==> state.timed_out || (asks && late && !poll.signaled)
            &&& after.graceful_at == if asks {
                Some(poll.now)
            } else {
                state.graceful_at
            }
            &&& after.exited_at == if state.exited_at is Some || !poll.exited {
                state.exited_at
            } else {
                Some(poll.now)
            }
            &&& after.forced_at == if state.forced_at is Some {
                state.forced_at
            } else if after.graceful_at is Some && poll.now >= after.graceful_at.unwrap()
                + 50_000_000 {
                Some(poll.now)
            } else {
                None
            }
        }),
{
}

/// A run is over when the process has exited and its output is closed. It is given up
/// two seconds after the exit, or after the process was forced where it timed out;
/// and it goes on otherwise.
pub proof fn law_runs_end_when_the_output_is_closed(state: RunState, poll: Poll)
    ensures
        ({
            let since = if state.timed_out {
                state.forced_at
            } else {
                state.exited_at
            };
            let over = state.exited_at is Some && poll.pipes_closed;
            let stale = since is Some && poll.now - since.unwrap() >= seconds(2);
            &&& state.outlook(poll) == RunNext::Done <==> over
            &&& state.outlook(poll) == RunNext::Abandon <==> !over && stale
            &&& state.outlook(poll) == RunNext::Wait <==> !over && !stale
        }),
{
}

/// A request may be repeated after a connection that failed and after the statuses of
/// a server that is busy or broken, and after nothing else.
pub proof fn law_only_passing_faults_are_repeated(result: Result<HttpResponse>)
    ensures
        may_repeat(result) <==> match result {
            Ok(response) => seq![408u16, 429, 500, 502, 503, 504, 529].contains(response.status),
            Err(error) => error is Transport,
        },
{
    let busy = seq![408u16, 429, 500, 502, 503, 504, 529];
    if let Ok(response) = result {
        if busy.contains(response.status) {
            let i = choose|i: int| 0 <= i < busy.len() && busy[i] == response.status;
            assert(i == 0 || i == 1 || i == 2 || i == 3 || i == 4 || i == 5 || i == 6);
        }
        assert(busy[0] == 408 && busy[1] == 429 && busy[2] == 500 && busy[3] == 502 && busy[4]
            == 503 && busy[5] == 504 && busy[6] == 529);
        if may_repeat(result) {
            assert(busy.contains(response.status));
        }
    }
}

/// Two to the power of `n`.
pub open spec fn doubled(n: nat) -> nat
    decreases n,
{
    if n == 0 {
        1
    } else {
        2 * doubled((n - 1) as nat)
    }
}

proof fn lemma_doubled(n: nat)
    ensures
        doubled(n) == vstd::arithmetic::power2::pow2(n),
    decreases n,
{
    if n == 0 {
        vstd::arithmetic::power2::lemma2_to64();
    } else {
        lemma_doubled((n - 1) as nat);
        vstd::arithmetic::power2::lemma_pow2_unfold(n);
    }
}

/// The wait before a retry is what the provider asks for, up to half a minute: a number
/// of seconds, or the time until a date. Without that it is any time up to the first
/// delay, doubled for every retry before, up to half a minute; and every such time can
/// come up.
pub proof fn law_waits_follow_the_provider_or_grow(
    policy: RetryPolicy,
    n: nat,
    retry_after: Option<Seq<char>>,
    now: nat,
    sample: u64,
)
    requires
        n >= 1,
    ensures
        ({
            let wait = policy.delay_spec(n, retry_after, now, sample);
            let most = seconds(30);
            let grown = policy.base_delay as nat * doubled((n - 1) as nat);
            let ceiling = if grown <= most {
                grown
            } else {
                most
            };
            let asked = if retry_after is Some {
                trimmed(retry_after.unwrap())
            } else {
                Seq::empty()
            };
            let date = http_date_seconds(asked);
            let is_number = exists|s: nat| #[trigger] numeral(asked, u64::MAX as nat) == Some(s);
            &&& wait <= most
            &&& forall|s: nat|
                retry_after is Some && s <= u64::MAX && asked.len() > 0 && #[trigger] writes(asked, s)
                    ==> wait == if seconds(s) <= most {
                    seconds(s)
                } else {
                    most
                }
            &&& retry_after is Some && !is_number && date is Some ==> wait == ({
                let left = seconds(date.unwrap() as nat) - now;
                if left <= 0 {
                    0
                } else if left <= most {
                    left
                } else {
                    most as int
                }
            })
            &&& retry_after is None || (!is_number && date is None) ==> wait <= ceiling && forall|
                t: u64,
            |
                t <= ceiling ==> #[trigger] policy.delay_spec(n, retry_after, now, t) == t
        }),
{
    lemma_doubled((n - 1) as nat);
    let ceiling = backoff(policy.base_delay as nat, n);
    let asked = if retry_after is Some {
        trimmed(retry_after.unwrap())
    } else {
        Seq::empty()
    };
    vstd::arithmetic::div_mod::lemma_mod_bound(sample as int, ceiling as int + 1);
    assert forall|t: u64| t <= ceiling implies #[trigger] jittered(ceiling, t) == t by {
        vstd::arithmetic::div_mod::lemma_small_mod(t as nat, ceiling + 1);
    }
    if retry_after is Some {
        assert forall|s: nat|
            s <= u64::MAX && asked.len() > 0 && #[trigger] writes(asked, s) implies numeral(
            asked,
            u64::MAX as nat,
        ) == Some(s) by {
            law_numbers_are_read_as_they_are_written(asked, u64::MAX as nat, s);
        }
        if numeral(asked, u64::MAX as nat) is Some {
            let s = numeral(asked, u64::MAX as nat).unwrap();
            assert(numeral(asked, u64::MAX as nat) == Some(s));
        }
    }
}

/// Whether `result` is a connection that failed, or the status of a server that is busy
/// or broken.
pub open spec fn is_passing(result: Result<HttpResponse>) -> bool {
    match result {
        Ok(response) => seq![408u16, 429, 500, 502, 503, 504, 529].contains(response.status),
        Err(error) => error is Transport,
    }
}

proof fn lemma_all_attempts(calls: Seq<HttpCall>)
    ensures
        ({
            let sum = sum_of(Seq::new(calls.len(), |i: int| Some(calls[i].attempts)));
            total_attempts(calls) == if sum <= u64::MAX {
                sum
            } else {
                u64::MAX as nat
            }
        }),
    decreases calls.len(),
{
    let counts = Seq::new(calls.len(), |i: int| Some(calls[i].attempts));
    if calls.len() > 0 {
        lemma_all_attempts(calls.drop_last());
        assert(counts.drop_last() =~= Seq::new(
            calls.drop_last().len(),
            |i: int| Some(calls.drop_last()[i].attempts),
        ));
    }
}

/// A request is made again after every passing fault, until one call brings something
/// else or the retries are used up; there is a wait before each retry, and the last
/// call's result is that of the request. A signal during a wait is the result instead.
/// The attempts are those of all calls, as far as they can be counted.
pub proof fn law_requests_are_repeated_until_answered_or_spent(
    policy: RetryPolicy,
    trace: TraceView,
    call: HttpCall,
)
    requires
        settles(policy, trace, call),
    ensures
        ({
            let n = trace.calls.len();
            let sum = sum_of(Seq::new(n, |i: int| Some(trace.calls[i].attempts)));
            &&& n <= policy.max_retries + 1
            &&& forall|i: int| 0 <= i < n - 1 ==> is_passing((#[trigger] trace.calls[i]).result)
            &&& call.attempts == if sum <= u64::MAX {
                sum
            } else {
                u64::MAX as nat
            }
            &&& trace.waits.len() > 0
            &&& trace.waits[0].0 == 0
            &&& forall|i: int| 0 <= i < trace.waits.len() - 1 ==> (#[trigger] trace.waits[i]).1 is None
            &&& match trace.waits.last().1 {
                None => {
                    &&& n > 0
                    &&& trace.waits.len() == n
                    &&& call.result == trace.calls.last().result
                    &&& is_passing(call.result) ==> n == policy.max_retries + 1
                },
                Some(signal) => {
                    &&& trace.waits.len() == n + 1
                    &&& n > 0 ==> is_passing(trace.calls.last().result) && n <= policy.max_retries
                    &&& call.result == Err::<HttpResponse, LegError>(
                        LegError::Interrupted { signal },
                    )
                },
            }
        }),
{
    let n = trace.calls.len();
    lemma_all_attempts(trace.calls);
    assert forall|i: int| 1 <= i < trace.waits.len() implies is_passing(
        (#[trigger] trace.calls[i - 1]).result,
    ) && i <= policy.max_retries by {
        assert(is_wait(policy, trace.calls, i, trace.waits[i].0));
        law_only_passing_faults_are_repeated(trace.calls[i - 1].result);
    }
    assert forall|i: int| 0 <= i < n - 1 implies is_passing((#[trigger] trace.calls[i]).result) by {
        assert(trace.calls[(i + 1) - 1] == trace.calls[i]);
    }
    let w = trace.waits.len() - 1;
    if w >= 1 {
        assert(is_wait(policy, trace.calls, w, trace.waits[w].0));
        law_only_passing_faults_are_repeated(trace.calls[w - 1].result);
    }
    law_only_passing_faults_are_repeated(call.result);
}

} // verus!
