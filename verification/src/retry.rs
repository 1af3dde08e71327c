use vstd::prelude::*;

use crate::errors::{AppError, AppErrorView};

verus! {

/// How often and how patiently a request is retried.
#[derive(Debug, Clone, Copy)]
pub struct RetryPolicy {
    pub max_retries: usize,
    pub retry_delay_ms: u64,
}

/// What to do next with a request that is being forwarded.
#[derive(Debug, PartialEq, Eq)]
pub enum RetryAction {
    /// Wait `delay_ms` milliseconds, then make attempt number `attempt`.
    Send { attempt: usize, delay_ms: u64 },
    /// Stop and answer with this error.
    GiveUp(AppError),
}

pub enum RetryActionView {
    Send { attempt: nat, delay_ms: nat },
    GiveUp(AppErrorView),
}

impl View for RetryAction {
    type V = RetryActionView;

    open spec fn view(&self) -> RetryActionView {
        match self {
            RetryAction::Send { attempt, delay_ms } => RetryActionView::Send {
                attempt: *attempt as nat,
                delay_ms: *delay_ms as nat,
            },
            RetryAction::GiveUp(e) => RetryActionView::GiveUp(e@),
        }
    }
}

pub open spec fn exhausted_message() -> Seq<char> {
    "请求失败"@
}

/// The wait before the attempt that follows attempt number `attempt`.
pub open spec fn backoff(retry_delay_ms: nat, attempt: nat) -> nat {
    retry_delay_ms * attempt
}

/// The first step: attempt 1 at once, or, where no attempt is allowed, give up.
pub open spec fn start_action(max_retries: nat) -> RetryActionView {
    if max_retries >= 1 {
        RetryActionView::Send { attempt: 1, delay_ms: 0 }
    } else {
        RetryActionView::GiveUp(AppErrorView::Proxy(exhausted_message()))
    }
}

/// The step after attempt number `attempt` failed with `error`: the next attempt after
/// a wait that grows with the attempt number, or, after the last allowed attempt,
/// give up with that error.
pub open spec fn failure_action(max_retries: nat, retry_delay_ms: nat, attempt: nat, error: AppErrorView) -> RetryActionView {
    if attempt < max_retries {
        RetryActionView::Send { attempt: attempt + 1, delay_ms: backoff(retry_delay_ms, attempt) }
    } else {
        RetryActionView::GiveUp(error)
    }
}

/// The first thing to do with a request.
pub fn first_attempt(policy: &RetryPolicy) -> (r: RetryAction)
    ensures
        r@ == start_action(policy.max_retries as nat),
{
    if policy.max_retries >= 1 {
        RetryAction::Send { attempt: 1, delay_ms: 0 }
    } else {
        RetryAction::GiveUp(AppError::Proxy("请求失败".to_owned()))
    }
}

/// What to do after attempt number `attempt` failed with `error`.
pub fn after_failure(policy: &RetryPolicy, attempt: usize, error: AppError) -> (r: RetryAction)
    requires
        1 <= attempt <= policy.max_retries,
        attempt < policy.max_retries ==> policy.retry_delay_ms * attempt <= u64::MAX,
    ensures
        r@ == failure_action(policy.max_retries as nat, policy.retry_delay_ms as nat, attempt as nat, error@),
{
    if attempt < policy.max_retries {
        RetryAction::Send { attempt: attempt + 1, delay_ms: policy.retry_delay_ms * attempt as u64 }
    } else {
        RetryAction::GiveUp(error)
    }
}

/// The steps taken from attempt number `attempt` on when every attempt fails with
/// `error`.
pub open spec fn failing_steps(max_retries: nat, retry_delay_ms: nat, attempt: nat, error: AppErrorView) -> Seq<RetryActionView>
    decreases max_retries - attempt,
{
    if attempt < max_retries {
        seq![failure_action(max_retries, retry_delay_ms, attempt, error)] + failing_steps(
            max_retries,
            retry_delay_ms,
            attempt + 1,
            error,
        )
    } else {
        seq![failure_action(max_retries, retry_delay_ms, attempt, error)]
    }
}

/// All steps taken for a request whose every attempt fails with `error`.
pub open spec fn failing_run(max_retries: nat, retry_delay_ms: nat, error: AppErrorView) -> Seq<RetryActionView> {
    if max_retries >= 1 {
        seq![start_action(max_retries)] + failing_steps(max_retries, retry_delay_ms, 1, error)
    } else {
        seq![start_action(max_retries)]
    }
}

proof fn lemma_failing_steps(max_retries: nat, retry_delay_ms: nat, attempt: nat, error: AppErrorView)
    requires
        1 <= attempt <= max_retries,
    ensures
        ({
            let s = failing_steps(max_retries, retry_delay_ms, attempt, error);
            &&& s.len() == max_retries - attempt + 1
            &&& forall|k: int| 0 <= k < s.len() - 1 ==> #[trigger] s[k] == RetryActionView::Send {
                attempt: (attempt + k + 1) as nat,
                delay_ms: backoff(retry_delay_ms, (attempt + k) as nat),
            }
            &&& s.last() == RetryActionView::GiveUp(error)
        }),
    decreases max_retries - attempt,
{
    if attempt < max_retries {
        lemma_failing_steps(max_retries, retry_delay_ms, attempt + 1, error);
        let s = failing_steps(max_retries, retry_delay_ms, attempt, error);
        let t = failing_steps(max_retries, retry_delay_ms, attempt + 1, error);
        assert forall|k: int| 0 <= k < s.len() - 1 implies #[trigger] s[k] == RetryActionView::Send {
            attempt: (attempt + k + 1) as nat,
            delay_ms: backoff(retry_delay_ms, (attempt + k) as nat),
        } by {
            if k > 0 {
                assert(s[k] == t[k - 1]);
            }
        }
    }
}

/// When every attempt fails, exactly `max_retries` attempts are made, numbered from 1
/// on, the first at once and attempt `k + 1` after a wait of `retry_delay_ms * k`;
/// then the request is answered with the last failure, or, where no attempt is
/// allowed, with a proxy error.
pub proof fn lemma_failing_run(max_retries: nat, retry_delay_ms: nat, error: AppErrorView)
    ensures
        ({
            let s = failing_run(max_retries, retry_delay_ms, error);
            &&& s.len() == max_retries + 1
            &&& forall|k: int| 0 <= k < max_retries ==> #[trigger] s[k] == RetryActionView::Send {
                attempt: (k + 1) as nat,
                delay_ms: backoff(retry_delay_ms, k as nat),
            }
            &&& s.last() == if max_retries >= 1 {
                RetryActionView::GiveUp(error)
            } else {
                RetryActionView::GiveUp(AppErrorView::Proxy(exhausted_message()))
            }
        }),
{
    if max_retries >= 1 {
        lemma_failing_steps(max_retries, retry_delay_ms, 1, error);
        let s = failing_run(max_retries, retry_delay_ms, error);
        let t = failing_steps(max_retries, retry_delay_ms, 1, error);
        assert forall|k: int| 0 <= k < max_retries implies #[trigger] s[k] == RetryActionView::Send {
            attempt: (k + 1) as nat,
            delay_ms: backoff(retry_delay_ms, k as nat),
        } by {
            if k > 0 {
                assert(s[k] == t[k - 1]);
                assert(t[k - 1] == RetryActionView::Send {
                    attempt: (1 + (k - 1) + 1) as nat,
                    delay_ms: backoff(retry_delay_ms, (1 + (k - 1)) as nat),
                });
            } else {
                assert(s[0] == start_action(max_retries));
                assert(retry_delay_ms * 0 == 0) by (nonlinear_arith);
            }
        }
    }
}

/// The waits between attempts never shrink: a later attempt waits at least as long.
pub proof fn lemma_backoff_grows(retry_delay_ms: nat, a: nat, b: nat)
    requires
        a <= b,
    ensures
        backoff(retry_delay_ms, a) <= backoff(retry_delay_ms, b),
{
    assert(retry_delay_ms * a <= retry_delay_ms * b) by (nonlinear_arith)
        requires
            a <= b,
    ;
}

/// How a request went: the attempts made, the time waited in all, and the answer
/// (`Ok` where an attempt succeeded).
pub struct RetryRun {
    pub attempts: nat,
    pub waited: nat,
    pub result: Result<(), AppErrorView>,
}

/// The rest of a run from attempt number `attempt` on, after `waited` milliseconds
/// of waiting, when attempt `k` ends as `outcomes[k - 1]`: each failure is answered
/// by `failure_action`.
pub open spec fn run_from(
    max_retries: nat,
    retry_delay_ms: nat,
    outcomes: Seq<Result<(), AppErrorView>>,
    attempt: nat,
    waited: nat,
) -> RetryRun
    decreases max_retries - attempt,
{
    match outcomes[attempt - 1] {
        Ok(_) => RetryRun { attempts: attempt, waited, result: Ok(()) },
        Err(e) => match failure_action(max_retries, retry_delay_ms, attempt, e) {
            RetryActionView::Send { attempt: next, delay_ms } => if attempt < max_retries {
                run_from(max_retries, retry_delay_ms, outcomes, next, waited + delay_ms)
            } else {
                RetryRun { attempts: attempt, waited, result: Err(e) }
            },
            RetryActionView::GiveUp(err) => RetryRun { attempts: attempt, waited, result: Err(err) },
        },
    }
}

/// A whole run, from `start_action` on, when attempt `k` ends as `outcomes[k - 1]`.
pub open spec fn retry_run(max_retries: nat, retry_delay_ms: nat, outcomes: Seq<Result<(), AppErrorView>>) -> RetryRun {
    match start_action(max_retries) {
        RetryActionView::Send { attempt, delay_ms } => run_from(max_retries, retry_delay_ms, outcomes, attempt, delay_ms),
        RetryActionView::GiveUp(e) => RetryRun { attempts: 0, waited: 0, result: Err(e) },
    }
}

proof fn lemma_run_from(
    max_retries: nat,
    retry_delay_ms: nat,
    outcomes: Seq<Result<(), AppErrorView>>,
    attempt: nat,
    waited: nat,
)
    requires
        outcomes.len() >= max_retries,
        1 <= attempt <= max_retries,
        2 * waited == retry_delay_ms * attempt * (attempt - 1),
        forall|j: int| 0 <= j < attempt - 1 ==> outcomes[j] is Err,
    ensures
        ({
            let r = run_from(max_retries, retry_delay_ms, outcomes, attempt, waited);
            &&& attempt <= r.attempts <= max_retries
            &&& forall|j: int| 0 <= j < r.attempts - 1 ==> outcomes[j] is Err
            &&& (r.result is Ok <==> outcomes[r.attempts - 1] is Ok)
            &&& r.result is Err ==> r.attempts == max_retries && r.result == outcomes[max_retries - 1]
            &&& 2 * r.waited == retry_delay_ms * r.attempts * (r.attempts - 1)
        }),
    decreases max_retries - attempt,
{
    if outcomes[attempt - 1] is Err && attempt < max_retries {
        let next_waited = waited + retry_delay_ms * attempt;
        assert(2 * next_waited == retry_delay_ms * (attempt + 1) * attempt) by (nonlinear_arith)
            requires
                2 * waited == retry_delay_ms * attempt * (attempt - 1),
                next_waited == waited + retry_delay_ms * attempt,
        ;
        lemma_run_from(max_retries, retry_delay_ms, outcomes, attempt + 1, next_waited);
    }
}

/// A whole run of a request: no attempt at all where `max_retries` is 0, and then a
/// proxy error; otherwise attempts 1, 2, ... until one succeeds or `max_retries` have
/// failed, all attempts before the last having failed; the answer is the success, or
/// the failure of the last allowed attempt; attempt `k + 1` follows a wait of
/// `retry_delay_ms * k`, so that `retry_delay_ms * n * (n - 1) / 2` milliseconds are
/// waited in all over `n` attempts.
pub proof fn lemma_retry_run(max_retries: nat, retry_delay_ms: nat, outcomes: Seq<Result<(), AppErrorView>>)
    requires
        outcomes.len() >= max_retries,
    ensures
        ({
            let r = retry_run(max_retries, retry_delay_ms, outcomes);
            &&& max_retries == 0 ==> r == RetryRun {
                attempts: 0,
                waited: 0,
                result: Err(AppErrorView::Proxy(exhausted_message())),
            }
            &&& max_retries > 0 ==> {
                &&& 1 <= r.attempts <= max_retries
                &&& forall|j: int| 0 <= j < r.attempts - 1 ==> outcomes[j] is Err
                &&& (r.result is Ok <==> outcomes[r.attempts - 1] is Ok)
                &&& r.result is Err ==> r.attempts == max_retries && r.result == outcomes[max_retries - 1]
                &&& 2 * r.waited == retry_delay_ms * r.attempts * (r.attempts - 1)
            }
        }),
{
    if max_retries > 0 {
        assert(2 * 0nat == retry_delay_ms * 1nat * 0nat) by (nonlinear_arith);
        lemma_run_from(max_retries, retry_delay_ms, outcomes, 1, 0);
    }
}

/// Where the wait before the last allowed attempt fits in a `u64`, so does every
/// wait of the run: `after_failure` can be called after every failed attempt.
pub proof fn lemma_backoff_fits(max_retries: nat, retry_delay_ms: nat, attempt: nat)
    requires
        1 <= attempt < max_retries,
        retry_delay_ms * (max_retries - 1) <= u64::MAX,
    ensures
        retry_delay_ms * attempt <= u64::MAX,
{
    lemma_backoff_grows(retry_delay_ms, attempt, (max_retries - 1) as nat);
}

} // verus!
