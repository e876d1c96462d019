//! The retry policy around the single-attempt page fetch.
//!
//! One fetch attempt either yields a response (status code, headers, body)
//! or fails at the transport level. The policy makes up to `MAX_RETRY`
//! additional attempts after the first, but only while attempts keep
//! returning non-success status codes: it stops at the first success,
//! aborts immediately on a transport failure, and after the retry budget
//! is exhausted fails with the last response's status and headers.
//!
//! The network call itself cannot stand here; the decision logic does.
//! [`retry_step`] decides, from the attempt number and the outcome of one
//! attempt, whether to retry or to finish with a result, and [`run_retry`]
//! runs that decision over a pre-recorded sequence of outcomes, one per
//! attempt the policy makes. An unverified driver performs the real
//! requests and feeds each outcome to [`retry_step`].
use vstd::prelude::*;
use vstd::string::StringExecFns;

use crate::extract::extract_macs;
use crate::extract::extracted;

verus! {

/// Maximum number of additional fetch attempts after the first one.
pub const MAX_RETRY: usize = 3;

/// Configuration for reaching the router's status page.
#[derive(Debug)]
pub struct Config {
    pub host: String,
    pub username: String,
    pub password: String,
}

/// One HTTP response: its status code, headers and body text.
#[derive(Debug)]
pub struct Response {
    pub status: u16,
    pub headers: Vec<(String, String)>,
    pub body: String,
}

/// The outcome of a single fetch attempt.
#[derive(Debug)]
pub enum FetchOutcome {
    /// A response came back, successful or not.
    Response(Response),
    /// The attempt failed at the transport level (DNS, connect, timeout,
    /// body read).
    Transport,
}

/// A terminal failure of the retrying fetch.
#[derive(Debug, PartialEq)]
pub enum FetchError {
    /// A transport-level failure; aborts the fetch without further retries.
    TransportError,
    /// Every attempt returned a non-success status; carries the last
    /// response's status code and headers.
    NotSuccess(u16, Vec<(String, String)>),
}

/// Mathematical model of a response.
pub struct ResponseV {
    pub status: u16,
    pub headers: Seq<(Seq<char>, Seq<char>)>,
    pub body: Seq<char>,
}

/// Mathematical model of one attempt's outcome.
pub enum OutcomeV {
    Response(ResponseV),
    Transport,
}

/// Mathematical model of a terminal fetch failure.
pub enum ErrorV {
    TransportError,
    NotSuccess(u16, Seq<(Seq<char>, Seq<char>)>),
}

impl View for Response {
    type V = ResponseV;

    open spec fn view(&self) -> ResponseV {
        ResponseV { status: self.status, headers: self.headers.deep_view(), body: self.body@ }
    }
}

impl View for FetchOutcome {
    type V = OutcomeV;

    open spec fn view(&self) -> OutcomeV {
        match self {
            FetchOutcome::Response(r) => OutcomeV::Response(r@),
            FetchOutcome::Transport => OutcomeV::Transport,
        }
    }
}

impl DeepView for FetchOutcome {
    type V = OutcomeV;

    open spec fn deep_view(&self) -> OutcomeV {
        self@
    }
}

impl View for FetchError {
    type V = ErrorV;

    open spec fn view(&self) -> ErrorV {
        match self {
            FetchError::TransportError => ErrorV::TransportError,
            FetchError::NotSuccess(status, headers) => ErrorV::NotSuccess(
                *status,
                headers.deep_view(),
            ),
        }
    }
}

/// The model of a fetch result: the body text on success, else the failure.
pub open spec fn fetch_result_view(r: Result<String, FetchError>) -> Result<Seq<char>, ErrorV> {
    match r {
        Ok(body) => Ok(body@),
        Err(e) => Err(e@),
    }
}

/// `true` exactly when `s` is an HTTP success status code (the 2xx class).
pub open spec fn spec_success_status(s: u16) -> bool {
    200 <= s < 300
}

/// Decides whether an HTTP status code counts as success.
pub fn success_status(s: u16) -> (r: bool)
    ensures
        r == spec_success_status(s),
{
    200 <= s && s < 300
}

/// What the policy decides after attempt number `attempt` (counted from 0)
/// came back with outcome `o`: `None` to fetch again, `Some` to finish.
pub open spec fn step_spec(attempt: int, o: OutcomeV) -> Option<Result<Seq<char>, ErrorV>> {
    match o {
        OutcomeV::Transport => Some(Err(ErrorV::TransportError)),
        OutcomeV::Response(r) => if spec_success_status(r.status) {
            Some(Ok(r.body))
        } else if attempt >= MAX_RETRY as int {
            Some(Err(ErrorV::NotSuccess(r.status, r.headers)))
        } else {
            None
        },
    }
}

/// The result and total attempt count of running the policy against the
/// outcome sequence `outs`, starting at attempt number `k`. `outs` holds
/// one outcome per attempt the policy might make; only meaningful when it
/// covers every attempt number up to `MAX_RETRY`.
pub open spec fn retry_from(outs: Seq<OutcomeV>, k: int) -> (Result<Seq<char>, ErrorV>, int)
    recommends
        0 <= k,
        outs.len() > MAX_RETRY as int,
    decreases MAX_RETRY + 1 - k,
{
    if !(0 <= k <= MAX_RETRY as int && k < outs.len()) {
        (Err(ErrorV::TransportError), 0)
    } else {
        match step_spec(k, outs[k]) {
            Some(res) => (res, k + 1),
            None => retry_from(outs, k + 1),
        }
    }
}

/// The final result of the retrying fetch over the outcome sequence `outs`.
pub open spec fn retry_result(outs: Seq<OutcomeV>) -> Result<Seq<char>, ErrorV> {
    retry_from(outs, 0).0
}

/// How many fetch attempts the policy makes over the outcome sequence `outs`.
pub open spec fn retry_attempts(outs: Seq<OutcomeV>) -> int {
    retry_from(outs, 0).1
}

/// What the retry loop does after one attempt: fetch again, or finish.
pub enum RetryStep {
    /// Fetch again.
    Retry,
    /// Finished, with the policy's final result.
    Done(Result<String, FetchError>),
}

/// One decision of the retry policy: attempt number `attempt` (counted
/// from 0) came back with `outcome`; decide whether to fetch again or to
/// finish, and with what. A driver performing real requests calls this
/// once per attempt and obeys the decision.
pub fn retry_step(attempt: usize, outcome: FetchOutcome) -> (r: RetryStep)
    ensures
        match r {
            RetryStep::Retry => step_spec(attempt as int, outcome@) is None,
            RetryStep::Done(res) => step_spec(attempt as int, outcome@) == Some(
                fetch_result_view(res),
            ),
        },
{
    match outcome {
        FetchOutcome::Transport => RetryStep::Done(Err(FetchError::TransportError)),
        FetchOutcome::Response(resp) => {
            if success_status(resp.status) {
                RetryStep::Done(Ok(resp.body))
            } else if attempt >= MAX_RETRY {
                RetryStep::Done(Err(FetchError::NotSuccess(resp.status, resp.headers)))
            } else {
                RetryStep::Retry
            }
        },
    }
}

/// Runs the whole retry policy against a pre-recorded sequence of attempt
/// outcomes, consuming one from the front per attempt; returns the final
/// result and the number of attempts made.
pub fn run_retry(outcomes: &mut Vec<FetchOutcome>) -> (r: (Result<String, FetchError>, usize))
    requires
        old(outcomes).deep_view().len() > MAX_RETRY as int,
    ensures
        fetch_result_view(r.0) == retry_result(old(outcomes).deep_view()),
        r.1 == retry_attempts(old(outcomes).deep_view()),
{
    let ghost outs0 = old(outcomes).deep_view();
    let mut attempt: usize = 0;
    loop
        invariant
            attempt <= MAX_RETRY,
            outs0 == old(outcomes).deep_view(),
            outs0.len() > MAX_RETRY as int,
            outcomes@.len() + attempt == outs0.len(),
            outcomes.deep_view() =~= outs0.skip(attempt as int),
            retry_from(outs0, 0) == retry_from(outs0, attempt as int),
        decreases MAX_RETRY - attempt,
    {
        let ghost rest_pre = outcomes@;
        let ghost rest_dv_pre = outcomes.deep_view();
        let outcome = outcomes.remove(0);
        proof {
            assert(outcome.deep_view() == rest_dv_pre[0]);
            assert(outs0.skip(attempt as int)[0] == outs0[attempt as int]);
            assert(outcome.deep_view() == outs0[attempt as int]);
        }
        match retry_step(attempt, outcome) {
            RetryStep::Done(res) => {
                proof {
                    assert(retry_from(outs0, attempt as int) == (
                        fetch_result_view(res),
                        attempt + 1,
                    ));
                }
                return (res, attempt + 1);
            },
            RetryStep::Retry => {
                proof {
                    assert(retry_from(outs0, attempt as int) == retry_from(
                        outs0,
                        attempt + 1,
                    ));
                    assert forall|i: int| 0 <= i < outcomes@.len() implies outcomes.deep_view()[i]
                        == outs0.skip(attempt + 1)[i] by {
                        assert(outcomes@[i] == rest_pre[i + 1]);
                        assert(outcomes.deep_view()[i] == outcomes@[i].deep_view());
                        assert(rest_dv_pre[i + 1] == rest_pre[i + 1].deep_view());
                        assert(outs0.skip(attempt as int)[i + 1] == outs0[attempt + 1 + i]);
                    }
                    assert(outcomes.deep_view() =~= outs0.skip(attempt + 1));
                }
                attempt += 1;
            },
        }
    }
}

/// Builds the URL of the router's status page from the configured host.
pub fn request_url(config: &Config) -> (r: String)
    ensures
        r@ == "http://"@ + config.host@ + "/status/status_deviceinfo.htm"@,
{
    let mut url = String::new();
    url.append("http://");
    url.append(config.host.as_str());
    url.append("/status/status_deviceinfo.htm");
    proof {
        assert(url@ =~= "http://"@ + config.host@ + "/status/status_deviceinfo.htm"@);
    }
    url
}

/// Fetches the status page under the retry policy and extracts the device
/// identifiers from its body: the whole discovery step, over a pre-recorded
/// sequence of attempt outcomes. A driver performing real requests uses
/// [`retry_step`] and [`extract_macs`] instead.
pub fn run(outcomes: &mut Vec<FetchOutcome>) -> (r: Result<Vec<String>, FetchError>)
    requires
        old(outcomes).deep_view().len() > MAX_RETRY as int,
    ensures
        retry_result(old(outcomes).deep_view()) matches Ok(body) ==> (r matches Ok(ids)
            && ids.deep_view() == extracted(body)),
        retry_result(old(outcomes).deep_view()) matches Err(e) ==> (r matches Err(err) && err@
            == e),
{
    let (result, _attempts) = run_retry(outcomes);
    match result {
        Ok(body) => Ok(extract_macs(body.as_str())),
        Err(e) => Err(e),
    }
}

/// Law: when the first `MAX_RETRY` responses are non-success and the next
/// one has a success status, the policy makes exactly `MAX_RETRY + 1`
/// attempts and returns that last response's body.
pub proof fn lemma_retry_fourth_success(outs: Seq<OutcomeV>)
    requires
        outs.len() > MAX_RETRY as int,
        forall|k: int|
            0 <= k < MAX_RETRY as int ==> (#[trigger] outs[k] matches OutcomeV::Response(r)
                && !spec_success_status(r.status)),
        outs[MAX_RETRY as int] matches OutcomeV::Response(r) && spec_success_status(r.status),
    ensures
        retry_attempts(outs) == MAX_RETRY as int + 1,
        outs[MAX_RETRY as int] matches OutcomeV::Response(r) && retry_result(outs) == Ok::<
            Seq<char>,
            ErrorV,
        >(r.body),
{
    assert(retry_from(outs, 0) == retry_from(outs, 1));
    assert(retry_from(outs, 1) == retry_from(outs, 2));
    assert(retry_from(outs, 2) == retry_from(outs, 3));
}

/// Law: when every attempt up to the retry budget returns a non-success
/// response, the policy makes exactly `MAX_RETRY + 1` attempts and fails
/// with the last response's status code and headers.
pub proof fn lemma_retry_exhausted(outs: Seq<OutcomeV>)
    requires
        outs.len() > MAX_RETRY as int,
        forall|k: int|
            0 <= k <= MAX_RETRY as int ==> (#[trigger] outs[k] matches OutcomeV::Response(r)
                && !spec_success_status(r.status)),
    ensures
        retry_attempts(outs) == MAX_RETRY as int + 1,
        outs[MAX_RETRY as int] matches OutcomeV::Response(r) && retry_result(outs) == Err::<
            Seq<char>,
            ErrorV,
        >(ErrorV::NotSuccess(r.status, r.headers)),
{
    assert(retry_from(outs, 0) == retry_from(outs, 1));
    assert(retry_from(outs, 1) == retry_from(outs, 2));
    assert(retry_from(outs, 2) == retry_from(outs, 3));
}

/// Law: the policy never reads past attempt `MAX_RETRY`: two outcome
/// sequences that agree on the first `MAX_RETRY + 1` outcomes give the
/// same result and attempt count, so no further attempt ever occurs.
pub proof fn lemma_retry_reads_first_attempts(outs1: Seq<OutcomeV>, outs2: Seq<OutcomeV>)
    requires
        outs1.len() > MAX_RETRY as int,
        outs2.len() > MAX_RETRY as int,
        outs1.subrange(0, MAX_RETRY as int + 1) == outs2.subrange(0, MAX_RETRY as int + 1),
    ensures
        retry_result(outs1) == retry_result(outs2),
        retry_attempts(outs1) == retry_attempts(outs2),
{
    lemma_retry_agree_from(outs1, outs2, 0);
}

proof fn lemma_retry_agree_from(outs1: Seq<OutcomeV>, outs2: Seq<OutcomeV>, k: int)
    requires
        0 <= k <= MAX_RETRY as int,
        outs1.len() > MAX_RETRY as int,
        outs2.len() > MAX_RETRY as int,
        outs1.subrange(0, MAX_RETRY as int + 1) == outs2.subrange(0, MAX_RETRY as int + 1),
    ensures
        retry_from(outs1, k) == retry_from(outs2, k),
    decreases MAX_RETRY as int - k,
{
    assert(outs1.subrange(0, MAX_RETRY as int + 1)[k] == outs1[k]);
    assert(outs2.subrange(0, MAX_RETRY as int + 1)[k] == outs2[k]);
    if k < MAX_RETRY as int {
        lemma_retry_agree_from(outs1, outs2, k + 1);
    }
}

} // verus!
