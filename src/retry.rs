//! The bounded retry policy for one URL and the failure messages it produces.

use vstd::prelude::*;

verus! {

/// The character of a decimal digit.
pub open spec fn digit_char(d: nat) -> char {
    ((d + 48) as u32) as char
}

/// The decimal notation of `n`, without sign or leading zeros.
pub open spec fn decimal(n: nat) -> Seq<char>
    decreases n,
{
    if n < 10 {
        seq![digit_char(n)]
    } else {
        decimal(n / 10) + seq![digit_char(n % 10)]
    }
}

/// Whether an HTTP status code counts as a success (the 2xx range).
pub open spec fn is_success_code(code: u16) -> bool {
    200 <= code <= 299
}

/// The failure message of a received status code outside the success range.
pub open spec fn status_message(code: u16) -> Seq<char> {
    "status "@ + decimal(code as nat)
}

/// The failure message of a transport error, once retries are exhausted.
pub open spec fn transport_message(url: Seq<char>, detail: Seq<char>) -> Seq<char> {
    "Failed to process "@ + url + ": Error: "@ + detail
}

fn digit_str(d: u64) -> (r: &'static str)
    requires
        d < 10,
    ensures
        r@ == seq![digit_char(d as nat)],
{
    proof {
        reveal_strlit("0");
        reveal_strlit("1");
        reveal_strlit("2");
        reveal_strlit("3");
        reveal_strlit("4");
        reveal_strlit("5");
        reveal_strlit("6");
        reveal_strlit("7");
        reveal_strlit("8");
        reveal_strlit("9");
    }
    match d {
        0 => "0",
        1 => "1",
        2 => "2",
        3 => "3",
        4 => "4",
        5 => "5",
        6 => "6",
        7 => "7",
        8 => "8",
        _ => "9",
    }
}

/// Appends the decimal notation of `n` to `s`.
pub fn push_decimal(s: &mut String, n: u64)
    ensures
        final(s)@ == old(s)@ + decimal(n as nat),
    decreases n,
{
    if n < 10 {
        s.append(digit_str(n));
    } else {
        push_decimal(s, n / 10);
        s.append(digit_str(n % 10));
        assert(final(s)@ =~= old(s)@ + decimal(n as nat));
    }
}

/// The failure message for a received status code outside the success range.
pub fn status_failure(code: u16) -> (r: String)
    ensures
        r@ == status_message(code),
{
    let mut s = String::from_str("status ");
    push_decimal(&mut s, code as u64);
    s
}

/// The failure message for a transport error on `url` described by `detail`.
pub fn transport_failure(url: &str, detail: &str) -> (r: String)
    ensures
        r@ == transport_message(url@, detail@),
{
    let mut s = String::from_str("Failed to process ");
    s.append(url);
    s.append(": Error: ");
    s.append(detail);
    s
}

/// What one probe of a URL reported.
pub enum ProbeEvent {
    /// A response arrived with this status code.
    Status(u16),
    /// No response: connection failure, timeout or malformed URL, with a description.
    Transport(String),
}

/// What the retry policy asks for after a probe.
pub enum RetryStep {
    /// Wait the fixed delay, then probe again.
    Retry,
    /// The check is over, with this outcome.
    Finished(Result<u16, String>),
}

/// Fixed pause between two attempts, in milliseconds.
pub const RETRY_DELAY_MS: u64 = 1000;

/// The decision after attempt number `attempt` (counted from 1) reported `ev`:
/// `None` asks for another attempt, `Some` gives the final outcome.
pub open spec fn decide(url: Seq<char>, max_retries: nat, attempt: nat, ev: ProbeEvent) -> Option<Result<u16, Seq<char>>> {
    match ev {
        ProbeEvent::Status(code) => if is_success_code(code) {
            Some(Ok(code))
        } else {
            Some(Err(status_message(code)))
        },
        ProbeEvent::Transport(detail) => if attempt >= max_retries + 1 {
            Some(Err(transport_message(url, detail@)))
        } else {
            None
        },
    }
}

/// The view of a step: `None` for a retry, `Some` for the final outcome.
pub open spec fn step_view(step: RetryStep) -> Option<Result<u16, Seq<char>>> {
    match step {
        RetryStep::Retry => None,
        RetryStep::Finished(o) => Some(crate::status::outcome_view(o)),
    }
}

/// The number of attempts a check makes when its successive probes report `evs`,
/// counting from position `i`: the first attempt whose decision is final.
pub open spec fn attempts_from(url: Seq<char>, max_retries: nat, evs: Seq<ProbeEvent>, i: nat) -> nat
    decreases evs.len() - i,
{
    if i >= evs.len() {
        i
    } else if decide(url, max_retries, i + 1, evs[i as int]) is Some {
        i + 1
    } else {
        attempts_from(url, max_retries, evs, i + 1)
    }
}

/// The number of attempts a check makes when its successive probes report `evs`.
pub open spec fn attempts_made(url: Seq<char>, max_retries: nat, evs: Seq<ProbeEvent>) -> nat {
    attempts_from(url, max_retries, evs, 0)
}

/// The number of delays a check waits: one before each attempt but the first.
pub open spec fn delays_made(url: Seq<char>, max_retries: nat, evs: Seq<ProbeEvent>) -> nat {
    (attempts_made(url, max_retries, evs) - 1) as nat
}

/// The final outcome of a check whose successive probes report `evs`.
pub open spec fn final_outcome(url: Seq<char>, max_retries: nat, evs: Seq<ProbeEvent>) -> Option<Result<u16, Seq<char>>> {
    let n = attempts_made(url, max_retries, evs);
    if 1 <= n <= evs.len() {
        decide(url, max_retries, n, evs[n - 1])
    } else {
        None
    }
}

/// The bounded retry policy for one URL: keeps the probes reported so far and decides
/// after each one.
pub struct RetryPolicy {
    url: String,
    max_retries: u32,
    attempts: u64,
    finished: bool,
    events: Ghost<Seq<ProbeEvent>>,
}

/// Every probe of `evs` from position `i` on but the last asked for another attempt.
pub open spec fn undecided_before_last(url: Seq<char>, max_retries: nat, evs: Seq<ProbeEvent>, i: nat) -> bool {
    forall|k: int| i <= k < evs.len() - 1 ==> decide(url, max_retries, (k + 1) as nat, #[trigger] evs[k]) is None
}

proof fn lemma_attempts_count_all(url: Seq<char>, max_retries: nat, evs: Seq<ProbeEvent>, i: nat)
    requires
        i <= evs.len(),
        undecided_before_last(url, max_retries, evs, i),
    ensures
        attempts_from(url, max_retries, evs, i) == evs.len(),
    decreases evs.len() - i,
{
    if i < evs.len() {
        if i + 1 < evs.len() {
            assert(decide(url, max_retries, i + 1, evs[i as int]) is None);
            lemma_attempts_count_all(url, max_retries, evs, i + 1);
        } else {
            lemma_attempts_count_all(url, max_retries, evs, i + 1);
        }
    }
}

impl RetryPolicy {
    /// The URL under check.
    pub closed spec fn url_view(&self) -> Seq<char> {
        self.url@
    }

    /// The number of retries allowed after the first attempt.
    pub closed spec fn max_retries_view(&self) -> nat {
        self.max_retries as nat
    }

    /// The number of probes reported so far.
    pub closed spec fn attempts_view(&self) -> nat {
        self.attempts as nat
    }

    /// The probes reported so far, in order.
    pub closed spec fn events_view(&self) -> Seq<ProbeEvent> {
        self.events@
    }

    /// Whether the final decision has been made.
    pub closed spec fn finished_view(&self) -> bool {
        self.finished
    }

    /// One attempt per reported probe; every probe but the last asked for a retry, and
    /// the last one decided exactly when the policy is finished.
    pub closed spec fn wf(&self) -> bool {
        let evs = self.events@;
        let r = self.max_retries as nat;
        &&& self.attempts as nat == evs.len()
        &&& undecided_before_last(self.url@, r, evs, 0)
        &&& evs.len() > 0 ==> (decide(self.url@, r, evs.len(), evs.last()) is Some <==> self.finished)
        &&& evs.len() == 0 ==> !self.finished
        &&& !self.finished ==> self.attempts <= self.max_retries
    }

    /// Whether another probe may be reported: no final decision has been made.
    pub open spec fn open_spec(&self) -> bool {
        !self.finished_view()
    }

    /// A policy for `url` that has seen no probe yet.
    pub fn new(url: String, max_retries: u32) -> (r: Self)
        ensures
            r.wf(),
            r.url_view() == url@,
            r.max_retries_view() == max_retries,
            r.attempts_view() == 0,
            r.events_view() == Seq::<ProbeEvent>::empty(),
            r.open_spec(),
    {
        RetryPolicy { url, max_retries, attempts: 0, finished: false, events: Ghost(Seq::empty()) }
    }

    /// Whether another probe may be reported.
    pub fn is_open(&self) -> (r: bool)
        ensures
            r == self.open_spec(),
    {
        !self.finished
    }

    /// The number of probes reported so far.
    pub fn attempts(&self) -> (r: u64)
        ensures
            r == self.attempts_view(),
    {
        self.attempts
    }

    /// Records the result of one more probe and decides: a success code ends the check
    /// with that code, any other code ends it with a failure at once, and a transport
    /// error asks for a retry until `max_retries + 1` attempts have been made.
    ///
    /// The number of attempts is always `attempts_made` of the probes reported, and a
    /// final step gives `final_outcome` of them.
    pub fn record(&mut self, ev: ProbeEvent) -> (step: RetryStep)
        requires
            old(self).wf(),
            old(self).open_spec(),
        ensures
            final(self).wf(),
            final(self).url_view() == old(self).url_view(),
            final(self).max_retries_view() == old(self).max_retries_view(),
            final(self).events_view() == old(self).events_view().push(ev),
            final(self).attempts_view() == old(self).attempts_view() + 1,
            final(self).attempts_view() == attempts_made(
                final(self).url_view(),
                final(self).max_retries_view(),
                final(self).events_view(),
            ),
            step_view(step) == decide(
                old(self).url_view(),
                old(self).max_retries_view(),
                final(self).attempts_view(),
                ev,
            ),
            step is Retry <==> final(self).open_spec(),
            step is Finished ==> step_view(step) == final_outcome(
                final(self).url_view(),
                final(self).max_retries_view(),
                final(self).events_view(),
            ),
    {
        let ghost e = ev;
        let ghost before = self.events@;
        self.attempts = self.attempts + 1;
        self.events = Ghost(self.events@.push(ev));
        let step = match ev {
            ProbeEvent::Status(code) => {
                if 200 <= code && code <= 299 {
                    RetryStep::Finished(Ok(code))
                } else {
                    RetryStep::Finished(Err(status_failure(code)))
                }
            },
            ProbeEvent::Transport(detail) => {
                if self.attempts >= self.max_retries as u64 + 1 {
                    RetryStep::Finished(Err(transport_failure(self.url.as_str(), detail.as_str())))
                } else {
                    RetryStep::Retry
                }
            },
        };
        self.finished = match step {
            RetryStep::Retry => false,
            RetryStep::Finished(_) => true,
        };
        proof {
            let evs = self.events@;
            let r = self.max_retries as nat;
            assert(evs.last() == e);
            assert forall|k: int| 0 <= k < evs.len() - 1 implies decide(self.url@, r, (k + 1) as nat, #[trigger] evs[k]) is None by {
                assert(evs[k] == before[k]);
                if k < before.len() - 1 {
                    assert(undecided_before_last(self.url@, r, before, 0));
                } else {
                    assert(k == before.len() - 1);
                    assert(before.last() == before[k]);
                }
            }
            lemma_attempts_count_all(self.url@, r, evs, 0);
        }
        step
    }
}

/// A check whose first probe gets a success code ends after that single attempt,
/// with no delay, and its outcome is that code. By the contract of `RetryPolicy::record`,
/// this is what a policy fed these probes does.
pub proof fn lemma_first_success_ends_at_once(url: Seq<char>, max_retries: nat, evs: Seq<ProbeEvent>, code: u16)
    requires
        evs.len() >= 1,
        evs[0] == ProbeEvent::Status(code),
        is_success_code(code),
    ensures
        attempts_made(url, max_retries, evs) == 1,
        delays_made(url, max_retries, evs) == 0,
        final_outcome(url, max_retries, evs) == Some(Ok::<u16, Seq<char>>(code)),
{
}

/// A check whose first probe gets a status code outside the success range is not
/// retried, whatever `max_retries` is: one attempt, no delay, and a failure naming the code.
/// By the contract of `RetryPolicy::record`, this is what a policy fed these probes does.
pub proof fn lemma_error_status_not_retried(url: Seq<char>, max_retries: nat, evs: Seq<ProbeEvent>, code: u16)
    requires
        evs.len() >= 1,
        evs[0] == ProbeEvent::Status(code),
        !is_success_code(code),
    ensures
        attempts_made(url, max_retries, evs) == 1,
        delays_made(url, max_retries, evs) == 0,
        final_outcome(url, max_retries, evs) == Some(Err::<u16, Seq<char>>(status_message(code))),
{
}

/// A check whose probes all fail at the transport level makes exactly
/// `max_retries + 1` attempts, waits `max_retries` delays, and fails with the
/// message of the last transport error. By the contract of `RetryPolicy::record`, this
/// is what a policy fed these probes does.
pub proof fn lemma_transport_failures_exhaust_retries(url: Seq<char>, max_retries: nat, evs: Seq<ProbeEvent>)
    requires
        evs.len() >= max_retries + 1,
        forall|i: int| 0 <= i < evs.len() ==> #[trigger] evs[i] is Transport,
    ensures
        attempts_made(url, max_retries, evs) == max_retries + 1,
        delays_made(url, max_retries, evs) == max_retries,
        final_outcome(url, max_retries, evs) == Some(Err::<u16, Seq<char>>(
            transport_message(url, evs[max_retries as int]->Transport_0@),
        )),
{
    lemma_transport_attempts_from(url, max_retries, evs, 0);
}

proof fn lemma_transport_attempts_from(url: Seq<char>, max_retries: nat, evs: Seq<ProbeEvent>, i: nat)
    requires
        i <= max_retries,
        evs.len() >= max_retries + 1,
        forall|j: int| 0 <= j < evs.len() ==> #[trigger] evs[j] is Transport,
    ensures
        attempts_from(url, max_retries, evs, i) == max_retries + 1,
    decreases max_retries - i,
{
    assert(evs[i as int] is Transport);
    if i < max_retries {
        lemma_transport_attempts_from(url, max_retries, evs, i + 1);
    }
}

} // verus!
