//! Cluster strategies: fail fast, or fail over to another attempt up to a
//! number of attempts. The decisions of a call are a state machine; the
//! caller makes each attempt and reports how it went.
use crate::body::{replica_of, BufferedBody};
use vstd::prelude::*;
use vstd::string::*;

verus! {

/// How a cluster answers a failed call.
#[derive(Debug, Clone, Copy, PartialEq, Eq)]
pub enum ClusterStrategy {
    /// Return the first outcome.
    Failfast,
    /// Try up to `attempts` times; return the first success, or the last
    /// error.
    Failover { attempts: usize },
}

/// The number of attempts of the default strategy.
pub const DEFAULT_FAILOVER_ATTEMPTS: usize = 2;

impl Default for ClusterStrategy {
    fn default() -> (s: ClusterStrategy)
        ensures
            s == (ClusterStrategy::Failover { attempts: 2 }),
    {
        ClusterStrategy::Failover { attempts: DEFAULT_FAILOVER_ATTEMPTS }
    }
}

/// The strategy named by a text: `failfast`, `failover` (the default
/// number of attempts), or none.
pub open spec fn strategy_of(name: Seq<char>) -> Option<ClusterStrategy> {
    if name == seq!['f', 'a', 'i', 'l', 'f', 'a', 's', 't'] {
        Some(ClusterStrategy::Failfast)
    } else if name == seq!['f', 'a', 'i', 'l', 'o', 'v', 'e', 'r'] {
        Some(ClusterStrategy::Failover { attempts: 2 })
    } else {
        None
    }
}

impl ClusterStrategy {
    /// The strategy named `strategy`.
    pub fn parse(strategy: &str) -> (r: Option<ClusterStrategy>)
        ensures
            r == strategy_of(strategy@),
    {
        proof {
            reveal_strlit("failfast");
            reveal_strlit("failover");
            assert("failfast"@ =~= seq!['f', 'a', 'i', 'l', 'f', 'a', 's', 't']);
            assert("failover"@ =~= seq!['f', 'a', 'i', 'l', 'o', 'v', 'e', 'r']);
        }
        let s = String::from_str(strategy);
        if s == String::from_str("failfast") {
            Some(ClusterStrategy::Failfast)
        } else if s == String::from_str("failover") {
            Some(ClusterStrategy::default())
        } else {
            None
        }
    }

    /// A fail-over strategy with `attempts` attempts, at least one; fail
    /// fast stays as it is.
    pub fn with_failover_attempts(self, attempts: usize) -> (r: ClusterStrategy)
        ensures
            r == (match self {
                ClusterStrategy::Failover { .. } => ClusterStrategy::Failover {
                    attempts: if attempts < 1 { 1 } else { attempts },
                },
                ClusterStrategy::Failfast => ClusterStrategy::Failfast,
            }),
    {
        match self {
            ClusterStrategy::Failover { .. } => ClusterStrategy::Failover {
                attempts: if attempts < 1 { 1 } else { attempts },
            },
            ClusterStrategy::Failfast => ClusterStrategy::Failfast,
        }
    }

    /// The most attempts a call makes.
    pub open spec fn max_attempts(self) -> nat {
        match self {
            ClusterStrategy::Failfast => 1,
            ClusterStrategy::Failover { attempts } => attempts as nat,
        }
    }
}

/// What the caller does next.
#[derive(Debug, Clone, Copy, PartialEq, Eq)]
pub enum ClusterAction {
    /// Make another attempt.
    Call,
    /// Return the successful response.
    ReturnResponse,
    /// Return the error of the last attempt.
    ReturnLastError,
}

/// The progress of one call through a cluster.
#[derive(Debug, Clone, Copy, PartialEq, Eq)]
pub struct ClusterCall {
    pub strategy: ClusterStrategy,
    /// Attempts made so far.
    pub attempts_made: usize,
    /// Whether the call has returned.
    pub done: bool,
}

/// The decision after an attempt: a success is returned; a failure is
/// retried while attempts remain, and returned after the last attempt.
pub open spec fn after_attempt(c: ClusterCall, ok: bool) -> (ClusterCall, ClusterAction) {
    let made = (c.attempts_made + 1) as usize;
    if ok {
        (ClusterCall { attempts_made: made, done: true, ..c }, ClusterAction::ReturnResponse)
    } else if made < c.strategy.max_attempts() {
        (ClusterCall { attempts_made: made, done: false, ..c }, ClusterAction::Call)
    } else {
        (ClusterCall { attempts_made: made, done: true, ..c }, ClusterAction::ReturnLastError)
    }
}

/// A call in progress: not returned, attempts left to report.
pub open spec fn in_progress(c: ClusterCall) -> bool {
    !c.done && c.attempts_made < c.strategy.max_attempts()
}

impl ClusterCall {
    /// A call under `strategy`; the first action is to make an attempt. A
    /// fail-over strategy must allow at least one attempt.
    pub fn start(strategy: ClusterStrategy) -> (r: (ClusterCall, ClusterAction))
        requires
            strategy.max_attempts() >= 1,
        ensures
            r.0 == (ClusterCall { strategy, attempts_made: 0, done: false }),
            r.1 == ClusterAction::Call,
            in_progress(r.0),
    {
        (ClusterCall { strategy, attempts_made: 0, done: false }, ClusterAction::Call)
    }

    /// Records the outcome of the attempt just made and gives the next
    /// action (see `after_attempt`).
    pub fn on_outcome(&mut self, ok: bool) -> (a: ClusterAction)
        requires
            in_progress(*old(self)),
        ensures
            (*final(self), a) == after_attempt(*old(self), ok),
            a == ClusterAction::Call ==> in_progress(*final(self)),
    {
        let max = match self.strategy {
            ClusterStrategy::Failfast => 1,
            ClusterStrategy::Failover { attempts } => attempts,
        };
        self.attempts_made = self.attempts_made + 1;
        if ok {
            self.done = true;
            ClusterAction::ReturnResponse
        } else if self.attempts_made < max {
            ClusterAction::Call
        } else {
            self.done = true;
            ClusterAction::ReturnLastError
        }
    }
}

/// Driving a call against a service whose first `failures` attempts fail
/// and whose later attempts succeed: the attempts made and whether a
/// response is returned.
pub open spec fn drive(c: ClusterCall, failures: nat) -> (nat, bool)
    decreases c.strategy.max_attempts() - c.attempts_made,
{
    if !in_progress(c) {
        (c.attempts_made as nat, false)
    } else {
        let ok = c.attempts_made >= failures;
        let (next, a) = after_attempt(c, ok);
        if a == ClusterAction::Call {
            drive(next, failures)
        } else {
            (next.attempts_made as nat, a == ClusterAction::ReturnResponse)
        }
    }
}

proof fn lemma_drive(c: ClusterCall, failures: nat)
    requires
        in_progress(c),
        c.attempts_made <= failures,
    ensures
        drive(c, failures) == (
            if failures < c.strategy.max_attempts() {
                (failures + 1, true)
            } else {
                (c.strategy.max_attempts(), false)
            }
        ),
    decreases c.strategy.max_attempts() - c.attempts_made,
{
    let ok = c.attempts_made >= failures;
    let (next, a) = after_attempt(c, ok);
    if a == ClusterAction::Call {
        lemma_drive(next, failures);
    }
}

/// A call against a service whose first `failures` attempts fail makes
/// `failures + 1` attempts and returns the response when that is within
/// the strategy's attempts; otherwise it makes every allowed attempt and
/// returns the last error. So fail fast makes one attempt, and fail over
/// never makes more than its attempts.
pub proof fn law_attempts(strategy: ClusterStrategy, failures: nat)
    requires
        strategy.max_attempts() >= 1,
    ensures
        drive(ClusterCall { strategy, attempts_made: 0, done: false }, failures) == (
            if failures < strategy.max_attempts() {
                (failures + 1, true)
            } else {
                (strategy.max_attempts(), false)
            }
        ),
{
    lemma_drive(ClusterCall { strategy, attempts_made: 0, done: false }, failures);
}

/// The retry decision of fail-over: retry after an error, not after a
/// response.
#[derive(Debug, Clone, Copy, Default)]
pub struct FailoverPolicy;

impl FailoverPolicy {
    /// Whether to retry after an attempt that succeeded (`true`) or failed.
    pub fn retry(&self, succeeded: bool) -> (r: bool)
        ensures
            r == !succeeded,
    {
        !succeeded
    }
}

/// A fail-over layer over the load balancer service `inner`.
pub struct Failover<N> {
    pub inner: N,
}

impl<N> Failover<N> {
    /// Fail-over over `inner`.
    pub fn new(inner: N) -> (r: Failover<N>)
        ensures
            r.inner == inner,
    {
        Failover { inner }
    }
}

/// A cluster over the load balancer service `inner`.
pub struct Cluster<S> {
    pub inner: S,
    pub strategy: ClusterStrategy,
}

impl<S> Cluster<S> {
    /// A cluster over `inner` with `strategy`.
    pub fn new(inner: S, strategy: ClusterStrategy) -> (r: Cluster<S>)
        ensures
            r.inner == inner,
            r.strategy == strategy,
    {
        Cluster { inner, strategy }
    }
}

/// Makes clusters with one strategy over services made by `inner`.
pub struct NewCluster<N> {
    pub inner: N,
    pub strategy: ClusterStrategy,
}

impl<N> NewCluster<N> {
    /// A maker of clusters over `inner` with `strategy`.
    pub fn new(inner: N, strategy: ClusterStrategy) -> (r: NewCluster<N>)
        ensures
            r.inner == inner,
            r.strategy == strategy,
    {
        NewCluster { inner, strategy }
    }
}

/// The parts of a request that every attempt sends again.
#[derive(Debug)]
pub struct RequestHead {
    pub method: String,
    pub uri: String,
    pub version: String,
    pub headers: Vec<(String, String)>,
}

/// `a` and `b` carry the same method, uri, version and headers.
pub open spec fn same_head(a: RequestHead, b: RequestHead) -> bool {
    &&& a.method == b.method
    &&& a.uri == b.uri
    &&& a.version == b.version
    &&& a.headers@ == b.headers@
}

impl RequestHead {
    /// A copy of the head.
    pub fn copy(&self) -> (r: RequestHead)
        ensures
            same_head(r, *self),
    {
        let mut headers: Vec<(String, String)> = Vec::new();
        let mut i: usize = 0;
        while i < self.headers.len()
            invariant
                i <= self.headers@.len(),
                headers@ == self.headers@.take(i as int),
            decreases self.headers@.len() - i,
        {
            let (k, v) = (self.headers[i].0.clone(), self.headers[i].1.clone());
            headers.push((k, v));
            i = i + 1;
            assert(headers@ =~= self.headers@.take(i as int));
        }
        assert(headers@ =~= self.headers@);
        RequestHead {
            method: self.method.clone(),
            uri: self.uri.clone(),
            version: self.version.clone(),
            headers,
        }
    }
}

/// The request of one attempt: the head, a body, and the request's
/// extensions where this attempt carries them.
#[derive(Debug)]
pub struct AttemptRequest<E> {
    pub head: RequestHead,
    pub body: BufferedBody,
    pub extensions: Option<E>,
}

/// The request of the next attempt of a call. Every attempt sends the
/// request's method, uri, version and headers again. The first attempt
/// takes the original body and the extensions (`first_body`,
/// `first_extensions`, emptied here); every later one sends a replica of
/// `replay`, which replays what the body has kept, and no extensions.
pub fn attempt_request<E>(
    head: &RequestHead,
    first_body: &mut Option<BufferedBody>,
    replay: &BufferedBody,
    first_extensions: &mut Option<E>,
) -> (r: AttemptRequest<E>)
    ensures
        same_head(r.head, *head),
        match *old(first_body) {
            Some(b) => r.body == b,
            None => r.body == replica_of(*replay),
        },
        r.extensions == *old(first_extensions),
        *final(first_body) is None,
        *final(first_extensions) is None,
{
    let mut taken: Option<BufferedBody> = None;
    std::mem::swap(&mut taken, first_body);
    let body = match taken {
        Some(b) => b,
        None => replay.replica(),
    };
    let mut extensions: Option<E> = None;
    std::mem::swap(&mut extensions, first_extensions);
    AttemptRequest { head: head.copy(), body, extensions }
}

} // verus!
