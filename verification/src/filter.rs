//! Call deadlines: the context filter records when a call must be answered
//! by, from the client's countdown header or the default; the timeout
//! filter refuses a call whose deadline has come.
use crate::context::RpcContext;
use crate::invocation::{Metadata, Request};
use crate::matcher::{all_digits, digits_u128, digits_value};
use crate::text::chars_of;
use crate::params::{insert_entry, keys_unique, lemma_insert_entry_unique, lookup};
use vstd::arithmetic::div_mod::{lemma_fundamental_div_mod, lemma_mod_bound};
use vstd::prelude::*;
use vstd::string::*;

verus! {

/// The header that carries the client's countdown, in milliseconds.
pub const TIMEOUT_COUNTDOWN: &'static str = "timeout-countdown";

/// The countdown of a call without one, in milliseconds.
pub const TIMEOUT_DEFAULT: u128 = 1000;

/// The attachment that carries a call's deadline, in nanoseconds since the
/// epoch.
pub const TRI_TIMEOUT_DEADLINE_IN_NANOS: &'static str = "tri-timeout-deadline-in-nanos";

/// The status codes of a refused call.
#[derive(Debug, Clone, Copy, PartialEq, Eq)]
pub enum Code {
    Unknown,
    Internal,
    DeadlineExceeded,
    PermissionDenied,
}

/// Why a call was refused.
#[derive(Debug, Clone, PartialEq, Eq)]
pub struct Status {
    pub code: Code,
    pub message: String,
}

/// What `u128::from_str` accepts: an optional `+`, then one or more ASCII
/// digits, with the value in range.
pub open spec fn u128_of_text(s: Seq<char>) -> Option<u128> {
    let d = if s.len() > 0 && s[0] == '+' {
        s.drop_first()
    } else {
        s
    };
    if d.len() == 0 || !all_digits(d) || digits_value(d) > u128::MAX {
        None
    } else {
        Some(digits_value(d) as u128)
    }
}

/// `s.parse::<u128>().ok()`: an optional `+` followed by digits only, in
/// range (see `u128_of_text`).
fn parse_u128(s: &str) -> (r: Option<u128>)
    ensures
        r == u128_of_text(s@),
{
    let v = chars_of(s);
    let from: usize = if v.len() > 0 && v[0] == '+' { 1 } else { 0 };
    proof {
        if from == 1 {
            assert(v@.skip(1) =~= s@.drop_first());
        } else {
            assert(v@.skip(0) =~= s@);
        }
    }
    digits_u128(&v, from)
}

/// The decimal digit for `d < 10`.
pub open spec fn digit_char(d: nat) -> char {
    ('0' as int + d) as char
}

/// `n` written in decimal, without leading zeros.
pub open spec fn decimal_text(n: nat) -> Seq<char>
    decreases n,
{
    if n < 10 {
        seq![digit_char(n)]
    } else {
        decimal_text(n / 10) + seq![digit_char(n % 10)]
    }
}

/// The digit `d < 10` as text.
fn digit_str(d: u128) -> (s: &'static str)
    requires
        d < 10,
    ensures
        s@ == seq![digit_char(d as nat)],
{
    proof {
        reveal_strlit("0");
        reveal_strlit("1");
        reveal_strlit("2");
        reveal_strlit("3");
        reveal_strlit("4");
        reveal_strlit("5");
        reveal_strlit("6");
        reveal_strlit("7");
        reveal_strlit("8");
        reveal_strlit("9");
    }
    if d == 0 {
        "0"
    } else if d == 1 {
        "1"
    } else if d == 2 {
        "2"
    } else if d == 3 {
        "3"
    } else if d == 4 {
        "4"
    } else if d == 5 {
        "5"
    } else if d == 6 {
        "6"
    } else if d == 7 {
        "7"
    } else if d == 8 {
        "8"
    } else {
        "9"
    }
}

/// `n` written in decimal.
pub fn decimal(n: u128) -> (s: String)
    ensures
        s@ == decimal_text(n as nat),
    decreases n,
{
    if n < 10 {
        String::from_str(digit_str(n))
    } else {
        let mut s = decimal(n / 10);
        s.append(digit_str(n % 10));
        s
    }
}

/// Reading back a decimal text gives the number: it is made of digits, does
/// not start with `+`, and its value is `n`.
pub proof fn lemma_decimal_reads_back(n: nat)
    ensures
        decimal_text(n).len() > 0,
        decimal_text(n)[0] != '+',
        all_digits(decimal_text(n)),
        digits_value(decimal_text(n)) == n,
    decreases n,
{
    if n >= 10 {
        lemma_decimal_reads_back(n / 10);
        let t = decimal_text(n);
        let h = decimal_text(n / 10);
        lemma_fundamental_div_mod(n as int, 10);
        lemma_mod_bound(n as int, 10);
        assert(t == h + seq![digit_char(n % 10)]);
        assert(t.drop_last() =~= h);
        assert(t[0] == h[0]);
        assert forall|i: int| 0 <= i < t.len() implies '0' <= #[trigger] t[i] && t[i] <= '9' by {
            if i < h.len() {
                assert(t[i] == h[i]);
            }
        }
        let d = n % 10;
        assert(t.last() == digit_char(d));
        assert(digit_char(d) as int == '0' as int + d);
        assert(digits_value(t) == digits_value(h) * 10 + (t.last() as int - '0' as int));
        assert(digits_value(h) == n / 10);
        assert(digits_value(t) == (n / 10) * 10 + d);
        assert((n / 10) * 10 == 10 * (n / 10)) by (nonlinear_arith);
    } else {
        assert(digit_char(n) as int == '0' as int + n);
        assert(decimal_text(n).drop_last() =~= Seq::<char>::empty());
        assert(digits_value(Seq::<char>::empty()) == 0);
    }
}

/// The deadline of a call made at `now` with countdown `timeout`
/// (milliseconds): `now` plus the countdown, when it is positive; zero for
/// a zero countdown; `now` plus the default without one.
pub open spec fn deadline_of(now: u128, timeout: Option<u128>) -> int {
    match timeout {
        Some(t) => if t > 0 {
            now + t * 1_000_000
        } else {
            0
        },
        None => now + TIMEOUT_DEFAULT * 1_000_000,
    }
}

/// The countdown a request carries, read from its header.
pub open spec fn countdown_of(req_headers: Seq<(Seq<char>, Seq<char>)>) -> Option<u128> {
    match lookup(req_headers, TIMEOUT_COUNTDOWN@) {
        Some(t) => u128_of_text(t),
        None => None,
    }
}

/// Records the deadline of each call in its context.
#[derive(Debug, Clone, Copy, Default)]
pub struct ContextFilter {}

impl ContextFilter {
    /// Records in `ctx` the deadline of `req`, received at `now`
    /// (nanoseconds since the epoch), written in decimal (see
    /// `deadline_of`); the request passes on unchanged. A countdown header
    /// must be a number, and the deadline must fit in 128 bits.
    pub fn call<T>(&mut self, req: Request<T>, ctx: &mut RpcContext, now: u128) -> (r: Result<Request<T>, Status>)
        requires
            lookup(req.metadata@, TIMEOUT_COUNTDOWN@) matches Some(t) ==> u128_of_text(t) is Some,
            deadline_of(now, countdown_of(req.metadata@)) <= u128::MAX,
        ensures
            r == Ok::<Request<T>, Status>(req),
            final(ctx).attachments@ == insert_entry(
                old(ctx).attachments@,
                TRI_TIMEOUT_DEADLINE_IN_NANOS@,
                decimal_text(deadline_of(now, countdown_of(req.metadata@)) as nat),
            ),
    {
        let timeout = req.metadata.params().get(TIMEOUT_COUNTDOWN);
        let mut dead_line_in_nanos: u128 = 0;
        match timeout {
            Some(t) => {
                let timeout = parse_u128(t.as_str()).unwrap();
                if timeout > 0 {
                    dead_line_in_nanos = now + timeout * 1000000;
                }
            },
            None => {
                let timeout: u128 = TIMEOUT_DEFAULT * 1000000;
                dead_line_in_nanos = now + timeout;
            },
        }
        ctx.attachments.insert(String::from_str(TRI_TIMEOUT_DEADLINE_IN_NANOS), decimal(dead_line_in_nanos));
        Ok(req)
    }
}

/// Refuses the calls whose deadline has come.
#[derive(Debug, Clone, Copy, Default)]
pub struct TimeoutFilter {}

/// The deadline recorded in a call context, when it reads as a number.
pub open spec fn recorded_deadline(attachments: Seq<(Seq<char>, Seq<char>)>) -> Option<u128> {
    match lookup(attachments, TRI_TIMEOUT_DEADLINE_IN_NANOS@) {
        Some(d) => u128_of_text(d),
        None => None,
    }
}

impl TimeoutFilter {
    /// Refuses `req`, at `now` (nanoseconds since the epoch), with
    /// `DeadlineExceeded` and the message `Timeout` when the deadline
    /// recorded in `ctx` is not after `now` (the time left, deadline minus
    /// now, is zero or less; a deadline already past counts as timed out,
    /// with no wrap-around); passes it on unchanged
    /// otherwise. The context must carry a deadline that reads as a number.
    pub fn call<T>(&mut self, req: Request<T>, ctx: &RpcContext, now: u128) -> (r: Result<Request<T>, Status>)
        requires
            recorded_deadline(ctx.attachments@) is Some,
        ensures
            if recorded_deadline(ctx.attachments@)->0 <= now {
                r matches Err(s) && s.code == Code::DeadlineExceeded && s.message@ == "Timeout"@
            } else {
                r == Ok::<Request<T>, Status>(req)
            },
    {
        let text = ctx.attachments.get(TRI_TIMEOUT_DEADLINE_IN_NANOS).unwrap();
        let deadline = parse_u128(text.as_str()).unwrap();
        if deadline <= now {
            return Err(Status { code: Code::DeadlineExceeded, message: String::from_str("Timeout") });
        }
        Ok(req)
    }
}

/// The deadline the context filter records is the one the timeout filter
/// reads: a call times out exactly when `now` reaches the deadline of its
/// countdown.
pub proof fn law_deadline_is_read_back(
    attachments: Seq<(Seq<char>, Seq<char>)>,
    now: u128,
    timeout: Option<u128>,
)
    requires
        keys_unique(attachments),
        0 <= deadline_of(now, timeout) <= u128::MAX,
    ensures
        recorded_deadline(
            insert_entry(attachments, TRI_TIMEOUT_DEADLINE_IN_NANOS@, decimal_text(deadline_of(now, timeout) as nat)),
        ) == Some(deadline_of(now, timeout) as u128),
{
    let d = deadline_of(now, timeout) as nat;
    lemma_decimal_reads_back(d);
    lemma_insert_entry_unique(attachments, TRI_TIMEOUT_DEADLINE_IN_NANOS@, decimal_text(d));
}


/// Looks at a request before it is sent: passes it on, maybe with other
/// metadata, or refuses it with a status. Implemented by users; a filter
/// sees the metadata only, never the message.
pub trait Filter: Sized {
    /// The filter, given `req`, may answer `res` and become `next`. What it
    /// answers is the implementation's own; one that does not say allows
    /// any answer.
    open spec fn answers(&self, req: Request<()>, next: Self, res: Result<Request<()>, Status>) -> bool {
        true
    }

    fn call(&mut self, req: Request<()>) -> (res: Result<Request<()>, Status>)
        ensures
            old(self).answers(req, *final(self), res);
}

/// A filter applied by a cluster before a request is sent.
pub trait ClusterFilter: Sized {
    /// The filter, given `req`, may answer `res` and become `next`. What it
    /// answers is the implementation's own; one that does not say allows
    /// any answer.
    open spec fn answers(&self, req: Request<()>, next: Self, res: Result<Request<()>, Status>) -> bool {
        true
    }

    fn call(&mut self, req: Request<()>) -> (res: Result<Request<()>, Status>)
        ensures
            old(self).answers(req, *final(self), res);
}

/// What a filtered service does with a request.
#[derive(Debug)]
pub enum Forward<T> {
    /// Send this request on to the inner service.
    Call(Request<T>),
    /// Answer at once with this status.
    Answer(Status),
}

/// `r` is what a filtered service does once its filter answered `res`: a
/// request passed on goes on with the filter's metadata and `message`; a
/// refusal is answered with its status.
pub open spec fn forwarded<T>(res: Result<Request<()>, Status>, message: T, r: Forward<T>) -> bool {
    match res {
        Ok(req) => r matches Forward::Call(q) && q.metadata == req.metadata && q.message == message,
        Err(s) => r == Forward::<T>::Answer(s),
    }
}

impl<T> Forward<T> {
    /// What a filtered service does once its filter answered `filtered`: a
    /// request passed on is sent with the filter's metadata and the
    /// original `message`; a refusal is answered with its status.
    pub fn from_filtered(filtered: Result<Request<()>, Status>, message: T) -> (r: Forward<T>)
        ensures
            match filtered {
                Ok(req) => r matches Forward::Call(q) && q.metadata == req.metadata && q.message == message,
                Err(s) => r == Forward::<T>::Answer(s),
            },
    {
        match filtered {
            Ok(req) => {
                let (metadata, _) = req.into_parts();
                Forward::Call(Request::from_parts(metadata, message))
            },
            Err(status) => Forward::Answer(status),
        }
    }
}

/// Makes a layer that puts `filter` in front of services.
pub fn cluster_filter<F>(filter: F) -> (l: ClusterFilterLayer<F>)
    ensures
        l.filter == filter,
{
    ClusterFilterLayer { filter }
}

/// Puts a cluster filter in front of services.
#[derive(Debug, Clone)]
pub struct ClusterFilterLayer<F> {
    pub filter: F,
}

impl<F> ClusterFilterLayer<F> {
    /// `inner` behind the filter.
    pub fn layer<S>(self, inner: S) -> (s: ClusterFilterService<S, F>)
        ensures
            s.inner == inner,
            s.filter == self.filter,
    {
        ClusterFilterService { inner, filter: self.filter }
    }
}

/// A service behind a cluster filter.
#[derive(Debug, Clone)]
pub struct ClusterFilterService<S, CF> {
    pub inner: S,
    pub filter: CF,
}

impl<S, CF: ClusterFilter> ClusterFilterService<S, CF> {
    /// `inner` behind `filter`.
    pub fn new(inner: S, filter: CF) -> (s: ClusterFilterService<S, CF>)
        ensures
            s.inner == inner,
            s.filter == filter,
    {
        ClusterFilterService { inner, filter }
    }

    /// Runs the filter on the request's metadata alone and answers as
    /// `Forward::from_filtered` does with what the filter gave back; the
    /// inner service is left as it is. `message` is the rest of the request
    /// (its method, uri, version and body): the inner service gets it
    /// unchanged, with the metadata the filter gave back as its headers.
    /// What the filter answers is the user's filter's own.
    pub fn forward<T>(&mut self, metadata: Metadata, message: T) -> (r: Forward<T>)
        ensures
            r matches Forward::Call(req) ==> req.message == message,
            final(self).inner == old(self).inner,
            exists|res: Result<Request<()>, Status>|
                #[trigger] old(self).filter.answers(Request { message: (), metadata }, final(self).filter, res)
                    && forwarded(res, message, r),
    {
        let ghost m = metadata;
        let ghost msg = message;
        let req = Request::from_parts(metadata, ());
        assert(req == Request { message: (), metadata: m });
        let filtered = self.filter.call(req);
        let r = Forward::from_filtered(filtered, message);
        assert(old(self).filter.answers(Request { message: (), metadata: m }, self.filter, filtered));
        assert(forwarded(filtered, msg, r));
        r
    }
}

/// A service behind a filter.
#[derive(Debug, Clone)]
pub struct FilterService<S, F> {
    pub inner: S,
    pub f: F,
}

impl<S, F: Filter> FilterService<S, F> {
    /// `inner` behind `f`.
    pub fn new(inner: S, f: F) -> (s: FilterService<S, F>)
        ensures
            s.inner == inner,
            s.f == f,
    {
        FilterService { inner, f }
    }

    /// Runs the filter on the request's metadata alone and answers as
    /// `Forward::from_filtered` does with what the filter gave back; the
    /// inner service is left as it is. What the filter answers is the
    /// user's filter's own.
    pub fn forward<T>(&mut self, metadata: Metadata, message: T) -> (r: Forward<T>)
        ensures
            r matches Forward::Call(req) ==> req.message == message,
            final(self).inner == old(self).inner,
            exists|res: Result<Request<()>, Status>|
                #[trigger] old(self).f.answers(Request { message: (), metadata }, final(self).f, res)
                    && forwarded(res, message, r),
    {
        let ghost m = metadata;
        let ghost msg = message;
        let req = Request::from_parts(metadata, ());
        assert(req == Request { message: (), metadata: m });
        let filtered = self.f.call(req);
        let r = Forward::from_filtered(filtered, message);
        assert(old(self).f.answers(Request { message: (), metadata: m }, self.f, filtered));
        assert(forwarded(filtered, msg, r));
        r
    }
}

} // verus!
