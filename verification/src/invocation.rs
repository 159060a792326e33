//! What travels with a call: the target service and method, the request and
//! response envelopes and their metadata.
use crate::params::{insert_entry, keys_unique, Entries, ParamMap};
use vstd::prelude::*;
use vstd::string::*;

verus! {

/// Request or response metadata: header names and values.
#[derive(Debug, Clone, Default)]
pub struct Metadata {
    inner: ParamMap,
}

impl View for Metadata {
    type V = Entries;

    closed spec fn view(&self) -> Entries {
        self.inner@
    }
}

impl Metadata {
    /// Empty metadata.
    pub fn new() -> (m: Metadata)
        ensures
            m@ == Seq::<(Seq<char>, Seq<char>)>::empty(),
    {
        Metadata { inner: ParamMap::new() }
    }

    /// Metadata holding the given entries.
    pub fn from_params(inner: ParamMap) -> (m: Metadata)
        ensures
            m@ == inner@,
    {
        Metadata { inner }
    }

    /// The entries.
    pub fn params(&self) -> (p: &ParamMap)
        ensures
            p@ == self@,
    {
        &self.inner
    }

    /// Stores `v` under `k`.
    pub fn insert(&mut self, k: String, v: String)
        ensures
            final(self)@ == insert_entry(old(self)@, k@, v@),
            keys_unique(final(self)@),
    {
        self.inner.insert(k, v);
    }
}

/// A request: a message and its metadata.
#[derive(Debug)]
pub struct Request<T> {
    pub message: T,
    pub metadata: Metadata,
}

impl<T> Request<T> {
    /// A request carrying `message` with empty metadata.
    pub fn new(message: T) -> (r: Request<T>)
        ensures
            r.message == message,
            r.metadata@ == Seq::<(Seq<char>, Seq<char>)>::empty(),
    {
        Request { message, metadata: Metadata::new() }
    }

    /// The message.
    pub fn into_inner(self) -> (m: T)
        ensures
            m == self.message,
    {
        self.message
    }

    /// The metadata and the message.
    pub fn into_parts(self) -> (r: (Metadata, T))
        ensures
            r.0 == self.metadata,
            r.1 == self.message,
    {
        (self.metadata, self.message)
    }

    /// A request from its metadata and message.
    pub fn from_parts(metadata: Metadata, message: T) -> (r: Request<T>)
        ensures
            r.metadata == metadata,
            r.message == message,
    {
        Request { message, metadata }
    }

    /// The request with `f` applied to its message; the metadata is kept.
    pub fn map<F, U>(self, f: F) -> (r: Request<U>) where F: FnOnce(T) -> U
        requires
            call_requires(f, (self.message,)),
        ensures
            call_ensures(f, (self.message,), r.message),
            r.metadata == self.metadata,
            self.mapped_by(f, r),
    {
        let m = f(self.message);
        Request { message: m, metadata: self.metadata }
    }
}

/// A response: a message and its metadata.
#[derive(Debug)]
pub struct Response<T> {
    message: T,
    metadata: Metadata,
}

impl<T> Response<T> {
    pub closed spec fn message_of(&self) -> T {
        self.message
    }

    pub closed spec fn metadata_of(&self) -> Metadata {
        self.metadata
    }

    /// A response carrying `message` with empty metadata.
    pub fn new(message: T) -> (r: Response<T>)
        ensures
            r.message_of() == message,
            r.metadata_of()@ == Seq::<(Seq<char>, Seq<char>)>::empty(),
    {
        Response { message, metadata: Metadata::new() }
    }

    /// A response from its metadata and message.
    pub fn from_parts(metadata: Metadata, message: T) -> (r: Response<T>)
        ensures
            r.metadata_of() == metadata,
            r.message_of() == message,
    {
        Response { message, metadata }
    }

    /// The metadata and the message.
    pub fn into_parts(self) -> (r: (Metadata, T))
        ensures
            r.0 == self.metadata_of(),
            r.1 == self.message_of(),
    {
        (self.metadata, self.message)
    }

    /// The response with `f` applied to its message; the metadata is kept.
    pub fn map<F, U>(self, f: F) -> (r: Response<U>) where F: FnOnce(T) -> U
        requires
            call_requires(f, (self.message_of(),)),
        ensures
            call_ensures(f, (self.message_of(),), r.message_of()),
            r.metadata_of() == self.metadata_of(),
            self.mapped_by(f, r),
    {
        let u = f(self.message);
        Response { message: u, metadata: self.metadata }
    }
}

/// `f` gives one value for each argument.
pub open spec fn deterministic<A, B, F: FnOnce(A) -> B>(f: F) -> bool {
    forall|x: A, y1: B, y2: B|
        #[trigger] call_ensures(f, (x,), y1) && #[trigger] call_ensures(f, (x,), y2) ==> y1 == y2
}

/// `f` gives back its argument.
pub open spec fn is_identity<A, F: FnOnce(A) -> A>(f: F) -> bool {
    forall|x: A, y: A| #[trigger] call_ensures(f, (x,), y) ==> y == x
}

/// `h` is `g` after `f`: what `h` gives for `x`, `g` gives for a value that
/// `f` gives for `x`.
pub open spec fn composed<A, B, C, F: FnOnce(A) -> B, G: FnOnce(B) -> C, H: FnOnce(A) -> C>(
    f: F,
    g: G,
    h: H,
) -> bool {
    forall|x: A, z: C| #[trigger] call_ensures(h, (x,), z) ==> exists|y: B|
        #[trigger] call_ensures(f, (x,), y) && call_ensures(g, (y,), z)
}

impl<T> Request<T> {
    /// `r` is what `map` gives for this request and `f`.
    pub open spec fn mapped_by<U, F: FnOnce(T) -> U>(self, f: F, r: Request<U>) -> bool {
        call_ensures(f, (self.message,), r.message) && r.metadata == self.metadata
    }
}

impl<T> Response<T> {
    /// `r` is what `map` gives for this response and `f`.
    pub open spec fn mapped_by<U, F: FnOnce(T) -> U>(self, f: F, r: Response<U>) -> bool {
        call_ensures(f, (self.message_of(),), r.message_of()) && r.metadata_of() == self.metadata_of()
    }
}

/// Mapping a request with a function that gives back its argument leaves
/// the request as it was.
pub proof fn law_request_map_identity<T, F: FnOnce(T) -> T>(a: Request<T>, f: F, b: Request<T>)
    requires
        a.mapped_by(f, b),
        is_identity(f),
    ensures
        b == a,
{
}

/// Mapping a request with `f` and then with `g` gives what mapping it once
/// with `g` after `f` gives, where `f` and `g` give one value for each
/// argument.
pub proof fn law_request_map_compose<T, U, V, F: FnOnce(T) -> U, G: FnOnce(U) -> V, H: FnOnce(T) -> V>(
    a: Request<T>,
    f: F,
    b: Request<U>,
    g: G,
    c: Request<V>,
    h: H,
    d: Request<V>,
)
    requires
        a.mapped_by(f, b),
        b.mapped_by(g, c),
        a.mapped_by(h, d),
        composed(f, g, h),
        deterministic(f),
        deterministic(g),
    ensures
        c == d,
{
    let y = choose|y: U| call_ensures(f, (a.message,), y) && call_ensures(g, (y,), d.message);
    assert(y == b.message);
    assert(d.message == c.message);
}

/// Mapping a response with a function that gives back its argument leaves
/// the response as it was.
pub proof fn law_response_map_identity<T, F: FnOnce(T) -> T>(a: Response<T>, f: F, b: Response<T>)
    requires
        a.mapped_by(f, b),
        is_identity(f),
    ensures
        b == a,
{
}

/// Mapping a response with `f` and then with `g` gives what mapping it once
/// with `g` after `f` gives, where `f` and `g` give one value for each
/// argument.
pub proof fn law_response_map_compose<T, U, V, F: FnOnce(T) -> U, G: FnOnce(U) -> V, H: FnOnce(T) -> V>(
    a: Response<T>,
    f: F,
    b: Response<U>,
    g: G,
    c: Response<V>,
    h: H,
    d: Response<V>,
)
    requires
        a.mapped_by(f, b),
        b.mapped_by(g, c),
        a.mapped_by(h, d),
        composed(f, g, h),
        deterministic(f),
        deterministic(g),
    ensures
        c == d,
{
    let y = choose|y: U| call_ensures(f, (a.message_of(),), y) && call_ensures(g, (y,), d.message_of());
    assert(y == b.message_of());
    assert(d.message_of() == c.message_of());
}

/// The target of a call.
pub trait Invocation {
    fn get_target_service_unique_name(&self) -> String;

    fn get_method_name(&self) -> String;
}

/// An invocation: the unique name of the target service and the method.
#[derive(Debug, Clone, Default)]
pub struct RpcInvocation {
    target_service_unique_name: String,
    method_name: String,
}

impl RpcInvocation {
    /// The unique name of the target service.
    pub closed spec fn service_view(&self) -> Seq<char> {
        self.target_service_unique_name@
    }

    /// The method name.
    pub closed spec fn method_view(&self) -> Seq<char> {
        self.method_name@
    }

    /// An invocation with empty service and method names.
    pub fn new() -> (r: RpcInvocation)
        ensures
            r.service_view() == Seq::<char>::empty(),
            r.method_view() == Seq::<char>::empty(),
    {
        RpcInvocation { target_service_unique_name: String::new(), method_name: String::new() }
    }

    /// The invocation aimed at `service_unique_name`.
    pub fn with_service_unique_name(self, service_unique_name: String) -> (r: RpcInvocation)
        ensures
            r.service_view() == service_unique_name@,
            r.method_view() == self.method_view(),
    {
        RpcInvocation { target_service_unique_name: service_unique_name, ..self }
    }

    /// The invocation of method `method_name`.
    pub fn with_method_name(self, method_name: String) -> (r: RpcInvocation)
        ensures
            r.method_view() == method_name@,
            r.service_view() == self.service_view(),
    {
        RpcInvocation { method_name, ..self }
    }

    /// `service#method`.
    pub fn unique_fingerprint(&self) -> (r: String)
        ensures
            r@ == self.service_view() + seq!['#'] + self.method_view(),
    {
        proof {
            reveal_strlit("#");
        }
        let mut r = String::from_str(self.target_service_unique_name.as_str());
        r.append("#");
        r.append(self.method_name.as_str());
        r
    }

    /// A copy of the invocation.
    pub fn copy(&self) -> (r: RpcInvocation)
        ensures
            r.service_view() == self.service_view(),
            r.method_view() == self.method_view(),
    {
        RpcInvocation {
            target_service_unique_name: self.target_service_unique_name.clone(),
            method_name: self.method_name.clone(),
        }
    }
}

impl Invocation for RpcInvocation {
    fn get_target_service_unique_name(&self) -> (r: String)
        ensures
            r@ == self.service_view(),
    {
        self.target_service_unique_name.clone()
    }

    fn get_method_name(&self) -> (r: String)
        ensures
            r@ == self.method_view(),
    {
        self.method_name.clone()
    }
}

} // verus!
