//! The call context, the log level setting, and the messages and method
//! dispatch of the example services.
use crate::framework::{debug_quoted, debug_text};
use crate::params::{Entries, ParamMap};
use crate::url::concat2;
use crate::text::{is_ws, trim, trim_str};
use vstd::prelude::*;
use vstd::string::*;

verus! {

/// What travels with the current call: its attachments.
#[derive(Debug, Default, Clone)]
pub struct RpcContext {
    pub attachments: ParamMap,
}

impl RpcContext {
    /// A context with no attachment.
    pub fn new() -> (c: RpcContext)
        ensures
            c.attachments@.len() == 0,
    {
        RpcContext { attachments: ParamMap::new() }
    }

    /// Removes every attachment.
    pub fn clear(&mut self)
        ensures
            final(self).attachments@.len() == 0,
    {
        self.attachments.clear();
    }
}

/// Log levels.
#[derive(Debug, Clone, Copy, PartialEq, Eq)]
pub enum Level {
    Error,
    Warn,
    Info,
    Debug,
    Trace,
}

/// The text lower-cased as `str::to_lowercase` does (Unicode lower case,
/// one character sometimes becoming several).
pub uninterp spec fn lowercase(s: Seq<char>) -> Seq<char>;

/// `str::to_lowercase`. The contract claims only that the result is a
/// function of the text, named `lowercase`; the Unicode case tables are the
/// standard library's.
#[verifier::external_body]
fn to_lowercase(s: &str) -> (r: String)
    ensures
        r@ == lowercase(s@),
{
    s.to_lowercase()
}

/// The level a configured name stands for: `error`, `warn`, `info`,
/// `debug` or `trace` after lower-casing and trimming; anything else is
/// `Info`.
pub open spec fn level_of(name: Seq<char>) -> Level {
    let t = trim(lowercase(name));
    if t == seq!['e', 'r', 'r', 'o', 'r'] {
        Level::Error
    } else if t == seq!['w', 'a', 'r', 'n'] {
        Level::Warn
    } else if t == seq!['d', 'e', 'b', 'u', 'g'] {
        Level::Debug
    } else if t == seq!['t', 'r', 'a', 'c', 'e'] {
        Level::Trace
    } else {
        Level::Info
    }
}

/// A log level, read from configuration.
#[derive(Debug, Clone, Copy)]
pub struct LevelWrapper {
    pub inner: Level,
}

impl LevelWrapper {
    pub fn new(level: Level) -> (w: LevelWrapper)
        ensures
            w.inner == level,
    {
        LevelWrapper { inner: level }
    }

    /// The level named by `s` (see `level_of`); there must be a name.
    pub fn from(s: Option<String>) -> (w: LevelWrapper)
        requires
            s is Some,
        ensures
            w.inner == level_of(s->0@),
    {
        proof {
            reveal_strlit("error");
            reveal_strlit("warn");
            reveal_strlit("info");
            reveal_strlit("debug");
            reveal_strlit("trace");
            assert("error"@ =~= seq!['e', 'r', 'r', 'o', 'r']);
            assert("warn"@ =~= seq!['w', 'a', 'r', 'n']);
            assert("info"@ =~= seq!['i', 'n', 'f', 'o']);
            assert("debug"@ =~= seq!['d', 'e', 'b', 'u', 'g']);
            assert("trace"@ =~= seq!['t', 'r', 'a', 'c', 'e']);
        }
        let name = match s {
            Some(n) => n,
            None => {
                return LevelWrapper::new(Level::Info);
            },
        };
        let lower = to_lowercase(name.as_str());
        let t = trim_str(lower.as_str());
        if t == String::from_str("error") {
            LevelWrapper::new(Level::Error)
        } else if t == String::from_str("warn") {
            LevelWrapper::new(Level::Warn)
        } else if t == String::from_str("info") {
            LevelWrapper::new(Level::Info)
        } else if t == String::from_str("debug") {
            LevelWrapper::new(Level::Debug)
        } else if t == String::from_str("trace") {
            LevelWrapper::new(Level::Trace)
        } else {
            LevelWrapper::new(Level::Info)
        }
    }
}

/// The request of the example greeting service.
#[derive(Debug, Clone, Default, PartialEq, Eq)]
pub struct HelloRequest {
    pub name: String,
}

/// The reply of the example greeting service.
#[derive(Debug, Clone, Default, PartialEq, Eq)]
pub struct HelloReply {
    pub message: String,
}


/// The methods of the example echo service, by request path.
#[derive(Debug, Clone, Copy, PartialEq, Eq)]
pub enum EchoMethod {
    /// `/hello`: one request, one reply.
    Hello,
    /// `/bidi_stream`: a stream each way.
    BidiStream,
    /// Any other path.
    Unimplemented,
}

/// The echo method a request path calls.
pub fn echo_method(path: &str) -> (m: EchoMethod)
    ensures
        m == (if path@ == "/hello"@ {
            EchoMethod::Hello
        } else if path@ == "/bidi_stream"@ {
            EchoMethod::BidiStream
        } else {
            EchoMethod::Unimplemented
        }),
{
    let p = String::from_str(path);
    if p == String::from_str("/hello") {
        EchoMethod::Hello
    } else if p == String::from_str("/bidi_stream") {
        EchoMethod::BidiStream
    } else {
        EchoMethod::Unimplemented
    }
}

/// The methods of the example greeter service, by request path.
#[derive(Debug, Clone, Copy, PartialEq, Eq)]
pub enum GreeterMethod {
    /// `/helloworld.Greeter/SayHello`.
    SayHello,
    /// Any other path.
    Unimplemented,
}

/// The greeter method a request path calls.
pub fn greeter_method(path: &str) -> (m: GreeterMethod)
    ensures
        m == (if path@ == "/helloworld.Greeter/SayHello"@ {
            GreeterMethod::SayHello
        } else {
            GreeterMethod::Unimplemented
        }),
{
    if String::from_str(path) == String::from_str("/helloworld.Greeter/SayHello") {
        GreeterMethod::SayHello
    } else {
        GreeterMethod::Unimplemented
    }
}

/// The HTTP status of the answer to a call of an unknown method.
pub const UNIMPLEMENTED_HTTP_STATUS: u16 = 200;

/// The headers of the answer to a call of an unknown method: gRPC status
/// 12 (unimplemented), gRPC content.
pub fn unimplemented_headers() -> (h: Vec<(String, String)>)
    ensures
        h@.len() == 2,
        h@[0].0@ == "grpc-status"@ && h@[0].1@ == "12"@,
        h@[1].0@ == "content-type"@ && h@[1].1@ == "application/grpc"@,
{
    let mut h: Vec<(String, String)> = Vec::new();
    h.push((String::from_str("grpc-status"), String::from_str("12")));
    h.push((String::from_str("content-type"), String::from_str("application/grpc")));
    h
}

/// The whole answer to a call of an unknown method: HTTP status 200, the
/// headers of `unimplemented_headers`, and an empty body.
pub fn unimplemented_answer() -> (a: (u16, Vec<(String, String)>, Vec<u8>))
    ensures
        a.0 == 200,
        a.0 == UNIMPLEMENTED_HTTP_STATUS,
        a.1@.len() == 2,
        a.1@[0].0@ == "grpc-status"@ && a.1@[0].1@ == "12"@,
        a.1@[1].0@ == "content-type"@ && a.1@[1].1@ == "application/grpc"@,
        a.2@.len() == 0,
{
    (UNIMPLEMENTED_HTTP_STATUS, unimplemented_headers(), Vec::new())
}

/// What the echo service's stream of requests gives next.
#[derive(Debug, Clone, PartialEq, Eq)]
pub enum EchoEvent {
    /// A request, carrying this name.
    Message(String),
    /// The stream failed because the client went away (a broken pipe).
    BrokenPipe,
    /// The stream failed otherwise.
    Error,
    /// An error could not be passed on: the replies are no longer read.
    ErrorNotForwarded,
    /// The stream ended.
    Ended,
}

/// What the echo service does with an event of its request stream.
#[derive(Debug, Clone, PartialEq, Eq)]
pub enum EchoAction {
    /// Send this reply.
    Reply(String),
    /// Pass the stream's error on to the client.
    ForwardError,
    /// Stop answering.
    Stop,
}

/// The echo service's answer to one event of its bidirectional stream: a
/// request named `n` is answered with `server reply: ` and `n` as `{:?}`
/// writes it; an error is passed on, except a broken pipe, which stops the
/// stream, as does an error that cannot be passed on or the stream's end.
pub fn echo_step(event: &EchoEvent) -> (a: EchoAction)
    ensures
        match *event {
            EchoEvent::Message(n) => a matches EchoAction::Reply(s) && s@ == "server reply: "@ + debug_quoted(n@),
            EchoEvent::Error => a == EchoAction::ForwardError,
            _ => a == EchoAction::Stop,
        },
{
    match event {
        EchoEvent::Message(n) => {
            let quoted = debug_text(n.as_str());
            EchoAction::Reply(concat2("server reply: ", quoted.as_str()))
        },
        EchoEvent::Error => EchoAction::ForwardError,
        _ => EchoAction::Stop,
    }
}

} // verus!
