//! The one error type of the library, and the text each error reads as.

use crate::clock::Duration;
use crate::text::{decimal_chars, push_str, u128_to_string, u64_to_string, usize_to_string};
use vstd::prelude::*;

verus! {

#[derive(Debug, Clone)]
pub enum Error {
    /// An operating-system I/O failure, carried as its message.
    Io(String),
    /// A JSON (de)serialization failure, carried as its message.
    Json(String),
    Protocol(String),
    /// The server answered `ContentModified` (-32801): transient, retryable.
    ContentModified { method: String },
    Config(String),
    NoCallHierarchy { server: String },
    Timeout { method: String, timeout: Duration },
    ServerExited,
    NotReady { timeout: Duration, tried: usize },
    NoCandidates { files_attempted: usize, files_failed: usize },
}

pub type Result<T> = core::result::Result<T, Error>;

/// The text an error reads as.
pub open spec fn error_text(e: Error) -> Seq<char> {
    match e {
        Error::Io(m) => "io: "@ + m@,
        Error::Json(m) => "json: "@ + m@,
        Error::Protocol(m) => "protocol: "@ + m@,
        Error::ContentModified { method } => method@ + ": server reported content modified (transient)"@,
        Error::Config(m) => "config: "@ + m@,
        Error::NoCallHierarchy { server } => "language server "@ + server@
            + " does not advertise callHierarchyProvider"@,
        Error::Timeout { method, timeout } => "request "@ + method@ + " timed out after "@
            + decimal_chars(timeout.spec_nanos() / 1_000_000) + "ms"@,
        Error::ServerExited => "language server exited"@,
        Error::NotReady { timeout, tried } => "server not ready after "@ + decimal_chars(
            timeout.spec_nanos() / 1_000_000_000,
        ) + "s; tried "@ + decimal_chars(tried as nat) + " candidate symbols"@,
        Error::NoCandidates { files_attempted, files_failed } => "no candidate symbols found: "@
            + decimal_chars(files_attempted as nat) + " files examined, "@ + decimal_chars(
            files_failed as nat,
        ) + " of them failed to respond"@,
    }
}

impl Error {
    /// The error's text, as the interface shows it.
    pub fn to_string(&self) -> (r: String)
        ensures
            r@ == error_text(*self),
    {
        let mut s = String::new();
        match self {
            Error::Io(m) => {
                push_str(&mut s, "io: ");
                push_str(&mut s, m.as_str());
            },
            Error::Json(m) => {
                push_str(&mut s, "json: ");
                push_str(&mut s, m.as_str());
            },
            Error::Protocol(m) => {
                push_str(&mut s, "protocol: ");
                push_str(&mut s, m.as_str());
            },
            Error::ContentModified { method } => {
                push_str(&mut s, method.as_str());
                push_str(&mut s, ": server reported content modified (transient)");
            },
            Error::Config(m) => {
                push_str(&mut s, "config: ");
                push_str(&mut s, m.as_str());
            },
            Error::NoCallHierarchy { server } => {
                push_str(&mut s, "language server ");
                push_str(&mut s, server.as_str());
                push_str(&mut s, " does not advertise callHierarchyProvider");
            },
            Error::Timeout { method, timeout } => {
                push_str(&mut s, "request ");
                push_str(&mut s, method.as_str());
                push_str(&mut s, " timed out after ");
                let ms = u128_to_string(timeout.as_millis());
                push_str(&mut s, ms.as_str());
                push_str(&mut s, "ms");
            },
            Error::ServerExited => {
                push_str(&mut s, "language server exited");
            },
            Error::NotReady { timeout, tried } => {
                push_str(&mut s, "server not ready after ");
                let secs = u64_to_string(timeout.as_secs());
                push_str(&mut s, secs.as_str());
                push_str(&mut s, "s; tried ");
                let n = usize_to_string(*tried);
                push_str(&mut s, n.as_str());
                push_str(&mut s, " candidate symbols");
            },
            Error::NoCandidates { files_attempted, files_failed } => {
                push_str(&mut s, "no candidate symbols found: ");
                let a = usize_to_string(*files_attempted);
                push_str(&mut s, a.as_str());
                push_str(&mut s, " files examined, ");
                let f = usize_to_string(*files_failed);
                push_str(&mut s, f.as_str());
                push_str(&mut s, " of them failed to respond");
            },
        }
        proof {
            match self {
                Error::ContentModified { method } => {
                    assert(s@ =~= error_text(*self));
                },
                _ => {
                    assert(s@ =~= error_text(*self));
                },
            }
        }
        s
    }
}

} // verus!
