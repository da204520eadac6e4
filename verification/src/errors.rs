//! The closed error taxonomy of the crawl.
//!
//! Every failure the library reports falls under exactly one of five
//! kinds: discovery of a bucket's page count failed, a fetch exhausted
//! its retries, a page lacked the expected structure, a cache write
//! failed, or a worker terminated abnormally.

use vstd::prelude::*;

verus! {

/// Which part of the crawl failed.
#[derive(Clone, Debug)]
pub enum ErrorKind {
    /// A bucket's pagination control or total count was absent or
    /// unparsable; the whole crawl must abort.
    Discovery,
    /// A fetch exhausted its retries. Carries the first non-success
    /// HTTP status observed, or `None` when every attempt failed at
    /// the transport level.
    Fetch { status: Option<u16> },
    /// A fetched page lacked the expected structure.
    Extraction,
    /// Writing a batch to the cache failed.
    Io,
    /// A worker terminated abnormally.
    Thread,
}

/// One failure, with its kind and a human-readable message.
#[derive(Clone, Debug)]
pub struct Error {
    pub kind: ErrorKind,
    pub message: String,
}

impl Error {
    /// A structural failure with the given message: the generic
    /// constructor for pages whose expected shape is missing.
    pub fn new(s: &str) -> (r: Error)
        ensures
            r.kind is Extraction,
            r.message@ == s@,
    {
        Error { kind: ErrorKind::Extraction, message: s.to_owned() }
    }

    /// A discovery failure with the given message.
    pub fn discovery(s: &str) -> (r: Error)
        ensures
            r.kind is Discovery,
            r.message@ == s@,
    {
        Error { kind: ErrorKind::Discovery, message: s.to_owned() }
    }

    /// A fetch failure carrying the first non-success status observed.
    pub fn fetch(status: Option<u16>) -> (r: Error)
        ensures
            r.kind matches ErrorKind::Fetch { status: st } && st == status,
    {
        Error { kind: ErrorKind::Fetch { status }, message: String::new() }
    }

    /// A cache-write failure with the given message.
    pub fn io(s: &str) -> (r: Error)
        ensures
            r.kind is Io,
            r.message@ == s@,
    {
        Error { kind: ErrorKind::Io, message: s.to_owned() }
    }

    /// A worker-termination failure with the given message.
    pub fn thread(s: &str) -> (r: Error)
        ensures
            r.kind is Thread,
            r.message@ == s@,
    {
        Error { kind: ErrorKind::Thread, message: s.to_owned() }
    }

    /// The message carried by this error.
    pub fn message(&self) -> (r: String)
        ensures
            r@ == self.message@,
    {
        self.message.clone()
    }
}

} // verus!
