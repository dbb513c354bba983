//! Who may use the endpoint.

pub mod base64_reading;
pub mod basic_credentials;
pub mod client;
pub mod laws;
pub mod reloadable;

use std::borrow::Cow;
use vstd::prelude::*;

verus! {

/// Where a connection's credentials come from.
#[derive(Debug)]
pub enum Source<'a> {
    /// The server name of the TLS handshake.
    Sni(Cow<'a, str>),
    /// The `Basic` scheme of a `Proxy-Authorization` header.
    ProxyBasic(Cow<'a, str>),
}

impl<'a> Source<'a> {
    /// The credentials themselves, wherever they come from.
    pub open spec fn credentials(&self) -> Seq<char> {
        match self {
            Source::Sni(text) => text@,
            Source::ProxyBasic(text) => text@,
        }
    }
}

/// The answer to a connection's credentials.
#[derive(Clone, Copy, Debug, PartialEq, Eq, Structural)]
pub enum Status {
    /// The credentials belong to a client.
    Pass,
    /// They do not.
    Reject,
}

/// Decides which connections may use the endpoint.
pub trait Authenticator {
    /// The credentials that are let in.
    spec fn knows(&self, credentials: Seq<char>) -> bool;

    /// Lets in exactly the connections whose credentials are known.
    fn authenticate(&self, source: &Source<'_>) -> (status: Status)
        ensures
            status == (if self.knows(source.credentials()) { Status::Pass } else { Status::Reject }),
    ;
}

} // verus!
