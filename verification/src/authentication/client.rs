use vstd::prelude::*;

verus! {

/// One client of the endpoint, as the credentials file lists it.
#[derive(Debug)]
pub struct Client {
    pub username: String,
    pub password: String,
    /// The most HTTP/2 connections the client may hold, where it has a limit of its own.
    pub max_http2_conns: Option<u32>,
    /// The most HTTP/3 connections the client may hold, where it has a limit of its own.
    pub max_http3_conns: Option<u32>,
}

} // verus!
