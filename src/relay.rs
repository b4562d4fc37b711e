//! What a client gets back when the upstream call fails, and how a request passes the
//! per-client rate limit.

use vstd::prelude::*;

verus! {

/// A response that the proxy makes itself, in place of one from upstream.
pub struct ProxyResponse {
    pub status: u16,
    pub content_type: String,
    pub body: String,
}

pub open spec fn upstream_error_body() -> Seq<char> {
    "Proxy Server Error while reading request"@
}

/// The response sent to a client when the upstream call fails in transport: status 500
/// and a short plain-text body. The failure's own detail is never passed to the client.
pub fn upstream_error_response() -> (r: ProxyResponse)
    ensures
        r.status == 500,
        r.content_type@ == "text/plain; charset=utf-8"@,
        r.body@ == upstream_error_body(),
        r.body@.len() > 0,
{
    let body = "Proxy Server Error while reading request".to_owned();
    proof {
        reveal_strlit("Proxy Server Error while reading request");
    }
    ProxyResponse {
        status: 500,
        content_type: "text/plain; charset=utf-8".to_owned(),
        body,
    }
}

/// What to do with a request once the limiter has been asked whether the client's bucket
/// holds a token right now. No outcome drops the request.
#[derive(Debug, Clone, Copy, PartialEq, Eq, Structural)]
pub enum Admission {
    /// A token was there: forward at once.
    Forward,
    /// The bucket was empty: record that the limit was hit, wait until a token comes
    /// (with jitter), then forward.
    LogAndWait,
}

/// Decides how a request passes the limiter, from whether a token was available.
pub fn admission(token_available: bool) -> (r: Admission)
    ensures
        token_available ==> r == Admission::Forward,
        !token_available ==> r == Admission::LogAndWait,
{
    if token_available {
        Admission::Forward
    } else {
        Admission::LogAndWait
    }
}

} // verus!
