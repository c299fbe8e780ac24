//! The HTTP/1 service builder and the bundled plaintext dispatcher.
//!
//! [`Http1IOU`] wraps an application service; [`Http1IOU::call`] builds the
//! per-worker runner state, pairing the service with a fresh [`Clock`]. The
//! surrounding process accepts connections and, for each, runs a
//! [`crate::driver::Conn`] against the transport, calling the service once
//! per decoded head.

use vstd::prelude::*;

use crate::ascii::{ascii_seq, str_to_vec, vec_eq_str};
use crate::clock::{Clock, spec_imf_date};
use crate::codec::{Header, RequestHead, headers_view};
use crate::driver::{Response, ResponseBody};

verus! {

/// The bundled dispatcher: `/plaintext` answers `Hello, World!`, anything
/// else is not found.
pub fn handler(head: &RequestHead) -> (res: Response)
    ensures
        head.path@ == ascii_seq("/plaintext"@) ==> res.status == 200 && (res.body matches
            ResponseBody::Full(b) && b@ == ascii_seq("Hello, World!"@)) && headers_view(
            res.headers@,
        ) == seq![(ascii_seq("Content-Type"@), ascii_seq("text/plain"@))],
        head.path@ != ascii_seq("/plaintext"@) ==> res.status == 404 && (res.body matches
            ResponseBody::Full(b) && b@.len() == 0) && res.headers@.len() == 0,
{
    proof {
        reveal_strlit("/plaintext");
        reveal_strlit("Hello, World!");
        reveal_strlit("Content-Type");
        reveal_strlit("text/plain");
    }
    if vec_eq_str(&head.path, "/plaintext") {
        let mut headers: Vec<Header> = Vec::new();
        headers.push(Header { name: str_to_vec("Content-Type"), value: str_to_vec("text/plain") });
        proof {
            assert(headers_view(headers@) =~= seq![
                (ascii_seq("Content-Type"@), ascii_seq("text/plain"@)),
            ]);
        }
        Response { status: 200, headers, body: ResponseBody::Full(str_to_vec("Hello, World!")) }
    } else {
        Response { status: 404, headers: Vec::new(), body: ResponseBody::Full(Vec::new()) }
    }
}

/// Builder for the HTTP/1 service: wraps the application service that will
/// answer decoded requests.
pub struct Http1IOU<S> {
    pub service: S,
}

/// The per-worker runner: the application service and the worker's clock.
pub struct Http1IOUService<S> {
    pub service: S,
    pub date: Clock,
}

impl<S> Http1IOU<S> {
    pub fn new(service: S) -> (r: Http1IOU<S>)
        ensures
            r.service == service,
    {
        Http1IOU { service }
    }

    /// Builds the runner, stamping the clock with the current time.
    pub fn call(self, now_secs: u64) -> (r: Http1IOUService<S>)
        requires
            now_secs < 253402300800,
        ensures
            r.service == self.service,
            r.date.date@ == spec_imf_date(now_secs as int),
    {
        Http1IOUService { service: self.service, date: Clock::new(now_secs) }
    }
}

} // verus!
