use vstd::prelude::*;
use crate::error::Error;
use crate::request::{Request, find_from, redirect_result, sub_chars};
use crate::text::{chars_of, string_of};

verus! {

/// A connection to the server for sending a [`Request`]: the request and
/// the timeout, in seconds, that applies to it.
pub struct Connection {
    request: Request,
    timeout: Option<u64>,
}

/// The statuses that redirect: 301, 302, 303 and 307.
pub open spec fn is_redirect_status(code: i32) -> bool {
    code == 301 || code == 302 || code == 303 || code == 307
}

/// The characters before the first `:`, all of them when there is none.
pub open spec fn before_colon(s: Seq<char>) -> Seq<char> {
    if exists|i: int| 0 <= i < s.len() && s[i] == ':' {
        let i = choose|i: int|
            0 <= i < s.len() && s[i] == ':' && forall|j: int| 0 <= j < i ==> s[j] != ':';
        s.subrange(0, i)
    } else {
        s
    }
}

impl Connection {
    /// Creates a connection for `request`. The request's own timeout wins;
    /// `default_timeout` (from the environment, say) applies when it has none.
    pub fn new(request: Request, default_timeout: Option<u64>) -> (r: Connection)
        ensures
            r.request()@ == request@,
            r.timeout() == (match request@.timeout {
                Some(t) => Some(t),
                None => default_timeout,
            }),
    {
        let timeout = match request.timeout() {
            Some(t) => Some(t),
            None => default_timeout,
        };
        Connection { request, timeout }
    }

    pub closed spec fn request(&self) -> Request {
        self.request
    }

    pub closed spec fn timeout(&self) -> Option<u64> {
        self.timeout
    }

    /// The request being sent.
    pub fn get_request(&self) -> (r: &Request)
        ensures
            r@ == self.request()@,
    {
        &self.request
    }

    /// The timeout in seconds that applies, if any.
    pub fn get_timeout(&self) -> (r: Option<u64>)
        ensures
            r == self.timeout(),
    {
        self.timeout
    }

    /// The host name without the port, as a secure transport checks it.
    pub fn dns_name(&self) -> (r: String)
        ensures
            r@ == before_colon(self.request()@.host),
    {
        let cs = chars_of(self.request.host().as_str());
        match find_from(&cs, ':', 0) {
            Some(i) => {
                let ghost s = self.request()@.host;
                proof {
                    let c = choose|c: int|
                        0 <= c < s.len() && s[c] == ':' && forall|j: int| 0 <= j < c ==> s[j] != ':';
                    if c < i {
                        assert(s[c] != ':');
                    } else if i < c {
                        assert(s[i as int] != ':');
                    }
                }
                string_of(&sub_chars(&cs, 0, i))
            },
            None => string_of(&cs),
        }
    }
}

/// Decides what a response means for the request that it answers: `None`
/// when it is final, else the request to send next or the error that ends
/// the exchange.
pub fn get_redirect(connection: Connection, status_code: i32, url: Option<&String>) -> (r: Option<
    Result<Request, Error>,
>)
    ensures
        !is_redirect_status(status_code) ==> r is None,
        is_redirect_status(status_code) && url is None ==> r matches Some(
            Err(Error::RedirectLocationMissing),
        ),
        is_redirect_status(status_code) && url is Some ==> (r matches Some(q) && redirect_result(
            connection.request()@,
            url->0@,
            q,
        )),
{
    match status_code {
        301 | 302 | 303 | 307 => match url {
            Some(url) => Some(connection.request.redirect_to(url.clone())),
            None => Some(Err(Error::RedirectLocationMissing)),
        },
        _ => None,
    }
}

} // verus!
