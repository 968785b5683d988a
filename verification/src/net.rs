//! What the network layer sends and how it assembles what it receives.

use vstd::prelude::*;
use crate::text::{append, decimal, owned, str_eq, u64_to_decimal};
use crate::worker::ReqTarget;

verus! {

/// How an HTTP(S) request is made.
pub struct HttpsOptions {
    pub method: String,
    pub path: String,
    pub headers: Vec<(String, String)>,
    pub payload: String,
}

/// What HTTP(S) request options hold, as text.
pub struct HttpsOptionsView {
    pub method: Seq<char>,
    pub path: Seq<char>,
    pub headers: Seq<(Seq<char>, Seq<char>)>,
    pub payload: Seq<char>,
}

/// The headers as text.
pub open spec fn headers_view(h: Seq<(String, String)>) -> Seq<(Seq<char>, Seq<char>)> {
    Seq::new(h.len(), |i: int| (h[i].0@, h[i].1@))
}

impl View for HttpsOptions {
    type V = HttpsOptionsView;

    open spec fn view(&self) -> HttpsOptionsView {
        HttpsOptionsView {
            method: self.method@,
            path: self.path@,
            headers: headers_view(self.headers@),
            payload: self.payload@,
        }
    }
}

fn copy_headers(h: &Vec<(String, String)>) -> (r: Vec<(String, String)>)
    ensures
        headers_view(r@) == headers_view(h@),
{
    let mut r: Vec<(String, String)> = Vec::new();
    let mut i: usize = 0;
    while i < h.len()
        invariant
            i <= h@.len(),
            r@.len() == i,
            forall|k: int| 0 <= k < i ==> (#[trigger] r@[k]).0@ == h@[k].0@ && r@[k].1@ == h@[k].1@,
        decreases h@.len() - i,
    {
        let name = h[i].0.clone();
        let value = h[i].1.clone();
        r.push((name, value));
        i = i + 1;
    }
    assert(headers_view(r@) =~= headers_view(h@));
    r
}

impl HttpsOptions {
    /// A copy that holds the same text.
    pub fn duplicate(&self) -> (r: HttpsOptions)
        ensures
            r@ == self@,
    {
        HttpsOptions {
            method: self.method.clone(),
            path: self.path.clone(),
            headers: copy_headers(&self.headers),
            payload: self.payload.clone(),
        }
    }

    /// Whether two sets of options hold the same text.
    pub fn same_as(&self, other: &HttpsOptions) -> (r: bool)
        ensures
            r == (self@ == other@),
    {
        if !str_eq(self.method.as_str(), other.method.as_str()) {
            assert(self@.method != other@.method);
            return false;
        }
        if !str_eq(self.path.as_str(), other.path.as_str()) {
            assert(self@.path != other@.path);
            return false;
        }
        if !str_eq(self.payload.as_str(), other.payload.as_str()) {
            assert(self@.payload != other@.payload);
            return false;
        }
        if self.headers.len() != other.headers.len() {
            assert(self@.headers.len() != other@.headers.len());
            return false;
        }
        let n = self.headers.len();
        let mut i: usize = 0;
        while i < n
            invariant
                n == self.headers@.len(),
                n == other.headers@.len(),
                i <= n,
                forall|k: int| 0 <= k < i ==> headers_view(self.headers@)[k] == headers_view(other.headers@)[k],
            decreases n - i,
        {
            if !str_eq(self.headers[i].0.as_str(), other.headers[i].0.as_str())
                || !str_eq(self.headers[i].1.as_str(), other.headers[i].1.as_str()) {
                assert(headers_view(self.headers@)[i as int] != headers_view(other.headers@)[i as int]);
                return false;
            }
            i = i + 1;
        }
        assert(headers_view(self.headers@) =~= headers_view(other.headers@));
        true
    }
}

/// The URL of an HTTP(S) request: `"<protocol>://<ip>:<port><path>"`.
pub open spec fn spec_request_url(protocol: Seq<char>, ip: Seq<char>, port: u16, path: Seq<char>) -> Seq<char> {
    protocol + "://"@ + ip + ":"@ + decimal(port as nat) + path
}

/// The URL an HTTP(S) request to the target goes to.
pub fn request_url(target: &ReqTarget, path: &str) -> (u: String)
    ensures
        u@ == spec_request_url(target.protocol@, target.ip@, target.port, path@),
{
    let mut u = target.protocol.clone();
    append(&mut u, "://");
    append(&mut u, target.ip.as_str());
    append(&mut u, ":");
    let p = u64_to_decimal(target.port as u64);
    append(&mut u, p.as_str());
    append(&mut u, path);
    u
}

/// The address a TCP connection goes to: `"<ip>:<port>"`.
pub fn socket_address(ip: &str, port: u16) -> (a: String)
    ensures
        a@ == ip@ + ":"@ + decimal(port as nat),
{
    let mut a = owned(ip);
    append(&mut a, ":");
    let p = u64_to_decimal(port as u64);
    append(&mut a, p.as_str());
    a
}

/// The header lines of a response, each `"<name>: <value>\r\n"`.
pub open spec fn header_lines(h: Seq<(Seq<char>, Seq<char>)>) -> Seq<char>
    decreases h.len(),
{
    if h.len() == 0 {
        Seq::empty()
    } else {
        header_lines(h.drop_last()) + h.last().0 + ": "@ + h.last().1 + "\r\n"@
    }
}

/// A response as it is handed to detection: the status line, the header
/// lines, an empty line and the body.
pub open spec fn spec_raw_response(status_line: Seq<char>, headers: Seq<(Seq<char>, Seq<char>)>, body: Seq<char>) -> Seq<char> {
    status_line + "\r\n"@ + header_lines(headers) + "\r\n"@ + body
}

/// Assembles a response from its status line (version and status), its
/// headers and its body.
pub fn raw_response(status_line: &str, headers: &Vec<(String, String)>, body: &str) -> (r: String)
    ensures
        r@ == spec_raw_response(status_line@, headers_view(headers@), body@),
{
    let mut r = owned(status_line);
    append(&mut r, "\r\n");
    let ghost start = r@;
    let mut i: usize = 0;
    while i < headers.len()
        invariant
            i <= headers@.len(),
            r@ == start + header_lines(headers_view(headers@).take(i as int)),
        decreases headers@.len() - i,
    {
        append(&mut r, headers[i].0.as_str());
        append(&mut r, ": ");
        append(&mut r, headers[i].1.as_str());
        append(&mut r, "\r\n");
        assert(headers_view(headers@).take(i + 1).drop_last() =~= headers_view(headers@).take(i as int));
        i = i + 1;
    }
    assert(headers_view(headers@).take(headers@.len() as int) =~= headers_view(headers@));
    append(&mut r, "\r\n");
    append(&mut r, body);
    r
}

/// How much of a body of `len` bytes is kept: at most `max_response_size`.
pub fn body_limit(len: usize, max_response_size: usize) -> (n: usize)
    ensures
        n == if len < max_response_size { len } else { max_response_size },
{
    if len < max_response_size {
        len
    } else {
        max_response_size
    }
}

} // verus!
