//! The pure part of serving one connection: deciding from the raw request
//! which page is asked for, and assembling the response text.  Reading the
//! socket, the template files, and writing the answer back are I/O and live
//! with the caller.

use vstd::prelude::*;
use vstd::string::StrSliceExecFns;

verus! {

/// Which page a raw request asks for.
#[derive(Clone, Copy, PartialEq, Eq, Structural, Debug)]
pub enum RequestKind {
    /// The home page.
    Home,
    /// The home page, served slowly: the handler sleeps first.
    Sleep,
    /// Anything else: not found.
    NotFound,
}

/// Whether `p` is a prefix of `s`.
pub open spec fn is_prefix_of(p: Seq<char>, s: Seq<char>) -> bool {
    p.len() <= s.len() && s.subrange(0, p.len() as int) == p
}

/// The request line asking for the home page.
pub open spec fn home_request_line() -> Seq<char> {
    "GET / HTTP/1.1\r\n"@
}

/// The request line asking for the slow page.
pub open spec fn sleep_request_line() -> Seq<char> {
    "GET /sleep HTTP/1.1\r\n"@
}

/// The page a raw request asks for: by the request line it starts with.
pub open spec fn spec_classify(request: Seq<char>) -> RequestKind {
    if is_prefix_of(home_request_line(), request) {
        RequestKind::Home
    } else if is_prefix_of(sleep_request_line(), request) {
        RequestKind::Sleep
    } else {
        RequestKind::NotFound
    }
}

/// Whether the request text begins with the given prefix.
fn str_has_prefix(s: &str, p: &str) -> (r: bool)
    ensures
        r == is_prefix_of(p@, s@),
{
    let n = p.unicode_len();
    if s.unicode_len() < n {
        return false;
    }
    let mut i: usize = 0;
    while i < n
        invariant
            i <= n,
            n == p@.len(),
            n <= s@.len(),
            forall|k: int| 0 <= k < i ==> s@[k] == p@[k],
        decreases n - i,
    {
        if s.get_char(i) != p.get_char(i) {
            proof {
                assert(s@.subrange(0, n as int)[i as int] != p@[i as int]);
            }
            return false;
        }
        i += 1;
    }
    proof {
        assert(s@.subrange(0, n as int) =~= p@);
    }
    true
}

/// Decide which page a raw request asks for.
pub fn classify_request(request: &str) -> (r: RequestKind)
    ensures
        r == spec_classify(request@),
{
    if str_has_prefix(request, "GET / HTTP/1.1\r\n") {
        RequestKind::Home
    } else if str_has_prefix(request, "GET /sleep HTTP/1.1\r\n") {
        RequestKind::Sleep
    } else {
        RequestKind::NotFound
    }
}

/// The status line that answers a request of the given kind.
pub fn status_line(kind: RequestKind) -> (r: &'static str)
    ensures
        r@ == (match kind {
            RequestKind::Home | RequestKind::Sleep => "HTTP/1.1 200 OK\r\n\r\n"@,
            RequestKind::NotFound => "HTTP/1.1 404 Not Found\r\n\r\n"@,
        }),
{
    match kind {
        RequestKind::Home => "HTTP/1.1 200 OK\r\n\r\n",
        RequestKind::Sleep => "HTTP/1.1 200 OK\r\n\r\n",
        RequestKind::NotFound => "HTTP/1.1 404 Not Found\r\n\r\n",
    }
}

/// The template file that answers a request of the given kind.
pub fn template_name(kind: RequestKind) -> (r: &'static str)
    ensures
        r@ == (match kind {
            RequestKind::Home | RequestKind::Sleep => "hello.html"@,
            RequestKind::NotFound => "404.html"@,
        }),
{
    match kind {
        RequestKind::Home => "hello.html",
        RequestKind::Sleep => "hello.html",
        RequestKind::NotFound => "404.html",
    }
}

/// Assemble the response: the status line followed by the page contents.
pub fn build_response(headers: &str, contents: &str) -> (r: String)
    ensures
        r@ == headers@ + contents@,
{
    let mut response = headers.to_owned();
    response.append(contents);
    response
}

} // verus!
