use vstd::prelude::*;

use crate::decimal::{dec_chars, push_decimal};
use crate::text::str_eq;

verus! {

/// How the file server answers a request line.
pub struct Route {
    /// The status line of the response.
    pub status_line: &'static str,
    /// The file whose contents form the body.
    pub file_path: &'static str,
    /// Seconds to wait before answering.
    pub delay_secs: u64,
}

/// Picks the answer to a request line: the home page for `GET /`, the home
/// page after a five-second wait for `GET /sleep`, and the not-found page for
/// anything else.
pub fn route_request(request_line: &str) -> (r: Route)
    ensures
        request_line@ == "GET / HTTP/1.1"@ ==> r.status_line@ == "HTTP/1.1 200 OK"@
            && r.file_path@ == "src/hello.html"@ && r.delay_secs == 0,
        request_line@ == "GET /sleep HTTP/1.1"@ ==> r.status_line@ == "HTTP/1.1 200 OK"@
            && r.file_path@ == "src/hello.html"@ && r.delay_secs == 5,
        request_line@ != "GET / HTTP/1.1"@ && request_line@ != "GET /sleep HTTP/1.1"@
            ==> r.status_line@ == "HTTP/1.1 404 Not Found"@ && r.file_path@ == "src/404.html"@
            && r.delay_secs == 0,
{
    proof {
        reveal_strlit("GET / HTTP/1.1");
        reveal_strlit("GET /sleep HTTP/1.1");
        assert("GET / HTTP/1.1"@.len() != "GET /sleep HTTP/1.1"@.len());
    }
    if str_eq(request_line, "GET / HTTP/1.1") {
        Route { status_line: "HTTP/1.1 200 OK", file_path: "src/hello.html", delay_secs: 0 }
    } else if str_eq(request_line, "GET /sleep HTTP/1.1") {
        Route { status_line: "HTTP/1.1 200 OK", file_path: "src/hello.html", delay_secs: 5 }
    } else {
        Route { status_line: "HTTP/1.1 404 Not Found", file_path: "src/404.html", delay_secs: 0 }
    }
}

/// The text of a response: the status line, a `Content-Length` header giving
/// the body's length, a blank line, then the body.
pub open spec fn response_text(status_line: Seq<char>, body: Seq<char>, body_len: nat) -> Seq<char> {
    status_line + "\r\nContent-Length: "@ + dec_chars(body_len) + "\r\n\r\n"@ + body
}

/// Frames `contents` as a response with the given status line.
pub fn build_response(status_line: &str, contents: &str) -> (response: String)
    ensures
        response@ == response_text(status_line@, contents@, contents.len() as nat),
{
    let content_length = contents.len();
    let mut response = String::new();
    response.append(status_line);
    response.append("\r\nContent-Length: ");
    push_decimal(&mut response, content_length as u64);
    response.append("\r\n\r\n");
    response.append(contents);
    assert(content_length as u64 as nat == contents.len() as nat);
    assert(response@ =~= response_text(status_line@, contents@, contents.len() as nat));
    response
}

} // verus!
