use vstd::prelude::*;
use vstd::slice::slice_to_vec;
use vstd::utf8::encode_utf8;

use crate::handler::StatelessHandler;
use crate::http::{Request, Response};

verus! {

/// A response with the given status, type text/plain, and `text` as body.
pub fn text_response(status_code: u16, text: &str) -> (r: Response)
    ensures
        r.status_code == status_code,
        r.content_type@ == "text/plain"@,
        r.body@ == encode_utf8(text@),
{
    Response {
        status_code,
        body: slice_to_vec(text.as_bytes()),
        content_type: String::from_str("text/plain"),
    }
}

/// The home page's answer: 200, text/plain, empty body.
pub open spec fn home_answer(r: Response) -> bool {
    r.status_code == 200 && r.content_type@ == "text/plain"@ && r.body@.len() == 0
}

/// The echo page's answer: 200 with parameter `str` as the body, or 400
/// "Bad Request" without it; text/plain either way.
pub open spec fn echo_answer(request: Request, r: Response) -> bool {
    &&& r.content_type@ == "text/plain"@
    &&& match request.param_spec("str"@) {
        Some(v) => r.status_code == 200 && r.body@ == encode_utf8(v),
        None => r.status_code == 400 && r.body@ == encode_utf8("Bad Request"@),
    }
}

/// The user-agent page's answer: 200 with the `user-agent` header as the
/// body, or 400 "Bad Request" without it; text/plain either way.
pub open spec fn user_agent_answer(request: Request, r: Response) -> bool {
    &&& r.content_type@ == "text/plain"@
    &&& match request.header_spec("user-agent"@) {
        Some(v) => r.status_code == 200 && r.body@ == encode_utf8(v),
        None => r.status_code == 400 && r.body@ == encode_utf8("Bad Request"@),
    }
}

/// The home page: 200 with an empty body.
pub fn home_page(_request: Request) -> (r: Response)
    ensures
        home_answer(r),
{
    proof {
        reveal_strlit("");
    }
    text_response(200, "")
}

/// Echoes path parameter `str`: 200 with its value as the body, or 400 when
/// the route set no such parameter.
pub fn echo(request: Request) -> (r: Response)
    ensures
        echo_answer(request, r),
{
    match request.param("str") {
        Some(v) => text_response(200, v.as_str()),
        None => text_response(400, "Bad Request"),
    }
}

/// Answers with the `user-agent` header: 200 with its value as the body, or
/// 400 when the request has none.
pub fn user_agent(request: Request) -> (r: Response)
    ensures
        user_agent_answer(request, r),
{
    match request.header("user-agent") {
        Some(v) => text_response(200, v.as_str()),
        None => text_response(400, "Bad Request"),
    }
}

/// The pages that need no state.
#[derive(Clone, Copy, Debug, PartialEq, Eq)]
pub enum Page {
    Home,
    Echo,
    UserAgent,
}

impl StatelessHandler for Page {
    open spec fn answers(&self, request: Request, response: Response) -> bool {
        match self {
            Page::Home => home_answer(response),
            Page::Echo => echo_answer(request, response),
            Page::UserAgent => user_agent_answer(request, response),
        }
    }

    fn call(&self, request: Request) -> (r: Response) {
        match self {
            Page::Home => home_page(request),
            Page::Echo => echo(request),
            Page::UserAgent => user_agent(request),
        }
    }
}

/// The path of file `name` under `directory`.
pub fn file_path(directory: &str, name: &str) -> (r: String)
    ensures
        r@ == directory@ + "/"@ + name@,
{
    let mut p = String::from_str(directory);
    p.append("/");
    p.append(name);
    p
}

/// The answer to a download: the file's bytes with 200, or 404 "Not Found"
/// when it could not be read.
pub fn read_outcome(content: Option<Vec<u8>>) -> (r: Response)
    ensures
        match content {
            Some(b) => r.status_code == 200 && r.body@ == b@ && r.content_type@
                == "application/octet-stream"@,
            None => r.status_code == 404 && r.body@ == encode_utf8("Not Found"@)
                && r.content_type@ == "text/plain"@,
        },
{
    match content {
        Some(b) => Response {
            status_code: 200,
            body: b,
            content_type: String::from_str("application/octet-stream"),
        },
        None => text_response(404, "Not Found"),
    }
}

/// The check before an upload is written: an empty body is refused with
/// 400 "Bad Request"; any other body may be written.
pub fn upload_precheck(request: &Request) -> (r: Option<Response>)
    ensures
        request.body@.len() == 0 ==> (r matches Some(x) && x.status_code == 400 && x.body@
            == encode_utf8("Bad Request"@) && x.content_type@ == "text/plain"@),
        request.body@.len() > 0 ==> r is None,
{
    if request.body.len() == 0 {
        Some(text_response(400, "Bad Request"))
    } else {
        None
    }
}

/// The answer to an upload once the write was tried: 201 "File Created",
/// or 500 "Internal Server Error" when the write failed.
pub fn upload_outcome(written: bool) -> (r: Response)
    ensures
        r.content_type@ == "text/plain"@,
        written ==> r.status_code == 201 && r.body@ == encode_utf8("File Created"@),
        !written ==> r.status_code == 500 && r.body@ == encode_utf8("Internal Server Error"@),
{
    if written {
        text_response(201, "File Created")
    } else {
        text_response(500, "Internal Server Error")
    }
}

} // verus!
