use vstd::prelude::*;
use vstd::utf8::encode_utf8;

use crate::codec::lookup;

verus! {

/// The request methods the router knows.
#[derive(Debug, PartialEq, Eq, Structural, Clone, Copy, Hash)]
pub enum Method {
    Get,
    Post,
}

/// Errors of decoding a request and of registering a route.
#[derive(Debug)]
pub enum Error {
    /// The request line names a method other than GET and POST.
    MethodNotAllowed(String),
    /// No route answers the request.
    NotFound,
    /// The request is malformed.
    BadRequest,
    /// The bytes end before the request does.
    Incomplete,
    /// A route template is not well formed.
    InvalidTemplate,
    /// A route template names the same parameter twice.
    DuplicateParam,
    /// The pattern built from a template was refused by the regex engine.
    PatternRejected,
}

/// The method that a request-line token names.
pub open spec fn method_of(s: Seq<char>) -> Option<Method> {
    if s =~= seq!['G', 'E', 'T'] {
        Some(Method::Get)
    } else if s =~= seq!['P', 'O', 'S', 'T'] {
        Some(Method::Post)
    } else {
        None
    }
}

impl Method {
    pub fn from_str(str: &str) -> (r: Result<Self, Error>)
        ensures
            method_of(str@) is Some ==> r == Ok::<Method, Error>(method_of(str@)->0),
            method_of(str@) is None ==> (r matches Err(Error::MethodNotAllowed(t)) && t@ == str@),
    {
        let n = str.unicode_len();
        if n == 3 && str.get_char(0) == 'G' && str.get_char(1) == 'E' && str.get_char(2) == 'T' {
            assert(str@ =~= seq!['G', 'E', 'T']);
            Ok(Method::Get)
        } else if n == 4 && str.get_char(0) == 'P' && str.get_char(1) == 'O' && str.get_char(2)
            == 'S' && str.get_char(3) == 'T' {
            assert(str@ =~= seq!['P', 'O', 'S', 'T']);
            Ok(Method::Post)
        } else {
            Err(Error::MethodNotAllowed(String::from_str(str)))
        }
    }
}


/// A decoded request. `params` holds the path parameters of the route that
/// matched; `headers` the header lines in order, names lower-cased, where a
/// later line with the same name wins.
#[derive(Debug)]
pub struct Request {
    pub path: String,
    pub method: Method,
    pub params: Vec<(String, String)>,
    pub headers: Vec<(String, String)>,
    pub body: Vec<u8>,
}

/// The text of a list of string pairs.
pub open spec fn pairs_text(v: Seq<(String, String)>) -> Seq<(Seq<char>, Seq<char>)> {
    v.map_values(|p: (String, String)| (p.0@, p.1@))
}

impl Request {
    /// The value of path parameter `name`, if the matched route has one.
    pub open spec fn param_spec(&self, name: Seq<char>) -> Option<Seq<char>> {
        lookup(pairs_text(self.params@), name)
    }

    /// The value of header `name` (lower case), if the request carries one.
    pub open spec fn header_spec(&self, name: Seq<char>) -> Option<Seq<char>> {
        lookup(pairs_text(self.headers@), name)
    }

    pub fn param(&self, name: &str) -> (r: Option<String>)
        ensures
            match self.param_spec(name@) {
                None => r is None,
                Some(v) => r matches Some(t) && t@ == v,
            },
    {
        find_value(&self.params, name)
    }

    pub fn header(&self, name: &str) -> (r: Option<String>)
        ensures
            match self.header_spec(name@) {
                None => r is None,
                Some(v) => r matches Some(t) && t@ == v,
            },
    {
        find_value(&self.headers, name)
    }
}

/// The value under `name` in `pairs`, the last one winning.
pub fn find_value(pairs: &Vec<(String, String)>, name: &str) -> (r: Option<String>)
    ensures
        match lookup(pairs_text(pairs@), name@) {
            None => r is None,
            Some(v) => r matches Some(t) && t@ == v,
        },
{
    let key = String::from_str(name);
    let mut i: usize = pairs.len();
    assert(pairs@.subrange(0, i as int) =~= pairs@);
    while i > 0
        invariant
            i <= pairs@.len(),
            key@ == name@,
            lookup(pairs_text(pairs@), name@) == lookup(pairs_text(pairs@.subrange(0, i as int)), name@),
        decreases i,
    {
        let ghost t = pairs_text(pairs@.subrange(0, i as int));
        assert(t.drop_last() =~= pairs_text(pairs@.subrange(0, i - 1)));
        assert(t.last() == (pairs@[i - 1].0@, pairs@[i - 1].1@));
        let same = pairs[i - 1].0.eq(&key);
        if same {
            let v = pairs[i - 1].1.clone();
            assert(v@ == pairs@[i - 1].1@);
            return Some(v);
        }
        i = i - 1;
    }
    None
}

/// What a handler hands back.
#[derive(Debug)]
pub struct Response {
    pub status_code: u16,
    pub body: Vec<u8>,
    pub content_type: String,
}

/// The reason phrase of a status code.
pub open spec fn status_text(code: u16) -> Seq<char> {
    if code == 200 {
        "OK"@
    } else if code == 201 {
        "Created"@
    } else if code == 400 {
        "Bad Request"@
    } else if code == 404 {
        "Not Found"@
    } else if code == 500 {
        "Internal Server Error"@
    } else {
        "Unknown"@
    }
}

/// The ASCII digits of `n` in base ten, most significant first.
pub open spec fn decimal(n: nat) -> Seq<u8>
    decreases n,
{
    if n < 10 {
        seq![(48 + n) as u8]
    } else {
        decimal(n / 10).push((48 + n % 10) as u8)
    }
}

/// The bytes of a response on the wire.
pub open spec fn encode_spec(code: u16, content_type: Seq<char>, body: Seq<u8>) -> Seq<u8> {
    encode_utf8("HTTP/1.1 "@) + decimal(code as nat) + encode_utf8(" "@) + encode_utf8(
        status_text(code),
    ) + encode_utf8("\r\nContent-Type: "@) + encode_utf8(content_type) + encode_utf8(
        "\r\nContent-Length: "@,
    ) + decimal(body.len()) + encode_utf8("\r\n\r\n"@) + body
}

impl Response {
    /// The bytes this response is sent as.
    pub open spec fn wire(&self) -> Seq<u8> {
        encode_spec(self.status_code, self.content_type@, self.body@)
    }

    pub fn get_status_message(&self) -> (r: &'static str)
        ensures
            r@ == status_text(self.status_code),
    {
        match self.status_code {
            200 => "OK",
            201 => "Created",
            400 => "Bad Request",
            404 => "Not Found",
            500 => "Internal Server Error",
            _ => "Unknown",
        }
    }

    /// Serialises the response: status line, `Content-Type`, a
    /// `Content-Length` that is the body's length, a blank line, the body.
    pub fn encode(&self) -> (r: Vec<u8>)
        ensures
            r@ == self.wire(),
    {
        let mut out: Vec<u8> = Vec::new();
        append_bytes(&mut out, "HTTP/1.1 ".as_bytes());
        append_decimal(&mut out, self.status_code as u64);
        append_bytes(&mut out, " ".as_bytes());
        append_bytes(&mut out, self.get_status_message().as_bytes());
        append_bytes(&mut out, "\r\nContent-Type: ".as_bytes());
        append_bytes(&mut out, self.content_type.as_str().as_bytes());
        append_bytes(&mut out, "\r\nContent-Length: ".as_bytes());
        append_decimal(&mut out, self.body.len() as u64);
        append_bytes(&mut out, "\r\n\r\n".as_bytes());
        append_bytes(&mut out, self.body.as_slice());
        out
    }
}

/// The `Content-Length` of every encoded response is the length of its
/// body: the encoding ends with that number in decimal, a blank line, and
/// the body itself.
pub proof fn lemma_content_length_is_body_length(r: Response)
    ensures
        exists|head: Seq<u8>|
            r.wire() == head + encode_utf8("\r\nContent-Length: "@) + decimal(r.body@.len())
                + encode_utf8("\r\n\r\n"@) + r.body@,
{
    let head = encode_utf8("HTTP/1.1 "@) + decimal(r.status_code as nat) + encode_utf8(" "@)
        + encode_utf8(status_text(r.status_code)) + encode_utf8("\r\nContent-Type: "@)
        + encode_utf8(r.content_type@);
    assert(r.wire() == head + encode_utf8("\r\nContent-Length: "@) + decimal(r.body@.len())
        + encode_utf8("\r\n\r\n"@) + r.body@);
}

/// Appends `b` to `out`.
pub fn append_bytes(out: &mut Vec<u8>, b: &[u8])
    ensures
        final(out)@ == old(out)@ + b@,
{
    let mut i: usize = 0;
    while i < b.len()
        invariant
            i <= b@.len(),
            out@ == old(out)@ + b@.subrange(0, i as int),
        decreases b@.len() - i,
    {
        out.push(b[i]);
        i = i + 1;
    }
    assert(b@.subrange(0, b@.len() as int) =~= b@);
}

/// Appends the decimal digits of `n` to `out`.
pub fn append_decimal(out: &mut Vec<u8>, n: u64)
    ensures
        final(out)@ == old(out)@ + decimal(n as nat),
    decreases n,
{
    if n < 10 {
        out.push((48 + n) as u8);
        assert(out@ =~= old(out)@ + decimal(n as nat));
    } else {
        append_decimal(out, n / 10);
        out.push((48 + n % 10) as u8);
        assert(out@ =~= old(out)@ + decimal(n as nat));
    }
}

} // verus!
