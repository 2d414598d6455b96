use route_table::codec::decode;
use route_table::handler::{BoxedHandler, StatefulHandler, StatelessHandlerImpl};
use route_table::http::{Error, Method, Request, Response};
use route_table::matcher::parse_template;
use route_table::pages::{text_response, upload_outcome, upload_precheck, Page};
use route_table::router::Router;

struct Store;

impl StatefulHandler<String> for Store {
    fn call(&self, request: Request, state: String) -> Response {
        if let Some(r) = upload_precheck(&request) {
            return r;
        }
        let mut body = state.into_bytes();
        body.extend_from_slice(&request.body);
        text_response(201, std::str::from_utf8(&body).unwrap())
    }
}

struct Fixed(&'static str);

impl route_table::handler::StatelessHandler for Fixed {
    fn call(&self, _request: Request) -> Response {
        text_response(200, self.0)
    }
}

type Draft = Router<BoxedHandler<Page, Store>>;
type Serving = Router<StatelessHandlerImpl<Page, Store, String>>;

fn pages() -> Serving {
    let r: Draft = Router::new();
    r.get("/", BoxedHandler::stateless(Page::Home))
        .unwrap()
        .get("/echo/:str", BoxedHandler::stateless(Page::Echo))
        .unwrap()
        .get("/user-agent", BoxedHandler::stateless(Page::UserAgent))
        .unwrap()
        .post("/files/:file", BoxedHandler::from_handler(Store))
        .unwrap()
        .with_state("stored:".to_string())
}

fn reply(router: &Serving, raw: &str) -> String {
    String::from_utf8(router.execute(raw.as_bytes())).unwrap()
}

fn plain(code: &str, body: &str) -> String {
    format!(
        "HTTP/1.1 {}\r\nContent-Type: text/plain\r\nContent-Length: {}\r\n\r\n{}",
        code,
        body.len(),
        body
    )
}

#[test]
fn method_from_str_known_and_unknown() {
    assert_eq!(Method::from_str("GET").unwrap(), Method::Get);
    assert_eq!(Method::from_str("POST").unwrap(), Method::Post);
    match Method::from_str("PUT") {
        Err(Error::MethodNotAllowed(m)) => assert_eq!(m, "PUT"),
        _ => panic!("PUT accepted"),
    }
    assert!(Method::from_str("get").is_err());
}

#[test]
fn status_messages() {
    let mut r = text_response(200, "");
    for (code, text) in [
        (200, "OK"),
        (201, "Created"),
        (400, "Bad Request"),
        (404, "Not Found"),
        (500, "Internal Server Error"),
        (418, "Unknown"),
    ] {
        r.status_code = code;
        assert_eq!(r.get_status_message(), text);
    }
}

#[test]
fn encode_exact_bytes() {
    let r = text_response(200, "hi");
    assert_eq!(
        String::from_utf8(r.encode()).unwrap(),
        "HTTP/1.1 200 OK\r\nContent-Type: text/plain\r\nContent-Length: 2\r\n\r\nhi"
    );
    let r = Response { status_code: 7, body: vec![], content_type: "x/y".to_string() };
    assert_eq!(
        String::from_utf8(r.encode()).unwrap(),
        "HTTP/1.1 7 Unknown\r\nContent-Type: x/y\r\nContent-Length: 0\r\n\r\n"
    );
}

fn content_length_of(bytes: &[u8]) -> usize {
    let text = String::from_utf8_lossy(bytes);
    let line = text.lines().find(|l| l.starts_with("Content-Length: ")).unwrap();
    line["Content-Length: ".len()..].parse().unwrap()
}

#[test]
fn content_length_matches_body() {
    for n in [0usize, 1, 1500] {
        let r = Response { status_code: 200, body: vec![b'a'; n], content_type: "t".to_string() };
        let bytes = r.encode();
        assert_eq!(content_length_of(&bytes), n);
        assert!(bytes.ends_with(&vec![b'a'; n]));
        assert_eq!(bytes.len(), bytes.windows(4).position(|w| w == b"\r\n\r\n").unwrap() + 4 + n);
    }
}

#[test]
fn encode_then_parse_round_trip() {
    let r = Response {
        status_code: 201,
        body: b"payload\r\n\r\nmore".to_vec(),
        content_type: "application/octet-stream".to_string(),
    };
    let bytes = r.encode();
    let split = bytes.windows(4).position(|w| w == b"\r\n\r\n").unwrap();
    let head = std::str::from_utf8(&bytes[..split]).unwrap();
    let mut lines = head.split("\r\n");
    let status: Vec<&str> = lines.next().unwrap().splitn(3, ' ').collect();
    assert_eq!(status[0], "HTTP/1.1");
    assert_eq!(status[1].parse::<u16>().unwrap(), 201);
    let mut content_type = None;
    let mut length = None;
    for l in lines {
        let (k, v) = l.split_once(": ").unwrap();
        match k.to_ascii_lowercase().as_str() {
            "content-type" => content_type = Some(v.to_string()),
            "content-length" => length = Some(v.parse::<usize>().unwrap()),
            _ => {}
        }
    }
    let body = &bytes[split + 4..split + 4 + length.unwrap()];
    assert_eq!(content_type.unwrap(), "application/octet-stream");
    assert_eq!(body, &r.body[..]);
}

#[test]
fn decode_request_line_headers_and_body() {
    let raw = b"POST /files/a.txt HTTP/1.1\r\nHost: x\r\nContent-Length: 5\r\nX-Two: a: b\r\n\r\nhelloEXTRA";
    let req = decode(raw).unwrap();
    assert_eq!(req.method, Method::Post);
    assert_eq!(req.path, "/files/a.txt");
    assert_eq!(req.body, b"hello");
    assert_eq!(req.header("content-length").unwrap(), "5");
    assert_eq!(req.header("host").unwrap(), "x");
    assert_eq!(req.header("x-two").unwrap(), "a: b");
    assert!(req.header("Host").is_none());
    assert!(req.params.is_empty());
}

#[test]
fn decode_last_header_wins_and_no_body() {
    let req = decode(b"GET / HTTP/1.1\r\nA: 1\r\na: 2\r\n\r\n").unwrap();
    assert_eq!(req.header("a").unwrap(), "2");
    assert!(req.body.is_empty());
    let req = decode(b"GET /only\r\n\r\n").unwrap();
    assert_eq!(req.path, "/only");
}

#[test]
fn decode_errors() {
    assert!(matches!(decode(b"GET / HTTP/1.1\r\nHost: x\r\n"), Err(Error::Incomplete)));
    assert!(matches!(decode(b""), Err(Error::Incomplete)));
    assert!(matches!(
        decode(b"POST / HTTP/1.1\r\nContent-Length: 10\r\n\r\nshort"),
        Err(Error::Incomplete)
    ));
    assert!(matches!(decode(b"\r\n\r\n"), Err(Error::BadRequest)));
    assert!(matches!(decode(b"GET\r\n\r\n"), Err(Error::BadRequest)));
    assert!(matches!(decode(b"GET  HTTP/1.1\r\n\r\n"), Err(Error::BadRequest)));
    assert!(matches!(decode(b"GET / HTTP/1.1\r\nNoColon\r\n\r\n"), Err(Error::BadRequest)));
    assert!(matches!(
        decode(b"GET / HTTP/1.1\r\nContent-Length: 1x\r\n\r\n"),
        Err(Error::BadRequest)
    ));
    assert!(matches!(
        decode(b"GET / HTTP/1.1\r\nContent-Length: 99999999999999999999999\r\n\r\n"),
        Err(Error::BadRequest)
    ));
    match decode(b"PUT / HTTP/1.1\r\n\r\n") {
        Err(Error::MethodNotAllowed(m)) => assert_eq!(m, "PUT"),
        _ => panic!("PUT decoded"),
    }
}

#[test]
fn template_pattern_and_names() {
    let (p, names) = parse_template("/a/:x/b/:y").unwrap();
    assert_eq!(p, "^/a/(\\S+)/b/(\\S+)$");
    assert_eq!(names, vec!["x".to_string(), "y".to_string()]);
    let (p, names) = parse_template("/v1.0/:id").unwrap();
    assert_eq!(p, "^/v1\\.0/(\\S+)$");
    assert_eq!(names, vec!["id".to_string()]);
    let (p, names) = parse_template(":x").unwrap();
    assert_eq!(p, "^(\\S+)$");
    assert_eq!(names.len(), 1);
    assert!(parse_template("/a:x").is_none());
    assert!(parse_template("/:").is_none());
    assert!(parse_template("/:/b").is_none());
    assert!(parse_template("/:x-y").is_none());
}

#[test]
fn registration_errors() {
    let r: Draft = Router::new();
    assert!(matches!(r.get("/a/:x/b/:x", BoxedHandler::stateless(Page::Home)), Err(Error::DuplicateParam)));
    let r: Draft = Router::new();
    assert!(matches!(r.post("/a:b", BoxedHandler::stateless(Page::Home)), Err(Error::InvalidTemplate)));
}

#[test]
fn params_bound_in_template_order() {
    let r: Draft = Router::new();
    let r = r.get("/a/:x/b/:y", BoxedHandler::stateless(Page::Home)).unwrap().with_state(String::new());
    let mut req = decode(b"GET /a/1/b/2 HTTP/1.1\r\n\r\n").unwrap();
    assert_eq!(r.get_route(&mut req), Some(0));
    assert_eq!(req.param("x").unwrap(), "1");
    assert_eq!(req.param("y").unwrap(), "2");
    assert_eq!(req.params.len(), 2);
}

#[test]
fn first_registered_match_wins() {
    let r: Router<BoxedHandler<Fixed, Store>> = Router::new();
    let r = r
        .get("/x/:a", BoxedHandler::stateless(Fixed("first")))
        .unwrap()
        .get("/x/:b", BoxedHandler::stateless(Fixed("second")))
        .unwrap()
        .with_state(String::new());
    let out = String::from_utf8(r.execute(b"GET /x/1 HTTP/1.1\r\n\r\n")).unwrap();
    assert_eq!(out, plain("200 OK", "first"));
}

#[test]
fn unmatched_path_or_method_is_not_found() {
    let r = pages();
    let nf = plain("404 Not Found", "Not Found");
    assert_eq!(reply(&r, "GET /nowhere HTTP/1.1\r\n\r\n"), nf);
    assert_eq!(reply(&r, "POST /echo/x HTTP/1.1\r\n\r\n"), nf);
    let empty: Serving = Router::new().with_state(String::new());
    assert_eq!(reply(&empty, "GET / HTTP/1.1\r\n\r\n"), nf);
}

#[test]
fn undecodable_request_is_bad_request() {
    let r = pages();
    let bad = plain("400 Bad Request", "Bad Request");
    assert_eq!(reply(&r, "PUT / HTTP/1.1\r\n\r\n"), bad);
    assert_eq!(reply(&r, "GET / HTTP/1.1\r\nbroken\r\n\r\n"), bad);
    assert_eq!(reply(&r, "GET / HTTP/1.1\r\n"), bad);
}

#[test]
fn binding_state_keeps_stateless_routes() {
    let build = || {
        let r: Draft = Router::new();
        r.get("/echo/:str", BoxedHandler::stateless(Page::Echo)).unwrap().get("/", BoxedHandler::stateless(Page::Home)).unwrap()
    };
    let a = build().with_state("one".to_string());
    let b = build().with_state("two".to_string());
    for raw in ["GET /echo/abc HTTP/1.1\r\n\r\n", "GET / HTTP/1.1\r\n\r\n", "GET /zz HTTP/1.1\r\n\r\n"] {
        assert_eq!(reply(&a, raw), reply(&b, raw));
    }
    let h: BoxedHandler<Page, Store> = BoxedHandler::stateless(Page::Home);
    assert!(matches!(h.into_stateless_handler(String::new()), StatelessHandlerImpl::Plain(Page::Home)));
}

#[test]
fn echo_end_to_end() {
    let r = pages();
    assert_eq!(reply(&r, "GET /echo/hello HTTP/1.1\r\n\r\n"), plain("200 OK", "hello"));
    assert_eq!(reply(&r, "GET / HTTP/1.1\r\n\r\n"), plain("200 OK", ""));
}

#[test]
fn user_agent_end_to_end() {
    let r = pages();
    assert_eq!(
        reply(&r, "GET /user-agent HTTP/1.1\r\nUser-Agent: curl/8.0\r\n\r\n"),
        plain("200 OK", "curl/8.0")
    );
    assert_eq!(reply(&r, "GET /user-agent HTTP/1.1\r\n\r\n"), plain("400 Bad Request", "Bad Request"));
}

#[test]
fn post_unregistered_and_empty_upload() {
    let r = pages();
    assert_eq!(reply(&r, "POST /nothing HTTP/1.1\r\n\r\n"), plain("404 Not Found", "Not Found"));
    assert_eq!(
        reply(&r, "POST /files/a HTTP/1.1\r\nContent-Length: 0\r\n\r\n"),
        plain("400 Bad Request", "Bad Request")
    );
    assert_eq!(
        reply(&r, "POST /files/a HTTP/1.1\r\nContent-Length: 3\r\n\r\nabc"),
        plain("201 Created", "stored:abc")
    );
}

#[test]
fn literal_dots_are_not_wildcards() {
    let r: Router<BoxedHandler<Fixed, Store>> = Router::new();
    let r = r.get("/v1.0", BoxedHandler::stateless(Fixed("v"))).unwrap().with_state(String::new());
    assert_eq!(reply_fixed(&r, "GET /v1.0 HTTP/1.1\r\n\r\n"), plain("200 OK", "v"));
    assert_eq!(reply_fixed(&r, "GET /v1x0 HTTP/1.1\r\n\r\n"), plain("404 Not Found", "Not Found"));
    assert_eq!(reply_fixed(&r, "GET /v1.0/extra HTTP/1.1\r\n\r\n"), plain("404 Not Found", "Not Found"));
}

fn reply_fixed(router: &Router<StatelessHandlerImpl<Fixed, Store, String>>, raw: &str) -> String {
    String::from_utf8(router.execute(raw.as_bytes())).unwrap()
}

#[test]
fn parameter_values_have_no_whitespace_or_slash_limits() {
    let r: Router<BoxedHandler<Page, Store>> = Router::new();
    let r = r.get("/echo/:str", BoxedHandler::stateless(Page::Echo)).unwrap().with_state(String::new());
    assert_eq!(reply(&r, "GET /echo/a/b HTTP/1.1\r\n\r\n"), plain("200 OK", "a/b"));
    assert_eq!(reply(&r, "GET /echo/ HTTP/1.1\r\n\r\n"), plain("404 Not Found", "Not Found"));
}

#[test]
fn upload_outcomes() {
    let ok = upload_outcome(true);
    assert_eq!(ok.status_code, 201);
    assert_eq!(ok.body, b"File Created");
    let failed = upload_outcome(false);
    assert_eq!(failed.status_code, 500);
    assert_eq!(failed.body, b"Internal Server Error");
}

#[test]
fn route_decides_without_running_handlers() {
    let r = pages();
    match r.route(b"GET /echo/hi HTTP/1.1\r\nUser-Agent: t\r\n\r\n") {
        Ok((i, req)) => {
            assert_eq!(i, 1);
            assert_eq!(req.param("str").unwrap(), "hi");
            assert_eq!(req.header("user-agent").unwrap(), "t");
        }
        Err(_) => panic!("no route"),
    }
    match r.route(b"POST /files/f HTTP/1.1\r\n\r\n") {
        Ok((i, req)) => {
            assert_eq!(i, 0);
            assert_eq!(req.method, Method::Post);
            assert_eq!(req.param("file").unwrap(), "f");
        }
        Err(_) => panic!("no route"),
    }
    match r.route(b"GET /none HTTP/1.1\r\n\r\n") {
        Err(resp) => {
            assert_eq!(resp.status_code, 404);
            assert_eq!(resp.body, b"Not Found");
            assert_eq!(resp.content_type, "text/plain");
        }
        Ok(_) => panic!("routed"),
    }
    match r.route(b"BREW / HTTP/1.1\r\n\r\n") {
        Err(resp) => {
            assert_eq!(resp.status_code, 400);
            assert_eq!(resp.body, b"Bad Request");
        }
        Ok(_) => panic!("routed"),
    }
}

#[test]
fn route_parameters_are_added_to_held_ones() {
    let r: Draft = Router::new();
    let r = r.get("/a/:x/b/:y", BoxedHandler::stateless(Page::Home)).unwrap().with_state(String::new());
    let mut req = decode(b"GET /a/1/b/2 HTTP/1.1\r\n\r\n").unwrap();
    req.params.push(("keep".to_string(), "k".to_string()));
    req.params.push(("x".to_string(), "old".to_string()));
    assert_eq!(r.get_route(&mut req), Some(0));
    assert_eq!(req.param("keep").unwrap(), "k");
    assert_eq!(req.param("x").unwrap(), "1");
    assert_eq!(req.param("y").unwrap(), "2");
    let mut miss = decode(b"GET /c HTTP/1.1\r\n\r\n").unwrap();
    miss.params.push(("keep".to_string(), "k".to_string()));
    assert_eq!(r.get_route(&mut miss), None);
    assert_eq!(miss.params.len(), 1);
}
