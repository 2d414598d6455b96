use route_table::codec::decode;
use route_table::pages::{echo, file_path, home_page, read_outcome, upload_precheck, user_agent};

#[test]
fn home_page_is_empty_ok() {
    let r = home_page(decode(b"GET / HTTP/1.1\r\n\r\n").unwrap());
    assert_eq!(r.status_code, 200);
    assert!(r.body.is_empty());
    assert_eq!(r.content_type, "text/plain");
}

#[test]
fn echo_without_parameter_is_bad_request() {
    let r = echo(decode(b"GET /echo HTTP/1.1\r\n\r\n").unwrap());
    assert_eq!(r.status_code, 400);
    assert_eq!(r.body, b"Bad Request");
}

#[test]
fn echo_returns_parameter() {
    let mut req = decode(b"GET /echo/x HTTP/1.1\r\n\r\n").unwrap();
    req.params.push(("str".to_string(), "abc".to_string()));
    let r = echo(req);
    assert_eq!(r.status_code, 200);
    assert_eq!(r.body, b"abc");
}

#[test]
fn user_agent_reads_lowercased_header() {
    let r = user_agent(decode(b"GET /user-agent HTTP/1.1\r\nUSER-AGENT: me\r\n\r\n").unwrap());
    assert_eq!(r.status_code, 200);
    assert_eq!(r.body, b"me");
}

#[test]
fn file_helpers() {
    assert_eq!(file_path("/tmp/files", "a.txt"), "/tmp/files/a.txt");
    let found = read_outcome(Some(vec![1, 2, 3]));
    assert_eq!(found.status_code, 200);
    assert_eq!(found.body, vec![1, 2, 3]);
    assert_eq!(found.content_type, "application/octet-stream");
    let missing = read_outcome(None);
    assert_eq!(missing.status_code, 404);
    assert_eq!(missing.body, b"Not Found");
    let empty = decode(b"POST /files/a HTTP/1.1\r\n\r\n").unwrap();
    assert_eq!(upload_precheck(&empty).unwrap().status_code, 400);
    let full = decode(b"POST /files/a HTTP/1.1\r\nContent-Length: 1\r\n\r\nz").unwrap();
    assert!(upload_precheck(&full).is_none());
}

#[test]
fn non_ascii_path_is_decoded_as_utf8() {
    let req = decode("GET /caf\u{e9} HTTP/1.1\r\n\r\n".as_bytes()).unwrap();
    assert_eq!(req.path, "/caf\u{e9}");
    let req = decode(b"GET /\xff HTTP/1.1\r\n\r\n").unwrap();
    assert_eq!(req.path, "/\u{fffd}");
}
