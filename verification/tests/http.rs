use rust_multithread_server::handler::handler;
use rust_multithread_server::request::{ParseError, Request};
use rust_multithread_server::response::Response;
use rust_multithread_server::routes::Routes;

#[test]
fn parse_round_trip() {
    let req = Request::new("GET /about HTTP/1.1\r\nHost: x\r\n\r\n").unwrap();
    assert_eq!(req.method, "GET");
    assert_eq!(req.path, "/about");
    assert_eq!(req.headers.len(), 1);
    assert_eq!(req.headers[0].0, "Host");
    assert_eq!(req.headers[0].1, "x");
}

#[test]
fn malformed_header_is_an_error_not_a_crash() {
    let r = Request::new("GET / HTTP/1.1\r\nBadHeader\r\n\r\n");
    assert!(matches!(r, Err(ParseError::MalformedHeader)));
}

#[test]
fn empty_input_is_missing_request_line() {
    let r = Request::new("");
    assert!(matches!(r, Err(ParseError::MissingRequestLine)));
}

#[test]
fn blank_first_line_is_missing_request_line() {
    let r = Request::new("\r\nGET / HTTP/1.1\r\n\r\n");
    assert!(matches!(r, Err(ParseError::MissingRequestLine)));
}

#[test]
fn one_token_request_line_is_malformed() {
    let r = Request::new("GET\r\nHost: x\r\n\r\n");
    assert!(matches!(r, Err(ParseError::MalformedRequestLine)));
}

#[test]
fn header_value_is_trimmed() {
    let req = Request::new("GET / HTTP/1.1\r\nHost:   spaced out  \r\n\r\n").unwrap();
    assert_eq!(req.headers[0].0, "Host");
    assert_eq!(req.headers[0].1, "spaced out");
}

#[test]
fn header_splits_on_first_colon_only() {
    let req = Request::new("GET / HTTP/1.1\r\nHost: a:b:c\r\n\r\n").unwrap();
    assert_eq!(req.headers[0].0, "Host");
    assert_eq!(req.headers[0].1, "a:b:c");
}

#[test]
fn duplicate_headers_keep_arrival_order() {
    let req =
        Request::new("GET / HTTP/1.1\r\nAccept: text/html\r\nAccept: text/plain\r\n\r\n").unwrap();
    assert_eq!(req.headers.len(), 2);
    assert_eq!(req.headers[0].1, "text/html");
    assert_eq!(req.headers[1].1, "text/plain");
}

#[test]
fn input_without_blank_line_still_parses() {
    let req = Request::new("POST /x HTTP/1.1\r\nHost: y").unwrap();
    assert_eq!(req.method, "POST");
    assert_eq!(req.path, "/x");
    assert_eq!(req.headers.len(), 1);
    assert_eq!(req.headers[0].1, "y");
}

#[test]
fn serialize_exact_bytes() {
    let mut res = Response::new();
    res.set_status_code(200);
    res.add_header("Content-Type".to_string(), "text/html".to_string());
    res.set_body(b"hi".to_vec());
    let bytes = res.to_bytes();
    assert_eq!(
        bytes,
        b"HTTP/1.1 200\r\nContent-Type: text/html\r\nContent-Length: 2\r\n\r\nhi".to_vec()
    );
}

#[test]
fn serialize_defaults() {
    let res = Response::new();
    assert_eq!(res.to_bytes(), b"HTTP/1.1 200\r\nContent-Length: 0\r\n\r\n".to_vec());
}

#[test]
fn serialize_multi_digit_content_length() {
    let mut res = Response::new();
    res.set_status_code(404);
    res.set_body(b"not found!".to_vec());
    assert_eq!(res.to_bytes(), b"HTTP/1.1 404\r\nContent-Length: 10\r\n\r\nnot found!".to_vec());
}

#[test]
fn serialize_keeps_duplicate_headers_in_order() {
    let mut res = Response::new();
    res.add_header("A".to_string(), "1".to_string());
    res.add_header("A".to_string(), "2".to_string());
    assert_eq!(res.to_bytes(), b"HTTP/1.1 200\r\nA: 1\r\nA: 2\r\nContent-Length: 0\r\n\r\n".to_vec());
}

#[test]
fn set_body_replaces_prior_body() {
    let mut res = Response::new();
    res.set_body(b"first".to_vec());
    res.set_body(b"hi".to_vec());
    assert_eq!(res.to_bytes(), b"HTTP/1.1 200\r\nContent-Length: 2\r\n\r\nhi".to_vec());
}

#[test]
fn handler_serializes_the_callback_response() {
    let out = handler("GET /about HTTP/1.1\r\nHost: x\r\n\r\n", |req, res| {
        assert_eq!(req.path, "/about");
        Routes::about_handler(req, res, b"about".to_vec())
    });
    assert_eq!(
        out.unwrap(),
        b"HTTP/1.1 200\r\nContent-Type: text/html\r\nContent-Length: 5\r\n\r\nabout".to_vec()
    );
}

#[test]
fn handler_reports_parse_errors() {
    let out = handler("GET / HTTP/1.1\r\nBadHeader\r\n\r\n", |_req, res| res);
    assert!(matches!(out, Err(ParseError::MalformedHeader)));
}

#[test]
fn home_handler_fills_the_response() {
    let req = Request::new("GET / HTTP/1.1\r\n\r\n").unwrap();
    let res = Routes::home_handler(req, Response::new(), b"<h1>home</h1>".to_vec());
    assert_eq!(res.status_code, 200);
    assert_eq!(res.headers.len(), 1);
    assert_eq!(res.headers[0].0, "Content-Type");
    assert_eq!(res.headers[0].1, "text/html");
    assert_eq!(res.body, b"<h1>home</h1>".to_vec());
}

#[test]
fn not_found_handler_sets_404() {
    let req = Request::new("GET /nope HTTP/1.1\r\n\r\n").unwrap();
    let res = Routes::not_found_handler(req, Response::new(), b"gone".to_vec());
    assert_eq!(res.status_code, 404);
    assert_eq!(res.headers[0].1, "text/html");
    assert_eq!(res.body, b"gone".to_vec());
}
