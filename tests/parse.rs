use static_http::headers::Headers;
use static_http::http::{ends_head, parse_request, Method, Request, RequestError};

fn pairs(v: &[(&str, &str)]) -> Vec<(String, String)> {
    v.iter().map(|(k, x)| (k.to_string(), x.to_string())).collect()
}

fn err_of(text: &str) -> RequestError {
    match parse_request(text) {
        Ok(_) => panic!("expected an error for {:?}", text),
        Err(e) => e,
    }
}

#[test]
fn test_parse_request() {
    let req = parse_request("GET /foo HTTP/1.1\r\nHost: localhost\r\n\r\n").unwrap();
    assert_eq!(
        req,
        Request {
            method: Method::Get,
            path: "/foo".to_string(),
            headers: Headers { entries: pairs(&[("Host", "localhost")]) },
        }
    );
}

#[test]
fn no_headers_then_blank_line() {
    let req = parse_request("GET /foo HTTP/1.1\r\n\r\n").unwrap();
    assert_eq!(req.path, "/foo");
    assert_eq!(req.headers.len(), 0);
}

#[test]
fn end_of_input_before_blank_line() {
    assert_eq!(err_of("GET /foo HTTP/1.1\r\n"), RequestError::UnexpectedEof);
    assert_eq!(err_of("GET /foo HTTP/1.1\r\nHost: a\r\n"), RequestError::UnexpectedEof);
    assert!(RequestError::UnexpectedEof.is_malformed());
}

#[test]
fn post_is_rejected() {
    let e = err_of("POST / HTTP/1.1\r\n\r\n");
    assert_eq!(e, RequestError::UnsupportedMethod);
    assert!(e.is_malformed());
}

#[test]
fn method_is_case_sensitive() {
    assert_eq!(err_of("get / HTTP/1.1\r\n\r\n"), RequestError::UnsupportedMethod);
    assert!(Method::try_from("GET").is_ok());
    assert_eq!(Method::try_from("GETS"), Err(RequestError::UnsupportedMethod));
}

#[test]
fn empty_input_is_a_clean_close() {
    let e = err_of("");
    assert_eq!(e, RequestError::ConnectionClosed);
    assert!(!e.is_malformed());
}

#[test]
fn request_line_errors() {
    assert_eq!(err_of("\r\n\r\n"), RequestError::MissingMethod);
    assert_eq!(err_of("   \r\n"), RequestError::MissingMethod);
    assert_eq!(err_of("GET\r\n\r\n"), RequestError::MissingPath);
    assert_eq!(err_of("GET   \r\n\r\n"), RequestError::MissingPath);
}

#[test]
fn header_line_errors() {
    assert_eq!(err_of("GET / HTTP/1.1\r\nnocolon\r\n\r\n"), RequestError::MissingHeaderValue);
    assert_eq!(err_of("GET / HTTP/1.1\r\n: value\r\n\r\n"), RequestError::MissingHeaderName);
}

#[test]
fn repeated_header_keeps_last_value_in_place() {
    let req = parse_request("GET /a HTTP/1.1\r\nA: 1\r\nB: 2\r\nA: 3\r\n\r\n").unwrap();
    assert_eq!(req.headers.entries, pairs(&[("A", "3"), ("B", "2")]));
    assert_eq!(req.headers.get("A"), Some(&"3".to_string()));
    assert_eq!(req.headers.get("a"), None);
}

#[test]
fn value_is_everything_after_first_colon_trimmed() {
    let req = parse_request("GET / HTTP/1.1\r\nHost:   localhost:8080  \r\nX:\r\n\r\n").unwrap();
    assert_eq!(req.headers.entries, pairs(&[("Host", "localhost:8080"), ("X", "")]));
}

#[test]
fn bare_newlines_and_extra_tokens() {
    let req = parse_request("  GET   /x/y.css   HTTP/1.1 extra\nAccept: */*\n\nGET /next").unwrap();
    assert_eq!(req.path, "/x/y.css");
    assert_eq!(req.headers.entries, pairs(&[("Accept", "*/*")]));
}

#[test]
fn rendered_head_parses_back() {
    let hs = [("Host", "example.org"), ("Connection", "keep-alive"), ("X-Y", "a: b")];
    let mut text = String::from("GET /dir/file.png HTTP/1.1\r\n");
    for (k, v) in hs.iter() {
        text.push_str(&format!("{}: {}\r\n", k, v));
    }
    text.push_str("\r\n");
    let req = parse_request(&text).unwrap();
    assert_eq!(req.method, Method::Get);
    assert_eq!(req.path, "/dir/file.png");
    assert_eq!(req.headers.entries, pairs(&hs));
}

#[test]
fn head_ends_at_blank_or_empty_line() {
    assert!(ends_head(""));
    assert!(ends_head("\n"));
    assert!(ends_head("\r\n"));
    assert!(!ends_head("Host: a\r\n"));
    assert!(!ends_head(" \r\n"));
}

#[test]
fn text_after_the_head_is_ignored() {
    let head = "GET /a.css HTTP/1.1\r\nHost: x\r\n\r\n";
    let alone = parse_request(head).unwrap();
    let followed = parse_request(&format!("{head}GET /b HTTP/1.1\r\nBad line\r\n")).unwrap();
    assert_eq!(alone, followed);
}
