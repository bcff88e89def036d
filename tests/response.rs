use static_http::handler::{StaticFileHandler, NOT_FOUND_PAGE};
use static_http::headers::Headers;
use static_http::http::parse_request;
use static_http::response::{decimal, mime_type, Body, Response, Status};

fn pairs(v: &[(&str, &str)]) -> Vec<(String, String)> {
    v.iter().map(|(k, x)| (k.to_string(), x.to_string())).collect()
}

#[test]
fn status_lines() {
    assert_eq!(Status::OK.as_str(), "200 OK");
    assert_eq!(Status::NotFound.as_str(), "404 Not Found");
}

#[test]
fn decimal_digits() {
    assert_eq!(decimal(0), "0");
    assert_eq!(decimal(7), "7");
    assert_eq!(decimal(10), "10");
    assert_eq!(decimal(1234567890), "1234567890");
    assert_eq!(decimal(u64::MAX), u64::MAX.to_string());
}

#[test]
fn mime_table() {
    assert_eq!(mime_type("/srv/index.html"), "text/html");
    assert_eq!(mime_type("a.css"), "text/css");
    assert_eq!(mime_type("a/b.js"), "text/javascript");
    assert_eq!(mime_type("x.png"), "image/png");
    assert_eq!(mime_type("x.jpg"), "image/jpeg");
    assert_eq!(mime_type("x.gif"), "image/gif");
    assert_eq!(mime_type("x.txt"), "application/octet-stream");
    assert_eq!(mime_type("x.HTML"), "application/octet-stream");
    assert_eq!(mime_type("noext"), "application/octet-stream");
    assert_eq!(mime_type("/dir.html/file"), "application/octet-stream");
    assert_eq!(mime_type("/.html"), "application/octet-stream");
    assert_eq!(mime_type("a.tar.gif"), "image/gif");
}

#[test]
fn mime_follows_last_normal_component() {
    assert_eq!(mime_type("a.html/"), "text/html");
    assert_eq!(mime_type("a.html//"), "text/html");
    assert_eq!(mime_type("a.html/."), "text/html");
    assert_eq!(mime_type("dir/a.css/./"), "text/css");
    assert_eq!(mime_type("./x.js"), "text/javascript");
    assert_eq!(mime_type("a.png/.."), "application/octet-stream");
    assert_eq!(mime_type(".."), "application/octet-stream");
    assert_eq!(mime_type("."), "application/octet-stream");
    assert_eq!(mime_type("/"), "application/octet-stream");
    assert_eq!(mime_type(""), "application/octet-stream");
    assert_eq!(mime_type("dir/.gif"), "application/octet-stream");
    assert_eq!(mime_type("a."), "application/octet-stream");
    assert_eq!(mime_type("a.b/x..jpg"), "image/jpeg");
}

#[test]
fn html_response() {
    let r = Response::from_html(Status::OK, "héllo");
    assert_eq!(r.status, Status::OK);
    assert_eq!(r.headers.entries, pairs(&[("Content-Type", "text/html"), ("Content-Length", "6")]));
    match r.body {
        Body::Bytes(b) => assert_eq!(b, "héllo".as_bytes().to_vec()),
        Body::Stream(_) => panic!("expected bytes"),
    }
}

#[test]
fn file_response() {
    let r = Response::from_file("root/pic.jpg", 2048);
    assert_eq!(r.status, Status::OK);
    assert_eq!(r.headers.entries, pairs(&[("Content-Length", "2048"), ("Content-Type", "image/jpeg")]));
    assert!(matches!(r.body, Body::Stream(2048)));
}

#[test]
fn head_text_in_insertion_order() {
    let r = Response::from_file("a.css", 12);
    assert_eq!(
        r.status_and_headers(),
        "HTTP/1.1 200 OK\r\nContent-Length: 12\r\nContent-Type: text/css\r\n\r\n"
    );
    let empty = Response { status: Status::NotFound, headers: Headers::new(), body: Body::Stream(0) };
    assert_eq!(empty.status_and_headers(), "HTTP/1.1 404 Not Found\r\n\r\n");
}

#[test]
fn existing_file_resolves_to_ok() {
    let h = StaticFileHandler::with_root("/srv/www".to_string());
    let req = parse_request("GET /css/site.css HTTP/1.1\r\n\r\n").unwrap();
    assert_eq!(h.file_path(&req.path), "/srv/www/css/site.css");
    let r = h.handle(&req, Some(5120));
    assert_eq!(r.status, Status::OK);
    assert_eq!(r.headers.get("Content-Length"), Some(&"5120".to_string()));
    assert_eq!(r.headers.get("Content-Type"), Some(&"text/css".to_string()));
    assert!(matches!(r.body, Body::Stream(5120)));
}

#[test]
fn missing_file_resolves_to_not_found() {
    let h = StaticFileHandler::with_root("/srv/www".to_string());
    let req = parse_request("GET /nope.html HTTP/1.1\r\n\r\n").unwrap();
    let r = h.handle(&req, None);
    assert_eq!(r.status, Status::NotFound);
    assert_eq!(r.headers.get("Content-Length"), Some(&NOT_FOUND_PAGE.len().to_string()));
    assert_eq!(r.headers.get("Content-Type"), Some(&"text/html".to_string()));
    match r.body {
        Body::Bytes(b) => assert_eq!(b, NOT_FOUND_PAGE.as_bytes().to_vec()),
        Body::Stream(_) => panic!("expected bytes"),
    }
}

#[test]
fn path_joining() {
    let h = StaticFileHandler::with_root("/srv/".to_string());
    assert_eq!(h.file_path("/a.txt"), "/srv/a.txt");
    assert_eq!(h.file_path("/"), "/srv/");
    assert_eq!(h.file_path("//etc/passwd"), "/etc/passwd");
    assert_eq!(h.file_path("/../x"), "/srv/../x");
    let rel = StaticFileHandler::with_root(String::new());
    assert_eq!(rel.file_path("/a"), "a");
    let plain = StaticFileHandler::with_root("www".to_string());
    assert_eq!(plain.file_path("/"), "www/");
}
