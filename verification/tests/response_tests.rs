use deboa::errors::{DeboaError, ResponseError};
use deboa::response::{response_failure, status_is_error, DeboaResponse, ErrorBody};
use deboa::url::ParsedUrl;
use http::{HeaderMap, HeaderValue};

fn url() -> ParsedUrl {
    ParsedUrl::parse("https://example.com/r").unwrap()
}

fn response_with(headers: HeaderMap) -> DeboaResponse {
    DeboaResponse::new(url(), 200, headers, b"body".to_vec())
}

#[test]
fn content_length_reads_the_header() {
    let mut h = HeaderMap::new();
    h.insert("content-length", HeaderValue::from_static("1234"));
    assert_eq!(response_with(h).content_length().unwrap(), 1234);
}

#[test]
fn content_length_errors() {
    let r = response_with(HeaderMap::new());
    match r.content_length() {
        Err(DeboaError::Header { message }) => assert_eq!(message, "Header is missing"),
        other => panic!("{:?}", other),
    }
    let mut h = HeaderMap::new();
    h.insert("content-length", HeaderValue::from_static("12a"));
    match response_with(h).content_length() {
        Err(DeboaError::Header { message }) => {
            assert_eq!(message, "Failed to parse content-length: invalid digit found in string")
        }
        other => panic!("{:?}", other),
    }
    let mut h = HeaderMap::new();
    h.insert("content-length", HeaderValue::from_static("99999999999999999999"));
    match response_with(h).content_length() {
        Err(DeboaError::Header { message }) => {
            assert_eq!(message, "Failed to parse content-length: number too large to fit in target type")
        }
        other => panic!("{:?}", other),
    }
    let mut h = HeaderMap::new();
    h.insert("content-length", HeaderValue::from_bytes(b"\xff").unwrap());
    match response_with(h).content_length() {
        Err(DeboaError::Header { message }) => {
            assert_eq!(message, "Failed to read content-length:: failed to convert header to a str")
        }
        other => panic!("{:?}", other),
    }
}

#[test]
fn content_type_reads_the_header() {
    let mut h = HeaderMap::new();
    h.insert("content-type", HeaderValue::from_static("text/html; charset=utf-8"));
    assert_eq!(response_with(h).content_type().unwrap(), "text/html; charset=utf-8");
    assert!(response_with(HeaderMap::new()).content_type().is_err());
}

#[test]
fn cookies_are_parsed_in_order() {
    let mut h = HeaderMap::new();
    h.append("set-cookie", HeaderValue::from_static("a=1; Path=/"));
    h.append("set-cookie", HeaderValue::from_static("b=2; Secure"));
    let r = response_with(h);
    let cookies = r.cookies().unwrap().unwrap();
    assert_eq!(cookies.len(), 2);
    assert_eq!(cookies[0].name(), "a");
    assert_eq!(cookies[1].value(), "2");
    assert_eq!(cookies[1].secure(), Some(true));
    assert!(response_with(HeaderMap::new()).cookies().unwrap().is_none());
}

#[test]
fn invalid_cookie_is_an_error_when_checked() {
    let mut h = HeaderMap::new();
    h.append("set-cookie", HeaderValue::from_static("novalue"));
    match response_with(h).parse_cookies() {
        Err(DeboaError::Cookie { message }) => assert_eq!(message, "Invalid cookie header"),
        other => panic!("{:?}", other.map(|_| ())),
    }
}

#[test]
fn response_accessors_and_builder() {
    let mut r = DeboaResponse::builder(url()).status(404).body(b"nope".to_vec()).build();
    assert_eq!(r.status(), 404);
    assert_eq!(r.raw_body(), b"nope".to_vec());
    assert_eq!(r.raw_body(), Vec::<u8>::new());
    assert_eq!(r.text().unwrap(), "");
    assert_eq!(r.url().as_str(), "https://example.com/r");
    let mut r = DeboaResponse::builder(url()).build();
    assert_eq!(r.status(), 200);
    r.set_status(201);
    r.set_raw_body(vec![0xff, b'a']);
    assert_eq!(r.status(), 201);
    assert_eq!(r.text().unwrap(), "\u{fffd}a");
    assert!(r.raw_body().is_empty());
    r.set_raw_body(b"h\xffi".to_vec());
    assert_eq!(r.text().unwrap(), "h\u{fffd}i");
    assert!(r.raw_body().is_empty());
}

#[test]
fn error_statuses() {
    assert!(!status_is_error(100));
    assert!(!status_is_error(200));
    assert!(!status_is_error(204));
    assert!(!status_is_error(302));
    assert!(status_is_error(400));
    assert!(status_is_error(404));
    assert!(status_is_error(429));
    assert!(status_is_error(500));
    assert!(status_is_error(999));
}

#[test]
fn failure_message_names_the_status() {
    match response_failure(404, b"missing") {
        DeboaError::Response(ResponseError::Receive { status_code, message }) => {
            assert_eq!(status_code, 404);
            assert_eq!(message, "Could not process request (404 Not Found): missing");
        }
        other => panic!("{:?}", other),
    }
    match response_failure(599, b"") {
        DeboaError::Response(ResponseError::Receive { message, .. }) => {
            assert_eq!(message, "Could not process request (599 <unknown status code>): ")
        }
        other => panic!("{:?}", other),
    }
}

#[test]
fn error_body_stops_at_the_limit() {
    let mut e = ErrorBody::new(10);
    assert!(e.feed(b"hello"));
    assert!(e.feed(b"world"));
    assert!(!e.feed(b"!"));
    assert!(!e.feed(b""));
    assert_eq!(e.data(), b"helloworld");
    match e.into_error(500) {
        DeboaError::Response(ResponseError::Receive { status_code, message }) => {
            assert_eq!(status_code, 500);
            assert_eq!(message, "Could not process request (500 Internal Server Error): helloworld");
        }
        other => panic!("{:?}", other),
    }
    let mut e = ErrorBody::new(4);
    assert!(!e.feed(b"hello"));
    assert_eq!(e.data(), b"");
}

#[test]
fn error_body_state_follows_the_chunks() {
    let mut e = ErrorBody::new(3);
    assert!(e.feed(b"ab"));
    assert!(!e.feed(b"cd"));
    assert!(!e.feed(b"e"));
    assert_eq!(e.data(), b"ab");
}
