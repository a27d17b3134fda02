use deboa::cookie::{CookieMap, DeboaCookie};
use deboa::errors::{DeboaError, RequestError};
use deboa::form::{DeboaForm, EncodedForm, FilePart, Form, MultiPartForm};
use deboa::method::Method;
use deboa::request::{
    get, post, DeboaRequest, DeboaRequestBuilder, IntoHeaders, IntoRequest, MethodExt,
};

fn header(req: &DeboaRequest, name: &str) -> Option<String> {
    req.headers().get(name).map(|v| v.to_str().unwrap().to_string())
}

#[test]
fn from_str_reads_method_url_headers_and_body() {
    let text = "POST https://example.com/items\nContent-Type: application/json\n\n{\"name\": \"deboa\"}\n";
    let req = DeboaRequest::from_str(text).unwrap();
    assert_eq!(*req.method(), Method::Post);
    assert_eq!(req.url().as_str(), "https://example.com/items");
    assert_eq!(header(&req, "content-type").as_deref(), Some("application/json"));
    assert_eq!(header(&req, "host").as_deref(), Some("example.com"));
    assert_eq!(req.raw_body(), b"{\"name\": \"deboa\"}");
    assert_eq!(req.retries(), 0);
    assert!(req.cookies().is_none());
}

#[test]
fn from_str_joins_trimmed_body_lines() {
    let text = "  GET   http://localhost:8080/x  \r\nAccept: */*\r\n\r\n  one \r\n\r\n two\r\n";
    let req = DeboaRequest::from_str(text).unwrap();
    assert_eq!(*req.method(), Method::Get);
    assert_eq!(req.url().as_str(), "http://localhost:8080/x");
    assert_eq!(header(&req, "host").as_deref(), Some("localhost:8080"));
    assert_eq!(req.raw_body(), b"onetwo");
}

#[test]
fn from_str_keeps_a_given_host() {
    let text = "DELETE https://example.com/items/1\nHost: api.example.com\n";
    let req = DeboaRequest::from_str(text).unwrap();
    assert_eq!(*req.method(), Method::Delete);
    assert_eq!(header(&req, "host").as_deref(), Some("api.example.com"));
    assert!(req.raw_body().is_empty());
}

#[test]
fn from_str_rejects_an_invalid_header_name() {
    let text = "GET https://example.com\nBad Name: x\n";
    match DeboaRequest::from_str(text) {
        Err(DeboaError::Request(RequestError::Parse { message })) => {
            assert_eq!(message, "Invalid header name")
        }
        other => panic!("unexpected: {:?}", other.map(|_| ())),
    }
}

#[test]
fn from_str_rejects_an_invalid_header_value() {
    let text = "GET https://example.com\nX-Bad: a\u{1}b\n";
    match DeboaRequest::from_str(text) {
        Err(DeboaError::Request(RequestError::Parse { message })) => {
            assert_eq!(message, "Invalid header value")
        }
        other => panic!("unexpected: {:?}", other.map(|_| ())),
    }
}

#[test]
fn from_str_without_request_line_is_a_url_error() {
    let text = "Accept: */*\n";
    assert!(matches!(
        DeboaRequest::from_str(text),
        Err(DeboaError::Request(RequestError::UrlParse { .. }))
    ));
}

#[test]
fn from_str_reads_a_bare_request_line() {
    let req = DeboaRequest::from_str("GET https://jsonplaceholder.typicode.com/posts").unwrap();
    assert_eq!(*req.method(), Method::Get);
    assert_eq!(req.url().as_str(), "https://jsonplaceholder.typicode.com/posts");
    assert_eq!(header(&req, "host").as_deref(), Some("jsonplaceholder.typicode.com"));
}

#[test]
fn written_content_length_reads_back() {
    let mut req = post("https://example.com").unwrap().build(&[]).unwrap();
    req.set_raw_body(&vec![7u8; 4096]);
    let url = deboa::url::ParsedUrl::parse("https://example.com").unwrap();
    let resp = deboa::response::DeboaResponse::new(url, 200, req.headers().clone(), Vec::new());
    assert_eq!(resp.content_length().unwrap(), 4096);
}

#[test]
fn builder_sets_host_and_content_length() {
    let req = get("https://example.com:8443/a?b=c").unwrap().build(&[]).unwrap();
    assert_eq!(*req.method(), Method::Get);
    assert_eq!(header(&req, "host").as_deref(), Some("example.com"));
    assert_eq!(header(&req, "content-length").as_deref(), Some("0"));
}

#[test]
fn builder_text_body_and_retries() {
    let req = post("http://example.com/p")
        .unwrap()
        .retries(3)
        .text("hello")
        .header("x-trace", "abc")
        .build(&[])
        .unwrap();
    assert_eq!(*req.method(), Method::Post);
    assert_eq!(req.retries(), 3);
    assert_eq!(req.raw_body(), b"hello");
    assert_eq!(header(&req, "content-length").as_deref(), Some("5"));
    assert_eq!(header(&req, "x-trace").as_deref(), Some("abc"));
}

#[test]
fn builder_methods() {
    assert_eq!(*DeboaRequest::put("http://a.b").unwrap().build(&[]).unwrap().method(), Method::Put);
    assert_eq!(*DeboaRequest::patch("http://a.b").unwrap().build(&[]).unwrap().method(), Method::Patch);
    assert_eq!(*DeboaRequest::delete("http://a.b").unwrap().build(&[]).unwrap().method(), Method::Delete);
    assert_eq!(*DeboaRequest::to("http://a.b").unwrap().build(&[]).unwrap().method(), Method::Post);
    assert_eq!(*DeboaRequest::from("http://a.b").unwrap().build(&[]).unwrap().method(), Method::Get);
}

#[test]
fn invalid_url_is_a_url_error() {
    assert!(matches!(get("not a url"), Err(DeboaError::Request(RequestError::UrlParse { .. }))));
}

#[test]
fn raw_body_sets_content_length() {
    let mut req = get("https://example.com").unwrap().build(&[]).unwrap();
    req.set_raw_body(&[1, 2, 3, 4, 5, 6, 7, 8, 9, 10, 11, 12]);
    assert_eq!(req.raw_body().len(), 12);
    assert_eq!(header(&req, "content-length").as_deref(), Some("12"));
    req.set_text("héllo".to_string());
    assert_eq!(req.raw_body(), "héllo".as_bytes());
    assert_eq!(header(&req, "content-length").as_deref(), Some("6"));
}

#[test]
fn add_header_replaces_the_value() {
    let mut req = get("https://example.com").unwrap().build(&[]).unwrap();
    assert!(!req.has_header("Accept"));
    req.add_header("Accept", "text/plain");
    req.add_header("accept", "application/json");
    assert!(req.has_header("ACCEPT"));
    assert_eq!(req.headers().get_all("accept").iter().count(), 1);
    assert_eq!(header(&req, "accept").as_deref(), Some("application/json"));
}

#[test]
fn bearer_and_basic_auth() {
    let mut req = get("https://example.com").unwrap().build(&[]).unwrap();
    req.add_bearer_auth("token123");
    assert_eq!(header(&req, "authorization").as_deref(), Some("Bearer token123"));
    req.add_basic_auth("Aladdin", "open sesame");
    assert_eq!(header(&req, "authorization").as_deref(), Some("Basic QWxhZGRpbjpvcGVuIHNlc2FtZQ=="));
    let req = get("https://example.com").unwrap().basic_auth("a", "b").bearer_auth("t").build(&[]).unwrap();
    assert_eq!(header(&req, "authorization").as_deref(), Some("Bearer t"));
    let req = get("https://example.com").unwrap().basic_auth("user", "").build(&[]).unwrap();
    assert_eq!(header(&req, "authorization").as_deref(), Some("Basic dXNlcjo="));
}

#[test]
fn cookies_add_has_remove() {
    let mut req = get("https://example.com").unwrap().build(&[]).unwrap();
    assert!(!req.has_cookie("session"));
    req.add_cookie(DeboaCookie::new("session", "1"));
    req.add_cookie(DeboaCookie::new("theme", "dark"));
    assert!(req.has_cookie("session"));
    req.add_cookie(DeboaCookie::new("session", "2"));
    assert_eq!(req.cookies().unwrap().len(), 2);
    assert_eq!(req.cookies().unwrap().get("session").unwrap().value(), "2");
    req.remove_cookie("session");
    assert!(!req.has_cookie("session"));
    assert!(req.has_cookie("theme"));
    let mut map = CookieMap::new();
    map.insert("a".to_string(), DeboaCookie::new("a", "b"));
    req.set_cookies(map);
    assert!(req.has_cookie("a"));
    assert!(!req.has_cookie("theme"));
}

#[test]
fn builder_cookies() {
    let req = get("https://example.com")
        .unwrap()
        .cookie(DeboaCookie::new("k", "v"))
        .cookie(DeboaCookie::new("k", "w"))
        .build(&[])
        .unwrap();
    assert_eq!(req.cookies().unwrap().len(), 1);
    assert_eq!(req.cookies().unwrap().get("k").unwrap().value(), "w");
}

#[test]
fn set_url_follows_host() {
    let mut req = get("https://example.com/a").unwrap().build(&[]).unwrap();
    req.set_url("http://other.org:81/b").unwrap();
    assert_eq!(req.url().as_str(), "http://other.org:81/b");
    assert_eq!(header(&req, "host").as_deref(), Some("other.org:81"));
    assert!(req.set_url("::bad::").is_err());
    assert_eq!(req.url().as_str(), "http://other.org:81/b");
}

#[test]
fn set_url_without_host_header_adds_none() {
    let mut req = get("https://example.com/a").unwrap().build(&[]).unwrap();
    req.headers_mut().remove("host");
    req.set_url("https://other.org/").unwrap();
    assert!(header(&req, "host").is_none());
}

#[test]
fn set_method_changes_the_method() {
    let mut req = get("https://example.com").unwrap().build(&[]).unwrap();
    req.set_method(Method::Head);
    assert_eq!(*req.method(), Method::Head);
}

#[test]
fn encoded_form_body() {
    let mut form = EncodedForm::builder();
    form.field("name", "John Doe").field("city", "São Paulo").field("name", "Jane");
    assert_eq!(form.content_type(), "application/x-www-form-urlencoded");
    let mut req = post("https://example.com/f").unwrap().build(&[]).unwrap();
    req.set_form(Form::EncodedForm(form), &[]);
    assert_eq!(req.raw_body(), b"name=Jane&city=S%C3%A3o%20Paulo");
    assert_eq!(header(&req, "content-type").as_deref(), Some("application/x-www-form-urlencoded"));
    assert_eq!(header(&req, "content-length").as_deref(), Some("31"));
}

#[test]
fn multipart_form_body() {
    let mut form = MultiPartForm::builder();
    let boundary = form.boundary();
    assert!(boundary.starts_with("DeboaFormBdry"));
    assert_eq!(boundary.len(), 23);
    form.field("a", "1").field("b", "two");
    assert_eq!(form.content_type(), format!("multipart/form-data; boundary={}", boundary));
    let body = form.build(&[None, None]);
    let expected = format!(
        "--{b}\r\nContent-Disposition: form-data; name=\"a\"\r\n\r\n1\r\n--{b}\r\nContent-Disposition: form-data; name=\"b\"\r\n\r\ntwo\r\n--{b}--\r\n",
        b = boundary
    );
    assert_eq!(String::from_utf8(body).unwrap(), expected);
}

#[test]
fn multipart_form_with_a_file() {
    let form = MultiPartForm::builder().file("doc", "/tmp/notes.txt");
    let boundary = form.boundary();
    let files = vec![Some(FilePart { file_name: Some("notes.txt".to_string()), content: b"hi".to_vec() })];
    let body = form.build(&files);
    let expected = format!(
        "--{b}\r\nContent-Disposition: form-data; name=\"doc\"; filename=\"notes.txt\"\r\nContent-Type: text/plain\r\n\r\nhi\r\n--{b}--\r\n",
        b = boundary
    );
    assert_eq!(String::from_utf8(body).unwrap(), expected);
}

#[test]
fn multipart_file_of_unknown_type_is_left_out() {
    let form = MultiPartForm::builder().file("doc", "/tmp/blob.unknownext");
    let boundary = form.boundary();
    let files = vec![Some(FilePart { file_name: Some("blob.unknownext".to_string()), content: b"x".to_vec() })];
    let body = form.build(&files);
    assert_eq!(String::from_utf8(body).unwrap(), format!("--{b}\r\n--{b}--\r\n", b = boundary));
}

#[test]
fn builder_form_is_applied_when_built() {
    let mut form = EncodedForm::builder();
    form.field("q", "a&b");
    let req = post("https://example.com").unwrap().form(Form::EncodedForm(form)).build(&[]).unwrap();
    assert_eq!(req.raw_body(), b"q=a%26b");
    assert_eq!(header(&req, "content-length").as_deref(), Some("7"));
}

#[test]
fn into_request_from_str() {
    let req = "https://example.com/x".into_request().unwrap();
    assert_eq!(*req.method(), Method::Get);
    assert_eq!(header(&req, "host").as_deref(), Some("example.com"));
    let req = String::from("http://example.com").into_request().unwrap();
    assert_eq!(req.url().as_str(), "http://example.com/");
}

#[test]
fn method_ext_builders() {
    let b: DeboaRequestBuilder = "post".from_url("https://example.com").unwrap();
    assert_eq!(*b.build(&[]).unwrap().method(), Method::Post);
    let b = Method::Patch.to_url("https://example.com").unwrap();
    assert_eq!(*b.build(&[]).unwrap().method(), Method::Patch);
}

#[test]
fn into_headers_from_pairs() {
    let m = vec![("X-A", "1"), ("x-a", "2"), ("X-B", "3")].into_headers().unwrap();
    assert_eq!(m.len(), 2);
    assert_eq!(m.get("x-a").unwrap(), "2");
    let req = get("https://example.com")
        .unwrap()
        .headers(vec![("accept".to_string(), "*/*".to_string())])
        .build(&[])
        .unwrap();
    assert_eq!(header(&req, "accept").as_deref(), Some("*/*"));
    assert_eq!(header(&req, "host").as_deref(), Some("example.com"));
}

#[test]
fn set_body_as_registers_and_sets() {
    struct Json;
    impl deboa::request::RequestBody for Json {
        fn register_content_type(&self, request: &mut DeboaRequest) {
            request.add_header("content-type", "application/json");
        }
    }
    let mut req = post("https://example.com").unwrap().build(&[]).unwrap();
    req.set_body_as(&Json, Ok(b"{}".to_vec())).unwrap();
    assert_eq!(header(&req, "content-type").as_deref(), Some("application/json"));
    assert_eq!(req.raw_body(), b"{}");
    let err = DeboaError::Header { message: "x".to_string() };
    assert!(req.set_body_as(&Json, Err(err.clone())).err() == Some(err));
}

#[test]
fn forms_convert_and_parsed_urls_make_requests() {
    let f: Form = EncodedForm::builder().into();
    assert!(matches!(f, Form::EncodedForm(_)));
    let f: Form = MultiPartForm::builder().into();
    assert!(matches!(f, Form::MultiPartForm(_)));
    let u = deboa::url::ParsedUrl::parse("https://example.com/z").unwrap();
    let req = u.into_request().unwrap();
    assert_eq!(*req.method(), Method::Get);
    assert_eq!(header(&req, "host").as_deref(), Some("example.com"));
    assert_eq!(header(&req, "content-length").as_deref(), Some("0"));
}

#[test]
fn header_values_may_be_non_ascii_text() {
    let mut req = get("https://example.com").unwrap().build(&[]).unwrap();
    req.add_header("x-name", "café");
    assert_eq!(req.headers().get("x-name").unwrap().as_bytes(), "café".as_bytes());
    let req = get("https://example.com").unwrap().bearer_auth("tök").build(&[]).unwrap();
    assert_eq!(req.headers().get("authorization").unwrap().as_bytes(), "Bearer tök".as_bytes());
}

#[test]
fn store_serialized_sets_body_and_length() {
    let mut req = post("https://example.com").unwrap().build(&[]).unwrap();
    let before = req.headers_len();
    req.store_serialized(Ok(b"abc".to_vec())).unwrap();
    assert_eq!(req.raw_body(), b"abc");
    assert_eq!(header(&req, "content-length").as_deref(), Some("3"));
    assert_eq!(req.headers_len(), before);
}

#[test]
fn store_serialized_error_leaves_request_alone() {
    let mut req = post("https://example.com").unwrap().build(&[]).unwrap();
    req.set_raw_body(b"xy");
    let err = DeboaError::Header { message: "bad".to_string() };
    assert!(req.store_serialized(Err(err.clone())).err() == Some(err));
    assert_eq!(req.raw_body(), b"xy");
    assert_eq!(header(&req, "content-length").as_deref(), Some("2"));
}

#[test]
fn headers_len_counts_names() {
    let mut req = get("https://example.com").unwrap().build(&[]).unwrap();
    let before = req.headers_len();
    req.add_header("x-one", "1");
    req.add_header("x-one", "2");
    assert_eq!(req.headers_len(), before + 1);
}

#[test]
fn from_str_checked_reads_ordinary_text() {
    let text = "GET https://example.com/a\nAccept: */*\n";
    let req = DeboaRequest::from_str_checked(text).unwrap().unwrap();
    assert_eq!(header(&req, "accept").as_deref(), Some("*/*"));
    assert_eq!(header(&req, "host").as_deref(), Some("example.com"));
    assert!(DeboaRequest::from_str_checked("").unwrap().is_err());
}
