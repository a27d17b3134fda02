use deboa::cookie::{CookieExpiration, CookieMap, DeboaCookie};
use deboa::errors::DeboaError;

#[test]
fn new_cookie_has_no_attributes() {
    let c = DeboaCookie::new("id", "42");
    assert_eq!(c.name(), "id");
    assert_eq!(c.value(), "42");
    assert_eq!(c.expires(), None);
    assert_eq!(c.path(), None);
    assert_eq!(c.domain(), None);
    assert_eq!(c.secure(), None);
    assert_eq!(c.http_only(), None);
    assert_eq!(c.to_string(), "id=42");
}

#[test]
fn setters_set_attributes() {
    let mut c = DeboaCookie::new("id", "42");
    c.set_path("/").set_domain("example.com").set_secure(true).set_http_only(false);
    c.set_expires(CookieExpiration::DateTime(1_700_000_000));
    assert_eq!(c.path().map(|s| s.as_str()), Some("/"));
    assert_eq!(c.domain().map(|s| s.as_str()), Some("example.com"));
    assert_eq!(c.secure(), Some(true));
    assert_eq!(c.http_only(), Some(false));
    assert_eq!(c.expires(), Some(CookieExpiration::DateTime(1_700_000_000)));
    c.set_expires(CookieExpiration::Session);
    assert_eq!(c.expires(), Some(CookieExpiration::Session));
}

#[test]
fn parse_from_header_reads_attributes() {
    let c = DeboaCookie::parse_from_header(
        " sid = abc ; Path=/app; Domain=.example.com; Secure; HttpOnly; Expires=Wed, 21 Oct 2015 07:28:00 GMT",
    )
    .unwrap();
    assert_eq!(c.name(), "sid");
    assert_eq!(c.value(), "abc");
    assert_eq!(c.path().map(|s| s.as_str()), Some("/app"));
    assert_eq!(c.domain().map(|s| s.as_str()), Some("example.com"));
    assert_eq!(c.secure(), Some(true));
    assert_eq!(c.http_only(), Some(true));
    assert_eq!(c.expires(), Some(CookieExpiration::DateTime(1445412480)));
}

#[test]
fn parse_from_header_without_attributes() {
    let c = DeboaCookie::parse_from_header("a=").unwrap();
    assert_eq!(c.name(), "a");
    assert_eq!(c.value(), "");
    assert_eq!(c.secure(), None);
    assert_eq!(c.http_only(), None);
}

#[test]
fn parse_from_header_rejects_invalid_values() {
    for bad in ["novalue", "=x", "  =x", "; a=b", ""] {
        match DeboaCookie::parse_from_header(bad) {
            Err(DeboaError::Cookie { message }) => assert_eq!(message, "Invalid cookie header"),
            other => panic!("{:?} gave {:?}", bad, other.map(|c| c.name().to_string())),
        }
    }
}

#[test]
fn written_cookie_parses_back() {
    let c = DeboaCookie::new("token", "a-b.c");
    let back = DeboaCookie::parse_from_header(&c.to_string()).unwrap();
    assert_eq!(back.name(), "token");
    assert_eq!(back.value(), "a-b.c");
}

#[test]
fn cookie_map_insert_get_remove() {
    let mut m = CookieMap::new();
    assert_eq!(m.len(), 0);
    m.insert("a".to_string(), DeboaCookie::new("a", "1"));
    m.insert("b".to_string(), DeboaCookie::new("b", "2"));
    m.insert("a".to_string(), DeboaCookie::new("a", "3"));
    assert_eq!(m.len(), 2);
    assert!(m.contains_key("a"));
    assert_eq!(m.get("a").unwrap().value(), "3");
    m.remove("a");
    assert!(!m.contains_key("a"));
    assert!(m.get("a").is_none());
    m.remove("zzz");
    assert_eq!(m.len(), 1);
    let entries = m.into_entries();
    assert_eq!(entries.len(), 1);
    assert_eq!(entries[0].0, "b");
}
