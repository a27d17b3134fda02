use deboa::conn::{
    config_for_target, target_of, BindAddr, ConnectionConfig, ConnectionConfigBuilder, HttpVersion,
};
use deboa::errors::{DeboaError, RequestError};
use deboa::pool::ConnectionPool;
use deboa::url::ParsedUrl;

#[test]
fn default_ports_follow_the_scheme() {
    let t = target_of(&ParsedUrl::parse("https://example.com/a").unwrap()).unwrap();
    assert_eq!((t.scheme.as_str(), t.host.as_str(), t.port), ("https", "example.com", 443));
    let t = target_of(&ParsedUrl::parse("http://example.com/a").unwrap()).unwrap();
    assert_eq!(t.port, 80);
    let t = target_of(&ParsedUrl::parse("http://example.com:8080/a").unwrap()).unwrap();
    assert_eq!(t.port, 8080);
    let t = target_of(&ParsedUrl::parse("ftp://example.com/a").unwrap()).unwrap();
    assert_eq!(t.port, 80);
}

#[test]
fn url_without_host_is_a_send_error() {
    match target_of(&ParsedUrl::parse("data:text/plain,hi").unwrap()) {
        Err(DeboaError::Request(RequestError::Send { message })) => assert_eq!(message, "Missing host"),
        other => panic!("{:?}", other.map(|t| t.port)),
    }
}

#[test]
fn config_builder_defaults_and_setters() {
    let c: ConnectionConfig<(), ()> = ConnectionConfig::builder().build();
    assert!(!c.is_secure());
    assert_eq!(c.host(), "");
    assert_eq!(c.port(), 80);
    assert_eq!(c.protocol_version(), HttpVersion::Http1);
    assert!(c.identity().is_none());
    assert!(c.certificate().is_none());
    assert!(!c.skip_cert_verification());
    assert_eq!(c.client_bind_addr(), BindAddr::V4(0, 0, 0, 0));
    let c: ConnectionConfig<u8, u8> = ConnectionConfigBuilder::new()
        .is_secure(true)
        .host("h")
        .port(1)
        .protocol_version(HttpVersion::Http2)
        .identity(Some(1))
        .certificate(Some(2))
        .skip_cert_verification(true)
        .client_bind_addr(BindAddr::V4(127, 0, 0, 1))
        .build();
    assert!(c.is_secure());
    assert_eq!((c.host(), c.port(), c.protocol_version()), ("h", 1, HttpVersion::Http2));
    assert_eq!(c.identity(), &Some(1));
    assert!(c.skip_cert_verification());
}

#[test]
fn config_for_target_is_secure_for_https() {
    let t = target_of(&ParsedUrl::parse("https://example.com").unwrap()).unwrap();
    let c: ConnectionConfig<(), ()> = config_for_target(&t, ConnectionConfigBuilder::new());
    assert!(c.is_secure());
    assert_eq!((c.host(), c.port()), ("example.com", 443));
    let t = target_of(&ParsedUrl::parse("http://example.com").unwrap()).unwrap();
    let c: ConnectionConfig<(), ()> = config_for_target(&t, ConnectionConfigBuilder::new());
    assert!(!c.is_secure());
}

#[test]
fn pool_reuses_one_connection_per_host() {
    let mut pool: ConnectionPool<u32> = ConnectionPool::default_pool();
    assert_eq!(pool.connection_count(), 0);
    assert!(pool.get("a").is_none());
    pool.insert("a".to_string(), 1);
    pool.insert("b".to_string(), 2);
    assert_eq!(pool.connection_count(), 2);
    assert_eq!(pool.get("a"), Some(&1));
    pool.insert("a".to_string(), 3);
    assert_eq!(pool.connection_count(), 2);
    assert_eq!(pool.take("a"), Some(3));
    assert_eq!(pool.take("a"), None);
    assert!(pool.contains_key("b"));
    assert_eq!(pool.connection_count(), 1);
    pool.set_max_idle_connections(9);
    pool.set_keep_alive_duration(60);
}

#[test]
fn pool_keeps_the_first_connection_for_a_host() {
    let mut pool: ConnectionPool<u32> = ConnectionPool::new(5, 300);
    assert_eq!(pool.insert_if_absent("h".to_string(), 1), None);
    assert_eq!(pool.insert_if_absent("h".to_string(), 2), Some(2));
    assert_eq!(pool.get("h"), Some(&1));
    assert_eq!(pool.connection_count(), 1);
}
