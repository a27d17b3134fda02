use deboa::errors::{ConnectionError, DeboaError};
use deboa::tls::tls_plan;

fn tls_message(r: Result<deboa::tls::TlsPlan, DeboaError>, host: &str) -> String {
    match r {
        Err(DeboaError::Connection(ConnectionError::Tls { host: h, message })) => {
            assert_eq!(h, host);
            message
        }
        _ => panic!("expected a TLS error"),
    }
}

#[test]
fn skipping_verification_accepts_everything() {
    let plan = tls_plan(
        "example.com",
        Some((b"cert".to_vec(), None)),
        Some(b"nope".to_vec()),
        true,
        vec![b"h2".to_vec()],
    )
    .unwrap();
    assert!(plan.skip_verification);
    assert!(plan.ca.is_none());
    assert!(plan.client_auth.is_none());
    assert!(plan.alpn.is_empty());
    assert!(!plan.early_data);
    assert!(plan.tls13_only);
}

#[test]
fn plain_plan_offers_alpn_and_early_data() {
    let alpn = vec![b"h2".to_vec(), b"http/1.1".to_vec()];
    let plan = tls_plan("example.com", None, None, false, alpn.clone()).unwrap();
    assert!(!plan.skip_verification);
    assert!(plan.ca.is_none());
    assert!(plan.client_auth.is_none());
    assert_eq!(plan.alpn, alpn);
    assert!(plan.early_data);
    assert!(plan.tls13_only);
}

#[test]
fn refused_ca_is_a_tls_error() {
    let r = tls_plan("example.com", None, Some(b"nope".to_vec()), false, Vec::new());
    let m = tls_message(r, "example.com");
    assert!(m.starts_with("Could not add CA certificate to the store: "));
    assert!(m.len() > "Could not add CA certificate to the store: ".len());
}

#[test]
fn identity_without_key_is_a_tls_error() {
    let r = tls_plan("host.test", Some((b"cert".to_vec(), None)), None, false, Vec::new());
    assert_eq!(tls_message(r, "host.test"), "Invalid client identity: missing private key");
}

#[test]
fn refused_key_is_a_tls_error() {
    let r = tls_plan(
        "host.test",
        Some((b"cert".to_vec(), Some(b"not a key".to_vec()))),
        None,
        false,
        Vec::new(),
    );
    let m = tls_message(r, "host.test");
    assert!(m.starts_with("Invalid client identity: "));
    assert!(m != "Invalid client identity: missing private key");
}
