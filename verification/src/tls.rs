//! The TLS policy of a connection: whether server certificates are checked,
//! which certificate authority is trusted besides the built-in roots, which
//! client identity is shown, and what is offered in the handshake. The
//! certificate and key bytes are checked with rustls; the handshake itself
//! is made elsewhere, from the plan this module gives.
use crate::errors::{ConnectionError, DeboaError};
use rustls::pki_types::{CertificateDer, PrivateKeyDer};
use vstd::prelude::*;

verus! {

/// Why rustls refuses `der` as a trust anchor (its error's text), or `None`
/// when `RootCertStore::add` accepts it.
pub uninterp spec fn spec_ca_error(der: Seq<u8>) -> Option<Seq<char>>;

/// Why rustls refuses `key` as a DER private key (PKCS #1, SEC1 or PKCS #8),
/// or `None` when `PrivateKeyDer::try_from` accepts it.
pub uninterp spec fn spec_key_error(key: Seq<u8>) -> Option<Seq<char>>;

/// The view of an optional text.
pub open spec fn opt_text(o: Option<String>) -> Option<Seq<char>> {
    match o {
        Some(s) => Some(s@),
        None => None,
    }
}

/// `RootCertStore::add` of `der` on a store: the text of its error, if it
/// refuses the certificate. The outcome depends on the bytes alone.
#[verifier::external_body]
fn ca_error(der: &[u8]) -> (r: Option<String>)
    ensures
        opt_text(r) == spec_ca_error(der@),
{
    let mut store = rustls::RootCertStore::empty();
    store.add(CertificateDer::from(der.to_vec())).err().map(|e| e.to_string())
}

/// `PrivateKeyDer::try_from` of `key`: the text of its error, if it refuses
/// the key.
#[verifier::external_body]
fn key_error(key: &[u8]) -> (r: Option<String>)
    ensures
        opt_text(r) == spec_key_error(key@),
{
    PrivateKeyDer::try_from(key.to_vec()).err().map(|e| e.to_string())
}

/// How a TLS connection is set up.
pub struct TlsPlan {
    /// Accept every server certificate.
    pub skip_verification: bool,
    /// A certificate authority (DER) trusted besides the built-in roots.
    pub ca: Option<Vec<u8>>,
    /// The client certificate and private key (DER) to show.
    pub client_auth: Option<(Vec<u8>, Vec<u8>)>,
    /// The protocols offered by ALPN.
    pub alpn: Vec<Vec<u8>>,
    /// Whether early data is enabled.
    pub early_data: bool,
    /// Whether only TLS 1.3 is spoken.
    pub tls13_only: bool,
}

/// Whether `e` is a TLS error for `host` with message `message`.
pub open spec fn is_tls_error(e: DeboaError, host: Seq<char>, message: Seq<char>) -> bool {
    e matches DeboaError::Connection(ConnectionError::Tls { host: h, message: m }) && h@ == host
        && m@ == message
}

/// The error a plan for checked certificates meets first, if any: the
/// certificate authority is refused, or the identity has no key or a key
/// that is refused.
pub open spec fn plan_error(
    identity: Option<(Vec<u8>, Option<Vec<u8>>)>,
    ca: Option<Vec<u8>>,
) -> Option<Seq<char>> {
    match ca {
        Some(c) if spec_ca_error(c@) is Some => Some(
            "Could not add CA certificate to the store: "@ + spec_ca_error(c@)->0,
        ),
        _ => match identity {
            Some((_, None)) => Some("Invalid client identity: missing private key"@),
            Some((_, Some(k))) if spec_key_error(k@) is Some => Some(
                "Invalid client identity: "@ + spec_key_error(k@)->0,
            ),
            _ => None,
        },
    }
}

/// The plan for a TLS connection to `host`. Skipping verification accepts
/// every server certificate and shows no client identity. Otherwise the
/// certificate authority, if any, is added to the built-in roots, the
/// identity, if any, is shown, the `alpn` protocols are offered and early
/// data is enabled; a certificate authority or a key that rustls refuses,
/// or an identity without a key, is a `Tls` error naming `host`. Only TLS
/// 1.3 is spoken.
pub fn tls_plan(
    host: &str,
    identity: Option<(Vec<u8>, Option<Vec<u8>>)>,
    ca: Option<Vec<u8>>,
    skip: bool,
    alpn: Vec<Vec<u8>>,
) -> (r: Result<TlsPlan, DeboaError>)
    ensures
        skip ==> (r matches Ok(p) && p.skip_verification && p.ca is None && p.client_auth is None
            && p.alpn@.len() == 0 && !p.early_data && p.tls13_only),
        !skip ==> match plan_error(identity, ca) {
            Some(m) => r matches Err(e) && is_tls_error(e, host@, m),
            None => r matches Ok(p) && !p.skip_verification && p.ca == ca && p.client_auth == match
                identity {
                Some((c, Some(k))) => Some((c, k)),
                _ => None::<(Vec<u8>, Vec<u8>)>,
            } && p.alpn == alpn && p.early_data && p.tls13_only,
        },
{
    if skip {
        return Ok(
            TlsPlan {
                skip_verification: true,
                ca: None,
                client_auth: None,
                alpn: Vec::new(),
                early_data: false,
                tls13_only: true,
            },
        );
    }
    match &ca {
        Some(c) => match ca_error(c.as_slice()) {
            Some(err) => {
                let mut m = "Could not add CA certificate to the store: ".to_owned();
                m.append(err.as_str());
                return Err(
                    DeboaError::Connection(ConnectionError::Tls { host: host.to_owned(), message: m }),
                );
            },
            None => {},
        },
        None => {},
    }
    let client_auth = match identity {
        Some((cert, Some(key))) => match key_error(key.as_slice()) {
            Some(err) => {
                let mut m = "Invalid client identity: ".to_owned();
                m.append(err.as_str());
                return Err(
                    DeboaError::Connection(ConnectionError::Tls { host: host.to_owned(), message: m }),
                );
            },
            None => Some((cert, key)),
        },
        Some((_, None)) => {
            return Err(
                DeboaError::Connection(
                    ConnectionError::Tls {
                        host: host.to_owned(),
                        message: "Invalid client identity: missing private key".to_owned(),
                    },
                ),
            );
        },
        None => None,
    };
    Ok(TlsPlan { skip_verification: false, ca, client_auth, alpn, early_data: true, tls13_only: true })
}

} // verus!
