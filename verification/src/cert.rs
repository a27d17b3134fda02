//! Client identities and certificate authorities, as the TLS setup reads
//! them. The types that hold them are the users' own; these traits say what
//! the setup needs of them.
use vstd::prelude::*;

verus! {

/// How certificate and key bytes are encoded.
#[derive(Debug, Clone, Copy, PartialEq, Eq, Structural)]
pub enum ContentEncoding {
    PEM,
    DER,
}

/// An identity read from a PKCS #12 bundle.
pub trait IdentityNativeExt: Sized {
    /// The identity in `bundle`, protected by `password`.
    fn from_pkcs12(bundle: &[u8], password: Option<String>) -> Self;
}

/// An identity made of a certificate and a PKCS #8 key.
pub trait IdentityExt: Sized {
    /// The identity made of `cert` and `key`.
    fn from_pkcs8(cert: &[u8], key: &[u8], encoding: ContentEncoding) -> Self;
}

/// A client identity: a certificate and, optionally, its key.
pub trait Identity {
    /// The certificate.
    fn cert(&self) -> &Vec<u8>;

    /// The private key, if any.
    fn key(&self) -> &Option<Vec<u8>>;

    /// How the certificate and key are encoded, if known.
    fn encoding(&self) -> &Option<ContentEncoding>;
}

/// A certificate read from bytes.
pub trait CertificateExt: Sized {
    /// The certificate in `data`.
    fn from_slice(data: &[u8], encoding: ContentEncoding) -> Self;
}

/// A certificate authority to trust.
pub trait Certificate {
    /// The certificate.
    fn as_bytes(&self) -> &Vec<u8>;
}

} // verus!
