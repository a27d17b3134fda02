//! Connections: where a request goes (scheme, host, port), the settings a
//! connection is opened with, and the pool that keeps one connection per
//! host.
use crate::errors::{DeboaError, RequestError};
use crate::url::{ParsedUrl, UrlView};
use vstd::prelude::*;

verus! {

/// The HTTP protocol version of a connection.
#[derive(Debug, Clone, Copy, PartialEq, Eq, Structural)]
pub enum HttpVersion {
    Http1,
    Http2,
    Http3,
}

/// A local address to bind connections to.
#[derive(Debug, Clone, Copy, PartialEq, Eq, Structural)]
pub enum BindAddr {
    /// An IPv4 address.
    V4(u8, u8, u8, u8),
    /// An IPv6 address, as eight 16-bit groups.
    V6(u16, u16, u16, u16, u16, u16, u16, u16),
}

/// `http`.
pub open spec fn http_scheme() -> Seq<char> {
    seq!['h', 't', 't', 'p']
}

/// `https`.
pub open spec fn https_scheme() -> Seq<char> {
    seq!['h', 't', 't', 'p', 's']
}

/// The port used when a URL gives none: 443 for `https`, 80 otherwise.
pub open spec fn default_port(scheme: Seq<char>) -> u16 {
    if scheme == https_scheme() {
        443
    } else {
        80
    }
}

/// Where a request is sent.
pub struct Target {
    pub scheme: String,
    pub host: String,
    pub port: u16,
}

/// Whether `e` is a send error with message `message`.
pub open spec fn is_send_error(e: DeboaError, message: Seq<char>) -> bool {
    e matches DeboaError::Request(RequestError::Send { message: m }) && m@ == message
}

/// Whether `t` is where a request for `u` goes: the URL's scheme and host,
/// and its port or else the scheme's default port.
pub open spec fn targets(u: UrlView, t: Target) -> bool {
    &&& u.host matches Some(h)
    &&& t.scheme@ == u.scheme
    &&& t.host@ == h
    &&& t.port == match u.port {
        Some(p) => p,
        None => default_port(u.scheme),
    }
}

/// Whether two character slices are equal.
fn same_chars(a: &str, w: &[char]) -> (r: bool)
    ensures
        r == (a@ == w@),
{
    let s = crate::text::chars_of(a);
    if s.len() != w.len() {
        return false;
    }
    let mut i: usize = 0;
    while i < s.len()
        invariant
            s@ == a@,
            s@.len() == w@.len(),
            i <= s@.len(),
            forall|k: int| 0 <= k < i ==> s@[k] == w@[k],
        decreases s@.len() - i,
    {
        if s[i] != w[i] {
            return false;
        }
        i = i + 1;
    }
    assert(s@ =~= w@);
    true
}

/// Where a request for `url` is sent. A URL without a host is a `Send`
/// error `Missing host`.
pub fn target_of(url: &ParsedUrl) -> (r: Result<Target, DeboaError>)
    ensures
        match r {
            Ok(t) => targets(url@, t),
            Err(e) => url@.host is None && is_send_error(e, "Missing host"@),
        },
{
    let host = match url.host() {
        Some(h) => h.to_owned(),
        None => {
            return Err(DeboaError::Request(RequestError::Send { message: "Missing host".to_owned() }));
        },
    };
    let https: Vec<char> = vec!['h', 't', 't', 'p', 's'];
    assert(https@ =~= https_scheme());
    let port = match url.port() {
        Some(p) => p,
        None => if same_chars(url.scheme(), https.as_slice()) {
            443
        } else {
            80
        },
    };
    Ok(Target { scheme: url.scheme().to_owned(), host, port })
}

/// The settings a connection is opened with.
pub struct ConnectionConfig<I, C> {
    is_secure: bool,
    host: String,
    port: u16,
    protocol_version: HttpVersion,
    identity: Option<I>,
    certificate: Option<C>,
    skip_cert_verification: bool,
    client_bind_addr: BindAddr,
}

/// The settings of a connection, as values.
pub struct ConfigView<I, C> {
    pub is_secure: bool,
    pub host: Seq<char>,
    pub port: u16,
    pub protocol_version: HttpVersion,
    pub identity: Option<I>,
    pub certificate: Option<C>,
    pub skip_cert_verification: bool,
    pub client_bind_addr: BindAddr,
}

/// The default settings: plain, no host, port 80, HTTP/1, no identity or
/// certificate, verified certificates, bound to `0.0.0.0`.
pub open spec fn default_config<I, C>() -> ConfigView<I, C> {
    ConfigView {
        is_secure: false,
        host: Seq::empty(),
        port: 80,
        protocol_version: HttpVersion::Http1,
        identity: None,
        certificate: None,
        skip_cert_verification: false,
        client_bind_addr: BindAddr::V4(0, 0, 0, 0),
    }
}

impl<I, C> View for ConnectionConfig<I, C> {
    type V = ConfigView<I, C>;

    closed spec fn view(&self) -> ConfigView<I, C> {
        ConfigView {
            is_secure: self.is_secure,
            host: self.host@,
            port: self.port,
            protocol_version: self.protocol_version,
            identity: self.identity,
            certificate: self.certificate,
            skip_cert_verification: self.skip_cert_verification,
            client_bind_addr: self.client_bind_addr,
        }
    }
}

/// Builds a `ConnectionConfig`.
pub struct ConnectionConfigBuilder<I, C> {
    config: ConnectionConfig<I, C>,
}

impl<I, C> View for ConnectionConfigBuilder<I, C> {
    type V = ConfigView<I, C>;

    closed spec fn view(&self) -> ConfigView<I, C> {
        self.config@
    }
}

impl<I, C> ConnectionConfigBuilder<I, C> {
    /// The default settings.
    pub fn new() -> (r: Self)
        ensures
            r@ == default_config::<I, C>(),
    {
        let r = ConnectionConfigBuilder {
            config: ConnectionConfig {
                is_secure: false,
                host: String::new(),
                port: 80,
                protocol_version: HttpVersion::Http1,
                identity: None,
                certificate: None,
                skip_cert_verification: false,
                client_bind_addr: BindAddr::V4(0, 0, 0, 0),
            },
        };
        assert(r@.host =~= Seq::<char>::empty());
        r
    }

    /// Sets whether the connection uses TLS.
    pub fn is_secure(self, is_secure: bool) -> (r: Self)
        ensures
            r@ == (ConfigView { is_secure, ..self@ }),
    {
        let mut b = self;
        b.config.is_secure = is_secure;
        b
    }

    /// Sets the host.
    pub fn host(self, host: &str) -> (r: Self)
        ensures
            r@ == (ConfigView { host: host@, ..self@ }),
    {
        let mut b = self;
        b.config.host = host.to_owned();
        b
    }

    /// Sets the port.
    pub fn port(self, port: u16) -> (r: Self)
        ensures
            r@ == (ConfigView { port, ..self@ }),
    {
        let mut b = self;
        b.config.port = port;
        b
    }

    /// Sets the protocol version.
    pub fn protocol_version(self, protocol_version: HttpVersion) -> (r: Self)
        ensures
            r@ == (ConfigView { protocol_version, ..self@ }),
    {
        let mut b = self;
        b.config.protocol_version = protocol_version;
        b
    }

    /// Sets the client identity.
    pub fn identity(self, identity: Option<I>) -> (r: Self)
        ensures
            r@ == (ConfigView { identity, ..self@ }),
    {
        let mut b = self;
        b.config.identity = identity;
        b
    }

    /// Sets the certificate authority.
    pub fn certificate(self, certificate: Option<C>) -> (r: Self)
        ensures
            r@ == (ConfigView { certificate, ..self@ }),
    {
        let mut b = self;
        b.config.certificate = certificate;
        b
    }

    /// Sets whether server certificates go unchecked.
    pub fn skip_cert_verification(self, skip_cert_verification: bool) -> (r: Self)
        ensures
            r@ == (ConfigView { skip_cert_verification, ..self@ }),
    {
        let mut b = self;
        b.config.skip_cert_verification = skip_cert_verification;
        b
    }

    /// Sets the local address.
    pub fn client_bind_addr(self, client_bind_addr: BindAddr) -> (r: Self)
        ensures
            r@ == (ConfigView { client_bind_addr, ..self@ }),
    {
        let mut b = self;
        b.config.client_bind_addr = client_bind_addr;
        b
    }

    /// The settings.
    pub fn build(self) -> (r: ConnectionConfig<I, C>)
        ensures
            r@ == self@,
    {
        self.config
    }
}

impl<I, C> ConnectionConfig<I, C> {
    /// A builder with the default settings.
    pub fn builder() -> (r: ConnectionConfigBuilder<I, C>)
        ensures
            r@ == default_config::<I, C>(),
    {
        ConnectionConfigBuilder::new()
    }

    /// Whether the connection uses TLS.
    pub fn is_secure(&self) -> (r: bool)
        ensures
            r == self@.is_secure,
    {
        self.is_secure
    }

    /// The host.
    pub fn host(&self) -> (r: &str)
        ensures
            r@ == self@.host,
    {
        self.host.as_str()
    }

    /// The port.
    pub fn port(&self) -> (r: u16)
        ensures
            r == self@.port,
    {
        self.port
    }

    /// The protocol version.
    pub fn protocol_version(&self) -> (r: HttpVersion)
        ensures
            r == self@.protocol_version,
    {
        self.protocol_version
    }

    /// The client identity, if any.
    pub fn identity(&self) -> (r: &Option<I>)
        ensures
            *r == self@.identity,
    {
        &self.identity
    }

    /// The certificate authority, if any.
    pub fn certificate(&self) -> (r: &Option<C>)
        ensures
            *r == self@.certificate,
    {
        &self.certificate
    }

    /// Whether server certificates go unchecked.
    pub fn skip_cert_verification(&self) -> (r: bool)
        ensures
            r == self@.skip_cert_verification,
    {
        self.skip_cert_verification
    }

    /// The local address.
    pub fn client_bind_addr(&self) -> (r: BindAddr)
        ensures
            r == self@.client_bind_addr,
    {
        self.client_bind_addr
    }
}

/// The settings for a connection to `target`: TLS for `https`.
pub open spec fn config_for<I, C>(t: Seq<char>, host: Seq<char>, port: u16, base: ConfigView<I, C>) -> ConfigView<I, C> {
    ConfigView { is_secure: t == https_scheme(), host, port, ..base }
}

/// The settings for a connection to `target`, on top of `builder`.
pub fn config_for_target<I, C>(target: &Target, builder: ConnectionConfigBuilder<I, C>) -> (r:
    ConnectionConfig<I, C>)
    ensures
        r@ == config_for(target.scheme@, target.host@, target.port, builder@),
{
    let https: Vec<char> = vec!['h', 't', 't', 'p', 's'];
    assert(https@ =~= https_scheme());
    let secure = same_chars(target.scheme.as_str(), https.as_slice());
    builder.is_secure(secure).host(target.host.as_str()).port(target.port).build()
}


/// Opens connections of the kind a protocol version needs.
pub struct ConnectionFactory {}

/// Marks the HTTP connection types.
pub trait DeboaHttpConnectionSealed {}

/// Marks the connection pool types.
pub trait DeboaHttpConnectionPoolSealed {}

/// Marks the TCP connection types.
pub trait DeboaTcpConnectionSealed {}

/// Marks the UDP connection types.
pub trait DeboaUdpConnectionSealed {}

impl<C> DeboaHttpConnectionPoolSealed for crate::pool::ConnectionPool<C> {}

} // verus!
