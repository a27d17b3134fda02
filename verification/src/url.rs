//! Parsed URLs. Parsing is done by the `url` crate; the library keeps the
//! parts of the result that it reads.
use vstd::prelude::*;

verus! {

/// The parts of a parsed URL that the client reads, as plain values.
#[derive(Debug)]
pub struct ParsedUrl {
    serialization: String,
    scheme: String,
    host: Option<String>,
    port: Option<u16>,
    authority: String,
}

/// The mathematical value of a `ParsedUrl`.
pub struct UrlView {
    /// The whole URL, normalized.
    pub serialization: Seq<char>,
    /// The scheme, lower-cased, without `:`.
    pub scheme: Seq<char>,
    /// The host, if any (IPv6 addresses in brackets).
    pub host: Option<Seq<char>>,
    /// The explicit port, if any (a scheme's default port is not kept).
    pub port: Option<u16>,
    /// The authority: user info, host and port as written after `//`.
    pub authority: Seq<char>,
}

impl View for ParsedUrl {
    type V = UrlView;

    closed spec fn view(&self) -> UrlView {
        UrlView {
            serialization: self.serialization@,
            scheme: self.scheme@,
            host: match self.host {
                Some(h) => Some(h@),
                None => None,
            },
            port: self.port,
            authority: self.authority@,
        }
    }
}

/// What `url::Url::parse` makes of `input`: the parts of the URL, or the
/// text of the parse error.
pub uninterp spec fn spec_url_parse(input: Seq<char>) -> std::result::Result<UrlView, Seq<char>>;

/// Printable ASCII without space: what authorities and hosts are made of.
pub open spec fn is_graphic_ascii(s: Seq<char>) -> bool {
    forall|i: int| 0 <= i < s.len() ==> ('!' <= #[trigger] s[i] && s[i] <= '~')
}

impl ParsedUrl {
    /// The authority and host are printable ASCII without spaces.
    #[verifier::type_invariant]
    pub open spec fn url_inv(self) -> bool {
        &&& is_graphic_ascii(self@.authority)
        &&& self@.host matches Some(h) ==> is_graphic_ascii(h)
    }
}

/// The view of a parse outcome.
pub open spec fn url_outcome(r: std::result::Result<ParsedUrl, String>) -> std::result::Result<UrlView, Seq<char>> {
    match r {
        Ok(u) => Ok(u@),
        Err(e) => Err(e@),
    }
}

/// `url::Url::parse`, kept as its serialization, scheme, host string, port
/// and authority; on failure, the error's text. The result is the named
/// `spec_url_parse` of the input. The authority and host of a parsed URL are
/// printable ASCII without spaces: the crate punycodes hosts and
/// percent-encodes user info, and rejects spaces and controls in hosts.
/// An empty input is not a URL (it has no scheme).
#[verifier::external_body]
fn url_parse(input: &str) -> (r: std::result::Result<ParsedUrl, String>)
    ensures
        url_outcome(r) == spec_url_parse(input@),
        input@.len() == 0 ==> r is Err,
        r matches Ok(u) ==> is_graphic_ascii(u@.authority) && (u@.host matches Some(h)
            ==> is_graphic_ascii(h)),
{
    match url::Url::parse(input) {
        Ok(u) => Ok(ParsedUrl {
            serialization: u.as_str().to_string(),
            scheme: u.scheme().to_string(),
            host: u.host_str().map(|h| h.to_string()),
            port: u.port(),
            authority: u.authority().to_string(),
        }),
        Err(e) => Err(e.to_string()),
    }
}

impl ParsedUrl {
    /// Parses `input` as a URL.
    pub fn parse(input: &str) -> (r: std::result::Result<ParsedUrl, String>)
        ensures
            url_outcome(r) == spec_url_parse(input@),
            input@.len() == 0 ==> r is Err,
            r matches Ok(u) ==> is_graphic_ascii(u@.authority) && (u@.host matches Some(h)
                ==> is_graphic_ascii(h)),
    {
        url_parse(input)
    }

    /// The whole URL.
    pub fn as_str(&self) -> (r: &str)
        ensures
            r@ == self@.serialization,
    {
        self.serialization.as_str()
    }

    /// The scheme.
    pub fn scheme(&self) -> (r: &str)
        ensures
            r@ == self@.scheme,
    {
        self.scheme.as_str()
    }

    /// The host, if any.
    pub fn host(&self) -> (r: Option<&str>)
        ensures
            match r {
                Some(h) => self@.host == Some(h@),
                None => self@.host is None,
            },
    {
        match &self.host {
            Some(h) => Some(h.as_str()),
            None => None,
        }
    }

    /// The explicit port, if any.
    pub fn port(&self) -> (r: Option<u16>)
        ensures
            r == self@.port,
    {
        self.port
    }

    /// The authority.
    pub fn authority(&self) -> (r: &str)
        ensures
            r@ == self@.authority,
    {
        self.authority.as_str()
    }
}

} // verus!
