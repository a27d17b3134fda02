//! HTTP requests: `DeboaRequest`, its builder, and the header, cookie and
//! body rules they follow.
use crate::cookie::{CookieMap, CookieView, DeboaCookie};
use crate::errors::{DeboaError, RequestError};
use crate::form::{files_fit, files_view, form_body, form_content_type, printable, FilePart, Form, FormView};
use crate::header::{
    header_entries, header_map_contains, header_map_names_len, header_map_insert, header_map_new, header_map_remove,
    is_header_name, is_header_value, is_header_value_exec, is_header_name_exec, is_visible_value,
    lower_bytes,
    MAX_HEADER_NAMES,
};
use crate::method::Method;
use crate::method::spec_method_from_token;
use crate::request_text::{
    find_request_line_exec, lemma_fold_grows, lemma_fold_step, lemma_line_match, line_word,
    line_words, text_fold, text_read, TextError, TextState,
};
use crate::text::{
    char_rows, chars_of, decimal, find_char_from, slice_chars, spec_decimal, spec_lines,
    spec_trim, split_lines, string_of, trim_bounds,
};
use crate::url::{is_graphic_ascii, spec_url_parse, ParsedUrl, UrlView};
use http::HeaderMap;
use vstd::utf8::encode_utf8;
use vstd::prelude::*;

verus! {

/// The name `host`.
pub open spec fn host_name() -> Seq<u8> {
    seq![104u8, 111, 115, 116]
}

/// The name `content-length`.
pub open spec fn content_length_name() -> Seq<u8> {
    seq![99u8, 111, 110, 116, 101, 110, 116, 45, 108, 101, 110, 103, 116, 104]
}

/// The name `content-type`.
pub open spec fn content_type_name() -> Seq<u8> {
    seq![99u8, 111, 110, 116, 101, 110, 116, 45, 116, 121, 112, 101]
}

/// The name `authorization`.
pub open spec fn authorization_name() -> Seq<u8> {
    seq![97u8, 117, 116, 104, 111, 114, 105, 122, 97, 116, 105, 111, 110]
}

/// Whether one more name fits in a header table.
pub open spec fn room(h: Map<Seq<u8>, Seq<Seq<u8>>>) -> bool {
    h.dom().finite() && h.dom().len() < MAX_HEADER_NAMES
}

/// A header table with `name` set to the single value `value`.
pub open spec fn with_header(h: Map<Seq<u8>, Seq<Seq<u8>>>, name: Seq<u8>, value: Seq<u8>) -> Map<
    Seq<u8>,
    Seq<Seq<u8>>,
> {
    h.insert(name, seq![value])
}

/// The bytes of the decimal representation of `n`.
pub open spec fn decimal_bytes(n: nat) -> Seq<u8> {
    encode_utf8(spec_decimal(n))
}

/// The view of optional cookies.
pub open spec fn cookies_view(c: Option<CookieMap>) -> Option<Map<Seq<char>, CookieView>> {
    match c {
        Some(m) => Some(m@),
        None => None,
    }
}

/// The request with `c` stored under its name, replacing a cookie of that
/// name.
pub open spec fn with_cookie(q: RequestView, c: CookieView) -> RequestView {
    RequestView {
        cookies: Some(
            match q.cookies {
                Some(m) => m,
                None => Map::empty(),
            }.insert(c.name, c),
        ),
        ..q
    }
}

/// The request without a cookie named `name`.
pub open spec fn without_cookie(q: RequestView, name: Seq<char>) -> RequestView {
    RequestView {
        cookies: match q.cookies {
            Some(m) => Some(m.remove(name)),
            None => None,
        },
        ..q
    }
}

/// Whether the request holds a cookie named `name`.
pub open spec fn has_cookie_named(q: RequestView, name: Seq<char>) -> bool {
    match q.cookies {
        Some(m) => m.dom().contains(name),
        None => false,
    }
}

/// A request ready to be sent.
#[derive(Debug)]
pub struct DeboaRequest {
    url: ParsedUrl,
    headers: HeaderMap,
    cookies: Option<CookieMap>,
    retries: u32,
    method: Method,
    body: Vec<u8>,
}

/// The mathematical value of a request.
pub struct RequestView {
    pub url: UrlView,
    pub headers: Map<Seq<u8>, Seq<Seq<u8>>>,
    pub cookies: Option<Map<Seq<char>, CookieView>>,
    pub retries: u32,
    pub method: Method,
    pub body: Seq<u8>,
}

impl View for DeboaRequest {
    type V = RequestView;

    closed spec fn view(&self) -> RequestView {
        RequestView {
            url: self.url@,
            headers: header_entries(self.headers),
            cookies: cookies_view(self.cookies),
            retries: self.retries,
            method: self.method,
            body: self.body@,
        }
    }
}

/// `host`, as bytes.
pub fn host_bytes() -> (r: Vec<u8>)
    ensures
        r@ == host_name(),
        is_header_name(r@),
        lower_bytes(r@) == r@,
{
    let r: Vec<u8> = vec![104u8, 111, 115, 116];
    assert(r@ =~= host_name());
    assert(lower_bytes(r@) =~= r@);
    r
}

/// `content-length`, as bytes.
pub fn content_length_bytes() -> (r: Vec<u8>)
    ensures
        r@ == content_length_name(),
        is_header_name(r@),
        lower_bytes(r@) == r@,
{
    let r: Vec<u8> = vec![99u8, 111, 110, 116, 101, 110, 116, 45, 108, 101, 110, 103, 116, 104];
    assert(r@ =~= content_length_name());
    assert(lower_bytes(r@) =~= r@);
    r
}

/// `content-type`, as bytes.
pub fn content_type_bytes() -> (r: Vec<u8>)
    ensures
        r@ == content_type_name(),
        is_header_name(r@),
        lower_bytes(r@) == r@,
{
    let r: Vec<u8> = vec![99u8, 111, 110, 116, 101, 110, 116, 45, 116, 121, 112, 101];
    assert(r@ =~= content_type_name());
    assert(lower_bytes(r@) =~= r@);
    r
}

/// `authorization`, as bytes.
pub fn authorization_bytes() -> (r: Vec<u8>)
    ensures
        r@ == authorization_name(),
        is_header_name(r@),
        lower_bytes(r@) == r@,
{
    let r: Vec<u8> = vec![97u8, 117, 116, 104, 111, 114, 105, 122, 97, 116, 105, 111, 110];
    assert(r@ =~= authorization_name());
    assert(lower_bytes(r@) =~= r@);
    r
}

/// The UTF-8 bytes of a character sequence.
pub fn utf8_of(v: &[char]) -> (r: Vec<u8>)
    ensures
        r@ == encode_utf8(v@),
{
    let s = crate::text::string_of(v);
    vstd::slice::slice_to_vec(s.as_str().as_bytes())
}

/// The decimal digits of a number are visible ASCII.
pub proof fn lemma_decimal_visible(n: nat)
    ensures
        is_visible_value(decimal_bytes(n)),
        is_printable_text(spec_decimal(n)),
{
    crate::text::lemma_decimal_digits(n);
    lemma_ascii_visible(spec_decimal(n));
}

/// Every character is printable ASCII or tab.
pub open spec fn is_printable_text(s: Seq<char>) -> bool {
    forall|i: int| 0 <= i < s.len() ==> (' ' <= #[trigger] s[i] && s[i] <= '~') || s[i] == '\t'
}

/// Printable ASCII text encodes to visible header bytes.
pub proof fn lemma_ascii_visible(s: Seq<char>)
    requires
        is_printable_text(s) || forall|i: int| 0 <= i < s.len() ==> crate::text::is_digit(
            #[trigger] s[i],
        ),
    ensures
        is_visible_value(encode_utf8(s)),
        is_printable_text(s),
{
    assert(is_printable_text(s));
    assert(vstd::utf8::is_ascii_chars(s));
    vstd::utf8::is_ascii_chars_encode_utf8(s);
}

/// Printable ASCII without spaces encodes to visible header bytes.
pub proof fn lemma_graphic_visible(s: Seq<char>)
    requires
        is_graphic_ascii(s),
    ensures
        is_visible_value(encode_utf8(s)),
{
    lemma_ascii_visible(s);
}

impl DeboaRequest {
    /// Sets the method.
    pub fn set_method(&mut self, method: Method) -> (r: &mut Self)
        ensures
            r@ == (RequestView { method, ..old(self)@ }),
            *final(self) == *final(r),
    {
        self.method = method;
        self
    }

    /// The method.
    pub fn method(&self) -> (r: &Method)
        ensures
            *r == self@.method,
    {
        &self.method
    }

    /// The URL.
    pub fn url(&self) -> (r: &ParsedUrl)
        ensures
            r@ == self@.url,
    {
        &self.url
    }

    /// How many times sending is retried.
    pub fn retries(&self) -> (r: u32)
        ensures
            r == self@.retries,
    {
        self.retries
    }

    /// The headers.
    pub fn headers(&self) -> (r: &HeaderMap)
        ensures
            header_entries(*r) == self@.headers,
    {
        &self.headers
    }

    /// The headers, for changing them in place.
    pub fn headers_mut(&mut self) -> (r: &mut HeaderMap)
        ensures
            header_entries(*r) == old(self)@.headers,
            final(self)@ == (RequestView { headers: header_entries(*final(r)), ..old(self)@ }),
    {
        &mut self.headers
    }

    /// Whether a header named `key` is set.
    pub fn has_header(&self, key: &str) -> (r: bool)
        requires
            is_header_name(encode_utf8(key@)),
        ensures
            r == self@.headers.dom().contains(lower_bytes(encode_utf8(key@))),
    {
        header_map_contains(&self.headers, key.as_bytes())
    }

    /// Sets the header `key` to the single value `value`.
    pub fn add_header(&mut self, key: &str, value: &str) -> (r: &mut Self)
        requires
            is_header_name(encode_utf8(key@)),
            is_header_value(encode_utf8(value@)),
            room(old(self)@.headers),
        ensures
            r@ == (RequestView {
                headers: with_header(
                    old(self)@.headers,
                    lower_bytes(encode_utf8(key@)),
                    encode_utf8(value@),
                ),
                ..old(self)@
            }),
            *final(self) == *final(r),
    {
        self.insert_header(key.as_bytes(), value.as_bytes());
        self
    }

    fn insert_header(&mut self, key: &[u8], value: &[u8])
        requires
            is_header_name(key@),
            is_header_value(value@),
            room(old(self)@.headers),
        ensures
            final(self)@ == (RequestView {
                headers: with_header(old(self)@.headers, lower_bytes(key@), value@),
                ..old(self)@
            }),
    {
        header_map_insert(&mut self.headers, key, value);
    }

    /// Sets `Authorization` to `Bearer` and the token.
    pub fn add_bearer_auth(&mut self, token: &str) -> (r: &mut Self)
        requires
            is_header_value(encode_utf8(token@)),
            room(old(self)@.headers),
        ensures
            r@ == (RequestView {
                headers: with_header(
                    old(self)@.headers,
                    authorization_name(),
                    bearer_value(encode_utf8(token@)),
                ),
                ..old(self)@
            }),
            *final(self) == *final(r),
    {
        let mut v: Vec<u8> = vec![66u8, 101, 97, 114, 101, 114, 32];
        let mut t = vstd::slice::slice_to_vec(token.as_bytes());
        v.append(&mut t);
        proof {
            assert(v@ =~= bearer_value(encode_utf8(token@)));
        }
        let name = authorization_bytes();
        self.insert_header(name.as_slice(), v.as_slice());
        self
    }

    /// Sets `Authorization` to `Basic` and the Base64 of `username:password`.
    pub fn add_basic_auth(&mut self, username: &str, password: &str) -> (r: &mut Self)
        requires
            room(old(self)@.headers),
        ensures
            r@ == (RequestView {
                headers: with_header(
                    old(self)@.headers,
                    authorization_name(),
                    basic_value(encode_utf8(username@), encode_utf8(password@)),
                ),
                ..old(self)@
            }),
            *final(self) == *final(r),
    {
        let v = basic_auth_value(username, password);
        let name = authorization_bytes();
        self.insert_header(name.as_slice(), v.as_slice());
        self
    }

    /// Stores `cookie` under its name, replacing a cookie of that name.
    pub fn add_cookie(&mut self, cookie: DeboaCookie) -> (r: &mut Self)
        ensures
            r@ == with_cookie(old(self)@, cookie@),
            *final(self) == *final(r),
    {
        let key = cookie.name().to_owned();
        let mut cookies = match self.cookies.take() {
            Some(m) => m,
            None => CookieMap::new(),
        };
        cookies.insert(key, cookie);
        self.cookies = Some(cookies);
        self
    }

    /// Removes the cookie named `name`, if any.
    pub fn remove_cookie(&mut self, name: &str) -> (r: &mut Self)
        ensures
            r@ == without_cookie(old(self)@, name@),
            *final(self) == *final(r),
    {
        match self.cookies.take() {
            Some(mut m) => {
                m.remove(name);
                self.cookies = Some(m);
            },
            None => {},
        }
        self
    }

    /// Whether a cookie named `name` is stored.
    pub fn has_cookie(&self, name: &str) -> (r: bool)
        ensures
            r == has_cookie_named(self@, name@),
    {
        match &self.cookies {
            Some(m) => m.contains_key(name),
            None => false,
        }
    }

    /// Replaces all cookies.
    pub fn set_cookies(&mut self, cookies: CookieMap) -> (r: &mut Self)
        ensures
            r@ == (RequestView { cookies: Some(cookies@), ..old(self)@ }),
            *final(self) == *final(r),
    {
        self.cookies = Some(cookies);
        self
    }

    /// The cookies, if any were set.
    pub fn cookies(&self) -> (r: Option<&CookieMap>)
        ensures
            match r {
                Some(m) => self@.cookies == Some(m@),
                None => self@.cookies is None,
            },
    {
        match &self.cookies {
            Some(m) => Some(m),
            None => None,
        }
    }

    /// Sets the body and `Content-Length` to its length.
    pub fn set_raw_body(&mut self, body: &[u8]) -> (r: &mut Self)
        requires
            room(old(self)@.headers),
        ensures
            r@ == (RequestView {
                headers: with_header(
                    old(self)@.headers,
                    content_length_name(),
                    decimal_bytes(body@.len()),
                ),
                body: body@,
                ..old(self)@
            }),
            *final(self) == *final(r),
    {
        self.store_body(vstd::slice::slice_to_vec(body));
        self
    }

    fn store_body(&mut self, body: Vec<u8>)
        requires
            room(old(self)@.headers),
        ensures
            final(self)@ == (RequestView {
                headers: with_header(
                    old(self)@.headers,
                    content_length_name(),
                    decimal_bytes(body@.len()),
                ),
                body: body@,
                ..old(self)@
            }),
    {
        let digits = decimal(body.len());
        let len_value = utf8_of(digits.as_slice());
        proof {
            lemma_decimal_visible(body@.len());
        }
        let name = content_length_bytes();
        self.insert_header(name.as_slice(), len_value.as_slice());
        self.body = body;
    }

    /// Sets the body to the UTF-8 bytes of `text`.
    pub fn set_text(&mut self, text: String) -> (r: &mut Self)
        requires
            room(old(self)@.headers),
        ensures
            r@ == (RequestView {
                headers: with_header(
                    old(self)@.headers,
                    content_length_name(),
                    decimal_bytes(encode_utf8(text@).len()),
                ),
                body: encode_utf8(text@),
                ..old(self)@
            }),
            *final(self) == *final(r),
    {
        self.store_body(vstd::slice::slice_to_vec(text.as_str().as_bytes()));
        self
    }

    /// The body.
    pub fn raw_body(&self) -> (r: &[u8])
        ensures
            r@ == self@.body,
    {
        self.body.as_slice()
    }
}

/// `Bearer ` followed by the token.
pub open spec fn bearer_value(token: Seq<u8>) -> Seq<u8> {
    seq![66u8, 101, 97, 114, 101, 114, 32] + token
}

/// `Basic ` followed by the Base64 of `username:password`.
pub open spec fn basic_value(username: Seq<u8>, password: Seq<u8>) -> Seq<u8> {
    seq![66u8, 97, 115, 105, 99, 32] + encode_utf8(
        crate::encoding::spec_base64((username + seq![58u8]) + password),
    )
}

/// The value of a `Basic` authorization header.
fn basic_auth_value(username: &str, password: &str) -> (r: Vec<u8>)
    ensures
        r@ == basic_value(encode_utf8(username@), encode_utf8(password@)),
        is_visible_value(r@),
{
    let mut creds = vstd::slice::slice_to_vec(username.as_bytes());
    creds.push(58u8);
    let mut p = vstd::slice::slice_to_vec(password.as_bytes());
    creds.append(&mut p);
    assert(creds@ =~= (encode_utf8(username@) + seq![58u8]) + encode_utf8(password@));
    let encoded = crate::encoding::base64_encode(creds.as_slice());
    let mut v: Vec<u8> = vec![66u8, 97, 115, 105, 99, 32];
    let mut e = vstd::slice::slice_to_vec(encoded.as_str().as_bytes());
    proof {
        crate::encoding::lemma_base64_ascii(creds@);
        lemma_ascii_visible(encoded@);
    }
    assert(e@ == encode_utf8(encoded@));
    v.append(&mut e);
    proof {
        assert(v@ =~= basic_value(encode_utf8(username@), encode_utf8(password@)));
        assert forall|i: int| 0 <= i < v@.len() implies ((32 <= #[trigger] v@[i] && v@[i] < 127)
            || v@[i] == 9) by {
            if i >= 6 {
                assert(v@[i] == encode_utf8(encoded@)[i - 6]);
            }
        }
    }
    v
}


/// Whether `n` more names fit in a header table.
pub open spec fn room_for(h: Map<Seq<u8>, Seq<Seq<u8>>>, n: nat) -> bool {
    h.dom().finite() && h.dom().len() + n <= MAX_HEADER_NAMES
}

/// Setting a header uses at most one of the free places.
pub proof fn lemma_room_after(h: Map<Seq<u8>, Seq<Seq<u8>>>, n: nat, k: Seq<u8>, v: Seq<u8>)
    requires
        room_for(h, n + 1),
    ensures
        room_for(with_header(h, k, v), n),
        room(h),
{
    assert(with_header(h, k, v).dom() =~= h.dom().insert(k));
}

/// The error for a URL that does not parse, with the parser's message.
pub open spec fn is_url_error(e: DeboaError, message: Seq<char>) -> bool {
    e matches DeboaError::Request(RequestError::UrlParse { message: m }) && m@ == message
}

/// The request after its URL is set to `u`: a `Host` header that was
/// present is replaced by the new authority; one that was absent stays
/// absent.
pub open spec fn with_url(q: RequestView, u: UrlView) -> RequestView {
    RequestView {
        url: u,
        headers: if q.headers.dom().contains(host_name()) {
            with_header(q.headers, host_name(), encode_utf8(u.authority))
        } else {
            q.headers
        },
        ..q
    }
}

impl DeboaRequest {
    /// Sets the URL to an already parsed one; a `Host` header that is present
    /// follows the new authority.
    pub fn set_parsed_url(&mut self, url: ParsedUrl) -> (r: &mut Self)
        requires
            old(self)@.headers.dom().contains(host_name()) ==> room(old(self)@.headers),
        ensures
            r@ == with_url(old(self)@, url@),
            *final(self) == *final(r),
    {
        proof {
            use_type_invariant(&url);
        }
        let host = host_bytes();
        if header_map_contains(&self.headers, host.as_slice()) {
            header_map_remove(&mut self.headers, host.as_slice());
            let ghost h0 = header_entries(old(self).headers);
            proof {
                assert(h0.remove(host_name()).dom() =~= h0.dom().remove(host_name()));
                lemma_graphic_visible(url@.authority);
            }
            let authority = vstd::slice::slice_to_vec(url.authority().as_bytes());
            self.insert_header(host.as_slice(), authority.as_slice());
            proof {
                assert(with_header(h0.remove(host_name()), host_name(), encode_utf8(url@.authority))
                    =~= with_header(h0, host_name(), encode_utf8(url@.authority)));
            }
        }
        self.url = url;
        self
    }

    /// Parses `url` and sets it, as `set_parsed_url` does; a URL that does
    /// not parse is a `UrlParse` error and leaves the request unchanged.
    pub fn set_url(&mut self, url: &str) -> (r: Result<&mut Self, DeboaError>)
        requires
            old(self)@.headers.dom().contains(host_name()) ==> room(old(self)@.headers),
        ensures
            match r {
                Ok(q) => spec_url_parse(url@) matches Ok(u) && q@ == with_url(old(self)@, u)
                    && *final(self) == *final(q),
                Err(e) => spec_url_parse(url@) matches Err(m) && is_url_error(e, m)
                    && *final(self) == *old(self),
            },
    {
        match ParsedUrl::parse(url) {
            Ok(u) => Ok(self.set_parsed_url(u)),
            Err(m) => Err(DeboaError::Request(RequestError::UrlParse { message: m })),
        }
    }
}

/// Builds a `DeboaRequest` step by step.
#[derive(Debug)]
pub struct DeboaRequestBuilder {
    retries: u32,
    url: ParsedUrl,
    headers: HeaderMap,
    cookies: Option<CookieMap>,
    method: Method,
    body: Vec<u8>,
    form: Option<Form>,
}

/// The mathematical value of a builder: the request so far and the form to
/// add when it is built.
pub struct BuilderView {
    pub req: RequestView,
    pub form: Option<FormView>,
}

/// The view of an optional form.
pub open spec fn form_view_of(f: Option<Form>) -> Option<FormView> {
    match f {
        Some(x) => Some(x@),
        None => None,
    }
}

impl View for DeboaRequestBuilder {
    type V = BuilderView;

    closed spec fn view(&self) -> BuilderView {
        BuilderView {
            req: RequestView {
                url: self.url@,
                headers: header_entries(self.headers),
                cookies: cookies_view(self.cookies),
                retries: self.retries,
                method: self.method,
                body: self.body@,
            },
            form: form_view_of(self.form),
        }
    }
}

/// A fresh builder for `u`: only `Host` set, to the authority.
pub open spec fn fresh_builder(u: UrlView, method: Method) -> RequestView {
    RequestView {
        url: u,
        headers: with_header(Map::empty(), host_name(), encode_utf8(u.authority)),
        cookies: None,
        retries: 0,
        method,
        body: Seq::empty(),
    }
}

/// The request a builder makes: `Host` set to the URL's host when it has
/// one, then `Content-Length` set to the body's length.
pub open spec fn built(b: RequestView) -> RequestView {
    let h1 = match b.url.host {
        Some(h) => with_header(b.headers, host_name(), encode_utf8(h)),
        None => b.headers,
    };
    RequestView {
        headers: with_header(h1, content_length_name(), decimal_bytes(b.body.len())),
        ..b
    }
}

impl DeboaRequestBuilder {
    /// A builder for an already parsed URL, with `Host` set to its
    /// authority.
    pub fn for_url(url: ParsedUrl, method: Method) -> (r: Self)
        ensures
            r@.req == fresh_builder(url@, method),
            r@.form is None,
            room_for(r@.req.headers, 3),
    {
        proof {
            use_type_invariant(&url);
            lemma_graphic_visible(url@.authority);
        }
        let mut headers = header_map_new();
        let host = host_bytes();
        let authority = vstd::slice::slice_to_vec(url.authority().as_bytes());
        proof {
            assert(header_entries(headers).dom() =~= Set::<Seq<u8>>::empty());
        }
        header_map_insert(&mut headers, host.as_slice(), authority.as_slice());
        proof {
            assert(header_entries(headers).dom() =~= Set::<Seq<u8>>::empty().insert(host_name()));
        }
        DeboaRequestBuilder {
            retries: 0,
            url,
            headers,
            cookies: None,
            method,
            body: Vec::new(),
            form: None,
        }
    }

    /// Sets how many times sending is retried.
    pub fn retries(self, retries: u32) -> (r: Self)
        ensures
            r@.form == self@.form,
            r@.req == (RequestView { retries, ..self@.req }),
    {
        let mut b = self;
        b.retries = retries;
        b
    }

    /// Sets the method.
    pub fn method(self, method: Method) -> (r: Self)
        ensures
            r@.form == self@.form,
            r@.req == (RequestView { method, ..self@.req }),
    {
        let mut b = self;
        b.method = method;
        b
    }

    /// Sets the body.
    pub fn raw_body(self, body: &[u8]) -> (r: Self)
        ensures
            r@.form == self@.form,
            r@.req == (RequestView { body: body@, ..self@.req }),
    {
        let mut b = self;
        b.body = vstd::slice::slice_to_vec(body);
        b
    }

    /// Sets the body to the UTF-8 bytes of `text`.
    pub fn text(self, text: &str) -> (r: Self)
        ensures
            r@.form == self@.form,
            r@.req == (RequestView { body: encode_utf8(text@), ..self@.req }),
    {
        let mut b = self;
        b.body = vstd::slice::slice_to_vec(text.as_bytes());
        b
    }

    /// Sets the body to an already serialized value; a serialization error
    /// is returned as it is.
    pub fn body_as(self, serialized: Result<Vec<u8>, DeboaError>) -> (r: Result<Self, DeboaError>)
        ensures
            match serialized {
                Ok(bytes) => r matches Ok(b) && b@.req == (RequestView { body: bytes@, ..self@.req })
                    && b@.form == self@.form,
                Err(e) => r == Err::<Self, DeboaError>(e),
            },
    {
        match serialized {
            Ok(bytes) => {
                let mut b = self;
                b.body = bytes;
                Ok(b)
            },
            Err(e) => Err(e),
        }
    }

    /// The number of header names set so far.
    pub fn headers_len(&self) -> (r: usize)
        ensures
            r == crate::header::name_count(self@.req.headers),
    {
        header_map_names_len(&self.headers)
    }

    /// Replaces all headers.
    fn set_headers(self, headers: HeaderMap) -> (r: Self)
        ensures
            r@.form == self@.form,
            r@.req == (RequestView { headers: header_entries(headers), ..self@.req }),
    {
        let mut b = self;
        b.headers = headers;
        b
    }

    /// Sets the header `key` to the single value `value`.
    pub fn header(self, key: &str, value: &str) -> (r: Self)
        requires
            is_header_name(encode_utf8(key@)),
            is_header_value(encode_utf8(value@)),
            room(self@.req.headers),
        ensures
            r@.form == self@.form,
            r@.req == (RequestView {
                headers: with_header(self@.req.headers, lower_bytes(encode_utf8(key@)), encode_utf8(value@)),
                ..self@.req
            }),
    {
        let mut b = self;
        header_map_insert(&mut b.headers, key.as_bytes(), value.as_bytes());
        b
    }

    /// Sets `Authorization` to `Bearer` and the token.
    pub fn bearer_auth(self, token: &str) -> (r: Self)
        requires
            is_header_value(encode_utf8(token@)),
            room(self@.req.headers),
        ensures
            r@.form == self@.form,
            r@.req == (RequestView {
                headers: with_header(self@.req.headers, authorization_name(), bearer_value(encode_utf8(token@))),
                ..self@.req
            }),
    {
        let mut v: Vec<u8> = vec![66u8, 101, 97, 114, 101, 114, 32];
        let mut t = vstd::slice::slice_to_vec(token.as_bytes());
        v.append(&mut t);
        proof {
            assert(v@ =~= bearer_value(encode_utf8(token@)));
        }
        let name = authorization_bytes();
        let mut b = self;
        header_map_insert(&mut b.headers, name.as_slice(), v.as_slice());
        b
    }

    /// Sets `Authorization` to `Basic` and the Base64 of `username:password`.
    pub fn basic_auth(self, username: &str, password: &str) -> (r: Self)
        requires
            room(self@.req.headers),
        ensures
            r@.form == self@.form,
            r@.req == (RequestView {
                headers: with_header(
                    self@.req.headers,
                    authorization_name(),
                    basic_value(encode_utf8(username@), encode_utf8(password@)),
                ),
                ..self@.req
            }),
    {
        let v = basic_auth_value(username, password);
        let name = authorization_bytes();
        let mut b = self;
        header_map_insert(&mut b.headers, name.as_slice(), v.as_slice());
        b
    }

    /// Replaces all cookies.
    pub fn cookies(self, cookies: CookieMap) -> (r: Self)
        ensures
            r@.form == self@.form,
            r@.req == (RequestView { cookies: Some(cookies@), ..self@.req }),
    {
        let mut b = self;
        b.cookies = Some(cookies);
        b
    }

    /// Stores `cookie` under its name.
    pub fn cookie(self, cookie: DeboaCookie) -> (r: Self)
        ensures
            r@.form == self@.form,
            r@.req == with_cookie(self@.req, cookie@),
    {
        let mut b = self;
        let key = cookie.name().to_owned();
        let mut cookies = match b.cookies.take() {
            Some(m) => m,
            None => CookieMap::new(),
        };
        cookies.insert(key, cookie);
        b.cookies = Some(cookies);
        b
    }

    /// The form to add when the request is built, if one was set.
    pub fn pending_form(&self) -> (r: Option<&Form>)
        ensures
            match r {
                Some(f) => self@.form == Some(f@),
                None => self@.form is None,
            },
    {
        match &self.form {
            Some(f) => Some(f),
            None => None,
        }
    }

    /// Sets the form to add when the request is built.
    pub fn form(self, form: Form) -> (r: Self)
        ensures
            r@.req == self@.req,
            r@.form == Some(form@),
    {
        let mut b = self;
        b.form = Some(form);
        b
    }

    /// Makes the request: `Host` set to the URL's host when it has one, then
    /// `Content-Length` set to the body's length; a form, if one was set, then
    /// gives `Content-Type` and the body. `files` says, for each field of a
    /// multipart form, whether its value names a readable file and what the
    /// file holds.
    pub fn build(self, files: &[Option<FilePart>]) -> (r: Result<DeboaRequest, DeboaError>)
        requires
            room_for(self@.req.headers, if self@.form is Some { 4 } else { 2 }),
            self@.form matches Some(f) ==> files_fit(f, files@),
        ensures
            r matches Ok(q) && q@ == match self@.form {
                Some(f) => with_form(built(self@.req), f, files_view(files@)),
                None => built(self@.req),
            },
    {
        let DeboaRequestBuilder { retries, url, headers, cookies, method, body, form } = self;
        let mut request = DeboaRequest { url, headers, cookies, retries, method, body: Vec::new() };
        let ghost h0 = header_entries(request.headers);
        proof {
            use_type_invariant(&request.url);
        }
        match request.url.host() {
            Some(h) => {
                proof {
                    lemma_graphic_visible(h@);
                    lemma_room_after(h0, if form is Some { 3 } else { 1 }, host_name(), encode_utf8(h@));
                }
                let hv = vstd::slice::slice_to_vec(h.as_bytes());
                let name = host_bytes();
                request.insert_header(name.as_slice(), hv.as_slice());
            },
            None => {},
        }
        let ghost h1 = header_entries(request.headers);
        assert(room_for(h1, if form is Some { 3 } else { 1 }));
        request.store_body(body);
        proof {
            lemma_room_after(
                h1,
                if form is Some { 2 } else { 0 },
                content_length_name(),
                decimal_bytes(request@.body.len()),
            );
        }
        match form {
            Some(f) => {
                request.set_form(f, files);
            },
            None => {},
        }
        Ok(request)
    }
}

impl DeboaRequest {
    /// A builder for `url` and `method`, with `Host` set to the URL's
    /// authority; a URL that does not parse is a `UrlParse` error.
    pub fn at(url: &str, method: Method) -> (r: Result<DeboaRequestBuilder, DeboaError>)
        ensures
            match r {
                Ok(b) => spec_url_parse(url@) matches Ok(u) && b@.req == fresh_builder(u, method),
                Err(e) => spec_url_parse(url@) matches Err(m) && is_url_error(e, m),
            },
            r matches Ok(b) ==> room_for(b@.req.headers, 3) && b@.form is None,
    {
        match ParsedUrl::parse(url) {
            Ok(u) => Ok(DeboaRequestBuilder::for_url(u, method)),
            Err(m) => Err(DeboaError::Request(RequestError::UrlParse { message: m })),
        }
    }

    /// A `GET` builder.
    pub fn from(url: &str) -> (r: Result<DeboaRequestBuilder, DeboaError>)
        ensures
            match r {
                Ok(b) => spec_url_parse(url@) matches Ok(u) && b@.req == fresh_builder(u, Method::Get),
                Err(e) => spec_url_parse(url@) matches Err(m) && is_url_error(e, m),
            },
            r matches Ok(b) ==> room_for(b@.req.headers, 3) && b@.form is None,
    {
        DeboaRequest::at(url, Method::Get)
    }

    /// A `POST` builder.
    pub fn to(url: &str) -> (r: Result<DeboaRequestBuilder, DeboaError>)
        ensures
            match r {
                Ok(b) => spec_url_parse(url@) matches Ok(u) && b@.req == fresh_builder(u, Method::Post),
                Err(e) => spec_url_parse(url@) matches Err(m) && is_url_error(e, m),
            },
            r matches Ok(b) ==> room_for(b@.req.headers, 3) && b@.form is None,
    {
        DeboaRequest::at(url, Method::Post)
    }

    /// A `GET` builder.
    pub fn get(url: &str) -> (r: Result<DeboaRequestBuilder, DeboaError>)
        ensures
            match r {
                Ok(b) => spec_url_parse(url@) matches Ok(u) && b@.req == fresh_builder(u, Method::Get),
                Err(e) => spec_url_parse(url@) matches Err(m) && is_url_error(e, m),
            },
            r matches Ok(b) ==> room_for(b@.req.headers, 3) && b@.form is None,
    {
        DeboaRequest::at(url, Method::Get)
    }

    /// A `POST` builder.
    pub fn post(url: &str) -> (r: Result<DeboaRequestBuilder, DeboaError>)
        ensures
            match r {
                Ok(b) => spec_url_parse(url@) matches Ok(u) && b@.req == fresh_builder(u, Method::Post),
                Err(e) => spec_url_parse(url@) matches Err(m) && is_url_error(e, m),
            },
            r matches Ok(b) ==> room_for(b@.req.headers, 3) && b@.form is None,
    {
        DeboaRequest::at(url, Method::Post)
    }

    /// A `PUT` builder.
    pub fn put(url: &str) -> (r: Result<DeboaRequestBuilder, DeboaError>)
        ensures
            match r {
                Ok(b) => spec_url_parse(url@) matches Ok(u) && b@.req == fresh_builder(u, Method::Put),
                Err(e) => spec_url_parse(url@) matches Err(m) && is_url_error(e, m),
            },
            r matches Ok(b) ==> room_for(b@.req.headers, 3) && b@.form is None,
    {
        DeboaRequest::at(url, Method::Put)
    }

    /// A `PATCH` builder.
    pub fn patch(url: &str) -> (r: Result<DeboaRequestBuilder, DeboaError>)
        ensures
            match r {
                Ok(b) => spec_url_parse(url@) matches Ok(u) && b@.req == fresh_builder(u, Method::Patch),
                Err(e) => spec_url_parse(url@) matches Err(m) && is_url_error(e, m),
            },
            r matches Ok(b) ==> room_for(b@.req.headers, 3) && b@.form is None,
    {
        DeboaRequest::at(url, Method::Patch)
    }

    /// A `DELETE` builder.
    pub fn delete(url: &str) -> (r: Result<DeboaRequestBuilder, DeboaError>)
        ensures
            match r {
                Ok(b) => spec_url_parse(url@) matches Ok(u) && b@.req == fresh_builder(u, Method::Delete),
                Err(e) => spec_url_parse(url@) matches Err(m) && is_url_error(e, m),
            },
            r matches Ok(b) ==> room_for(b@.req.headers, 3) && b@.form is None,
    {
        DeboaRequest::at(url, Method::Delete)
    }
}


/// The request read from a text whose URL parsed to `u`: `Host` set to the
/// URL's authority unless the text gave one.
pub open spec fn assembled(
    u: UrlView,
    method: Method,
    headers: Map<Seq<u8>, Seq<Seq<u8>>>,
    body: Seq<u8>,
) -> RequestView {
    RequestView {
        url: u,
        headers: if headers.dom().contains(host_name()) {
            headers
        } else {
            with_header(headers, host_name(), encode_utf8(u.authority))
        },
        cookies: None,
        retries: 0,
        method,
        body,
    }
}

/// Whether `e` is a request-text error with message `message`.
pub open spec fn is_parse_error(e: DeboaError, message: Seq<char>) -> bool {
    e matches DeboaError::Request(RequestError::Parse { message: m }) && m@ == message
}

/// What reading a request text gives: a `Parse` error for an invalid
/// header name or value; otherwise the request made from the text's method,
/// headers and body when its URL parses, or a `UrlParse` error when it does
/// not.
pub open spec fn text_outcome(s: Seq<char>, r: Result<DeboaRequest, DeboaError>) -> bool {
    &&& text_read(s).error == Some(TextError::InvalidName) ==> (r matches Err(e) && is_parse_error(
        e,
        "Invalid header name"@,
    ))
    &&& text_read(s).error == Some(TextError::InvalidValue) ==> (r matches Err(e) && is_parse_error(
        e,
        "Invalid header value"@,
    ))
    &&& text_read(s).error is None ==> match spec_url_parse(text_read(s).url) {
        Ok(u) => r matches Ok(q) && q@ == assembled(
            u,
            text_method(text_read(s)),
            text_read(s).headers,
            text_read(s).body,
        ),
        Err(m) => r matches Err(e) && is_url_error(e, m),
    }
}

/// A table holding a full table's names has no room either.
pub proof fn lemma_no_room(h: Map<Seq<u8>, Seq<Seq<u8>>>, g: Map<Seq<u8>, Seq<Seq<u8>>>)
    requires
        h.dom().finite(),
        h.dom().len() >= MAX_HEADER_NAMES,
        h.dom().subset_of(g.dom()),
    ensures
        !room(g),
{
    if g.dom().finite() {
        vstd::set_lib::lemma_len_subset(h.dom(), g.dom());
    }
}

/// The method of a request text, from its method word.
pub open spec fn text_method(st: TextState) -> Method {
    match spec_method_from_token(st.method) {
        Some(m) => m,
        None => Method::Get,
    }
}

impl DeboaRequest {
    /// A request for an already parsed URL, with the given method, headers
    /// and body and no cookies; `Host` is set to the URL's authority unless
    /// the headers already have it.
    pub fn assemble(url: ParsedUrl, method: Method, headers: HeaderMap, body: Vec<u8>) -> (r: Self)
        requires
            !header_entries(headers).dom().contains(host_name()) ==> room(header_entries(headers)),
        ensures
            r@ == assembled(url@, method, header_entries(headers), body@),
    {
        proof {
            use_type_invariant(&url);
            lemma_graphic_visible(url@.authority);
        }
        let mut headers = headers;
        let host = host_bytes();
        if !header_map_contains(&headers, host.as_slice()) {
            let authority = vstd::slice::slice_to_vec(url.authority().as_bytes());
            header_map_insert(&mut headers, host.as_slice(), authority.as_slice());
        }
        DeboaRequest { url, headers, cookies: None, retries: 0, method, body }
    }

    /// Reads a request from text: a request line (method and URL), header
    /// lines, a blank line and a body. An invalid header name or value is a
    /// `Parse` error; a URL that does not parse is a `UrlParse` error.
    pub fn from_str(s: &str) -> (r: Result<Self, DeboaError>)
        requires
            room(text_read(s@).headers),
        ensures
            text_outcome(s@, r),
    {
        match DeboaRequest::from_str_checked(s) {
            Some(r) => r,
            None => Err(DeboaError::Header { message: "Too many headers".to_owned() }),
        }
    }

    /// Reads a request from text as `from_str` does, first making sure the
    /// text's headers fit in one header map: `None` when they may not.
    pub fn from_str_checked(s: &str) -> (r: Option<Result<Self, DeboaError>>)
        ensures
            r is None ==> !room(text_read(s@).headers),
            room(text_read(s@).headers) ==> r is Some,
            r matches Some(x) ==> text_outcome(s@, x),
    {
        let chars = chars_of(s);
        let lines = split_lines(chars.as_slice());
        let ghost all = spec_lines(s@);
        proof {
            assert(char_rows(lines@) == all);
            assert(all.take(0) =~= Seq::<Seq<char>>::empty());
            assert(all.take(all.len() as int) =~= all);
        }
        let mut method_w: Vec<char> = Vec::new();
        let mut url_c: Vec<char> = Vec::new();
        let mut headers = header_map_new();
        let mut any_header = false;
        let mut body: Vec<u8> = Vec::new();
        let mut reading = false;
        let mut i: usize = 0;
        proof {
            assert(header_entries(headers) =~= Map::<Seq<u8>, Seq<Seq<u8>>>::empty());
        }
        while i < lines.len()
            invariant
                i <= lines@.len(),
                lines@.len() == all.len(),
                char_rows(lines@) == all,
                all == spec_lines(s@),
                all.take(all.len() as int) == all,
                text_fold(all.take(i as int)) == (TextState {
                    method: method_w@,
                    url: url_c@,
                    headers: header_entries(headers),
                    any_header,
                    body: body@,
                    reading,
                    error: None,
                }),
                url_c@.len() > 0 ==> exists|k: int| 0 <= k < 7 && method_w@ == #[trigger] line_words()[k],
            decreases lines@.len() - i,
        {
            let raw = lines[i].as_slice();
            proof {
                assert(raw@ == all[i as int]);
                lemma_fold_step(all, i as int);
                lemma_fold_grows(all, i as int, all.len() as int);
            }
            let (a, b) = trim_bounds(raw);
            let l = slice_chars(raw, a, b);
            let ghost lv = spec_trim(raw@);
            assert(l@ == lv);
            let mut handled = false;
            if !reading {
                match find_request_line_exec(l.as_slice()) {
                    Some((m, k, e)) => {
                        proof {
                            lemma_line_match(lv, 0);
                        }
                        method_w = line_word(m);
                        url_c = slice_chars(l.as_slice(), k, e);
                        handled = true;
                    },
                    None => {
                        let c = find_char_from(l.as_slice(), ':', 0);
                        if c < l.len() {
                            let name_part = slice_chars(l.as_slice(), 0, c);
                            let value_part = slice_chars(l.as_slice(), c + 1, l.len());
                            let (na, nb) = trim_bounds(name_part.as_slice());
                            let (va, vb) = trim_bounds(value_part.as_slice());
                            let name_t = slice_chars(name_part.as_slice(), na, nb);
                            let value_t = slice_chars(value_part.as_slice(), va, vb);
                            proof {
                                assert(name_part@ =~= lv.take(c as int));
                                assert(value_part@ =~= lv.skip(c + 1));
                            }
                            let n = utf8_of(name_t.as_slice());
                            let v = utf8_of(value_t.as_slice());
                            if !is_header_name_exec(n.as_slice()) {
                                proof {
                                    lemma_fold_grows(all, i + 1, all.len() as int);
                                }
                                return Some(
                                    Err(
                                        DeboaError::Request(
                                            RequestError::Parse { message: "Invalid header name".to_owned() },
                                        ),
                                    ),
                                );
                            }
                            if !is_header_value_exec(v.as_slice()) {
                                proof {
                                    lemma_fold_grows(all, i + 1, all.len() as int);
                                }
                                return Some(
                                    Err(
                                        DeboaError::Request(
                                            RequestError::Parse { message: "Invalid header value".to_owned() },
                                        ),
                                    ),
                                );
                            }
                            if header_map_names_len(&headers) >= MAX_HEADER_NAMES {
                                proof {
                                    lemma_no_room(header_entries(headers), text_fold(all).headers);
                                }
                                return None;
                            }
                            header_map_insert(&mut headers, n.as_slice(), v.as_slice());
                            any_header = true;
                            handled = true;
                        }
                    },
                }
            }
            if !handled {
                if l.len() == 0 && url_c.len() > 0 && any_header {
                    reading = true;
                } else if reading {
                    let mut lb = utf8_of(l.as_slice());
                    body.append(&mut lb);
                }
            }
            i = i + 1;
        }
        let ghost fin = text_read(s@);
        proof {
            assert(fin == text_fold(all.take(i as int)));
        }
        if header_map_names_len(&headers) >= MAX_HEADER_NAMES {
            return None;
        }
        let url_s = string_of(url_c.as_slice());
        match ParsedUrl::parse(url_s.as_str()) {
            Err(m) => Some(Err(DeboaError::Request(RequestError::UrlParse { message: m }))),
            Ok(u) => {
                let method = match Method::from_token(method_w.as_slice()) {
                    Some(m) => m,
                    None => {
                        proof {
                            lemma_line_word_methods();
                        }
                        Method::Get
                    },
                };
                Some(Ok(DeboaRequest::assemble(u, method, headers, body)))
            },
        }
    }
}

/// Each request-line word is a method name.
pub proof fn lemma_line_word_methods()
    ensures
        forall|k: int| 0 <= k < 7 ==> spec_method_from_token(#[trigger] line_words()[k]) is Some,
{
    assert(spec_method_from_token(line_words()[0]) is Some);
    assert(spec_method_from_token(line_words()[1]) is Some);
    assert(spec_method_from_token(line_words()[2]) is Some);
    assert(spec_method_from_token(line_words()[3]) is Some);
    assert(spec_method_from_token(line_words()[4]) is Some);
    assert(spec_method_from_token(line_words()[5]) is Some);
    assert(spec_method_from_token(line_words()[6]) is Some);
}


/// The request after a form is set: `Content-Type` from the form, then the
/// form's body with its `Content-Length`.
pub open spec fn with_form(
    q: RequestView,
    f: FormView,
    files: Seq<Option<(Option<Seq<char>>, Seq<u8>)>>,
) -> RequestView {
    let body = form_body(f, files);
    RequestView {
        headers: with_header(
            with_header(q.headers, content_type_name(), encode_utf8(form_content_type(f))),
            content_length_name(),
            decimal_bytes(body.len()),
        ),
        body,
        ..q
    }
}

impl DeboaRequest {
    /// Sets the body from a form and `Content-Type` to the form's type.
    /// `files` says, for each field of a multipart form, whether its value
    /// names a readable file and what the file holds.
    pub fn set_form(&mut self, form: Form, files: &[Option<FilePart>]) -> (r: &mut Self)
        requires
            room_for(old(self)@.headers, 2),
            files_fit(form@, files@),
        ensures
            r@ == with_form(old(self)@, form@, files_view(files@)),
            *final(self) == *final(r),
    {
        let ct = form.content_type();
        let ctb = vstd::slice::slice_to_vec(ct.as_str().as_bytes());
        proof {
            lemma_ascii_visible(ct@);
            lemma_room_after(old(self)@.headers, 1, content_type_name(), ctb@);
        }
        let name = content_type_bytes();
        self.insert_header(name.as_slice(), ctb.as_slice());
        let body = form.build(files);
        self.store_body(body);
        self
    }
}


/// A body format: it says which content type a request with such a body
/// has. Implemented by the users of the library for their formats.
pub trait RequestBody {
    /// Sets the content type of `request` for this format.
    fn register_content_type(&self, request: &mut DeboaRequest);
}

/// Whether `e` is the error for a header table with no room left.
pub open spec fn is_full_table_error(e: DeboaError) -> bool {
    e matches DeboaError::Header { message } && message@ == "Too many headers"@
}

impl DeboaRequest {
    /// The number of header names set.
    pub fn headers_len(&self) -> (r: usize)
        ensures
            r == crate::header::name_count(self@.headers),
    {
        header_map_names_len(&self.headers)
    }

    /// Sets the body to an already serialized value with its
    /// `Content-Length`. A serialization error is returned as it is; a
    /// header table with no room for `Content-Length` is a `Header` error
    /// `Too many headers`. On an error the request is unchanged.
    pub fn store_serialized(&mut self, serialized: Result<Vec<u8>, DeboaError>) -> (r: Result<
        &mut Self,
        DeboaError,
    >)
        ensures
            match serialized {
                Err(e) => r == Err::<&mut Self, DeboaError>(e) && *final(self) == *old(self),
                Ok(b) => if room(old(self)@.headers) {
                    r matches Ok(q) && q@ == (RequestView {
                        headers: with_header(
                            old(self)@.headers,
                            content_length_name(),
                            decimal_bytes(b@.len()),
                        ),
                        body: b@,
                        ..old(self)@
                    }) && *final(self) == *final(q)
                } else {
                    r matches Err(x) && is_full_table_error(x) && *final(self) == *old(self)
                },
            },
    {
        match serialized {
            Err(e) => Err(e),
            Ok(bytes) => {
                let n = header_map_names_len(&self.headers);
                if n < MAX_HEADER_NAMES {
                    self.store_body(bytes);
                    Ok(self)
                } else {
                    Err(DeboaError::Header { message: "Too many headers".to_owned() })
                }
            },
        }
    }

    /// Lets `body_type` register its content type, then stores the already
    /// serialized value as `store_serialized` does: a serialization error is
    /// returned as it is, and a header table left with no room for
    /// `Content-Length` is a `Header` error `Too many headers`. What the
    /// registration does to the request is up to `body_type`.
    pub fn set_body_as<T: RequestBody>(
        &mut self,
        body_type: &T,
        serialized: Result<Vec<u8>, DeboaError>,
    ) -> (r: Result<&mut Self, DeboaError>)
        ensures
            serialized matches Err(e) ==> (r matches Err(x) && x == e),
            serialized is Ok ==> (r matches Err(x) ==> is_full_table_error(x) && !room(
                final(self)@.headers,
            )),
            r matches Ok(q) ==> (serialized matches Ok(b) && q@.body == b@
                && q@.headers.dom().contains(content_length_name())
                && q@.headers[content_length_name()] == seq![decimal_bytes(b@.len())]
                && *final(self) == *final(q)),
    {
        body_type.register_content_type(self);
        self.store_serialized(serialized)
    }
}

/// Something that can be made into a request.
pub trait IntoRequest: Sized {
    /// The request.
    fn into_request(self) -> Result<DeboaRequest, DeboaError>;
}

impl IntoRequest for DeboaRequest {
    fn into_request(self) -> (r: Result<DeboaRequest, DeboaError>)
        ensures
            r matches Ok(q) && q@ == self@,
    {
        Ok(self)
    }
}

impl<'a> IntoRequest for &'a str {
    /// A `GET` request for the URL.
    fn into_request(self) -> (r: Result<DeboaRequest, DeboaError>)
        ensures
            match r {
                Ok(q) => spec_url_parse(self@) matches Ok(u) && q@ == built(
                    fresh_builder(u, Method::Get),
                ),
                Err(e) => spec_url_parse(self@) matches Err(m) && is_url_error(e, m),
            },
    {
        let b = DeboaRequest::get(self)?;
        b.build(&[])
    }
}

impl IntoRequest for String {
    /// A `GET` request for the URL.
    fn into_request(self) -> (r: Result<DeboaRequest, DeboaError>)
        ensures
            match r {
                Ok(q) => spec_url_parse(self@) matches Ok(u) && q@ == built(
                    fresh_builder(u, Method::Get),
                ),
                Err(e) => spec_url_parse(self@) matches Err(m) && is_url_error(e, m),
            },
    {
        let b = DeboaRequest::get(self.as_str())?;
        b.build(&[])
    }
}

impl IntoRequest for ParsedUrl {
    /// A `GET` request for the URL.
    fn into_request(self) -> (r: Result<DeboaRequest, DeboaError>)
        ensures
            r matches Ok(q) && q@ == built(fresh_builder(self@, Method::Get)),
    {
        DeboaRequestBuilder::for_url(self, Method::Get).build(&[])
    }
}

/// Marks the types that make requests.
pub trait IntoRequestSealed {}

impl IntoRequestSealed for DeboaRequest {}

impl<'a> IntoRequestSealed for &'a str {}

impl IntoRequestSealed for String {}

impl IntoRequestSealed for ParsedUrl {}

/// A `GET` builder.
pub fn get(url: &str) -> (r: Result<DeboaRequestBuilder, DeboaError>)
    ensures
        match r {
            Ok(b) => spec_url_parse(url@) matches Ok(u) && b@.req == fresh_builder(u, Method::Get),
            Err(e) => spec_url_parse(url@) matches Err(m) && is_url_error(e, m),
        },
        r matches Ok(b) ==> room_for(b@.req.headers, 3) && b@.form is None,
{
    DeboaRequest::get(url)
}

/// A `POST` builder.
pub fn post(url: &str) -> (r: Result<DeboaRequestBuilder, DeboaError>)
    ensures
        match r {
            Ok(b) => spec_url_parse(url@) matches Ok(u) && b@.req == fresh_builder(u, Method::Post),
            Err(e) => spec_url_parse(url@) matches Err(m) && is_url_error(e, m),
        },
        r matches Ok(b) ==> room_for(b@.req.headers, 3) && b@.form is None,
{
    DeboaRequest::post(url)
}

/// A `PUT` builder.
pub fn put(url: &str) -> (r: Result<DeboaRequestBuilder, DeboaError>)
    ensures
        match r {
            Ok(b) => spec_url_parse(url@) matches Ok(u) && b@.req == fresh_builder(u, Method::Put),
            Err(e) => spec_url_parse(url@) matches Err(m) && is_url_error(e, m),
        },
        r matches Ok(b) ==> room_for(b@.req.headers, 3) && b@.form is None,
{
    DeboaRequest::put(url)
}

/// A `DELETE` builder.
pub fn delete(url: &str) -> (r: Result<DeboaRequestBuilder, DeboaError>)
    ensures
        match r {
            Ok(b) => spec_url_parse(url@) matches Ok(u) && b@.req == fresh_builder(u, Method::Delete),
            Err(e) => spec_url_parse(url@) matches Err(m) && is_url_error(e, m),
        },
        r matches Ok(b) ==> room_for(b@.req.headers, 3) && b@.form is None,
{
    DeboaRequest::delete(url)
}

/// A `PATCH` builder.
pub fn patch(url: &str) -> (r: Result<DeboaRequestBuilder, DeboaError>)
    ensures
        match r {
            Ok(b) => spec_url_parse(url@) matches Ok(u) && b@.req == fresh_builder(u, Method::Patch),
            Err(e) => spec_url_parse(url@) matches Err(m) && is_url_error(e, m),
        },
        r matches Ok(b) ==> room_for(b@.req.headers, 3) && b@.form is None,
{
    DeboaRequest::patch(url)
}


/// A cookie that was added is there, under its name, as it was added.
pub proof fn lemma_cookie_added(q: RequestView, c: CookieView)
    ensures
        has_cookie_named(with_cookie(q, c), c.name),
        with_cookie(q, c).cookies->0[c.name] == c,
{
}

/// A cookie that was removed is gone.
pub proof fn lemma_cookie_removed(q: RequestView, name: Seq<char>)
    ensures
        !has_cookie_named(without_cookie(q, name), name),
{
}

/// Adding or removing a cookie leaves the cookies of other names as they
/// were, and the rest of the request too.
pub proof fn lemma_cookie_others(q: RequestView, c: CookieView, name: Seq<char>, other: Seq<char>)
    requires
        other != c.name,
        other != name,
    ensures
        has_cookie_named(with_cookie(q, c), other) == has_cookie_named(q, other),
        has_cookie_named(without_cookie(q, name), other) == has_cookie_named(q, other),
        has_cookie_named(q, other) ==> with_cookie(q, c).cookies->0[other] == q.cookies->0[other],
        with_cookie(q, c).headers == q.headers && with_cookie(q, c).body == q.body,
        without_cookie(q, name).headers == q.headers && without_cookie(q, name).body == q.body,
{
}

/// Removing a cookie that was just added to cookies that did not hold its
/// name gives back the request as it was.
pub proof fn lemma_cookie_add_then_remove(q: RequestView, c: CookieView)
    requires
        q.cookies is Some,
        !has_cookie_named(q, c.name),
    ensures
        without_cookie(with_cookie(q, c), c.name) == q,
{
    assert(q.cookies->0.insert(c.name, c).remove(c.name) =~= q.cookies->0);
}

/// A header that was set reads back as the single value set, whatever it
/// held before; other headers are unchanged.
pub proof fn lemma_header_set(h: Map<Seq<u8>, Seq<Seq<u8>>>, name: Seq<u8>, value: Seq<u8>, other: Seq<u8>)
    requires
        other != name,
    ensures
        with_header(h, name, value).dom().contains(name),
        with_header(h, name, value)[name] == seq![value],
        with_header(h, name, value).dom().contains(other) == h.dom().contains(other),
        h.dom().contains(other) ==> with_header(h, name, value)[other] == h[other],
        with_header(with_header(h, name, value), name, value) == with_header(h, name, value),
{
    assert(with_header(with_header(h, name, value), name, value) =~= with_header(h, name, value));
}

/// A built request carries `Content-Length` with its body's length, and
/// `Host` with its URL's host when the URL has one.
pub proof fn lemma_built_headers(b: RequestView)
    ensures
        built(b).headers[content_length_name()] == seq![decimal_bytes(b.body.len())],
        built(b).body == b.body && built(b).url == b.url && built(b).method == b.method,
        b.url.host matches Some(h) ==> built(b).headers.dom().contains(host_name())
            && built(b).headers[host_name()] == seq![encode_utf8(h)],
{
    assert(host_name() != content_length_name()) by {
        assert(host_name()[0] != content_length_name()[0]);
    }
}

/// After the URL changes, a `Host` header that was there names the new
/// authority; no `Host` header appears where there was none.
pub proof fn lemma_url_host(q: RequestView, u: UrlView)
    ensures
        with_url(q, u).url == u,
        with_url(q, u).headers.dom().contains(host_name()) == q.headers.dom().contains(host_name()),
        q.headers.dom().contains(host_name()) ==> with_url(q, u).headers[host_name()] == seq![
            encode_utf8(u.authority),
        ],
        with_url(q, u).body == q.body && with_url(q, u).cookies == q.cookies,
{
}

/// A form's `Content-Length` is its body's length.
pub proof fn lemma_form_length(q: RequestView, f: FormView, files: Seq<Option<(Option<Seq<char>>, Seq<u8>)>>)
    ensures
        with_form(q, f, files).body == form_body(f, files),
        with_form(q, f, files).headers[content_length_name()] == seq![
            decimal_bytes(form_body(f, files).len()),
        ],
        with_form(q, f, files).headers[content_type_name()] == seq![encode_utf8(form_content_type(f))],
{
    assert(content_type_name() != content_length_name()) by {
        assert(content_type_name().len() != content_length_name().len());
    }
}


/// The header table of name/value pairs set one after the other.
pub open spec fn pairs_table(p: Seq<(Seq<char>, Seq<char>)>) -> Map<Seq<u8>, Seq<Seq<u8>>>
    decreases p.len(),
{
    if p.len() == 0 {
        Map::empty()
    } else {
        with_header(
            pairs_table(p.drop_last()),
            lower_bytes(encode_utf8(p.last().0)),
            encode_utf8(p.last().1),
        )
    }
}

/// Whether name/value pairs make valid headers that fit in one map.
pub open spec fn pairs_ok(p: Seq<(Seq<char>, Seq<char>)>) -> bool {
    &&& p.len() < MAX_HEADER_NAMES
    &&& forall|i: int|
        0 <= i < p.len() ==> is_header_name(encode_utf8(#[trigger] p[i].0)) && is_header_value(
            encode_utf8(p[i].1),
        )
}

/// A table built from `n` pairs has at most `n` names.
pub proof fn lemma_pairs_table_size(p: Seq<(Seq<char>, Seq<char>)>)
    ensures
        pairs_table(p).dom().finite(),
        pairs_table(p).dom().len() <= p.len(),
    decreases p.len(),
{
    if p.len() > 0 {
        lemma_pairs_table_size(p.drop_last());
        let k = lower_bytes(encode_utf8(p.last().0));
        assert(pairs_table(p).dom() =~= pairs_table(p.drop_last()).dom().insert(k));
    } else {
        assert(pairs_table(p).dom() =~= Set::<Seq<u8>>::empty());
    }
}

/// Something that can be made into request headers.
pub trait IntoHeaders: Sized {
    /// Whether the headers are valid.
    spec fn headers_ok(&self) -> bool;

    /// The header table they make.
    spec fn headers_spec(&self) -> Map<Seq<u8>, Seq<Seq<u8>>>;

    /// The headers.
    fn into_headers(self) -> (r: Result<HeaderMap, DeboaError>)
        requires
            self.headers_ok(),
        ensures
            r matches Ok(m) && header_entries(m) == self.headers_spec();
}

/// The views of string pairs.
pub open spec fn string_pairs(v: Seq<(String, String)>) -> Seq<(Seq<char>, Seq<char>)> {
    v.map_values(|p: (String, String)| (p.0@, p.1@))
}

/// The views of string slice pairs.
pub open spec fn str_pairs<'a>(v: Seq<(&'a str, &'a str)>) -> Seq<(Seq<char>, Seq<char>)> {
    v.map_values(|p: (&'a str, &'a str)| (p.0@, p.1@))
}

impl IntoHeaders for HeaderMap {
    open spec fn headers_ok(&self) -> bool {
        true
    }

    open spec fn headers_spec(&self) -> Map<Seq<u8>, Seq<Seq<u8>>> {
        header_entries(*self)
    }

    fn into_headers(self) -> (r: Result<HeaderMap, DeboaError>) {
        Ok(self)
    }
}

/// Inserts the pairs `p[..n]` into a fresh map.
fn table_of_pairs(names: &[&str], values: &[&str], p: Ghost<Seq<(Seq<char>, Seq<char>)>>) -> (r: HeaderMap)
    requires
        names@.len() == values@.len(),
        p@.len() == names@.len(),
        forall|i: int| 0 <= i < p@.len() ==> #[trigger] p@[i] == (names@[i]@, values@[i]@),
        pairs_ok(p@),
    ensures
        header_entries(r) == pairs_table(p@),
{
    let mut m = header_map_new();
    let mut i: usize = 0;
    proof {
        assert(p@.take(0) =~= Seq::<(Seq<char>, Seq<char>)>::empty());
        assert(header_entries(m) =~= pairs_table(p@.take(0)));
    }
    while i < names.len()
        invariant
            i <= names@.len(),
            names@.len() == values@.len(),
            p@.len() == names@.len(),
            forall|j: int| 0 <= j < p@.len() ==> #[trigger] p@[j] == (names@[j]@, values@[j]@),
            pairs_ok(p@),
            header_entries(m) == pairs_table(p@.take(i as int)),
        decreases names@.len() - i,
    {
        proof {
            lemma_pairs_table_size(p@.take(i as int));
            assert(p@.take(i + 1).drop_last() =~= p@.take(i as int));
            assert(p@[i as int] == (names@[i as int]@, values@[i as int]@));
            assert(is_header_name(encode_utf8(p@[i as int].0)));
            assert(is_header_value(encode_utf8(p@[i as int].1)));
        }
        header_map_insert(&mut m, names[i].as_bytes(), values[i].as_bytes());
        i = i + 1;
    }
    proof {
        assert(p@.take(p@.len() as int) =~= p@);
    }
    m
}

impl IntoHeaders for Vec<(String, String)> {
    open spec fn headers_ok(&self) -> bool {
        pairs_ok(string_pairs(self@))
    }

    open spec fn headers_spec(&self) -> Map<Seq<u8>, Seq<Seq<u8>>> {
        pairs_table(string_pairs(self@))
    }

    fn into_headers(self) -> (r: Result<HeaderMap, DeboaError>) {
        let mut names: Vec<&str> = Vec::new();
        let mut values: Vec<&str> = Vec::new();
        let ghost p = string_pairs(self@);
        let mut i: usize = 0;
        while i < self.len()
            invariant
                i <= self@.len(),
                p == string_pairs(self@),
                names@.len() == i && values@.len() == i,
                forall|j: int| 0 <= j < i ==> #[trigger] p[j] == (names@[j]@, values@[j]@),
            decreases self@.len() - i,
        {
            names.push(self[i].0.as_str());
            values.push(self[i].1.as_str());
            i = i + 1;
        }
        Ok(table_of_pairs(names.as_slice(), values.as_slice(), Ghost(p)))
    }
}

impl<'a> IntoHeaders for Vec<(&'a str, &'a str)> {
    open spec fn headers_ok(&self) -> bool {
        pairs_ok(str_pairs(self@))
    }

    open spec fn headers_spec(&self) -> Map<Seq<u8>, Seq<Seq<u8>>> {
        pairs_table(str_pairs(self@))
    }

    fn into_headers(self) -> (r: Result<HeaderMap, DeboaError>) {
        let mut names: Vec<&str> = Vec::new();
        let mut values: Vec<&str> = Vec::new();
        let ghost p = str_pairs(self@);
        let mut i: usize = 0;
        while i < self.len()
            invariant
                i <= self@.len(),
                p == str_pairs(self@),
                names@.len() == i && values@.len() == i,
                forall|j: int| 0 <= j < i ==> #[trigger] p[j] == (names@[j]@, values@[j]@),
            decreases self@.len() - i,
        {
            names.push(self[i].0);
            values.push(self[i].1);
            i = i + 1;
        }
        Ok(table_of_pairs(names.as_slice(), values.as_slice(), Ghost(p)))
    }
}

/// Marks the types that make headers.
pub trait IntoHeadersSealed {}

impl IntoHeadersSealed for HeaderMap {}

impl IntoHeadersSealed for Vec<(String, String)> {}

impl<'a> IntoHeadersSealed for Vec<(&'a str, &'a str)> {}

impl DeboaRequestBuilder {
    /// Replaces all headers with those `headers` make.
    pub fn headers<I: IntoHeaders>(self, headers: I) -> (r: Self)
        requires
            headers.headers_ok(),
        ensures
            r@.req == (RequestView { headers: headers.headers_spec(), ..self@.req }),
            r@.form == self@.form,
    {
        match headers.into_headers() {
            Ok(m) => self.set_headers(m),
            Err(_) => self,
        }
    }
}

/// The method a `MethodExt` value names.
pub open spec fn ext_method(m: Method) -> bool {
    m == Method::Get || m == Method::Post || m == Method::Put || m == Method::Delete || m == Method::Patch
}

/// Starting a request from a method.
pub trait MethodExt: Sized {
    /// Whether this names a method a builder can be made for.
    spec fn supported(&self) -> bool;

    /// The method it names.
    spec fn method_spec(&self) -> Method;

    /// A builder for `url` with this method.
    fn from_url(self, url: &str) -> (r: Result<DeboaRequestBuilder, DeboaError>)
        requires
            self.supported(),
        ensures
            match r {
                Ok(b) => spec_url_parse(url@) matches Ok(u) && b@.req == fresh_builder(u, self.method_spec()),
                Err(e) => spec_url_parse(url@) matches Err(m) && is_url_error(e, m),
            },
            r matches Ok(b) ==> b@.form is None && room_for(b@.req.headers, 3);

    /// The same as `from_url`.
    fn to_url(self, url: &str) -> (r: Result<DeboaRequestBuilder, DeboaError>)
        requires
            self.supported(),
        ensures
            match r {
                Ok(b) => spec_url_parse(url@) matches Ok(u) && b@.req == fresh_builder(u, self.method_spec()),
                Err(e) => spec_url_parse(url@) matches Err(m) && is_url_error(e, m),
            },
            r matches Ok(b) ==> b@.form is None && room_for(b@.req.headers, 3);
}

impl MethodExt for Method {
    open spec fn supported(&self) -> bool {
        ext_method(*self)
    }

    open spec fn method_spec(&self) -> Method {
        *self
    }

    fn from_url(self, url: &str) -> (r: Result<DeboaRequestBuilder, DeboaError>) {
        DeboaRequest::at(url, self)
    }

    fn to_url(self, url: &str) -> (r: Result<DeboaRequestBuilder, DeboaError>) {
        self.from_url(url)
    }
}

impl<'a> MethodExt for &'a str {
    open spec fn supported(&self) -> bool {
        crate::method::spec_builder_method(self@) is Some
    }

    open spec fn method_spec(&self) -> Method {
        crate::method::spec_builder_method(self@)->0
    }

    fn from_url(self, url: &str) -> (r: Result<DeboaRequestBuilder, DeboaError>) {
        match Method::for_builder(self) {
            Some(m) => DeboaRequest::at(url, m),
            None => DeboaRequest::at(url, Method::Get),
        }
    }

    fn to_url(self, url: &str) -> (r: Result<DeboaRequestBuilder, DeboaError>) {
        self.from_url(url)
    }
}

/// Marks the types that start requests from a method.
pub trait MethodExtSealed {}

impl MethodExtSealed for Method {}

impl<'a> MethodExtSealed for &'a str {}

} // verus!
