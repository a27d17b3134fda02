//! HTTP responses: status classes, header readers, cookies set by the
//! server, and the error a failed response turns into.
use crate::cookie::{cookie_parses, cookie_name, cookie_value, spec_cookie_parse, DeboaCookie};
use crate::errors::{DeboaError, ResponseError};
use crate::header::{
    header_entries, header_map_get_all, header_map_new, is_header_name, is_visible_value,
    lower_bytes,
};
use crate::request::{content_length_name, content_type_name};
use crate::text::{decimal, spec_decimal, spec_parse_u64, string_of};
use crate::url::{ParsedUrl, UrlView};
use http::HeaderMap;
use vstd::prelude::*;
use vstd::utf8::encode_utf8;

verus! {

/// A status in 100–199.
pub open spec fn is_informational(s: u16) -> bool {
    100 <= s <= 199
}

/// A status in 200–299.
pub open spec fn is_success(s: u16) -> bool {
    200 <= s <= 299
}

/// A status in 300–399.
pub open spec fn is_redirection(s: u16) -> bool {
    300 <= s <= 399
}

/// A status that fails a request: any status that is neither
/// informational, success nor redirection, and `429 Too Many Requests`.
pub open spec fn is_error_status(s: u16) -> bool {
    (!is_success(s) && !is_informational(s) && !is_redirection(s)) || s == 429
}

/// Whether a response with status `s` is an error.
pub fn status_is_error(s: u16) -> (r: bool)
    ensures
        r == is_error_status(s),
{
    (!(200 <= s && s <= 299) && !(100 <= s && s <= 199) && !(300 <= s && s <= 399)) || s == 429
}

/// The characters of ASCII bytes.
pub open spec fn ascii_text(b: Seq<u8>) -> Seq<char> {
    b.map_values(|x: u8| x as char)
}

/// Visible ASCII bytes read as text, as `HeaderValue::to_str` does.
pub fn ascii_string(b: &[u8]) -> (r: String)
    requires
        is_visible_value(b@),
    ensures
        r@ == ascii_text(b@),
        encode_utf8(r@) == b@,
{
    let mut v: Vec<char> = Vec::new();
    let mut i: usize = 0;
    while i < b.len()
        invariant
            i <= b@.len(),
            v@ == ascii_text(b@.take(i as int)),
        decreases b@.len() - i,
    {
        v.push(b[i] as char);
        proof {
            assert(ascii_text(b@.take(i + 1)) =~= ascii_text(b@.take(i as int)).push(b@[i as int] as char));
        }
        i = i + 1;
    }
    proof {
        assert(b@.take(b@.len() as int) =~= b@);
        assert(vstd::utf8::is_ascii_chars(v@));
        vstd::utf8::is_ascii_chars_encode_utf8(v@);
        assert forall|k: int| 0 <= k < v@.len() implies (v@[k] as u8) == b@[k] by {
            assert(v@[k] == b@[k] as char);
        }
        assert(encode_utf8(v@) =~= b@);
    }
    string_of(v.as_slice())
}

/// The reason phrase `http` gives a status code, if it knows one.
pub uninterp spec fn spec_canonical_reason(code: u16) -> Option<Seq<char>>;

/// `StatusCode::canonical_reason` for a valid status code.
#[verifier::external_body]
fn canonical_reason(code: u16) -> (r: Option<String>)
    requires
        100 <= code <= 999,
    ensures
        match r {
            Some(t) => spec_canonical_reason(code) == Some(t@),
            None => spec_canonical_reason(code) is None,
        },
{
    http::StatusCode::from_u16(code).unwrap().canonical_reason().map(|s| s.to_string())
}

/// What `String::from_utf8_lossy` makes of bytes.
pub uninterp spec fn spec_utf8_lossy(b: Seq<u8>) -> Seq<char>;

/// `String::from_utf8_lossy`: the bytes decoded as UTF-8, with each invalid
/// sequence replaced by U+FFFD.
#[verifier::external_body]
fn utf8_lossy(b: &[u8]) -> (r: String)
    ensures
        r@ == spec_utf8_lossy(b@),
{
    String::from_utf8_lossy(b).to_string()
}

/// A status as `StatusCode` displays it: the number, a space and the reason
/// phrase (`<unknown status code>` when there is none).
pub open spec fn status_display(code: u16) -> Seq<char> {
    spec_decimal(code as nat) + seq![' '] + match spec_canonical_reason(code) {
        Some(t) => t,
        None => "<unknown status code>"@,
    }
}

/// The message of a failed response.
pub open spec fn failure_message(code: u16, body: Seq<u8>) -> Seq<char> {
    "Could not process request ("@ + status_display(code) + "): "@ + spec_utf8_lossy(body)
}

/// The error a failed response turns into.
pub open spec fn is_failure(e: DeboaError, code: u16, body: Seq<u8>) -> bool {
    e matches DeboaError::Response(ResponseError::Receive { status_code, message })
        && status_code == code && message@ == failure_message(code, body)
}

/// The start of an error body read in chunks: stop before the chunk that
/// would bring it over `limit` bytes.
pub open spec fn collect_chunks(chunks: Seq<Seq<u8>>, limit: nat) -> (Seq<u8>, bool)
    decreases chunks.len(),
{
    if chunks.len() == 0 {
        (Seq::empty(), false)
    } else {
        let (data, stopped) = collect_chunks(chunks.drop_last(), limit);
        if stopped {
            (data, true)
        } else if data.len() + chunks.last().len() > limit {
            (data, true)
        } else {
            (data + chunks.last(), false)
        }
    }
}

/// The body of a failed response, read chunk by chunk up to a limit.
pub struct ErrorBody {
    limit: usize,
    data: Vec<u8>,
    stopped: bool,
    chunks: Ghost<Seq<Seq<u8>>>,
}

impl ErrorBody {
    /// The chunks fed so far.
    pub closed spec fn fed(&self) -> Seq<Seq<u8>> {
        self.chunks@
    }

    /// The limit.
    pub closed spec fn limit(&self) -> nat {
        self.limit as nat
    }

    /// What has been kept of the body.
    pub closed spec fn kept(&self) -> Seq<u8> {
        self.data@
    }

    /// Whether reading has stopped.
    pub closed spec fn is_stopped(&self) -> bool {
        self.stopped
    }

    /// The collector's state is what collecting the fed chunks gives.
    pub closed spec fn wf(&self) -> bool {
        (self.data@, self.stopped) == collect_chunks(self.chunks@, self.limit as nat)
            && self.data@.len() <= self.limit
    }

    /// Nothing read yet.
    pub fn new(limit: usize) -> (r: Self)
        ensures
            r.wf(),
            r.fed() == Seq::<Seq<u8>>::empty(),
            r.limit() == limit,
            !r.is_stopped(),
            r.kept() == collect_chunks(r.fed(), r.limit()).0,
            r.is_stopped() == collect_chunks(r.fed(), r.limit()).1,
    {
        ErrorBody { limit, data: Vec::new(), stopped: false, chunks: Ghost(Seq::empty()) }
    }

    /// Feeds the next chunk; returns whether reading goes on.
    pub fn feed(&mut self, chunk: &[u8]) -> (r: bool)
        requires
            old(self).wf(),
        ensures
            final(self).wf(),
            final(self).fed() == old(self).fed().push(chunk@),
            final(self).limit() == old(self).limit(),
            final(self).kept() == collect_chunks(final(self).fed(), final(self).limit()).0,
            final(self).is_stopped() == collect_chunks(final(self).fed(), final(self).limit()).1,
            r == !final(self).is_stopped(),
    {
        let ghost old_chunks = self.chunks@;
        self.chunks = Ghost(self.chunks@.push(chunk@));
        proof {
            assert(self.chunks@.drop_last() =~= old_chunks);
        }
        if self.stopped {
            return false;
        }
        if chunk.len() > self.limit - self.data.len() {
            self.stopped = true;
            return false;
        }
        let mut c = vstd::slice::slice_to_vec(chunk);
        self.data.append(&mut c);
        true
    }

    /// What has been kept of the body.
    pub fn data(&self) -> (r: &[u8])
        ensures
            r@ == self.kept(),
    {
        self.data.as_slice()
    }

    /// The error for a failed response with status `code` and this body.
    pub fn into_error(self, code: u16) -> (r: DeboaError)
        requires
            100 <= code <= 999,
        ensures
            is_failure(r, code, self.kept()),
    {
        response_failure(code, self.data.as_slice())
    }
}

/// The error for a failed response with status `code` and body `body`.
pub fn response_failure(code: u16, body: &[u8]) -> (r: DeboaError)
    requires
        100 <= code <= 999,
    ensures
        is_failure(r, code, body@),
{
    let digits = decimal(code as usize);
    let mut m = "Could not process request (".to_owned();
    let ds = string_of(digits.as_slice());
    m.append(ds.as_str());
    m.append(" ");
    match canonical_reason(code) {
        Some(t) => m.append(t.as_str()),
        None => m.append("<unknown status code>"),
    }
    m.append("): ");
    let text = utf8_lossy(body);
    m.append(text.as_str());
    proof {
        reveal_strlit(" ");
        assert(m@ =~= failure_message(code, body@));
    }
    DeboaError::Response(ResponseError::Receive { status_code: code, message: m })
}


/// The name `set-cookie`.
pub open spec fn set_cookie_name() -> Seq<u8> {
    seq![115u8, 101, 116, 45, 99, 111, 111, 107, 105, 101]
}

/// `set-cookie`, as bytes.
pub fn set_cookie_bytes() -> (r: Vec<u8>)
    ensures
        r@ == set_cookie_name(),
        is_header_name(r@),
        lower_bytes(r@) == r@,
{
    let r: Vec<u8> = vec![115u8, 101, 116, 45, 99, 111, 111, 107, 105, 101];
    assert(r@ =~= set_cookie_name());
    assert(lower_bytes(r@) =~= r@);
    r
}

/// The first value of a header, if it is set.
pub open spec fn first_value(h: Map<Seq<u8>, Seq<Seq<u8>>>, name: Seq<u8>) -> Option<Seq<u8>> {
    if h.dom().contains(name) && h[name].len() > 0 {
        Some(h[name][0])
    } else {
        None
    }
}

/// All values of a header, in order.
pub open spec fn all_values(h: Map<Seq<u8>, Seq<Seq<u8>>>, name: Seq<u8>) -> Seq<Seq<u8>> {
    if h.dom().contains(name) {
        h[name]
    } else {
        Seq::empty()
    }
}

/// What reading a header as text gives: the text when the first value is
/// visible ASCII; otherwise `None`, with whether the header is set at all.
pub open spec fn header_text(h: Map<Seq<u8>, Seq<Seq<u8>>>, name: Seq<u8>) -> Option<Seq<char>> {
    match first_value(h, name) {
        Some(v) => if is_visible_value(v) {
            Some(ascii_text(v))
        } else {
            None
        },
        None => None,
    }
}

/// Whether `e` is a header error with message `message`.
pub open spec fn is_header_error(e: DeboaError, message: Seq<char>) -> bool {
    e matches DeboaError::Header { message: m } && m@ == message
}

/// The message for a header whose value is not text.
pub open spec fn unreadable_message(name: Seq<char>) -> Seq<char> {
    "Failed to read "@ + name + ":: failed to convert header to a str"@
}

/// What `str::parse::<u64>`'s error says about `s`.
pub open spec fn parse_error_text(s: Seq<char>) -> Seq<char> {
    if s.len() == 0 {
        "cannot parse integer from empty string"@
    } else if crate::text::unsigned_digits(s).len() > 0 && crate::text::all_digits(
        crate::text::unsigned_digits(s),
    ) {
        "number too large to fit in target type"@
    } else {
        "invalid digit found in string"@
    }
}

/// A received response.
#[derive(Debug)]
pub struct DeboaResponse {
    url: ParsedUrl,
    status: u16,
    headers: HeaderMap,
    body: Vec<u8>,
}

/// The mathematical value of a response.
pub struct ResponseView {
    pub url: UrlView,
    pub status: u16,
    pub headers: Map<Seq<u8>, Seq<Seq<u8>>>,
    pub body: Seq<u8>,
}

impl View for DeboaResponse {
    type V = ResponseView;

    closed spec fn view(&self) -> ResponseView {
        ResponseView {
            url: self.url@,
            status: self.status,
            headers: header_entries(self.headers),
            body: self.body@,
        }
    }
}

impl DeboaResponse {
    /// The status is a valid status code.
    #[verifier::type_invariant]
    spec fn status_inv(self) -> bool {
        100 <= self.status <= 999
    }

    /// A response.
    pub fn new(url: ParsedUrl, status: u16, headers: HeaderMap, body: Vec<u8>) -> (r: Self)
        requires
            100 <= status <= 999,
        ensures
            r@ == (ResponseView { url: url@, status, headers: header_entries(headers), body: body@ }),
    {
        DeboaResponse { url, status, headers, body }
    }

    /// A builder for a response from `url`: status 200, no headers, an
    /// empty body.
    pub fn builder(url: ParsedUrl) -> (r: DeboaResponseBuilder)
        ensures
            r@ == (ResponseView {
                url: url@,
                status: 200,
                headers: crate::header::no_headers(),
                body: Seq::empty(),
            }),
    {
        DeboaResponseBuilder { url, status: 200, headers: header_map_new(), body: Vec::new() }
    }

    /// The URL.
    pub fn url(&self) -> (r: &ParsedUrl)
        ensures
            r@ == self@.url,
    {
        &self.url
    }

    /// The status code.
    pub fn status(&self) -> (r: u16)
        ensures
            r == self@.status,
            100 <= r <= 999,
    {
        proof {
            use_type_invariant(self);
        }
        self.status
    }

    /// Changes the status code.
    pub fn set_status(&mut self, status: u16)
        requires
            100 <= status <= 999,
        ensures
            final(self)@ == (ResponseView { status, ..old(self)@ }),
    {
        self.status = status;
    }

    /// The headers.
    pub fn headers(&self) -> (r: &HeaderMap)
        ensures
            header_entries(*r) == self@.headers,
    {
        &self.headers
    }

    /// Reads the body, consuming it: the response is left with an empty
    /// body.
    pub fn raw_body(&mut self) -> (r: Vec<u8>)
        ensures
            r@ == old(self)@.body,
            final(self)@ == (ResponseView { body: Seq::empty(), ..old(self)@ }),
    {
        proof {
            use_type_invariant(&*self);
        }
        let body = self.body.clone();
        self.body = Vec::new();
        body
    }

    /// Replaces the body.
    pub fn set_raw_body(&mut self, body: Vec<u8>)
        ensures
            final(self)@ == (ResponseView { body: body@, ..old(self)@ }),
    {
        proof {
            use_type_invariant(&*self);
        }
        self.body = body;
    }

    /// Reads the body as text, invalid UTF-8 replaced, consuming it.
    pub fn text(&mut self) -> (r: Result<String, DeboaError>)
        ensures
            r matches Ok(t) && t@ == spec_utf8_lossy(old(self)@.body),
            final(self)@ == (ResponseView { body: Seq::empty(), ..old(self)@ }),
    {
        let body = self.raw_body();
        Ok(utf8_lossy(body.as_slice()))
    }

    /// The first value of header `name` as text. A missing header is a
    /// `Header` error `Header is missing`; a value that is not visible ASCII
    /// is a `Header` error naming the header.
    pub fn header_value(&self, name: &str) -> (r: Result<String, DeboaError>)
        requires
            is_header_name(encode_utf8(name@)),
        ensures
            match first_value(self@.headers, lower_bytes(encode_utf8(name@))) {
                None => r matches Err(e) && is_header_error(e, "Header is missing"@),
                Some(v) => if is_visible_value(v) {
                    r matches Ok(t) && t@ == ascii_text(v)
                } else {
                    r matches Err(e) && is_header_error(e, unreadable_message(name@))
                },
            },
    {
        let values = header_map_get_all(&self.headers, name.as_bytes());
        let ghost key = lower_bytes(encode_utf8(name@));
        if values.len() == 0 {
            return Err(DeboaError::Header { message: "Header is missing".to_owned() });
        }
        proof {
            assert(values@.map_values(|v: Vec<u8>| v@)[0] == values@[0]@);
        }
        let v = values[0].as_slice();
        if crate::header::is_visible_value_exec(v) {
            Ok(ascii_string(v))
        } else {
            let mut m = "Failed to read ".to_owned();
            m.append(name);
            m.append(":: failed to convert header to a str");
            Err(DeboaError::Header { message: m })
        }
    }

    /// `Content-Length` as a number. A missing or unreadable header is a
    /// `Header` error as `header_value` gives it; one that is not a `u64` is
    /// a `Header` error with the parser's reason.
    pub fn content_length(&self) -> (r: Result<u64, DeboaError>)
        ensures
            match first_value(self@.headers, content_length_name()) {
                None => r matches Err(e) && is_header_error(e, "Header is missing"@),
                Some(v) => if !is_visible_value(v) {
                    r matches Err(e) && is_header_error(e, unreadable_message("content-length"@))
                } else {
                    match spec_parse_u64(ascii_text(v)) {
                        Some(n) => r == Ok::<u64, DeboaError>(n),
                        None => r matches Err(e) && is_header_error(
                            e,
                            "Failed to parse content-length: "@ + parse_error_text(ascii_text(v)),
                        ),
                    }
                },
            },
    {
        proof {
            reveal_strlit("content-length");
            crate::text::lemma_ascii_bytes_of_name();
            lemma_known_names();
        }
        let text = self.header_value("content-length")?;
        let chars = crate::text::chars_of(text.as_str());
        match crate::text::parse_u64(chars.as_slice()) {
            Some(n) => Ok(n),
            None => {
                let mut m = "Failed to parse content-length: ".to_owned();
                m.append(parse_error_reason(chars.as_slice()).as_str());
                Err(DeboaError::Header { message: m })
            },
        }
    }

    /// `Content-Type` as text, or the error `header_value` gives.
    pub fn content_type(&self) -> (r: Result<String, DeboaError>)
        ensures
            match first_value(self@.headers, content_type_name()) {
                None => r matches Err(e) && is_header_error(e, "Header is missing"@),
                Some(v) => if is_visible_value(v) {
                    r matches Ok(t) && t@ == ascii_text(v)
                } else {
                    r matches Err(e) && is_header_error(e, unreadable_message("content-type"@))
                },
            },
    {
        proof {
            reveal_strlit("content-type");
            crate::text::lemma_ascii_bytes_of_name();
            lemma_known_names();
        }
        self.header_value("content-type")
    }
}

/// Why `s` is not a `u64`, in the words of `ParseIntError`.
fn parse_error_reason(s: &[char]) -> (r: String)
    ensures
        r@ == parse_error_text(s@),
{
    if s.len() == 0 {
        return "cannot parse integer from empty string".to_owned();
    }
    let start: usize = if s[0] == '+' { 1 } else { 0 };
    let ghost d = crate::text::unsigned_digits(s@);
    assert(d =~= s@.skip(start as int));
    if start >= s.len() {
        return "invalid digit found in string".to_owned();
    }
    let mut k = start;
    while k < s.len()
        invariant
            start <= k <= s@.len(),
            s@.len() > 0,
            d == crate::text::unsigned_digits(s@),
            d =~= s@.skip(start as int),
            forall|i: int| 0 <= i < k - start ==> crate::text::is_digit(#[trigger] d[i]),
        decreases s@.len() - k,
    {
        if !('0' <= s[k] && s[k] <= '9') {
            assert(!crate::text::is_digit(d[k - start]));
            assert(!crate::text::all_digits(d));
            return "invalid digit found in string".to_owned();
        }
        k = k + 1;
    }
    assert(crate::text::all_digits(d));
    "number too large to fit in target type".to_owned()
}

/// Builds a `DeboaResponse`.
pub struct DeboaResponseBuilder {
    url: ParsedUrl,
    status: u16,
    headers: HeaderMap,
    body: Vec<u8>,
}

impl View for DeboaResponseBuilder {
    type V = ResponseView;

    closed spec fn view(&self) -> ResponseView {
        ResponseView {
            url: self.url@,
            status: self.status,
            headers: header_entries(self.headers),
            body: self.body@,
        }
    }
}

impl DeboaResponseBuilder {
    /// The status is a valid status code.
    #[verifier::type_invariant]
    spec fn status_inv(self) -> bool {
        100 <= self.status <= 999
    }

    /// Sets the status code.
    pub fn status(self, status: u16) -> (r: Self)
        requires
            100 <= status <= 999,
        ensures
            r@ == (ResponseView { status, ..self@ }),
    {
        let DeboaResponseBuilder { url, status: _, headers, body } = self;
        DeboaResponseBuilder { url, status, headers, body }
    }

    /// Replaces the headers.
    pub fn headers(self, headers: HeaderMap) -> (r: Self)
        ensures
            r@ == (ResponseView { headers: header_entries(headers), ..self@ }),
    {
        proof {
            use_type_invariant(&self);
        }
        let DeboaResponseBuilder { url, status, headers: _, body } = self;
        DeboaResponseBuilder { url, status, headers, body }
    }

    /// Sets the body.
    pub fn body(self, body: Vec<u8>) -> (r: Self)
        ensures
            r@ == (ResponseView { body: body@, ..self@ }),
    {
        proof {
            use_type_invariant(&self);
        }
        let DeboaResponseBuilder { url, status, headers, body: _ } = self;
        DeboaResponseBuilder { url, status, headers, body }
    }

    /// The response.
    pub fn build(self) -> (r: DeboaResponse)
        ensures
            r@ == self@,
    {
        proof {
            use_type_invariant(&self);
        }
        let DeboaResponseBuilder { url, status, headers, body } = self;
        DeboaResponse { url, status, headers, body }
    }
}


/// `content-length` and `content-type` are valid lower-case names.
pub proof fn lemma_known_names()
    ensures
        is_header_name(content_length_name()),
        lower_bytes(content_length_name()) == content_length_name(),
        is_header_name(content_type_name()),
        lower_bytes(content_type_name()) == content_type_name(),
{
    assert(lower_bytes(content_length_name()) =~= content_length_name());
    assert(lower_bytes(content_type_name()) =~= content_type_name());
}


/// Whether a `Set-Cookie` value reads as text and parses as a cookie.
pub open spec fn set_cookie_ok(v: Seq<u8>) -> bool {
    is_visible_value(v) && cookie_parses(ascii_text(v))
}

/// Whether `cs` are the cookies parsed from the values `vs`, one by one.
pub open spec fn parsed_all(vs: Seq<Seq<u8>>, cs: Seq<DeboaCookie>) -> bool {
    &&& cs.len() == vs.len()
    &&& forall|i: int|
        0 <= i < vs.len() ==> Some(#[trigger] cs[i]@) == spec_cookie_parse(ascii_text(vs[i]))
            && cs[i]@.name == cookie_name(ascii_text(vs[i])) && cs[i]@.value == cookie_value(
            ascii_text(vs[i]),
        )
}

/// The outcome of reading the cookies of a response whose `Set-Cookie`
/// values are `vs`: none when there are no values, else all of them.
pub open spec fn cookies_outcome(vs: Seq<Seq<u8>>, o: Option<Vec<DeboaCookie>>) -> bool {
    if vs.len() == 0 {
        o is None
    } else {
        o matches Some(cs) && parsed_all(vs, cs@)
    }
}

impl DeboaResponse {
    /// The cookies the server set, parsed from each `Set-Cookie` value in
    /// order; a value that is not text or not a cookie is a `Cookie` error
    /// `Invalid cookie header`.
    pub fn parse_cookies(&self) -> (r: Result<Option<Vec<DeboaCookie>>, DeboaError>)
        ensures
            (forall|i: int|
                0 <= i < all_values(self@.headers, set_cookie_name()).len() ==> set_cookie_ok(
                    #[trigger] all_values(self@.headers, set_cookie_name())[i],
                )) ==> (r matches Ok(o) && cookies_outcome(
                all_values(self@.headers, set_cookie_name()),
                o,
            )),
            r is Ok ==> forall|i: int|
                0 <= i < all_values(self@.headers, set_cookie_name()).len() ==> set_cookie_ok(
                    #[trigger] all_values(self@.headers, set_cookie_name())[i],
                ),
            r matches Err(e) ==> (e matches DeboaError::Cookie { message } && message@
                == "Invalid cookie header"@),
    {
        let name = set_cookie_bytes();
        let values = header_map_get_all(&self.headers, name.as_slice());
        let ghost vs = all_values(self@.headers, set_cookie_name());
        proof {
            assert(values@.map_values(|v: Vec<u8>| v@) =~= vs);
        }
        let mut out: Vec<DeboaCookie> = Vec::new();
        let mut i: usize = 0;
        while i < values.len()
            invariant
                i <= values@.len(),
                values@.map_values(|v: Vec<u8>| v@) == vs,
                vs == all_values(self@.headers, set_cookie_name()),
                parsed_all(vs.take(i as int), out@),
                forall|j: int| 0 <= j < i ==> set_cookie_ok(#[trigger] vs[j]),
            decreases values@.len() - i,
        {
            let v = values[i].as_slice();
            assert(v@ == vs[i as int]);
            if !crate::header::is_visible_value_exec(v) {
                assert(!set_cookie_ok(vs[i as int]));
                return Err(DeboaError::Cookie { message: "Invalid cookie header".to_owned() });
            }
            let text = ascii_string(v);
            match DeboaCookie::parse_from_header(text.as_str()) {
                Ok(c) => {
                    out.push(c);
                    assert(set_cookie_ok(vs[i as int]));
                    proof {
                        assert forall|j: int| 0 <= j < i + 1 implies Some(#[trigger] out@[j]@)
                            == spec_cookie_parse(ascii_text(vs.take(i + 1)[j])) && out@[j]@.name
                            == cookie_name(ascii_text(vs.take(i + 1)[j])) && out@[j]@.value
                            == cookie_value(ascii_text(vs.take(i + 1)[j])) by {
                            if j < i {
                                assert(vs.take(i + 1)[j] == vs.take(i as int)[j]);
                            }
                        }
                    }
                },
                Err(e) => {
                    assert(!set_cookie_ok(vs[i as int]));
                    return Err(e);
                },
            }
            i = i + 1;
        }
        proof {
            assert(vs.take(vs.len() as int) =~= vs);
        }
        if out.len() == 0 {
            Ok(None)
        } else {
            Ok(Some(out))
        }
    }

    /// The cookies the server set, parsed from each `Set-Cookie` value in
    /// order. Every value must read as text and parse as a cookie.
    pub fn cookies(&self) -> (r: Result<Option<Vec<DeboaCookie>>, DeboaError>)
        requires
            forall|i: int|
                0 <= i < all_values(self@.headers, set_cookie_name()).len() ==> set_cookie_ok(
                    #[trigger] all_values(self@.headers, set_cookie_name())[i],
                ),
        ensures
            r matches Ok(o) && cookies_outcome(all_values(self@.headers, set_cookie_name()), o),
    {
        self.parse_cookies()
    }
}


/// The states a response can be in.
pub trait ResponseState {}

/// A response as received: URL, status, headers and body.
pub struct IncomingResponse {
    url: ParsedUrl,
    status: u16,
    headers: HeaderMap,
    body: Vec<u8>,
}

/// A response whose connection was upgraded to a stream.
pub struct UpgradeResponse {
    stream: String,
}

impl ResponseState for IncomingResponse {}

impl ResponseState for UpgradeResponse {}

/// A response in state `S`.
pub struct BaseResponse<S: ResponseState> {
    state: Box<S>,
}

impl BaseResponse<IncomingResponse> {
    /// A received response.
    pub fn incoming(url: ParsedUrl, status: u16, headers: HeaderMap, body: Vec<u8>) -> (r: Self)
        ensures
            r@ == (ResponseView { url: url@, status, headers: header_entries(headers), body: body@ }),
    {
        BaseResponse { state: Box::new(IncomingResponse { url, status, headers, body }) }
    }

    /// The mathematical value of the response.
    pub closed spec fn view(&self) -> ResponseView {
        ResponseView {
            url: self.state.url@,
            status: self.state.status,
            headers: header_entries(self.state.headers),
            body: self.state.body@,
        }
    }

    /// The URL.
    pub fn url(&self) -> (r: &ParsedUrl)
        ensures
            r@ == self@.url,
    {
        &self.state.url
    }

    /// The status code.
    pub fn status(&self) -> (r: u16)
        ensures
            r == self@.status,
    {
        self.state.status
    }

    /// The headers.
    pub fn headers(&self) -> (r: &HeaderMap)
        ensures
            header_entries(*r) == self@.headers,
    {
        &self.state.headers
    }

    /// The body.
    pub fn body(&self) -> (r: &[u8])
        ensures
            r@ == self@.body,
    {
        self.state.body.as_slice()
    }
}

impl BaseResponse<UpgradeResponse> {
    /// A response upgraded to `stream`.
    pub fn upgraded(stream: String) -> (r: Self)
        ensures
            r.stream_spec() == stream@,
    {
        BaseResponse { state: Box::new(UpgradeResponse { stream }) }
    }

    /// The stream's name.
    pub closed spec fn stream_spec(&self) -> Seq<char> {
        self.state.stream@
    }

    /// The stream.
    pub fn stream(&self) -> (r: &String)
        ensures
            r@ == self.stream_spec(),
    {
        &self.state.stream
    }
}


/// The `Content-Length` a request writes for a body of `n` bytes is read
/// back by a response as `n`.
pub proof fn lemma_content_length_roundtrip(h: Map<Seq<u8>, Seq<Seq<u8>>>, n: u64)
    ensures
        first_value(
            crate::request::with_header(h, content_length_name(), crate::request::decimal_bytes(n as nat)),
            content_length_name(),
        ) == Some(crate::request::decimal_bytes(n as nat)),
        is_visible_value(crate::request::decimal_bytes(n as nat)),
        spec_parse_u64(ascii_text(crate::request::decimal_bytes(n as nat))) == Some(n),
{
    let d = spec_decimal(n as nat);
    crate::request::lemma_decimal_visible(n as nat);
    crate::text::lemma_decimal_digits(n as nat);
    assert(vstd::utf8::is_ascii_chars(d));
    vstd::utf8::is_ascii_chars_encode_utf8(d);
    let b = encode_utf8(d);
    assert forall|i: int| 0 <= i < d.len() implies ascii_text(b)[i] == d[i] by {
        assert(b[i] == d[i] as u8);
        assert(crate::text::is_digit(d[i]));
    }
    assert(ascii_text(b) =~= d);
    crate::text::lemma_parse_decimal(n);
}

/// The concatenation of chunks.
pub open spec fn flatten(chunks: Seq<Seq<u8>>) -> Seq<u8>
    decreases chunks.len(),
{
    if chunks.len() == 0 {
        Seq::empty()
    } else {
        flatten(chunks.drop_last()) + chunks.last()
    }
}

/// What is kept of an error body never exceeds the limit, and a body within
/// the limit is kept whole.
pub proof fn lemma_error_body_limit(chunks: Seq<Seq<u8>>, limit: nat)
    ensures
        collect_chunks(chunks, limit).0.len() <= limit,
        flatten(chunks).len() <= limit ==> collect_chunks(chunks, limit) == (flatten(chunks), false),
    decreases chunks.len(),
{
    if chunks.len() > 0 {
        lemma_error_body_limit(chunks.drop_last(), limit);
    }
}

/// A status is an error exactly when it is not informational, success or
/// redirection, or when it is 429.
pub proof fn lemma_error_statuses(s: u16)
    ensures
        is_error_status(s) <==> (s < 100 || s >= 400 || s == 429),
        is_error_status(429),
        !is_error_status(200) && !is_error_status(301) && is_error_status(404) && is_error_status(500),
{
}

} // verus!
