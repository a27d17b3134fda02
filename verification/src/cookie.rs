//! Cookies: the `DeboaCookie` value, the parser for `Set-Cookie` header
//! values, and the name-keyed collection a request carries.
use crate::errors::DeboaError;
use crate::text::{find_char, spec_trim};
use vstd::prelude::*;

verus! {

/// When a cookie expires: at a moment (seconds since the Unix epoch, UTC)
/// or at the end of the session.
#[derive(Debug, Clone, Copy, PartialEq, Eq, Structural)]
pub enum CookieExpiration {
    /// At this many seconds after the Unix epoch.
    DateTime(i64),
    /// When the browsing session ends.
    Session,
}

/// An HTTP cookie with its attributes.
#[derive(Debug, Clone, PartialEq)]
pub struct DeboaCookie {
    name: String,
    value: String,
    expires: Option<CookieExpiration>,
    path: Option<String>,
    domain: Option<String>,
    secure: Option<bool>,
    http_only: Option<bool>,
}

/// The mathematical value of a cookie.
pub struct CookieView {
    pub name: Seq<char>,
    pub value: Seq<char>,
    pub expires: Option<CookieExpiration>,
    pub path: Option<Seq<char>>,
    pub domain: Option<Seq<char>>,
    pub secure: Option<bool>,
    pub http_only: Option<bool>,
}

/// The view of an optional string.
pub open spec fn opt_chars(o: Option<String>) -> Option<Seq<char>> {
    match o {
        Some(s) => Some(s@),
        None => None,
    }
}

impl View for DeboaCookie {
    type V = CookieView;

    closed spec fn view(&self) -> CookieView {
        CookieView {
            name: self.name@,
            value: self.value@,
            expires: self.expires,
            path: opt_chars(self.path),
            domain: opt_chars(self.domain),
            secure: self.secure,
            http_only: self.http_only,
        }
    }
}

/// The part of a `Set-Cookie` value before the first `;`: the name/value
/// pair.
pub open spec fn cookie_pair(h: Seq<char>) -> Seq<char> {
    h.take(find_char(h, ';', 0))
}

/// Position of the `=` in the name/value pair.
pub open spec fn cookie_eq(h: Seq<char>) -> int {
    find_char(cookie_pair(h), '=', 0)
}

/// The cookie's name: the pair up to its first `=`, trimmed.
pub open spec fn cookie_name(h: Seq<char>) -> Seq<char> {
    spec_trim(cookie_pair(h).take(cookie_eq(h)))
}

/// The cookie's value: the pair after its first `=`, trimmed.
pub open spec fn cookie_value(h: Seq<char>) -> Seq<char> {
    spec_trim(cookie_pair(h).skip(cookie_eq(h) + 1))
}

/// Whether a `Set-Cookie` value parses: its name/value pair has an `=` and
/// a non-empty name.
pub open spec fn cookie_parses(h: Seq<char>) -> bool {
    cookie_eq(h) < cookie_pair(h).len() && cookie_name(h).len() > 0
}

/// What `cookie::Cookie::parse` makes of a header value, kept as a
/// `DeboaCookie`'s fields (the expiration as a Unix timestamp).
pub uninterp spec fn spec_cookie_parse(header: Seq<char>) -> Option<CookieView>;

/// The view of a parse outcome.
pub open spec fn parsed_view(r: Option<DeboaCookie>) -> Option<CookieView> {
    match r {
        Some(c) => Some(c@),
        None => None,
    }
}

/// `cookie::Cookie::parse` (without percent-decoding), converted field by
/// field. Its outcome is the named `spec_cookie_parse` of the header; as the
/// crate's parser shows, it succeeds exactly when the part before the first
/// `;` holds an `=` with a non-empty trimmed name before it, the name and
/// value are that part split at its first `=` and trimmed, and `Secure` and
/// `HttpOnly` are either absent or set. The other attributes (path, domain,
/// expiry) are left to the name.
#[verifier::external_body]
fn cookie_parse(header: &str) -> (r: Option<DeboaCookie>)
    ensures
        parsed_view(r) == spec_cookie_parse(header@),
        r is Some <==> cookie_parses(header@),
        r matches Some(c) ==> c@.name == cookie_name(header@) && c@.value == cookie_value(
            header@,
        ),
        r matches Some(c) ==> (c@.secure is None || c@.secure == Some(true)) && (
        c@.http_only is None || c@.http_only == Some(true)),
{
    let c = cookie::Cookie::parse(header).ok()?;
    let expires = match c.expires() {
        Some(cookie::Expiration::DateTime(t)) => Some(CookieExpiration::DateTime(t.unix_timestamp())),
        Some(cookie::Expiration::Session) => Some(CookieExpiration::Session),
        None => None,
    };
    let (path, domain) = (c.path().map(|p| p.to_string()), c.domain().map(|d| d.to_string()));
    let (name, value) = (c.name().to_string(), c.value().to_string());
    let (secure, http_only) = (c.secure(), c.http_only());
    Some(DeboaCookie { name, value, expires, path, domain, secure, http_only })
}

impl DeboaCookie {
    /// A cookie with a name and a value and no attributes.
    pub fn new(name: &str, value: &str) -> (r: Self)
        ensures
            r@ == (CookieView {
                name: name@,
                value: value@,
                expires: None,
                path: None,
                domain: None,
                secure: None,
                http_only: None,
            }),
    {
        DeboaCookie {
            name: name.to_owned(),
            value: value.to_owned(),
            expires: None,
            path: None,
            domain: None,
            secure: None,
            http_only: None,
        }
    }

    /// The name.
    pub fn name(&self) -> (r: &str)
        ensures
            r@ == self@.name,
    {
        self.name.as_str()
    }

    /// The value.
    pub fn value(&self) -> (r: &str)
        ensures
            r@ == self@.value,
    {
        self.value.as_str()
    }

    /// The expiration, if set.
    pub fn expires(&self) -> (r: Option<CookieExpiration>)
        ensures
            r == self@.expires,
    {
        self.expires
    }

    /// Sets the expiration.
    pub fn set_expires(&mut self, expires: CookieExpiration) -> (r: &mut Self)
        ensures
            r@ == (CookieView { expires: Some(expires), ..old(self)@ }),
            *final(self) == *final(r),
    {
        self.expires = Some(expires);
        self
    }

    /// The path, if set.
    pub fn path(&self) -> (r: Option<&String>)
        ensures
            match r {
                Some(p) => self@.path == Some(p@),
                None => self@.path is None,
            },
    {
        self.path.as_ref()
    }

    /// Sets the path.
    pub fn set_path(&mut self, path: &str) -> (r: &mut Self)
        ensures
            r@ == (CookieView { path: Some(path@), ..old(self)@ }),
            *final(self) == *final(r),
    {
        self.path = Some(path.to_owned());
        self
    }

    /// The domain, if set.
    pub fn domain(&self) -> (r: Option<&String>)
        ensures
            match r {
                Some(d) => self@.domain == Some(d@),
                None => self@.domain is None,
            },
    {
        self.domain.as_ref()
    }

    /// Sets the domain.
    pub fn set_domain(&mut self, domain: &str) -> (r: &mut Self)
        ensures
            r@ == (CookieView { domain: Some(domain@), ..old(self)@ }),
            *final(self) == *final(r),
    {
        self.domain = Some(domain.to_owned());
        self
    }

    /// The `Secure` flag, if set.
    pub fn secure(&self) -> (r: Option<bool>)
        ensures
            r == self@.secure,
    {
        self.secure
    }

    /// Sets the `Secure` flag.
    pub fn set_secure(&mut self, secure: bool) -> (r: &mut Self)
        ensures
            r@ == (CookieView { secure: Some(secure), ..old(self)@ }),
            *final(self) == *final(r),
    {
        self.secure = Some(secure);
        self
    }

    /// The `HttpOnly` flag, if set.
    pub fn http_only(&self) -> (r: Option<bool>)
        ensures
            r == self@.http_only,
    {
        self.http_only
    }

    /// Sets the `HttpOnly` flag.
    pub fn set_http_only(&mut self, http_only: bool) -> (r: &mut Self)
        ensures
            r@ == (CookieView { http_only: Some(http_only), ..old(self)@ }),
            *final(self) == *final(r),
    {
        self.http_only = Some(http_only);
        self
    }

    /// Parses a `Set-Cookie` header value; an invalid one is a
    /// `DeboaError::Cookie` with the message `Invalid cookie header`.
    pub fn parse_from_header(header: &str) -> (r: Result<Self, DeboaError>)
        ensures
            r is Ok <==> cookie_parses(header@),
            r matches Ok(c) ==> Some(c@) == spec_cookie_parse(header@) && c@.name == cookie_name(
                header@,
            ) && c@.value == cookie_value(header@),
            r matches Err(e) ==> e matches DeboaError::Cookie { message } && message@
                == "Invalid cookie header"@,
    {
        match cookie_parse(header) {
            Some(c) => Ok(c),
            None => Err(DeboaError::Cookie { message: "Invalid cookie header".to_owned() }),
        }
    }

    /// The cookie as a `Cookie` header pair, `name=value`.
    pub fn to_string(&self) -> (r: String)
        ensures
            r@ == self@.name + seq!['='] + self@.value,
    {
        let mut s = self.name.clone();
        s.append("=");
        s.append(self.value.as_str());
        proof {
            reveal_strlit("=");
        }
        s
    }
}

} // verus!

verus! {

/// A cookie name that a `Set-Cookie` value carries as it is: not empty,
/// without `;` or `=`, and neither starting nor ending with whitespace.
pub open spec fn clean_name(n: Seq<char>) -> bool {
    &&& n.len() > 0
    &&& !crate::text::is_ws(n[0]) && !crate::text::is_ws(n.last())
    &&& forall|i: int| 0 <= i < n.len() ==> #[trigger] n[i] != ';' && n[i] != '='
}

/// A cookie value that a `Set-Cookie` value carries as it is: without `;`,
/// and neither starting nor ending with whitespace.
pub open spec fn clean_value(v: Seq<char>) -> bool {
    &&& v.len() == 0 || (!crate::text::is_ws(v[0]) && !crate::text::is_ws(v.last()))
    &&& forall|i: int| 0 <= i < v.len() ==> #[trigger] v[i] != ';'
}

/// A cookie written as `name=value` parses back to the same name and value.
pub proof fn lemma_cookie_roundtrip(name: Seq<char>, value: Seq<char>)
    requires
        clean_name(name),
        clean_value(value),
    ensures
        cookie_parses(name + seq!['='] + value),
        cookie_name(name + seq!['='] + value) == name,
        cookie_value(name + seq!['='] + value) == value,
{
    let h = name + seq!['='] + value;
    assert forall|j: int| 0 <= j < h.len() implies h[j] != ';' by {
        if j < name.len() {
            assert(h[j] == name[j]);
        } else if j > name.len() {
            assert(h[j] == value[j - name.len() - 1]);
        }
    }
    crate::text::lemma_find_char_absent(h, ';', 0);
    assert(cookie_pair(h) =~= h);
    assert forall|j: int| 0 <= j < name.len() implies h[j] != '=' by {
        assert(h[j] == name[j]);
    }
    crate::text::lemma_find_char_at(h, '=', 0, name.len() as int);
    assert(h.take(name.len() as int) =~= name);
    assert(h.skip(name.len() + 1int) =~= value);
    crate::text::lemma_trim_clean(name);
    crate::text::lemma_trim_clean(value);
}

/// Cookies keyed by name, as a request carries them. Each key occurs once.
#[derive(Debug)]
pub struct CookieMap {
    entries: Vec<(String, DeboaCookie)>,
}

/// Whether no key occurs twice among `s`.
pub open spec fn distinct_keys(s: Seq<(String, DeboaCookie)>) -> bool {
    forall|i: int, j: int|
        0 <= i < s.len() && 0 <= j < s.len() && i != j ==> #[trigger] s[i].0@ != #[trigger] s[j].0@
}

/// Whether `k` is the key of some entry of `s`.
pub open spec fn has_key(s: Seq<(String, DeboaCookie)>, k: Seq<char>) -> bool {
    exists|j: int| 0 <= j < s.len() && #[trigger] s[j].0@ == k
}

/// The map from keys to cookies that the entries `s` hold.
pub open spec fn entries_map(s: Seq<(String, DeboaCookie)>) -> Map<Seq<char>, CookieView> {
    Map::new(
        |k: Seq<char>| has_key(s, k),
        |k: Seq<char>| s[choose|j: int| 0 <= j < s.len() && #[trigger] s[j].0@ == k].1@,
    )
}

/// With distinct keys, the entry at `j` is what the map holds for its key.
pub proof fn lemma_entry_in_map(s: Seq<(String, DeboaCookie)>, j: int)
    requires
        distinct_keys(s),
        0 <= j < s.len(),
    ensures
        entries_map(s).dom().contains(s[j].0@),
        entries_map(s)[s[j].0@] == s[j].1@,
{
    assert(has_key(s, s[j].0@));
    let w = choose|i: int| 0 <= i < s.len() && #[trigger] s[i].0@ == s[j].0@;
    assert(w == j);
}

impl View for CookieMap {
    type V = Map<Seq<char>, CookieView>;

    closed spec fn view(&self) -> Map<Seq<char>, CookieView> {
        entries_map(self.entries@)
    }
}

impl CookieMap {
    #[verifier::type_invariant]
    closed spec fn wf(self) -> bool {
        distinct_keys(self.entries@)
    }

    /// The view's domain is finite.
    pub proof fn lemma_finite(&self)
        ensures
            self@.dom().finite(),
    {
        lemma_dom_finite(self.entries@);
    }

    /// An empty map.
    pub fn new() -> (r: Self)
        ensures
            r@ == Map::<Seq<char>, CookieView>::empty(),
    {
        let r = CookieMap { entries: Vec::new() };
        assert(r@ =~= Map::<Seq<char>, CookieView>::empty());
        r
    }

    /// Index of the entry with key `k`, if any.
    fn find(&self, k: &str) -> (r: Option<usize>)
        ensures
            match r {
                Some(i) => i < self.entries@.len() && self.entries@[i as int].0@ == k@,
                None => !has_key(self.entries@, k@),
            },
    {
        let ks: String = k.to_owned();
        let mut i: usize = 0;
        while i < self.entries.len()
            invariant
                ks@ == k@,
                i <= self.entries@.len(),
                forall|j: int| 0 <= j < i ==> #[trigger] self.entries@[j].0@ != k@,
            decreases self.entries@.len() - i,
        {
            if self.entries[i].0 == ks {
                return Some(i);
            }
            i = i + 1;
        }
        None
    }

    /// Whether a cookie is stored under `k`.
    pub fn contains_key(&self, k: &str) -> (r: bool)
        ensures
            r == self@.dom().contains(k@),
    {
        match self.find(k) {
            Some(_) => true,
            None => false,
        }
    }

    /// The cookie stored under `k`, if any.
    pub fn get(&self, k: &str) -> (r: Option<&DeboaCookie>)
        ensures
            match r {
                Some(c) => self@.dom().contains(k@) && self@[k@] == c@,
                None => !self@.dom().contains(k@),
            },
    {
        proof {
            use_type_invariant(self);
        }
        match self.find(k) {
            Some(i) => {
                proof {
                    lemma_entry_in_map(self.entries@, i as int);
                }
                Some(&self.entries[i].1)
            },
            None => None,
        }
    }

    /// Stores `cookie` under `k`, replacing what was there.
    pub fn insert(&mut self, k: String, cookie: DeboaCookie)
        ensures
            final(self)@ == old(self)@.insert(k@, cookie@),
    {
        proof {
            use_type_invariant(&*self);
        }
        let ghost old_s = self.entries@;
        let ghost kv = k@;
        let ghost cv = cookie@;
        match self.find(k.as_str()) {
            Some(i) => {
                let mut entries: Vec<(String, DeboaCookie)> = Vec::new();
                std::mem::swap(&mut entries, &mut self.entries);
                entries.set(i, (k, cookie));
                let ghost s = entries@;
                proof {
                    assert(s == old_s.update(i as int, s[i as int]));
                    assert(distinct_keys(s)) by {
                        assert forall|a: int, b: int|
                            0 <= a < s.len() && 0 <= b < s.len() && a != b implies #[trigger] s[a].0@
                            != #[trigger] s[b].0@ by {
                            if a != i && b != i {
                                assert(old_s[a] == s[a] && old_s[b] == s[b]);
                            } else if a == i {
                                assert(old_s[b] == s[b]);
                            } else {
                                assert(old_s[a] == s[a]);
                            }
                        }
                    }
                    lemma_replace_map(old_s, s, i as int);
                }
                self.entries = entries;
            },
            None => {
                let mut entries: Vec<(String, DeboaCookie)> = Vec::new();
                std::mem::swap(&mut entries, &mut self.entries);
                entries.push((k, cookie));
                let ghost s = entries@;
                proof {
                    assert(distinct_keys(s)) by {
                        assert forall|a: int, b: int|
                            0 <= a < s.len() && 0 <= b < s.len() && a != b implies #[trigger] s[a].0@
                            != #[trigger] s[b].0@ by {
                            if a < old_s.len() && b < old_s.len() {
                                assert(old_s[a] == s[a] && old_s[b] == s[b]);
                            } else if a < old_s.len() {
                                assert(old_s[a] == s[a]);
                            } else {
                                assert(old_s[b] == s[b]);
                            }
                        }
                    }
                    lemma_push_map(old_s, s);
                }
                self.entries = entries;
            },
        }
    }

    /// Removes the cookie stored under `k`, if any.
    pub fn remove(&mut self, k: &str)
        ensures
            final(self)@ == old(self)@.remove(k@),
    {
        proof {
            use_type_invariant(&*self);
        }
        let ghost old_s = self.entries@;
        match self.find(k) {
            Some(i) => {
                let mut entries: Vec<(String, DeboaCookie)> = Vec::new();
                std::mem::swap(&mut entries, &mut self.entries);
                let _ = entries.remove(i);
                let ghost s = entries@;
                proof {
                    assert(distinct_keys(s)) by {
                        assert forall|a: int, b: int|
                            0 <= a < s.len() && 0 <= b < s.len() && a != b implies #[trigger] s[a].0@
                            != #[trigger] s[b].0@ by {
                            let a2 = if a < i { a } else { a + 1 };
                            let b2 = if b < i { b } else { b + 1 };
                            assert(s[a] == old_s[a2] && s[b] == old_s[b2]);
                        }
                    }
                    lemma_remove_map(old_s, s, i as int);
                }
                self.entries = entries;
            },
            None => {
                proof {
                    assert(old(self)@.remove(k@) =~= old(self)@);
                }
            },
        }
    }

    /// The number of cookies.
    pub fn len(&self) -> (r: usize)
        ensures
            r == self@.dom().len(),
    {
        proof {
            use_type_invariant(self);
            lemma_map_len(self.entries@);
        }
        self.entries.len()
    }

    /// The entries, in no particular order.
    pub fn into_entries(self) -> (r: Vec<(String, DeboaCookie)>)
        ensures
            r@.len() == self@.dom().len(),
            distinct_keys(r@),
            forall|i: int| 0 <= i < r@.len() ==> self@.dom().contains(#[trigger] r@[i].0@)
                && self@[r@[i].0@] == r@[i].1@,
    {
        proof {
            use_type_invariant(&self);
            lemma_map_len(self.entries@);
            assert forall|i: int| 0 <= i < self.entries@.len() implies self@.dom().contains(
                #[trigger] self.entries@[i].0@,
            ) && self@[self.entries@[i].0@] == self.entries@[i].1@ by {
                lemma_entry_in_map(self.entries@, i);
            }
        }
        self.entries
    }
}

/// The map of entries is finite.
pub proof fn lemma_dom_finite(s: Seq<(String, DeboaCookie)>)
    ensures
        entries_map(s).dom().finite(),
{
    let f = |j: int| s[j].0@;
    let idx = Set::new(|j: int| 0 <= j < s.len());
    assert(idx =~= vstd::set_lib::set_int_range(0, s.len() as int));
    vstd::set_lib::lemma_int_range(0, s.len() as int);
    assert forall|x: Seq<char>| #[trigger] entries_map(s).dom().contains(x) implies idx.map(
        f,
    ).contains(x) by {
        let w = choose|j: int| 0 <= j < s.len() && #[trigger] s[j].0@ == x;
        assert(idx.contains(w) && f(w) == x);
    }
    assert forall|x: Seq<char>| #[trigger] idx.map(f).contains(x) implies entries_map(
        s,
    ).dom().contains(x) by {
        let w = choose|j: int| idx.contains(j) && f(j) == x;
        assert(s[w].0@ == x);
    }
    assert(entries_map(s).dom() =~= idx.map(f));
    idx.lemma_map_finite(f);
}

/// With distinct keys, the map has one key per entry.
pub proof fn lemma_map_len(s: Seq<(String, DeboaCookie)>)
    requires
        distinct_keys(s),
    ensures
        entries_map(s).dom().len() == s.len(),
        entries_map(s).dom().finite(),
    decreases s.len(),
{
    lemma_dom_finite(s);
    if s.len() == 0 {
        assert(entries_map(s).dom() =~= Set::<Seq<char>>::empty());
    } else {
        let t = s.drop_last();
        assert(distinct_keys(t)) by {
            assert forall|a: int, b: int|
                0 <= a < t.len() && 0 <= b < t.len() && a != b implies #[trigger] t[a].0@
                != #[trigger] t[b].0@ by {
                assert(t[a] == s[a] && t[b] == s[b]);
            }
        }
        lemma_map_len(t);
        let k = s.last().0@;
        assert(!has_key(t, k)) by {
            if has_key(t, k) {
                let w = choose|j: int| 0 <= j < t.len() && #[trigger] t[j].0@ == k;
                assert(t[w] == s[w]);
                assert(s[w].0@ == s[s.len() - 1].0@);
            }
        }
        assert(entries_map(s).dom() =~= entries_map(t).dom().insert(k)) by {
            assert forall|x: Seq<char>| entries_map(s).dom().contains(x) implies entries_map(
                t,
            ).dom().insert(k).contains(x) by {
                let w = choose|j: int| 0 <= j < s.len() && #[trigger] s[j].0@ == x;
                if w < t.len() {
                    assert(t[w] == s[w]);
                }
            }
            assert forall|x: Seq<char>| entries_map(t).dom().insert(k).contains(x) implies entries_map(
                s,
            ).dom().contains(x) by {
                if x != k {
                    let w = choose|j: int| 0 <= j < t.len() && #[trigger] t[j].0@ == x;
                    assert(t[w] == s[w]);
                } else {
                    assert(s[s.len() - 1].0@ == x);
                }
            }
        }
    }
}

/// Replacing the entry at `i` by one with the same key updates that key.
pub proof fn lemma_replace_map(old_s: Seq<(String, DeboaCookie)>, s: Seq<(String, DeboaCookie)>, i: int)
    requires
        distinct_keys(old_s),
        distinct_keys(s),
        0 <= i < old_s.len(),
        s.len() == old_s.len(),
        s[i].0@ == old_s[i].0@,
        forall|j: int| 0 <= j < s.len() && j != i ==> s[j] == old_s[j],
    ensures
        entries_map(s) == entries_map(old_s).insert(s[i].0@, s[i].1@),
{
    let m = entries_map(old_s).insert(s[i].0@, s[i].1@);
    assert forall|x: Seq<char>| #[trigger] entries_map(s).dom().contains(x) <==> m.dom().contains(x) by {
        if entries_map(s).dom().contains(x) {
            let w = choose|j: int| 0 <= j < s.len() && #[trigger] s[j].0@ == x;
            if w != i {
                assert(old_s[w] == s[w]);
            }
        }
        if m.dom().contains(x) && x != s[i].0@ {
            let w = choose|j: int| 0 <= j < old_s.len() && #[trigger] old_s[j].0@ == x;
            assert(old_s[w] == s[w]);
        }
    }
    assert forall|x: Seq<char>| #[trigger] entries_map(s).dom().contains(x) implies entries_map(s)[x]
        == m[x] by {
        let w = choose|j: int| 0 <= j < s.len() && #[trigger] s[j].0@ == x;
        lemma_entry_in_map(s, w);
        if w != i {
            assert(old_s[w] == s[w]);
            lemma_entry_in_map(old_s, w);
        }
    }
    assert(entries_map(s) =~= m);
}

/// Pushing an entry with a new key inserts that key.
pub proof fn lemma_push_map(old_s: Seq<(String, DeboaCookie)>, s: Seq<(String, DeboaCookie)>)
    requires
        distinct_keys(old_s),
        distinct_keys(s),
        s.len() == old_s.len() + 1,
        forall|j: int| 0 <= j < old_s.len() ==> s[j] == old_s[j],
    ensures
        entries_map(s) == entries_map(old_s).insert(s.last().0@, s.last().1@),
{
    let n = old_s.len() as int;
    let m = entries_map(old_s).insert(s[n].0@, s[n].1@);
    assert forall|x: Seq<char>| #[trigger] entries_map(s).dom().contains(x) <==> m.dom().contains(x) by {
        if entries_map(s).dom().contains(x) {
            let w = choose|j: int| 0 <= j < s.len() && #[trigger] s[j].0@ == x;
            if w != n {
                assert(old_s[w] == s[w]);
            }
        }
        if m.dom().contains(x) && x != s[n].0@ {
            let w = choose|j: int| 0 <= j < old_s.len() && #[trigger] old_s[j].0@ == x;
            assert(old_s[w] == s[w]);
        }
    }
    assert forall|x: Seq<char>| #[trigger] entries_map(s).dom().contains(x) implies entries_map(s)[x]
        == m[x] by {
        let w = choose|j: int| 0 <= j < s.len() && #[trigger] s[j].0@ == x;
        lemma_entry_in_map(s, w);
        if w != n {
            assert(old_s[w] == s[w]);
            lemma_entry_in_map(old_s, w);
        }
    }
    assert(entries_map(s) =~= m);
}

/// Removing the entry at `i` removes its key.
pub proof fn lemma_remove_map(old_s: Seq<(String, DeboaCookie)>, s: Seq<(String, DeboaCookie)>, i: int)
    requires
        distinct_keys(old_s),
        distinct_keys(s),
        0 <= i < old_s.len(),
        s == old_s.remove(i),
    ensures
        entries_map(s) == entries_map(old_s).remove(old_s[i].0@),
{
    let m = entries_map(old_s).remove(old_s[i].0@);
    assert forall|x: Seq<char>| #[trigger] entries_map(s).dom().contains(x) <==> m.dom().contains(x) by {
        if entries_map(s).dom().contains(x) {
            let w = choose|j: int| 0 <= j < s.len() && #[trigger] s[j].0@ == x;
            let w2 = if w < i { w } else { w + 1 };
            assert(s[w] == old_s[w2]);
        }
        if m.dom().contains(x) {
            let w = choose|j: int| 0 <= j < old_s.len() && #[trigger] old_s[j].0@ == x;
            assert(w != i);
            let w2 = if w < i { w } else { w - 1 };
            assert(s[w2] == old_s[w]);
        }
    }
    assert forall|x: Seq<char>| #[trigger] entries_map(s).dom().contains(x) implies entries_map(s)[x]
        == m[x] by {
        let w = choose|j: int| 0 <= j < s.len() && #[trigger] s[j].0@ == x;
        lemma_entry_in_map(s, w);
        let w2 = if w < i { w } else { w + 1 };
        assert(s[w] == old_s[w2]);
        lemma_entry_in_map(old_s, w2);
    }
    assert(entries_map(s) =~= m);
}

} // verus!
