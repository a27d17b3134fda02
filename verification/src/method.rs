//! HTTP methods.
use vstd::prelude::*;

verus! {

/// A standard HTTP method.
#[derive(Debug, Clone, Copy, PartialEq, Eq, Structural)]
pub enum Method {
    Get,
    Post,
    Put,
    Delete,
    Head,
    Options,
    Connect,
    Patch,
    Trace,
}

/// The canonical (upper-case) name of a method.
pub open spec fn method_name(m: Method) -> Seq<char> {
    match m {
        Method::Get => seq!['G', 'E', 'T'],
        Method::Post => seq!['P', 'O', 'S', 'T'],
        Method::Put => seq!['P', 'U', 'T'],
        Method::Delete => seq!['D', 'E', 'L', 'E', 'T', 'E'],
        Method::Head => seq!['H', 'E', 'A', 'D'],
        Method::Options => seq!['O', 'P', 'T', 'I', 'O', 'N', 'S'],
        Method::Connect => seq!['C', 'O', 'N', 'N', 'E', 'C', 'T'],
        Method::Patch => seq!['P', 'A', 'T', 'C', 'H'],
        Method::Trace => seq!['T', 'R', 'A', 'C', 'E'],
    }
}

/// The method whose canonical name is `s`, as `http::Method` parses the
/// standard names (case-sensitively).
pub open spec fn spec_method_from_token(s: Seq<char>) -> Option<Method> {
    if s == method_name(Method::Get) {
        Some(Method::Get)
    } else if s == method_name(Method::Post) {
        Some(Method::Post)
    } else if s == method_name(Method::Put) {
        Some(Method::Put)
    } else if s == method_name(Method::Delete) {
        Some(Method::Delete)
    } else if s == method_name(Method::Head) {
        Some(Method::Head)
    } else if s == method_name(Method::Options) {
        Some(Method::Options)
    } else if s == method_name(Method::Connect) {
        Some(Method::Connect)
    } else if s == method_name(Method::Patch) {
        Some(Method::Patch)
    } else if s == method_name(Method::Trace) {
        Some(Method::Trace)
    } else {
        None
    }
}

/// The lower-case form of a method's name.
pub open spec fn method_name_lower(m: Method) -> Seq<char> {
    method_name(m).map_values(|c: char| ((c as u32) + 32) as char)
}

/// The method a request builder is made for, from the names that the
/// builder accepts: `GET`, `POST`, `PUT`, `DELETE` and `PATCH`, each in upper
/// or lower case.
pub open spec fn spec_builder_method(s: Seq<char>) -> Option<Method> {
    if s == method_name(Method::Get) || s == method_name_lower(Method::Get) {
        Some(Method::Get)
    } else if s == method_name(Method::Post) || s == method_name_lower(Method::Post) {
        Some(Method::Post)
    } else if s == method_name(Method::Put) || s == method_name_lower(Method::Put) {
        Some(Method::Put)
    } else if s == method_name(Method::Delete) || s == method_name_lower(Method::Delete) {
        Some(Method::Delete)
    } else if s == method_name(Method::Patch) || s == method_name_lower(Method::Patch) {
        Some(Method::Patch)
    } else {
        None
    }
}

/// Whether `s` equals `w`.
fn chars_eq(s: &[char], w: &[char]) -> (r: bool)
    ensures
        r == (s@ == w@),
{
    if s.len() != w.len() {
        return false;
    }
    let mut i: usize = 0;
    while i < s.len()
        invariant
            s@.len() == w@.len(),
            i <= s@.len(),
            forall|k: int| 0 <= k < i ==> s@[k] == w@[k],
        decreases s@.len() - i,
    {
        if s[i] != w[i] {
            return false;
        }
        i = i + 1;
    }
    assert(s@ =~= w@);
    true
}

/// The characters of a method's canonical name.
pub fn name_chars(m: Method) -> (r: Vec<char>)
    ensures
        r@ == method_name(m),
{
    let v: Vec<char> = match m {
        Method::Get => vec!['G', 'E', 'T'],
        Method::Post => vec!['P', 'O', 'S', 'T'],
        Method::Put => vec!['P', 'U', 'T'],
        Method::Delete => vec!['D', 'E', 'L', 'E', 'T', 'E'],
        Method::Head => vec!['H', 'E', 'A', 'D'],
        Method::Options => vec!['O', 'P', 'T', 'I', 'O', 'N', 'S'],
        Method::Connect => vec!['C', 'O', 'N', 'N', 'E', 'C', 'T'],
        Method::Patch => vec!['P', 'A', 'T', 'C', 'H'],
        Method::Trace => vec!['T', 'R', 'A', 'C', 'E'],
    };
    assert(v@ =~= method_name(m));
    v
}

fn lower_name_chars(m: Method) -> (r: Vec<char>)
    ensures
        r@ == method_name_lower(m),
{
    let v: Vec<char> = match m {
        Method::Get => vec!['g', 'e', 't'],
        Method::Post => vec!['p', 'o', 's', 't'],
        Method::Put => vec!['p', 'u', 't'],
        Method::Delete => vec!['d', 'e', 'l', 'e', 't', 'e'],
        Method::Head => vec!['h', 'e', 'a', 'd'],
        Method::Options => vec!['o', 'p', 't', 'i', 'o', 'n', 's'],
        Method::Connect => vec!['c', 'o', 'n', 'n', 'e', 'c', 't'],
        Method::Patch => vec!['p', 'a', 't', 'c', 'h'],
        Method::Trace => vec!['t', 'r', 'a', 'c', 'e'],
    };
    assert(v@ =~= method_name_lower(m));
    v
}

impl Method {
    /// The method with canonical name `s`.
    pub fn from_token(s: &[char]) -> (r: Option<Method>)
        ensures
            r == spec_method_from_token(s@),
    {
        if chars_eq(s, name_chars(Method::Get).as_slice()) {
            Some(Method::Get)
        } else if chars_eq(s, name_chars(Method::Post).as_slice()) {
            Some(Method::Post)
        } else if chars_eq(s, name_chars(Method::Put).as_slice()) {
            Some(Method::Put)
        } else if chars_eq(s, name_chars(Method::Delete).as_slice()) {
            Some(Method::Delete)
        } else if chars_eq(s, name_chars(Method::Head).as_slice()) {
            Some(Method::Head)
        } else if chars_eq(s, name_chars(Method::Options).as_slice()) {
            Some(Method::Options)
        } else if chars_eq(s, name_chars(Method::Connect).as_slice()) {
            Some(Method::Connect)
        } else if chars_eq(s, name_chars(Method::Patch).as_slice()) {
            Some(Method::Patch)
        } else if chars_eq(s, name_chars(Method::Trace).as_slice()) {
            Some(Method::Trace)
        } else {
            None
        }
    }

    /// The method a request builder is made for, from its name.
    pub fn for_builder(name: &str) -> (r: Option<Method>)
        ensures
            r == spec_builder_method(name@),
    {
        let s = crate::text::chars_of(name);
        let s = s.as_slice();
        if chars_eq(s, name_chars(Method::Get).as_slice()) || chars_eq(
            s,
            lower_name_chars(Method::Get).as_slice(),
        ) {
            Some(Method::Get)
        } else if chars_eq(s, name_chars(Method::Post).as_slice()) || chars_eq(
            s,
            lower_name_chars(Method::Post).as_slice(),
        ) {
            Some(Method::Post)
        } else if chars_eq(s, name_chars(Method::Put).as_slice()) || chars_eq(
            s,
            lower_name_chars(Method::Put).as_slice(),
        ) {
            Some(Method::Put)
        } else if chars_eq(s, name_chars(Method::Delete).as_slice()) || chars_eq(
            s,
            lower_name_chars(Method::Delete).as_slice(),
        ) {
            Some(Method::Delete)
        } else if chars_eq(s, name_chars(Method::Patch).as_slice()) || chars_eq(
            s,
            lower_name_chars(Method::Patch).as_slice(),
        ) {
            Some(Method::Patch)
        } else {
            None
        }
    }

    /// The canonical name, as a `String`.
    pub fn as_string(&self) -> (r: String)
        ensures
            r@ == method_name(*self),
    {
        let v = name_chars(*self);
        crate::text::string_of(v.as_slice())
    }
}


/// A method name that the builder accepts stands for the method of that
/// name, in upper or lower case; and each of `GET`, `POST`, `PUT`, `DELETE`
/// and `PATCH`, in either case, gives its own method.
pub proof fn lemma_builder_method_named(s: Seq<char>, m: Method)
    ensures
        spec_builder_method(s) == Some(m) ==> (s == method_name(m) || s == method_name_lower(m)),
        (m is Get || m is Post || m is Put || m is Delete || m is Patch) ==> (spec_builder_method(
            method_name(m),
        ) == Some(m) && spec_builder_method(method_name_lower(m)) == Some(m)),
{
    let names = seq![Method::Get, Method::Post, Method::Put, Method::Delete, Method::Patch];
    assert forall|i: int| 0 <= i < 5 implies {
        let n = #[trigger] names[i];
        &&& method_name_lower(n).len() == method_name(n).len()
        &&& method_name_lower(n)[0] == ((method_name(n)[0] as u32) + 32) as char
        &&& method_name_lower(n)[1] == ((method_name(n)[1] as u32) + 32) as char
    } by {}
    assert(method_name_lower(Method::Get)[0] == 'g');
    assert(method_name_lower(Method::Get)[1] == 'e');
    assert(method_name_lower(Method::Post)[0] == 'p');
    assert(method_name_lower(Method::Post)[1] == 'o');
    assert(method_name_lower(Method::Put)[0] == 'p');
    assert(method_name_lower(Method::Put)[1] == 'u');
    assert(method_name_lower(Method::Delete)[0] == 'd');
    assert(method_name_lower(Method::Delete)[1] == 'e');
    assert(method_name_lower(Method::Patch)[0] == 'p');
    assert(method_name_lower(Method::Patch)[1] == 'a');
}

} // verus!
