//! The request header map. Headers live in an `http::HeaderMap`; this module
//! states what its operations do, over the bytes of names and values.
use http::{HeaderMap, HeaderName, HeaderValue};
use vstd::prelude::*;

verus! {

/// The header map of the `http` crate.
#[verifier::external_type_specification]
#[verifier::external_body]
#[verifier::reject_recursive_types(T)]
pub struct ExHeaderMap<T>(HeaderMap<T>);

/// The values a `HeaderMap` holds by default.
#[verifier::external_type_specification]
#[verifier::external_body]
pub struct ExHeaderValue(HeaderValue);

/// What a header map holds: for each lower-case header name, its values in
/// the order they were added.
pub uninterp spec fn header_entries(m: HeaderMap) -> Map<Seq<u8>, Seq<Seq<u8>>>;

/// A `tchar` of RFC 9110, the bytes a header name is made of.
pub open spec fn is_tchar(b: u8) -> bool {
    ||| b == 33 || b == 35 || b == 36 || b == 37 || b == 38 || b == 39 || b == 42 || b == 43
    ||| b == 45 || b == 46 || b == 94 || b == 95 || b == 96 || b == 124 || b == 126
    ||| (48 <= b && b <= 57)
    ||| (65 <= b && b <= 90)
    ||| (97 <= b && b <= 122)
}

/// The longest header name the map accepts.
pub const MAX_HEADER_NAME_LEN: usize = 65535;

/// The number of distinct names below which adding a header never exhausts
/// the map's table.
pub const MAX_HEADER_NAMES: usize = 6553;

/// A valid header name: one to `MAX_HEADER_NAME_LEN` `tchar` bytes.
pub open spec fn is_header_name(n: Seq<u8>) -> bool {
    &&& 1 <= n.len() <= MAX_HEADER_NAME_LEN
    &&& forall|i: int| 0 <= i < n.len() ==> is_tchar(#[trigger] n[i])
}

/// A valid header value byte: any byte from 32 up but 127, and tab.
pub open spec fn is_value_byte(b: u8) -> bool {
    (b >= 32 && b != 127) || b == 9
}

/// A valid header value.
pub open spec fn is_header_value(v: Seq<u8>) -> bool {
    forall|i: int| 0 <= i < v.len() ==> is_value_byte(#[trigger] v[i])
}

/// A header value that reads as visible ASCII text (and tab).
pub open spec fn is_visible_value(v: Seq<u8>) -> bool {
    forall|i: int| 0 <= i < v.len() ==> ((32 <= #[trigger] v[i] && v[i] < 127) || v[i] == 9)
}

/// The lower-case form of an ASCII byte.
pub open spec fn lower_byte(b: u8) -> u8 {
    if 65 <= b && b <= 90 {
        (b + 32) as u8
    } else {
        b
    }
}

/// The lower-case form of a header name.
pub open spec fn lower_bytes(n: Seq<u8>) -> Seq<u8> {
    n.map_values(|b: u8| lower_byte(b))
}

/// The contents of an empty header map.
pub open spec fn no_headers() -> Map<Seq<u8>, Seq<Seq<u8>>> {
    Map::empty()
}

/// Whether one more name fits in the map.
pub open spec fn has_room(m: HeaderMap) -> bool {
    header_entries(m).dom().finite() && header_entries(m).dom().len() < MAX_HEADER_NAMES
}

/// `HeaderMap::new`: an empty map.
#[verifier::external_body]
pub(crate) fn header_map_new() -> (r: HeaderMap)
    ensures
        header_entries(r) == no_headers(),
{
    HeaderMap::new()
}

/// `HeaderMap::insert` of a name and a value made from bytes with
/// `HeaderName::from_bytes` and `HeaderValue::from_bytes`: the name (in lower
/// case) then holds exactly that one value; other names are unchanged. The
/// name and value must be valid and the map must have room, which is when
/// those conversions and the insertion succeed.
#[verifier::external_body]
pub(crate) fn header_map_insert(m: &mut HeaderMap, name: &[u8], value: &[u8])
    requires
        is_header_name(name@),
        is_header_value(value@),
        has_room(*old(m)),
    ensures
        header_entries(*final(m)) == header_entries(*old(m)).insert(
            lower_bytes(name@),
            seq![value@],
        ),
{
    m.insert(HeaderName::from_bytes(name).unwrap(), HeaderValue::from_bytes(value).unwrap());
}

/// `HeaderMap::remove` of a name: the name no longer has values; other names
/// are unchanged.
#[verifier::external_body]
pub(crate) fn header_map_remove(m: &mut HeaderMap, name: &[u8])
    requires
        is_header_name(name@),
    ensures
        header_entries(*final(m)) == header_entries(*old(m)).remove(lower_bytes(name@)),
{
    m.remove(HeaderName::from_bytes(name).unwrap());
}

/// `HeaderMap::contains_key` of a name.
#[verifier::external_body]
pub(crate) fn header_map_contains(m: &HeaderMap, name: &[u8]) -> (r: bool)
    requires
        is_header_name(name@),
    ensures
        r == header_entries(*m).dom().contains(lower_bytes(name@)),
{
    m.contains_key(HeaderName::from_bytes(name).unwrap())
}

/// `HeaderMap::get_all` of a name: the bytes of each of its values, in
/// order, or none when the name is absent.
#[verifier::external_body]
pub(crate) fn header_map_get_all(m: &HeaderMap, name: &[u8]) -> (r: Vec<Vec<u8>>)
    requires
        is_header_name(name@),
    ensures
        header_entries(*m).dom().contains(lower_bytes(name@)) ==> r@.map_values(
            |v: Vec<u8>| v@,
        ) == header_entries(*m)[lower_bytes(name@)],
        !header_entries(*m).dom().contains(lower_bytes(name@)) ==> r@.len() == 0,
{
    m.get_all(HeaderName::from_bytes(name).unwrap()).iter().map(|v| v.as_bytes().to_vec()).collect()
}

/// The number of names in a header table; a table with infinitely many
/// names (which no map holds) counts as -1.
pub open spec fn name_count(h: Map<Seq<u8>, Seq<Seq<u8>>>) -> int {
    if h.dom().finite() {
        h.dom().len() as int
    } else {
        -1
    }
}

/// `HeaderMap::keys_len`: the number of distinct names.
#[verifier::external_body]
pub(crate) fn header_map_names_len(m: &HeaderMap) -> (r: usize)
    ensures
        r == name_count(header_entries(*m)),
{
    m.keys_len()
}


/// Whether `b` is a `tchar`.
pub fn is_tchar_exec(b: u8) -> (r: bool)
    ensures
        r == is_tchar(b),
{
    b == 33 || b == 35 || b == 36 || b == 37 || b == 38 || b == 39 || b == 42 || b == 43 || b == 45
        || b == 46 || b == 94 || b == 95 || b == 96 || b == 124 || b == 126 || (48 <= b && b <= 57)
        || (65 <= b && b <= 90) || (97 <= b && b <= 122)
}

/// Whether `n` is a valid header name.
pub fn is_header_name_exec(n: &[u8]) -> (r: bool)
    ensures
        r == is_header_name(n@),
{
    if n.len() == 0 || n.len() > MAX_HEADER_NAME_LEN {
        return false;
    }
    let mut i: usize = 0;
    while i < n.len()
        invariant
            i <= n@.len(),
            forall|j: int| 0 <= j < i ==> is_tchar(#[trigger] n@[j]),
        decreases n@.len() - i,
    {
        if !is_tchar_exec(n[i]) {
            return false;
        }
        i = i + 1;
    }
    true
}

/// Whether `v` is a valid header value.
pub fn is_header_value_exec(v: &[u8]) -> (r: bool)
    ensures
        r == is_header_value(v@),
{
    let mut i: usize = 0;
    while i < v.len()
        invariant
            i <= v@.len(),
            forall|j: int| 0 <= j < i ==> is_value_byte(#[trigger] v@[j]),
        decreases v@.len() - i,
    {
        if !((v[i] >= 32 && v[i] != 127) || v[i] == 9) {
            assert(!is_value_byte(v@[i as int]));
            return false;
        }
        i = i + 1;
    }
    true
}

/// Whether `v` is visible ASCII text.
pub fn is_visible_value_exec(v: &[u8]) -> (r: bool)
    ensures
        r == is_visible_value(v@),
{
    let mut i: usize = 0;
    while i < v.len()
        invariant
            i <= v@.len(),
            forall|j: int| 0 <= j < i ==> ((32 <= #[trigger] v@[j] && v@[j] < 127) || v@[j] == 9),
        decreases v@.len() - i,
    {
        if !((v[i] >= 32 && v[i] < 127) || v[i] == 9) {
            return false;
        }
        i = i + 1;
    }
    true
}

} // verus!
