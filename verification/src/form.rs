//! Request forms: URL-encoded forms and multipart forms. Fields keep the
//! order in which they were first set; setting a field again replaces its
//! value in place.
use crate::text::string_of;
use indexmap::IndexMap;
use rand::distr::SampleString;
use std::hash::RandomState;
use vstd::prelude::*;
use vstd::utf8::encode_utf8;

verus! {

/// The insertion-ordered map of the `indexmap` crate.
#[verifier::external_type_specification]
#[verifier::external_body]
#[verifier::reject_recursive_types(K)]
#[verifier::reject_recursive_types(V)]
#[verifier::reject_recursive_types(S)]
pub struct ExIndexMap<K, V, S>(IndexMap<K, V, S>);

/// The fields an ordered map holds: its keys and values, in order.
pub uninterp spec fn form_fields(m: IndexMap<String, String, RandomState>) -> Seq<(Seq<char>, Seq<char>)>;

/// Position of the first field with key `k`, or the number of fields.
pub open spec fn key_pos(f: Seq<(Seq<char>, Seq<char>)>, k: Seq<char>, i: int) -> int
    decreases f.len() - i,
{
    if i < 0 || i >= f.len() {
        f.len() as int
    } else if f[i].0 == k {
        i
    } else {
        key_pos(f, k, i + 1)
    }
}

/// Setting field `k` to `v`: an existing key keeps its place and takes the
/// new value; a new key goes last.
pub open spec fn fields_insert(f: Seq<(Seq<char>, Seq<char>)>, k: Seq<char>, v: Seq<char>) -> Seq<
    (Seq<char>, Seq<char>),
> {
    let p = key_pos(f, k, 0);
    if p < f.len() {
        f.update(p, (f[p].0, v))
    } else {
        f.push((k, v))
    }
}

/// No fields.
pub open spec fn no_fields() -> Seq<(Seq<char>, Seq<char>)> {
    Seq::empty()
}

/// `IndexMap::new`: an empty map.
#[verifier::external_body]
fn index_map_new() -> (r: IndexMap<String, String, RandomState>)
    ensures
        form_fields(r) == no_fields(),
{
    IndexMap::new()
}

/// `IndexMap::insert`: an existing key keeps its place and takes the new
/// value; a new key is added last.
#[verifier::external_body]
fn index_map_insert(m: &mut IndexMap<String, String, RandomState>, k: String, v: String)
    ensures
        form_fields(*final(m)) == fields_insert(form_fields(*old(m)), k@, v@),
{
    m.insert(k, v);
}

/// The view of a list of string pairs.
pub open spec fn pairs_view(v: Seq<(String, String)>) -> Seq<(Seq<char>, Seq<char>)> {
    v.map_values(|p: (String, String)| (p.0@, p.1@))
}

/// `IndexMap::iter`, each key and value copied out, in order.
#[verifier::external_body]
fn index_map_entries(m: &IndexMap<String, String, RandomState>) -> (r: Vec<(String, String)>)
    ensures
        pairs_view(r@) == form_fields(*m),
{
    m.iter().map(|(k, v)| (k.clone(), v.clone())).collect()
}

/// Whether a byte is left as it is by percent-encoding: an ASCII letter or
/// digit, `-`, `.`, `_` or `~`.
pub open spec fn is_unreserved(b: u8) -> bool {
    (48 <= b && b <= 57) || (65 <= b && b <= 90) || (97 <= b && b <= 122) || b == 45 || b == 46
        || b == 95 || b == 126
}

/// An upper-case hexadecimal digit.
pub open spec fn hex_digit(d: int) -> char {
    if d < 10 {
        (48 + d) as char
    } else {
        (55 + d) as char
    }
}

/// Percent-encoding of bytes, as `urlencoding::encode` does it: every byte
/// but the unreserved ones becomes `%` and two upper-case hex digits.
pub open spec fn spec_url_encode(b: Seq<u8>) -> Seq<char>
    decreases b.len(),
{
    if b.len() == 0 {
        seq![]
    } else {
        spec_url_encode(b.drop_last()) + if is_unreserved(b.last()) {
            seq![b.last() as char]
        } else {
            seq!['%', hex_digit(b.last() as int / 16), hex_digit(b.last() as int % 16)]
        }
    }
}

/// `urlencoding::encode`.
#[verifier::external_body]
fn url_encode(s: &str) -> (r: String)
    ensures
        r@ == spec_url_encode(encode_utf8(s@)),
{
    urlencoding::encode(s).into_owned()
}

/// `key=encoded value`.
pub open spec fn encoded_pair(p: (Seq<char>, Seq<char>)) -> Seq<char> {
    p.0 + seq!['='] + spec_url_encode(encode_utf8(p.1))
}

/// The fields as `key=value` pairs joined by `&`.
pub open spec fn encoded_body(f: Seq<(Seq<char>, Seq<char>)>) -> Seq<char>
    decreases f.len(),
{
    if f.len() == 0 {
        seq![]
    } else if f.len() == 1 {
        encoded_pair(f[0])
    } else {
        encoded_body(f.drop_last()) + seq!['&'] + encoded_pair(f.last())
    }
}

/// What a form is made of, as plain values.
pub struct FormView {
    /// Whether it is a multipart form.
    pub multipart: bool,
    /// The fields, in order.
    pub fields: Seq<(Seq<char>, Seq<char>)>,
    /// The multipart boundary (empty for an encoded form).
    pub boundary: Seq<char>,
}

/// The file behind a multipart field whose value names a file, as read by
/// the caller: its file name, if the path has one, and its content.
pub struct FilePart {
    pub file_name: Option<String>,
    pub content: Vec<u8>,
}

/// The view of a file part.
pub open spec fn file_view(f: Option<FilePart>) -> Option<(Option<Seq<char>>, Seq<u8>)> {
    match f {
        Some(p) => Some(
            (
                match p.file_name {
                    Some(n) => Some(n@),
                    None => None,
                },
                p.content@,
            ),
        ),
        None => None,
    }
}

/// The views of the file parts.
pub open spec fn files_view(fs: Seq<Option<FilePart>>) -> Seq<Option<(Option<Seq<char>>, Seq<u8>)>> {
    fs.map_values(|f: Option<FilePart>| file_view(f))
}

/// Operations shared by the two kinds of forms.
pub trait DeboaForm: Sized {
    /// The `Content-Type` of the encoded form.
    fn content_type(&self) -> String;

    /// Sets a field.
    fn field(&mut self, key: &str, value: &str) -> &mut Self;

    /// The encoded body; `files` says, field by field, which values name a
    /// readable file and what it holds.
    fn build(self, files: &[Option<FilePart>]) -> Vec<u8>;
}

/// A form sent as `application/x-www-form-urlencoded`.
#[derive(Debug)]
pub struct EncodedForm {
    fields: IndexMap<String, String, RandomState>,
}

impl View for EncodedForm {
    type V = FormView;

    closed spec fn view(&self) -> FormView {
        FormView { multipart: false, fields: form_fields(self.fields), boundary: Seq::empty() }
    }
}

impl EncodedForm {
    /// The fields, in order.
    pub fn fields(&self) -> (r: Vec<(String, String)>)
        ensures
            pairs_view(r@) == self@.fields,
    {
        index_map_entries(&self.fields)
    }

    /// An empty form.
    pub fn builder() -> (r: Self)
        ensures
            r@ == (FormView { multipart: false, fields: no_fields(), boundary: Seq::empty() }),
            fields_distinct(r@.fields),
    {
        EncodedForm { fields: index_map_new() }
    }
}

/// `application/x-www-form-urlencoded`.
pub open spec fn encoded_content_type() -> Seq<char> {
    "application/x-www-form-urlencoded"@
}

impl DeboaForm for EncodedForm {
    fn content_type(&self) -> (r: String)
        ensures
            r@ == encoded_content_type(),
    {
        "application/x-www-form-urlencoded".to_owned()
    }

    fn field(&mut self, key: &str, value: &str) -> (r: &mut Self)
        ensures
            r@ == (FormView { fields: fields_insert(old(self)@.fields, key@, value@), ..old(self)@ }),
            fields_distinct(old(self)@.fields) ==> fields_distinct(r@.fields),
            *final(self) == *final(r),
    {
        proof {
            lemma_field_set_twice(old(self)@.fields, key@, value@, value@);
        }
        index_map_insert(&mut self.fields, key.to_owned(), value.to_owned());
        self
    }

    fn build(self, files: &[Option<FilePart>]) -> (r: Vec<u8>)
        ensures
            r@ == encode_utf8(encoded_body(self@.fields)),
    {
        let entries = index_map_entries(&self.fields);
        let ghost f = self@.fields;
        let mut out: Vec<char> = Vec::new();
        let mut i: usize = 0;
        while i < entries.len()
            invariant
                pairs_view(entries@) == f,
                i <= entries@.len(),
                out@ == encoded_body(f.take(i as int)),
            decreases entries@.len() - i,
        {
            let k = crate::text::chars_of(entries[i].0.as_str());
            let enc = url_encode(entries[i].1.as_str());
            let e = crate::text::chars_of(enc.as_str());
            let ghost before = out@;
            if i > 0 {
                out.push('&');
            }
            let mut j: usize = 0;
            while j < k.len()
                invariant
                    j <= k@.len(),
                    out@ == (if i > 0 { before.push('&') } else { before }) + k@.take(j as int),
                decreases k@.len() - j,
            {
                out.push(k[j]);
                j = j + 1;
            }
            out.push('=');
            let mut j: usize = 0;
            let ghost mid = out@;
            while j < e.len()
                invariant
                    j <= e@.len(),
                    out@ == mid + e@.take(j as int),
                decreases e@.len() - j,
            {
                out.push(e[j]);
                j = j + 1;
            }
            proof {
                assert(f.take(i + 1).drop_last() =~= f.take(i as int));
                assert(f.take(i + 1).last() == f[i as int]);
                assert(f[i as int] == (entries@[i as int].0@, entries@[i as int].1@));
                assert(k@.take(k@.len() as int) =~= k@);
                assert(e@.take(e@.len() as int) =~= e@);
                if i == 0 {
                    assert(f.take(1)[0] == f[0]);
                    assert(out@ =~= encoded_pair(f[0]));
                } else {
                    assert(out@ =~= encoded_body(f.take(i as int)) + seq!['&'] + encoded_pair(
                        f[i as int],
                    ));
                }
            }
            i = i + 1;
        }
        proof {
            assert(f.take(f.len() as int) =~= f);
        }
        let s = string_of(out.as_slice());
        vstd::slice::slice_to_vec(s.as_str().as_bytes())
    }
}


/// The MIME type that `minimime::lookup_by_filename` gives for a file name,
/// by its extension. The extension is found by `Path::extension`, whose
/// separators are those of the platform the crate is built for.
pub uninterp spec fn spec_mime_type(file_name: Seq<char>) -> Option<Seq<char>>;

/// `minimime::lookup_by_filename`, keeping the content type.
#[verifier::external_body]
fn mime_type_for(file_name: &str) -> (r: Option<String>)
    ensures
        match r {
            Some(t) => spec_mime_type(file_name@) == Some(t@),
            None => spec_mime_type(file_name@) is None,
        },
{
    minimime::lookup_by_filename(file_name).map(|info| info.content_type)
}

/// An ASCII letter or digit.
pub open spec fn is_alnum(c: char) -> bool {
    ('0' <= c && c <= '9') || ('A' <= c && c <= 'Z') || ('a' <= c && c <= 'z')
}

/// `n` characters drawn by `rand` from the `Alphanumeric` distribution with
/// the thread-local generator. Only their number and their alphabet are
/// stated: the characters themselves are random.
#[verifier::external_body]
fn random_alphanumeric(n: usize) -> (r: String)
    ensures
        r@.len() == n,
        forall|i: int| 0 <= i < r@.len() ==> is_alnum(#[trigger] r@[i]),
{
    rand::distr::Alphanumeric.sample_string(&mut rand::rng(), n)
}

/// A form sent as `multipart/form-data`.
#[derive(Debug)]
pub struct MultiPartForm {
    fields: IndexMap<String, String, RandomState>,
    boundary: String,
}

impl MultiPartForm {
    /// The boundary is printable ASCII without spaces.
    #[verifier::type_invariant]
    spec fn boundary_inv(self) -> bool {
        crate::url::is_graphic_ascii(self.boundary@)
    }
}

impl View for MultiPartForm {
    type V = FormView;

    closed spec fn view(&self) -> FormView {
        FormView { multipart: true, fields: form_fields(self.fields), boundary: self.boundary@ }
    }
}

/// The boundary prefix.
pub open spec fn boundary_prefix() -> Seq<char> {
    "DeboaFormBdry"@
}

/// `\r\n`.
pub open spec fn crlf() -> Seq<u8> {
    encode_utf8("\r\n"@)
}

/// The part of a plain field.
pub open spec fn text_part(key: Seq<char>, value: Seq<char>) -> Seq<u8> {
    encode_utf8("Content-Disposition: form-data; name=\""@) + encode_utf8(key) + encode_utf8(
        "\""@,
    ) + crlf() + crlf() + encode_utf8(value) + crlf()
}

/// The part of a file field: written only when the file name has a known
/// MIME type and the path has a file name.
pub open spec fn file_part(key: Seq<char>, value: Seq<char>, file: (Option<Seq<char>>, Seq<u8>)) -> Seq<
    u8,
> {
    match (spec_mime_type(value), file.0) {
        (Some(ct), Some(name)) => encode_utf8("Content-Disposition: form-data; name=\""@)
            + encode_utf8(key) + encode_utf8("\"; filename=\""@) + encode_utf8(name)
            + encode_utf8("\""@) + crlf() + encode_utf8("Content-Type: "@) + encode_utf8(ct)
            + encode_utf8("\r\n"@) + crlf() + file.1 + crlf(),
        _ => Seq::empty(),
    }
}

/// The boundary line after a part: `--` and the boundary, then `--` after
/// the part of the last key.
pub open spec fn part_end(boundary: Seq<char>, last: bool) -> Seq<u8> {
    encode_utf8("--"@) + encode_utf8(boundary) + if last {
        encode_utf8("--\r\n"@)
    } else {
        crlf()
    }
}

/// The parts of the first `n` fields.
pub open spec fn multipart_parts(
    f: Seq<(Seq<char>, Seq<char>)>,
    files: Seq<Option<(Option<Seq<char>>, Seq<u8>)>>,
    boundary: Seq<char>,
    n: int,
) -> Seq<u8>
    decreases n,
{
    if n <= 0 {
        Seq::empty()
    } else {
        multipart_parts(f, files, boundary, n - 1) + match files[n - 1] {
            Some(file) => file_part(f[n - 1].0, f[n - 1].1, file),
            None => text_part(f[n - 1].0, f[n - 1].1),
        } + part_end(boundary, f[n - 1].0 == f.last().0)
    }
}

/// The body of a multipart form.
pub open spec fn multipart_body(
    f: Seq<(Seq<char>, Seq<char>)>,
    files: Seq<Option<(Option<Seq<char>>, Seq<u8>)>>,
    boundary: Seq<char>,
) -> Seq<u8> {
    encode_utf8("--"@) + encode_utf8(boundary) + crlf() + multipart_parts(
        f,
        files,
        boundary,
        f.len() as int,
    )
}

/// Appends `b` to `out`.
fn push_bytes(out: &mut Vec<u8>, b: &[u8])
    ensures
        final(out)@ == old(out)@ + b@,
{
    let mut t = vstd::slice::slice_to_vec(b);
    out.append(&mut t);
}

impl MultiPartForm {
    /// An empty form with a fresh boundary: `DeboaFormBdry` and ten random
    /// letters and digits.
    pub fn builder() -> (r: Self)
        ensures
            r@.multipart,
            r@.fields == no_fields(),
            fields_distinct(r@.fields),
            r@.boundary.len() == 23,
            r@.boundary.take(13) == boundary_prefix(),
            forall|i: int| 13 <= i < 23 ==> is_alnum(#[trigger] r@.boundary[i]),
    {
        let suffix = random_alphanumeric(10);
        let mut boundary = "DeboaFormBdry".to_owned();
        boundary.append(suffix.as_str());
        proof {
            reveal_strlit("DeboaFormBdry");
            assert(boundary@.take(13) =~= boundary_prefix());
            assert(crate::url::is_graphic_ascii(boundary@)) by {
                assert forall|i: int| 0 <= i < boundary@.len() implies ('!' <= #[trigger] boundary@[i]
                    && boundary@[i] <= '~') by {
                    if i >= 13 {
                        assert(boundary@[i] == suffix@[i - 13]);
                    }
                }
            }
            assert forall|i: int| 13 <= i < 23 implies is_alnum(#[trigger] boundary@[i]) by {
                assert(boundary@[i] == suffix@[i - 13]);
            }
        }
        MultiPartForm { fields: index_map_new(), boundary }
    }

    /// Adds a file field: `path` names the file to send.
    pub fn file(self, key: &str, path: &str) -> (r: Self)
        ensures
            r@ == (FormView { fields: fields_insert(self@.fields, key@, path@), ..self@ }),
            fields_distinct(self@.fields) ==> fields_distinct(r@.fields),
    {
        let mut f = self;
        proof {
            use_type_invariant(&f);
            lemma_field_set_twice(self@.fields, key@, path@, path@);
        }
        let mut fields = index_map_new();
        std::mem::swap(&mut fields, &mut f.fields);
        index_map_insert(&mut fields, key.to_owned(), path.to_owned());
        f.fields = fields;
        f
    }

    /// The fields, in order.
    pub fn fields(&self) -> (r: Vec<(String, String)>)
        ensures
            pairs_view(r@) == self@.fields,
    {
        index_map_entries(&self.fields)
    }

    /// The boundary.
    pub fn boundary(&self) -> (r: String)
        ensures
            r@ == self@.boundary,
    {
        self.boundary.clone()
    }
}

/// `multipart/form-data; boundary=` and the boundary.
pub open spec fn multipart_content_type(boundary: Seq<char>) -> Seq<char> {
    "multipart/form-data; boundary="@ + boundary
}

impl DeboaForm for MultiPartForm {
    fn content_type(&self) -> (r: String)
        ensures
            r@ == multipart_content_type(self@.boundary),
    {
        let mut s = "multipart/form-data; boundary=".to_owned();
        s.append(self.boundary.as_str());
        s
    }

    fn field(&mut self, key: &str, value: &str) -> (r: &mut Self)
        ensures
            r@ == (FormView { fields: fields_insert(old(self)@.fields, key@, value@), ..old(self)@ }),
            fields_distinct(old(self)@.fields) ==> fields_distinct(r@.fields),
            *final(self) == *final(r),
    {
        proof {
            use_type_invariant(&*self);
            lemma_field_set_twice(old(self)@.fields, key@, value@, value@);
        }
        let mut fields = index_map_new();
        std::mem::swap(&mut fields, &mut self.fields);
        index_map_insert(&mut fields, key.to_owned(), value.to_owned());
        self.fields = fields;
        self
    }

    fn build(self, files: &[Option<FilePart>]) -> (r: Vec<u8>)
        ensures
            files@.len() == self@.fields.len() ==> r@ == multipart_body(
                self@.fields,
                files_view(files@),
                self@.boundary,
            ),
    {
        let entries = index_map_entries(&self.fields);
        let ghost f = self@.fields;
        let ghost fv = files_view(files@);
        let b = self.boundary.as_str().as_bytes();
        let mut out: Vec<u8> = Vec::new();
        push_bytes(&mut out, "--".as_bytes());
        push_bytes(&mut out, b);
        push_bytes(&mut out, "\r\n".as_bytes());
        if files.len() != entries.len() {
            return out;
        }
        let n = entries.len();
        let ghost head = out@;
        let mut i: usize = 0;
        while i < n
            invariant
                pairs_view(entries@) == f,
                n == entries@.len(),
                files@.len() == n,
                fv == files_view(files@),
                b@ == encode_utf8(self@.boundary),
                i <= n,
                out@ == head + multipart_parts(f, fv, self@.boundary, i as int),
            decreases n - i,
        {
            let key = entries[i].0.as_str();
            let value = entries[i].1.as_str();
            let ghost before = out@;
            let ghost kv = f[i as int];
            assert(kv == (key@, value@));
            match &files[i] {
                Some(fp) => {
                    assert(fv[i as int] == file_view(Some(*fp)));
                    write_file_part(&mut out, key, value, fp);
                },
                None => {
                    assert(fv[i as int] is None);
                    write_text_part(&mut out, key, value);
                },
            }
            let is_last = entries[i].0 == entries[n - 1].0;
            proof {
                assert(f.last() == f[n - 1]);
                assert(is_last == (kv.0 == f.last().0));
            }
            let ghost mid = out@;
            write_part_end(&mut out, b, Ghost(self@.boundary), is_last);
            proof {
                assert(out@ =~= head + multipart_parts(f, fv, self@.boundary, i + 1));
            }
            i = i + 1;
        }
        out
    }
}

/// Appends the part of a plain field.
fn write_text_part(out: &mut Vec<u8>, key: &str, value: &str)
    ensures
        final(out)@ == old(out)@ + text_part(key@, value@),
{
    push_bytes(out, "Content-Disposition: form-data; name=\"".as_bytes());
    push_bytes(out, key.as_bytes());
    push_bytes(out, "\"".as_bytes());
    push_bytes(out, "\r\n".as_bytes());
    push_bytes(out, "\r\n".as_bytes());
    push_bytes(out, value.as_bytes());
    push_bytes(out, "\r\n".as_bytes());
    assert(final(out)@ =~= old(out)@ + text_part(key@, value@));
}

/// Appends the part of a file field.
fn write_file_part(out: &mut Vec<u8>, key: &str, value: &str, fp: &FilePart)
    ensures
        final(out)@ == old(out)@ + file_part(key@, value@, file_view(Some(*fp))->0),
{
    let ghost file = file_view(Some(*fp))->0;
    match mime_type_for(value) {
        Some(ct) => match &fp.file_name {
            Some(name) => {
                push_bytes(out, "Content-Disposition: form-data; name=\"".as_bytes());
                push_bytes(out, key.as_bytes());
                push_bytes(out, "\"; filename=\"".as_bytes());
                push_bytes(out, name.as_str().as_bytes());
                push_bytes(out, "\"".as_bytes());
                push_bytes(out, "\r\n".as_bytes());
                push_bytes(out, "Content-Type: ".as_bytes());
                push_bytes(out, ct.as_str().as_bytes());
                push_bytes(out, "\r\n".as_bytes());
                push_bytes(out, "\r\n".as_bytes());
                push_bytes(out, fp.content.as_slice());
                push_bytes(out, "\r\n".as_bytes());
                assert(final(out)@ =~= old(out)@ + file_part(key@, value@, file));
            },
            None => {
                assert(file_part(key@, value@, file) =~= Seq::<u8>::empty());
                assert(final(out)@ =~= old(out)@ + file_part(key@, value@, file));
            },
        },
        None => {
            assert(file_part(key@, value@, file) =~= Seq::<u8>::empty());
            assert(final(out)@ =~= old(out)@ + file_part(key@, value@, file));
        },
    }
}

/// Appends the boundary line after a part.
fn write_part_end(out: &mut Vec<u8>, b: &[u8], boundary: Ghost<Seq<char>>, last: bool)
    requires
        b@ == encode_utf8(boundary@),
    ensures
        final(out)@ == old(out)@ + part_end(boundary@, last),
{
    push_bytes(out, "--".as_bytes());
    push_bytes(out, b);
    if last {
        push_bytes(out, "--\r\n".as_bytes());
    } else {
        push_bytes(out, "\r\n".as_bytes());
    }
    assert(final(out)@ =~= old(out)@ + part_end(boundary@, last));
}


/// A form of either kind.
#[derive(Debug)]
pub enum Form {
    EncodedForm(EncodedForm),
    MultiPartForm(MultiPartForm),
}

impl View for Form {
    type V = FormView;

    open spec fn view(&self) -> FormView {
        match self {
            Form::EncodedForm(f) => f@,
            Form::MultiPartForm(f) => f@,
        }
    }
}

/// The `Content-Type` of a form.
pub open spec fn form_content_type(v: FormView) -> Seq<char> {
    if v.multipart {
        multipart_content_type(v.boundary)
    } else {
        encoded_content_type()
    }
}

/// The body of a form, given what each field's file holds.
pub open spec fn form_body(v: FormView, files: Seq<Option<(Option<Seq<char>>, Seq<u8>)>>) -> Seq<u8> {
    if v.multipart {
        multipart_body(v.fields, files, v.boundary)
    } else {
        encode_utf8(encoded_body(v.fields))
    }
}

/// Whether the file facts fit a form: one per field of a multipart form.
pub open spec fn files_fit(v: FormView, files: Seq<Option<FilePart>>) -> bool {
    v.multipart ==> files.len() == v.fields.len()
}

/// A content type made of printable ASCII.
pub open spec fn printable(s: Seq<char>) -> bool {
    forall|i: int| 0 <= i < s.len() ==> ' ' <= #[trigger] s[i] && s[i] <= '~'
}

impl Form {
    /// The `Content-Type` of the form.
    pub fn content_type(&self) -> (r: String)
        ensures
            r@ == form_content_type(self@),
            printable(r@),
    {
        match self {
            Form::EncodedForm(f) => {
                let r = f.content_type();
                proof {
                    reveal_strlit("application/x-www-form-urlencoded");
                }
                r
            },
            Form::MultiPartForm(f) => {
                proof {
                    use_type_invariant(f);
                    reveal_strlit("multipart/form-data; boundary=");
                }
                let r = f.content_type();
                proof {
                    let lit = "multipart/form-data; boundary="@;
                    assert forall|i: int| 0 <= i < r@.len() implies ' ' <= #[trigger] r@[i] && r@[i]
                        <= '~' by {
                        if i >= lit.len() {
                            assert(r@[i] == f@.boundary[i - lit.len()]);
                        }
                    }
                }
                r
            },
        }
    }

    /// The encoded body.
    pub fn build(self, files: &[Option<FilePart>]) -> (r: Vec<u8>)
        requires
            files_fit(self@, files@),
        ensures
            r@ == form_body(self@, files_view(files@)),
    {
        match self {
            Form::EncodedForm(f) => f.build(files),
            Form::MultiPartForm(f) => f.build(files),
        }
    }
}


/// `key_pos` gives the first position from `i` whose key is `k`.
pub proof fn lemma_key_pos(f: Seq<(Seq<char>, Seq<char>)>, k: Seq<char>, i: int)
    requires
        0 <= i <= f.len(),
    ensures
        i <= key_pos(f, k, i) <= f.len(),
        key_pos(f, k, i) < f.len() ==> f[key_pos(f, k, i)].0 == k,
        forall|j: int| i <= j < key_pos(f, k, i) ==> #[trigger] f[j].0 != k,
    decreases f.len() - i,
{
    if i < f.len() && f[i].0 != k {
        lemma_key_pos(f, k, i + 1);
    }
}

/// A position with key `k` and no `k` before it is `key_pos`.
pub proof fn lemma_key_pos_is(f: Seq<(Seq<char>, Seq<char>)>, k: Seq<char>, i: int, p: int)
    requires
        0 <= i <= p <= f.len(),
        p < f.len() ==> f[p].0 == k,
        forall|j: int| i <= j < p ==> #[trigger] f[j].0 != k,
    ensures
        key_pos(f, k, i) == p,
    decreases p - i,
{
    if i < p {
        lemma_key_pos_is(f, k, i + 1, p);
    }
}

/// Whether no key occurs twice among the fields.
pub open spec fn fields_distinct(f: Seq<(Seq<char>, Seq<char>)>) -> bool {
    forall|a: int, b: int| 0 <= a < b < f.len() ==> #[trigger] f[a].0 != #[trigger] f[b].0
}

/// Setting a field keeps every key once, and setting it again replaces the
/// value in place: the form is as if only the last value had been set.
pub proof fn lemma_field_set_twice(f: Seq<(Seq<char>, Seq<char>)>, k: Seq<char>, v1: Seq<char>, v2: Seq<char>)
    ensures
        fields_distinct(f) ==> fields_distinct(fields_insert(f, k, v1)),
        fields_insert(fields_insert(f, k, v1), k, v2) == fields_insert(f, k, v2),
        key_pos(fields_insert(f, k, v1), k, 0) < fields_insert(f, k, v1).len(),
        fields_insert(f, k, v1)[key_pos(fields_insert(f, k, v1), k, 0)] == (k, v1),
{
    lemma_key_pos(f, k, 0);
    let p = key_pos(f, k, 0);
    let g = fields_insert(f, k, v1);
    if p < f.len() {
        assert forall|j: int| 0 <= j < p implies #[trigger] g[j].0 != k by {
            assert(g[j] == f[j]);
        }
        lemma_key_pos_is(g, k, 0, p);
        assert(fields_insert(g, k, v2) =~= fields_insert(f, k, v2));
    } else {
        assert forall|j: int| 0 <= j < f.len() implies #[trigger] g[j].0 != k by {
            assert(g[j] == f[j]);
        }
        lemma_key_pos_is(g, k, 0, f.len() as int);
        assert(fields_insert(g, k, v2) =~= fields_insert(f, k, v2));
    }
    if fields_distinct(f) {
        assert forall|a: int, b: int| 0 <= a < b < g.len() implies #[trigger] g[a].0 != #[trigger] g[b].0 by {
            if a != p && b != p {
                assert(g[a] == f[a] && g[b] == f[b]);
            } else if a == p {
                assert(g[b] == f[b]);
                if p == f.len() {
                    assert(false);
                }
            } else {
                assert(g[a] == f[a]);
                assert(a < p);
            }
        }
    }
}


impl From<EncodedForm> for Form {
    fn from(val: EncodedForm) -> (r: Form) {
        Form::EncodedForm(val)
    }
}

impl vstd::std_specs::convert::FromSpecImpl<EncodedForm> for Form {
    open spec fn obeys_from_spec() -> bool {
        true
    }

    open spec fn from_spec(val: EncodedForm) -> Form {
        Form::EncodedForm(val)
    }
}

impl From<MultiPartForm> for Form {
    fn from(val: MultiPartForm) -> (r: Form) {
        Form::MultiPartForm(val)
    }
}

impl vstd::std_specs::convert::FromSpecImpl<MultiPartForm> for Form {
    open spec fn obeys_from_spec() -> bool {
        true
    }

    open spec fn from_spec(val: MultiPartForm) -> Form {
        Form::MultiPartForm(val)
    }
}


/// The encoded body writes every field as its key, `=` and its
/// percent-encoded value (the empty value too), joined by `&`: the last
/// field comes after the others and a `&`.
pub proof fn lemma_encoded_body_fields(f: Seq<(Seq<char>, Seq<char>)>)
    requires
        f.len() >= 1,
    ensures
        f.len() == 1 ==> encoded_body(f) == f[0].0 + seq!['='] + spec_url_encode(
            encode_utf8(f[0].1),
        ),
        f.len() >= 2 ==> encoded_body(f) == encoded_body(f.drop_last()) + seq!['&'] + f.last().0
            + seq!['='] + spec_url_encode(encode_utf8(f.last().1)),
{
    if f.len() >= 2 {
        let a = encoded_body(f.drop_last());
        let k = f.last().0;
        let e = spec_url_encode(encode_utf8(f.last().1));
        assert(a + seq!['&'] + (k + seq!['='] + e) =~= a + seq!['&'] + k + seq!['='] + e);
    }
}

/// Percent-encoded text holds neither `=` nor `&`, so the separators of an
/// encoded body are exactly those written between keys and values and
/// between fields.
pub proof fn lemma_url_encode_no_separators(b: Seq<u8>)
    ensures
        forall|i: int|
            0 <= i < spec_url_encode(b).len() ==> #[trigger] spec_url_encode(b)[i] != '='
                && spec_url_encode(b)[i] != '&',
    decreases b.len(),
{
    if b.len() > 0 {
        lemma_url_encode_no_separators(b.drop_last());
        let x = b.last();
        let prev = spec_url_encode(b.drop_last());
        let tail = if is_unreserved(x) {
            seq![x as char]
        } else {
            seq!['%', hex_digit(x as int / 16), hex_digit(x as int % 16)]
        };
        assert(spec_url_encode(b) == prev + tail);
        if is_unreserved(x) {
            assert((x as char) != '=' && (x as char) != '&') by {
                assert(x != 61u8 && x != 38u8);
            }
        } else {
            assert(hex_digit(x as int / 16) != '=' && hex_digit(x as int / 16) != '&');
            assert(hex_digit(x as int % 16) != '=' && hex_digit(x as int % 16) != '&');
        }
        assert forall|i: int| 0 <= i < spec_url_encode(b).len() implies #[trigger] spec_url_encode(
            b,
        )[i] != '=' && spec_url_encode(b)[i] != '&' by {
            if i < prev.len() {
                assert(spec_url_encode(b)[i] == prev[i]);
            } else {
                assert(spec_url_encode(b)[i] == tail[i - prev.len()]);
            }
        }
    }
}

/// The part written for field `i` of a multipart form: its file part when
/// a file was read for that field, its text part otherwise.
pub open spec fn field_part(
    f: Seq<(Seq<char>, Seq<char>)>,
    files: Seq<Option<(Option<Seq<char>>, Seq<u8>)>>,
    i: int,
) -> Seq<u8> {
    match files[i] {
        Some(file) => file_part(f[i].0, f[i].1, file),
        None => text_part(f[i].0, f[i].1),
    }
}

/// The parts of the first `i + 1` fields are those of the first `i`, then
/// the part of field `i`, chosen by `files[i]` alone, then its boundary.
pub proof fn lemma_multipart_step(
    f: Seq<(Seq<char>, Seq<char>)>,
    files: Seq<Option<(Option<Seq<char>>, Seq<u8>)>>,
    boundary: Seq<char>,
    i: int,
)
    requires
        0 <= i,
    ensures
        multipart_parts(f, files, boundary, i + 1) == multipart_parts(f, files, boundary, i)
            + field_part(f, files, i) + part_end(boundary, f[i].0 == f.last().0),
        files[i] matches Some(x) ==> field_part(f, files, i) == file_part(f[i].0, f[i].1, x),
        files[i] is None ==> field_part(f, files, i) == text_part(f[i].0, f[i].1),
{
}

/// The parts of fewer fields begin the parts of more.
pub proof fn lemma_multipart_prefix(
    f: Seq<(Seq<char>, Seq<char>)>,
    files: Seq<Option<(Option<Seq<char>>, Seq<u8>)>>,
    boundary: Seq<char>,
    i: int,
    j: int,
)
    requires
        0 <= i <= j,
    ensures
        multipart_parts(f, files, boundary, i).len() <= multipart_parts(f, files, boundary, j).len(),
        multipart_parts(f, files, boundary, j).subrange(
            0,
            multipart_parts(f, files, boundary, i).len() as int,
        ) == multipart_parts(f, files, boundary, i),
    decreases j - i,
{
    if i < j {
        lemma_multipart_prefix(f, files, boundary, i, j - 1);
        lemma_multipart_step(f, files, boundary, j - 1);
        let a = multipart_parts(f, files, boundary, i);
        let b = multipart_parts(f, files, boundary, j - 1);
        let c = multipart_parts(f, files, boundary, j);
        assert(c.subrange(0, b.len() as int) =~= b);
        assert(c.subrange(0, a.len() as int) =~= b.subrange(0, a.len() as int));
    } else {
        let a = multipart_parts(f, files, boundary, i);
        assert(a.subrange(0, a.len() as int) =~= a);
    }
}

/// The body of a multipart form holds, for every field `i`, the part of
/// that field right after the parts of the fields before it: the file part
/// when a file was read for field `i`, the text part when none was,
/// whatever was read for the other fields.
pub proof fn lemma_multipart_body_part(
    f: Seq<(Seq<char>, Seq<char>)>,
    files: Seq<Option<(Option<Seq<char>>, Seq<u8>)>>,
    boundary: Seq<char>,
    i: int,
)
    requires
        0 <= i < f.len(),
    ensures
        ({
            let o = (encode_utf8("--"@) + encode_utf8(boundary) + crlf()).len() as int
                + multipart_parts(f, files, boundary, i).len() as int;
            let body = multipart_body(f, files, boundary);
            &&& o + field_part(f, files, i).len() <= body.len()
            &&& body.subrange(o, o + field_part(f, files, i).len()) == field_part(f, files, i)
            &&& files[i] matches Some(x) ==> body.subrange(
                o,
                o + file_part(f[i].0, f[i].1, x).len(),
            ) == file_part(f[i].0, f[i].1, x)
            &&& files[i] is None ==> body.subrange(o, o + text_part(f[i].0, f[i].1).len())
                == text_part(f[i].0, f[i].1)
        }),
{
    let h = encode_utf8("--"@) + encode_utf8(boundary) + crlf();
    let a = multipart_parts(f, files, boundary, i);
    let c = multipart_parts(f, files, boundary, i + 1);
    let all = multipart_parts(f, files, boundary, f.len() as int);
    let p = field_part(f, files, i);
    lemma_multipart_step(f, files, boundary, i);
    lemma_multipart_prefix(f, files, boundary, i + 1, f.len() as int);
    let body = multipart_body(f, files, boundary);
    assert(body == h + all);
    let o = h.len() as int + a.len() as int;
    let q = a.len() as int + p.len() as int;
    assert(c.subrange(a.len() as int, q) =~= p);
    assert(all.subrange(0, c.len() as int) == c);
    assert(body.subrange(o, o + p.len()) =~= c.subrange(a.len() as int, q)) by {
        assert forall|t: int| 0 <= t < p.len() implies body.subrange(o, o + p.len())[t] == c.subrange(
            a.len() as int,
            q,
        )[t] by {
            assert(body[o + t] == all[a.len() + t]);
            assert(all.subrange(0, c.len() as int)[a.len() + t] == all[a.len() + t]);
        }
    }
}

} // verus!
