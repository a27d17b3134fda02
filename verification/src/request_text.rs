//! The plain-text request format read by `DeboaRequest::from_str`:
//!
//! ```text
//! POST https://example.com/items
//! Content-Type: application/json
//!
//! {"name": "deboa"}
//! ```
//!
//! A request line is found anywhere in a line: the first position where one
//! of the words `GET POST PUT DELETE PATCH HEAD OPTIONS` is followed by
//! whitespace and then by `http://` or `https://` and at least one more
//! non-whitespace character. The URL is everything from the scheme up to the
//! next whitespace. Other lines holding a `:` are headers. After a blank line
//! that follows the URL and at least one header, the remaining non-blank
//! lines, trimmed, are the body, joined without separators.
use crate::header::{is_header_name, is_header_value, lower_bytes};
use crate::text::{find_char, is_ws, lead, spec_lines, spec_trim};
use vstd::utf8::encode_utf8;
use vstd::prelude::*;

verus! {

/// The request-line method words, in the order they are tried.
pub open spec fn line_words() -> Seq<Seq<char>> {
    seq![
        seq!['G', 'E', 'T'],
        seq!['P', 'O', 'S', 'T'],
        seq!['P', 'U', 'T'],
        seq!['D', 'E', 'L', 'E', 'T', 'E'],
        seq!['P', 'A', 'T', 'C', 'H'],
        seq!['H', 'E', 'A', 'D'],
        seq!['O', 'P', 'T', 'I', 'O', 'N', 'S'],
    ]
}

/// Whether `w` occurs in `l` at position `i`.
pub open spec fn word_at(l: Seq<char>, i: int, w: Seq<char>) -> bool {
    0 <= i && i + w.len() <= l.len() && l.subrange(i, i + w.len()) == w
}

/// The first method word (by index into `line_words`) at position `i`,
/// trying the words from index `k` on.
pub open spec fn method_word_from(l: Seq<char>, i: int, k: int) -> Option<int>
    decreases line_words().len() - k,
{
    if k < 0 || k >= line_words().len() {
        None
    } else if word_at(l, i, line_words()[k]) {
        Some(k)
    } else {
        method_word_from(l, i, k + 1)
    }
}

/// Index of the first whitespace character at or after `j`, or `l.len()`.
pub open spec fn token_end(l: Seq<char>, j: int) -> int
    decreases l.len() - j,
{
    if 0 <= j < l.len() && !is_ws(l[j]) {
        token_end(l, j + 1)
    } else {
        j
    }
}

/// `https://`.
pub open spec fn https_prefix() -> Seq<char> {
    seq!['h', 't', 't', 'p', 's', ':', '/', '/']
}

/// `http://`.
pub open spec fn http_prefix() -> Seq<char> {
    seq!['h', 't', 't', 'p', ':', '/', '/']
}

/// The request line that starts at `i`, if one does: the index of its
/// method word and the bounds of its URL.
pub open spec fn line_match_at(l: Seq<char>, i: int) -> Option<(int, int, int)> {
    match method_word_from(l, i, 0) {
        None => None,
        Some(m) => {
            let j = i + line_words()[m].len();
            let k = lead(l, j);
            if k == j {
                None
            } else {
                let p = if word_at(l, k, https_prefix()) {
                    8int
                } else if word_at(l, k, http_prefix()) {
                    7int
                } else {
                    0int
                };
                let e = token_end(l, k + p);
                if p == 0 || e == k + p {
                    None
                } else {
                    Some((m, k, e))
                }
            }
        },
    }
}

/// The leftmost request line at or after position `i`.
pub open spec fn line_match_from(l: Seq<char>, i: int) -> Option<(int, int, int)>
    decreases l.len() + 1 - i,
{
    if i < 0 || i > l.len() {
        None
    } else if line_match_at(l, i) is Some {
        line_match_at(l, i)
    } else {
        line_match_from(l, i + 1)
    }
}

/// The method word and URL of the request line in `l`, if there is one.
pub open spec fn find_request_line(l: Seq<char>) -> Option<(Seq<char>, Seq<char>)> {
    match line_match_from(l, 0) {
        Some((m, k, e)) => Some((line_words()[m], l.subrange(k, e))),
        None => None,
    }
}

/// Why reading a request text failed.
#[derive(PartialEq, Eq, Structural)]
pub enum TextError {
    /// A header line with an invalid name.
    InvalidName,
    /// A header line with an invalid value.
    InvalidValue,
}

/// Where reading a request text stands after some lines.
pub struct TextState {
    /// The method word of the last request line.
    pub method: Seq<char>,
    /// The URL of the last request line.
    pub url: Seq<char>,
    /// The headers read so far.
    pub headers: Map<Seq<u8>, Seq<Seq<u8>>>,
    /// Whether a header has been read.
    pub any_header: bool,
    /// The body read so far.
    pub body: Seq<u8>,
    /// Whether the body has started.
    pub reading: bool,
    /// The error that stopped reading, if any.
    pub error: Option<TextError>,
}

/// The state before the first line.
pub open spec fn text_start() -> TextState {
    TextState {
        method: Seq::empty(),
        url: Seq::empty(),
        headers: Map::empty(),
        any_header: false,
        body: Seq::empty(),
        reading: false,
        error: None,
    }
}

/// Reading one more line.
pub open spec fn text_step(st: TextState, raw: Seq<char>) -> TextState {
    let l = spec_trim(raw);
    if st.error is Some {
        st
    } else if !st.reading && find_request_line(l) is Some {
        let (m, u) = find_request_line(l)->0;
        TextState { method: m, url: u, ..st }
    } else if !st.reading && find_char(l, ':', 0) < l.len() {
        let i = find_char(l, ':', 0);
        let n = encode_utf8(spec_trim(l.take(i)));
        let v = encode_utf8(spec_trim(l.skip(i + 1)));
        if !is_header_name(n) {
            TextState { error: Some(TextError::InvalidName), ..st }
        } else if !is_header_value(v) {
            TextState { error: Some(TextError::InvalidValue), ..st }
        } else {
            TextState { headers: st.headers.insert(lower_bytes(n), seq![v]), any_header: true, ..st }
        }
    } else if l.len() == 0 && st.url.len() > 0 && st.any_header {
        TextState { reading: true, ..st }
    } else if st.reading {
        TextState { body: st.body + encode_utf8(l), ..st }
    } else {
        st
    }
}

/// The state after reading `lines`, in order.
pub open spec fn text_fold(lines: Seq<Seq<char>>) -> TextState
    decreases lines.len(),
{
    if lines.len() == 0 {
        text_start()
    } else {
        text_step(text_fold(lines.drop_last()), lines.last())
    }
}

/// The state after reading all lines of `s`.
pub open spec fn text_read(s: Seq<char>) -> TextState {
    text_fold(spec_lines(s))
}

} // verus!

verus! {

pub fn line_word(k: usize) -> (r: Vec<char>)
    requires
        k < 7,
    ensures
        r@ == line_words()[k as int],
{
    let v: Vec<char> = if k == 0 {
        vec!['G', 'E', 'T']
    } else if k == 1 {
        vec!['P', 'O', 'S', 'T']
    } else if k == 2 {
        vec!['P', 'U', 'T']
    } else if k == 3 {
        vec!['D', 'E', 'L', 'E', 'T', 'E']
    } else if k == 4 {
        vec!['P', 'A', 'T', 'C', 'H']
    } else if k == 5 {
        vec!['H', 'E', 'A', 'D']
    } else {
        vec!['O', 'P', 'T', 'I', 'O', 'N', 'S']
    };
    assert(v@ =~= line_words()[k as int]);
    v
}

/// Whether `w` occurs in `l` at `i`.
fn word_at_exec(l: &[char], i: usize, w: &[char]) -> (r: bool)
    ensures
        r == word_at(l@, i as int, w@),
{
    if i > l.len() || w.len() > l.len() - i {
        return false;
    }
    let mut k: usize = 0;
    while k < w.len()
        invariant
            i + w@.len() <= l@.len(),
            l@.len() == l.len(),
            w@.len() == w.len(),
            k <= w@.len(),
            forall|t: int| 0 <= t < k ==> l@[i + t] == w@[t],
        decreases w@.len() - k,
    {
        if l[i + k] != w[k] {
            assert(l@.subrange(i as int, i + w@.len())[k as int] != w@[k as int]);
            return false;
        }
        k = k + 1;
    }
    assert(l@.subrange(i as int, i + w@.len()) =~= w@);
    true
}

fn method_word_exec(l: &[char], i: usize) -> (r: Option<usize>)
    ensures
        match r {
            Some(k) => method_word_from(l@, i as int, 0) == Some(k as int) && k < 7 && word_at(
                l@,
                i as int,
                line_words()[k as int],
            ),
            None => method_word_from(l@, i as int, 0) is None,
        },
{
    let mut k: usize = 0;
    while k < 7
        invariant
            k <= 7,
            method_word_from(l@, i as int, 0) == method_word_from(l@, i as int, k as int),
        decreases 7 - k,
    {
        let w = line_word(k);
        if word_at_exec(l, i, w.as_slice()) {
            return Some(k);
        }
        k = k + 1;
    }
    None
}

fn lead_exec(l: &[char], j: usize) -> (r: usize)
    requires
        j <= l@.len(),
    ensures
        r == lead(l@, j as int),
        j <= r <= l@.len(),
{
    let mut k = j;
    while k < l.len() && crate::text::is_whitespace(l[k])
        invariant
            j <= k <= l@.len(),
            lead(l@, j as int) == lead(l@, k as int),
        decreases l@.len() - k,
    {
        k = k + 1;
    }
    k
}

fn token_end_exec(l: &[char], j: usize) -> (r: usize)
    requires
        j <= l@.len(),
    ensures
        r == token_end(l@, j as int),
        j <= r <= l@.len(),
{
    let mut k = j;
    while k < l.len() && !crate::text::is_whitespace(l[k])
        invariant
            j <= k <= l@.len(),
            token_end(l@, j as int) == token_end(l@, k as int),
        decreases l@.len() - k,
    {
        k = k + 1;
    }
    k
}

fn line_match_at_exec(l: &[char], i: usize) -> (r: Option<(usize, usize, usize)>)
    requires
        i <= l@.len(),
    ensures
        match r {
            Some((m, k, e)) => line_match_at(l@, i as int) == Some((m as int, k as int, e as int))
                && m < 7 && k <= e <= l@.len(),
            None => line_match_at(l@, i as int) is None,
        },
{
    let n = l.len();
    match method_word_exec(l, i) {
        None => None,
        Some(m) => {
            let w = line_word(m);
            assert(word_at(l@, i as int, w@));
            assert(i + w@.len() <= n);
            let j = i + w.len();
            let k = lead_exec(l, j);
            if k == j {
                return None;
            }
            let https: Vec<char> = vec!['h', 't', 't', 'p', 's', ':', '/', '/'];
            let http: Vec<char> = vec!['h', 't', 't', 'p', ':', '/', '/'];
            assert(https@ =~= https_prefix());
            assert(http@ =~= http_prefix());
            let p: usize = if word_at_exec(l, k, https.as_slice()) {
                8
            } else if word_at_exec(l, k, http.as_slice()) {
                7
            } else {
                0
            };
            if p == 0 {
                return None;
            }
            assert(k + p <= n);
            let e = token_end_exec(l, k + p);
            if e == k + p {
                None
            } else {
                Some((m, k, e))
            }
        },
    }
}

/// The leftmost request line in `l`: the index of its method word and the
/// bounds of its URL.
pub fn find_request_line_exec(l: &[char]) -> (r: Option<(usize, usize, usize)>)
    ensures
        match r {
            Some((m, k, e)) => line_match_from(l@, 0) == Some((m as int, k as int, e as int))
                && m < 7 && k <= e <= l@.len(),
            None => line_match_from(l@, 0) is None,
        },
{
    let mut i: usize = 0;
    while i < l.len()
        invariant
            i <= l@.len(),
            line_match_from(l@, 0) == line_match_from(l@, i as int),
        decreases l@.len() - i,
    {
        match line_match_at_exec(l, i) {
            Some(t) => {
                return Some(t);
            },
            None => {},
        }
        i = i + 1;
    }
    assert(line_match_from(l@, l@.len() + 1int) is None);
    line_match_at_exec(l, i)
}


/// Reading `lines.take(i + 1)` is reading `lines.take(i)` and then line `i`.
pub proof fn lemma_fold_step(lines: Seq<Seq<char>>, i: int)
    requires
        0 <= i < lines.len(),
    ensures
        text_fold(lines.take(i + 1)) == text_step(text_fold(lines.take(i)), lines[i]),
{
    assert(lines.take(i + 1).drop_last() =~= lines.take(i));
}

/// Reading more lines only adds header names, and an error, once met, stays.
pub proof fn lemma_fold_grows(lines: Seq<Seq<char>>, i: int, j: int)
    requires
        0 <= i <= j <= lines.len(),
    ensures
        text_fold(lines.take(i)).headers.dom().subset_of(text_fold(lines.take(j)).headers.dom()),
        text_fold(lines.take(i)).error is Some ==> text_fold(lines.take(j)) == text_fold(
            lines.take(i),
        ),
        text_fold(lines.take(j)).error is None ==> text_fold(lines.take(i)).error is None,
    decreases j - i,
{
    if i < j {
        lemma_fold_grows(lines, i, j - 1);
        lemma_fold_step(lines, j - 1);
    }
}

/// Once a URL has been read, the method is one of the request-line words.
pub open spec fn method_known(st: TextState) -> bool {
    st.url.len() > 0 ==> exists|k: int| 0 <= k < 7 && st.method == #[trigger] line_words()[k]
}

/// Every state reached knows its method once it has a URL.
pub proof fn lemma_fold_method(lines: Seq<Seq<char>>)
    ensures
        method_known(text_fold(lines)),
    decreases lines.len(),
{
    if lines.len() > 0 {
        lemma_fold_method(lines.drop_last());
        let st = text_fold(lines.drop_last());
        let l = spec_trim(lines.last());
        if st.error is None && !st.reading && find_request_line(l) is Some {
            let (m, k, e) = line_match_from(l, 0)->0;
            lemma_line_match(l, 0);
            let pair = find_request_line(l)->0;
            assert(line_words()[m] == pair.0);
        }
    }
}

/// A request line found has a method word and a non-empty URL.
pub proof fn lemma_line_match(l: Seq<char>, i: int)
    requires
        0 <= i,
    ensures
        line_match_from(l, i) matches Some((m, k, e)) ==> 0 <= m < 7 && 0 <= k < e <= l.len(),
    decreases l.len() + 1 - i,
{
    if i <= l.len() && line_match_at(l, i) is None {
        lemma_line_match(l, i + 1);
    }
    if i <= l.len() && line_match_at(l, i) is Some {
        lemma_method_word_range(l, i, 0);
        let m = method_word_from(l, i, 0)->0;
        let j = i + line_words()[m].len();
        crate::text::lemma_lead_bounds(l, j);
        let k = lead(l, j);
        let p = if word_at(l, k, https_prefix()) { 8int } else { 7int };
        lemma_token_end_bounds(l, k + p);
    }
}

/// The method word found is a valid index, and it occurs at `i`.
pub proof fn lemma_method_word_range(l: Seq<char>, i: int, k: int)
    requires
        0 <= k,
    ensures
        method_word_from(l, i, k) matches Some(m) ==> k <= m < 7 && word_at(l, i, line_words()[m]),
    decreases line_words().len() - k,
{
    if k < line_words().len() && !word_at(l, i, line_words()[k]) {
        lemma_method_word_range(l, i, k + 1);
    }
}

/// `token_end` stays within the line.
pub proof fn lemma_token_end_bounds(l: Seq<char>, j: int)
    requires
        0 <= j <= l.len(),
    ensures
        j <= token_end(l, j) <= l.len(),
    decreases l.len() - j,
{
    if j < l.len() && !is_ws(l[j]) {
        lemma_token_end_bounds(l, j + 1);
    }
}


/// A URL as a request line carries it: `http://` or `https://`, at least one
/// more character, and no whitespace.
pub open spec fn line_url(u: Seq<char>) -> bool {
    &&& (word_at(u, 0, https_prefix()) && u.len() > 8) || (word_at(u, 0, http_prefix()) && u.len() > 7)
    &&& forall|i: int| 0 <= i < u.len() ==> !is_ws(#[trigger] u[i])
}

/// `token_end` runs to the end of a line with no whitespace from `j` on.
pub proof fn lemma_token_end_no_ws(l: Seq<char>, j: int)
    requires
        0 <= j <= l.len(),
        forall|i: int| j <= i < l.len() ==> !is_ws(#[trigger] l[i]),
    ensures
        token_end(l, j) == l.len(),
    decreases l.len() - j,
{
    if j < l.len() {
        lemma_token_end_no_ws(l, j + 1);
    }
}

/// The request-line words differ in their first two letters.
pub proof fn lemma_words_differ(j: int, k: int)
    requires
        0 <= j < k < 7,
    ensures
        line_words()[j].len() >= 3,
        line_words()[j][0] != line_words()[k][0] || line_words()[j][1] != line_words()[k][1],
{
    let ws = line_words();
    assert(ws[0][0] == 'G' && ws[0][1] == 'E' && ws[0].len() == 3);
    assert(ws[1][0] == 'P' && ws[1][1] == 'O' && ws[1].len() == 4);
    assert(ws[2][0] == 'P' && ws[2][1] == 'U' && ws[2].len() == 3);
    assert(ws[3][0] == 'D' && ws[3][1] == 'E' && ws[3].len() == 6);
    assert(ws[4][0] == 'P' && ws[4][1] == 'A' && ws[4].len() == 5);
    assert(ws[5][0] == 'H' && ws[5][1] == 'E' && ws[5].len() == 4);
    assert(ws[6][0] == 'O' && ws[6][1] == 'P' && ws[6].len() == 7);
}

/// At the start of a line that begins with word `k`, no earlier word
/// matches.
pub proof fn lemma_first_word(l: Seq<char>, k: int, j: int)
    requires
        0 <= j < k < 7,
        word_at(l, 0, line_words()[k]),
    ensures
        !word_at(l, 0, line_words()[j]),
{
    let w = line_words()[k];
    let v = line_words()[j];
    lemma_words_differ(j, k);
    assert(w.len() >= 2) by {
        lemma_words_differ(j, k);
        if k < 6 {
            lemma_words_differ(k, 6);
        } else {
            assert(line_words()[6].len() == 7);
        }
    }
    assert(l[0] == w[0] && l[1] == w[1]) by {
        assert(l.subrange(0, w.len() as int)[0] == w[0]);
        assert(l.subrange(0, w.len() as int)[1] == w[1]);
    }
    if word_at(l, 0, v) {
        assert(l.subrange(0, v.len() as int)[0] == v[0]);
        assert(l.subrange(0, v.len() as int)[1] == v[1]);
    }
}

/// The method word found at the start of a line that begins with word `k`
/// is word `k`.
pub proof fn lemma_method_word_first(l: Seq<char>, k: int, i: int)
    requires
        0 <= i <= k < 7,
        word_at(l, 0, line_words()[k]),
    ensures
        method_word_from(l, 0, i) == Some(k),
    decreases k - i,
{
    if i < k {
        lemma_first_word(l, k, i);
        lemma_method_word_first(l, k, i + 1);
    }
}

/// A non-empty text without line breaks is one line, read in one step.
pub proof fn lemma_single_line(l: Seq<char>)
    requires
        l.len() > 0,
        forall|i: int| 0 <= i < l.len() ==> l[i] != '\n',
    ensures
        text_read(l) == text_step(text_start(), l),
{
    crate::text::lemma_find_char_absent(l, '\n', 0);
    assert(spec_lines(l) == seq![l]);
    assert(seq![l].drop_last() =~= Seq::<Seq<char>>::empty());
    assert(text_fold(Seq::<Seq<char>>::empty()) == text_start());
}

/// In a method word, a space and a URL, the request line is that word and
/// that URL.
pub proof fn lemma_find_request_line(k: int, u: Seq<char>)
    requires
        0 <= k < 7,
        line_url(u),
    ensures
        find_request_line(line_words()[k] + seq![' '] + u) == Some((line_words()[k], u)),
{
    let w = line_words()[k];
    let l = w + seq![' '] + u;
    let n = w.len() as int;
    assert(word_at(l, 0, w)) by {
        assert(l.subrange(0, n) =~= w);
    }
    lemma_method_word_first(l, k, 0);
    assert(l[n] == ' ');
    assert(l[n + 1] == u[0]);
    assert(lead(l, n + 1) == n + 1);
    assert(lead(l, n) == n + 1);
    let p = if word_at(l, n + 1, https_prefix()) { 8int } else { 7int };
    if word_at(u, 0, https_prefix()) && u.len() > 8 {
        assert(l.subrange(n + 1, n + 9) =~= u.subrange(0, 8));
    } else {
        assert(l.subrange(n + 1, n + 8) =~= u.subrange(0, 7));
        if word_at(l, n + 1, https_prefix()) {
            assert(l.subrange(n + 1, n + 9)[4] == l[n + 5]);
            assert(l.subrange(n + 1, n + 8)[4] == l[n + 5]);
        }
    }
    assert forall|i: int| n + 1 + p <= i < l.len() implies !is_ws(#[trigger] l[i]) by {
        assert(l[i] == u[i - n - 1]);
    }
    lemma_token_end_no_ws(l, n + 1 + p);
    assert(line_match_at(l, 0) == Some((k, n + 1, l.len() as int)));
    assert(line_match_from(l, 0) == Some((k, n + 1, l.len() as int)));
    assert(l.subrange(n + 1, l.len() as int) =~= u);
}

/// A text that is a single request line, a method word, a space and a URL,
/// reads as that method and URL, with no headers and no body.
pub proof fn lemma_request_line_text(k: int, u: Seq<char>)
    requires
        0 <= k < 7,
        line_url(u),
    ensures
        text_read(line_words()[k] + seq![' '] + u) == (TextState {
            method: line_words()[k],
            url: u,
            ..text_start()
        }),
{
    let w = line_words()[k];
    let l = w + seq![' '] + u;
    let n = w.len() as int;
    lemma_words_differ(0, 1);
    if k > 0 {
        lemma_words_differ(0, k);
    }
    assert(w.len() >= 3) by {
        if k < 6 {
            lemma_words_differ(k, 6);
        }
    }
    assert(!is_ws(w[0])) by {
        assert(w[0] == 'G' || w[0] == 'P' || w[0] == 'D' || w[0] == 'H' || w[0] == 'O');
    }
    assert(l[0] == w[0]);
    assert(l.last() == u.last());
    assert forall|i: int| 0 <= i < l.len() implies l[i] != '\n' by {
        if i < n {
            assert(l[i] == w[i]);
            assert(w[i] != '\n');
        } else if i > n {
            assert(l[i] == u[i - n - 1]);
        }
    }
    lemma_single_line(l);
    crate::text::lemma_trim_clean(l);
    lemma_find_request_line(k, u);
}


/// `token_end(l, j)` is where the token from `j` stops: at the first
/// whitespace character at or after `j`, or at the end of the line; no
/// character between `j` and it is whitespace.
pub proof fn lemma_token_end_stops(l: Seq<char>, j: int)
    requires
        0 <= j <= l.len(),
    ensures
        j <= token_end(l, j) <= l.len(),
        token_end(l, j) == l.len() || is_ws(l[token_end(l, j)]),
        forall|i: int| j <= i < token_end(l, j) ==> !is_ws(#[trigger] l[i]),
    decreases l.len() - j,
{
    if j < l.len() && !is_ws(l[j]) {
        lemma_token_end_stops(l, j + 1);
    }
}

/// A token that runs from `j` to a whitespace character or the end of the
/// line ends there.
pub proof fn lemma_token_end_at(l: Seq<char>, j: int, e: int)
    requires
        0 <= j <= e <= l.len(),
        e == l.len() || is_ws(l[e]),
        forall|i: int| j <= i < e ==> !is_ws(#[trigger] l[i]),
    ensures
        token_end(l, j) == e,
    decreases e - j,
{
    if j < e {
        lemma_token_end_at(l, j + 1, e);
    }
}

/// The request line found in a line has one of the method words, and a URL
/// that starts with `http://` or `https://`, has at least one more
/// character, holds no whitespace, and is followed in the line by
/// whitespace or by the line's end.
pub proof fn lemma_request_line_url(l: Seq<char>)
    ensures
        find_request_line(l) matches Some((w, u)) ==> {
            &&& exists|k: int| 0 <= k < 7 && w == #[trigger] line_words()[k]
            &&& line_url(u)
            &&& exists|p: int|
                0 <= p && p + u.len() <= l.len() && #[trigger] l.subrange(p, p + u.len()) == u && (p
                    + u.len() == l.len() || is_ws(l[p + u.len()]))
        },
{
    if find_request_line(l) is Some {
        let (m, k, e) = line_match_from(l, 0)->0;
        lemma_line_match(l, 0);
        lemma_match_from_at(l, 0);
        let i = choose|i: int| 0 <= i <= l.len() && line_match_at(l, i) == Some((m, k, e));
        let q = if word_at(l, k, https_prefix()) { 8int } else { 7int };
        lemma_method_word_range(l, i, 0);
        let j = i + line_words()[m].len();
        crate::text::lemma_lead_bounds(l, j);
        lemma_token_end_stops(l, k + q);
        let u = l.subrange(k, e);
        assert(u.len() > q);
        if q == 8 {
            assert(u.subrange(0, 8) =~= l.subrange(k, k + 8));
        } else {
            assert(u.subrange(0, 7) =~= l.subrange(k, k + 7));
        }
        assert forall|t: int| 0 <= t < u.len() implies !is_ws(#[trigger] u[t]) by {
            assert(u[t] == l[k + t]);
            if t < q {
                assert(l.subrange(k, k + q)[t] == l[k + t]);
                if q == 8 {
                    assert(https_prefix()[t] != ' ');
                } else {
                    assert(http_prefix()[t] != ' ');
                }
            }
        }
        let pair = find_request_line(l)->0;
        assert(line_words()[m] == pair.0);
        assert(pair.1 == u);
        assert(0 <= m < 7);
        assert(line_url(u));
        assert(l.subrange(k, k + u.len()) == u);
        assert(k + u.len() == e);
        assert(e == l.len() || is_ws(l[e]));
    }
}

/// The leftmost match found from `i` is a match at some position from `i`.
pub proof fn lemma_match_from_at(l: Seq<char>, i: int)
    requires
        0 <= i,
    ensures
        line_match_from(l, i) is Some ==> exists|p: int|
            i <= p <= l.len() && line_match_at(l, p) == line_match_from(l, i),
    decreases l.len() + 1 - i,
{
    if i <= l.len() && line_match_at(l, i) is None {
        lemma_match_from_at(l, i + 1);
    }
}

/// In a method word, a space, a URL, a space and any text, the request
/// line is that word and that URL: the URL stops at the whitespace after it.
pub proof fn lemma_find_request_line_then(k: int, u: Seq<char>, t: Seq<char>)
    requires
        0 <= k < 7,
        line_url(u),
    ensures
        find_request_line(line_words()[k] + seq![' '] + u + seq![' '] + t) == Some(
            (line_words()[k], u),
        ),
{
    let w = line_words()[k];
    let l = w + seq![' '] + u + seq![' '] + t;
    let n = w.len() as int;
    let e = n + 1 + u.len();
    assert(word_at(l, 0, w)) by {
        assert(l.subrange(0, n) =~= w);
    }
    lemma_method_word_first(l, k, 0);
    assert(l[n] == ' ');
    assert(l[n + 1] == u[0]);
    assert(lead(l, n + 1) == n + 1);
    assert(lead(l, n) == n + 1);
    let p = if word_at(l, n + 1, https_prefix()) { 8int } else { 7int };
    if word_at(u, 0, https_prefix()) && u.len() > 8 {
        assert(l.subrange(n + 1, n + 9) =~= u.subrange(0, 8));
    } else {
        assert(l.subrange(n + 1, n + 8) =~= u.subrange(0, 7));
        if word_at(l, n + 1, https_prefix()) {
            assert(l.subrange(n + 1, n + 9)[4] == l[n + 5]);
            assert(l.subrange(n + 1, n + 8)[4] == l[n + 5]);
        }
    }
    assert forall|i: int| n + 1 + p <= i < e implies !is_ws(#[trigger] l[i]) by {
        assert(l[i] == u[i - n - 1]);
    }
    assert(l[e] == ' ');
    lemma_token_end_at(l, n + 1 + p, e);
    assert(line_match_at(l, 0) == Some((k, n + 1, e)));
    assert(line_match_from(l, 0) == Some((k, n + 1, e)));
    assert(l.subrange(n + 1, e) =~= u);
}


/// A header line `n: v` outside the body and with no request line in it
/// stores, under the lower-cased name `n`, exactly `v` trimmed: the value is
/// everything after the first `:`, other `:` in it included.
pub proof fn lemma_header_line(st: TextState, n: Seq<char>, v: Seq<char>)
    requires
        st.error is None,
        !st.reading,
        n.len() > 0,
        !is_ws(n[0]),
        v.len() == 0 || !is_ws(v.last()),
        forall|i: int| 0 <= i < n.len() ==> n[i] != ':',
        find_request_line(n + seq![':'] + v) is None,
        is_header_name(encode_utf8(spec_trim(n))),
        is_header_value(encode_utf8(spec_trim(v))),
    ensures
        text_step(st, n + seq![':'] + v) == (TextState {
            headers: st.headers.insert(
                lower_bytes(encode_utf8(spec_trim(n))),
                seq![encode_utf8(spec_trim(v))],
            ),
            any_header: true,
            ..st
        }),
        text_step(st, n + seq![':'] + v).headers[lower_bytes(encode_utf8(spec_trim(n)))] == seq![
            encode_utf8(spec_trim(v)),
        ],
{
    let l = n + seq![':'] + v;
    assert(l[0] == n[0]);
    if v.len() > 0 {
        assert(l.last() == v.last());
    } else {
        assert(l.last() == ':');
    }
    crate::text::lemma_trim_clean(l);
    assert forall|j: int| 0 <= j < n.len() implies l[j] != ':' by {
        assert(l[j] == n[j]);
    }
    crate::text::lemma_find_char_at(l, ':', 0, n.len() as int);
    assert(l.take(n.len() as int) =~= n);
    assert(l.skip(n.len() + 1int) =~= v);
}

} // verus!
