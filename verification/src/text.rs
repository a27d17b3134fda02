//! Character-level helpers shared by the parsers: Unicode whitespace,
//! trimming, line splitting and decimal numbers.
use vstd::prelude::*;
use vstd::utf8::encode_utf8;

verus! {

/// The Unicode `White_Space` property, the set that `char::is_whitespace`,
/// `str::trim` and the `\s` class of regular expressions use.
pub open spec fn is_ws(c: char) -> bool {
    ||| ('\u{9}' <= c && c <= '\u{d}')
    ||| c == ' '
    ||| c == '\u{85}'
    ||| c == '\u{a0}'
    ||| c == '\u{1680}'
    ||| ('\u{2000}' <= c && c <= '\u{200a}')
    ||| c == '\u{2028}'
    ||| c == '\u{2029}'
    ||| c == '\u{202f}'
    ||| c == '\u{205f}'
    ||| c == '\u{3000}'
}

/// Whether `c` is a Unicode whitespace character.
pub fn is_whitespace(c: char) -> (b: bool)
    ensures
        b == is_ws(c),
{
    ('\u{9}' <= c && c <= '\u{d}') || c == ' ' || c == '\u{85}' || c == '\u{a0}' || c
        == '\u{1680}' || ('\u{2000}' <= c && c <= '\u{200a}') || c == '\u{2028}' || c
        == '\u{2029}' || c == '\u{202f}' || c == '\u{205f}' || c == '\u{3000}'
}

} // verus!

verus! {

/// Index of the first character at or after `i` that is not whitespace.
pub open spec fn lead(s: Seq<char>, i: int) -> int
    decreases s.len() - i,
{
    if 0 <= i < s.len() && is_ws(s[i]) {
        lead(s, i + 1)
    } else {
        i
    }
}

/// End of `s[lo..j]` once trailing whitespace is removed.
pub open spec fn trail(s: Seq<char>, j: int, lo: int) -> int
    decreases j - lo,
{
    if lo < j <= s.len() && is_ws(s[j - 1]) {
        trail(s, j - 1, lo)
    } else {
        j
    }
}

/// `s` without leading and trailing whitespace, as `str::trim` gives it.
pub open spec fn spec_trim(s: Seq<char>) -> Seq<char> {
    let a = lead(s, 0);
    s.subrange(a, trail(s, s.len() as int, a))
}

pub proof fn lemma_lead_bounds(s: Seq<char>, i: int)
    requires
        0 <= i <= s.len(),
    ensures
        i <= lead(s, i) <= s.len(),
    decreases s.len() - i,
{
    if i < s.len() && is_ws(s[i]) {
        lemma_lead_bounds(s, i + 1);
    }
}

pub proof fn lemma_trail_bounds(s: Seq<char>, j: int, lo: int)
    requires
        0 <= lo <= j <= s.len(),
    ensures
        lo <= trail(s, j, lo) <= j,
    decreases j - lo,
{
    if lo < j && is_ws(s[j - 1]) {
        lemma_trail_bounds(s, j - 1, lo);
    }
}

/// The bounds `(start, end)` of `s[lo..hi]` once surrounding whitespace is
/// removed; for `lo == 0` and `hi == s.len()` they are those of `str::trim`.
pub fn trim_bounds(s: &[char]) -> (r: (usize, usize))
    ensures
        r.0 == lead(s@, 0),
        r.1 == trail(s@, s@.len() as int, r.0 as int),
        r.0 <= r.1 <= s@.len(),
        s@.subrange(r.0 as int, r.1 as int) == spec_trim(s@),
{
    let mut i: usize = 0;
    while i < s.len() && is_whitespace(s[i])
        invariant
            i <= s@.len(),
            lead(s@, 0) == lead(s@, i as int),
        decreases s@.len() - i,
    {
        i = i + 1;
    }
    let mut j: usize = s.len();
    while j > i && is_whitespace(s[j - 1])
        invariant
            i <= j <= s@.len(),
            trail(s@, s@.len() as int, i as int) == trail(s@, j as int, i as int),
        decreases j - i,
    {
        j = j - 1;
    }
    (i, j)
}

/// The characters of `s`, in order.
pub fn chars_of(s: &str) -> (v: Vec<char>)
    ensures
        v@ == s@,
{
    let mut v: Vec<char> = Vec::new();
    for c in it: s.chars()
        invariant
            v@ == it.seq().take(it.index() as int),
    {
        v.push(c);
    }
    assert(v@ == s@);
    v
}

} // verus!

verus! {

/// Index of the first `c` at or after `i` in `s`, or `s.len()` when there is
/// none.
pub open spec fn find_char(s: Seq<char>, c: char, i: int) -> int
    decreases s.len() - i,
{
    if i < 0 || i >= s.len() {
        s.len() as int
    } else if s[i] == c {
        i
    } else {
        find_char(s, c, i + 1)
    }
}

/// A line without the `'\r'` that ended it.
pub open spec fn strip_cr(l: Seq<char>) -> Seq<char> {
    if l.len() > 0 && l.last() == '\r' {
        l.drop_last()
    } else {
        l
    }
}

/// The lines of `s` as `str::lines` yields them: split at `'\n'`, with a
/// `'\r'` right before the `'\n'` removed, and no empty line after a final
/// line ending.
pub open spec fn spec_lines(s: Seq<char>) -> Seq<Seq<char>>
    decreases s.len(),
{
    if s.len() == 0 {
        seq![]
    } else {
        let i = find_char(s, '\n', 0);
        if i >= s.len() {
            seq![s]
        } else {
            proof {
                lemma_find_char_bounds(s, '\n', 0);
            }
            seq![strip_cr(s.take(i))] + spec_lines(s.skip(i + 1))
        }
    }
}

pub proof fn lemma_find_char_bounds(s: Seq<char>, c: char, i: int)
    requires
        0 <= i <= s.len(),
    ensures
        i <= find_char(s, c, i) <= s.len(),
        find_char(s, c, i) < s.len() ==> s[find_char(s, c, i)] == c,
    decreases s.len() - i,
{
    if i < s.len() && s[i] != c {
        lemma_find_char_bounds(s, c, i + 1);
    }
}

pub proof fn lemma_find_char_skip(s: Seq<char>, c: char, p: int, i: int)
    requires
        0 <= p <= i <= s.len(),
    ensures
        find_char(s.skip(p), c, i - p) == find_char(s, c, i) - p,
    decreases s.len() - i,
{
    if i < s.len() && s[i] != c {
        lemma_find_char_skip(s, c, p, i + 1);
    }
}

/// The index of the first `c` in `s` at or after `from`, or `s.len()`.
pub fn find_char_from(s: &[char], c: char, from: usize) -> (r: usize)
    requires
        from <= s@.len(),
    ensures
        r == find_char(s@, c, from as int),
        from <= r <= s@.len(),
{
    let mut i = from;
    while i < s.len() && s[i] != c
        invariant
            from <= i <= s@.len(),
            find_char(s@, c, from as int) == find_char(s@, c, i as int),
        decreases s@.len() - i,
    {
        i = i + 1;
    }
    i
}

/// Copy of `s[lo..hi]`.
pub fn slice_chars(s: &[char], lo: usize, hi: usize) -> (r: Vec<char>)
    requires
        lo <= hi <= s@.len(),
    ensures
        r@ == s@.subrange(lo as int, hi as int),
{
    let mut r: Vec<char> = Vec::new();
    let mut k = lo;
    while k < hi
        invariant
            lo <= k <= hi <= s@.len(),
            r@ == s@.subrange(lo as int, k as int),
        decreases hi - k,
    {
        r.push(s[k]);
        k = k + 1;
    }
    r
}

/// The character sequences held by a vector of character vectors.
pub open spec fn char_rows(r: Seq<Vec<char>>) -> Seq<Seq<char>> {
    r.map_values(|v: Vec<char>| v@)
}

/// The lines of `s`, as `str::lines` splits them.
pub fn split_lines(s: &[char]) -> (r: Vec<Vec<char>>)
    ensures
        char_rows(r@) == spec_lines(s@),
{
    let mut r: Vec<Vec<char>> = Vec::new();
    let mut pos: usize = 0;
    assert(s@.skip(0) == s@);
    while pos < s.len()
        invariant
            pos <= s@.len(),
            char_rows(r@) + spec_lines(s@.skip(pos as int)) == spec_lines(s@),
        decreases s@.len() - pos,
    {
        let ghost rest = s@.skip(pos as int);
        let i = find_char_from(s, '\n', pos);
        proof {
            lemma_find_char_skip(s@, '\n', pos as int, pos as int);
        }
        if i >= s.len() {
            let line = slice_chars(s, pos, s.len());
            proof {
                assert(line@ == rest);
                assert(spec_lines(rest) == seq![rest]);
                assert(s@.skip(s@.len() as int) =~= Seq::<char>::empty());
            }
            let ghost old_r = char_rows(r@);
            r.push(line);
            proof {
                assert(char_rows(r@) =~= old_r.push(rest));
                assert(char_rows(r@) + spec_lines(s@.skip(s@.len() as int)) =~= old_r + spec_lines(rest));
            }
            pos = s.len();
        } else {
            let mut end = i;
            if end > pos && s[end - 1] == '\r' {
                end = end - 1;
            }
            let line = slice_chars(s, pos, end);
            let ghost old_r = char_rows(r@);
            proof {
                assert(rest.take(i - pos) =~= s@.subrange(pos as int, i as int));
                assert(line@ == strip_cr(rest.take(i - pos)));
                assert(rest.skip(i - pos + 1) =~= s@.skip(i + 1));
                assert(spec_lines(rest) == seq![strip_cr(rest.take(i - pos))] + spec_lines(
                    rest.skip(i - pos + 1),
                ));
            }
            r.push(line);
            proof {
                assert(char_rows(r@) =~= old_r.push(line@));
                assert(char_rows(r@) + spec_lines(s@.skip(i + 1)) =~= old_r + spec_lines(rest));
            }
            pos = i + 1;
        }
    }
    proof {
        assert(s@.skip(pos as int) =~= Seq::<char>::empty());
        assert(char_rows(r@) + spec_lines(s@.skip(pos as int)) =~= char_rows(r@));
    }
    r
}

} // verus!

verus! {

/// The ASCII digit for `d < 10`.
pub open spec fn digit_char(d: nat) -> char {
    ((d + 48) as u32) as char
}

/// The decimal representation of `n`, without sign or leading zeros, as
/// `to_string` writes an unsigned integer.
pub open spec fn spec_decimal(n: nat) -> Seq<char>
    decreases n,
{
    if n < 10 {
        seq![digit_char(n)]
    } else {
        spec_decimal(n / 10).push(digit_char(n % 10))
    }
}

/// Whether `c` is an ASCII decimal digit.
pub open spec fn is_digit(c: char) -> bool {
    '0' <= c && c <= '9'
}

/// Whether every character of `d` is a digit.
pub open spec fn all_digits(d: Seq<char>) -> bool {
    forall|i: int| 0 <= i < d.len() ==> is_digit(#[trigger] d[i])
}

/// The digits part of an unsigned number: `s` without one leading `'+'`.
pub open spec fn unsigned_digits(s: Seq<char>) -> Seq<char> {
    if s.len() > 0 && s[0] == '+' {
        s.drop_first()
    } else {
        s
    }
}

/// The value of a sequence of decimal digits.
pub open spec fn digits_value(d: Seq<char>) -> nat
    decreases d.len(),
{
    if d.len() == 0 {
        0
    } else {
        digits_value(d.drop_last()) * 10 + ((d.last() as u32) - 48) as nat
    }
}

/// What `str::parse::<u64>` gives: an optional `'+'` followed by at least one
/// ASCII digit and nothing else, whose value fits in a `u64`.
pub open spec fn spec_parse_u64(s: Seq<char>) -> Option<u64> {
    let d = unsigned_digits(s);
    if d.len() > 0 && all_digits(d) && digits_value(d) <= u64::MAX {
        Some(digits_value(d) as u64)
    } else {
        None
    }
}

/// The characters of `v` collected into a `String` (`Iterator::collect`).
#[verifier::external_body]
pub(crate) fn string_of(v: &[char]) -> (s: String)
    ensures
        s@ == v@,
{
    v.iter().collect::<String>()
}

/// The decimal representation of `n`.
pub fn decimal(n: usize) -> (r: Vec<char>)
    ensures
        r@ == spec_decimal(n as nat),
    decreases n,
{
    if n < 10 {
        let c = char_of_digit(n as u8);
        let mut r: Vec<char> = Vec::new();
        r.push(c);
        r
    } else {
        let mut r = decimal(n / 10);
        let c = char_of_digit((n % 10) as u8);
        r.push(c);
        r
    }
}

fn char_of_digit(d: u8) -> (c: char)
    requires
        d < 10,
    ensures
        c == digit_char(d as nat),
{
    if d == 0 { '0' }
    else if d == 1 { '1' }
    else if d == 2 { '2' }
    else if d == 3 { '3' }
    else if d == 4 { '4' }
    else if d == 5 { '5' }
    else if d == 6 { '6' }
    else if d == 7 { '7' }
    else if d == 8 { '8' }
    else { '9' }
}

/// Every character of a decimal representation is a digit.
pub proof fn lemma_decimal_digits(n: nat)
    ensures
        spec_decimal(n).len() > 0,
        forall|i: int| 0 <= i < spec_decimal(n).len() ==> is_digit(#[trigger] spec_decimal(n)[i]),
        digits_value(spec_decimal(n)) == n,
    decreases n,
{
    if n >= 10 {
        lemma_decimal_digits(n / 10);
        assert(spec_decimal(n).drop_last() =~= spec_decimal(n / 10));
        assert((digit_char(n % 10) as u32) == n % 10 + 48);
        assert(spec_decimal(n).last() == digit_char(n % 10));
        assert(digits_value(spec_decimal(n)) == digits_value(spec_decimal(n / 10)) * 10 + n % 10);
        assert((n / 10) * 10 + n % 10 == n) by (nonlinear_arith);
    } else {
        assert((digit_char(n) as u32) == n + 48);
        assert(spec_decimal(n).drop_last() =~= Seq::<char>::empty());
        assert(digits_value(Seq::<char>::empty()) == 0);
        assert(digits_value(spec_decimal(n)) == n);
    }
}

/// Parsing the decimal representation of a number gives the number back.
pub proof fn lemma_parse_decimal(n: u64)
    ensures
        spec_parse_u64(spec_decimal(n as nat)) == Some(n),
{
    lemma_decimal_digits(n as nat);
}

} // verus!

verus! {

/// A prefix of a digit sequence has at most the value of the whole.
pub proof fn lemma_digits_prefix(d: Seq<char>, k: int)
    requires
        0 <= k <= d.len(),
        forall|i: int| 0 <= i < d.len() ==> is_digit(#[trigger] d[i]),
    ensures
        digits_value(d.take(k)) <= digits_value(d),
    decreases d.len() - k,
{
    if k < d.len() {
        let e = d.drop_last();
        assert(forall|i: int| 0 <= i < e.len() ==> is_digit(#[trigger] e[i]) ) by {
            assert forall|i: int| 0 <= i < e.len() implies is_digit(#[trigger] e[i]) by {
                assert(e[i] == d[i]);
            }
        }
        lemma_digits_prefix(e, k);
        assert(e.take(k) =~= d.take(k));
    } else {
        assert(d.take(k) =~= d);
    }
}

/// `s` parsed as `str::parse::<u64>` parses it.
pub fn parse_u64(s: &[char]) -> (r: Option<u64>)
    ensures
        r == spec_parse_u64(s@),
{
    let start: usize = if s.len() > 0 && s[0] == '+' { 1 } else { 0 };
    let ghost d = unsigned_digits(s@);
    assert(d =~= s@.skip(start as int));
    if start >= s.len() {
        assert(d.len() == 0);
        return None;
    }
    let mut k = start;
    while k < s.len()
        invariant
            start <= k <= s@.len(),
            d =~= s@.skip(start as int),
            d == unsigned_digits(s@),
            forall|i: int| 0 <= i < k - start ==> is_digit(#[trigger] d[i]),
        decreases s@.len() - k,
    {
        if !('0' <= s[k] && s[k] <= '9') {
            assert(!is_digit(d[k - start]));
            assert(!all_digits(d));
            return None;
        }
        k = k + 1;
    }
    let mut acc: u64 = 0;
    let mut k = start;
    while k < s.len()
        invariant
            start <= k <= s@.len(),
            d =~= s@.skip(start as int),
            d == unsigned_digits(s@),
            forall|i: int| 0 <= i < d.len() ==> is_digit(#[trigger] d[i]),
            acc == digits_value(d.take(k - start)),
        decreases s@.len() - k,
    {
        assert(is_digit(d[k - start]));
        assert(d[k - start] == s@[k as int]);
        let dv = ((s[k] as u32) - 48) as u64;
        proof {
            assert(d.take(k - start + 1).drop_last() =~= d.take(k - start));
            assert(d.take(k - start + 1).last() == s@[k as int]);
            assert(digits_value(d.take(k - start + 1)) == acc * 10 + dv);
            lemma_digits_prefix(d, k - start + 1);
        }
        match acc.checked_mul(10) {
            None => {
                assert(digits_value(d) > u64::MAX);
                return None;
            },
            Some(m) => match m.checked_add(dv) {
                None => {
                    assert(digits_value(d) > u64::MAX);
                    return None;
                },
                Some(a) => {
                    acc = a;
                },
            },
        }
        k = k + 1;
    }
    assert(d.take(d.len() as int) =~= d);
    Some(acc)
}


/// The header names read by responses are ASCII, so their UTF-8 bytes are
/// their characters.
pub proof fn lemma_ascii_bytes_of_name()
    ensures
        encode_utf8("content-length"@) == seq![99u8, 111, 110, 116, 101, 110, 116, 45, 108, 101, 110, 103, 116, 104],
        encode_utf8("content-type"@) == seq![99u8, 111, 110, 116, 101, 110, 116, 45, 116, 121, 112, 101],
{
    reveal_strlit("content-length");
    reveal_strlit("content-type");
    let a = "content-length"@;
    let b = "content-type"@;
    assert(vstd::utf8::is_ascii_chars(a));
    assert(vstd::utf8::is_ascii_chars(b));
    vstd::utf8::is_ascii_chars_encode_utf8(a);
    vstd::utf8::is_ascii_chars_encode_utf8(b);
    assert(encode_utf8(a) =~= seq![99u8, 111, 110, 116, 101, 110, 116, 45, 108, 101, 110, 103, 116, 104]);
    assert(encode_utf8(b) =~= seq![99u8, 111, 110, 116, 101, 110, 116, 45, 116, 121, 112, 101]);
}


/// With no `c` from `i` on, `find_char` gives the length.
pub proof fn lemma_find_char_absent(s: Seq<char>, c: char, i: int)
    requires
        0 <= i <= s.len(),
        forall|j: int| i <= j < s.len() ==> s[j] != c,
    ensures
        find_char(s, c, i) == s.len(),
    decreases s.len() - i,
{
    if i < s.len() {
        lemma_find_char_absent(s, c, i + 1);
    }
}

/// The first `c` from `i` on is at `k`.
pub proof fn lemma_find_char_at(s: Seq<char>, c: char, i: int, k: int)
    requires
        0 <= i <= k < s.len(),
        s[k] == c,
        forall|j: int| i <= j < k ==> s[j] != c,
    ensures
        find_char(s, c, i) == k,
    decreases k - i,
{
    if i < k {
        lemma_find_char_at(s, c, i + 1, k);
    }
}

/// Text that neither starts nor ends with whitespace is its own trim.
pub proof fn lemma_trim_clean(s: Seq<char>)
    requires
        s.len() == 0 || (!is_ws(s[0]) && !is_ws(s.last())),
    ensures
        spec_trim(s) == s,
{
    assert(lead(s, 0) == 0);
    assert(trail(s, s.len() as int, 0) == s.len());
    assert(s.subrange(0, s.len() as int) =~= s);
}

} // verus!
