//! Text encodings used on the wire: Base64 (for `Basic` credentials) and
//! URL percent-encoding (for form fields).
use base64::engine::general_purpose::STANDARD;
use base64::Engine;
use vstd::prelude::*;

verus! {

/// The Base64 digit for a 6-bit value.
pub open spec fn b64_digit(v: int) -> char {
    if v < 26 {
        (65 + v) as char
    } else if v < 52 {
        (97 + v - 26) as char
    } else if v < 62 {
        (48 + v - 52) as char
    } else if v == 62 {
        '+'
    } else {
        '/'
    }
}

/// Standard Base64 (RFC 4648 alphabet, `=` padding) of `b`.
pub open spec fn spec_base64(b: Seq<u8>) -> Seq<char>
    decreases b.len(),
{
    if b.len() == 0 {
        seq![]
    } else {
        let x = b[0] as int;
        if b.len() == 1 {
            seq![b64_digit(x / 4), b64_digit((x % 4) * 16), '=', '=']
        } else {
            let y = b[1] as int;
            if b.len() == 2 {
                seq![b64_digit(x / 4), b64_digit((x % 4) * 16 + y / 16), b64_digit((y % 16) * 4), '=']
            } else {
                let z = b[2] as int;
                seq![
                    b64_digit(x / 4),
                    b64_digit((x % 4) * 16 + y / 16),
                    b64_digit((y % 16) * 4 + z / 64),
                    b64_digit(z % 64),
                ] + spec_base64(b.skip(3))
            }
        }
    }
}

/// `base64`'s `STANDARD.encode`: standard Base64 with padding.
#[verifier::external_body]
pub(crate) fn base64_encode(b: &[u8]) -> (r: String)
    ensures
        r@ == spec_base64(b@),
{
    STANDARD.encode(b)
}

/// Base64 text is printable ASCII.
pub proof fn lemma_base64_ascii(b: Seq<u8>)
    ensures
        forall|i: int|
            0 <= i < spec_base64(b).len() ==> ' ' <= #[trigger] spec_base64(b)[i] && spec_base64(
                b,
            )[i] <= '~',
    decreases b.len(),
{
    if b.len() >= 3 {
        lemma_base64_ascii(b.skip(3));
        let s = spec_base64(b);
        let t = spec_base64(b.skip(3));
        assert forall|i: int| 0 <= i < s.len() implies ' ' <= #[trigger] s[i] && s[i] <= '~' by {
            if i >= 4 {
                assert(s[i] == t[i - 4]);
            }
        }
    }
}

} // verus!
