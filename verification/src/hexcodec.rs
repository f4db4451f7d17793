//! Hexadecimal encoding and decoding of bytes, through the `hex` crate.
use vstd::prelude::*;
use crate::text::{digit_char, is_digit, lemma_digit_char};

verus! {

/// The hexadecimal digit for `0 <= n < 16`, in upper or lower case.
pub open spec fn hex_digit(n: int, upper: bool) -> char {
    if n < 10 {
        digit_char(n)
    } else if n == 10 {
        if upper { 'A' } else { 'a' }
    } else if n == 11 {
        if upper { 'B' } else { 'b' }
    } else if n == 12 {
        if upper { 'C' } else { 'c' }
    } else if n == 13 {
        if upper { 'D' } else { 'd' }
    } else if n == 14 {
        if upper { 'E' } else { 'e' }
    } else {
        if upper { 'F' } else { 'f' }
    }
}

/// Two hexadecimal digits per byte, high nibble first.
pub open spec fn hex_encode_spec(data: Seq<u8>, upper: bool) -> Seq<char> {
    Seq::new(
        2 * data.len(),
        |i: int|
            if i % 2 == 0 {
                hex_digit((data[i / 2] / 16) as int, upper)
            } else {
                hex_digit((data[i / 2] % 16) as int, upper)
            },
    )
}

/// Lower-case hexadecimal of `data` (`hex::encode`).
pub open spec fn hex_lower(data: Seq<u8>) -> Seq<char> {
    hex_encode_spec(data, false)
}

/// Upper-case hexadecimal of `data`.
pub open spec fn hex_upper(data: Seq<u8>) -> Seq<char> {
    hex_encode_spec(data, true)
}

/// `hex::encode`: the lower-case hexadecimal digits of `data`, two per byte,
/// high nibble first. The contract states exactly that.
#[verifier::external_body]
pub(crate) fn hex_encode(data: &[u8]) -> (r: String)
    ensures
        r@ == hex_lower(data@),
{
    hex::encode(data)
}

/// The upper-case form of a lower-case hexadecimal letter; other characters
/// are unchanged.
pub open spec fn upper_hex_char(c: char) -> char {
    if c == 'a' {
        'A'
    } else if c == 'b' {
        'B'
    } else if c == 'c' {
        'C'
    } else if c == 'd' {
        'D'
    } else if c == 'e' {
        'E'
    } else if c == 'f' {
        'F'
    } else {
        c
    }
}

/// `s` with its lower-case hexadecimal letters made upper case.
pub open spec fn upper_hex(s: Seq<char>) -> Seq<char> {
    Seq::new(s.len(), |i: int| upper_hex_char(s[i]))
}

fn upper_hex_char_exec(c: char) -> (r: char)
    ensures
        r == upper_hex_char(c),
{
    if c == 'a' {
        'A'
    } else if c == 'b' {
        'B'
    } else if c == 'c' {
        'C'
    } else if c == 'd' {
        'D'
    } else if c == 'e' {
        'E'
    } else if c == 'f' {
        'F'
    } else {
        c
    }
}

/// Executable form of [`upper_hex`].
pub fn upper_hex_chars(s: &[char]) -> (r: Vec<char>)
    ensures
        r@ == upper_hex(s@),
{
    let mut out: Vec<char> = Vec::new();
    let n = s.len();
    let mut i: usize = 0;
    while i < n
        invariant
            n == s@.len(),
            i <= n,
            out@ == Seq::new(i as nat, |k: int| upper_hex_char(s@[k])),
        decreases n - i,
    {
        out.push(upper_hex_char_exec(s[i]));
        assert(out@ =~= Seq::new((i + 1) as nat, |k: int| upper_hex_char(s@[k])));
        i = i + 1;
    }
    out
}

/// Upper-casing lower-case hexadecimal gives upper-case hexadecimal.
pub proof fn lemma_upper_of_lower_hex(data: Seq<u8>)
    ensures
        upper_hex(hex_lower(data)) == hex_upper(data),
{
    assert forall|i: int| 0 <= i < 2 * data.len() implies upper_hex_char(
        #[trigger] hex_lower(data)[i],
    ) == hex_upper(data)[i] by {
        let n = if i % 2 == 0 {
            (data[i / 2] / 16) as int
        } else {
            (data[i / 2] % 16) as int
        };
        assert(0 <= n < 16);
        lemma_digit_char_not_hex_letter(n);
    }
    assert(upper_hex(hex_lower(data)) =~= hex_upper(data));
}

proof fn lemma_digit_char_not_hex_letter(n: int)
    requires
        0 <= n < 16,
    ensures
        upper_hex_char(hex_digit(n, false)) == hex_digit(n, true),
{
    if n < 10 {
        lemma_digit_char(n);
    }
}

/// Whether `c` is a decimal digit or a hexadecimal letter of either case.
pub open spec fn is_hex_char(c: char) -> bool {
    ||| is_digit(c)
    ||| c == 'a' || c == 'b' || c == 'c' || c == 'd' || c == 'e' || c == 'f'
    ||| c == 'A' || c == 'B' || c == 'C' || c == 'D' || c == 'E' || c == 'F'
}

/// Hexadecimal digits are neither a dot nor white space, and are ASCII.
pub proof fn lemma_hex_digit_props(n: int, upper: bool)
    requires
        0 <= n < 16,
    ensures
        is_hex_char(hex_digit(n, upper)),
        hex_digit(n, upper) != '.',
        (hex_digit(n, upper) as u32) < 128,
        hex_value((hex_digit(n, upper) as u32) as u8) == n,
{
    if n < 10 {
        lemma_digit_char(n);
    }
}

// ───────────────────────────── decoding ─────────────────────────────

/// The value of one hexadecimal digit byte, or -1 for any other byte.
pub open spec fn hex_value(b: u8) -> int {
    if 48 <= b <= 57 {
        b - 48
    } else if 65 <= b <= 70 {
        b - 55
    } else if 97 <= b <= 102 {
        b - 87
    } else {
        -1
    }
}

/// Whether `s` is an even number of hexadecimal digit bytes (of either case).
pub open spec fn hex_decodable(s: Seq<u8>) -> bool {
    &&& s.len() % 2 == 0
    &&& forall|i: int| 0 <= i < s.len() ==> hex_value(#[trigger] s[i]) >= 0
}

/// The bytes written by the hexadecimal digits `s`, two digits per byte.
pub open spec fn hex_decoded(s: Seq<u8>) -> Seq<u8> {
    Seq::new(s.len() / 2, |i: int| (hex_value(s[2 * i]) * 16 + hex_value(s[2 * i + 1])) as u8)
}

#[verifier::external_type_specification]
#[verifier::external_body]
pub struct ExFromHexError(hex::FromHexError);

/// `hex::decode`: succeeds exactly when the input is an even number of
/// hexadecimal digits of either case, and then yields one byte per digit pair,
/// high nibble first. Which error variant comes back is not stated.
#[verifier::external_body]
pub(crate) fn hex_decode(data: &[u8]) -> (r: Result<Vec<u8>, hex::FromHexError>)
    ensures
        r is Ok <==> hex_decodable(data@),
        r matches Ok(v) ==> v@ == hex_decoded(data@),
{
    hex::decode(data)
}

/// Decoding the UTF-8 bytes of upper-case hexadecimal gives back the bytes.
pub proof fn lemma_decode_upper_hex(data: Seq<u8>)
    ensures
        hex_decodable(vstd::utf8::encode_utf8(hex_upper(data))),
        hex_decoded(vstd::utf8::encode_utf8(hex_upper(data))) == data,
{
    let h = hex_upper(data);
    assert forall|i: int| 0 <= i < h.len() implies '\0' <= #[trigger] h[i] <= '\u{7f}' by {
        let n = if i % 2 == 0 {
            (data[i / 2] / 16) as int
        } else {
            (data[i / 2] % 16) as int
        };
        lemma_hex_digit_props(n, true);
    }
    assert(vstd::utf8::is_ascii_chars(h));
    vstd::utf8::is_ascii_chars_encode_utf8(h);
    let b = vstd::utf8::encode_utf8(h);
    assert forall|i: int| 0 <= i < b.len() implies hex_value(#[trigger] b[i]) >= 0 by {
        assert(h[i] as u8 == b[i]);
        let n = if i % 2 == 0 {
            (data[i / 2] / 16) as int
        } else {
            (data[i / 2] % 16) as int
        };
        lemma_hex_digit_props(n, true);
    }
    assert forall|i: int| 0 <= i < data.len() implies #[trigger] hex_decoded(b)[i] == data[i] by {
        assert(h[2 * i] as u8 == b[2 * i]);
        assert(h[2 * i + 1] as u8 == b[2 * i + 1]);
        lemma_hex_digit_props((data[i] / 16) as int, true);
        lemma_hex_digit_props((data[i] % 16) as int, true);
        assert((2 * i) / 2 == i);
        assert((2 * i + 1) / 2 == i);
    }
    assert(hex_decoded(b) =~= data);
}

} // verus!
