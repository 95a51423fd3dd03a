//! Lowercase hexadecimal encoding and decoding of byte strings.

use vstd::prelude::*;
use crate::text::string_push;

verus! {

/// Why a byte string is not a valid hexadecimal encoding.
#[derive(Debug, Clone, Copy, PartialEq, Eq, Structural)]
pub enum HexError {
    /// An input byte that is no hexadecimal digit, with its position.
    InvalidHexCharacter { c: char, index: usize },
    /// The input has an odd number of bytes.
    OddLength,
    /// The input does not fit a fixed-size output.
    InvalidStringLength,
}

/// The lowercase hexadecimal digit for `n < 16`.
pub open spec fn hex_char(n: int) -> char {
    seq!['0', '1', '2', '3', '4', '5', '6', '7', '8', '9', 'a', 'b', 'c', 'd', 'e', 'f'][n]
}

/// Two lowercase hexadecimal digits per byte, high nibble first.
pub open spec fn spec_hex_encode(data: Seq<u8>) -> Seq<char> {
    Seq::new(
        2 * data.len(),
        |i: int| if i % 2 == 0 { hex_char((data[i / 2] / 16) as int) } else { hex_char((data[i / 2] % 16) as int) },
    )
}

/// The characters of a hexadecimal text are decimal digits and the letters
/// `a` to `f`.
pub proof fn lemma_hex_plain(data: Seq<u8>)
    ensures
        forall|i: int|
            0 <= i < spec_hex_encode(data).len() ==> crate::data::plain_char(#[trigger] spec_hex_encode(data)[i]),
{
    let cs = spec_hex_encode(data);
    assert forall|i: int| 0 <= i < cs.len() implies crate::data::plain_char(#[trigger] cs[i]) by {
        let n = if i % 2 == 0 { (data[i / 2] / 16) as int } else { (data[i / 2] % 16) as int };
        assert(0 <= n < 16);
        assert(cs[i] == hex_char(n));
    }
}

/// The value of a hexadecimal digit (either case), if `c` is one.
pub open spec fn hex_value(c: u8) -> Option<u8> {
    if 48 <= c <= 57 {
        Some((c - 48) as u8)
    } else if 97 <= c <= 102 {
        Some((c - 87) as u8)
    } else if 65 <= c <= 70 {
        Some((c - 55) as u8)
    } else {
        None
    }
}

/// Decodes the digit pairs of `s` from position `i` on, reporting the first
/// byte that is no digit.
pub open spec fn hex_decode_from(s: Seq<u8>, i: int) -> Result<Seq<u8>, HexError>
    decreases s.len() - i,
{
    if i < 0 || i + 1 >= s.len() {
        Ok(Seq::empty())
    } else {
        match hex_value(s[i]) {
            None => Err(HexError::InvalidHexCharacter { c: s[i] as char, index: i as usize }),
            Some(hi) => match hex_value(s[i + 1]) {
                None => Err(
                    HexError::InvalidHexCharacter { c: s[i + 1] as char, index: (i + 1) as usize },
                ),
                Some(lo) => match hex_decode_from(s, i + 2) {
                    Ok(rest) => Ok(seq![(hi * 16 + lo) as u8] + rest),
                    Err(e) => Err(e),
                },
            },
        }
    }
}

/// What decoding `s` from hexadecimal gives.
pub open spec fn spec_hex_decode(s: Seq<u8>) -> Result<Seq<u8>, HexError> {
    if s.len() % 2 != 0 {
        Err(HexError::OddLength)
    } else {
        hex_decode_from(s, 0)
    }
}

/// Encodes `data` as lowercase hexadecimal.
pub fn hex_encode(data: &[u8]) -> (res: String)
    ensures
        res@ == spec_hex_encode(data@),
{
    let alphabet: [char; 16] = ['0', '1', '2', '3', '4', '5', '6', '7', '8', '9', 'a', 'b', 'c', 'd', 'e', 'f'];
    assert(alphabet@ == seq!['0', '1', '2', '3', '4', '5', '6', '7', '8', '9', 'a', 'b', 'c', 'd', 'e', 'f']);
    let mut res = String::new();
    for i in 0..data.len()
        invariant
            alphabet@ == seq!['0', '1', '2', '3', '4', '5', '6', '7', '8', '9', 'a', 'b', 'c', 'd', 'e', 'f'],
            res@ == spec_hex_encode(data@.take(i as int)),
    {
        let b = data[i];
        string_push(&mut res, alphabet[(b / 16) as usize]);
        string_push(&mut res, alphabet[(b % 16) as usize]);
        assert(res@ =~= spec_hex_encode(data@.take(i + 1)));
    }
    assert(data@.take(data@.len() as int) =~= data@);
    res
}

/// `hex::decode`: two digits (either case) per byte. An odd number of
/// bytes is refused first; otherwise the first byte that is no digit is
/// reported with its position. `hex` reports `InvalidStringLength` only
/// for fixed-size outputs, never here.
#[verifier::external_body]
pub fn hex_decode(data: &[u8]) -> (res: Result<Vec<u8>, HexError>)
    ensures
        res matches Ok(v) ==> spec_hex_decode(data@) matches Ok(w) && w == v@,
        res matches Err(e) ==> spec_hex_decode(data@) matches Err(f) && f == e,
{
    match ::hex::decode(data) {
        Ok(v) => Ok(v),
        Err(::hex::FromHexError::InvalidHexCharacter { c, index }) => Err(HexError::InvalidHexCharacter { c, index }),
        Err(::hex::FromHexError::OddLength) => Err(HexError::OddLength),
        Err(::hex::FromHexError::InvalidStringLength) => Err(HexError::InvalidStringLength),
    }
}

/// The bytes of a hexadecimal encoding are the ASCII codes of its digits.
proof fn lemma_hex_encode_bytes(data: Seq<u8>)
    ensures
        vstd::utf8::encode_utf8(spec_hex_encode(data)).len() == 2 * data.len(),
        forall|i: int|
            0 <= i < 2 * data.len() ==> #[trigger] vstd::utf8::encode_utf8(spec_hex_encode(data))[i]
                == spec_hex_encode(data)[i] as u8,
{
    let cs = spec_hex_encode(data);
    assert(vstd::utf8::is_ascii_chars(cs)) by {
        assert forall|i: int| 0 <= i < cs.len() implies '\0' <= #[trigger] cs[i] <= '\u{7f}' by {
            let n = if i % 2 == 0 { (data[i / 2] / 16) as int } else { (data[i / 2] % 16) as int };
            assert(0 <= n < 16);
        }
    }
    vstd::utf8::is_ascii_chars_encode_utf8(cs);
}

proof fn lemma_hex_decode_encoded_from(data: Seq<u8>, k: int)
    requires
        0 <= k <= data.len(),
    ensures
        hex_decode_from(vstd::utf8::encode_utf8(spec_hex_encode(data)), 2 * k) == Ok::<
            Seq<u8>,
            HexError,
        >(data.subrange(k, data.len() as int)),
    decreases data.len() - k,
{
    let s = vstd::utf8::encode_utf8(spec_hex_encode(data));
    lemma_hex_encode_bytes(data);
    if k < data.len() {
        lemma_hex_decode_encoded_from(data, k + 1);
        let b = data[k];
        let hi = b / 16;
        let lo = b % 16;
        assert(s[2 * k] == spec_hex_encode(data)[2 * k] as u8);
        assert(s[2 * k + 1] == spec_hex_encode(data)[2 * k + 1] as u8);
        assert((2 * k + 1) / 2 == k);
        assert((2 * k) / 2 == k);
        assert(hex_value(hex_char(hi as int) as u8) == Some(hi));
        assert(hex_value(hex_char(lo as int) as u8) == Some(lo));
        assert(seq![(hi * 16 + lo) as u8] + data.subrange(k + 1, data.len() as int)
            =~= data.subrange(k, data.len() as int));
    } else {
        assert(data.subrange(k, data.len() as int) =~= Seq::<u8>::empty());
    }
}

/// Decoding the bytes of a hexadecimal encoding gives back the encoded data.
pub proof fn lemma_hex_roundtrip(data: Seq<u8>)
    ensures
        spec_hex_decode(vstd::utf8::encode_utf8(spec_hex_encode(data))) == Ok::<Seq<u8>, HexError>(
            data,
        ),
{
    lemma_hex_encode_bytes(data);
    lemma_hex_decode_encoded_from(data, 0);
    assert(data.subrange(0, data.len() as int) =~= data);
}

} // verus!
