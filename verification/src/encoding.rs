use vstd::prelude::*;

verus! {

use vstd::utf8::encode_utf8;

/// Identifier of one of the supported byte-to-text decoders.
///
/// Every decoder is total: it produces a string for any input, substituting
/// replacement characters for invalid sequences.
#[derive(Clone, Copy, Debug, PartialEq, Eq, Structural)]
pub enum EncodingId {
    Utf8,
    Utf16Le,
    Utf16Be,
    Windows1252,
}

/// The characters that `encoding_rs::UTF_8` decodes a byte sequence to.
pub uninterp spec fn utf8_decoded(bytes: Seq<u8>) -> Seq<char>;

/// The characters that `encoding_rs::UTF_16LE` decodes a byte sequence to.
pub uninterp spec fn utf16le_decoded(bytes: Seq<u8>) -> Seq<char>;

/// The characters that `encoding_rs::UTF_16BE` decodes a byte sequence to.
pub uninterp spec fn utf16be_decoded(bytes: Seq<u8>) -> Seq<char>;

/// The characters that `encoding_rs::WINDOWS_1252` decodes a byte sequence to.
pub uninterp spec fn windows1252_decoded(bytes: Seq<u8>) -> Seq<char>;

/// Whether a byte sequence is valid UTF-8, as `std::str::from_utf8` decides it.
pub uninterp spec fn is_utf8(bytes: Seq<u8>) -> bool;

/// The characters that `String::from_utf8_lossy` decodes a byte sequence to.
pub uninterp spec fn utf8_lossy(bytes: Seq<u8>) -> Seq<char>;

/// What decoding a byte sequence under the given encoding yields.
pub open spec fn decoded(enc: EncodingId, bytes: Seq<u8>) -> Seq<char> {
    match enc {
        EncodingId::Utf8 => utf8_decoded(bytes),
        EncodingId::Utf16Le => utf16le_decoded(bytes),
        EncodingId::Utf16Be => utf16be_decoded(bytes),
        EncodingId::Windows1252 => windows1252_decoded(bytes),
    }
}

/// Relies on `encoding_rs::UTF_8.decode`: a total decode whose output is a
/// function of the input bytes alone; decoding no bytes yields no characters.
#[verifier::external_body]
fn decode_utf8_rs(bytes: &[u8]) -> (r: String)
    ensures
        r@ == utf8_decoded(bytes@),
        bytes@.len() == 0 ==> r@.len() == 0,
{
    let (cow, _, _) = encoding_rs::UTF_8.decode(bytes);
    cow.into_owned()
}

/// Relies on `encoding_rs::UTF_16LE.decode`: a total decode whose output is a
/// function of the input bytes alone; decoding no bytes yields no characters.
#[verifier::external_body]
fn decode_utf16le_rs(bytes: &[u8]) -> (r: String)
    ensures
        r@ == utf16le_decoded(bytes@),
        bytes@.len() == 0 ==> r@.len() == 0,
{
    let (cow, _, _) = encoding_rs::UTF_16LE.decode(bytes);
    cow.into_owned()
}

/// Relies on `encoding_rs::UTF_16BE.decode`: a total decode whose output is a
/// function of the input bytes alone; decoding no bytes yields no characters.
#[verifier::external_body]
fn decode_utf16be_rs(bytes: &[u8]) -> (r: String)
    ensures
        r@ == utf16be_decoded(bytes@),
        bytes@.len() == 0 ==> r@.len() == 0,
{
    let (cow, _, _) = encoding_rs::UTF_16BE.decode(bytes);
    cow.into_owned()
}

/// Relies on `encoding_rs::WINDOWS_1252.decode`: a total decode whose output is
/// a function of the input bytes alone; decoding no bytes yields no characters.
#[verifier::external_body]
fn decode_windows1252_rs(bytes: &[u8]) -> (r: String)
    ensures
        r@ == windows1252_decoded(bytes@),
        bytes@.len() == 0 ==> r@.len() == 0,
{
    let (cow, _, _) = encoding_rs::WINDOWS_1252.decode(bytes);
    cow.into_owned()
}

/// Relies on `std::str::from_utf8` and `str::to_owned`: `from_utf8` succeeds
/// exactly on valid UTF-8, and then returns a string over those very bytes.
#[verifier::external_body]
pub(crate) fn utf8_to_string(bytes: &[u8]) -> (r: Option<String>)
    ensures
        r is Some <==> is_utf8(bytes@),
        r matches Some(s) ==> s@ == utf8_lossy(bytes@) && encode_utf8(s@) == bytes@,
{
    match std::str::from_utf8(bytes) {
        Ok(s) => Some(s.to_owned()),
        Err(_) => None,
    }
}

/// Relies on `String::from_utf8_lossy`: a total decode that is a function of
/// the input bytes alone, replaces invalid sequences, and returns the input's
/// own characters when the input is valid UTF-8.
#[verifier::external_body]
pub(crate) fn utf8_lossy_to_string(bytes: &[u8]) -> (r: String)
    ensures
        r@ == utf8_lossy(bytes@),
        is_utf8(bytes@) ==> encode_utf8(r@) == bytes@,
        bytes@.len() == 0 ==> r@.len() == 0,
{
    String::from_utf8_lossy(bytes).into_owned()
}

/// Decode a byte slice under the given encoding.
pub fn decode_bytes(enc: EncodingId, bytes: &[u8]) -> (r: String)
    ensures
        r@ == decoded(enc, bytes@),
        bytes@.len() == 0 ==> r@.len() == 0,
{
    match enc {
        EncodingId::Utf8 => decode_utf8_rs(bytes),
        EncodingId::Utf16Le => decode_utf16le_rs(bytes),
        EncodingId::Utf16Be => decode_utf16be_rs(bytes),
        EncodingId::Windows1252 => decode_windows1252_rs(bytes),
    }
}

/// The encoding the byte-order-mark sniff settles on: a UTF-8 mark wins, then
/// the two UTF-16 marks; otherwise valid UTF-8 stays UTF-8 and everything else
/// falls back to Windows-1252.
pub open spec fn spec_detect_encoding(bytes: Seq<u8>) -> EncodingId {
    if bytes.len() >= 3 && bytes[0] == 0xEFu8 && bytes[1] == 0xBBu8 && bytes[2] == 0xBFu8 {
        EncodingId::Utf8
    } else if bytes.len() >= 2 && bytes[0] == 0xFFu8 && bytes[1] == 0xFEu8 {
        EncodingId::Utf16Le
    } else if bytes.len() >= 2 && bytes[0] == 0xFEu8 && bytes[1] == 0xFFu8 {
        EncodingId::Utf16Be
    } else if is_utf8(bytes) {
        EncodingId::Utf8
    } else {
        EncodingId::Windows1252
    }
}

/// Sniff the byte-order mark of the first bytes of a buffer, falling back to a
/// UTF-8 validity test, and to Windows-1252 when that fails.
pub fn detect_encoding(bytes: &[u8]) -> (r: EncodingId)
    ensures
        r == spec_detect_encoding(bytes@),
{
    if bytes.len() >= 3 && bytes[0] == 0xEF && bytes[1] == 0xBB && bytes[2] == 0xBF {
        return EncodingId::Utf8;
    }
    if bytes.len() >= 2 {
        if bytes[0] == 0xFF && bytes[1] == 0xFE {
            return EncodingId::Utf16Le;
        }
        if bytes[0] == 0xFE && bytes[1] == 0xFF {
            return EncodingId::Utf16Be;
        }
    }
    if utf8_to_string(bytes).is_some() {
        EncodingId::Utf8
    } else {
        EncodingId::Windows1252
    }
}

/// The names under which the supported decoders are offered, in registry
/// order. The last entry offers Windows-1252 a second time, under the name of
/// the closely related Latin-1 encoding.
pub fn available_encodings() -> (r: Vec<(String, EncodingId)>)
    ensures
        r@.len() == 5,
        r@[0].0@ == "UTF-8"@ && r@[0].1 == EncodingId::Utf8,
        r@[1].0@ == "UTF-16 LE"@ && r@[1].1 == EncodingId::Utf16Le,
        r@[2].0@ == "UTF-16 BE"@ && r@[2].1 == EncodingId::Utf16Be,
        r@[3].0@ == "Windows-1252"@ && r@[3].1 == EncodingId::Windows1252,
        r@[4].0@ == "ISO-8859-1"@ && r@[4].1 == EncodingId::Windows1252,
{
    let mut r: Vec<(String, EncodingId)> = Vec::new();
    r.push((String::from_str("UTF-8"), EncodingId::Utf8));
    r.push((String::from_str("UTF-16 LE"), EncodingId::Utf16Le));
    r.push((String::from_str("UTF-16 BE"), EncodingId::Utf16Be));
    r.push((String::from_str("Windows-1252"), EncodingId::Windows1252));
    r.push((String::from_str("ISO-8859-1"), EncodingId::Windows1252));
    r
}

} // verus!
