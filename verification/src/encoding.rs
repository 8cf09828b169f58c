//! Decoding bytes to text: the calls into `encoding_rs` and into std's UTF-8
//! conversions, with what the library relies on of each.
use vstd::prelude::*;
use encoding_rs::Encoding;
use vstd::utf8::decode_utf8;
use vstd::utf8::valid_utf8;

verus! {

#[verifier::external_type_specification]
#[verifier::external_body]
pub struct ExEncoding(Encoding);

/// What `Encoding::for_label` returns for a label: the encoding that the WHATWG
/// Encoding Standard assigns to it (after trimming and lower-casing), or none.
pub uninterp spec fn label_encoding(label: Seq<u8>) -> Option<&'static Encoding>;

/// What `Encoding::decode` returns for an encoding and complete input: the text
/// (malformed sequences replaced by U+FFFD, a leading BOM sniffed and removed) and
/// whether any malformed sequence was found.
pub uninterp spec fn decode_result(encoding: &'static Encoding, bytes: Seq<u8>) -> (Seq<char>, bool);

/// What `Encoding::decode` returns for `encoding_rs::UTF_16LE` (when `little_endian`)
/// or `encoding_rs::UTF_16BE` on complete input: the text (malformed sequences replaced
/// by U+FFFD, a leading BOM sniffed and removed) and whether any malformed sequence
/// was found.
pub uninterp spec fn utf16_decode_result(little_endian: bool, bytes: Seq<u8>) -> (Seq<char>, bool);

/// What `String::from_utf8_lossy` returns: the UTF-8 decoding of the bytes with each
/// maximal invalid sequence replaced by U+FFFD.
pub uninterp spec fn utf8_lossy_text(bytes: Seq<u8>) -> Seq<char>;

/// The input starts with a UTF-8, UTF-16LE or UTF-16BE byte order mark.
pub open spec fn has_bom(b: Seq<u8>) -> bool {
    ||| (b.len() >= 3 && b[0] == 0xEF && b[1] == 0xBB && b[2] == 0xBF)
    ||| (b.len() >= 2 && b[0] == 0xFF && b[1] == 0xFE)
    ||| (b.len() >= 2 && b[0] == 0xFE && b[1] == 0xFF)
}

/// `Encoding::for_bom`: finds an encoding exactly when the input starts with the BOM
/// of UTF-8 (`EF BB BF`), UTF-16LE (`FF FE`) or UTF-16BE (`FE FF`).
#[verifier::external_body]
pub(crate) fn encoding_for_bom(bytes: &[u8]) -> (r: Option<(&'static Encoding, usize)>)
    ensures
        r is Some <==> has_bom(bytes@),
{
    Encoding::for_bom(bytes)
}

/// `Encoding::for_label`: the encoding for a label, named by [`label_encoding`].
#[verifier::external_body]
pub(crate) fn encoding_for_label(label: &[u8]) -> (r: Option<&'static Encoding>)
    ensures
        r == label_encoding(label@),
{
    Encoding::for_label(label)
}

/// `Encoding::decode`: the text and the malformed-input flag, named by [`decode_result`].
#[verifier::external_body]
pub(crate) fn decode(encoding: &'static Encoding, bytes: &[u8]) -> (r: (String, bool))
    ensures
        (r.0@, r.1) == decode_result(encoding, bytes@),
{
    let (text, _, had_errors) = encoding.decode(bytes);
    (text.into_owned(), had_errors)
}

/// `Encoding::decode` with `encoding_rs::UTF_16LE` or `encoding_rs::UTF_16BE`: the
/// text and the malformed-input flag, named by [`utf16_decode_result`].
#[verifier::external_body]
pub(crate) fn decode_utf16(little_endian: bool, bytes: &[u8]) -> (r: (String, bool))
    ensures
        (r.0@, r.1) == utf16_decode_result(little_endian, bytes@),
{
    let encoding = if little_endian { encoding_rs::UTF_16LE } else { encoding_rs::UTF_16BE };
    let (text, _, had_errors) = encoding.decode(bytes);
    (text.into_owned(), had_errors)
}

/// `std::str::from_utf8`: succeeds exactly on valid UTF-8, and then gives its characters.
#[verifier::external_body]
pub(crate) fn utf8_text(bytes: &[u8]) -> (r: Option<String>)
    ensures
        r is Some <==> valid_utf8(bytes@),
        r matches Some(s) ==> s@ == decode_utf8(bytes@),
{
    std::str::from_utf8(bytes).ok().map(|s| s.to_owned())
}

/// `String::from_utf8_lossy`: named by [`utf8_lossy_text`]; on valid UTF-8 it is the
/// plain decoding.
#[verifier::external_body]
pub(crate) fn utf8_lossy(bytes: &[u8]) -> (r: String)
    ensures
        r@ == utf8_lossy_text(bytes@),
        valid_utf8(bytes@) ==> r@ == decode_utf8(bytes@),
{
    String::from_utf8_lossy(bytes).into_owned()
}

} // verus!
