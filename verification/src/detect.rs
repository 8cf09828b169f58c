//! Telling text from binary content, and decoding text content, from the first bytes
//! of a file and a list of fallback encodings.
use vstd::prelude::*;
use vstd::utf8::decode_utf8;
use vstd::utf8::encode_utf8;
use vstd::utf8::valid_utf8;
use crate::encoding::decode;
use crate::encoding::decode_result;
use crate::encoding::encoding_for_bom;
use crate::encoding::encoding_for_label;
use crate::encoding::has_bom;
use crate::encoding::label_encoding;
use crate::encoding::decode_utf16;
use crate::encoding::utf16_decode_result;
use crate::encoding::utf8_lossy;
use crate::encoding::utf8_lossy_text;
use crate::encoding::utf8_text;
use crate::text::chars_of;

verus! {

broadcast use vstd::string::group_string_axioms;

/// A character that does not belong in text: NUL, U+FFFD, C0 controls other than
/// tab, line feed, form feed and carriage return, DEL, C1 controls, surrogates, and
/// the Unicode noncharacters.
pub open spec fn is_bad_char(c: char) -> bool {
    let u = c as u32;
    u == 0 || u == 0xFFFD || (u <= 0x1F && !(u == 0x09 || u == 0x0A || u == 0x0C || u == 0x0D))
        || u == 0x7F || (0x80 <= u && u <= 0x9F) || (0xD800 <= u && u <= 0xDFFF) || (0xFDD0 <= u
        && u <= 0xFDEF) || (u & 0xFFFE) == 0xFFFE
}

/// How many characters of `s` are bad.
pub open spec fn bad_count(s: Seq<char>) -> nat
    decreases s.len(),
{
    if s.len() == 0 {
        0
    } else {
        bad_count(s.drop_last()) + if is_bad_char(s.last()) { 1nat } else { 0nat }
    }
}

/// Text is meaningful when it is empty or at most a tenth of its characters are bad.
pub open spec fn meaningful(s: Seq<char>) -> bool {
    s.len() == 0 || bad_count(s) * 10 <= s.len()
}

fn is_bad(c: char) -> (r: bool)
    ensures
        r == is_bad_char(c),
{
    let u = c as u32;
    u == 0 || u == 0xFFFD || (u <= 0x1F && !(u == 0x09 || u == 0x0A || u == 0x0C || u == 0x0D))
        || u == 0x7F || (0x80 <= u && u <= 0x9F) || (0xD800 <= u && u <= 0xDFFF) || (0xFDD0 <= u
        && u <= 0xFDEF) || (u & 0xFFFE) == 0xFFFE
}

/// Whether text is meaningful: empty, or at most a tenth of its characters bad.
pub fn is_meaningful_text(s: &str) -> (r: bool)
    ensures
        r == meaningful(s@),
{
    let cs = chars_of(s);
    let total = cs.len();
    if total == 0 {
        return true;
    }
    let mut bad: usize = 0;
    let mut i: usize = 0;
    while i < total
        invariant
            i <= total == cs@.len(),
            bad == bad_count(cs@.take(i as int)),
            bad <= i,
        decreases total - i,
    {
        assert(cs@.take(i + 1).drop_last() == cs@.take(i as int));
        if is_bad(cs[i]) {
            bad += 1;
        }
        i += 1;
    }
    assert(cs@.take(i as int) == cs@);
    bad <= total / 10
}

/// How many of the first `n` byte pairs look like UTF-16LE ASCII (`x 00`, `x != 0`).
pub open spec fn le_pairs(b: Seq<u8>, n: int) -> nat
    decreases n,
{
    if n <= 0 {
        0
    } else {
        le_pairs(b, n - 1) + if b[2 * (n - 1)] != 0 && b[2 * (n - 1) + 1] == 0 { 1nat } else { 0nat }
    }
}

/// How many of the first `n` byte pairs look like UTF-16BE ASCII (`00 x`, `x != 0`).
pub open spec fn be_pairs(b: Seq<u8>, n: int) -> nat
    decreases n,
{
    if n <= 0 {
        0
    } else {
        be_pairs(b, n - 1) + if b[2 * (n - 1)] == 0 && b[2 * (n - 1) + 1] != 0 { 1nat } else { 0nat }
    }
}

/// `u8::is_ascii_graphic` or `u8::is_ascii_whitespace`, and not NUL.
pub open spec fn printable_byte(c: u8) -> bool {
    c != 0 && ((0x21 <= c && c <= 0x7E) || c == 0x20 || c == 0x09 || c == 0x0A || c == 0x0C || c
        == 0x0D)
}

/// How many of the first `n` byte pairs hold a printable byte at `offset` (0 or 1).
pub open spec fn printable_pairs(b: Seq<u8>, n: int, offset: int) -> nat
    decreases n,
{
    if n <= 0 {
        0
    } else {
        printable_pairs(b, n - 1, offset) + if printable_byte(b[2 * (n - 1) + offset]) { 1nat } else { 0nat }
    }
}

pub open spec fn min(a: int, b: int) -> int {
    if a <= b { a } else { b }
}

/// Whether the bytes look like UTF-16 without a BOM: an even length of at least four;
/// among the first 4096 pairs at least a quarter look like ASCII in one byte order,
/// that order wins more than fivefold; the bytes decode in it without errors; and more
/// than a quarter of the first 4096 bytes are printable low bytes.
pub open spec fn looks_utf16(b: Seq<u8>) -> bool {
    let pairs = b.len() / 2;
    let n = min(pairs as int, 4096);
    let le = le_pairs(b, n);
    let be = be_pairs(b, n);
    let check_len = min(b.len() as int, 4096);
    if b.len() < 4 || b.len() % 2 != 0 || pairs < 2 {
        false
    } else if le + be < n / 4 {
        false
    } else if le > be * 5 {
        !utf16_decode_result(true, b).1 && printable_pairs(b, check_len / 2, 0)
            > check_len / 4
    } else if be > le * 5 {
        !utf16_decode_result(false, b).1 && printable_pairs(b, check_len / 2, 1)
            > check_len / 4
    } else {
        false
    }
}

fn count_pairs(bytes: &[u8], n: usize) -> (r: (usize, usize))
    requires
        2 * n <= bytes.len(),
        n <= 4096,
    ensures
        r.0 == le_pairs(bytes@, n as int),
        r.1 == be_pairs(bytes@, n as int),
        r.0 <= n,
        r.1 <= n,
{
    let mut le: usize = 0;
    let mut be: usize = 0;
    let mut i: usize = 0;
    while i < n
        invariant
            i <= n <= 4096,
            2 * n <= bytes.len(),
            le == le_pairs(bytes@, i as int),
            be == be_pairs(bytes@, i as int),
            le <= i,
            be <= i,
        decreases n - i,
    {
        let lo = bytes[2 * i];
        let hi = bytes[2 * i + 1];
        if lo != 0 && hi == 0 {
            le += 1;
        } else if lo == 0 && hi != 0 {
            be += 1;
        }
        i += 1;
    }
    (le, be)
}

fn count_printable(bytes: &[u8], n: usize, offset: usize) -> (r: usize)
    requires
        2 * n <= bytes.len(),
        offset <= 1,
        n <= 4096,
    ensures
        r == printable_pairs(bytes@, n as int, offset as int),
{
    let mut count: usize = 0;
    let mut i: usize = 0;
    while i < n
        invariant
            i <= n <= 4096,
            2 * n <= bytes.len(),
            offset <= 1,
            count == printable_pairs(bytes@, i as int, offset as int),
            count <= i,
        decreases n - i,
    {
        let c = bytes[2 * i + offset];
        if c != 0 && ((0x21 <= c && c <= 0x7E) || c == 0x20 || c == 0x09 || c == 0x0A || c == 0x0C
            || c == 0x0D) {
            count += 1;
        }
        i += 1;
    }
    count
}

/// Whether the bytes look like UTF-16 without a BOM (see [`looks_utf16`]).
pub fn is_utf16_no_bom(bytes: &[u8]) -> (r: bool)
    ensures
        r == looks_utf16(bytes@),
{
    if bytes.len() < 4 || bytes.len() % 2 != 0 {
        return false;
    }
    let pairs = bytes.len() / 2;
    if pairs < 2 {
        return false;
    }
    let n = if pairs < 4096 { pairs } else { 4096 };
    let (le_score, be_score) = count_pairs(bytes, n);
    let total = le_score + be_score;
    if total < n / 4 {
        return false;
    }
    let is_le: bool;
    if le_score > be_score * 5 {
        is_le = true;
    } else if be_score > le_score * 5 {
        is_le = false;
    } else {
        return false;
    }
    let (_, had_errors) = decode_utf16(is_le, bytes);
    if had_errors {
        return false;
    }
    let check_len = if bytes.len() < 4096 { bytes.len() } else { 4096 };
    let printable = count_printable(bytes, check_len / 2, if is_le { 0 } else { 1 });
    printable > check_len / 4
}

/// How many of the first `n` four-byte groups look like UTF-32LE ASCII (`x 00 00 00`).
pub open spec fn le_quads(b: Seq<u8>, n: int) -> nat
    decreases n,
{
    if n <= 0 {
        0
    } else {
        let i = 4 * (n - 1);
        le_quads(b, n - 1) + if b[i] != 0 && b[i + 1] == 0 && b[i + 2] == 0 && b[i + 3] == 0 { 1nat } else { 0nat }
    }
}

/// How many of the first `n` four-byte groups look like UTF-32BE ASCII (`00 00 00 x`).
pub open spec fn be_quads(b: Seq<u8>, n: int) -> nat
    decreases n,
{
    if n <= 0 {
        0
    } else {
        let i = 4 * (n - 1);
        be_quads(b, n - 1) + if b[i] == 0 && b[i + 1] == 0 && b[i + 2] == 0 && b[i + 3] != 0 { 1nat } else { 0nat }
    }
}

/// Whether the bytes look like UTF-32 without a BOM: a length that is a multiple of
/// four, at least eight; among the first 2048 groups more than a quarter look like
/// ASCII, and one byte order wins more than threefold.
pub open spec fn looks_utf32(b: Seq<u8>) -> bool {
    let quads = b.len() / 4;
    let check = min(quads as int, 2048);
    let le = le_quads(b, check);
    let be = be_quads(b, check);
    if b.len() < 8 || b.len() % 4 != 0 || quads < 2 {
        false
    } else {
        le + be > check / 4 && (le > be * 3 || be > le * 3)
    }
}

/// Whether the bytes look like UTF-32 without a BOM (see [`looks_utf32`]).
pub fn is_utf32_no_bom(bytes: &[u8]) -> (r: bool)
    ensures
        r == looks_utf32(bytes@),
{
    if bytes.len() < 8 || bytes.len() % 4 != 0 {
        return false;
    }
    let quads = bytes.len() / 4;
    if quads < 2 {
        return false;
    }
    let check = if quads < 2048 { quads } else { 2048 };
    let mut le_score: usize = 0;
    let mut be_score: usize = 0;
    let mut i: usize = 0;
    while i < check
        invariant
            i <= check <= 2048,
            4 * check <= bytes.len(),
            le_score == le_quads(bytes@, i as int),
            be_score == be_quads(bytes@, i as int),
            le_score <= i,
            be_score <= i,
        decreases check - i,
    {
        let b0 = bytes[4 * i];
        let b1 = bytes[4 * i + 1];
        let b2 = bytes[4 * i + 2];
        let b3 = bytes[4 * i + 3];
        if b0 != 0 && b1 == 0 && b2 == 0 && b3 == 0 {
            le_score += 1;
        }
        if b0 == 0 && b1 == 0 && b2 == 0 && b3 != 0 {
            be_score += 1;
        }
        i += 1;
    }
    let total = le_score + be_score;
    total > check / 4 && (le_score > be_score * 3 || be_score > le_score * 3)
}

/// ASCII letters in lower case; other characters unchanged.
pub open spec fn ascii_lower(s: Seq<char>) -> Seq<char> {
    s.map_values(|c: char| if 'A' <= c && c <= 'Z' { (((c as u32) + 32) as u8) as char } else { c })
}

/// `str::eq_ignore_ascii_case`.
pub open spec fn eq_ignore_ascii_case(a: Seq<char>, b: Seq<char>) -> bool {
    ascii_lower(a) == ascii_lower(b)
}

/// A label that names UTF-8 in one of the two spellings that are skipped because
/// UTF-8 is always tried first.
pub open spec fn is_utf8_label(l: Seq<char>) -> bool {
    eq_ignore_ascii_case(l, "UTF-8"@) || eq_ignore_ascii_case(l, "utf8"@)
}

/// What decoding `b` with the encoding that label `l` names gives: `None` when the
/// label is one of the UTF-8 spellings or names no encoding.
pub open spec fn label_decoding(l: Seq<char>, b: Seq<u8>) -> Option<(Seq<char>, bool)> {
    if is_utf8_label(l) {
        None
    } else {
        match label_encoding(encode_utf8(l)) {
            Some(e) => Some(decode_result(e, b)),
            None => None,
        }
    }
}

/// Some label decodes `b` without errors to meaningful text.
pub open spec fn some_label_reads_as_text(labels: Seq<Seq<char>>, b: Seq<u8>) -> bool
    decreases labels.len(),
{
    if labels.len() == 0 {
        false
    } else {
        (match label_decoding(labels[0], b) {
            Some((text, had_errors)) => !had_errors && meaningful(text),
            None => false,
        }) || some_label_reads_as_text(labels.skip(1), b)
    }
}

/// The text of the first label that decodes `b` without errors.
pub open spec fn first_clean_decoding(labels: Seq<Seq<char>>, b: Seq<u8>) -> Option<Seq<char>>
    decreases labels.len(),
{
    if labels.len() == 0 {
        None
    } else {
        match label_decoding(labels[0], b) {
            Some((text, false)) => Some(text),
            _ => first_clean_decoding(labels.skip(1), b),
        }
    }
}

/// Whether the first bytes of a file show text: empty; a BOM; UTF-16 or UTF-32
/// without BOM; otherwise no NUL byte and meaningful text as UTF-8, as some
/// fallback encoding decoding without errors, or as lossy UTF-8.
pub open spec fn is_text_spec(b: Seq<u8>, labels: Seq<Seq<char>>) -> bool {
    if b.len() == 0 || has_bom(b) || looks_utf16(b) || looks_utf32(b) {
        true
    } else if b.contains(0) {
        false
    } else if valid_utf8(b) && meaningful(decode_utf8(b)) {
        true
    } else if some_label_reads_as_text(labels, b) {
        true
    } else {
        meaningful(utf8_lossy_text(b))
    }
}

/// The text of a file's content: UTF-8 when valid; otherwise the first fallback
/// encoding that decodes it without errors; otherwise lossy UTF-8.
pub open spec fn decode_text_spec(b: Seq<u8>, labels: Seq<Seq<char>>) -> Seq<char> {
    if valid_utf8(b) {
        decode_utf8(b)
    } else {
        match first_clean_decoding(labels, b) {
            Some(t) => t,
            None => utf8_lossy_text(b),
        }
    }
}

fn lower_chars(s: &Vec<char>) -> (r: Vec<char>)
    ensures
        r@ == ascii_lower(s@),
{
    let mut r: Vec<char> = Vec::new();
    let mut i: usize = 0;
    while i < s.len()
        invariant
            i <= s.len(),
            r@ == ascii_lower(s@).take(i as int),
        decreases s.len() - i,
    {
        let c = s[i];
        r.push(if 'A' <= c && c <= 'Z' { (((c as u32) + 32) as u8) as char } else { c });
        i += 1;
        assert(r@ =~= ascii_lower(s@).take(i as int));
    }
    assert(ascii_lower(s@).take(i as int) =~= ascii_lower(s@));
    r
}

fn is_utf8_label_exec(label: &str) -> (r: bool)
    ensures
        r == is_utf8_label(label@),
{
    let l = lower_chars(&chars_of(label));
    let a = lower_chars(&chars_of("UTF-8"));
    let b = lower_chars(&chars_of("utf8"));
    crate::text::chars_eq(l.as_slice(), a.as_slice()) || crate::text::chars_eq(l.as_slice(), b.as_slice())
}

/// Decodes `bytes` with the encoding that `label` names (see [`label_decoding`]).
fn decode_with_label(label: &str, bytes: &[u8]) -> (r: Option<(String, bool)>)
    ensures
        match r {
            Some((t, e)) => label_decoding(label@, bytes@) == Some((t@, e)),
            None => label_decoding(label@, bytes@) is None,
        },
{
    if is_utf8_label_exec(label) {
        return None;
    }
    match encoding_for_label(label.as_bytes()) {
        Some(encoding) => Some(decode(encoding, bytes)),
        None => None,
    }
}

/// Whether the first bytes of a file show text (see [`is_text_spec`]).
#[verifier::loop_isolation(false)]
pub fn is_text_file(bytes: &[u8], local_encodings: &Vec<String>) -> (r: bool)
    ensures
        r == is_text_spec(bytes@, local_encodings@.map_values(|s: String| s@)),
{
    let ghost labels = local_encodings@.map_values(|s: String| s@);
    if bytes.len() == 0 {
        return true;
    }
    if encoding_for_bom(bytes).is_some() {
        return true;
    }
    if is_utf16_no_bom(bytes) || is_utf32_no_bom(bytes) {
        return true;
    }
    let mut i: usize = 0;
    while i < bytes.len()
        invariant
            i <= bytes.len(),
            forall|j: int| 0 <= j < i ==> bytes@[j] != 0,
        decreases bytes.len() - i,
    {
        if bytes[i] == 0 {
            assert(bytes@.contains(0));
            return false;
        }
        i += 1;
    }
    assert(!bytes@.contains(0));
    match utf8_text(bytes) {
        Some(s) => {
            if is_meaningful_text(s.as_str()) {
                return true;
            }
        },
        None => {},
    }
    let mut k: usize = 0;
    assert(labels.skip(0) == labels);
    while k < local_encodings.len()
        invariant
            k <= local_encodings.len(),
            labels == local_encodings@.map_values(|s: String| s@),
            some_label_reads_as_text(labels, bytes@) == some_label_reads_as_text(labels.skip(k as int), bytes@),
        decreases local_encodings.len() - k,
    {
        assert(labels.skip(k as int)[0] == local_encodings@[k as int]@);
        assert(labels.skip(k as int).skip(1) == labels.skip(k + 1));
        match decode_with_label(local_encodings[k].as_str(), bytes) {
            Some((text, had_errors)) => {
                if !had_errors && is_meaningful_text(text.as_str()) {
                    return true;
                }
            },
            None => {},
        }
        k += 1;
    }
    assert(labels.skip(k as int).len() == 0);
    let lossy = utf8_lossy(bytes);
    is_meaningful_text(lossy.as_str())
}

/// The text of a file's content (see [`decode_text_spec`]).
#[verifier::loop_isolation(false)]
pub fn decode_text(bytes: &[u8], local_encodings: &Vec<String>) -> (r: String)
    ensures
        r@ == decode_text_spec(bytes@, local_encodings@.map_values(|s: String| s@)),
{
    let ghost labels = local_encodings@.map_values(|s: String| s@);
    match utf8_text(bytes) {
        Some(s) => {
            return s;
        },
        None => {},
    }
    let mut k: usize = 0;
    assert(labels.skip(0) == labels);
    while k < local_encodings.len()
        invariant
            k <= local_encodings.len(),
            labels == local_encodings@.map_values(|s: String| s@),
            first_clean_decoding(labels, bytes@) == first_clean_decoding(labels.skip(k as int), bytes@),
        decreases local_encodings.len() - k,
    {
        assert(labels.skip(k as int)[0] == local_encodings@[k as int]@);
        assert(labels.skip(k as int).skip(1) == labels.skip(k + 1));
        match decode_with_label(local_encodings[k].as_str(), bytes) {
            Some((text, had_errors)) => {
                if !had_errors {
                    return text;
                }
            },
            None => {},
        }
        k += 1;
    }
    assert(labels.skip(k as int).len() == 0);
    utf8_lossy(bytes)
}

} // verus!
