use docpack::detect::decode_text;
use docpack::detect::is_meaningful_text;
use docpack::detect::is_text_file;
use docpack::detect::is_utf16_no_bom;
use docpack::detect::is_utf32_no_bom;

#[test]
fn test_is_meaningful_text_empty() {
    assert!(is_meaningful_text(""));
}

#[test]
fn test_is_meaningful_text_ascii() {
    assert!(is_meaningful_text("fn main() {}"));
}

#[test]
fn test_is_meaningful_text_cjk() {
    assert!(is_meaningful_text("你好世界"));
}

#[test]
fn test_is_meaningful_text_mixed() {
    assert!(is_meaningful_text("Hello 世界 123!"));
}

#[test]
fn test_is_meaningful_text_whitespace() {
    assert!(is_meaningful_text("line1\n\tline2\r\nline3"));
}

#[test]
fn test_is_meaningful_text_replacement() {
    assert!(!is_meaningful_text("\u{FFFD}"));
    assert!(!is_meaningful_text("good\u{FFFD}bad"));
}

#[test]
fn test_is_meaningful_text_nul() {
    assert!(!is_meaningful_text("\0"));
}

#[test]
fn test_is_meaningful_text_controls() {
    assert!(!is_meaningful_text("xxxx\x01xxxx\x02xxxx\x03"));
}

#[test]
fn test_is_meaningful_text_c1() {
    assert!(!is_meaningful_text("\u{80}\u{9F}"));
}

#[test]
fn test_is_meaningful_text_nonchar() {
    assert!(!is_meaningful_text("\u{FDD0}"));
}

#[test]
fn test_is_meaningful_text_threshold() {
    assert!(is_meaningful_text("1234567890"));
    assert!(is_meaningful_text("123456789\u{01}"));
    assert!(is_meaningful_text("1234567890\u{01}"));
    assert!(!is_meaningful_text("12345678\u{01}\u{01}"));
}

#[test]
fn test_is_meaningful_text_del() {
    assert!(!is_meaningful_text("\u{7F}"));
}

#[test]
fn test_is_meaningful_text_allowable_controls() {
    assert!(is_meaningful_text("\t\n\r\u{0C}"));
}

fn none() -> Vec<String> {
    Vec::new()
}

/// The first bytes of a file, as the caller reads them before deciding.
fn head(data: &[u8]) -> &[u8] {
    &data[..data.len().min(8192)]
}

#[test]
fn test_is_text_file_empty() {
    assert!(is_text_file(head(b""), &none()));
}

#[test]
fn test_is_text_file_ascii() {
    assert!(is_text_file(head(b"fn main() {}"), &none()));
}

#[test]
fn test_is_text_file_cjk_utf8() {
    assert!(is_text_file(head("你好世界".as_bytes()), &none()));
}

#[test]
fn test_is_text_file_utf8_bom() {
    let mut data = vec![0xEF, 0xBB, 0xBF];
    data.extend_from_slice(b"hello");
    assert!(is_text_file(head(&data), &none()));
}

#[test]
fn test_is_text_file_utf16le_bom() {
    let mut data = vec![0xFF, 0xFE];
    for &b in b"hello" {
        data.push(b);
        data.push(0x00);
    }
    assert!(is_text_file(head(&data), &none()));
}

#[test]
fn test_is_text_file_utf16be_bom() {
    let mut data = vec![0xFE, 0xFF];
    for &b in b"hello" {
        data.push(0x00);
        data.push(b);
    }
    assert!(is_text_file(head(&data), &none()));
}

#[test]
fn test_is_text_file_utf16le_no_bom() {
    let mut data = Vec::new();
    for &b in b"hello world" {
        data.push(b);
        data.push(0x00);
    }
    assert!(is_text_file(head(&data), &none()));
}

#[test]
fn test_is_text_file_utf16be_no_bom() {
    let mut data = Vec::new();
    for &b in b"hello world" {
        data.push(0x00);
        data.push(b);
    }
    assert!(is_text_file(head(&data), &none()));
}

#[test]
fn test_is_text_file_utf32le_bom() {
    let mut data = vec![0xFF, 0xFE, 0x00, 0x00];
    for &b in b"hi" {
        data.push(b);
        data.push(0x00);
        data.push(0x00);
        data.push(0x00);
    }
    assert!(is_text_file(head(&data), &none()));
}

#[test]
fn test_is_text_file_utf32be_bom() {
    let mut data = vec![0x00, 0x00, 0xFE, 0xFF];
    for &b in b"hi" {
        data.push(0x00);
        data.push(0x00);
        data.push(0x00);
        data.push(b);
    }
    assert!(is_text_file(head(&data), &none()));
}

#[test]
fn test_is_text_file_gbk() {
    let gbk: &[u8] = &[0xC4, 0xE3, 0xBA, 0xC3];
    assert!(!is_text_file(head(gbk), &none()));
    assert!(is_text_file(head(gbk), &vec!["GBK".to_string()]));
}

#[test]
fn test_is_text_file_shift_jis() {
    let sjis: &[u8] = &[0x82, 0xB1, 0x82, 0xF1, 0x82, 0xC9, 0x82, 0xBF, 0x82, 0xCD];
    assert!(!is_text_file(head(sjis), &none()));
    assert!(is_text_file(head(sjis), &vec!["Shift_JIS".to_string()]));
}

#[test]
fn test_is_text_file_binary_with_nul() {
    assert!(!is_text_file(head(&[0x00, 0x01, 0x02]), &none()));
}

#[test]
fn test_is_text_file_binary_no_nul_but_meaningless() {
    let mut data = b"abcdefghijklmnopq".to_vec();
    data.push(0x01);
    data.push(0x01);
    data.push(0x01);
    assert!(!is_text_file(head(&data), &none()));
}

#[test]
fn test_is_text_file_binary_no_nul_meaningless_gbk() {
    let garbage_gbk: Vec<u8> = (0x80..0x9A).collect();
    assert!(!is_text_file(head(&garbage_gbk), &none()));
    assert!(!is_text_file(head(&garbage_gbk), &vec!["GBK".to_string()]));
}

#[test]
fn test_is_text_file_png_header() {
    let png_header: &[u8] = &[0x89, 0x50, 0x4E, 0x47, 0x0D, 0x0A, 0x1A, 0x0A];
    assert!(!is_text_file(head(png_header), &none()));
}

#[test]
fn test_is_text_file_long_text() {
    let long_text = "Hello World!\n".repeat(1000);
    assert!(long_text.len() > 8192);
    assert!(is_text_file(head(long_text.as_bytes()), &none()));
}

#[test]
fn test_pack_is_text_file() {
    assert!(is_text_file(head(b"fn main() {}"), &none()));
    assert!(!is_text_file(head(&[0x00, 0x01, 0x02, 0x03]), &none()));
}

#[test]
fn utf16_and_utf32_without_mark() {
    let mut le16 = Vec::new();
    for &b in b"text here" {
        le16.push(b);
        le16.push(0);
    }
    assert!(is_utf16_no_bom(&le16));
    assert!(!is_utf16_no_bom(b"plain ascii text"));
    let mut be32 = Vec::new();
    for &b in b"abcd" {
        be32.extend_from_slice(&[0, 0, 0, b]);
    }
    assert!(is_utf32_no_bom(&be32));
    assert!(!is_utf32_no_bom(&le16));
}

#[test]
fn decode_text_uses_configured_encoding() {
    let gbk: &[u8] = &[0xC4, 0xE3, 0xBA, 0xC3];
    assert_eq!(decode_text(gbk, &vec!["GBK".to_string()]), "你好");
    assert_eq!(decode_text("héllo".as_bytes(), &none()), "héllo");
    let mut bom = vec![0xEF, 0xBB, 0xBF];
    bom.extend_from_slice(b"hi");
    assert_eq!(decode_text(&bom, &none()), "\u{FEFF}hi");
}

#[test]
fn decode_text_falls_back_to_lossy_utf8() {
    let bytes: &[u8] = &[b'a', 0xFF, b'b'];
    assert_eq!(decode_text(bytes, &none()), "a\u{FFFD}b");
}

#[test]
fn decode_text_reads_utf16_as_lossy_utf8() {
    let mut data = vec![0xFF, 0xFE];
    for &b in b"ok" {
        data.push(b);
        data.push(0);
    }
    assert_eq!(decode_text(&data, &none()), "\u{FFFD}\u{FFFD}o\0k\0");
}

#[test]
fn utf16_without_mark_that_fails_to_decode_is_not_utf16() {
    let mut bytes: Vec<u8> = Vec::new();
    for c in b"hello world!" {
        bytes.push(*c);
        bytes.push(0);
    }
    assert!(is_utf16_no_bom(&bytes));
    bytes.push(0x00);
    bytes.push(0xD8);
    assert!(!is_utf16_no_bom(&bytes));
}
