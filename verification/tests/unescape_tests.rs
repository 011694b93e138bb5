use unescape::unescape;

fn b(bytes: &'static [u8]) -> Vec<u8> {
    bytes.to_vec()
}

#[test]
fn unescape_nul() {
    assert_eq!(b(b"\x00"), unescape(r"\x00"));
}

#[test]
fn unescape_nl() {
    assert_eq!(b(b"\n"), unescape(r"\n"));
}

#[test]
fn unescape_tab() {
    assert_eq!(b(b"\t"), unescape(r"\t"));
}

#[test]
fn unescape_carriage() {
    assert_eq!(b(b"\r"), unescape(r"\r"));
}

#[test]
fn unescape_nothing_simple() {
    assert_eq!(b(b"\\a"), unescape(r"\a"));
}

#[test]
fn unescape_nothing_hex0() {
    assert_eq!(b(b"\\x"), unescape(r"\x"));
}

#[test]
fn unescape_nothing_hex1() {
    assert_eq!(b(b"\\xz"), unescape(r"\xz"));
}

#[test]
fn unescape_nothing_hex2() {
    assert_eq!(b(b"\\xzz"), unescape(r"\xzz"));
}

#[test]
fn unescape_empty() {
    assert_eq!(b(b""), unescape(""));
}

#[test]
fn unescape_plain_ascii() {
    assert_eq!(b(b"hello world"), unescape("hello world"));
}

#[test]
fn unescape_plain_multibyte() {
    let s = "h\u{e9}llo \u{4e16}\u{754c} \u{1f980}";
    assert_eq!(s.as_bytes().to_vec(), unescape(s));
}

#[test]
fn unescape_hex_letter() {
    assert_eq!(b(b"\x41"), unescape(r"\x41"));
}

#[test]
fn unescape_hex_max() {
    assert_eq!(vec![0xFFu8], unescape(r"\xfF"));
}

#[test]
fn unescape_hex_case_insensitive() {
    assert_eq!(vec![0xABu8], unescape(r"\xAb"));
    assert_eq!(unescape(r"\xAb"), unescape(r"\xaB"));
}

#[test]
fn unescape_trailing_backslash() {
    assert_eq!(b(b"\\"), unescape(r"\"));
}

#[test]
fn unescape_trailing_hex_one_digit() {
    assert_eq!(b(b"\\x4"), unescape(r"\x4"));
}

#[test]
fn unescape_double_backslash() {
    assert_eq!(b(b"\\\\n"), unescape(r"\\n"));
}

#[test]
fn unescape_unrecognized_multibyte() {
    assert_eq!(vec![0x5Cu8, 0xC3, 0xA9], unescape("\\\u{e9}"));
}

#[test]
fn unescape_mixed() {
    assert_eq!(b(b"a\tb c\n"), unescape(r"a\tb\x20c\n"));
}
