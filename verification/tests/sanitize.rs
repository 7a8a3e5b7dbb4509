use dify_agent_runtime::sanitize::PtySanitizer;

fn run_all(input: &[u8]) -> String {
    let mut s = PtySanitizer::new();
    let mut out = s.feed(input);
    out.extend(s.flush());
    String::from_utf8(out).unwrap()
}

#[test]
fn plain_text() {
    assert_eq!(run_all(b"hello\nworld\n"), "hello\nworld\n");
}

#[test]
fn strip_csi() {
    assert_eq!(run_all(b"\x1b[31mred\x1b[0m\n"), "red\n");
}

#[test]
fn carriage_return_overwrite() {
    assert_eq!(run_all(b"50%\r100%\n"), "100%\n");
}

#[test]
fn crlf() {
    assert_eq!(run_all(b"line1\r\nline2\r\n"), "line1\nline2\n");
}

#[test]
fn osc_sequence() {
    assert_eq!(run_all(b"\x1b]0;title\x07visible\n"), "visible\n");
}

#[test]
fn flush_unterminated_line() {
    assert_eq!(run_all(b"no newline"), "no newline");
}

#[test]
fn invalid_utf8() {
    assert_eq!(run_all(&[0xFF, b'a', b'\n']), "\u{FFFD}a\n");
}

#[test]
fn chunked_feed_matches_whole_feed() {
    let text = b"a\x1b[1mb\r\nsecond line\rover\nlast";
    let mut whole = PtySanitizer::new();
    let mut expected = whole.feed(text);
    expected.extend(whole.flush());
    let mut split = PtySanitizer::new();
    let cut = 12;
    let mut got = split.feed(&text[..cut]);
    got.extend(split.feed(&text[cut..]));
    got.extend(split.flush());
    assert_eq!(got, expected);
}

#[test]
fn plain_text_is_unchanged() {
    let text = "tab\there\nbell\x07 and é, 日本\nend";
    assert_eq!(run_all(text.as_bytes()), text);
}

#[test]
fn output_has_no_escape_or_cr() {
    let out = run_all(b"\x1b[2J\x1b]2;t\x1b\\x\ry\n\x1bZz\x1b\x1bq\n");
    assert!(!out.contains('\x1b'));
    assert!(!out.contains('\r'));
    assert_eq!(out, "y\nZzq\n");
}

#[test]
fn multibyte_and_truncated_sequences() {
    assert_eq!(run_all("€\n".as_bytes()), "€\n");
    assert_eq!(run_all(&[0xE2, 0x82, b'x', b'\n']), "\u{FFFD}\u{FFFD}x\n");
    assert_eq!(run_all(&[0xF0, 0x9F, 0x98, 0x80, b'\n']), "\u{1F600}\n");
    assert_eq!(run_all(&[0xED, 0xA0, 0x80]), "\u{FFFD}\u{FFFD}\u{FFFD}");
}

#[test]
fn flush_resets_state() {
    let mut s = PtySanitizer::new();
    let _ = s.feed(b"abc\r\x1b[");
    assert_eq!(s.flush(), b"abc".to_vec());
    assert_eq!(s.feed(b"m\n"), b"m\n".to_vec());
}

#[test]
fn chunked_feed_after_multibyte_character() {
    let text = "héllo\x1b[31m 日本\rnew\n".as_bytes();
    let mut whole = PtySanitizer::new();
    let mut expected = whole.feed(text);
    expected.extend(whole.flush());
    let cut = "hé".len();
    let mut split = PtySanitizer::new();
    let mut got = split.feed(&text[..cut]);
    got.extend(split.feed(&text[cut..]));
    got.extend(split.flush());
    assert_eq!(got, expected);
    assert_eq!(String::from_utf8(got).unwrap(), "new\n");
}

#[test]
fn chunked_feed_inside_a_character_differs() {
    let text = "é\n".as_bytes();
    let mut split = PtySanitizer::new();
    let mut got = split.feed(&text[..1]);
    got.extend(split.feed(&text[1..]));
    got.extend(split.flush());
    assert_eq!(String::from_utf8(got).unwrap(), "\u{FFFD}\u{FFFD}\n");
}

#[test]
fn feed_emits_whole_lines() {
    let mut s = PtySanitizer::new();
    let out = s.feed(b"one\r\ntw\x1b[1mo\nthree");
    assert_eq!(out, b"one\ntwo\n".to_vec());
    assert_eq!(s.feed(b" more"), Vec::<u8>::new());
    assert_eq!(s.flush(), b"three more".to_vec());
}
