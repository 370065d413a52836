use log_tailer::sanitize::{sanitize, strip_ansi_bytes, validate_utf8, DecodeFailure};

#[test]
fn plain_text_unchanged() {
    let input = b"hello world".to_vec();
    assert_eq!(sanitize(&input), Ok(b"hello world".to_vec()));
}

#[test]
fn whitespace_text_unchanged() {
    let input = b"line one\n\tline two\r\n".to_vec();
    assert_eq!(sanitize(&input), Ok(input.clone()));
}

#[test]
fn csi_wrapped_text_stripped() {
    let input = b"\x1b[31mred\x1b[0m".to_vec();
    assert_eq!(sanitize(&input), Ok(b"red".to_vec()));
}

#[test]
fn csi_with_parameters_stripped() {
    let input = b"a\x1b[1;32;44mb\x1b[Kc".to_vec();
    assert_eq!(sanitize(&input), Ok(b"abc".to_vec()));
}

#[test]
fn osc_sequence_with_bel_stripped() {
    let input = b"\x1b]0;window title\x07text".to_vec();
    assert_eq!(sanitize(&input), Ok(b"text".to_vec()));
}

#[test]
fn osc_sequence_with_st_stripped() {
    let input = b"\x1b]0;title\x1b\\after".to_vec();
    assert_eq!(sanitize(&input), Ok(b"after".to_vec()));
}

#[test]
fn two_byte_escape_stripped() {
    let input = b"\x1bMline".to_vec();
    assert_eq!(sanitize(&input), Ok(b"line".to_vec()));
}

#[test]
fn lone_trailing_escape_stripped() {
    let input = b"end\x1b".to_vec();
    assert_eq!(sanitize(&input), Ok(b"end".to_vec()));
}

#[test]
fn empty_payload_sanitizes_to_empty() {
    let input: Vec<u8> = Vec::new();
    assert_eq!(sanitize(&input), Ok(Vec::new()));
}

#[test]
fn multibyte_utf8_kept() {
    let text = "h\u{e9}llo \u{2603} \u{1f389}";
    let input = text.as_bytes().to_vec();
    let out = sanitize(&input).expect("valid text must be accepted");
    assert_eq!(String::from_utf8(out).unwrap(), text);
}

#[test]
fn invalid_utf8_reports_stripped_length() {
    let input = b"\x1b[31m\xff\xfe".to_vec();
    assert_eq!(sanitize(&input), Err(DecodeFailure { length: 2 }));
}

#[test]
fn lone_continuation_byte_rejected() {
    let input = vec![0x80u8];
    assert_eq!(sanitize(&input), Err(DecodeFailure { length: 1 }));
}

#[test]
fn isolated_leading_byte_rejected() {
    let input = b"ab\xc3".to_vec();
    assert_eq!(sanitize(&input), Err(DecodeFailure { length: 3 }));
}

#[test]
fn overlong_encoding_rejected() {
    let input = vec![0xc0u8, 0xafu8];
    assert_eq!(sanitize(&input), Err(DecodeFailure { length: 2 }));
}

#[test]
fn surrogate_encoding_rejected() {
    let input = vec![0xedu8, 0xa0u8, 0x80u8];
    assert_eq!(sanitize(&input), Err(DecodeFailure { length: 3 }));
}

#[test]
fn truncated_multibyte_rejected() {
    let input = vec![0xe2u8, 0x82u8];
    assert_eq!(sanitize(&input), Err(DecodeFailure { length: 2 }));
}

#[test]
fn validator_agrees_with_std() {
    let samples: Vec<Vec<u8>> = vec![
        b"plain".to_vec(),
        vec![],
        vec![0xf0, 0x9f, 0x8e, 0x89],
        vec![0xf4, 0x8f, 0xbf, 0xbf],
        vec![0xf4, 0x90, 0x80, 0x80],
        vec![0xed, 0x9f, 0xbf],
        vec![0xed, 0xa0, 0x80],
        vec![0xc2, 0x80],
        vec![0xc1, 0xbf],
        vec![0xe0, 0x9f, 0xbf],
        vec![0xe0, 0xa0, 0x80],
        vec![0xf0, 0x8f, 0xbf, 0xbf],
        vec![0xf8, 0x80],
        vec![0x7f],
    ];
    for s in samples {
        assert_eq!(validate_utf8(&s), std::str::from_utf8(&s).is_ok(), "{s:?}");
    }
}

#[test]
fn stripper_leaves_non_ascii_bytes_alone() {
    let input = vec![0xf0u8, 0x9f, 0x8e, 0x89];
    assert_eq!(strip_ansi_bytes(&input), input);
}
