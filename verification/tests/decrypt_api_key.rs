use getprice::decrypt_api_key::{
    convert_bytes_to_string, convert_bytes_to_string_with_no_new_lines, decrypted_key,
    strip_new_lines_from_str, KeyError,
};

#[test]
fn line_feeds_are_taken_out() {
    assert_eq!(strip_new_lines_from_str("abc\n".to_string()), "abc");
    assert_eq!(strip_new_lines_from_str("\na\n\nb\r\nc".to_string()), "ab\rc");
    assert_eq!(strip_new_lines_from_str("\n\n".to_string()), "");
    assert_eq!(strip_new_lines_from_str("".to_string()), "");
    assert_eq!(strip_new_lines_from_str("schlüssel ✔\n".to_string()), "schlüssel ✔");
}

#[test]
fn bytes_are_read_as_utf8() {
    assert_eq!(convert_bytes_to_string(b"key\n").unwrap(), "key\n");
    assert_eq!(convert_bytes_to_string("✔ ok".as_bytes()).unwrap(), "✔ ok");
    assert_eq!(convert_bytes_to_string(b"").unwrap(), "");
    assert!(matches!(convert_bytes_to_string(&[0x6b, 0xff, 0x79]), Err(KeyError::NotText)));
    assert!(matches!(convert_bytes_to_string(&[0xc0, 0x80]), Err(KeyError::NotText)));
    assert!(matches!(convert_bytes_to_string(&[0xed, 0xa0, 0x80]), Err(KeyError::NotText)));
    assert!(matches!(convert_bytes_to_string(&[0xe2, 0x9c]), Err(KeyError::NotText)));
    assert_eq!(convert_bytes_to_string_with_no_new_lines(b"a\nb\n").unwrap(), "ab");
    assert!(matches!(convert_bytes_to_string_with_no_new_lines(&[0x80]), Err(KeyError::NotText)));
}

#[test]
fn the_key_is_what_was_printed() {
    assert_eq!(decrypted_key(b"0123-abcd\n", b"gpg: encrypted with 1 passphrase\n").unwrap(), "0123-abcd");
    match decrypted_key(b"", b"gpg: decryption failed:\nBad session key\n") {
        Err(KeyError::Refused(reason)) => assert_eq!(reason, "gpg: decryption failed:Bad session key"),
        _ => panic!(),
    }
    match decrypted_key(b"", b"") {
        Err(KeyError::Refused(reason)) => assert_eq!(reason, ""),
        _ => panic!(),
    }
    assert!(matches!(decrypted_key(&[0xff], b"fine"), Err(KeyError::NotText)));
    assert!(matches!(decrypted_key(b"", &[0xff]), Err(KeyError::NotText)));
}
