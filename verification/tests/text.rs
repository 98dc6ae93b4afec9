use privacy_indicator::text::{begins_with, is_all_digits, process_id, read_text, same_bytes, trim};

#[test]
fn prefixes() {
    assert!(begins_with(b"video0", b"video"));
    assert!(begins_with(b"video", b"video"));
    assert!(begins_with(b"video", b""));
    assert!(!begins_with(b"vide", b"video"));
    assert!(!begins_with(b"audio0", b"video"));
}

#[test]
fn equal_bytes() {
    assert!(same_bytes(b"", b""));
    assert!(same_bytes(b"/dev/video0", b"/dev/video0"));
    assert!(!same_bytes(b"/dev/video0", b"/dev/video1"));
    assert!(!same_bytes(b"/dev/video0", b"/dev/video"));
}

#[test]
fn digits() {
    assert!(is_all_digits(b"0123456789"));
    assert!(is_all_digits(b""));
    assert!(!is_all_digits(b"12a"));
    assert!(!is_all_digits(b"-1"));
    assert!(!is_all_digits(b"/:"));
}

#[test]
fn process_ids() {
    assert_eq!(process_id(b"1"), Some(1));
    assert_eq!(process_id(b"0042"), Some(42));
    assert_eq!(process_id(b"4294967295"), Some(4294967295));
    assert_eq!(process_id(b"4294967296"), None);
    assert_eq!(process_id(b"99999999999999999999999999"), None);
    assert_eq!(process_id(b""), None);
    assert_eq!(process_id(b"self"), None);
    assert_eq!(process_id(b"+1"), None);
}

#[test]
fn white_space_is_trimmed() {
    assert_eq!(trim("firefox\n"), "firefox");
    assert_eq!(trim("  Web Content \t\n"), "Web Content");
    assert_eq!(trim("\u{a0}caf\u{e9}\u{2003}"), "caf\u{e9}");
    assert_eq!(trim(" \n "), "");
    assert_eq!(trim(""), "");
    assert_eq!(trim("obs"), "obs");
}

#[test]
fn trimming_is_that_of_std() {
    for text in ["a b", " a b ", "\n\n", "\u{3000}x\u{85}", "x\u{200b}", "\u{feff} y"] {
        assert_eq!(trim(text), text.trim());
        assert_eq!(trim(&trim(text)), trim(text));
    }
}

#[test]
fn white_space_is_that_of_unicode() {
    let listed = |c: char| {
        matches!(
            c,
            '\u{9}'..='\u{d}'
                | '\u{20}'
                | '\u{85}'
                | '\u{a0}'
                | '\u{1680}'
                | '\u{2000}'..='\u{200a}'
                | '\u{2028}'
                | '\u{2029}'
                | '\u{202f}'
                | '\u{205f}'
                | '\u{3000}'
        )
    };
    for c in '\0'..=char::MAX {
        assert_eq!(trim(&c.to_string()).is_empty(), listed(c), "{:?}", c);
    }
}

#[test]
fn bytes_read_as_text() {
    assert_eq!(read_text(b"video0"), "video0");
    assert_eq!(read_text("cam\u{e9}ra \u{1f4f7}".as_bytes()), "cam\u{e9}ra \u{1f4f7}");
    assert_eq!(read_text(b""), "");
    assert_eq!(read_text(b"video\xff"), "video\u{fffd}");
    assert_eq!(read_text(b"\xc3(\xe2\x82"), "\u{fffd}(\u{fffd}");
}
