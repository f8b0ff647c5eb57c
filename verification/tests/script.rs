use scener::script::{is_ignored_line, is_whitespace_char, read_script, ScriptError};

#[test]
fn test_read_script() {
    let content = b"abc\ndef\n";
    let actual = read_script(content);
    let expected = Some(vec!["abc".to_owned(), "def".to_owned()]);
    assert_eq!(expected, actual.ok());
}

#[test]
fn test_read_script_filter_empty_lines() {
    let content = b"   abc   \n   \n   #! shebang   \n   def   \n";
    let actual = read_script(content);
    let expected = Some(vec!["   abc   ".to_owned(), "   def   ".to_owned()]);
    assert_eq!(expected, actual.ok());
}

#[test]
fn test_read_script_line_ends() {
    assert_eq!(read_script(b""), Ok(Vec::new()));
    assert_eq!(read_script(b"\n\n"), Ok(Vec::new()));
    assert_eq!(read_script(b"abc"), Ok(vec!["abc".to_owned()]));
    assert_eq!(read_script(b"abc\r\ndef\r\n"), Ok(vec!["abc".to_owned(), "def".to_owned()]));
    assert_eq!(read_script(b"abc\r"), Ok(vec!["abc\r".to_owned()]));
    assert_eq!(read_script(b"a\rb\n"), Ok(vec!["a\rb".to_owned()]));
    assert_eq!(read_script(b"abc\r\r\n"), Ok(vec!["abc\r".to_owned()]));
    assert_eq!(read_script(b"\r\nx\n"), Ok(vec!["x".to_owned()]));
}

#[test]
fn test_read_script_not_utf8() {
    assert_eq!(read_script(b"abc\n\xff\ndef\n"), Err(ScriptError::NotUtf8));
    assert_eq!(read_script(b"abc\n  \xc3\n"), Err(ScriptError::NotUtf8));
    assert_eq!(read_script("h\u{e9}llo\n".as_bytes()), Ok(vec!["h\u{e9}llo".to_owned()]));
}

#[test]
fn test_is_ignored_line() {
    assert!(is_ignored_line(""));
    assert!(is_ignored_line(" \t\u{3000}"));
    assert!(is_ignored_line("#!/bin/sh"));
    assert!(is_ignored_line("  #!"));
    assert!(!is_ignored_line("#"));
    assert!(!is_ignored_line("# !"));
    assert!(!is_ignored_line("# comment"));
    assert!(!is_ignored_line("echo #!"));
    assert!(!is_ignored_line("!#"));
    assert!(!is_ignored_line("##!"));
    for line in ["", "  ", "#!x", " #! ", "#", "# !", "x", "\u{a0}#!", "\u{200b}", "\u{85}"] {
        let trimmed = line.trim();
        assert_eq!(is_ignored_line(line), trimmed.is_empty() || trimmed.starts_with("#!"));
    }
}

#[test]
fn test_is_whitespace_char() {
    for code in 0..0x3100u32 {
        if let Some(c) = char::from_u32(code) {
            assert_eq!(is_whitespace_char(c), c.is_whitespace());
        }
    }
    assert!(!is_whitespace_char('\u{feff}'));
    assert!(!is_whitespace_char('\u{10ffff}'));
}

#[test]
fn test_script_error_message() {
    assert_eq!(
        ScriptError::NotUtf8.message(),
        "could not read line: stream did not contain valid UTF-8"
    );
}
