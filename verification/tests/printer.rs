use scener::printer::{
    needs_newline, print_session, print_session_brief, print_session_script, Printed,
};
use scener::session::{CommandRecord, CommandStatus, Session, Timestamp};
use scener::text::decimal_text;

fn record(command: &str, output: &str, status: CommandStatus) -> CommandRecord {
    CommandRecord { command: command.into(), output: output.into(), status }
}

fn good_session() -> Session {
    Session {
        name: "session-name".into(),
        recorded_at: Timestamp::new(1577934245, 0).unwrap(),
        records: vec![
            record("echo hello", "hello\n", CommandStatus::Succeeded),
            record("echo -n world", "world", CommandStatus::Succeeded),
            record("echo \"hello, world!\"", "hello, world!\n", CommandStatus::Succeeded),
        ],
    }
}

fn bad_session() -> Session {
    Session {
        name: "session-name".into(),
        recorded_at: Timestamp::new(1577934245, 0).unwrap(),
        records: vec![
            record("echo hello", "hello\n", CommandStatus::Succeeded),
            record("echo -n world", "world", CommandStatus::Failed),
            record("echo \"hello, world!\"", "hello, world!\n", CommandStatus::Skipped),
        ],
    }
}

const WHEN: &str = "2020-01-02 03:04:05";
const TITLE: &str = "session session-name (2020-01-02 03:04:05)\n";

#[test]
fn test_needs_newline_empty() {
    assert_eq!(needs_newline(""), false);
}

#[test]
fn test_needs_newline_with_newline() {
    assert_eq!(needs_newline("abc\ndef\n"), false);
}

#[test]
fn test_needs_newline_without_newline() {
    assert_eq!(needs_newline("abc\ndef"), true);
}

#[test]
fn test_needs_newline_of_single_characters() {
    assert_eq!(needs_newline("\n"), false);
    assert_eq!(needs_newline("\r"), true);
    assert_eq!(needs_newline("\u{e9}"), true);
    assert_eq!(needs_newline("\n\u{1f600}"), true);
}

#[test]
fn test_print_session_good() {
    let printed = print_session(good_session(), WHEN);
    let expected_out =
        "$ echo hello\nhello\n\n$ echo -n world\nworld\n\n$ echo \"hello, world!\"\nhello, world!\n";
    assert_eq!(printed.stdout, expected_out);
    assert_eq!(printed.stderr, TITLE);
}

#[test]
fn test_print_session_bad() {
    let printed = print_session(bad_session(), WHEN);
    let expected_out = "$ echo hello\nhello\n\n$ echo -n world\nworld\n";
    assert_eq!(printed.stdout, expected_out);
    assert_eq!(printed.stderr, TITLE);
}

#[test]
fn test_print_session_without_commands_that_ran() {
    let mut session = bad_session();
    session.records = vec![record("a", "", CommandStatus::Skipped)];
    let expected = Printed { stdout: String::new(), stderr: TITLE.to_string() };
    assert_eq!(print_session(session, WHEN), expected);
    let mut silent = good_session();
    silent.records = vec![
        record("true", "", CommandStatus::Succeeded),
        record("skipped", "x", CommandStatus::Skipped),
        record("false", "", CommandStatus::Failed),
    ];
    assert_eq!(print_session(silent, WHEN).stdout, "$ true\n\n$ false\n");
}

#[test]
fn test_print_session_script_good() {
    let printed = print_session_script(good_session(), WHEN);
    assert_eq!(printed.stdout, "echo hello\necho -n world\necho \"hello, world!\"\n");
    assert_eq!(printed.stderr, TITLE);
}

#[test]
fn test_print_session_script_bad() {
    let printed = print_session_script(bad_session(), WHEN);
    assert_eq!(printed.stdout, "echo hello\necho -n world\necho \"hello, world!\"\n");
    assert_eq!(printed.stderr, TITLE);
}

#[test]
fn test_print_session_brief_good() {
    let expected = "123: session-name (2020-01-02 03:04:05)\n    $ echo hello\n    $ echo -n world\n    $ echo \"hello, world!\"\n";
    assert_eq!(print_session_brief(good_session(), WHEN, 123, None), expected);
}

#[test]
fn test_print_session_brief_bad() {
    let expected = "123: session-name (2020-01-02 03:04:05)\n    $ echo hello\n    $ echo -n world\n    ? echo \"hello, world!\"\n";
    assert_eq!(print_session_brief(bad_session(), WHEN, 123, None), expected);
}

#[test]
fn test_print_session_brief_max() {
    let expected =
        "123: session-name (2020-01-02 03:04:05)\n    $ echo hello\n    ... (2 more commands)\n";
    assert_eq!(print_session_brief(good_session(), WHEN, 123, Some(1)), expected);
}

#[test]
fn test_print_session_brief_limits() {
    let all = print_session_brief(good_session(), WHEN, 1, None);
    assert_eq!(print_session_brief(good_session(), WHEN, 1, Some(3)), all);
    assert_eq!(print_session_brief(good_session(), WHEN, 1, Some(usize::MAX)), all);
    assert_eq!(
        print_session_brief(good_session(), WHEN, 0, Some(0)),
        "0: session-name (2020-01-02 03:04:05)\n    ... (3 more commands)\n"
    );
    assert_eq!(
        print_session_brief(good_session(), WHEN, 7, Some(2)),
        "7: session-name (2020-01-02 03:04:05)\n    $ echo hello\n    $ echo -n world\n    ... (1 more commands)\n"
    );
}

#[test]
fn test_decimal_text() {
    assert_eq!(decimal_text(0), "0");
    assert_eq!(decimal_text(7), "7");
    assert_eq!(decimal_text(10), "10");
    assert_eq!(decimal_text(1234567890), "1234567890");
    assert_eq!(decimal_text(usize::MAX), usize::MAX.to_string());
}
