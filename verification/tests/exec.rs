use scener::exec::{
    command_result, exit_success, parse_env_file, trap_script, CommandResult, Environment,
    ExecError,
};

fn pair(name: &str, value: &str) -> (String, String) {
    (name.to_string(), value.to_string())
}

#[test]
fn test_parse_env_file() {
    let content = b"abc=123\0abc=456\0xyz=123\n456\n789\n";
    let actual = parse_env_file(content);
    let expected = Environment {
        env_vars: Some(vec![
            ("abc".into(), "123".into()),
            ("abc".into(), "456".into()),
            ("xyz".into(), "123\n456\n789\n".into()),
        ]),
        work_dir: None,
    };
    assert!(actual.is_ok());
    assert_eq!(expected, actual.unwrap());
}

#[test]
fn test_parse_env_file_pwd() {
    let content = b"PWD=/path/to/pwd";
    let actual = parse_env_file(content);
    let expected = Environment {
        env_vars: Some(vec![("PWD".into(), "/path/to/pwd".into())]),
        work_dir: Some("/path/to/pwd".into()),
    };
    assert!(actual.is_ok());
    assert_eq!(expected, actual.unwrap());
}

#[test]
fn test_parse_env_file_empty() {
    let expected = Environment { env_vars: Some(Vec::new()), work_dir: None };
    assert_eq!(parse_env_file(b""), Ok(expected));
}

#[test]
fn test_parse_env_file_last_pwd_wins() {
    let content = b"PWD=/first\0X=1\0PWD=/second\0Y=2\0";
    let expected = Environment {
        env_vars: Some(vec![
            pair("PWD", "/first"),
            pair("X", "1"),
            pair("PWD", "/second"),
            pair("Y", "2"),
        ]),
        work_dir: Some("/second".into()),
    };
    assert_eq!(parse_env_file(content), Ok(expected));
}

#[test]
fn test_parse_env_file_splits_at_the_first_equals_sign() {
    let content = "a=b=c\0=x\0e\u{301}=\u{1f600}=\0PWDX=1\0".as_bytes();
    let expected = Environment {
        env_vars: Some(vec![
            pair("a", "b=c"),
            pair("", "x"),
            pair("e\u{301}", "\u{1f600}="),
            pair("PWDX", "1"),
        ]),
        work_dir: None,
    };
    assert_eq!(parse_env_file(content), Ok(expected));
}

#[test]
fn test_parse_env_file_record_without_equals_sign() {
    assert_eq!(parse_env_file(b"abc"), Err(ExecError::EnvDumpFormat));
    assert_eq!(parse_env_file(b"a=1\0\0"), Err(ExecError::EnvDumpFormat));
    assert_eq!(parse_env_file(b"\0"), Err(ExecError::EnvDumpFormat));
    assert_eq!(parse_env_file(b"a=1\0b"), Err(ExecError::EnvDumpFormat));
}

#[test]
fn test_parse_env_file_not_utf8() {
    assert_eq!(parse_env_file(b"a=\xff\0"), Err(ExecError::EnvDumpNotUtf8));
    assert_eq!(parse_env_file(b"\xc3=1"), Err(ExecError::EnvDumpNotUtf8));
}

#[test]
fn test_parse_env_file_first_bad_record_decides() {
    assert_eq!(parse_env_file(b"a=1\0bad\0b=\xff\0"), Err(ExecError::EnvDumpFormat));
    assert_eq!(parse_env_file(b"a=1\0b=\xff\0bad\0"), Err(ExecError::EnvDumpNotUtf8));
}

#[test]
fn test_default_environment() {
    let env = Environment::default();
    assert_eq!(env, Environment { env_vars: None, work_dir: None });
}

#[test]
fn test_trap_script() {
    assert_eq!(
        trap_script("echo 123 && false"),
        "trap \"env -0 > $(printf %q \"$1\")\" EXIT; echo 123 && false"
    );
    assert_eq!(trap_script(""), "trap \"env -0 > $(printf %q \"$1\")\" EXIT; ");
}

#[test]
fn test_exit_success() {
    assert_eq!(exit_success(Some(true)), Ok(true));
    assert_eq!(exit_success(Some(false)), Ok(false));
    assert_eq!(exit_success(None), Err(ExecError::UnexpectedEof));
}

#[test]
fn test_command_result() {
    let actual = command_result(b"1\n", true, b"PWD=/tmp/t/sub\0X=1\0");
    let expected = CommandResult {
        new_env: Environment {
            env_vars: Some(vec![pair("PWD", "/tmp/t/sub"), pair("X", "1")]),
            work_dir: Some("/tmp/t/sub".into()),
        },
        output: "1\n".into(),
        succeeded: true,
    };
    assert_eq!(actual, Ok(expected));
}

#[test]
fn test_command_result_of_a_failed_command() {
    let actual = command_result(b"123\n", false, b"PWD=/tmp/t\0");
    let expected = CommandResult {
        new_env: Environment {
            env_vars: Some(vec![pair("PWD", "/tmp/t")]),
            work_dir: Some("/tmp/t".into()),
        },
        output: "123\n".into(),
        succeeded: false,
    };
    assert_eq!(actual, Ok(expected));
}

#[test]
fn test_command_result_replaces_bad_output() {
    let actual = command_result(b"a\xffb", true, b"").unwrap();
    assert_eq!(actual.output, "a\u{fffd}b");
}

#[test]
fn test_command_result_without_a_dump() {
    assert_eq!(command_result(b"out", true, b"oops"), Err(ExecError::EnvDumpFormat));
}

#[test]
fn test_exec_error_message() {
    assert_eq!(ExecError::ScratchDir.message(), "could not create temporary directory");
    assert_eq!(ExecError::Spawn.message(), "could not execute `bash`");
    assert_eq!(ExecError::OutputStream.message(), "could not read command output");
    assert_eq!(
        ExecError::UnexpectedEof.message(),
        "unexpected EOF while reading command output"
    );
    assert_eq!(ExecError::EnvDumpUnreadable.message(), "could not read env file");
    assert_eq!(ExecError::EnvDumpNotUtf8.message(), "could not parse env file as utf8");
    assert_eq!(ExecError::EnvDumpFormat.message(), "unexpected env file format");
}

#[test]
fn test_dump_round_trip() {
    let entries = vec![
        pair("PWD", "/a"),
        pair("EMPTY", ""),
        pair("", "nameless"),
        pair("X", "1=2=3"),
        pair("X", "line\nbreak"),
        pair("\u{e9}t\u{e9}", "\u{1f600}"),
        pair("PWD", "/b"),
        pair("X", "1=2=3"),
    ];
    let mut dump = Vec::new();
    for (name, value) in &entries {
        dump.extend_from_slice(name.as_bytes());
        dump.push(b'=');
        dump.extend_from_slice(value.as_bytes());
        dump.push(0);
    }
    let expected = Environment { env_vars: Some(entries), work_dir: Some("/b".into()) };
    assert_eq!(parse_env_file(&dump), Ok(expected));
}
