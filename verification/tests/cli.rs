use std::path::PathBuf;

use scener::cli::{
    collect_commands, listing_footer, CommandSource, ListAction, Recording, RemoveAction,
    RunAction, ShowAction,
};
use scener::exec::{CommandResult, Environment};
use scener::reference::ReferenceError;
use scener::scanner::{scan_step, ScanEvent, ScanStep};
use scener::session::{
    CommandRecord, CommandRecordSummary, CommandStatus, SessionSummary, Timestamp,
};

fn strings(list: &[&str]) -> Vec<String> {
    list.iter().map(|item| item.to_string()).collect()
}

fn summary(command: &str) -> CommandRecordSummary {
    CommandRecordSummary { command: command.into(), status: CommandStatus::Succeeded }
}

#[test]
fn test_collect_commands() {
    let now = Timestamp::new(1577836800, 0).unwrap();
    let sessions = vec![
        SessionSummary {
            name: "test1".into(),
            recorded_at: now,
            records: vec![summary("cmd1a"), summary("cmd1b")],
        },
        SessionSummary {
            name: "test2".into(),
            recorded_at: now,
            records: vec![summary("cmd2a"), summary("cmd2b"), summary("cmd2c")],
        },
    ];
    let actual = collect_commands(&sessions);
    let expected: Vec<String> = vec!["cmd1a", "cmd1b", "cmd2a", "cmd2b", "cmd2c"]
        .into_iter()
        .map(ToOwned::to_owned)
        .collect();
    assert_eq!(expected, actual);
}

#[test]
fn test_collect_commands_of_nothing() {
    assert_eq!(collect_commands(&[]), Vec::<String>::new());
    let empty = SessionSummary {
        name: "e".into(),
        recorded_at: Timestamp::new(0, 0).unwrap(),
        records: vec![],
    };
    assert_eq!(collect_commands(&[empty]), Vec::<String>::new());
}

fn run_action(interactive: bool, file: &[&str], session: &[&str], command: &[&str]) -> RunAction {
    RunAction {
        interactive,
        unchecked: false,
        file: file.iter().map(PathBuf::from).collect(),
        session: strings(session),
        command: strings(command),
    }
}

#[test]
fn test_command_source() {
    assert_eq!(run_action(false, &["f"], &[], &[]).source(), CommandSource::Files);
    assert_eq!(run_action(true, &["f"], &["@"], &["c"]).source(), CommandSource::Files);
    assert_eq!(run_action(false, &[], &["@"], &["c"]).source(), CommandSource::Sessions);
    assert_eq!(run_action(true, &[], &[], &["c"]).source(), CommandSource::Arguments);
    assert_eq!(run_action(false, &[], &[], &[]).source(), CommandSource::Stdin);
    assert_eq!(run_action(true, &[], &[], &[]).source(), CommandSource::Nowhere);
}

#[test]
fn test_checked() {
    let mut action = run_action(false, &[], &[], &[]);
    assert!(action.checked());
    action.unchecked = true;
    assert!(!action.checked());
}

#[test]
fn test_show_sessions() {
    let names = strings(&["new", "old"]);
    let latest = ShowAction { script: false, copy: false, session: vec![] };
    assert_eq!(latest.sessions(&names), Ok(strings(&["new"])));
    assert_eq!(latest.sessions(&[]), Ok(vec![]));
    let named = ShowAction { script: true, copy: false, session: strings(&["@2", "new"]) };
    assert_eq!(named.sessions(&names), Ok(strings(&["old", "new"])));
    let wrong = ShowAction { script: true, copy: false, session: strings(&["@2", "@3"]) };
    assert_eq!(
        wrong.sessions(&names),
        Err(ReferenceError::IndexOutOfRange { reference: "@3".into() })
    );
}

#[test]
fn test_remove_sessions() {
    let names = strings(&["new", "old"]);
    let all = RemoveAction { all: true, session: strings(&["nope"]) };
    assert_eq!(all.sessions(names.clone()), Ok(names.clone()));
    let one = RemoveAction { all: false, session: strings(&["@2"]) };
    assert_eq!(one.sessions(names.clone()), Ok(strings(&["old"])));
    let none = RemoveAction { all: false, session: vec![] };
    assert_eq!(none.sessions(names.clone()), Ok(vec![]));
    let wrong = RemoveAction { all: false, session: strings(&["nope"]) };
    assert_eq!(
        wrong.sessions(names),
        Err(ReferenceError::SessionNotFound { reference: "nope".into() })
    );
}

#[test]
fn test_list_action() {
    let brief = ListAction { full: false, limit: 10 };
    assert_eq!(brief.shown(3), 3);
    assert_eq!(brief.shown(10), 10);
    assert_eq!(brief.shown(11), 10);
    assert_eq!(brief.shown(0), 0);
    assert_eq!(brief.max_commands(), Some(5));
    let full = ListAction { full: true, limit: 0 };
    assert_eq!(full.shown(3), 0);
    assert_eq!(full.max_commands(), None);
}

#[test]
fn test_listing_footer() {
    assert_eq!(listing_footer(10, 42), "(10 / 42 sessions)\n");
    assert_eq!(listing_footer(0, 0), "(0 / 0 sessions)\n");
}

fn result(output: &str, succeeded: bool, dir: &str) -> CommandResult {
    CommandResult {
        new_env: Environment { env_vars: None, work_dir: Some(dir.into()) },
        output: output.into(),
        succeeded,
    }
}

fn record(command: &str, output: &str, status: CommandStatus) -> CommandRecord {
    CommandRecord { command: command.into(), output: output.into(), status }
}

#[test]
fn test_checked_run_ends_with_the_first_failure() {
    let mut recording = Recording::new(true);
    assert!(!recording.is_terminated());
    assert!(!recording.has_records());
    let env = recording.complete("echo 1".into(), result("1\n", true, "/a"));
    assert_eq!(env.work_dir, Some("/a".to_string()));
    assert!(!recording.is_terminated());
    assert!(recording.has_records());
    let env = recording.complete("false".into(), result("", false, "/b"));
    assert_eq!(env.work_dir, Some("/b".to_string()));
    assert!(recording.is_terminated());
    recording.skip("echo 2".into());
    recording.skip("echo 3".into());
    assert!(recording.is_terminated());
    let now = Timestamp::new(1577836800, 0).unwrap();
    let recorded = recording.finish(now);
    assert!(recorded.terminated);
    assert_eq!(recorded.session.recorded_at, now);
    assert!(recorded.session.name.starts_with("20200101000000000-"));
    assert_eq!(
        recorded.session.records,
        vec![
            record("echo 1", "1\n", CommandStatus::Succeeded),
            record("false", "", CommandStatus::Failed),
            record("echo 2", "", CommandStatus::Skipped),
            record("echo 3", "", CommandStatus::Skipped),
        ]
    );
}

#[test]
fn test_unchecked_run_goes_on() {
    let mut recording = Recording::new(false);
    recording.complete("false".into(), result("x", false, "/"));
    assert!(!recording.is_terminated());
    recording.complete("true".into(), result("", true, "/"));
    assert!(!recording.is_terminated());
    let recorded = recording.finish(Timestamp::new(0, 0).unwrap());
    assert!(!recorded.terminated);
    assert_eq!(
        recorded.session.records,
        vec![
            record("false", "x", CommandStatus::Failed),
            record("true", "", CommandStatus::Succeeded),
        ]
    );
}

#[test]
fn test_run_without_commands() {
    let recorded = Recording::new(true).finish(Timestamp::new(0, 0).unwrap());
    assert!(!recorded.terminated);
    assert!(recorded.session.records.is_empty());
    assert!(recorded.session.name.starts_with("19700101000000000-"));
}

#[test]
fn test_scan_step() {
    assert_eq!(scan_step(ScanEvent::Line("ls".into())), ScanStep::Accept("ls".into()));
    assert_eq!(scan_step(ScanEvent::Line(String::new())), ScanStep::Accept(String::new()));
    assert_eq!(scan_step(ScanEvent::Interrupted), ScanStep::Stop);
    assert_eq!(scan_step(ScanEvent::Eof), ScanStep::Stop);
    assert_eq!(scan_step(ScanEvent::WindowResized), ScanStep::Retry);
    assert_eq!(scan_step(ScanEvent::Failed), ScanStep::Fail);
}
