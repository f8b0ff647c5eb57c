//! The text that shows a session: its transcript, its script, and the brief
//! form of a listing.

use vstd::prelude::*;
use vstd::string::*;

use crate::session::{records_view, CommandRecord, CommandRecordView, Session};
use crate::text::{concatenated, decimal, decimal_text, joined};

verus! {

/// What printing a session writes: `stdout` is what is shown of it, `stderr`
/// the line that says which session it is.
#[derive(Debug, PartialEq)]
pub struct Printed {
    pub stdout: String,
    pub stderr: String,
}

/// Whether `text` leaves the cursor in the middle of a line.
pub open spec fn lacks_newline(text: Seq<char>) -> bool {
    text.len() > 0 && text.last() != '\n'
}

/// The line that says which session is shown and when it was recorded.
pub open spec fn title(name: Seq<char>, recorded_at: Seq<char>) -> Seq<char> {
    "session "@ + name + " ("@ + recorded_at + ")\n"@
}

/// What the transcript shows of one command: the command behind a prompt,
/// then what it wrote, ended by a line feed.
pub open spec fn record_text(record: CommandRecordView) -> Seq<char> {
    "$ "@ + record.command + "\n"@ + record.output + (if lacks_newline(record.output) {
        "\n"@
    } else {
        Seq::<char>::empty()
    })
}

/// The transcript of a session: every command that ran, with an empty line
/// between each two.
pub open spec fn transcript(records: Seq<CommandRecordView>) -> Seq<char> {
    joined(
        records.filter(|record: CommandRecordView| record.status.executed()).map_values(
            |record: CommandRecordView| record_text(record),
        ),
        "\n"@,
    )
}

/// The script of a session: every command on a line of its own.
pub open spec fn script(records: Seq<CommandRecordView>) -> Seq<char> {
    concatenated(records.map_values(|record: CommandRecordView| record.command + "\n"@))
}

/// The line of a command in a brief listing: `$` marks one that ran, `?` one
/// that was skipped.
pub open spec fn brief_line(record: CommandRecordView) -> Seq<char> {
    "    "@ + (if record.status.executed() {
        "$"@
    } else {
        "?"@
    }) + " "@ + record.command + "\n"@
}

/// How many commands a brief listing shows of `len`.
pub open spec fn shown_count(max: Option<usize>, len: nat) -> nat {
    match max {
        Some(m) => if m < len {
            m as nat
        } else {
            len
        },
        None => len,
    }
}

/// The brief form of a session: its place in the listing, its name and
/// time, its first commands, and how many more there are.
pub open spec fn brief(
    name: Seq<char>,
    recorded_at: Seq<char>,
    records: Seq<CommandRecordView>,
    key: nat,
    max: Option<usize>,
) -> Seq<char> {
    let shown = shown_count(max, records.len());
    decimal(key) + ": "@ + name + " ("@ + recorded_at + ")\n"@ + concatenated(
        records.take(shown as int).map_values(|record: CommandRecordView| brief_line(record)),
    ) + (if shown < records.len() {
        "    ... ("@ + decimal((records.len() - shown) as nat) + " more commands)\n"@
    } else {
        Seq::<char>::empty()
    })
}

/// Whether something has to end the line after `s` is written.
pub fn needs_newline(s: &str) -> (needed: bool)
    ensures
        needed == lacks_newline(s@),
{
    let len: usize = s.unicode_len();
    len > 0 && s.get_char(len - 1) != '\n'
}

/// Writes the line that says which session is shown.
fn title_text(name: &str, recorded_at: &str) -> (text: String)
    ensures
        text@ == title(name@, recorded_at@),
{
    let mut text = String::from_str("session ");
    text.append(name);
    text.append(" (");
    text.append(recorded_at);
    text.append(")\n");
    text
}

/// The transcript of a session and its title. `recorded_at` is the time of
/// the recording as it is to be shown.
pub fn print_session(session: Session, recorded_at: &str) -> (printed: Printed)
    ensures
        printed.stdout@ == transcript(session@.records),
        printed.stderr@ == title(session.name@, recorded_at@),
{
    let ghost records = session@.records;
    let ghost ran = |record: CommandRecordView| record.status.executed();
    let ghost show = |record: CommandRecordView| record_text(record);
    let mut stdout = String::new();
    let mut first: bool = true;
    let mut i: usize = 0;
    proof {
        reveal(Seq::filter);
        assert(records.take(0).filter(ran).map_values(show) =~= Seq::<Seq<char>>::empty());
    }
    while i < session.records.len()
        invariant
            i <= session.records.len(),
            records == records_view(session.records@),
            ran == |record: CommandRecordView| record.status.executed(),
            show == |record: CommandRecordView| record_text(record),
            first == (records.take(i as int).filter(ran).len() == 0),
            stdout@ == joined(records.take(i as int).filter(ran).map_values(show), "\n"@),
        decreases session.records.len() - i,
    {
        let record = &session.records[i];
        proof {
            reveal(Seq::filter);
            assert(records.take(i + 1).drop_last() =~= records.take(i as int));
            assert(records.take(i + 1).last() == record@);
        }
        if record.status.is_executed() {
            let ghost before = records.take(i as int).filter(ran).map_values(show);
            let ghost after = records.take(i + 1).filter(ran).map_values(show);
            let ghost written = stdout@;
            proof {
                assert(after =~= before.push(record_text(record@)));
                assert(after.drop_last() =~= before);
            }
            if !first {
                stdout.append("\n");
            }
            stdout.append("$ ");
            stdout.append(record.command.as_str());
            stdout.append("\n");
            stdout.append(record.output.as_str());
            if needs_newline(record.output.as_str()) {
                stdout.append("\n");
            }
            proof {
                if first {
                    assert(before.len() == 0);
                    assert(written =~= Seq::<char>::empty());
                    assert(stdout@ =~= record_text(record@));
                } else {
                    assert(stdout@ =~= written + "\n"@ + record_text(record@));
                }
            }
            first = false;
        }
        i = i + 1;
    }
    proof {
        assert(records.take(i as int) =~= records);
    }
    Printed { stdout, stderr: title_text(session.name.as_str(), recorded_at) }
}

/// The commands of a session as a script, and its title.
pub fn print_session_script(session: Session, recorded_at: &str) -> (printed: Printed)
    ensures
        printed.stdout@ == script(session@.records),
        printed.stderr@ == title(session.name@, recorded_at@),
{
    let ghost records = session@.records;
    let ghost line = |record: CommandRecordView| record.command + "\n"@;
    let mut stdout = String::new();
    let mut i: usize = 0;
    proof {
        assert(records.take(0).map_values(line) =~= Seq::<Seq<char>>::empty());
    }
    while i < session.records.len()
        invariant
            i <= session.records.len(),
            records == records_view(session.records@),
            line == |record: CommandRecordView| record.command + "\n"@,
            stdout@ == concatenated(records.take(i as int).map_values(line)),
        decreases session.records.len() - i,
    {
        let record = &session.records[i];
        proof {
            let after = records.take(i + 1).map_values(line);
            assert(after.drop_last() =~= records.take(i as int).map_values(line));
            assert(after.last() == record.command@ + "\n"@);
        }
        let ghost written = stdout@;
        stdout.append(record.command.as_str());
        stdout.append("\n");
        proof {
            assert(stdout@ =~= written + (record.command@ + "\n"@));
        }
        i = i + 1;
    }
    proof {
        assert(records.take(i as int) =~= records);
    }
    Printed { stdout, stderr: title_text(session.name.as_str(), recorded_at) }
}

/// The line of one command in a brief listing.
fn brief_line_text(record: &CommandRecord) -> (text: String)
    ensures
        text@ == brief_line(record@),
{
    let mut text = String::from_str("    ");
    if record.status.is_executed() {
        text.append("$");
    } else {
        text.append("?");
    }
    text.append(" ");
    text.append(record.command.as_str());
    text.append("\n");
    text
}

/// The brief form of a session for a listing where it is number `key`. With
/// `max` no more than that many commands are shown.
pub fn print_session_brief(session: Session, recorded_at: &str, key: usize, max: Option<usize>) -> (stdout:
    String)
    ensures
        stdout@ == brief(session.name@, recorded_at@, session@.records, key as nat, max),
{
    let ghost records = session@.records;
    let ghost line = |record: CommandRecordView| brief_line(record);
    let len: usize = session.records.len();
    let shown: usize = match max {
        Some(m) => if m < len {
            m
        } else {
            len
        },
        None => len,
    };
    let mut stdout = decimal_text(key);
    stdout.append(": ");
    stdout.append(session.name.as_str());
    stdout.append(" (");
    stdout.append(recorded_at);
    stdout.append(")\n");
    let ghost head = stdout@;
    let mut i: usize = 0;
    proof {
        assert(records.take(0).map_values(line) =~= Seq::<Seq<char>>::empty());
        assert(stdout@ =~= head + concatenated(records.take(0).map_values(line)));
    }
    while i < shown
        invariant
            i <= shown <= len,
            len == session.records.len(),
            records == records_view(session.records@),
            line == |record: CommandRecordView| brief_line(record),
            stdout@ == head + concatenated(records.take(i as int).map_values(line)),
        decreases shown - i,
    {
        let text = brief_line_text(&session.records[i]);
        proof {
            let after = records.take(i + 1).map_values(line);
            assert(after.drop_last() =~= records.take(i as int).map_values(line));
            assert(after.last() == text@);
        }
        let ghost written = stdout@;
        stdout.append(text.as_str());
        proof {
            assert(stdout@ =~= head + (concatenated(records.take(i as int).map_values(line))
                + text@));
        }
        i = i + 1;
    }
    if shown < len {
        stdout.append("    ... (");
        stdout.append(decimal_text(len - shown).as_str());
        stdout.append(" more commands)\n");
    }
    proof {
        assert(stdout@ =~= brief(session.name@, recorded_at@, records, key as nat, max));
    }
    stdout
}

} // verus!
