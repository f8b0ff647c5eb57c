//! What the command line decides: where the commands of a run come from,
//! how a run goes on after each command, and which sessions an action is
//! about.

use std::path::PathBuf;
use vstd::prelude::*;
use vstd::string::*;

use crate::exec::{CommandResult, Environment};
use crate::reference::{
    names_of, resolutions, resolve_references, resolved_all_view, ReferenceError, ReferenceFailure,
};
use crate::session::{
    is_session_key, records_view, CommandRecord, CommandRecordSummaryView, CommandRecordView,
    CommandStatus, Session, SessionSummary, SessionSummaryView, Timestamp,
};
use crate::text::{decimal, decimal_text};

verus! {

/// std's `PathBuf`, carried through as it is: nothing is claimed of it.
#[verifier::external_type_specification]
#[verifier::external_body]
pub struct ExPathBuf(PathBuf);

/// The arguments of `run`.
#[derive(Debug)]
pub struct RunAction {
    pub interactive: bool,
    pub unchecked: bool,
    pub file: Vec<PathBuf>,
    pub session: Vec<String>,
    pub command: Vec<String>,
}

/// The arguments of `show`.
#[derive(Debug)]
pub struct ShowAction {
    pub script: bool,
    pub copy: bool,
    pub session: Vec<String>,
}

/// The arguments of `list`.
#[derive(Debug)]
pub struct ListAction {
    pub full: bool,
    pub limit: usize,
}

/// The arguments of `remove`.
#[derive(Debug)]
pub struct RemoveAction {
    pub all: bool,
    pub session: Vec<String>,
}

/// Where the commands of a run come from.
#[derive(Debug, Clone, Copy, PartialEq, Eq, Structural)]
pub enum CommandSource {
    /// The script files that were named.
    Files,
    /// The sessions that were referred to.
    Sessions,
    /// The command line itself.
    Arguments,
    /// The script on standard input.
    Stdin,
    /// Nowhere: every command is asked for.
    Nowhere,
}

impl RunAction {
    /// Files come before sessions, sessions before commands; without any of
    /// them the script is read from standard input, unless the run is
    /// interactive.
    pub open spec fn chosen_source(self) -> CommandSource {
        if self.file@.len() > 0 {
            CommandSource::Files
        } else if self.session@.len() > 0 {
            CommandSource::Sessions
        } else if self.command@.len() > 0 {
            CommandSource::Arguments
        } else if !self.interactive {
            CommandSource::Stdin
        } else {
            CommandSource::Nowhere
        }
    }

    /// Where the commands of this run come from.
    pub fn source(&self) -> (source: CommandSource)
        ensures
            source == self.chosen_source(),
    {
        if self.file.len() > 0 {
            CommandSource::Files
        } else if self.session.len() > 0 {
            CommandSource::Sessions
        } else if self.command.len() > 0 {
            CommandSource::Arguments
        } else if !self.interactive {
            CommandSource::Stdin
        } else {
            CommandSource::Nowhere
        }
    }

    /// Whether the run ends with the first command that fails.
    pub fn checked(&self) -> (checked: bool)
        ensures
            checked == !self.unchecked,
    {
        !self.unchecked
    }
}

/// The sessions that `show` is about: those referred to, or the most recent
/// one where none is named and there is one.
pub open spec fn shown_sessions(references: Seq<Seq<char>>, names: Seq<Seq<char>>) -> Result<
    Seq<Seq<char>>,
    ReferenceFailure,
> {
    if references.len() == 0 && names.len() > 0 {
        Ok(seq![names[0]])
    } else {
        resolutions(references, names)
    }
}

/// The sessions that `remove` is about: all of them, or those referred to.
pub open spec fn removed_sessions(
    all: bool,
    references: Seq<Seq<char>>,
    names: Seq<Seq<char>>,
) -> Result<Seq<Seq<char>>, ReferenceFailure> {
    if all {
        Ok(names)
    } else {
        resolutions(references, names)
    }
}

impl ShowAction {
    /// The names of the sessions to show, given the names of all sessions,
    /// the most recent first.
    pub fn sessions(&self, session_names: &[String]) -> (shown: Result<Vec<String>, ReferenceError>)
        ensures
            resolved_all_view(shown) == shown_sessions(
                names_of(self.session@),
                names_of(session_names@),
            ),
    {
        if self.session.len() == 0 && session_names.len() > 0 {
            let mut shown: Vec<String> = Vec::new();
            shown.push(session_names[0].clone());
            proof {
                assert(names_of(shown@) =~= seq![names_of(session_names@)[0]]);
            }
            Ok(shown)
        } else {
            resolve_references(self.session.as_slice(), session_names)
        }
    }
}

impl RemoveAction {
    /// The names of the sessions to remove, given the names of all sessions,
    /// the most recent first.
    pub fn sessions(&self, session_names: Vec<String>) -> (removed: Result<
        Vec<String>,
        ReferenceError,
    >)
        ensures
            resolved_all_view(removed) == removed_sessions(
                self.all,
                names_of(self.session@),
                names_of(session_names@),
            ),
    {
        if self.all {
            Ok(session_names)
        } else {
            resolve_references(self.session.as_slice(), session_names.as_slice())
        }
    }
}

/// How many commands of a session a listing shows unless it is full.
pub const BRIEF_COMMANDS: usize = 5;

impl ListAction {
    /// How many of `sessions` sessions the listing shows.
    pub fn shown(&self, sessions: usize) -> (shown: usize)
        ensures
            shown == if self.limit < sessions {
                self.limit
            } else {
                sessions
            },
    {
        if self.limit < sessions {
            self.limit
        } else {
            sessions
        }
    }

    /// How many commands of each session the listing shows at most.
    pub fn max_commands(&self) -> (max: Option<usize>)
        ensures
            max == if self.full {
                None
            } else {
                Some(BRIEF_COMMANDS)
            },
    {
        if self.full {
            None
        } else {
            Some(BRIEF_COMMANDS)
        }
    }
}

/// The line that ends a listing.
pub open spec fn footer(shown: nat, sessions: nat) -> Seq<char> {
    "("@ + decimal(shown) + " / "@ + decimal(sessions) + " sessions)\n"@
}

/// Writes the line that ends a listing of `shown` out of `sessions` sessions.
pub fn listing_footer(shown: usize, sessions: usize) -> (line: String)
    ensures
        line@ == footer(shown as nat, sessions as nat),
{
    let mut line = String::from_str("(");
    line.append(decimal_text(shown).as_str());
    line.append(" / ");
    line.append(decimal_text(sessions).as_str());
    line.append(" sessions)\n");
    line
}

/// Whether the records from `from` up to `to` all have the status `status`.
pub open spec fn all_status(
    records: Seq<CommandRecordView>,
    from: int,
    to: int,
    status: CommandStatus,
) -> bool {
    forall|i: int| from <= i < to ==> (#[trigger] records[i]).status == status
}

/// Whether the run ended with the command at `k`: it failed, every command
/// before it succeeded, and every command behind it was skipped.
pub open spec fn ended_at(records: Seq<CommandRecordView>, k: int) -> bool {
    &&& 0 <= k < records.len()
    &&& records[k].status == CommandStatus::Failed
    &&& all_status(records, 0, k, CommandStatus::Succeeded)
    &&& all_status(records, k + 1, records.len() as int, CommandStatus::Skipped)
}

/// Whether a run can have come to these commands. A checked run ends with
/// the first command that fails, and every command behind that one is
/// skipped. No other command is ever skipped.
pub open spec fn is_run(checked: bool, terminated: bool, records: Seq<CommandRecordView>) -> bool {
    if terminated {
        checked && exists|k: int| #[trigger] ended_at(records, k)
    } else if checked {
        all_status(records, 0, records.len() as int, CommandStatus::Succeeded)
    } else {
        forall|i: int|
            0 <= i < records.len() ==> (#[trigger] records[i]).status != CommandStatus::Skipped
    }
}

/// A run that goes on stays a run with one more command that ran; it ends
/// there if it is checked and the command failed.
pub proof fn lemma_run_goes_on(
    checked: bool,
    records: Seq<CommandRecordView>,
    record: CommandRecordView,
)
    requires
        is_run(checked, false, records),
        record.status != CommandStatus::Skipped,
    ensures
        is_run(
            checked,
            checked && record.status == CommandStatus::Failed,
            records.push(record),
        ),
{
    let after = records.push(record);
    let k = records.len() as int;
    if checked && record.status == CommandStatus::Failed {
        assert(ended_at(after, k));
    }
}

/// A run that has ended stays one with one more command that is skipped.
pub proof fn lemma_run_skips(
    checked: bool,
    records: Seq<CommandRecordView>,
    record: CommandRecordView,
)
    requires
        is_run(checked, true, records),
        record.status == CommandStatus::Skipped,
    ensures
        is_run(checked, true, records.push(record)),
{
    let after = records.push(record);
    let k = choose|k: int| #[trigger] ended_at(records, k);
    assert(ended_at(after, k));
}

/// What is recorded of a command that ran.
pub open spec fn executed_record(
    command: Seq<char>,
    output: Seq<char>,
    succeeded: bool,
) -> CommandRecordView {
    CommandRecordView {
        command,
        output,
        status: if succeeded {
            CommandStatus::Succeeded
        } else {
            CommandStatus::Failed
        },
    }
}

/// What is recorded of a command that did not run.
pub open spec fn skipped_record(command: Seq<char>) -> CommandRecordView {
    CommandRecordView { command, output: Seq::<char>::empty(), status: CommandStatus::Skipped }
}

/// A run between two of its commands: what has been recorded so far, and
/// whether the run has ended.
#[derive(Debug)]
pub struct Recording {
    checked: bool,
    terminated: bool,
    records: Vec<CommandRecord>,
}

/// A run that is over: the session to store, and whether a command failed
/// and ended it.
#[derive(Debug)]
pub struct Recorded {
    pub session: Session,
    pub terminated: bool,
}

impl Recording {
    /// Whether the run ends with the first command that fails.
    pub closed spec fn checked(&self) -> bool {
        self.checked
    }

    /// Whether a command has failed and ended the run.
    pub closed spec fn terminated(&self) -> bool {
        self.terminated
    }

    /// What has been recorded, in the order of the commands.
    pub closed spec fn records(&self) -> Seq<CommandRecordView> {
        records_view(self.records@)
    }

    /// Whether the run can have come here.
    pub open spec fn well_formed(&self) -> bool {
        is_run(self.checked(), self.terminated(), self.records())
    }

    /// A run before its first command.
    pub fn new(checked: bool) -> (recording: Recording)
        ensures
            recording.well_formed(),
            recording.checked() == checked,
            !recording.terminated(),
            recording.records() == Seq::<CommandRecordView>::empty(),
    {
        let recording = Recording { checked, terminated: false, records: Vec::new() };
        proof {
            assert(recording.records() =~= Seq::<CommandRecordView>::empty());
        }
        recording
    }

    /// Whether the run has ended: no further command is to be executed.
    pub fn is_terminated(&self) -> (terminated: bool)
        ensures
            terminated == self.terminated(),
    {
        self.terminated
    }

    /// Whether a command has been recorded, so that an empty line goes
    /// before the next.
    pub fn has_records(&self) -> (any: bool)
        ensures
            any == (self.records().len() > 0),
    {
        self.records.len() > 0
    }

    /// Records a command that ran, and hands on the environment that it
    /// left. A checked run ends here if the command failed.
    pub fn complete(&mut self, command: String, result: CommandResult) -> (env: Environment)
        requires
            old(self).well_formed(),
            !old(self).terminated(),
        ensures
            final(self).well_formed(),
            final(self).checked() == old(self).checked(),
            final(self).terminated() == (old(self).checked() && !result.succeeded),
            final(self).records() == old(self).records().push(
                executed_record(command@, result.output@, result.succeeded),
            ),
            env == result.new_env,
    {
        let ghost before = self.records();
        let status = if result.succeeded {
            CommandStatus::Succeeded
        } else {
            CommandStatus::Failed
        };
        let record = CommandRecord { command, output: result.output, status };
        let ok = record.status.is_succeeded();
        self.records.push(record);
        self.terminated = self.checked && !ok;
        proof {
            assert(self.records() =~= before.push(record@));
            lemma_run_goes_on(self.checked, before, record@);
        }
        result.new_env
    }

    /// Records a command that does not run because the run has ended.
    pub fn skip(&mut self, command: String)
        requires
            old(self).well_formed(),
            old(self).terminated(),
        ensures
            final(self).well_formed(),
            final(self).checked() == old(self).checked(),
            final(self).terminated(),
            final(self).records() == old(self).records().push(skipped_record(command@)),
    {
        let ghost before = self.records();
        let record = CommandRecord {
            command,
            output: String::new(),
            status: CommandStatus::Skipped,
        };
        self.records.push(record);
        proof {
            assert(self.records() =~= before.push(record@));
            lemma_run_skips(self.checked, before, record@);
        }
    }

    /// Ends the run: the session recorded at `now`, under a new name.
    pub fn finish(self, now: Timestamp) -> (recorded: Recorded)
        ensures
            is_session_key(recorded.session.name@, now),
            recorded.session.recorded_at == now,
            recorded.session@.records == self.records(),
            recorded.terminated == self.terminated(),
    {
        Recorded { session: Session::new(now, self.records), terminated: self.terminated }
    }
}

/// The commands of the sessions, one session after the other.
pub open spec fn commands_of_sessions(sessions: Seq<SessionSummaryView>) -> Seq<Seq<char>>
    decreases sessions.len(),
{
    if sessions.len() == 0 {
        seq![]
    } else {
        commands_of_sessions(sessions.drop_last()) + sessions.last().records.map_values(
            |record: CommandRecordSummaryView| record.command,
        )
    }
}

/// The sessions, each by its view.
pub open spec fn sessions_view(sessions: Seq<SessionSummary>) -> Seq<SessionSummaryView> {
    sessions.map_values(|session: SessionSummary| session@)
}

/// Gathers the commands of the sessions, to run them again.
pub fn collect_commands(sessions: &[SessionSummary]) -> (commands: Vec<String>)
    ensures
        names_of(commands@) == commands_of_sessions(sessions_view(sessions@)),
{
    let ghost all = sessions_view(sessions@);
    let mut commands: Vec<String> = Vec::new();
    let mut i: usize = 0;
    proof {
        assert(names_of(commands@) =~= commands_of_sessions(all.take(0)));
    }
    while i < sessions.len()
        invariant
            i <= sessions.len(),
            all == sessions_view(sessions@),
            names_of(commands@) == commands_of_sessions(all.take(i as int)),
        decreases sessions.len() - i,
    {
        let session = &sessions[i];
        let ghost before = names_of(commands@);
        let ghost wanted = session@.records.map_values(
            |record: CommandRecordSummaryView| record.command,
        );
        let mut j: usize = 0;
        while j < session.records.len()
            invariant
                j <= session.records.len(),
                wanted == session@.records.map_values(
                    |record: CommandRecordSummaryView| record.command,
                ),
                names_of(commands@) == before + wanted.take(j as int),
            decreases session.records.len() - j,
        {
            let command = session.records[j].command.clone();
            proof {
                assert(wanted[j as int] == session@.records[j as int].command);
                assert(names_of(commands@.push(command)) =~= names_of(commands@).push(command@));
                assert(wanted.take(j + 1) =~= wanted.take(j as int).push(command@));
            }
            commands.push(command);
            j = j + 1;
        }
        proof {
            assert(wanted.take(j as int) =~= wanted);
            assert(all.take(i + 1).drop_last() =~= all.take(i as int));
            assert(all.take(i + 1).last() == session@);
        }
        i = i + 1;
    }
    proof {
        assert(all.take(i as int) =~= all);
    }
    commands
}

} // verus!
