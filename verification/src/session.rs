//! The session model: what is recorded of each command, how a session is
//! named, and what a listing keeps of it.

use std::fmt::Write;
use vstd::prelude::*;
use vstd::string::*;

use crate::text::{ascii_chars, ascii_text, concat2};

verus! {

/// How a command of a session ended.
#[derive(Debug, Clone, Copy, PartialEq, Eq, Structural)]
pub enum CommandStatus {
    Succeeded,
    Failed,
    Skipped,
}

impl CommandStatus {
    /// Whether the command ran at all.
    pub open spec fn executed(self) -> bool {
        self != CommandStatus::Skipped
    }

    /// Whether the command ran and left with exit code zero.
    pub open spec fn succeeded(self) -> bool {
        self == CommandStatus::Succeeded
    }

    /// Whether the command ran at all.
    pub fn is_executed(&self) -> (executed: bool)
        ensures
            executed == self.executed(),
    {
        match self {
            CommandStatus::Succeeded => true,
            CommandStatus::Failed => true,
            CommandStatus::Skipped => false,
        }
    }

    /// Whether the command ran and left with exit code zero.
    pub fn is_succeeded(&self) -> (succeeded: bool)
        ensures
            succeeded == self.succeeded(),
    {
        match self {
            CommandStatus::Succeeded => true,
            CommandStatus::Failed => false,
            CommandStatus::Skipped => false,
        }
    }
}

/// What chrono's `DateTime<Utc>::format` writes for the instant `secs`
/// seconds and `nanos` nanoseconds after the Unix epoch under `pattern`;
/// `None` where chrono has no such instant or refuses the pattern.
pub uninterp spec fn utc_text(secs: i64, nanos: u32, pattern: Seq<char>) -> Option<Seq<char>>;

/// Calls chrono's `DateTime::from_timestamp` and `DateTime::format`. The
/// contract names what they write for the given instant and pattern.
#[verifier::external_body]
fn format_utc(secs: i64, nanos: u32, pattern: &str) -> (text: Option<String>)
    ensures
        match text {
            Some(t) => utc_text(secs, nanos, pattern@) == Some(t@),
            None => utc_text(secs, nanos, pattern@) is None,
        },
{
    let at = chrono::DateTime::from_timestamp(secs, nanos)?;
    let mut text = String::new();
    write!(text, "{}", at.format(pattern)).ok()?;
    Some(text)
}

/// The pattern of the time stamp that begins a session's name: year, month,
/// day, hour, minute, second and milliseconds, without separators.
pub open spec fn key_stamp_pattern() -> Seq<char> {
    "%Y%m%d%H%M%S%3f"@
}

/// An instant in UTC, as seconds and nanoseconds after the Unix epoch. Every
/// value is an instant of the calendar: its time stamp can be written.
#[derive(Debug, Clone, Copy, PartialEq, Eq)]
pub struct Timestamp {
    secs: i64,
    nanos: u32,
}

impl Timestamp {
    #[verifier::type_invariant]
    pub closed spec fn is_instant(self) -> bool {
        utc_text(self.secs, self.nanos, key_stamp_pattern()) is Some
    }

    /// Whole seconds after the Unix epoch.
    pub closed spec fn seconds(self) -> i64 {
        self.secs
    }

    /// Nanoseconds after the last whole second.
    pub closed spec fn nanoseconds(self) -> u32 {
        self.nanos
    }

    /// The time stamp that begins the name of a session recorded at this
    /// instant.
    pub open spec fn key_stamp(self) -> Seq<char> {
        utc_text(self.seconds(), self.nanoseconds(), key_stamp_pattern())->0
    }

    /// The instant `secs` seconds and `nanos` nanoseconds after the Unix
    /// epoch, where the calendar holds it.
    pub fn new(secs: i64, nanos: u32) -> (made: Option<Timestamp>)
        ensures
            made is Some <==> utc_text(secs, nanos, key_stamp_pattern()) is Some,
            made matches Some(at) ==> at.seconds() == secs && at.nanoseconds() == nanos,
    {
        match format_utc(secs, nanos, "%Y%m%d%H%M%S%3f") {
            Some(_) => Some(Timestamp { secs, nanos }),
            None => None,
        }
    }

    /// Whole seconds after the Unix epoch.
    pub fn secs(&self) -> (secs: i64)
        ensures
            secs == self.seconds(),
    {
        self.secs
    }

    /// Nanoseconds after the last whole second.
    pub fn subsec_nanos(&self) -> (nanos: u32)
        ensures
            nanos == self.nanoseconds(),
    {
        self.nanos
    }

    /// Writes the time stamp of this instant.
    fn format_key_stamp(&self) -> (stamp: String)
        ensures
            stamp@ == self.key_stamp(),
    {
        proof {
            use_type_invariant(self);
        }
        format_utc(self.secs, self.nanos, "%Y%m%d%H%M%S%3f").unwrap()
    }
}

/// One command of a session, with all that it wrote.
#[derive(Debug, PartialEq)]
pub struct CommandRecord {
    pub command: String,
    pub output: String,
    pub status: CommandStatus,
}

/// A `CommandRecord` over sequences of characters.
pub struct CommandRecordView {
    pub command: Seq<char>,
    pub output: Seq<char>,
    pub status: CommandStatus,
}

impl View for CommandRecord {
    type V = CommandRecordView;

    open spec fn view(&self) -> CommandRecordView {
        CommandRecordView { command: self.command@, output: self.output@, status: self.status }
    }
}

/// A command of a session without what it wrote.
#[derive(Debug, PartialEq)]
pub struct CommandRecordSummary {
    pub command: String,
    pub status: CommandStatus,
}

/// A `CommandRecordSummary` over sequences of characters.
pub struct CommandRecordSummaryView {
    pub command: Seq<char>,
    pub status: CommandStatus,
}

impl View for CommandRecordSummary {
    type V = CommandRecordSummaryView;

    open spec fn view(&self) -> CommandRecordSummaryView {
        CommandRecordSummaryView { command: self.command@, status: self.status }
    }
}

impl CommandRecordView {
    /// The record without what the command wrote.
    pub open spec fn summary(self) -> CommandRecordSummaryView {
        CommandRecordSummaryView { command: self.command, status: self.status }
    }
}

/// A recorded session: its commands in the order in which they ran.
#[derive(Debug, PartialEq)]
pub struct Session {
    pub name: String,
    pub recorded_at: Timestamp,
    pub records: Vec<CommandRecord>,
}

/// A `Session` over sequences.
pub struct SessionView {
    pub name: Seq<char>,
    pub recorded_at: Timestamp,
    pub records: Seq<CommandRecordView>,
}

/// The records of a session, each by its view.
pub open spec fn records_view(records: Seq<CommandRecord>) -> Seq<CommandRecordView> {
    records.map_values(|record: CommandRecord| record@)
}

impl View for Session {
    type V = SessionView;

    open spec fn view(&self) -> SessionView {
        SessionView {
            name: self.name@,
            recorded_at: self.recorded_at,
            records: records_view(self.records@),
        }
    }
}

/// A session without what its commands wrote.
#[derive(Debug, PartialEq)]
pub struct SessionSummary {
    pub name: String,
    pub recorded_at: Timestamp,
    pub records: Vec<CommandRecordSummary>,
}

/// A `SessionSummary` over sequences.
pub struct SessionSummaryView {
    pub name: Seq<char>,
    pub recorded_at: Timestamp,
    pub records: Seq<CommandRecordSummaryView>,
}

/// The records of a summary, each by its view.
pub open spec fn summaries_view(records: Seq<CommandRecordSummary>) -> Seq<
    CommandRecordSummaryView,
> {
    records.map_values(|record: CommandRecordSummary| record@)
}

impl View for SessionSummary {
    type V = SessionSummaryView;

    open spec fn view(&self) -> SessionSummaryView {
        SessionSummaryView {
            name: self.name@,
            recorded_at: self.recorded_at,
            records: summaries_view(self.records@),
        }
    }
}

impl SessionView {
    /// The session without what its commands wrote.
    pub open spec fn summary(self) -> SessionSummaryView {
        SessionSummaryView {
            name: self.name,
            recorded_at: self.recorded_at,
            records: self.records.map_values(|record: CommandRecordView| record.summary()),
        }
    }
}

/// Whether `b` is one of the sixteen lower-case hexadecimal digits.
pub open spec fn is_hex_digit(b: u8) -> bool {
    (0x30 <= b <= 0x39) || (0x61 <= b <= 0x66)
}

/// The sixteen lower-case hexadecimal digits.
pub open spec fn hex_digits() -> Seq<u8> {
    seq![
        0x30u8, 0x31u8, 0x32u8, 0x33u8, 0x34u8, 0x35u8, 0x36u8, 0x37u8, 0x38u8, 0x39u8, 0x61u8,
        0x62u8, 0x63u8, 0x64u8, 0x65u8, 0x66u8,
    ]
}

/// Whether `c` is a lower-case hexadecimal digit.
pub open spec fn is_hex_char(c: char) -> bool {
    ('0' <= c <= '9') || ('a' <= c <= 'f')
}

/// Whether `suffix` can end a session's name: eight lower-case hexadecimal
/// digits.
pub open spec fn is_key_suffix(suffix: Seq<char>) -> bool {
    suffix.len() == 8 && forall|i: int| 0 <= i < 8 ==> is_hex_char(#[trigger] suffix[i])
}

/// The name that a time stamp and a suffix make.
pub open spec fn key_of(stamp: Seq<char>, suffix: Seq<char>) -> Seq<char> {
    stamp + seq!['-'] + suffix
}

/// Whether `name` can name a session recorded at `at`: the time stamp of
/// `at`, a hyphen and eight lower-case hexadecimal digits.
pub open spec fn is_session_key(name: Seq<char>, at: Timestamp) -> bool {
    exists|suffix: Seq<char>|
        #![trigger key_of(at.key_stamp(), suffix)]
        is_key_suffix(suffix) && name == key_of(at.key_stamp(), suffix)
}

/// rand's `ThreadRng`, carried through as it is: nothing is claimed of it.
#[verifier::external_type_specification]
#[verifier::external_body]
pub struct ExThreadRng(rand::rngs::ThreadRng);

/// rand's `thread_rng` hands out the generator of the calling thread; nothing
/// is claimed of it.
pub assume_specification[ rand::thread_rng ]() -> (rng: rand::rngs::ThreadRng);

/// Calls rand's `SliceRandom::choose` on a slice of bytes. The contract
/// claims that an empty slice gives `None` and any other one of its bytes.
#[verifier::external_body]
fn choose_byte(pool: &[u8], rng: &mut rand::rngs::ThreadRng) -> (picked: Option<u8>)
    ensures
        pool@.len() == 0 ==> picked is None,
        pool@.len() > 0 ==> picked is Some && pool@.contains(picked->0),
{
    rand::seq::SliceRandom::choose(pool, rng).copied()
}

/// Joins a time stamp and a suffix to a session's name.
pub fn session_key(stamp: &str, suffix: &str) -> (key: String)
    ensures
        key@ == key_of(stamp@, suffix@),
{
    let mut key = concat2(stamp, "-");
    key.append(suffix);
    proof {
        reveal_strlit("-");
        assert("-"@ =~= seq!['-']);
    }
    key
}

/// Draws the eight digits that end a session's name.
fn random_suffix() -> (suffix: String)
    ensures
        is_key_suffix(suffix@),
{
    let pool: [u8; 16] = [
        0x30, 0x31, 0x32, 0x33, 0x34, 0x35, 0x36, 0x37, 0x38, 0x39, 0x61, 0x62, 0x63, 0x64, 0x65,
        0x66,
    ];
    assert(pool@ =~= hex_digits());
    let mut rng = rand::thread_rng();
    let mut digits: Vec<u8> = Vec::new();
    while digits.len() < 8
        invariant
            pool@ == hex_digits(),
            digits@.len() <= 8,
            forall|i: int| 0 <= i < digits@.len() ==> is_hex_digit(#[trigger] digits@[i]),
        decreases 8 - digits@.len(),
    {
        match choose_byte(pool.as_slice(), &mut rng) {
            Some(digit) => {
                assert(is_hex_digit(digit)) by {
                    let at = choose|i: int| 0 <= i < pool@.len() && pool@[i] == digit;
                    assert(pool@[at] == digit);
                }
                digits.push(digit);
            },
            None => {},
        }
    }
    let ghost drawn = digits@;
    let suffix = ascii_text(digits);
    proof {
        assert forall|i: int| 0 <= i < 8 implies is_hex_char(#[trigger] suffix@[i]) by {
            assert(is_hex_digit(drawn[i]));
            assert(suffix@[i] == drawn[i] as char);
        }
    }
    suffix
}

/// Names a session recorded at `now`.
fn generate_session_key(now: Timestamp) -> (key: String)
    ensures
        is_session_key(key@, now),
{
    let stamp = now.format_key_stamp();
    let suffix = random_suffix();
    let key = session_key(stamp.as_str(), suffix.as_str());
    assert(key@ == key_of(now.key_stamp(), suffix@));
    key
}

impl Session {
    /// Assembles the session recorded at `recorded_at` and gives it its name.
    pub fn new(recorded_at: Timestamp, records: Vec<CommandRecord>) -> (session: Session)
        ensures
            is_session_key(session.name@, recorded_at),
            session.recorded_at == recorded_at,
            session.records == records,
    {
        Session { name: generate_session_key(recorded_at), recorded_at, records }
    }

    /// The session without what its commands wrote.
    pub fn summary(&self) -> (summary: SessionSummary)
        ensures
            summary@ == self@.summary(),
    {
        let mut records: Vec<CommandRecordSummary> = Vec::new();
        let mut i: usize = 0;
        while i < self.records.len()
            invariant
                i <= self.records.len(),
                records@.len() == i,
                forall|j: int| 0 <= j < i ==> (#[trigger] records@[j])@ == self.records@[j]@.summary(),
            decreases self.records.len() - i,
        {
            let record = &self.records[i];
            records.push(
                CommandRecordSummary { command: record.command.clone(), status: record.status },
            );
            i = i + 1;
        }
        let summary = SessionSummary {
            name: self.name.clone(),
            recorded_at: self.recorded_at,
            records,
        };
        assert(summary@.records =~= self@.summary().records);
        summary
    }
}

} // verus!
