//! What the executor computes around the run of one command: the script that
//! the shell gets, and the result that is read from what the shell left.

use vstd::prelude::*;
use vstd::string::*;
use vstd::utf8::*;

use crate::text::{
    concat2, find_char, first_position, from_utf8, from_utf8_lossy, lemma_first_position,
    lossy_decoding, same_text,
};

verus! {

/// The exported variables and the working directory that one command leaves
/// to the next. Without variables or directory the shell starts from those
/// of the calling process.
#[derive(Debug, PartialEq)]
pub struct Environment {
    pub env_vars: Option<Vec<(String, String)>>,
    pub work_dir: Option<String>,
}

/// An `Environment` over sequences of characters.
pub struct EnvironmentView {
    pub env_vars: Option<Seq<(Seq<char>, Seq<char>)>>,
    pub work_dir: Option<Seq<char>>,
}

/// Names and values of variables, as sequences of characters.
pub open spec fn entries_view(entries: Seq<(String, String)>) -> Seq<(Seq<char>, Seq<char>)> {
    entries.map_values(|entry: (String, String)| (entry.0@, entry.1@))
}

impl View for Environment {
    type V = EnvironmentView;

    open spec fn view(&self) -> EnvironmentView {
        EnvironmentView {
            env_vars: match self.env_vars {
                Some(entries) => Some(entries_view(entries@)),
                None => None,
            },
            work_dir: match self.work_dir {
                Some(dir) => Some(dir@),
                None => None,
            },
        }
    }
}

impl Default for Environment {
    /// The environment before the first command: nothing is set.
    fn default() -> (env: Environment)
        ensures
            env.env_vars is None,
            env.work_dir is None,
    {
        Environment { env_vars: None, work_dir: None }
    }
}

/// What the run of one command gave.
#[derive(Debug, PartialEq)]
pub struct CommandResult {
    pub new_env: Environment,
    pub output: String,
    pub succeeded: bool,
}

/// Why the run of a command gave no result.
#[derive(Debug, Clone, Copy, PartialEq, Eq, Structural)]
pub enum ExecError {
    /// The scratch directory could not be made.
    ScratchDir,
    /// The shell could not be started.
    Spawn,
    /// What the command wrote could not be read or passed on.
    OutputStream,
    /// The output ended and the shell had left no exit status.
    UnexpectedEof,
    /// The dump of the environment could not be read.
    EnvDumpUnreadable,
    /// A record of the dump is not UTF-8.
    EnvDumpNotUtf8,
    /// A record of the dump holds no `=`.
    EnvDumpFormat,
}

impl ExecError {
    /// The words that tell a user of the error.
    pub open spec fn message_text(self) -> Seq<char> {
        match self {
            ExecError::ScratchDir => "could not create temporary directory"@,
            ExecError::Spawn => "could not execute `bash`"@,
            ExecError::OutputStream => "could not read command output"@,
            ExecError::UnexpectedEof => "unexpected EOF while reading command output"@,
            ExecError::EnvDumpUnreadable => "could not read env file"@,
            ExecError::EnvDumpNotUtf8 => "could not parse env file as utf8"@,
            ExecError::EnvDumpFormat => "unexpected env file format"@,
        }
    }

    /// The words that tell a user of the error.
    pub fn message(&self) -> (message: String)
        ensures
            message@ == self.message_text(),
    {
        match self {
            ExecError::ScratchDir => String::from_str("could not create temporary directory"),
            ExecError::Spawn => String::from_str("could not execute `bash`"),
            ExecError::OutputStream => String::from_str("could not read command output"),
            ExecError::UnexpectedEof => String::from_str(
                "unexpected EOF while reading command output",
            ),
            ExecError::EnvDumpUnreadable => String::from_str("could not read env file"),
            ExecError::EnvDumpNotUtf8 => String::from_str("could not parse env file as utf8"),
            ExecError::EnvDumpFormat => String::from_str("unexpected env file format"),
        }
    }
}

/// The records of a dump: each ends before a NUL, and what follows the last
/// NUL is a record too unless it is empty.
pub open spec fn dump_records(bytes: Seq<u8>) -> Seq<Seq<u8>>
    decreases bytes.len(),
{
    if bytes.len() == 0 {
        seq![]
    } else {
        let end = first_position(bytes, 0u8) as int;
        if end >= bytes.len() {
            seq![bytes]
        } else {
            seq![bytes.take(end)] + dump_records(bytes.skip(end + 1))
        }
    }
}

/// The variable that a record sets: its name before the first `=`, its value
/// behind it.
pub open spec fn entry_of(record: Seq<u8>) -> Result<(Seq<char>, Seq<char>), ExecError> {
    if !valid_utf8(record) {
        Err(ExecError::EnvDumpNotUtf8)
    } else {
        let text = decode_utf8(record);
        let at = first_position(text, '=') as int;
        if at >= text.len() {
            Err(ExecError::EnvDumpFormat)
        } else {
            Ok((text.take(at), text.skip(at + 1)))
        }
    }
}

/// The variables that the records set, in their order and with every
/// repetition; the error of the first record that sets none.
pub open spec fn entries_of(records: Seq<Seq<u8>>) -> Result<
    Seq<(Seq<char>, Seq<char>)>,
    ExecError,
>
    decreases records.len(),
{
    if records.len() == 0 {
        Ok(seq![])
    } else {
        match entries_of(records.drop_last()) {
            Err(error) => Err(error),
            Ok(entries) => match entry_of(records.last()) {
                Err(error) => Err(error),
                Ok(entry) => Ok(entries.push(entry)),
            },
        }
    }
}

/// The value of the last entry named `name`.
pub open spec fn last_value(entries: Seq<(Seq<char>, Seq<char>)>, name: Seq<char>) -> Option<
    Seq<char>,
>
    decreases entries.len(),
{
    if entries.len() == 0 {
        None
    } else if entries.last().0 == name {
        Some(entries.last().1)
    } else {
        last_value(entries.drop_last(), name)
    }
}

/// The environment that a dump describes: all its variables, and as working
/// directory the value of the last `PWD`.
pub open spec fn dumped_environment(bytes: Seq<u8>) -> Result<EnvironmentView, ExecError> {
    match entries_of(dump_records(bytes)) {
        Err(error) => Err(error),
        Ok(entries) => Ok(
            EnvironmentView { env_vars: Some(entries), work_dir: last_value(entries, "PWD"@) },
        ),
    }
}

/// What `parse_env_file` returned, over sequences of characters.
pub open spec fn parsed_view(parsed: Result<Environment, ExecError>) -> Result<
    EnvironmentView,
    ExecError,
> {
    match parsed {
        Ok(env) => Ok(env@),
        Err(error) => Err(error),
    }
}

/// Once some first records fail, all of them do, in the same way.
pub proof fn lemma_entries_error_stays(records: Seq<Seq<u8>>, k: int)
    requires
        0 <= k <= records.len(),
        entries_of(records.take(k)) is Err,
    ensures
        entries_of(records) == entries_of(records.take(k)),
    decreases records.len() - k,
{
    if k == records.len() {
        assert(records.take(k) =~= records);
    } else {
        assert(records.take(k + 1).drop_last() =~= records.take(k));
        lemma_entries_error_stays(records, k + 1);
    }
}

/// A dump that can be read gives one variable for each record, in the order
/// of the records; a name that occurs twice is kept twice.
pub proof fn lemma_entries_follow_records(records: Seq<Seq<u8>>)
    requires
        entries_of(records) is Ok,
    ensures
        entries_of(records)->Ok_0.len() == records.len(),
        forall|i: int|
            0 <= i < records.len() ==> entry_of(#[trigger] records[i]) == Ok::<
                (Seq<char>, Seq<char>),
                ExecError,
            >(entries_of(records)->Ok_0[i]),
    decreases records.len(),
{
    if records.len() > 0 {
        let front = records.drop_last();
        lemma_entries_follow_records(front);
        assert forall|i: int| 0 <= i < records.len() implies entry_of(#[trigger] records[i])
            == Ok::<(Seq<char>, Seq<char>), ExecError>(entries_of(records)->Ok_0[i]) by {
            if i < front.len() {
                assert(records[i] == front[i]);
            }
        }
    }
}

/// The value found for a name is that of the last entry of that name, and
/// none is found only where no entry has the name.
pub proof fn lemma_last_value(entries: Seq<(Seq<char>, Seq<char>)>, name: Seq<char>)
    ensures
        match last_value(entries, name) {
            Some(value) => exists|i: int|
                0 <= i < entries.len() && #[trigger] entries[i] == (name, value) && forall|j: int|
                    i < j < entries.len() ==> (#[trigger] entries[j]).0 != name,
            None => forall|j: int| 0 <= j < entries.len() ==> (#[trigger] entries[j]).0 != name,
        },
    decreases entries.len(),
{
    if entries.len() > 0 {
        let front = entries.drop_last();
        if entries.last().0 == name {
            assert(entries[entries.len() - 1] == (name, entries.last().1));
        } else {
            lemma_last_value(front, name);
            match last_value(front, name) {
                Some(value) => {
                    let i = choose|i: int|
                        0 <= i < front.len() && #[trigger] front[i] == (name, value) && forall|
                            j: int,
                        |
                            i < j < front.len() ==> (#[trigger] front[j]).0 != name;
                    assert(entries[i] == front[i]);
                    assert forall|j: int| i < j < entries.len() implies (#[trigger] entries[j]).0
                        != name by {
                        if j < front.len() {
                            assert(entries[j] == front[j]);
                        }
                    }
                },
                None => {
                    assert forall|j: int| 0 <= j < entries.len() implies (#[trigger] entries[j]).0
                        != name by {
                        if j < front.len() {
                            assert(entries[j] == front[j]);
                        }
                    }
                },
            }
        }
    }
}

/// The record that `env -0` writes for a variable: its name, `=` and its
/// value, in UTF-8.
pub open spec fn record_of(entry: (Seq<char>, Seq<char>)) -> Seq<u8> {
    encode_utf8(entry.0 + seq!['='] + entry.1)
}

/// The dump that `env -0` writes for the variables: the record of each,
/// ended by a NUL.
pub open spec fn dump_of(entries: Seq<(Seq<char>, Seq<char>)>) -> Seq<u8>
    decreases entries.len(),
{
    if entries.len() == 0 {
        seq![]
    } else {
        record_of(entries[0]) + seq![0u8] + dump_of(entries.drop_first())
    }
}

/// Whether a variable can stand in a dump: its name holds neither `=` nor
/// NUL, and its value no NUL.
pub open spec fn is_dumpable(entry: (Seq<char>, Seq<char>)) -> bool {
    &&& forall|i: int| 0 <= i < entry.0.len() ==> entry.0[i] != '=' && entry.0[i] != '\0'
    &&& forall|i: int| 0 <= i < entry.1.len() ==> entry.1[i] != '\0'
}

/// The UTF-8 encoding of a character other than NUL holds no NUL.
proof fn lemma_scalar_without_nul(scalar: u32)
    requires
        scalar != 0,
    ensures
        forall|i: int| 0 <= i < encode_scalar(scalar).len() ==> encode_scalar(scalar)[i] != 0,
{
    if has_width_1_encoding(scalar) {
        assert((scalar & 0x7F) as u8 != 0) by (bit_vector)
            requires
                scalar != 0,
                scalar <= 0x7F,
        ;
    } else {
        let a: u8 = ((scalar >> 6) & 0x1F) as u8;
        let b: u8 = ((scalar >> 12) & 0x0F) as u8;
        let c: u8 = ((scalar >> 18) & 0x7) as u8;
        let d: u8 = (scalar & 0x3F) as u8;
        let e: u8 = ((scalar >> 6) & 0x3F) as u8;
        let f: u8 = ((scalar >> 12) & 0x3F) as u8;
        assert(0xC0u8 | a != 0) by (bit_vector);
        assert(0xE0u8 | b != 0) by (bit_vector);
        assert(0xF0u8 | c != 0) by (bit_vector);
        assert(0x80u8 | d != 0) by (bit_vector);
        assert(0x80u8 | e != 0) by (bit_vector);
        assert(0x80u8 | f != 0) by (bit_vector);
    }
}

/// The UTF-8 encoding of text without NUL holds no NUL.
proof fn lemma_encoding_without_nul(text: Seq<char>)
    requires
        forall|i: int| 0 <= i < text.len() ==> text[i] != '\0',
    ensures
        forall|i: int| 0 <= i < encode_utf8(text).len() ==> encode_utf8(text)[i] != 0,
    decreases text.len(),
{
    if text.len() > 0 {
        let rest = text.drop_first();
        let first = encode_scalar(text[0] as u32);
        assert(text[0] as u32 != 0) by {
            assert(text[0] != '\0');
            char_u32_cast(text[0], text[0] as u32);
            char_u32_cast('\0', 0u32);
        }
        lemma_scalar_without_nul(text[0] as u32);
        assert forall|i: int| 0 <= i < rest.len() implies rest[i] != '\0' by {
            assert(rest[i] == text[i + 1]);
        }
        lemma_encoding_without_nul(rest);
        assert forall|i: int| 0 <= i < encode_utf8(text).len() implies encode_utf8(text)[i]
            != 0 by {
            if i < first.len() {
                assert(encode_utf8(text)[i] == first[i]);
            } else {
                assert(encode_utf8(text)[i] == encode_utf8(rest)[i - first.len()]);
            }
        }
    }
}

/// The record of a variable reads back as that variable.
proof fn lemma_record_round_trip(entry: (Seq<char>, Seq<char>))
    requires
        is_dumpable(entry),
    ensures
        entry_of(record_of(entry)) == Ok::<(Seq<char>, Seq<char>), ExecError>(entry),
        forall|i: int| 0 <= i < record_of(entry).len() ==> record_of(entry)[i] != 0,
{
    let text = entry.0 + seq!['='] + entry.1;
    encode_utf8_valid_utf8(text);
    encode_utf8_decode_utf8(text);
    lemma_first_position(text, '=', entry.0.len() as int);
    assert(text.take(entry.0.len() as int) =~= entry.0);
    assert(text.skip(entry.0.len() as int + 1) =~= entry.1);
    lemma_encoding_without_nul(text);
}

/// The records of the dump of some variables are the records of the
/// variables.
proof fn lemma_dump_records(entries: Seq<(Seq<char>, Seq<char>)>)
    requires
        forall|i: int| 0 <= i < entries.len() ==> is_dumpable(#[trigger] entries[i]),
    ensures
        dump_records(dump_of(entries)) == entries.map_values(
            |entry: (Seq<char>, Seq<char>)| record_of(entry),
        ),
    decreases entries.len(),
{
    let records = entries.map_values(|entry: (Seq<char>, Seq<char>)| record_of(entry));
    if entries.len() == 0 {
        assert(dump_records(dump_of(entries)) =~= records);
    } else {
        let record = record_of(entries[0]);
        let rest = entries.drop_first();
        let bytes = dump_of(entries);
        assert(is_dumpable(entries[0]));
        lemma_record_round_trip(entries[0]);
        assert forall|j: int| 0 <= j < record.len() implies bytes[j] != 0u8 by {
            assert(bytes[j] == record[j]);
        }
        assert(bytes[record.len() as int] == 0u8);
        lemma_first_position(bytes, 0u8, record.len() as int);
        assert(bytes.take(record.len() as int) =~= record);
        assert(bytes.skip(record.len() as int + 1) =~= dump_of(rest));
        assert forall|i: int| 0 <= i < rest.len() implies is_dumpable(#[trigger] rest[i]) by {
            assert(rest[i] == entries[i + 1]);
        }
        lemma_dump_records(rest);
        assert(dump_records(bytes) =~= records);
    }
}

/// Records that were written for variables read back as those variables.
proof fn lemma_entries_round_trip(entries: Seq<(Seq<char>, Seq<char>)>)
    requires
        forall|i: int| 0 <= i < entries.len() ==> is_dumpable(#[trigger] entries[i]),
    ensures
        entries_of(entries.map_values(|entry: (Seq<char>, Seq<char>)| record_of(entry))) == Ok::<
            Seq<(Seq<char>, Seq<char>)>,
            ExecError,
        >(entries),
    decreases entries.len(),
{
    let records = entries.map_values(|entry: (Seq<char>, Seq<char>)| record_of(entry));
    if entries.len() == 0 {
        assert(entries =~= Seq::<(Seq<char>, Seq<char>)>::empty());
    } else {
        let front = entries.drop_last();
        assert forall|i: int| 0 <= i < front.len() implies is_dumpable(#[trigger] front[i]) by {
            assert(front[i] == entries[i]);
        }
        lemma_entries_round_trip(front);
        assert(records.drop_last() =~= front.map_values(
            |entry: (Seq<char>, Seq<char>)| record_of(entry),
        ));
        assert(is_dumpable(entries[entries.len() - 1]));
        lemma_record_round_trip(entries.last());
        assert(records.last() == record_of(entries.last()));
        assert(front.push(entries.last()) =~= entries);
    }
}

/// What is dumped is what is read: the dump of some variables gives back
/// these variables, in their order and with every repetition, and the value
/// of the last `PWD` among them as working directory.
pub proof fn lemma_dump_round_trip(entries: Seq<(Seq<char>, Seq<char>)>)
    requires
        forall|i: int| 0 <= i < entries.len() ==> is_dumpable(#[trigger] entries[i]),
    ensures
        dumped_environment(dump_of(entries)) == Ok::<EnvironmentView, ExecError>(
            EnvironmentView { env_vars: Some(entries), work_dir: last_value(entries, "PWD"@) },
        ),
{
    lemma_dump_records(entries);
    lemma_entries_round_trip(entries);
}

/// Reads the variable that one record sets.
fn parse_entry(record: Vec<u8>) -> (entry: Result<(String, String), ExecError>)
    ensures
        match entry {
            Ok(e) => entry_of(record@) == Ok::<(Seq<char>, Seq<char>), ExecError>((e.0@, e.1@)),
            Err(error) => entry_of(record@) == Err::<(Seq<char>, Seq<char>), ExecError>(error),
        },
{
    let text = match from_utf8(record) {
        Some(text) => text,
        None => {
            return Err(ExecError::EnvDumpNotUtf8);
        },
    };
    let at = match find_char(text.as_str(), '=') {
        Some(at) => at,
        None => {
            return Err(ExecError::EnvDumpFormat);
        },
    };
    let len: usize = text.as_str().unicode_len();
    let name = text.as_str().substring_char(0, at).to_owned();
    let value = text.as_str().substring_char(at + 1, len).to_owned();
    Ok((name, value))
}

/// Reads the environment from a dump as `env -0` writes it: one record for
/// each variable, each ended by a NUL.
pub fn parse_env_file(content: &[u8]) -> (parsed: Result<Environment, ExecError>)
    ensures
        parsed_view(parsed) == dumped_environment(content@),
{
    let ghost all = dump_records(content@);
    let ghost mut done: Seq<Seq<u8>> = seq![];
    let mut env_vars: Vec<(String, String)> = Vec::new();
    let mut work_dir: Option<String> = None;
    let mut start: usize = 0;
    proof {
        assert(content@.skip(0) =~= content@);
        assert(entries_view(env_vars@) =~= seq![]);
    }
    while start < content.len()
        invariant
            start <= content.len(),
            all == dump_records(content@),
            all == done + dump_records(content@.skip(start as int)),
            entries_of(done) == Ok::<Seq<(Seq<char>, Seq<char>)>, ExecError>(
                entries_view(env_vars@),
            ),
            match work_dir {
                Some(dir) => last_value(entries_view(env_vars@), "PWD"@) == Some(dir@),
                None => last_value(entries_view(env_vars@), "PWD"@) is None,
            },
        decreases content.len() - start,
    {
        let ghost tail = content@.skip(start as int);
        let mut record: Vec<u8> = Vec::new();
        let mut end: usize = start;
        while end < content.len() && content[end] != 0
            invariant
                start <= end <= content.len(),
                record@ == content@.subrange(start as int, end as int),
                forall|j: int| start <= j < end ==> content@[j] != 0,
            decreases content.len() - end,
        {
            record.push(content[end]);
            end = end + 1;
            proof {
                assert(record@ =~= content@.subrange(start as int, end as int));
            }
        }
        let next: usize = if end < content.len() {
            end + 1
        } else {
            end
        };
        proof {
            assert forall|j: int| 0 <= j < end - start implies tail[j] != 0u8 by {
                assert(tail[j] == content@[start + j]);
            }
            lemma_first_position(tail, 0u8, end - start);
            assert(record@ =~= tail.take(end - start));
            if end < content.len() {
                assert(tail.skip(end - start + 1) =~= content@.skip(next as int));
            } else {
                assert(tail.take(end - start) =~= tail);
                assert(content@.skip(next as int) =~= Seq::<u8>::empty());
            }
            assert(dump_records(tail) =~= seq![record@] + dump_records(content@.skip(next as int)));
            assert(all =~= done.push(record@) + dump_records(content@.skip(next as int)));
            assert(done.push(record@).drop_last() =~= done);
        }
        let ghost read = record@;
        match parse_entry(record) {
            Ok(entry) => {
                if same_text(entry.0.as_str(), "PWD") {
                    work_dir = Some(entry.1.clone());
                }
                proof {
                    let before = entries_view(env_vars@);
                    let after = entries_view(env_vars@.push(entry));
                    assert(after =~= before.push((entry.0@, entry.1@)));
                    assert(after.drop_last() =~= before);
                }
                env_vars.push(entry);
            },
            Err(error) => {
                proof {
                    let failed = done.push(read);
                    assert(all.take(failed.len() as int) =~= failed);
                    lemma_entries_error_stays(all, failed.len() as int);
                }
                return Err(error);
            },
        }
        proof {
            done = done.push(read);
        }
        start = next;
    }
    proof {
        assert(all =~= done);
    }
    Ok(Environment { env_vars: Some(env_vars), work_dir })
}

/// What the shell runs before the command: a trap that, when the shell
/// leaves, dumps its environment into the file named by its first argument.
pub open spec fn trap_prefix() -> Seq<char> {
    "trap \"env -0 > $(printf %q \"$1\")\" EXIT; "@
}

/// The script that the shell gets for `command`.
pub fn trap_script(command: &str) -> (script: String)
    ensures
        script@ == trap_prefix() + command@,
{
    concat2("trap \"env -0 > $(printf %q \"$1\")\" EXIT; ", command)
}

/// Whether the command left with exit code zero, given the status that the
/// shell had left when its output ended.
pub fn exit_success(status: Option<bool>) -> (succeeded: Result<bool, ExecError>)
    ensures
        succeeded == (match status {
            Some(zero) => Ok::<bool, ExecError>(zero),
            None => Err::<bool, ExecError>(ExecError::UnexpectedEof),
        }),
{
    match status {
        Some(zero) => Ok(zero),
        None => Err(ExecError::UnexpectedEof),
    }
}

/// Puts together the result of a command from the bytes that it wrote,
/// whether it left with exit code zero, and the dump of its environment.
pub fn command_result(output: &[u8], succeeded: bool, env_dump: &[u8]) -> (result: Result<
    CommandResult,
    ExecError,
>)
    ensures
        match result {
            Ok(r) => dumped_environment(env_dump@) == Ok::<EnvironmentView, ExecError>(r.new_env@)
                && r.output@ == lossy_decoding(output@) && r.succeeded == succeeded,
            Err(error) => dumped_environment(env_dump@) == Err::<EnvironmentView, ExecError>(
                error,
            ),
        },
{
    match parse_env_file(env_dump) {
        Ok(new_env) => Ok(CommandResult { new_env, output: from_utf8_lossy(output), succeeded }),
        Err(error) => Err(error),
    }
}

} // verus!
