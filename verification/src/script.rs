//! Scripts: the lines of a file of commands, without those that are blank
//! or begin with `#!`.

use vstd::prelude::*;
use vstd::string::*;
use vstd::utf8::*;

use crate::text::{first_position, from_utf8, lemma_first_position};

verus! {

/// Why a script could not be read.
#[derive(Debug, Clone, Copy, PartialEq, Eq, Structural)]
pub enum ScriptError {
    /// A line of the script is not UTF-8.
    NotUtf8,
}

impl ScriptError {
    /// The words that tell a user of the error.
    pub fn message(&self) -> (message: String)
        ensures
            message@ == "could not read line: stream did not contain valid UTF-8"@,
    {
        String::from_str("could not read line: stream did not contain valid UTF-8")
    }
}

/// Whether `c` is white space as Unicode defines it.
pub open spec fn is_whitespace(c: char) -> bool {
    ||| '\u{9}' <= c <= '\u{d}'
    ||| c == ' '
    ||| c == '\u{85}'
    ||| c == '\u{a0}'
    ||| c == '\u{1680}'
    ||| '\u{2000}' <= c <= '\u{200a}'
    ||| c == '\u{2028}'
    ||| c == '\u{2029}'
    ||| c == '\u{202f}'
    ||| c == '\u{205f}'
    ||| c == '\u{3000}'
}

/// `line` without the white space that it begins with.
pub open spec fn trim_start(line: Seq<char>) -> Seq<char>
    decreases line.len(),
{
    if line.len() > 0 && is_whitespace(line[0]) {
        trim_start(line.drop_first())
    } else {
        line
    }
}

/// `line` without the white space that it ends with.
pub open spec fn trim_end(line: Seq<char>) -> Seq<char>
    decreases line.len(),
{
    if line.len() > 0 && is_whitespace(line.last()) {
        trim_end(line.drop_last())
    } else {
        line
    }
}

/// Whether a line is no command: it is blank, or the first thing on it is
/// `#!`.
pub open spec fn is_ignored(line: Seq<char>) -> bool {
    let trimmed = trim_end(trim_start(line));
    trimmed.len() == 0 || seq!['#', '!'].is_prefix_of(trimmed)
}

/// A line without the carriage return that it ends with, if it has one.
pub open spec fn without_cr(line: Seq<u8>) -> Seq<u8> {
    if line.len() > 0 && line.last() == 0x0du8 {
        line.drop_last()
    } else {
        line
    }
}

/// The lines of a script. A line ends before a line feed, and a carriage
/// return just before that line feed is no part of it. What follows the last
/// line feed is a line too unless it is empty.
pub open spec fn script_lines(bytes: Seq<u8>) -> Seq<Seq<u8>>
    decreases bytes.len(),
{
    if bytes.len() == 0 {
        seq![]
    } else {
        let end = first_position(bytes, 0x0au8) as int;
        if end >= bytes.len() {
            seq![bytes]
        } else {
            seq![without_cr(bytes.take(end))] + script_lines(bytes.skip(end + 1))
        }
    }
}

/// The commands among the lines: every line that is not ignored, in the
/// order of the lines. There are none where a line is not UTF-8.
pub open spec fn commands_of(lines: Seq<Seq<u8>>) -> Result<Seq<Seq<char>>, ScriptError>
    decreases lines.len(),
{
    if lines.len() == 0 {
        Ok(seq![])
    } else {
        match commands_of(lines.drop_last()) {
            Err(error) => Err(error),
            Ok(commands) => if !valid_utf8(lines.last()) {
                Err(ScriptError::NotUtf8)
            } else if is_ignored(decode_utf8(lines.last())) {
                Ok(commands)
            } else {
                Ok(commands.push(decode_utf8(lines.last())))
            },
        }
    }
}

/// The lines of a script, as sequences of characters.
pub open spec fn lines_view(lines: Seq<String>) -> Seq<Seq<char>> {
    lines.map_values(|line: String| line@)
}

/// What `read_script` returned, over sequences of characters.
pub open spec fn script_view(script: Result<Vec<String>, ScriptError>) -> Result<
    Seq<Seq<char>>,
    ScriptError,
> {
    match script {
        Ok(lines) => Ok(lines_view(lines@)),
        Err(error) => Err(error),
    }
}

/// Once some first lines fail, all of them do.
pub proof fn lemma_commands_error_stays(lines: Seq<Seq<u8>>, k: int)
    requires
        0 <= k <= lines.len(),
        commands_of(lines.take(k)) is Err,
    ensures
        commands_of(lines) == commands_of(lines.take(k)),
    decreases lines.len() - k,
{
    if k == lines.len() {
        assert(lines.take(k) =~= lines);
    } else {
        assert(lines.take(k + 1).drop_last() =~= lines.take(k));
        lemma_commands_error_stays(lines, k + 1);
    }
}

/// White space at the beginning goes up to the first character that is none.
proof fn lemma_trim_start(line: Seq<char>, k: int)
    requires
        0 <= k <= line.len(),
        forall|j: int| 0 <= j < k ==> is_whitespace(#[trigger] line[j]),
        k < line.len() ==> !is_whitespace(line[k]),
    ensures
        trim_start(line) == line.skip(k),
    decreases line.len(),
{
    if k == 0 {
        assert(line.skip(0) =~= line);
    } else {
        let rest = line.drop_first();
        assert(is_whitespace(line[0]));
        assert forall|j: int| 0 <= j < k - 1 implies is_whitespace(#[trigger] rest[j]) by {
            assert(rest[j] == line[j + 1]);
        }
        lemma_trim_start(rest, k - 1);
        assert(rest.skip(k - 1) =~= line.skip(k));
    }
}

/// Trimming the end keeps everything up to the last character that is no
/// white space.
proof fn lemma_trim_end(line: Seq<char>)
    ensures
        trim_end(line).is_prefix_of(line),
        forall|i: int|
            0 <= i < line.len() && !is_whitespace(#[trigger] line[i]) ==> i < trim_end(line).len(),
    decreases line.len(),
{
    if line.len() > 0 && is_whitespace(line.last()) {
        lemma_trim_end(line.drop_last());
        let kept = trim_end(line.drop_last());
        assert(kept =~= line.subrange(0, kept.len() as int));
        assert forall|i: int| 0 <= i < line.len() && !is_whitespace(#[trigger] line[i]) implies i
            < trim_end(line).len() by {
            assert(line.drop_last()[i] == line[i]);
        }
    } else {
        assert(line =~= line.subrange(0, line.len() as int));
    }
}

/// A line is ignored where it is all white space, or where `#!` follows the
/// white space that it begins with.
proof fn lemma_is_ignored(line: Seq<char>, k: int)
    requires
        0 <= k <= line.len(),
        forall|j: int| 0 <= j < k ==> is_whitespace(#[trigger] line[j]),
        k < line.len() ==> !is_whitespace(line[k]),
    ensures
        is_ignored(line) == (k == line.len() || (k + 1 < line.len() && line[k] == '#' && line[k
            + 1] == '!')),
{
    lemma_trim_start(line, k);
    let rest = line.skip(k);
    lemma_trim_end(rest);
    let trimmed = trim_end(rest);
    assert(trimmed =~= rest.subrange(0, trimmed.len() as int));
    if k < line.len() {
        assert(rest[0] == line[k]);
        assert(trimmed.len() > 0);
        assert(trimmed[0] == line[k]);
        if k + 1 < line.len() {
            assert(rest[1] == line[k + 1]);
            if line[k + 1] == '!' {
                assert(!is_whitespace(rest[1]));
                assert(trimmed.len() > 1);
            }
        }
        if trimmed.len() > 1 {
            assert(trimmed[1] == rest[1]);
        }
        let mark = seq!['#', '!'];
        if mark.is_prefix_of(trimmed) {
            assert(trimmed.subrange(0, 2)[0] == mark[0]);
            assert(trimmed.subrange(0, 2)[1] == mark[1]);
        }
        if k + 1 < line.len() && line[k] == '#' && line[k + 1] == '!' {
            assert(mark =~= trimmed.subrange(0, 2));
        }
    }
}

/// Whether `c` is white space.
pub fn is_whitespace_char(c: char) -> (white: bool)
    ensures
        white == is_whitespace(c),
{
    ('\u{9}' <= c && c <= '\u{d}') || c == ' ' || c == '\u{85}' || c == '\u{a0}' || c
        == '\u{1680}' || ('\u{2000}' <= c && c <= '\u{200a}') || c == '\u{2028}' || c
        == '\u{2029}' || c == '\u{202f}' || c == '\u{205f}' || c == '\u{3000}'
}

/// Whether a line of a script is no command.
pub fn is_ignored_line(line: &str) -> (ignored: bool)
    ensures
        ignored == is_ignored(line@),
{
    let len: usize = line.unicode_len();
    let mut after_hash: bool = false;
    let mut i: usize = 0;
    for c in it: line.chars()
        invariant
            i == it.index(),
            len == line@.len(),
            it.seq() == line@,
            !after_hash ==> forall|j: int| 0 <= j < i ==> is_whitespace(#[trigger] line@[j]),
            after_hash ==> i >= 1 && line@[i - 1] == '#' && forall|j: int|
                0 <= j < i - 1 ==> is_whitespace(#[trigger] line@[j]),
    {
        if after_hash {
            proof {
                lemma_is_ignored(line@, i - 1);
            }
            return c == '!';
        }
        if c == '#' {
            after_hash = true;
        } else if !is_whitespace_char(c) {
            proof {
                lemma_is_ignored(line@, i as int);
            }
            return false;
        }
        i = i + 1;
    }
    proof {
        if after_hash {
            lemma_is_ignored(line@, i - 1);
        } else {
            lemma_is_ignored(line@, i as int);
        }
    }
    !after_hash
}

/// Reads the commands of a script from the bytes of its file.
pub fn read_script(content: &[u8]) -> (script: Result<Vec<String>, ScriptError>)
    ensures
        script_view(script) == commands_of(script_lines(content@)),
{
    let ghost all = script_lines(content@);
    let ghost mut done: Seq<Seq<u8>> = seq![];
    let mut commands: Vec<String> = Vec::new();
    let mut start: usize = 0;
    proof {
        assert(content@.skip(0) =~= content@);
        assert(lines_view(commands@) =~= seq![]);
    }
    while start < content.len()
        invariant
            start <= content.len(),
            all == script_lines(content@),
            all == done + script_lines(content@.skip(start as int)),
            commands_of(done) == Ok::<Seq<Seq<char>>, ScriptError>(lines_view(commands@)),
        decreases content.len() - start,
    {
        let ghost tail = content@.skip(start as int);
        let mut line: Vec<u8> = Vec::new();
        let mut end: usize = start;
        while end < content.len() && content[end] != 0x0a
            invariant
                start <= end <= content.len(),
                line@ == content@.subrange(start as int, end as int),
                forall|j: int| start <= j < end ==> content@[j] != 0x0a,
            decreases content.len() - end,
        {
            line.push(content[end]);
            end = end + 1;
            proof {
                assert(line@ =~= content@.subrange(start as int, end as int));
            }
        }
        let mut next: usize = end;
        if end < content.len() {
            next = end + 1;
            if line.len() > 0 && line[line.len() - 1] == 0x0d {
                line.pop();
            }
        }
        proof {
            assert forall|j: int| 0 <= j < end - start implies tail[j] != 0x0au8 by {
                assert(tail[j] == content@[start + j]);
            }
            lemma_first_position(tail, 0x0au8, end - start);
            let whole = content@.subrange(start as int, end as int);
            assert(whole =~= tail.take(end - start));
            if end < content.len() {
                assert(tail.skip(end - start + 1) =~= content@.skip(next as int));
                assert(line@ =~= without_cr(whole));
            } else {
                assert(tail.take(end - start) =~= tail);
                assert(content@.skip(next as int) =~= Seq::<u8>::empty());
            }
            assert(script_lines(tail) =~= seq![line@] + script_lines(content@.skip(next as int)));
            assert(all =~= done.push(line@) + script_lines(content@.skip(next as int)));
            assert(done.push(line@).drop_last() =~= done);
        }
        let ghost read = line@;
        match from_utf8(line) {
            Some(text) => {
                if !is_ignored_line(text.as_str()) {
                    proof {
                        assert(lines_view(commands@.push(text)) =~= lines_view(commands@).push(
                            text@,
                        ));
                    }
                    commands.push(text);
                }
            },
            None => {
                proof {
                    let failed = done.push(read);
                    assert(all.take(failed.len() as int) =~= failed);
                    lemma_commands_error_stays(all, failed.len() as int);
                }
                return Err(ScriptError::NotUtf8);
            },
        }
        proof {
            done = done.push(read);
        }
        start = next;
    }
    proof {
        assert(all =~= done);
    }
    Ok(commands)
}

} // verus!
