//! References to recorded sessions: `@` and `@N` count from the most recent
//! session, anything else is a session's name.

use vstd::prelude::*;
use vstd::string::*;

use crate::text::same_text;

verus! {

/// Why a reference names no session.
#[derive(Debug, PartialEq)]
pub enum ReferenceError {
    IndexOutOfRange { reference: String },
    SessionNotFound { reference: String },
}

/// A `ReferenceError` over sequences of characters.
pub enum ReferenceFailure {
    IndexOutOfRange { reference: Seq<char> },
    SessionNotFound { reference: Seq<char> },
}

impl View for ReferenceError {
    type V = ReferenceFailure;

    open spec fn view(&self) -> ReferenceFailure {
        match self {
            ReferenceError::IndexOutOfRange { reference } => ReferenceFailure::IndexOutOfRange {
                reference: reference@,
            },
            ReferenceError::SessionNotFound { reference } => ReferenceFailure::SessionNotFound {
                reference: reference@,
            },
        }
    }
}

impl Clone for ReferenceError {
    fn clone(&self) -> (copy: ReferenceError)
        ensures
            copy@ == self@,
    {
        match self {
            ReferenceError::IndexOutOfRange { reference } => ReferenceError::IndexOutOfRange {
                reference: reference.clone(),
            },
            ReferenceError::SessionNotFound { reference } => ReferenceError::SessionNotFound {
                reference: reference.clone(),
            },
        }
    }
}

impl ReferenceFailure {
    /// The words that tell a user of the failure.
    pub open spec fn message(self) -> Seq<char> {
        match self {
            ReferenceFailure::IndexOutOfRange { reference } => "index out of range (ref = "@
                + reference + ")"@,
            ReferenceFailure::SessionNotFound { reference } => "session not found (ref = "@
                + reference + ")"@,
        }
    }
}

impl ReferenceError {
    /// The words that tell a user of the error.
    pub fn message(&self) -> (message: String)
        ensures
            message@ == self@.message(),
    {
        match self {
            ReferenceError::IndexOutOfRange { reference } => {
                let mut message = String::from_str("index out of range (ref = ");
                message.append(reference.as_str());
                message.append(")");
                message
            },
            ReferenceError::SessionNotFound { reference } => {
                let mut message = String::from_str("session not found (ref = ");
                message.append(reference.as_str());
                message.append(")");
                message
            },
        }
    }
}

/// The names of a list of sessions, as sequences of characters.
pub open spec fn names_of(session_names: Seq<String>) -> Seq<Seq<char>> {
    session_names.map_values(|name: String| name@)
}

pub open spec fn is_digit(c: char) -> bool {
    '0' <= c <= '9'
}

pub open spec fn all_digits(digits: Seq<char>) -> bool {
    forall|i: int| 0 <= i < digits.len() ==> is_digit(#[trigger] digits[i])
}

/// The number that a sequence of decimal digits writes.
pub open spec fn digits_value(digits: Seq<char>) -> nat
    decreases digits.len(),
{
    if digits.len() == 0 {
        0
    } else {
        digits_value(digits.drop_last()) * 10 + (digits.last() as u32 - '0' as u32) as nat
    }
}

/// The number that `text` writes: an optional `+`, then one or more decimal
/// digits and nothing else.
pub open spec fn unsigned_value(text: Seq<char>) -> Option<nat> {
    let digits = if text.len() > 0 && text[0] == '+' {
        text.skip(1)
    } else {
        text
    };
    if digits.len() > 0 && all_digits(digits) {
        Some(digits_value(digits))
    } else {
        None
    }
}

/// The position that a reference counts to: `@` is position 0, and `@N`, for
/// a number `N` from 1 to `usize::MAX`, is position `N - 1`.
pub open spec fn reference_index(reference: Seq<char>) -> Option<nat> {
    if reference =~= seq!['@'] {
        Some(0)
    } else if reference.len() > 0 && reference[0] == '@' {
        match unsigned_value(reference.skip(1)) {
            Some(n) => if 1 <= n <= usize::MAX {
                Some((n - 1) as nat)
            } else {
                None
            },
            None => None,
        }
    } else {
        None
    }
}

/// The session that a reference names among `names`, the most recent first.
/// A position within the list names the session there. Any other reference
/// is taken as a name and has to occur in the list.
pub open spec fn resolution(reference: Seq<char>, names: Seq<Seq<char>>) -> Result<
    Seq<char>,
    ReferenceFailure,
> {
    match reference_index(reference) {
        Some(i) => if i < names.len() {
            Ok(names[i as int])
        } else if names.contains(reference) {
            Ok(reference)
        } else {
            Err(ReferenceFailure::IndexOutOfRange { reference })
        },
        None => if names.contains(reference) {
            Ok(reference)
        } else {
            Err(ReferenceFailure::SessionNotFound { reference })
        },
    }
}

/// The sessions that a batch of references names: the failure of the first
/// reference that fails, or else every name in the order of the references.
pub open spec fn resolutions(references: Seq<Seq<char>>, names: Seq<Seq<char>>) -> Result<
    Seq<Seq<char>>,
    ReferenceFailure,
>
    decreases references.len(),
{
    if references.len() == 0 {
        Ok(seq![])
    } else {
        match resolutions(references.drop_last(), names) {
            Err(failure) => Err(failure),
            Ok(resolved) => match resolution(references.last(), names) {
                Err(failure) => Err(failure),
                Ok(name) => Ok(resolved.push(name)),
            },
        }
    }
}

/// What `resolve_reference` returned, over sequences of characters.
pub open spec fn resolved_view(resolved: Result<String, ReferenceError>) -> Result<
    Seq<char>,
    ReferenceFailure,
> {
    match resolved {
        Ok(name) => Ok(name@),
        Err(error) => Err(error@),
    }
}

/// What `resolve_references` returned, over sequences of characters.
pub open spec fn resolved_all_view(resolved: Result<Vec<String>, ReferenceError>) -> Result<
    Seq<Seq<char>>,
    ReferenceFailure,
> {
    match resolved {
        Ok(names) => Ok(names_of(names@)),
        Err(error) => Err(error@),
    }
}

proof fn lemma_digits_value_grows(digits: Seq<char>, k: int)
    requires
        0 <= k <= digits.len(),
    ensures
        digits_value(digits.take(k)) <= digits_value(digits),
    decreases digits.len() - k,
{
    if k == digits.len() {
        assert(digits.take(k) =~= digits);
    } else {
        lemma_digits_value_grows(digits, k + 1);
        assert(digits.take(k + 1).drop_last() =~= digits.take(k));
    }
}

/// Reads the number that `text` writes from position `from` on, where it
/// consists of decimal digits and fits.
fn parse_digits(text: &str, from: usize) -> (value: Option<usize>)
    requires
        from <= text@.len(),
    ensures
        value matches Some(n) ==> all_digits(text@.skip(from as int)) && n == digits_value(
            text@.skip(from as int),
        ),
        value is None ==> !all_digits(text@.skip(from as int)) || digits_value(
            text@.skip(from as int),
        ) > usize::MAX,
{
    let len: usize = text.unicode_len();
    let ghost digits = text@.skip(from as int);
    let mut value: usize = 0;
    let mut i: usize = 0;
    for c in it: text.chars()
        invariant
            i == it.index(),
            len == text@.len(),
            it.seq() == text@,
            from <= len,
            digits == text@.skip(from as int),
            i <= from ==> value == 0,
            i >= from ==> all_digits(digits.take(i - from)) && value == digits_value(
                digits.take(i - from),
            ),
    {
        if i >= from {
            let ghost k = i - from;
            proof {
                assert(digits.take(k + 1).drop_last() =~= digits.take(k));
                assert(digits.take(k + 1).last() == c);
            }
            if c < '0' || c > '9' {
                proof {
                    assert(!is_digit(digits[k]));
                }
                return None;
            }
            let digit: usize = (c as u32 - '0' as u32) as usize;
            let shifted = match value.checked_mul(10) {
                Some(shifted) => shifted,
                None => {
                    proof {
                        lemma_digits_value_grows(digits, k + 1);
                    }
                    return None;
                },
            };
            value = match shifted.checked_add(digit) {
                Some(sum) => sum,
                None => {
                    proof {
                        lemma_digits_value_grows(digits, k + 1);
                    }
                    return None;
                },
            };
            proof {
                assert forall|j: int| 0 <= j < k + 1 implies is_digit(
                    #[trigger] digits.take(k + 1)[j],
                ) by {
                    if j < k {
                        assert(digits.take(k + 1)[j] == digits.take(k)[j]);
                    }
                }
            }
        }
        i = i + 1;
    }
    proof {
        if from <= i {
            assert(digits.take(i - from) =~= digits);
        }
    }
    Some(value)
}

/// The position that a reference counts to, if it is of the form `@` or `@N`.
pub fn parse_index(s: &str) -> (index: Option<usize>)
    ensures
        match index {
            Some(i) => reference_index(s@) == Some(i as nat),
            None => reference_index(s@) is None,
        },
{
    let len: usize = s.unicode_len();
    if len == 0 {
        return None;
    }
    if s.get_char(0) != '@' {
        return None;
    }
    if len == 1 {
        assert(s@ =~= seq!['@']);
        return Some(0);
    }
    let from: usize = if s.get_char(1) == '+' {
        2
    } else {
        1
    };
    proof {
        let rest = s@.skip(1);
        assert(rest.len() > 0);
        assert(rest[0] == s@[1]);
        if from == 2 {
            assert(rest.skip(1) =~= s@.skip(2));
        }
    }
    if from == len {
        return None;
    }
    match parse_digits(s, from) {
        Some(n) => if n > 0 {
            Some(n - 1)
        } else {
            None
        },
        None => None,
    }
}

/// Whether one of `session_names` is `reference`.
fn is_session_name(reference: &str, session_names: &[String]) -> (found: bool)
    ensures
        found == names_of(session_names@).contains(reference@),
{
    let mut i: usize = 0;
    while i < session_names.len()
        invariant
            i <= session_names.len(),
            forall|j: int| 0 <= j < i ==> names_of(session_names@)[j] != reference@,
        decreases session_names.len() - i,
    {
        if same_text(session_names[i].as_str(), reference) {
            assert(names_of(session_names@)[i as int] == reference@);
            return true;
        }
        i = i + 1;
    }
    false
}

/// Resolves one reference against the names of the recorded sessions, the
/// most recent first.
pub fn resolve_reference(reference: &str, session_names: &[String]) -> (resolved: Result<
    String,
    ReferenceError,
>)
    ensures
        resolved_view(resolved) == resolution(reference@, names_of(session_names@)),
{
    let index = parse_index(reference);
    if let Some(i) = index {
        if i < session_names.len() {
            return Ok(session_names[i].clone());
        }
    }
    if is_session_name(reference, session_names) {
        Ok(reference.to_owned())
    } else if index.is_some() {
        Err(ReferenceError::IndexOutOfRange { reference: reference.to_owned() })
    } else {
        Err(ReferenceError::SessionNotFound { reference: reference.to_owned() })
    }
}

/// A batch fails as a whole as soon as one of its first references fails.
pub proof fn lemma_failure_aborts(references: Seq<Seq<char>>, names: Seq<Seq<char>>, k: int)
    requires
        0 <= k <= references.len(),
        resolutions(references.take(k), names) is Err,
    ensures
        resolutions(references, names) == resolutions(references.take(k), names),
    decreases references.len() - k,
{
    if k == references.len() {
        assert(references.take(k) =~= references);
    } else {
        assert(references.take(k + 1).drop_last() =~= references.take(k));
        lemma_failure_aborts(references, names, k + 1);
    }
}

/// Resolves each reference in turn and stops at the first that fails.
pub fn resolve_references(references: &[String], session_names: &[String]) -> (resolved: Result<
    Vec<String>,
    ReferenceError,
>)
    ensures
        resolved_all_view(resolved) == resolutions(
            names_of(references@),
            names_of(session_names@),
        ),
{
    let ghost wanted = names_of(references@);
    let ghost names = names_of(session_names@);
    let mut resolved: Vec<String> = Vec::new();
    let mut i: usize = 0;
    proof {
        assert(names_of(resolved@) =~= seq![]);
    }
    while i < references.len()
        invariant
            i <= references.len(),
            wanted == names_of(references@),
            names == names_of(session_names@),
            resolutions(wanted.take(i as int), names) == Ok::<Seq<Seq<char>>, ReferenceFailure>(
                names_of(resolved@),
            ),
        decreases references.len() - i,
    {
        proof {
            assert(wanted.take(i + 1).drop_last() =~= wanted.take(i as int));
            assert(wanted.take(i + 1).last() == references@[i as int]@);
        }
        match resolve_reference(references[i].as_str(), session_names) {
            Ok(name) => {
                proof {
                    assert(names_of(resolved@.push(name)) =~= names_of(resolved@).push(name@));
                }
                resolved.push(name);
            },
            Err(error) => {
                proof {
                    lemma_failure_aborts(wanted, names, i + 1);
                }
                return Err(error);
            },
        }
        i = i + 1;
    }
    proof {
        assert(wanted.take(i as int) =~= wanted);
    }
    Ok(resolved)
}

/// Where every reference resolves, the batch holds the name of each, in the
/// order of the references.
pub proof fn lemma_batch_resolves_each(references: Seq<Seq<char>>, names: Seq<Seq<char>>)
    requires
        forall|i: int| 0 <= i < references.len() ==> resolution(#[trigger] references[i], names) is Ok,
    ensures
        resolutions(references, names) matches Ok(resolved) && resolved.len() == references.len()
            && forall|i: int|
            0 <= i < references.len() ==> resolution(references[i], names) == Ok::<
                Seq<char>,
                ReferenceFailure,
            >(#[trigger] resolved[i]),
    decreases references.len(),
{
    if references.len() > 0 {
        let front = references.drop_last();
        assert forall|i: int| 0 <= i < front.len() implies resolution(
            #[trigger] front[i],
            names,
        ) is Ok by {
            assert(front[i] == references[i]);
        }
        lemma_batch_resolves_each(front, names);
        assert(resolution(references[references.len() - 1], names) is Ok);
    }
}

/// A reference that fails after references that all resolve makes the whole
/// batch fail, with the failure of that reference.
pub proof fn lemma_batch_fails_with_first_failure(
    references: Seq<Seq<char>>,
    names: Seq<Seq<char>>,
    k: int,
)
    requires
        0 <= k < references.len(),
        resolution(references[k], names) is Err,
        forall|j: int| 0 <= j < k ==> resolution(#[trigger] references[j], names) is Ok,
    ensures
        resolutions(references, names) == Err::<Seq<Seq<char>>, ReferenceFailure>(
            resolution(references[k], names)->Err_0,
        ),
{
    let front = references.take(k);
    assert forall|j: int| 0 <= j < front.len() implies resolution(
        #[trigger] front[j],
        names,
    ) is Ok by {
        assert(front[j] == references[j]);
    }
    lemma_batch_resolves_each(front, names);
    assert(references.take(k + 1).drop_last() =~= front);
    assert(references.take(k + 1).last() == references[k]);
    lemma_failure_aborts(references, names, k + 1);
}

/// With at least one session recorded, `@` and `@1` both name the most recent.
pub proof fn lemma_bare_and_first_name_the_latest(names: Seq<Seq<char>>)
    requires
        names.len() > 0,
    ensures
        resolution(seq!['@'], names) == Ok::<Seq<char>, ReferenceFailure>(names[0]),
        resolution(seq!['@', '1'], names) == resolution(seq!['@'], names),
{
    let first = seq!['@', '1'];
    let digits = first.skip(1);
    assert(digits =~= seq!['1']);
    assert(digits.drop_last() =~= Seq::<char>::empty());
    assert(digits_value(digits) == 1) by {
        reveal_with_fuel(digits_value, 2);
    }
    assert(!(first =~= seq!['@']));
    assert(reference_index(first) == Some(0nat));
}

/// `@0` counts to no position: it resolves only as the name of a session,
/// and where no session has that name the failure is `SessionNotFound`.
pub proof fn lemma_zero_names_no_position(names: Seq<Seq<char>>)
    ensures
        reference_index(seq!['@', '0']) is None,
        resolution(seq!['@', '0'], names) == (if names.contains(seq!['@', '0']) {
            Ok::<Seq<char>, ReferenceFailure>(seq!['@', '0'])
        } else {
            Err::<Seq<char>, ReferenceFailure>(
                ReferenceFailure::SessionNotFound { reference: seq!['@', '0'] },
            )
        }),
{
    let zero = seq!['@', '0'];
    let digits = zero.skip(1);
    assert(digits =~= seq!['0']);
    assert(digits.drop_last() =~= Seq::<char>::empty());
    assert(digits_value(digits) == 0) by {
        reveal_with_fuel(digits_value, 2);
    }
    assert(!(zero =~= seq!['@']));
}

} // verus!
