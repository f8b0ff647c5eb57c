//! The rules of the session store: how its files are named and in which
//! order a listing shows the sessions.

use vstd::multiset::Multiset;
use vstd::prelude::*;
use vstd::seq_lib::*;
use vstd::string::*;
use vstd::utf8::*;

use crate::session::SessionSummary;
use crate::text::{concat2, ends_with};

verus! {

/// Whether `a` comes before `b`, or is `b`, in the order of a dictionary.
pub open spec fn lex_le(a: Seq<u8>, b: Seq<u8>) -> bool
    decreases a.len(),
{
    if a.len() == 0 {
        true
    } else if b.len() == 0 {
        false
    } else if a[0] != b[0] {
        a[0] < b[0]
    } else {
        lex_le(a.drop_first(), b.drop_first())
    }
}

/// The order of session names: that of the bytes of their UTF-8 encoding.
pub open spec fn name_le(a: Seq<char>, b: Seq<char>) -> bool {
    lex_le(encode_utf8(a), encode_utf8(b))
}

/// Whether the names never grow along the listing. A name begins with the
/// time stamp of its session, so the most recent session comes first.
pub open spec fn is_newest_first(listed: Seq<SessionSummary>) -> bool {
    forall|i: int, j: int|
        0 <= i < j < listed.len() ==> name_le(
            (#[trigger] listed[j]).name@,
            (#[trigger] listed[i]).name@,
        )
}

/// Of two byte strings one comes before the other, or they are equal.
pub proof fn lemma_lex_le_total(a: Seq<u8>, b: Seq<u8>)
    ensures
        lex_le(a, b) || lex_le(b, a),
    decreases a.len(),
{
    if a.len() > 0 && b.len() > 0 && a[0] == b[0] {
        lemma_lex_le_total(a.drop_first(), b.drop_first());
    }
}

/// The order of byte strings is transitive.
pub proof fn lemma_lex_le_transitive(a: Seq<u8>, b: Seq<u8>, c: Seq<u8>)
    requires
        lex_le(a, b),
        lex_le(b, c),
    ensures
        lex_le(a, c),
    decreases a.len(),
{
    if a.len() > 0 && b.len() > 0 && c.len() > 0 && a[0] == b[0] && b[0] == c[0] {
        lemma_lex_le_transitive(a.drop_first(), b.drop_first(), c.drop_first());
    }
}

/// Byte strings that come before each other are one and the same.
pub proof fn lemma_lex_le_antisymmetric(a: Seq<u8>, b: Seq<u8>)
    requires
        lex_le(a, b),
        lex_le(b, a),
    ensures
        a == b,
    decreases a.len(),
{
    if a.len() > 0 && b.len() > 0 {
        lemma_lex_le_antisymmetric(a.drop_first(), b.drop_first());
        assert(a =~= seq![a[0]] + a.drop_first());
        assert(b =~= seq![b[0]] + b.drop_first());
    } else {
        assert(a =~= b);
    }
}

/// Whether no two of the sessions have the same name.
pub open spec fn has_distinct_names(sessions: Seq<SessionSummary>) -> bool {
    forall|i: int, j: int|
        0 <= i < j < sessions.len() ==> (#[trigger] sessions[i]).name@ != (
        #[trigger] sessions[j]).name@
}

/// Sessions of different names have one listing only: two listings of the
/// same sessions, each with the greatest name first, are the same.
pub proof fn lemma_listing_is_determined(a: Seq<SessionSummary>, b: Seq<SessionSummary>)
    requires
        a.to_multiset() == b.to_multiset(),
        is_newest_first(a),
        is_newest_first(b),
        has_distinct_names(a),
    ensures
        a == b,
    decreases a.len(),
{
    a.to_multiset_ensures();
    b.to_multiset_ensures();
    assert(a.len() == b.len());
    if a.len() == 0 {
        assert(a =~= b);
    } else {
        assert(a.contains(a[0]));
        assert(b.to_multiset().count(a[0]) > 0);
        assert(b.contains(a[0]));
        let k = choose|k: int| 0 <= k < b.len() && b[k] == a[0];
        assert(b.contains(b[0]));
        assert(a.to_multiset().count(b[0]) > 0);
        assert(a.contains(b[0]));
        let m = choose|m: int| 0 <= m < a.len() && a[m] == b[0];
        if m != 0 {
            assert(name_le(a[m].name@, a[0].name@));
            if k != 0 {
                assert(name_le(b[k].name@, b[0].name@));
            } else {
                lemma_lex_le_total(encode_utf8(a[0].name@), encode_utf8(a[0].name@));
            }
            lemma_lex_le_antisymmetric(encode_utf8(a[0].name@), encode_utf8(a[m].name@));
            encode_utf8_decode_utf8(a[0].name@);
            encode_utf8_decode_utf8(a[m].name@);
            assert(false);
        }
        assert(a[0] == b[0]);
        let rest_a = a.drop_first();
        let rest_b = b.drop_first();
        assert(rest_a =~= a.remove(0));
        assert(rest_b =~= b.remove(0));
        to_multiset_remove(a, 0);
        to_multiset_remove(b, 0);
        assert forall|i: int, j: int| 0 <= i < j < rest_a.len() implies name_le(
            (#[trigger] rest_a[j]).name@,
            (#[trigger] rest_a[i]).name@,
        ) by {
            assert(rest_a[i] == a[i + 1] && rest_a[j] == a[j + 1]);
        }
        assert forall|i: int, j: int| 0 <= i < j < rest_b.len() implies name_le(
            (#[trigger] rest_b[j]).name@,
            (#[trigger] rest_b[i]).name@,
        ) by {
            assert(rest_b[i] == b[i + 1] && rest_b[j] == b[j + 1]);
        }
        assert forall|i: int, j: int| 0 <= i < j < rest_a.len() implies (
        #[trigger] rest_a[i]).name@ != (#[trigger] rest_a[j]).name@ by {
            assert(rest_a[i] == a[i + 1] && rest_a[j] == a[j + 1]);
        }
        lemma_listing_is_determined(rest_a, rest_b);
        assert(a =~= seq![a[0]] + rest_a);
        assert(b =~= seq![b[0]] + rest_b);
    }
}

/// Whether the name `a` comes before the name `b` or is the same.
pub fn compare_names(a: &str, b: &str) -> (le: bool)
    ensures
        le == name_le(a@, b@),
{
    let x = a.as_bytes();
    let y = b.as_bytes();
    let mut i: usize = 0;
    proof {
        assert(x@.skip(0) =~= x@);
        assert(y@.skip(0) =~= y@);
    }
    while i < x.len() && i < y.len()
        invariant
            i <= x.len(),
            i <= y.len(),
            x@ == a.spec_bytes(),
            y@ == b.spec_bytes(),
            lex_le(x@, y@) == lex_le(x@.skip(i as int), y@.skip(i as int)),
        decreases x.len() - i,
    {
        proof {
            assert(x@.skip(i as int).drop_first() =~= x@.skip(i + 1));
            assert(y@.skip(i as int).drop_first() =~= y@.skip(i + 1));
            assert(x@.skip(i as int)[0] == x@[i as int]);
            assert(y@.skip(i as int)[0] == y@[i as int]);
        }
        if x[i] != y[i] {
            return x[i] < y[i];
        }
        i = i + 1;
    }
    i == x.len()
}

/// Where `name` goes into a listing: behind every name that is not smaller.
fn insertion_point(listed: &Vec<SessionSummary>, name: &str) -> (at: usize)
    ensures
        at <= listed@.len(),
        forall|j: int| 0 <= j < at ==> name_le(name@, (#[trigger] listed@[j]).name@),
        at < listed@.len() ==> !name_le(name@, listed@[at as int].name@),
{
    let mut at: usize = 0;
    while at < listed.len()
        invariant
            at <= listed@.len(),
            forall|j: int| 0 <= j < at ==> name_le(name@, (#[trigger] listed@[j]).name@),
        decreases listed@.len() - at,
    {
        if !compare_names(name, listed[at].name.as_str()) {
            return at;
        }
        at = at + 1;
    }
    at
}

/// Orders the summaries of a listing by name, the greatest name first.
pub fn newest_first(summaries: Vec<SessionSummary>) -> (listed: Vec<SessionSummary>)
    ensures
        listed@.to_multiset() == summaries@.to_multiset(),
        is_newest_first(listed@),
{
    let mut rest = summaries;
    let mut listed: Vec<SessionSummary> = Vec::new();
    proof {
        assert(listed@.to_multiset() =~= Multiset::<SessionSummary>::empty()) by {
            broadcast use group_to_multiset_ensures;

        }
    }
    while rest.len() > 0
        invariant
            listed@.to_multiset().add(rest@.to_multiset()) == summaries@.to_multiset(),
            is_newest_first(listed@),
        decreases rest@.len(),
    {
        let ghost before = rest@;
        let ghost sorted = listed@;
        let next = rest.pop().unwrap();
        let at = insertion_point(&listed, next.name.as_str());
        proof {
            assert(before =~= rest@.push(next));
            to_multiset_build(rest@, next);
            to_multiset_insert(sorted, at as int, next);
            assert forall|i: int, j: int| 0 <= i < j < sorted.len() + 1 implies name_le(
                (#[trigger] sorted.insert(at as int, next)[j]).name@,
                (#[trigger] sorted.insert(at as int, next)[i]).name@,
            ) by {
                let merged = sorted.insert(at as int, next);
                if j == at {
                    assert(merged[i] == sorted[i]);
                } else if i == at {
                    assert(merged[j] == sorted[j - 1]);
                    let first = sorted[at as int].name@;
                    lemma_lex_le_total(encode_utf8(next.name@), encode_utf8(first));
                    if j - 1 > at {
                        assert(name_le(sorted[j - 1].name@, first));
                        lemma_lex_le_transitive(
                            encode_utf8(sorted[j - 1].name@),
                            encode_utf8(first),
                            encode_utf8(next.name@),
                        );
                    }
                } else {
                    let p = if i < at { i } else { i - 1 };
                    let q = if j < at { j } else { j - 1 };
                    assert(merged[i] == sorted[p]);
                    assert(merged[j] == sorted[q]);
                }
            }
        }
        listed.insert(at, next);
        proof {
            assert(listed@.to_multiset().add(rest@.to_multiset()) =~= summaries@.to_multiset());
        }
    }
    proof {
        assert(rest@.to_multiset() =~= Multiset::<SessionSummary>::empty()) by {
            broadcast use group_to_multiset_ensures;

        }
        assert(listed@.to_multiset() =~= summaries@.to_multiset());
    }
    listed
}

/// The name of the file that holds the session `name`.
pub fn session_file_name(name: &str) -> (file_name: String)
    ensures
        file_name@ == name@ + ".json"@,
{
    concat2(name, ".json")
}

/// Whether an entry of the store's directory holds a session: a regular
/// file whose name is text and ends in `.json`.
pub fn is_session_file(is_file: bool, file_name: Option<&str>) -> (held: bool)
    ensures
        held == (is_file && (file_name matches Some(name) && ".json"@.is_suffix_of(name@))),
{
    match file_name {
        Some(name) => is_file && ends_with(name, ".json"),
        None => false,
    }
}

} // verus!
