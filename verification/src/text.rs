//! Text helpers shared by the other modules: decoding of bytes, comparison,
//! searching and concatenation of strings, all stated over `Seq<char>`.

use vstd::prelude::*;
use vstd::string::*;
use vstd::utf8::*;

verus! {

/// The characters that `String::from_utf8_lossy` yields for the given bytes.
pub uninterp spec fn lossy_decoding(bytes: Seq<u8>) -> Seq<char>;

/// The characters of a sequence of ASCII bytes, one per byte.
pub open spec fn ascii_chars(bytes: Seq<u8>) -> Seq<char> {
    Seq::new(bytes.len(), |i: int| bytes[i] as char)
}

/// Whether every byte is below 128.
pub open spec fn all_ascii(bytes: Seq<u8>) -> bool {
    forall|i: int| 0 <= i < bytes.len() ==> #[trigger] bytes[i] < 128
}

/// Calls `String::from_utf8` of std. The contract claims that it succeeds
/// exactly on well-formed UTF-8 and then holds the decoded characters.
#[verifier::external_body]
pub(crate) fn from_utf8(bytes: Vec<u8>) -> (text: Option<String>)
    ensures
        text is Some <==> valid_utf8(bytes@),
        text matches Some(t) ==> t@ == decode_utf8(bytes@),
{
    String::from_utf8(bytes).ok()
}

/// Calls `String::from_utf8_lossy` of std. The contract names its result and
/// claims that well-formed UTF-8 is decoded as it stands.
#[verifier::external_body]
pub(crate) fn from_utf8_lossy(bytes: &[u8]) -> (text: String)
    ensures
        text@ == lossy_decoding(bytes@),
        valid_utf8(bytes@) ==> text@ == decode_utf8(bytes@),
{
    String::from_utf8_lossy(bytes).into_owned()
}

/// ASCII bytes are well-formed UTF-8 and decode byte by byte.
pub proof fn lemma_ascii_decoding(bytes: Seq<u8>)
    requires
        all_ascii(bytes),
    ensures
        valid_utf8(bytes),
        decode_utf8(bytes) == ascii_chars(bytes),
{
    let chars = ascii_chars(bytes);
    assert forall|i: int| 0 <= i < chars.len() implies '\0' <= #[trigger] chars[i] <= '\u{7f}' by {
        assert(bytes[i] < 128);
    }
    assert(is_ascii_chars(chars));
    is_ascii_chars_encode_utf8(chars);
    assert(encode_utf8(chars) =~= bytes) by {
        assert forall|i: int| 0 <= i < bytes.len() implies encode_utf8(chars)[i] == bytes[i] by {
            assert(bytes[i] < 128);
            assert(chars[i] as u8 == bytes[i]);
        }
    }
    encode_utf8_valid_utf8(chars);
    encode_utf8_decode_utf8(chars);
}

/// The string whose characters are the given ASCII bytes.
pub(crate) fn ascii_text(bytes: Vec<u8>) -> (text: String)
    requires
        all_ascii(bytes@),
    ensures
        text@ == ascii_chars(bytes@),
{
    proof {
        lemma_ascii_decoding(bytes@);
    }
    from_utf8(bytes).unwrap()
}

/// Whether two strings hold the same characters.
pub fn same_text(a: &str, b: &str) -> (same: bool)
    ensures
        same == (a@ == b@),
{
    let x = a.as_bytes();
    let y = b.as_bytes();
    if x.len() != y.len() {
        return false;
    }
    let mut i: usize = 0;
    while i < x.len()
        invariant
            i <= x.len(),
            x.len() == y.len(),
            forall|j: int| 0 <= j < i ==> x@[j] == y@[j],
            x@ == a.spec_bytes(),
            y@ == b.spec_bytes(),
        decreases x.len() - i,
    {
        if x[i] != y[i] {
            return false;
        }
        i = i + 1;
    }
    proof {
        assert(x@ =~= y@);
        encode_utf8_decode_utf8(a@);
        encode_utf8_decode_utf8(b@);
    }
    true
}

/// The position of the first `x` in `s`, or the length of `s` where `x` does
/// not occur.
pub open spec fn first_position<T>(s: Seq<T>, x: T) -> nat
    decreases s.len(),
{
    if s.len() == 0 || s[0] == x {
        0
    } else {
        1 + first_position(s.drop_first(), x)
    }
}

/// The first position of `x` is the one that holds `x` after none that does.
pub proof fn lemma_first_position<T>(s: Seq<T>, x: T, n: int)
    requires
        0 <= n <= s.len(),
        forall|j: int| 0 <= j < n ==> s[j] != x,
        n < s.len() ==> s[n] == x,
    ensures
        first_position(s, x) == n,
    decreases s.len(),
{
    if s.len() > 0 && s[0] != x {
        let rest = s.drop_first();
        assert forall|j: int| 0 <= j < n - 1 implies rest[j] != x by {
            assert(rest[j] == s[j + 1]);
        }
        lemma_first_position(rest, x, n - 1);
    }
}

/// Position of the first `c` in `text`, if it occurs.
pub fn find_char(text: &str, c: char) -> (at: Option<usize>)
    ensures
        match at {
            Some(i) => i < text@.len() && i == first_position(text@, c),
            None => first_position(text@, c) == text@.len(),
        },
{
    let len: usize = text.unicode_len();
    let mut i: usize = 0;
    for x in it: text.chars()
        invariant
            i == it.index(),
            len == text@.len(),
            it.seq() == text@,
            forall|j: int| 0 <= j < i ==> text@[j] != c,
    {
        if x == c {
            proof {
                lemma_first_position(text@, c, i as int);
            }
            return Some(i);
        }
        i = i + 1;
    }
    proof {
        lemma_first_position(text@, c, len as int);
    }
    None
}

/// Whether `text` ends with `suffix`.
pub fn ends_with(text: &str, suffix: &str) -> (found: bool)
    ensures
        found == suffix@.is_suffix_of(text@),
{
    let n: usize = text.unicode_len();
    let m: usize = suffix.unicode_len();
    if m > n {
        return false;
    }
    same_text(text.substring_char(n - m, n), suffix)
}

/// The concatenation of two strings.
pub fn concat2(a: &str, b: &str) -> (text: String)
    ensures
        text@ == a@ + b@,
{
    let mut text = String::from_str(a);
    text.append(b);
    text
}

/// The decimal digits of `n` as ASCII bytes, without leading zeros.
pub open spec fn decimal_digits(n: nat) -> Seq<u8>
    decreases n,
{
    if n < 10 {
        seq![(0x30 + n) as u8]
    } else {
        decimal_digits(n / 10).push((0x30 + n % 10) as u8)
    }
}

/// `n` written in decimal.
pub open spec fn decimal(n: nat) -> Seq<char> {
    ascii_chars(decimal_digits(n))
}

/// Writes `n` in decimal.
pub fn decimal_text(n: usize) -> (text: String)
    ensures
        text@ == decimal(n as nat),
{
    let mut digits: Vec<u8> = Vec::new();
    let mut rest: usize = n;
    proof {
        assert(decimal_digits(rest as nat) + digits@ =~= decimal_digits(n as nat));
    }
    while rest >= 10
        invariant
            decimal_digits(n as nat) == decimal_digits(rest as nat) + digits@,
            all_ascii(digits@),
        decreases rest,
    {
        let digit: u8 = (rest % 10) as u8;
        let ghost behind = digits@;
        digits.insert(0, 0x30 + digit);
        proof {
            let front = decimal_digits((rest / 10) as nat);
            assert(front.push((0x30 + digit) as u8) + behind =~= front + digits@);
        }
        rest = rest / 10;
    }
    let ghost behind = digits@;
    digits.insert(0, 0x30 + rest as u8);
    proof {
        assert(decimal_digits(rest as nat) + behind =~= digits@);
    }
    ascii_text(digits)
}

/// The parts one after another.
pub open spec fn concatenated(parts: Seq<Seq<char>>) -> Seq<char>
    decreases parts.len(),
{
    if parts.len() == 0 {
        seq![]
    } else {
        concatenated(parts.drop_last()) + parts.last()
    }
}

/// The parts one after another, with `separator` between each two.
pub open spec fn joined(parts: Seq<Seq<char>>, separator: Seq<char>) -> Seq<char>
    decreases parts.len(),
{
    if parts.len() == 0 {
        seq![]
    } else if parts.len() == 1 {
        parts[0]
    } else {
        joined(parts.drop_last(), separator) + separator + parts.last()
    }
}

} // verus!
