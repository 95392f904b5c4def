//! The index parser: from the text of one per-folder index file to the
//! unread count that it records.
//!
//! The mail client writes the count as a hexadecimal number inside a tag,
//! `(^A2=1F)`. An index file is a log: a later tag supersedes an earlier one,
//! so the last tag in the file is the one that counts.

use vstd::prelude::*;
use vstd::string::*;
use vstd::utf8::*;

verus! {

/// The tag that holds a folder's unread count, as a regular expression whose
/// group [`MARKER_GROUP`] captures the hexadecimal digits.
pub const MARKER_PATTERN: &'static str = r"\(\^A2=(?P<count>[[:xdigit:]]+)\)";

/// The capture group of [`MARKER_PATTERN`] that holds the digits.
pub const MARKER_GROUP: &'static str = "count";

/// The value of one hexadecimal digit, either case.
pub open spec fn hex_digit(c: char) -> Option<nat> {
    if '0' <= c <= '9' {
        Some((c as nat - '0' as nat) as nat)
    } else if 'a' <= c <= 'f' {
        Some((c as nat - 'a' as nat + 10) as nat)
    } else if 'A' <= c <= 'F' {
        Some((c as nat - 'A' as nat + 10) as nat)
    } else {
        None
    }
}

/// Whether every character is a hexadecimal digit.
pub open spec fn all_hex(s: Seq<char>) -> bool {
    forall|i: int| 0 <= i < s.len() ==> (#[trigger] hex_digit(s[i])) is Some
}

/// The number that a run of hexadecimal digits writes, most significant
/// digit first.
pub open spec fn hex_value(s: Seq<char>) -> nat
    decreases s.len(),
{
    if s.len() == 0 {
        0
    } else {
        16 * hex_value(s.drop_last()) + hex_digit(s.last()).unwrap_or(0)
    }
}

/// What a marker's digits stand for: their base-16 value where they are one
/// or more hexadecimal digits whose value a `usize` can hold, and nothing
/// otherwise.
pub open spec fn parsed_hex(s: Seq<char>) -> Option<usize> {
    if s.len() > 0 && all_hex(s) && hex_value(s) <= usize::MAX {
        Some(hex_value(s) as usize)
    } else {
        None
    }
}

/// Dropping trailing digits never makes the value larger.
pub proof fn lemma_hex_value_prefix(s: Seq<char>, n: int)
    requires
        0 <= n <= s.len(),
    ensures
        hex_value(s.take(n)) <= hex_value(s),
    decreases s.len() - n,
{
    if n == s.len() {
        assert(s.take(n) =~= s);
    } else {
        lemma_hex_value_prefix(s, n + 1);
        assert(s.take(n + 1).drop_last() =~= s.take(n));
    }
}

fn hex_digit_of_byte(b: u8) -> (d: Option<usize>)
    ensures
        b < 128 ==> (d is Some <==> hex_digit(b as char) is Some),
        b < 128 && d is Some ==> d.unwrap() == hex_digit(b as char).unwrap(),
        d is Some ==> d.unwrap() < 16,
{
    if b >= 48 && b <= 57 {
        Some((b - 48) as usize)
    } else if b >= 97 && b <= 102 {
        Some((b - 97 + 10) as usize)
    } else if b >= 65 && b <= 70 {
        Some((b - 65 + 10) as usize)
    } else {
        None
    }
}

/// Reads a run of hexadecimal digits as a number.
pub fn parse_hex(digits: &str) -> (value: Option<usize>)
    ensures
        value == parsed_hex(digits@),
{
    if !digits.is_ascii() {
        proof {
            let i = choose|i: int|
                0 <= i < digits@.len() && !('\0' <= #[trigger] digits@[i] <= '\u{7f}');
            assert(hex_digit(digits@[i]) is None);
        }
        return None;
    }
    let bytes = digits.as_bytes();
    proof {
        is_ascii_chars_encode_utf8(digits@);
    }
    let n = bytes.len();
    if n == 0 {
        return None;
    }
    let mut acc: usize = 0;
    let mut i: usize = 0;
    while i < n
        invariant
            0 <= i <= n,
            n == bytes@.len(),
            n == digits@.len(),
            is_ascii_chars(digits@),
            forall|j: int| 0 <= j < n ==> digits@[j] as u8 == #[trigger] bytes@[j],
            forall|j: int| 0 <= j < i ==> (#[trigger] hex_digit(digits@[j])) is Some,
            acc == hex_value(digits@.take(i as int)),
        decreases n - i,
    {
        let b = bytes[i];
        let ghost c = digits@[i as int];
        assert(c as u8 == b);
        assert('\0' <= c <= '\u{7f}');
        assert(b as char == c);
        let d = match hex_digit_of_byte(b) {
            Some(d) => d,
            None => {
                assert(hex_digit(digits@[i as int]) is None);
                return None;
            },
        };
        proof {
            assert(digits@.take(i + 1).drop_last() =~= digits@.take(i as int));
            assert(digits@.take(i + 1).last() == c);
            assert(hex_value(digits@.take(i + 1)) == 16 * acc + d);
        }
        if acc > (usize::MAX - d) / 16 {
            proof {
                lemma_hex_value_prefix(digits@, i + 1);
            }
            return None;
        }
        acc = acc * 16 + d;
        i = i + 1;
    }
    assert(digits@.take(n as int) =~= digits@);
    Some(acc)
}

/// What the regular-expression engine finds of `pattern` in `text`: for each
/// of the successive non-overlapping matches, in the order of their places,
/// the text that the group named `group` captured, or `None` where the
/// pattern has no such group or the group took no part in the match. The
/// whole is `None` where the engine rejects the pattern.
pub uninterp spec fn regex_group_captures(
    pattern: Seq<char>,
    group: Seq<char>,
    text: Seq<char>,
) -> Option<Seq<Option<Seq<char>>>>;

/// Compiles `pattern` with `regex::Regex::new`, walks the matches that
/// `Regex::captures_iter` finds in `text`, and takes from each the text of
/// `Captures::name(group)`. Nothing is proved of the engine: the contract
/// only gives its answer the name [`regex_group_captures`], which is to say
/// that the answer depends on the three arguments alone.
#[verifier::external_body]
fn group_captures(pattern: &str, group: &str, text: &str) -> (found: Option<Vec<Option<String>>>)
    ensures
        found.deep_view() == regex_group_captures(pattern@, group@, text@),
{
    let re = match regex::Regex::new(pattern) {
        Ok(re) => re,
        Err(_) => return None,
    };
    let mut found = Vec::new();
    for caps in re.captures_iter(text) {
        found.push(caps.name(group).map(|m| m.as_str().to_string()));
    }
    Some(found)
}

/// The count that a file's markers give, from the digits of each marker in
/// the order in which they stand in the file: the last marker decides, digits
/// that are no number a `usize` can hold count as 0, and so does a file
/// without any marker.
pub open spec fn count_of_captures(captures: Seq<Option<Seq<char>>>) -> usize {
    if captures.len() == 0 {
        0
    } else {
        match captures.last() {
            Some(digits) => parsed_hex(digits).unwrap_or(0),
            None => 0,
        }
    }
}

/// The unread count of a file whose markers hold `captures`.
pub fn count_from_captures(captures: &Vec<Option<String>>) -> (count: usize)
    ensures
        count == count_of_captures(captures.deep_view()),
{
    let n = captures.len();
    if n == 0 {
        return 0;
    }
    assert(captures.deep_view().last() == captures@[n - 1].deep_view());
    match &captures[n - 1] {
        Some(digits) => match parse_hex(digits.as_str()) {
            Some(value) => value,
            None => 0,
        },
        None => 0,
    }
}

/// The unread count that a file of this text records.
pub open spec fn unread_of(text: Seq<char>) -> usize {
    match regex_group_captures(MARKER_PATTERN@, MARKER_GROUP@, text) {
        Some(captures) => count_of_captures(captures),
        None => 0,
    }
}

/// Extracts the unread count from the text of one index file.
///
/// A file without a marker, or whose last marker is malformed, counts 0:
/// no text makes this fail.
pub fn unread_count(contents: &str) -> (count: usize)
    ensures
        count == unread_of(contents@),
{
    match group_captures(MARKER_PATTERN, MARKER_GROUP, contents) {
        Some(captures) => count_from_captures(&captures),
        None => 0,
    }
}

} // verus!
