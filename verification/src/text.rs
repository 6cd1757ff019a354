//! Character classes and small text operations the rest of the library is
//! written in terms of.

use vstd::prelude::*;
use vstd::string::*;

verus! {

/// A lowercase ASCII letter, `a` to `z`.
pub open spec fn is_ascii_lowercase(c: char) -> bool {
    'a' <= c && c <= 'z'
}

/// An ASCII decimal digit, `0` to `9`.
pub open spec fn is_ascii_digit(c: char) -> bool {
    '0' <= c && c <= '9'
}

/// Whether `a` and `b` hold the same characters, in the same order.
pub fn same_text(a: &str, b: &str) -> (same: bool)
    ensures
        same == (a@ == b@),
{
    let length = a.unicode_len();
    if length != b.unicode_len() {
        return false;
    }
    let mut index: usize = 0;
    while index < length
        invariant
            length == a@.len(),
            length == b@.len(),
            index <= length,
            forall|j: int| 0 <= j < index ==> a@[j] == b@[j],
        decreases length - index,
    {
        if a.get_char(index) != b.get_char(index) {
            return false;
        }
        index += 1;
    }
    assert(a@ =~= b@);
    true
}

/// Appends one character to `text`.
///
/// Calls `String::push` from std, for which vstd states nothing: the
/// contract claims that the character lands at the end and nothing else
/// changes, which is what its documentation says.
#[verifier::external_body]
pub fn push_char(text: &mut String, c: char)
    ensures
        final(text)@ == old(text)@.push(c),
{
    text.push(c);
}

/// A new `String` holding the characters of `text`.
pub fn owned(text: &str) -> (result: String)
    ensures
        result@ == text@,
{
    String::from_str(text)
}

/// The text of each string, in order.
pub open spec fn texts(lines: Seq<String>) -> Seq<Seq<char>> {
    lines.map_values(|line: String| line@)
}

/// Whether `text` holds the character `c`.
pub fn contains_char(text: &str, c: char) -> (found: bool)
    ensures
        found == text@.contains(c),
{
    let length = text.unicode_len();
    let mut index: usize = 0;
    while index < length
        invariant
            length == text@.len(),
            index <= length,
            forall|j: int| 0 <= j < index ==> text@[j] != c,
        decreases length - index,
    {
        if text.get_char(index) == c {
            return true;
        }
        index += 1;
    }
    false
}

/// Whether `text` ends with `suffix`.
pub fn ends_with(text: &str, suffix: &str) -> (found: bool)
    ensures
        found == (suffix@.len() <= text@.len() && text@.skip(text@.len() - suffix@.len())
            == suffix@),
{
    let length = text.unicode_len();
    let suffix_length = suffix.unicode_len();
    if suffix_length > length {
        return false;
    }
    let start = length - suffix_length;
    let mut index: usize = 0;
    while index < suffix_length
        invariant
            length == text@.len(),
            suffix_length == suffix@.len(),
            start == length - suffix_length,
            index <= suffix_length,
            forall|j: int| 0 <= j < index ==> text@[start + j] == suffix@[j],
        decreases suffix_length - index,
    {
        if text.get_char(start + index) != suffix.get_char(index) {
            assert(text@.skip(start as int)[index as int] != suffix@[index as int]);
            return false;
        }
        index += 1;
    }
    assert(text@.skip(start as int) =~= suffix@);
    true
}

} // verus!
