//! A name that has been checked to be safe as a command, a directory name, a
//! Cargo package name and a Rust identifier.
//!
//! [`Name::new`] is the only constructor, and it validates, so an unchecked
//! string can never stand where a `Name` is asked for.

use vstd::prelude::*;
use vstd::string::*;

use crate::text::{is_ascii_digit, is_ascii_lowercase, owned, same_text};

verus! {

/// A character allowed after the first one: a lowercase ASCII letter, an
/// ASCII digit or a hyphen.
pub open spec fn is_name_character(c: char) -> bool {
    is_ascii_lowercase(c) || is_ascii_digit(c) || c == '-'
}

/// The spelling clause of the one name rule: non-empty, a lowercase ASCII
/// letter first, lowercase ASCII letters, digits and hyphens after, and no
/// trailing hyphen.
pub open spec fn has_name_spelling(s: Seq<char>) -> bool {
    &&& s.len() > 0
    &&& is_ascii_lowercase(s[0])
    &&& forall|i: int| 1 <= i < s.len() ==> is_name_character(#[trigger] s[i])
    &&& s.last() != '-'
}

/// The three identifiers that are reserved words in every Rust edition and
/// cannot be written as a raw identifier.
pub open spec fn is_reserved_identifier(s: Seq<char>) -> bool {
    s == "crate"@ || s == "self"@ || s == "super"@
}

/// The one name rule: spelled right, and not one of the three identifiers
/// that cannot be written as a Rust raw identifier.
pub open spec fn is_usable_name(s: Seq<char>) -> bool {
    has_name_spelling(s) && !is_reserved_identifier(s)
}

/// A name checked to be safe as a command, a directory name, a Cargo package
/// name and a Rust identifier.
///
/// It starts with a lowercase ASCII letter, continues with lowercase ASCII
/// letters, ASCII digits and hyphens, does not end with a hyphen, and is not
/// `crate`, `self` or `super`.
#[derive(Debug, PartialEq, Eq)]
pub struct Name(String);

impl Clone for Name {
    fn clone(&self) -> (copy: Self)
        ensures
            copy@ == self@,
    {
        proof {
            use_type_invariant(self);
        }
        Name(self.0.clone())
    }
}

impl View for Name {
    type V = Seq<char>;

    closed spec fn view(&self) -> Seq<char> {
        self.0@
    }
}

impl Name {
    #[verifier::type_invariant]
    spec fn obeys_the_name_rule(self) -> bool {
        is_usable_name(self.0@)
    }

    /// Validates `text` against the one name rule, and refuses it otherwise.
    ///
    /// A refusal says which clause refused it: the spelling clause first, and
    /// only a well-spelled name is refused for being a reserved identifier.
    pub fn new(text: &str) -> (result: Result<Name, InvalidName>)
        ensures
            result is Ok <==> is_usable_name(text@),
            result matches Ok(name) ==> name@ == text@,
            result matches Err(error) ==> {
                &&& error.text() == text@
                &&& error.refused_for_spelling() == !has_name_spelling(text@)
            },
    {
        if !has_valid_spelling(text) {
            return Err(InvalidName { text: owned(text), reason: InvalidNameReason::Spelling });
        }
        let reserved = same_text(text, "crate") || same_text(text, "self") || same_text(
            text,
            "super",
        );
        if reserved {
            return Err(InvalidName { text: owned(text), reason: InvalidNameReason::NotAnIdentifier });
        }
        Ok(Name(owned(text)))
    }

    /// Returns this name as the plain string it validated.
    pub fn as_str(&self) -> (text: &str)
        ensures
            text@ == self@,
            is_usable_name(text@),
    {
        proof {
            use_type_invariant(self);
        }
        self.0.as_str()
    }

    /// The name as a new `String`: exactly the text it validated.
    pub fn to_string(&self) -> (text: String)
        ensures
            text@ == self@,
    {
        owned(self.0.as_str())
    }
}

/// Checks the spelling clause of the one name rule.
pub fn has_valid_spelling(text: &str) -> (valid: bool)
    ensures
        valid == has_name_spelling(text@),
{
    let length = text.unicode_len();
    if length == 0 {
        return false;
    }
    let first = text.get_char(0);
    if !('a' <= first && first <= 'z') {
        return false;
    }
    let mut index: usize = 1;
    while index < length
        invariant
            length == text@.len(),
            1 <= index <= length,
            forall|i: int| 1 <= i < index ==> is_name_character(#[trigger] text@[i]),
        decreases length - index,
    {
        let c = text.get_char(index);
        if !(('a' <= c && c <= 'z') || ('0' <= c && c <= '9') || c == '-') {
            assert(!is_name_character(text@[index as int]));
            return false;
        }
        index += 1;
    }
    text.get_char(length - 1) != '-'
}

/// Why [`Name::new`] refused a piece of text.
#[derive(Debug, Clone, Copy, PartialEq, Eq)]
enum InvalidNameReason {
    /// It fails the spelling clause of the one name rule.
    Spelling,
    /// It is `crate`, `self` or `super`, none of which can be written as a
    /// Rust raw identifier.
    NotAnIdentifier,
}

/// What a refusal for spelling says after the refused text.
pub open spec fn spelling_reason() -> Seq<char> {
    "a name starts with a lowercase letter, continues with lowercase letters, digits and hyphens, and does not end with a hyphen"@
}

/// What a refusal of a reserved identifier says after the refused text.
pub open spec fn not_an_identifier_reason() -> Seq<char> {
    "`crate`, `self` and `super` cannot be written as a Rust identifier, and a command's name has to be one"@
}

/// The message an [`InvalidName`] renders: the refused text, then the clause
/// that refused it.
pub open spec fn invalid_name_message(text: Seq<char>, for_spelling: bool) -> Seq<char> {
    "`"@ + text + "` is not a usable name; "@ + if for_spelling {
        spelling_reason()
    } else {
        not_an_identifier_reason()
    }
}

/// Why a piece of text was refused as a [`Name`].
#[derive(Debug, Clone, PartialEq, Eq)]
pub struct InvalidName {
    text: String,
    reason: InvalidNameReason,
}

impl InvalidName {
    /// The text that was refused.
    pub closed spec fn text(self) -> Seq<char> {
        self.text@
    }

    /// Whether the spelling clause refused it, rather than the reserved
    /// identifiers.
    pub closed spec fn refused_for_spelling(self) -> bool {
        self.reason == InvalidNameReason::Spelling
    }

    /// The refusal as a person reads it.
    pub fn to_string(&self) -> (message: String)
        ensures
            message@ == invalid_name_message(self.text(), self.refused_for_spelling()),
    {
        let reason = match self.reason {
            InvalidNameReason::Spelling => "a name starts with a lowercase letter, continues with lowercase letters, digits and hyphens, and does not end with a hyphen",
            InvalidNameReason::NotAnIdentifier => "`crate`, `self` and `super` cannot be written as a Rust identifier, and a command's name has to be one",
        };
        let mut message = owned("`");
        message.append(self.text.as_str());
        message.append("` is not a usable name; ");
        message.append(reason);
        message
    }
}


/// A usable name joins under a directory as exactly one path component: it
/// holds no path separator, no drive colon, and is neither `.` nor `..`.
pub proof fn usable_names_are_one_path_component(s: Seq<char>)
    requires
        is_usable_name(s),
    ensures
        !s.contains('/'),
        !s.contains('\\'),
        !s.contains(':'),
        s != "."@,
        s != ".."@,
{
    reveal_strlit(".");
    reveal_strlit("..");
    assert forall|i: int| 0 <= i < s.len() implies #[trigger] s[i] != '/' && s[i] != '\\' && s[i]
        != ':' && s[i] != '.' by {
        if i > 0 {
            assert(is_name_character(s[i]));
        }
    }
}

} // verus!
