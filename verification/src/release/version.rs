//! A release version, and the tag that names one.
//!
//! Only a full `MAJOR.MINOR.PATCH` release is accepted: no pre-release and no
//! build metadata, and no part with a leading zero, as `SemVer` requires.

use vstd::prelude::*;
use vstd::string::*;

use crate::text::{contains_char, is_ascii_digit, owned, push_char, texts};

verus! {

/// The number an ASCII digit stands for.
pub open spec fn digit_value(c: char) -> int {
    (c as int) - ('0' as int)
}

/// The number a string of decimal digits stands for, most significant first.
pub open spec fn decimal_value(digits: Seq<char>) -> int
    decreases digits.len(),
{
    if digits.len() == 0 {
        0
    } else {
        decimal_value(digits.drop_last()) * 10 + digit_value(digits.last())
    }
}

/// Whether every character of `s` is an ASCII digit.
pub open spec fn all_digits(s: Seq<char>) -> bool {
    forall|i: int| 0 <= i < s.len() ==> is_ascii_digit(#[trigger] s[i])
}

/// The digit character for a number below ten.
pub open spec fn digit_char(n: nat) -> char {
    (n + ('0' as nat)) as char
}

/// The decimal text of `n`, most significant digit first, without leading
/// zeros.
pub open spec fn decimal_text(n: nat) -> Seq<char>
    decreases n,
{
    if n < 10 {
        seq![digit_char(n)]
    } else {
        decimal_text(n / 10).push(digit_char(n % 10))
    }
}

/// `s` split at every `sep`, the way `str::split` splits it: the text before
/// the first separator, between each two, and after the last, empty ones
/// included.
pub open spec fn split_on(s: Seq<char>, sep: char) -> Seq<Seq<char>>
    decreases s.len(),
{
    if s.len() == 0 {
        seq![Seq::empty()]
    } else {
        let init = split_on(s.drop_last(), sep);
        if s.last() == sep {
            init.push(Seq::empty())
        } else {
            init.update(init.len() - 1, init.last().push(s.last()))
        }
    }
}

/// Why a string is not a release version.
#[derive(Clone, Copy, Debug, PartialEq, Eq)]
pub enum VersionFault {
    PreReleaseOrBuild,
    NotThreeParts,
    EmptyPart,
    NotDigits,
    LeadingZero,
    TooLarge,
}

/// Why one part of a version is not a release number, if it is not one: it
/// is checked for being empty, then for holding a non-digit, then for a
/// leading zero, and last for being too large for a `u64`.
pub open spec fn part_fault(part: Seq<char>) -> Option<VersionFault> {
    if part.len() == 0 {
        Some(VersionFault::EmptyPart)
    } else if !all_digits(part) {
        Some(VersionFault::NotDigits)
    } else if part.len() > 1 && part[0] == '0' {
        Some(VersionFault::LeadingZero)
    } else if decimal_value(part) > u64::MAX {
        Some(VersionFault::TooLarge)
    } else {
        None
    }
}

/// What parsing `text` as `MAJOR.MINOR.PATCH` gives: the three numbers, or
/// the first fault found. A `-` or `+` anywhere is refused first, then a
/// count of parts other than three, then the parts' own faults in order.
pub open spec fn parsed_version(text: Seq<char>) -> Result<(u64, u64, u64), VersionFault> {
    if text.contains('-') || text.contains('+') {
        Err(VersionFault::PreReleaseOrBuild)
    } else {
        let parts = split_on(text, '.');
        if parts.len() != 3 {
            Err(VersionFault::NotThreeParts)
        } else {
            match (part_fault(parts[0]), part_fault(parts[1]), part_fault(parts[2])) {
                (Some(fault), _, _) => Err(fault),
                (None, Some(fault), _) => Err(fault),
                (None, None, Some(fault)) => Err(fault),
                (None, None, None) => Ok(
                    (
                        decimal_value(parts[0]) as u64,
                        decimal_value(parts[1]) as u64,
                        decimal_value(parts[2]) as u64,
                    ),
                ),
            }
        }
    }
}

/// The text of a version: `MAJOR.MINOR.PATCH`.
pub open spec fn version_text(version: (u64, u64, u64)) -> Seq<char> {
    decimal_text(version.0 as nat) + seq!['.'] + decimal_text(version.1 as nat) + seq!['.']
        + decimal_text(version.2 as nat)
}

/// `SemVer` precedence for versions without a pre-release: the major
/// numbers, then the minor ones, then the patches.
pub open spec fn precedes(a: (u64, u64, u64), b: (u64, u64, u64)) -> bool {
    a.0 < b.0 || (a.0 == b.0 && (a.1 < b.1 || (a.1 == b.1 && a.2 < b.2)))
}

/// A release version: three numbers and nothing else.
///
/// The derived ordering compares `major`, then `minor`, then `patch`, which
/// is exactly `SemVer` precedence for versions without a pre-release.
#[derive(Clone, Copy, Debug, PartialEq, Eq, PartialOrd, Ord, Hash)]
pub struct Version {
    major: u64,
    minor: u64,
    patch: u64,
}

impl View for Version {
    type V = (u64, u64, u64);

    closed spec fn view(&self) -> (u64, u64, u64) {
        (self.major, self.minor, self.patch)
    }
}

/// A string that is not a release version.
#[derive(Clone, Debug, PartialEq, Eq)]
pub struct ParseVersionError {
    input: String,
    reason: VersionFault,
}

impl ParseVersionError {
    /// The text that was refused.
    pub closed spec fn spec_input(self) -> Seq<char> {
        self.input@
    }

    /// Why it was refused.
    pub closed spec fn spec_reason(self) -> VersionFault {
        self.reason
    }

    /// Why it was refused.
    pub fn reason(&self) -> (reason: VersionFault)
        ensures
            reason == self.spec_reason(),
    {
        self.reason
    }

    /// The refusal as a person reads it.
    pub fn to_string(&self) -> (message: String)
        ensures
            message@ == "`"@ + self.spec_input() + "` is not a release version: "@ + fault_text(
                self.spec_reason(),
            ),
    {
        let mut message = owned("`");
        message.append(self.input.as_str());
        message.append("` is not a release version: ");
        message.append(fault_message(self.reason));
        message
    }
}

/// What a refusal for each fault says.
pub open spec fn fault_text(fault: VersionFault) -> Seq<char> {
    match fault {
        VersionFault::PreReleaseOrBuild => "pre-release and build metadata are not released: `new` writes this version into every project as the lowest release it accepts, so it must be a full MAJOR.MINOR.PATCH"@,
        VersionFault::NotThreeParts => "it must have exactly three parts, MAJOR.MINOR.PATCH"@,
        VersionFault::EmptyPart => "a part is empty"@,
        VersionFault::NotDigits => "a part is not a decimal number"@,
        VersionFault::LeadingZero => "a part has a leading zero, which SemVer forbids"@,
        VersionFault::TooLarge => "a part is too large"@,
    }
}

/// What a refusal for `fault` says.
pub fn fault_message(fault: VersionFault) -> (message: &'static str)
    ensures
        message@ == fault_text(fault),
{
    match fault {
        VersionFault::PreReleaseOrBuild => "pre-release and build metadata are not released: `new` writes this version into every project as the lowest release it accepts, so it must be a full MAJOR.MINOR.PATCH",
        VersionFault::NotThreeParts => "it must have exactly three parts, MAJOR.MINOR.PATCH",
        VersionFault::EmptyPart => "a part is empty",
        VersionFault::NotDigits => "a part is not a decimal number",
        VersionFault::LeadingZero => "a part has a leading zero, which SemVer forbids",
        VersionFault::TooLarge => "a part is too large",
    }
}

/// `text` split at every `sep`, as [`split_on`] states.
pub fn split_text(text: &str, sep: char) -> (parts: Vec<String>)
    ensures
        texts(parts@) == split_on(text@, sep),
{
    let length = text.unicode_len();
    let mut parts: Vec<String> = Vec::new();
    let mut current = String::new();
    let mut index: usize = 0;
    assert(text@.take(0) =~= Seq::<char>::empty());
    assert(texts(parts@).push(current@) =~= split_on(text@.take(0), sep));
    while index < length
        invariant
            length == text@.len(),
            index <= length,
            texts(parts@).push(current@) == split_on(text@.take(index as int), sep),
        decreases length - index,
    {
        let c = text.get_char(index);
        let ghost before = text@.take(index as int);
        assert(text@.take(index + 1).drop_last() =~= before);
        assert(text@.take(index + 1).last() == c);
        if c == sep {
            let ghost previous = parts@;
            let ghost finished = current@;
            parts.push(current);
            current = String::new();
            assert(texts(parts@) =~= texts(previous).push(finished));
            assert(texts(parts@).push(current@) =~= split_on(text@.take(index + 1), sep));
        } else {
            let ghost previous = current@;
            push_char(&mut current, c);
            assert(texts(parts@).push(current@) =~= split_on(text@.take(index + 1), sep));
        }
        index += 1;
    }
    let ghost previous = parts@;
    let ghost last = current@;
    parts.push(current);
    assert(texts(parts@) =~= texts(previous).push(last));
    assert(text@.take(index as int) =~= text@);
    parts
}

/// One numeric part of a version.
pub fn parse_part(part: &str) -> (value: Result<u64, VersionFault>)
    ensures
        match part_fault(part@) {
            None => value == Ok::<u64, VersionFault>(decimal_value(part@) as u64),
            Some(fault) => value == Err::<u64, VersionFault>(fault),
        },
{
    let length = part.unicode_len();
    if length == 0 {
        return Err(VersionFault::EmptyPart);
    }
    let mut index: usize = 0;
    while index < length
        invariant
            length == part@.len(),
            index <= length,
            forall|j: int| 0 <= j < index ==> is_ascii_digit(#[trigger] part@[j]),
        decreases length - index,
    {
        let c = part.get_char(index);
        if !('0' <= c && c <= '9') {
            return Err(VersionFault::NotDigits);
        }
        index += 1;
    }
    if length > 1 && part.get_char(0) == '0' {
        return Err(VersionFault::LeadingZero);
    }
    let mut value: u64 = 0;
    let mut index: usize = 0;
    assert(part@.take(0) =~= Seq::<char>::empty());
    while index < length
        invariant
            length == part@.len(),
            index <= length,
            all_digits(part@),
            !(length > 1 && part@[0] == '0'),
            value == decimal_value(part@.take(index as int)),
        decreases length - index,
    {
        let c = part.get_char(index);
        let digit = (c as u32 - '0' as u32) as u64;
        assert(part@.take(index + 1).drop_last() =~= part@.take(index as int));
        assert(is_ascii_digit(part@[index as int]));
        assert(digit == digit_value(part@[index as int]));
        assert(decimal_value(part@.take(index + 1)) == value * 10 + digit);
        match value.checked_mul(10) {
            Some(scaled) => match scaled.checked_add(digit) {
                Some(next) => {
                    value = next;
                },
                None => {
                    proof {
                        lemma_decimal_value_grows(part@, index + 1);
                    }
                    return Err(VersionFault::TooLarge);
                },
            },
            None => {
                proof {
                    lemma_decimal_value_grows(part@, index + 1);
                }
                return Err(VersionFault::TooLarge);
            },
        }
        index += 1;
    }
    assert(part@.take(index as int) =~= part@);
    Ok(value)
}

/// A string of digits is worth at least as much as any of its prefixes.
pub proof fn lemma_decimal_value_grows(digits: Seq<char>, length: int)
    requires
        0 <= length <= digits.len(),
        all_digits(digits),
    ensures
        decimal_value(digits.take(length)) <= decimal_value(digits),
        decimal_value(digits.take(length)) >= 0,
    decreases digits.len() - length,
{
    lemma_decimal_value_nonnegative(digits.take(length));
    if length < digits.len() {
        assert(digits.take(length + 1).drop_last() =~= digits.take(length));
        assert(is_ascii_digit(digits[length]));
        lemma_decimal_value_grows(digits, length + 1);
    } else {
        assert(digits.take(length) =~= digits);
    }
}

/// A string of digits is worth a non-negative number.
pub proof fn lemma_decimal_value_nonnegative(digits: Seq<char>)
    requires
        all_digits(digits),
    ensures
        decimal_value(digits) >= 0,
    decreases digits.len(),
{
    if digits.len() > 0 {
        assert(is_ascii_digit(digits.last()));
        lemma_decimal_value_nonnegative(digits.drop_last());
    }
}

/// Appends the decimal text of `n` to `out`.
pub fn push_decimal(out: &mut String, n: u64)
    ensures
        final(out)@ == old(out)@ + decimal_text(n as nat),
    decreases n,
{
    if n >= 10 {
        push_decimal(out, n / 10);
    }
    let digit = (48u8 + (n % 10) as u8) as char;
    assert(digit == digit_char((n % 10) as nat));
    push_char(out, digit);
    proof {
        if n < 10 {
            assert(n % 10 == n);
        }
    }
}

impl Version {
    /// The version `major.minor.patch`.
    pub fn from_parts(major: u64, minor: u64, patch: u64) -> (version: Self)
        ensures
            version@ == (major, minor, patch),
    {
        Version { major, minor, patch }
    }

    /// Parses `MAJOR.MINOR.PATCH`, each part a decimal number with no leading
    /// zero, as `SemVer` requires.
    pub fn parse(text: &str) -> (version: Result<Self, ParseVersionError>)
        ensures
            match parsed_version(text@) {
                Ok(parts) => version matches Ok(version) && version@ == parts,
                Err(fault) => version matches Err(error) && error.spec_input() == text@
                    && error.spec_reason() == fault,
            },
    {
        if contains_char(text, '-') || contains_char(text, '+') {
            return Err(
                ParseVersionError { input: owned(text), reason: VersionFault::PreReleaseOrBuild },
            );
        }
        let parts = split_text(text, '.');
        if parts.len() != 3 {
            return Err(
                ParseVersionError { input: owned(text), reason: VersionFault::NotThreeParts },
            );
        }
        assert(parts@[0]@ == texts(parts@)[0]);
        assert(parts@[1]@ == texts(parts@)[1]);
        assert(parts@[2]@ == texts(parts@)[2]);
        let major = match parse_part(parts[0].as_str()) {
            Ok(value) => value,
            Err(fault) => return Err(ParseVersionError { input: owned(text), reason: fault }),
        };
        let minor = match parse_part(parts[1].as_str()) {
            Ok(value) => value,
            Err(fault) => return Err(ParseVersionError { input: owned(text), reason: fault }),
        };
        let patch = match parse_part(parts[2].as_str()) {
            Ok(value) => value,
            Err(fault) => return Err(ParseVersionError { input: owned(text), reason: fault }),
        };
        Ok(Version { major, minor, patch })
    }

    /// `MAJOR.MINOR.PATCH`.
    pub fn to_string(&self) -> (text: String)
        ensures
            text@ == version_text(self@),
    {
        let mut text = String::new();
        push_decimal(&mut text, self.major);
        push_char(&mut text, '.');
        push_decimal(&mut text, self.minor);
        push_char(&mut text, '.');
        push_decimal(&mut text, self.patch);
        assert(text@ =~= version_text(self@));
        text
    }

    /// Whether this version comes before `other` in `SemVer` precedence.
    pub fn is_before(&self, other: &Version) -> (before: bool)
        ensures
            before == precedes(self@, other@),
    {
        self.major < other.major || (self.major == other.major && (self.minor < other.minor || (
        self.minor == other.minor && self.patch < other.patch)))
    }

    /// Whether this version is `other`.
    pub fn is_same(&self, other: &Version) -> (same: bool)
        ensures
            same == (self@ == other@),
    {
        self.major == other.major && self.minor == other.minor && self.patch == other.patch
    }
}


/// Why a string is not a release tag.
#[derive(Clone, Copy, Debug, PartialEq, Eq)]
pub enum TagFault {
    MissingPrefix,
    Version(VersionFault),
}

/// What parsing `text` as a release tag gives: `v` followed by a release
/// version, or the reason it is not one.
pub open spec fn parsed_tag(text: Seq<char>) -> Result<(u64, u64, u64), TagFault> {
    if text.len() > 0 && text[0] == 'v' {
        match parsed_version(text.drop_first()) {
            Ok(version) => Ok(version),
            Err(fault) => Err(TagFault::Version(fault)),
        }
    } else {
        Err(TagFault::MissingPrefix)
    }
}

/// A release tag: `v` followed by a [`Version`], such as `v0.1.1`.
#[derive(Clone, Copy, Debug, PartialEq, Eq, PartialOrd, Ord, Hash)]
pub struct ReleaseTag {
    version: Version,
}

impl View for ReleaseTag {
    type V = (u64, u64, u64);

    closed spec fn view(&self) -> (u64, u64, u64) {
        self.version@
    }
}

/// A string that is not a release tag.
#[derive(Clone, Debug, PartialEq, Eq)]
pub struct ParseTagError {
    input: String,
    reason: TagFault,
}

/// What a refusal of a tag says after the refused text and before the
/// expected shape.
pub open spec fn tag_fault_text(fault: TagFault) -> Seq<char> {
    match fault {
        TagFault::MissingPrefix => "it must start with `v`"@,
        TagFault::Version(fault) => fault_text(fault),
    }
}

impl ParseTagError {
    /// The text that was refused.
    pub closed spec fn spec_input(self) -> Seq<char> {
        self.input@
    }

    /// Why it was refused.
    pub closed spec fn spec_reason(self) -> TagFault {
        self.reason
    }

    /// Why it was refused.
    pub fn reason(&self) -> (reason: TagFault)
        ensures
            reason == self.spec_reason(),
    {
        self.reason
    }

    /// The refusal as a person reads it: the refused text, why, and the shape
    /// a release tag has.
    pub fn to_string(&self) -> (message: String)
        ensures
            message@ == "`"@ + self.spec_input() + "` is not a release tag: "@ + tag_fault_text(
                self.spec_reason(),
            ) + "; a release tag is `v` then MAJOR.MINOR.PATCH, such as v0.1.1"@,
    {
        let mut message = owned("`");
        message.append(self.input.as_str());
        message.append("` is not a release tag: ");
        match self.reason {
            TagFault::MissingPrefix => message.append("it must start with `v`"),
            TagFault::Version(fault) => message.append(fault_message(fault)),
        }
        message.append("; a release tag is `v` then MAJOR.MINOR.PATCH, such as v0.1.1");
        message
    }
}

impl ReleaseTag {
    /// Parses `v` followed by a release version.
    pub fn parse(text: &str) -> (tag: Result<Self, ParseTagError>)
        ensures
            match parsed_tag(text@) {
                Ok(version) => tag matches Ok(tag) && tag@ == version,
                Err(fault) => tag matches Err(error) && error.spec_input() == text@
                    && error.spec_reason() == fault,
            },
    {
        let length = text.unicode_len();
        if length == 0 || text.get_char(0) != 'v' {
            return Err(ParseTagError { input: owned(text), reason: TagFault::MissingPrefix });
        }
        let rest = text.substring_char(1, length);
        assert(rest@ =~= text@.drop_first());
        match Version::parse(rest) {
            Ok(version) => Ok(ReleaseTag { version }),
            Err(error) => Err(
                ParseTagError { input: owned(text), reason: TagFault::Version(error.reason()) },
            ),
        }
    }

    /// The version this tag releases.
    pub fn version(self) -> (version: Version)
        ensures
            version@ == self@,
    {
        self.version
    }

    /// `v` followed by the version.
    pub fn to_string(&self) -> (text: String)
        ensures
            text@ == seq!['v'] + version_text(self@),
    {
        let mut text = owned("v");
        proof {
            reveal_strlit("v");
        }
        text.append(self.version.to_string().as_str());
        text
    }

    /// Whether this tag's version comes before `other`'s.
    pub fn is_before(&self, other: &ReleaseTag) -> (before: bool)
        ensures
            before == precedes(self@, other@),
    {
        self.version.is_before(&other.version)
    }
}


/// Whether `digits` is a release number as written: digits only, at least
/// one, and no leading zero.
pub open spec fn is_canonical_number(digits: Seq<char>) -> bool {
    &&& digits.len() > 0
    &&& all_digits(digits)
    &&& !(digits.len() > 1 && digits[0] == '0')
}

/// The decimal text of a number is a release number as written, and stands
/// for that number.
pub proof fn lemma_decimal_text(n: nat)
    ensures
        is_canonical_number(decimal_text(n)),
        decimal_value(decimal_text(n)) == n,
        n >= 1 ==> decimal_text(n)[0] != '0',
    decreases n,
{
    if n < 10 {
        assert(digit_char(n) as int == n + 48);
        assert(decimal_text(n).drop_last() =~= Seq::<char>::empty());
        assert(decimal_text(n).last() == digit_char(n));
        assert(decimal_value(Seq::<char>::empty()) == 0);
        assert(decimal_value(decimal_text(n).drop_last()) == 0);
        assert(decimal_value(decimal_text(n)) == digit_value(digit_char(n)));
    } else {
        let high = n / 10;
        lemma_decimal_text(high);
        let text = decimal_text(n);
        assert(text.drop_last() =~= decimal_text(high));
        assert(digit_char(n % 10) as int == n % 10 + 48);
        assert(text.last() == digit_char(n % 10));
        assert(n == (n / 10) * 10 + n % 10) by (nonlinear_arith);
        assert(decimal_value(text) == decimal_value(decimal_text(high)) * 10 + digit_value(
            digit_char(n % 10),
        ));
        assert(text[0] == decimal_text(high)[0]);
        assert forall|i: int| 0 <= i < text.len() implies is_ascii_digit(#[trigger] text[i]) by {
            if i < text.len() - 1 {
                assert(text[i] == decimal_text(high)[i]);
            }
        }
    }
}

/// A release number as written is the decimal text of the number it stands
/// for.
pub proof fn lemma_canonical_number_is_decimal_text(digits: Seq<char>)
    requires
        is_canonical_number(digits),
    ensures
        decimal_text(decimal_value(digits) as nat) == digits,
    decreases digits.len(),
{
    lemma_decimal_value_nonnegative(digits);
    if digits.len() == 1 {
        assert(digits.drop_last() =~= Seq::<char>::empty());
        assert(is_ascii_digit(digits[0]));
        assert(digit_char(digit_value(digits[0]) as nat) == digits[0]);
        assert(digits.last() == digits[0]);
        assert(decimal_value(Seq::<char>::empty()) == 0);
        assert(decimal_value(digits.drop_last()) == 0);
        assert(decimal_value(digits) == digit_value(digits[0]));
        assert(digit_value(digits[0]) < 10);
        assert(decimal_text(decimal_value(digits) as nat) =~= seq![digits[0]]);
        assert(decimal_text(decimal_value(digits) as nat) =~= digits);
    } else {
        let high = digits.drop_last();
        assert(high[0] == digits[0]);
        assert(all_digits(high)) by {
            assert forall|i: int| 0 <= i < high.len() implies is_ascii_digit(#[trigger] high[i]) by {
                assert(high[i] == digits[i]);
            }
        }
        lemma_canonical_number_is_decimal_text(high);
        lemma_decimal_value_grows(high, 1);
        assert(high.take(1).len() == 1);
        assert(high.take(1).drop_last() =~= Seq::<char>::empty());
        assert(high.take(1).last() == high[0]);
        assert(decimal_value(Seq::<char>::empty()) == 0);
        assert(decimal_value(high.take(1)) == digit_value(high[0]));
        let last = digits.last();
        assert(is_ascii_digit(last));
        let n = decimal_value(digits);
        assert(n == decimal_value(high) * 10 + digit_value(last));
        let h = decimal_value(high);
        let d = digit_value(last);
        assert(0 <= d < 10);
        assert(n / 10 == h && n % 10 == d) by (nonlinear_arith)
            requires
                n == h * 10 + d,
                0 <= d < 10,
                h >= 1,
        ;
        assert(digit_char(digit_value(last) as nat) == last);
        assert(decimal_text(n as nat) =~= digits);
    }
}

/// What joining `parts` with `sep` between each two gives.
pub open spec fn joined(parts: Seq<Seq<char>>, sep: char) -> Seq<char>
    decreases parts.len(),
{
    if parts.len() == 0 {
        Seq::empty()
    } else if parts.len() == 1 {
        parts[0]
    } else {
        joined(parts.drop_last(), sep) + seq![sep] + parts.last()
    }
}

/// Appending a character to the last part appends it to the joined text.
proof fn lemma_joined_push(parts: Seq<Seq<char>>, sep: char, c: char)
    requires
        parts.len() > 0,
    ensures
        joined(parts.update(parts.len() - 1, parts.last().push(c)), sep) == joined(parts, sep).push(c),
{
    let updated = parts.update(parts.len() - 1, parts.last().push(c));
    if parts.len() > 1 {
        assert(updated.drop_last() =~= parts.drop_last());
    }
}

/// Splitting at `sep` and joining again with `sep` gives the text back, and
/// no part holds `sep`.
pub proof fn lemma_split_then_join(s: Seq<char>, sep: char)
    ensures
        split_on(s, sep).len() > 0,
        joined(split_on(s, sep), sep) == s,
        forall|i: int| 0 <= i < split_on(s, sep).len() ==> !(#[trigger] split_on(s, sep)[i]).contains(sep),
    decreases s.len(),
{
    if s.len() == 0 {
        assert(joined(split_on(s, sep), sep) =~= s);
    } else {
        let init = split_on(s.drop_last(), sep);
        lemma_split_then_join(s.drop_last(), sep);
        if s.last() == sep {
            assert(init.push(Seq::<char>::empty()).drop_last() =~= init);
            assert(joined(split_on(s, sep), sep) =~= s);
            assert forall|i: int| 0 <= i < split_on(s, sep).len() implies !(#[trigger] split_on(
                s,
                sep,
            )[i]).contains(sep) by {
                if i < init.len() {
                    assert(split_on(s, sep)[i] == init[i]);
                }
            }
        } else {
            lemma_joined_push(init, sep, s.last());
            assert(joined(split_on(s, sep), sep) =~= s);
            assert forall|i: int| 0 <= i < split_on(s, sep).len() implies !(#[trigger] split_on(
                s,
                sep,
            )[i]).contains(sep) by {
                if i < init.len() - 1 {
                    assert(split_on(s, sep)[i] == init[i]);
                } else {
                    let part = split_on(s, sep)[i];
                    assert(part == init.last().push(s.last()));
                    assert forall|j: int| 0 <= j < part.len() implies part[j] != sep by {
                        if j < part.len() - 1 {
                            assert(part[j] == init.last()[j]);
                        }
                    }
                }
            }
        }
    }
}

/// Appending text without `sep` grows the last part by that text.
proof fn lemma_split_append(s: Seq<char>, t: Seq<char>, sep: char)
    requires
        !t.contains(sep),
    ensures
        split_on(s + t, sep) == split_on(s, sep).update(
            split_on(s, sep).len() - 1,
            split_on(s, sep).last() + t,
        ),
    decreases t.len(),
{
    lemma_split_then_join(s, sep);
    if t.len() == 0 {
        assert(s + t =~= s);
        assert(split_on(s, sep).last() + t =~= split_on(s, sep).last());
        assert(split_on(s, sep).update(split_on(s, sep).len() - 1, split_on(s, sep).last())
            =~= split_on(s, sep));
    } else {
        let shorter = t.drop_last();
        assert(!shorter.contains(sep)) by {
            if shorter.contains(sep) {
                let j = choose|j: int| 0 <= j < shorter.len() && shorter[j] == sep;
                assert(t[j] == sep);
            }
        }
        lemma_split_append(s, shorter, sep);
        assert((s + t).drop_last() =~= s + shorter);
        assert((s + t).last() == t.last());
        assert(t.last() != sep) by {
            assert(t[t.len() - 1] == t.last());
        }
        assert((split_on(s, sep).last() + shorter).push(t.last()) =~= split_on(s, sep).last() + t);
        assert(split_on(s + t, sep) =~= split_on(s, sep).update(
            split_on(s, sep).len() - 1,
            split_on(s, sep).last() + t,
        ));
    }
}

/// Three parts without `sep`, joined with `sep`, split back into themselves.
proof fn lemma_split_three(a: Seq<char>, b: Seq<char>, c: Seq<char>, sep: char)
    requires
        !a.contains(sep),
        !b.contains(sep),
        !c.contains(sep),
    ensures
        split_on(a + seq![sep] + b + seq![sep] + c, sep) == seq![a, b, c],
{
    let empty = Seq::<char>::empty();
    lemma_split_append(empty, a, sep);
    assert(empty + a =~= a);
    assert(split_on(empty, sep) =~= seq![empty]);
    assert(split_on(a, sep) =~= seq![a]) by {
        assert(seq![empty].update(0, empty + a) =~= seq![a]);
    }
    let first = a + seq![sep];
    assert(first.drop_last() =~= a);
    assert(split_on(first, sep) =~= seq![a, empty]);
    lemma_split_append(first, b, sep);
    assert(seq![a, empty].update(1, empty + b) =~= seq![a, b]);
    let second = first + b + seq![sep];
    assert(second.drop_last() =~= first + b);
    assert(split_on(second, sep) =~= seq![a, b, empty]);
    lemma_split_append(second, c, sep);
    assert(seq![a, b, empty].update(2, empty + c) =~= seq![a, b, c]);
    assert(second + c =~= a + seq![sep] + b + seq![sep] + c);
}

/// Printing a version and parsing the text gives the same version back.
pub proof fn parsing_a_printed_version_gives_it_back(version: (u64, u64, u64))
    ensures
        parsed_version(version_text(version)) == Ok::<_, VersionFault>(version),
        parsed_tag(seq!['v'] + version_text(version)) == Ok::<_, TagFault>(version),
{
    let a = decimal_text(version.0 as nat);
    let b = decimal_text(version.1 as nat);
    let c = decimal_text(version.2 as nat);
    lemma_decimal_text(version.0 as nat);
    lemma_decimal_text(version.1 as nat);
    lemma_decimal_text(version.2 as nat);
    let text = version_text(version);
    assert forall|i: int| 0 <= i < text.len() implies #[trigger] text[i] != '-' && text[i] != '+' by {
        if i < a.len() {
            assert(text[i] == a[i]);
            assert(is_ascii_digit(a[i]));
        } else if i == a.len() {
        } else if i < a.len() + 1 + b.len() {
            assert(text[i] == b[i - a.len() - 1]);
            assert(is_ascii_digit(b[i - a.len() - 1]));
        } else if i == a.len() + 1 + b.len() {
        } else {
            assert(text[i] == c[i - a.len() - 2 - b.len()]);
            assert(is_ascii_digit(c[i - a.len() - 2 - b.len()]));
        }
    }
    assert forall|p: Seq<char>| is_canonical_number(p) implies !p.contains('.') by {
        if p.contains('.') {
            let j = choose|j: int| 0 <= j < p.len() && p[j] == '.';
            assert(is_ascii_digit(p[j]));
        }
    }
    lemma_split_three(a, b, c, '.');
    assert((seq!['v'] + text).drop_first() =~= text);
}

/// A text that parses as a version is exactly the printed form of that
/// version: there is one way to write each release.
pub proof fn a_parsed_version_prints_as_its_text(text: Seq<char>)
    requires
        parsed_version(text) is Ok,
    ensures
        version_text(parsed_version(text).unwrap()) == text,
{
    let parts = split_on(text, '.');
    lemma_split_then_join(text, '.');
    lemma_decimal_value_nonnegative(parts[0]);
    lemma_decimal_value_nonnegative(parts[1]);
    lemma_decimal_value_nonnegative(parts[2]);
    let version = parsed_version(text).unwrap();
    assert(version.0 as nat == decimal_value(parts[0]));
    assert(version.1 as nat == decimal_value(parts[1]));
    assert(version.2 as nat == decimal_value(parts[2]));
    lemma_canonical_number_is_decimal_text(parts[0]);
    lemma_canonical_number_is_decimal_text(parts[1]);
    lemma_canonical_number_is_decimal_text(parts[2]);
    let one = parts.drop_last().drop_last();
    let two = parts.drop_last();
    assert(one =~= seq![parts[0]]);
    assert(joined(one, '.') == parts[0]);
    assert(two.last() == parts[1]);
    assert(joined(two, '.') == joined(one, '.') + seq!['.'] + parts[1]);
    assert(joined(parts, '.') == joined(two, '.') + seq!['.'] + parts[2]);
    assert(joined(parts, '.') =~= parts[0] + seq!['.'] + parts[1] + seq!['.'] + parts[2]);
}

/// `SemVer` precedence is a strict total order on versions.
pub proof fn precedence_is_a_strict_total_order(
    a: (u64, u64, u64),
    b: (u64, u64, u64),
    c: (u64, u64, u64),
)
    ensures
        !precedes(a, a),
        precedes(a, b) ==> !precedes(b, a),
        precedes(a, b) && precedes(b, c) ==> precedes(a, c),
        a != b ==> precedes(a, b) || precedes(b, a),
{
}

} // verus!
