//! Which crates a publish of a release uploads, which it leaves out, and the
//! plan the publish job reads.
//!
//! Leaving out what crates.io already has is what makes a failed publish
//! safe to run again: after a run that published some crates and then
//! failed, a plain re-run would stop at the first of them.

use vstd::prelude::*;
use vstd::string::*;
use serde_json::Value;
use vstd::multiset::Multiset;

use crate::release::verify::VerifyError;
use crate::release::version::{version_text, ReleaseTag};
use crate::text::{owned, same_text, texts};

verus! {

/// One workspace member, by the name and version it publishes under.
#[derive(Debug, PartialEq, Eq)]
pub struct Member {
    name: String,
    version: String,
}

impl View for Member {
    type V = (Seq<char>, Seq<char>);

    closed spec fn view(&self) -> (Seq<char>, Seq<char>) {
        (self.name@, self.version@)
    }
}

impl Clone for Member {
    fn clone(&self) -> (copy: Self)
        ensures
            copy@ == self@,
    {
        Member { name: self.name.clone(), version: self.version.clone() }
    }
}

impl Member {
    /// The member `name` at `version`.
    pub fn new(name: &str, version: &str) -> (member: Self)
        ensures
            member@ == (name@, version@),
    {
        Member { name: owned(name), version: owned(version) }
    }

    /// The package name the member publishes under.
    pub fn name(&self) -> (name: &str)
        ensures
            name@ == self@.0,
    {
        self.name.as_str()
    }

    /// The version the member publishes at.
    pub fn version(&self) -> (version: &str)
        ensures
            version@ == self@.1,
    {
        self.version.as_str()
    }

    /// The package ID spec for exactly this release, `name@version`, as
    /// `cargo info` takes it.
    pub fn spec(&self) -> (spec: String)
        ensures
            spec@ == self@.0 + "@"@ + self@.1,
    {
        let mut spec = owned(self.name.as_str());
        spec.append("@");
        spec.append(self.version.as_str());
        spec
    }
}

/// Whether a member may be published to crates.io at all.
#[derive(Clone, Copy, Debug, PartialEq, Eq, Structural)]
pub enum Publishable {
    Yes,
    No,
}

/// What a package's `publish` field holds in `cargo metadata`: `null` for a
/// crate that may go to any registry, a list of this many named registries
/// (`[]` for `publish = false`), or anything else.
#[derive(Clone, Copy, Debug, PartialEq, Eq)]
pub enum PublishField {
    AnyRegistry,
    Registries(usize),
    Other,
}

/// One package as `cargo metadata` lists it: whether its `id` is among the
/// workspace members' ids (compared as JSON values), and its name and
/// version when they are strings.
#[derive(Clone, Debug, PartialEq, Eq)]
pub struct PackageRecord {
    pub is_workspace_member: bool,
    pub name: Option<String>,
    pub version: Option<String>,
    pub publish: PublishField,
}

/// What the plan reads of `cargo metadata`: its packages, `None` when they
/// are not a list, and whether its workspace members are a list.
#[derive(Clone, Debug, PartialEq, Eq)]
pub struct Metadata {
    pub packages: Option<Vec<PackageRecord>>,
    pub has_workspace_members: bool,
}

/// Why publishing stopped.
#[derive(Debug)]
pub enum PublishError {
    Verify(VerifyError),
    Metadata(&'static str),
    NamedRegistries(String),
    MemberOffTag { member: Member, tag: ReleaseTag },
}

/// A member listed from its record: its name and version, or the reason it
/// cannot be.
pub open spec fn member_entry(package: PackageRecord) -> Result<
    ((Seq<char>, Seq<char>), Publishable),
    PublishErrorView,
> {
    match package.name {
        None => Err(PublishErrorView::Metadata("a package has no name"@)),
        Some(name) => match package.version {
            None => Err(PublishErrorView::Metadata("a package has no version"@)),
            Some(version) => match package.publish {
                PublishField::AnyRegistry => Ok(((name@, version@), Publishable::Yes)),
                PublishField::Registries(count) => if count == 0 {
                    Ok(((name@, version@), Publishable::No))
                } else {
                    Err(PublishErrorView::NamedRegistries(name@))
                },
                PublishField::Other => Err(PublishErrorView::NamedRegistries(name@)),
            },
        },
    }
}

/// A [`PublishError`] as plain values.
pub enum PublishErrorView {
    Metadata(Seq<char>),
    NamedRegistries(Seq<char>),
}

/// The workspace members among `packages`, in order, each with whether it
/// may be published; or the first package that cannot be listed.
pub open spec fn member_entries(packages: Seq<PackageRecord>) -> Result<
    Seq<((Seq<char>, Seq<char>), Publishable)>,
    PublishErrorView,
>
    decreases packages.len(),
{
    if packages.len() == 0 {
        Ok(Seq::empty())
    } else {
        match member_entries(packages.drop_last()) {
            Err(error) => Err(error),
            Ok(entries) => if packages.last().is_workspace_member {
                match member_entry(packages.last()) {
                    Err(error) => Err(error),
                    Ok(entry) => Ok(entries.push(entry)),
                }
            } else {
                Ok(entries)
            },
        }
    }
}

/// The listed members as plain values.
pub open spec fn entries_view(entries: Seq<(Member, Publishable)>) -> Seq<
    ((Seq<char>, Seq<char>), Publishable),
> {
    entries.map_values(|entry: (Member, Publishable)| (entry.0@, entry.1))
}

/// Whether `error` is the error `view` describes.
pub open spec fn is_publish_error(error: PublishError, view: PublishErrorView) -> bool {
    match (error, view) {
        (PublishError::Metadata(text), PublishErrorView::Metadata(expected)) => text@ == expected,
        (PublishError::NamedRegistries(name), PublishErrorView::NamedRegistries(expected)) => name@
            == expected,
        _ => false,
    }
}

/// Once the packages up to `length` cannot be listed, all of them cannot,
/// for the same reason.
proof fn lemma_entries_error_stays(packages: Seq<PackageRecord>, length: int)
    requires
        0 <= length <= packages.len(),
        member_entries(packages.take(length)) is Err,
    ensures
        member_entries(packages) == member_entries(packages.take(length)),
    decreases packages.len() - length,
{
    if length < packages.len() {
        assert(packages.take(length + 1).drop_last() =~= packages.take(length));
        lemma_entries_error_stays(packages, length + 1);
    } else {
        assert(packages.take(length) =~= packages);
    }
}

/// Whether `listed` is what listing the members of `metadata` gives: each
/// workspace member, in order, with whether it may be published; or the
/// refusal for the first thing that cannot be listed.
pub open spec fn members_listed(
    metadata: Metadata,
    listed: Result<Vec<(Member, Publishable)>, PublishError>,
) -> bool {
    match (metadata.packages, metadata.has_workspace_members) {
        (None, _) => listed matches Err(PublishError::Metadata(text)) && text@
            == "no packages array"@,
        (Some(_), false) => listed matches Err(PublishError::Metadata(text)) && text@
            == "no workspace_members array"@,
        (Some(packages), true) => match member_entries(packages@) {
            Ok(entries) => listed matches Ok(listed) && entries_view(listed@) == entries,
            Err(view) => listed matches Err(error) && is_publish_error(error, view),
        },
    }
}

/// Every workspace member `cargo metadata` lists, and whether it may be
/// published. A list of named registries is refused: publishing such a crate
/// to crates.io would be wrong.
pub fn members(metadata: &Metadata) -> (listed: Result<Vec<(Member, Publishable)>, PublishError>)
    ensures
        members_listed(*metadata, listed),
{
    let packages = match &metadata.packages {
        Some(packages) => packages,
        None => return Err(PublishError::Metadata("no packages array")),
    };
    if !metadata.has_workspace_members {
        return Err(PublishError::Metadata("no workspace_members array"));
    }
    let mut listed: Vec<(Member, Publishable)> = Vec::new();
    let mut index: usize = 0;
    assert(packages@.take(0) =~= Seq::<PackageRecord>::empty());
    assert(entries_view(listed@) =~= Seq::empty());
    while index < packages.len()
        invariant
            index <= packages@.len(),
            metadata.packages == Some(*packages),
            metadata.has_workspace_members,
            member_entries(packages@.take(index as int)) == Ok::<
                _,
                PublishErrorView,
            >(entries_view(listed@)),
        decreases packages@.len() - index,
    {
        let package = &packages[index];
        assert(packages@.take(index + 1).drop_last() =~= packages@.take(index as int));
        assert(packages@.take(index + 1).last() == packages@[index as int]);
        if package.is_workspace_member {
            let name = match &package.name {
                Some(name) => name,
                None => {
                    proof {
                        lemma_entries_error_stays(packages@, index + 1);
                    }
                    return Err(PublishError::Metadata("a package has no name"));
                },
            };
            let version = match &package.version {
                Some(version) => version,
                None => {
                    proof {
                        lemma_entries_error_stays(packages@, index + 1);
                    }
                    return Err(PublishError::Metadata("a package has no version"));
                },
            };
            let publishable = match package.publish {
                PublishField::AnyRegistry => Publishable::Yes,
                PublishField::Registries(0) => Publishable::No,
                _ => {
                    proof {
                        lemma_entries_error_stays(packages@, index + 1);
                    }
                    return Err(PublishError::NamedRegistries(name.clone()));
                },
            };
            let member = Member { name: name.clone(), version: version.clone() };
            let ghost before = listed@;
            listed.push((member, publishable));
            assert(entries_view(listed@) =~= entries_view(before).push(
                ((name@, version@), publishable),
            ));
        }
        index += 1;
    }
    assert(packages@.take(index as int) =~= packages@);
    Ok(listed)
}

/// Which members this run publishes and which it leaves out, and why.
#[derive(Debug)]
pub struct Plan {
    pub to_publish: Vec<Member>,
    pub already_published: Vec<Member>,
    pub never_published: Vec<Member>,
}

/// The members as plain values.
pub open spec fn members_view(members: Seq<Member>) -> Seq<(Seq<char>, Seq<char>)> {
    members.map_values(|member: Member| member@)
}

/// The listed members that may be published, in order.
pub open spec fn publishable(entries: Seq<((Seq<char>, Seq<char>), Publishable)>) -> Seq<
    (Seq<char>, Seq<char>),
>
    decreases entries.len(),
{
    if entries.len() == 0 {
        Seq::empty()
    } else if entries.last().1 == Publishable::Yes {
        publishable(entries.drop_last()).push(entries.last().0)
    } else {
        publishable(entries.drop_last())
    }
}

/// The listed members that may not be published, in order.
pub open spec fn unpublishable(entries: Seq<((Seq<char>, Seq<char>), Publishable)>) -> Seq<
    (Seq<char>, Seq<char>),
>
    decreases entries.len(),
{
    if entries.len() == 0 {
        Seq::empty()
    } else if entries.last().1 == Publishable::No {
        unpublishable(entries.drop_last()).push(entries.last().0)
    } else {
        unpublishable(entries.drop_last())
    }
}

/// `members` split by whether crates.io has them, in order: those it does
/// not have, then those it has.
pub open spec fn split_by(members: Seq<(Seq<char>, Seq<char>)>, published: Seq<bool>) -> (
    Seq<(Seq<char>, Seq<char>)>,
    Seq<(Seq<char>, Seq<char>)>,
)
    decreases members.len(),
{
    if members.len() == 0 {
        (Seq::empty(), Seq::empty())
    } else {
        let (missing, present) = split_by(members.drop_last(), published.drop_last());
        if published.last() {
            (missing, present.push(members.last()))
        } else {
            (missing.push(members.last()), present)
        }
    }
}

/// The members crates.io is asked about: those that may be published, in
/// order. A member that may not be published is never looked up.
pub fn lookups(members: &Vec<(Member, Publishable)>) -> (asked: Vec<Member>)
    ensures
        members_view(asked@) == publishable(entries_view(members@)),
{
    let ghost all = entries_view(members@);
    let mut asked: Vec<Member> = Vec::new();
    let mut index: usize = 0;
    while index < members.len()
        invariant
            index <= members@.len(),
            all == entries_view(members@),
            members_view(asked@) == publishable(all.take(index as int)),
        decreases members@.len() - index,
    {
        assert(all.take(index + 1).drop_last() =~= all.take(index as int));
        let ghost before = asked@;
        if members[index].1 == Publishable::Yes {
            asked.push(members[index].0.clone());
            assert(members_view(asked@) =~= members_view(before).push(members@[index as int].0@));
        }
        index += 1;
    }
    assert(all.take(index as int) =~= all);
    asked
}

/// Sorts `members` into what to publish and what to leave out, given
/// crates.io's answer for each member that may be published, in the order
/// [`lookups`] lists them: `true` where crates.io already has the release.
pub fn plan(members: Vec<(Member, Publishable)>, published: &[bool]) -> (plan: Plan)
    requires
        published@.len() == publishable(entries_view(members@)).len(),
    ensures
        members_view(plan.never_published@) == unpublishable(entries_view(members@)),
        split_by(publishable(entries_view(members@)), published@) == (
            members_view(plan.to_publish@),
            members_view(plan.already_published@),
        ),
{
    let ghost all = entries_view(members@);
    let mut to_publish: Vec<Member> = Vec::new();
    let mut already_published: Vec<Member> = Vec::new();
    let mut never_published: Vec<Member> = Vec::new();
    let mut index: usize = 0;
    let mut asked: usize = 0;
    while index < members.len()
        invariant
            index <= members@.len(),
            all == entries_view(members@),
            published@.len() == publishable(all).len(),
            asked == publishable(all.take(index as int)).len(),
            members_view(never_published@) == unpublishable(all.take(index as int)),
            split_by(publishable(all.take(index as int)), published@.take(asked as int)) == (
                members_view(to_publish@),
                members_view(already_published@),
            ),
        decreases members@.len() - index,
    {
        assert(all.take(index + 1).drop_last() =~= all.take(index as int));
        assert(all.take(index + 1).last() == (members@[index as int].0@, members@[index as int].1));
        proof {
            lemma_publishable_prefix(all, index + 1);
        }
        let member = members[index].0.clone();
        let ghost never_before = never_published@;
        let ghost missing_before = to_publish@;
        let ghost present_before = already_published@;
        if members[index].1 == Publishable::No {
            never_published.push(member);
            assert(members_view(never_published@) =~= members_view(never_before).push(member@));
        } else {
            let ghost earlier = publishable(all.take(index as int));
            assert(publishable(all.take(index + 1)) == earlier.push(member@));
            assert(earlier.push(member@).drop_last() =~= earlier);
            assert(published@.take(asked + 1).drop_last() =~= published@.take(asked as int));
            assert(published@.take(asked + 1).last() == published@[asked as int]);
            if published[asked] {
                already_published.push(member);
                assert(members_view(already_published@) =~= members_view(present_before).push(
                    member@,
                ));
            } else {
                to_publish.push(member);
                assert(members_view(to_publish@) =~= members_view(missing_before).push(member@));
            }
            asked += 1;
        }
        index += 1;
    }
    assert(all.take(index as int) =~= all);
    assert(published@.take(asked as int) =~= published@);
    Plan { to_publish, already_published, never_published }
}

/// A prefix of the listed members has no more members that may be published
/// than the whole list.
proof fn lemma_publishable_prefix(entries: Seq<((Seq<char>, Seq<char>), Publishable)>, length: int)
    requires
        0 <= length <= entries.len(),
    ensures
        publishable(entries.take(length)).len() <= publishable(entries).len(),
    decreases entries.len() - length,
{
    if length < entries.len() {
        lemma_publishable_prefix(entries, length + 1);
        assert(entries.take(length + 1).drop_last() =~= entries.take(length));
    } else {
        assert(entries.take(length) =~= entries);
    }
}

/// The names of `members`, in order.
pub open spec fn names_of(members: Seq<(Seq<char>, Seq<char>)>) -> Seq<Seq<char>> {
    members.map_values(|member: (Seq<char>, Seq<char>)| member.0)
}

/// `names` with `separator` between each two.
pub open spec fn listed(names: Seq<Seq<char>>, separator: Seq<char>) -> Seq<char>
    decreases names.len(),
{
    if names.len() == 0 {
        Seq::empty()
    } else if names.len() == 1 {
        names[0]
    } else {
        listed(names.drop_last(), separator) + separator + names.last()
    }
}

/// The names of `members` with `separator` between each two.
fn names_joined(members: &Vec<Member>, separator: &str) -> (text: String)
    ensures
        text@ == listed(names_of(members_view(members@)), separator@),
{
    let ghost names = names_of(members_view(members@));
    let mut text = String::new();
    let mut index: usize = 0;
    while index < members.len()
        invariant
            index <= members@.len(),
            names == names_of(members_view(members@)),
            text@ == listed(names.take(index as int), separator@),
        decreases members@.len() - index,
    {
        assert(names.take(index + 1).drop_last() =~= names.take(index as int));
        assert(names[index as int] == members@[index as int]@.0);
        if index > 0 {
            text.append(separator);
        }
        text.append(members[index].name());
        index += 1;
    }
    assert(names.take(index as int) =~= names);
    text
}

/// The plan's lines as the publish job reads them.
pub open spec fn outputs_text(
    to_publish: Seq<(Seq<char>, Seq<char>)>,
    excluded: Seq<(Seq<char>, Seq<char>)>,
) -> Seq<char> {
    "publish="@ + listed(names_of(to_publish), " "@) + "\nexclude="@ + listed(
        names_of(excluded),
        " "@,
    ) + "\n"@
}

/// The plan as a person reading the log sees it.
pub open spec fn summary_text(
    to_publish: Seq<(Seq<char>, Seq<char>)>,
    already_published: Seq<(Seq<char>, Seq<char>)>,
    never_published: Seq<(Seq<char>, Seq<char>)>,
) -> Seq<char> {
    (if to_publish.len() == 0 {
        "nothing to publish"@
    } else {
        "dry-run published: ["@ + listed(names_of(to_publish), ", "@) + "]"@
    }) + "; already on crates.io, skipped: ["@ + listed(names_of(already_published), ", "@)
        + "]; never published: ["@ + listed(names_of(never_published), ", "@) + "]"@
}

impl Plan {
    /// Every member this run leaves out, for `--exclude`: those crates.io
    /// already has, then those that are never published.
    pub fn excluded(&self) -> (left_out: Vec<Member>)
        ensures
            members_view(left_out@) == members_view(self.already_published@) + members_view(
                self.never_published@,
            ),
    {
        let mut left_out: Vec<Member> = Vec::new();
        let mut index: usize = 0;
        while index < self.already_published.len()
            invariant
                index <= self.already_published@.len(),
                members_view(left_out@) == members_view(self.already_published@.take(index as int)),
            decreases self.already_published@.len() - index,
        {
            let ghost before = left_out@;
            left_out.push(self.already_published[index].clone());
            assert(self.already_published@.take(index + 1) =~= self.already_published@.take(
                index as int,
            ).push(self.already_published@[index as int]));
            assert(members_view(left_out@) =~= members_view(before).push(
                self.already_published@[index as int]@,
            ));
            assert(members_view(self.already_published@.take(index + 1)) =~= members_view(
                self.already_published@.take(index as int),
            ).push(self.already_published@[index as int]@));
            index += 1;
        }
        assert(self.already_published@.take(index as int) =~= self.already_published@);
        let mut index: usize = 0;
        while index < self.never_published.len()
            invariant
                index <= self.never_published@.len(),
                members_view(left_out@) == members_view(self.already_published@) + members_view(
                    self.never_published@.take(index as int),
                ),
            decreases self.never_published@.len() - index,
        {
            let ghost before = left_out@;
            left_out.push(self.never_published[index].clone());
            assert(self.never_published@.take(index + 1) =~= self.never_published@.take(
                index as int,
            ).push(self.never_published@[index as int]));
            assert(members_view(left_out@) =~= members_view(before).push(
                self.never_published@[index as int]@,
            ));
            assert(members_view(self.never_published@.take(index + 1)) =~= members_view(
                self.never_published@.take(index as int),
            ).push(self.never_published@[index as int]@));
            index += 1;
        }
        assert(self.never_published@.take(index as int) =~= self.never_published@);
        left_out
    }

    /// The plan as the publish job reads it: a `publish=` line naming the
    /// members to upload and an `exclude=` line naming the members to leave
    /// out, each a space-separated list. Both lines are always present, and
    /// a list may be empty.
    pub fn outputs(&self) -> (text: String)
        ensures
            text@ == outputs_text(
                members_view(self.to_publish@),
                members_view(self.already_published@) + members_view(self.never_published@),
            ),
    {
        let excluded = self.excluded();
        let mut text = owned("publish=");
        text.append(names_joined(&self.to_publish, " ").as_str());
        text.append("\nexclude=");
        text.append(names_joined(&excluded, " ").as_str());
        text.append("\n");
        text
    }

    /// What the plan uploads and leaves out, for a person reading the log.
    pub fn summary(&self) -> (text: String)
        ensures
            text@ == summary_text(
                members_view(self.to_publish@),
                members_view(self.already_published@),
                members_view(self.never_published@),
            ),
    {
        let mut text = if self.to_publish.len() == 0 {
            owned("nothing to publish")
        } else {
            let mut uploads = owned("dry-run published: [");
            uploads.append(names_joined(&self.to_publish, ", ").as_str());
            uploads.append("]");
            uploads
        };
        text.append("; already on crates.io, skipped: [");
        text.append(names_joined(&self.already_published, ", ").as_str());
        text.append("]; never published: [");
        text.append(names_joined(&self.never_published, ", ").as_str());
        text.append("]");
        text
    }
}

/// Refuses the first member whose version is not the tag's: a publish of
/// a tag uploads every member at exactly that version.
pub fn ensure_members_on_tag(members: &Vec<(Member, Publishable)>, tag: ReleaseTag) -> (checked:
    Result<(), PublishError>)
    ensures
        match checked {
            Ok(()) => forall|k: int|
                0 <= k < members@.len() ==> (#[trigger] members@[k]).0@.1 == version_text(tag@),
            Err(error) => error matches PublishError::MemberOffTag { member, tag: found }
                && found@ == tag@ && exists|k: int|
                0 <= k < members@.len() && member@ == (#[trigger] members@[k]).0@
                    && members@[k].0@.1 != version_text(tag@) && forall|j: int|
                    0 <= j < k ==> (#[trigger] members@[j]).0@.1 == version_text(tag@),
        },
{
    let version = tag.version().to_string();
    let mut index: usize = 0;
    while index < members.len()
        invariant
            index <= members@.len(),
            version@ == version_text(tag@),
            forall|j: int| 0 <= j < index ==> (#[trigger] members@[j]).0@.1 == version_text(tag@),
        decreases members@.len() - index,
    {
        if !same_text(members[index].0.version(), version.as_str()) {
            let member = members[index].0.clone();
            assert(member@ == members@[index as int].0@);
            return Err(PublishError::MemberOffTag { member, tag });
        }
        index += 1;
    }
    Ok(())
}

impl PublishError {
    /// The refusal as a person reads it.
    pub fn to_string(&self) -> (message: String)
        ensures
            match *self {
                PublishError::Verify(error) => message@ == crate::release::verify::verify_error_text(error),
                PublishError::Metadata(reason) => message@ == "cargo metadata: "@ + reason@,
                PublishError::NamedRegistries(name) => message@ == name@
                    + " restricts `publish` to named registries, which this does not handle"@,
                PublishError::MemberOffTag { member, tag } => message@ == member@.0 + " is at "@
                    + member@.1 + ", not the tag's version "@ + version_text(tag@),
            },
    {
        match self {
            PublishError::Verify(error) => error.to_string(),
            PublishError::Metadata(reason) => {
                let mut message = owned("cargo metadata: ");
                message.append(reason);
                message
            },
            PublishError::NamedRegistries(name) => {
                let mut message = owned(name.as_str());
                message.append(" restricts `publish` to named registries, which this does not handle");
                message
            },
            PublishError::MemberOffTag { member, tag } => {
                let mut message = owned(member.name());
                message.append(" is at ");
                message.append(member.version());
                message.append(", not the tag's version ");
                message.append(tag.version().to_string().as_str());
                message
            },
        }
    }
}

/// The members' names and versions, in order.
pub open spec fn entry_members(entries: Seq<((Seq<char>, Seq<char>), Publishable)>) -> Seq<
    (Seq<char>, Seq<char>),
> {
    entries.map_values(|entry: ((Seq<char>, Seq<char>), Publishable)| entry.0)
}

/// Splitting by crates.io's answers keeps every member, once.
proof fn lemma_split_keeps_members(members: Seq<(Seq<char>, Seq<char>)>, published: Seq<bool>)
    requires
        published.len() == members.len(),
    ensures
        split_by(members, published).0.to_multiset().add(split_by(members, published).1.to_multiset())
            == members.to_multiset(),
    decreases members.len(),
{
    broadcast use vstd::seq_lib::group_to_multiset_ensures;
    broadcast use vstd::multiset::group_multiset_axioms;

    if members.len() == 0 {
        assert(split_by(members, published).0.to_multiset() =~= Multiset::empty());
        assert(split_by(members, published).1.to_multiset() =~= Multiset::empty());
        assert(members.to_multiset() =~= Multiset::empty());
    } else {
        lemma_split_keeps_members(members.drop_last(), published.drop_last());
        assert(members.drop_last().push(members.last()) =~= members);
        let (missing, present) = split_by(members.drop_last(), published.drop_last());
        if published.last() {
            assert(missing.to_multiset().add(present.push(members.last()).to_multiset())
                =~= missing.to_multiset().add(present.to_multiset()).insert(members.last()));
        } else {
            assert(missing.push(members.last()).to_multiset().add(present.to_multiset())
                =~= missing.to_multiset().add(present.to_multiset()).insert(members.last()));
        }
    }
}

/// Sorting by whether a member may be published keeps every member, once.
proof fn lemma_publishable_keeps_members(entries: Seq<((Seq<char>, Seq<char>), Publishable)>)
    ensures
        publishable(entries).to_multiset().add(unpublishable(entries).to_multiset())
            == entry_members(entries).to_multiset(),
    decreases entries.len(),
{
    broadcast use vstd::seq_lib::group_to_multiset_ensures;
    broadcast use vstd::multiset::group_multiset_axioms;

    if entries.len() == 0 {
        assert(publishable(entries).to_multiset() =~= Multiset::empty());
        assert(unpublishable(entries).to_multiset() =~= Multiset::empty());
        assert(entry_members(entries).to_multiset() =~= Multiset::empty());
    } else {
        lemma_publishable_keeps_members(entries.drop_last());
        assert(entry_members(entries) =~= entry_members(entries.drop_last()).push(
            entries.last().0,
        ));
        let shared = publishable(entries.drop_last());
        let left = unpublishable(entries.drop_last());
        if entries.last().1 == Publishable::Yes {
            assert(shared.push(entries.last().0).to_multiset().add(left.to_multiset())
                =~= shared.to_multiset().add(left.to_multiset()).insert(entries.last().0));
        } else {
            assert(shared.to_multiset().add(left.push(entries.last().0).to_multiset())
                =~= shared.to_multiset().add(left.to_multiset()).insert(entries.last().0));
        }
    }
}

/// Every listed member lands in exactly one of the plan's three lists,
/// whatever crates.io answers: the plan drops no member and names none
/// twice.
pub proof fn every_member_is_planned_exactly_once(
    entries: Seq<((Seq<char>, Seq<char>), Publishable)>,
    published: Seq<bool>,
)
    requires
        published.len() == publishable(entries).len(),
    ensures
        split_by(publishable(entries), published).0.to_multiset().add(
            split_by(publishable(entries), published).1.to_multiset(),
        ).add(unpublishable(entries).to_multiset()) == entry_members(entries).to_multiset(),
{
    lemma_split_keeps_members(publishable(entries), published);
    lemma_publishable_keeps_members(entries);
}

/// A member crates.io already has is never uploaded, and one it lacks
/// always is: the plan follows the answers exactly.
pub proof fn the_plan_follows_the_answers(
    members: Seq<(Seq<char>, Seq<char>)>,
    published: Seq<bool>,
    k: int,
)
    requires
        published.len() == members.len(),
        0 <= k < members.len(),
    ensures
        published[k] ==> split_by(members, published).1.contains(members[k]),
        !published[k] ==> split_by(members, published).0.contains(members[k]),
    decreases members.len(),
{
    let (missing, present) = split_by(members.drop_last(), published.drop_last());
    if k < members.len() - 1 {
        the_plan_follows_the_answers(members.drop_last(), published.drop_last(), k);
        assert(members.drop_last()[k] == members[k]);
        assert(published.drop_last()[k] == published[k]);
        if published.last() {
            if published[k] {
                let i = choose|i: int| 0 <= i < present.len() && present[i] == members[k];
                assert(present.push(members.last())[i] == members[k]);
            } else {
                assert(missing.contains(members[k]));
            }
        } else {
            if published[k] {
                assert(present.contains(members[k]));
            } else {
                let i = choose|i: int| 0 <= i < missing.len() && missing[i] == members[k];
                assert(missing.push(members.last())[i] == members[k]);
            }
        }
    } else {
        if published.last() {
            assert(present.push(members.last())[present.len() as int] == members[k]);
        } else {
            assert(missing.push(members.last())[missing.len() as int] == members[k]);
        }
    }
}

/// A package record as plain values: whether it is a workspace member, and
/// its name, version and `publish`.
pub type PackageView = (bool, Option<Seq<char>>, Option<Seq<char>>, PublishField);

/// An optional text as a plain value.
pub open spec fn optional_text(text: Option<String>) -> Option<Seq<char>> {
    match text {
        Some(text) => Some(text@),
        None => None,
    }
}

impl View for PackageRecord {
    type V = PackageView;

    open spec fn view(&self) -> PackageView {
        (self.is_workspace_member, optional_text(self.name), optional_text(self.version), self.publish)
    }
}

impl View for Metadata {
    type V = (Option<Seq<PackageView>>, bool);

    open spec fn view(&self) -> (Option<Seq<PackageView>>, bool) {
        (
            match self.packages {
                Some(packages) => Some(packages@.map_values(|package: PackageRecord| package@)),
                None => None,
            },
            self.has_workspace_members,
        )
    }
}

/// What `cargo metadata`'s JSON output says, read as JSON: for each
/// package, whether its `id` equals, as a JSON value, one of the
/// `workspace_members`, and its `name`, `version` and `publish`; and whether
/// `workspace_members` is a list; `None` when the text is not JSON.
pub uninterp spec fn cargo_metadata(metadata: Seq<char>) -> Option<(Option<Seq<PackageView>>, bool)>;

/// Reads `cargo metadata`'s output.
///
/// Calls `serde_json::from_str` into a `serde_json::Value` and picks out of
/// it, as plain values, whether each of `packages[]` has an `id` that
/// `workspace_members` contains (by `serde_json`'s own equality of values),
/// its `name`, `version` and `publish` (null, a list and its length, or
/// anything else), and whether `workspace_members` is a list. The contract
/// names what is read, a function of the text alone; what JSON parsing
/// accepts is not stated.
#[verifier::external_body]
fn read_metadata(metadata: &str) -> (read: Option<Metadata>)
    ensures
        match read {
            Some(read) => cargo_metadata(metadata@) == Some(read@),
            None => cargo_metadata(metadata@) is None,
        },
{
    let value: Value = serde_json::from_str(metadata).ok()?;
    let ids = value["workspace_members"].as_array();
    let publish = |p: &Value| match p { Value::Null => PublishField::AnyRegistry, Value::Array(list) => PublishField::Registries(list.len()), _ => PublishField::Other };
    let package = |p: &Value| PackageRecord { is_workspace_member: ids.is_some_and(|ids| ids.contains(&p["id"])), name: p["name"].as_str().map(String::from), version: p["version"].as_str().map(String::from), publish: publish(&p["publish"]) };
    Some(Metadata { packages: value["packages"].as_array().map(|p| p.iter().map(package).collect()), has_workspace_members: ids.is_some() })
}

/// Every workspace member `cargo metadata`'s output lists, as [`members`]
/// lists them from what the output says; or a refusal when it is not JSON.
pub fn members_from_output(metadata: &str) -> (listed: Result<
    Vec<(Member, Publishable)>,
    PublishError,
>)
    ensures
        match cargo_metadata(metadata@) {
            None => listed matches Err(PublishError::Metadata(text)) && text@ == "invalid JSON"@,
            Some(view) => exists|read: Metadata| read@ == view && members_listed(read, listed),
        },
{
    match read_metadata(metadata) {
        None => Err(PublishError::Metadata("invalid JSON")),
        Some(read) => {
            let listed = members(&read);
            assert(cargo_metadata(metadata@) == Some(read@));
            listed
        },
    }
}

} // verus!
