//! Moving the whole workspace to a new release: what a bump to a tag
//! rewrites, or why it refuses before writing anything.

use vstd::prelude::*;
use vstd::string::*;

use crate::release::manifest::{
    internal_names, name_texts, read_facts, reads_facts, reads_version, release_sites,
    release_version_of, rewrite_release_version, toml_parse_error, with_release_version,
    workspace_version, ManifestError, ManifestFacts, VersionField, field_at, field_view,
    lemma_chosen_sites_hold_strings, package_version_path, reads_back_release, sites_chosen,
};
use crate::release::verify::{checks_tag, VerifyError};
use crate::release::version::{
    parsed_tag, parsing_a_printed_version_gives_it_back, precedes, push_decimal, version_text,
    ParseTagError, ReleaseTag, Version,
};
use crate::text::owned;

verus! {

/// What a bump changes: the version it moves from and to, and the internal
/// requirements it rewrites besides `[workspace.package]`.
#[derive(Clone, Debug)]
pub struct Bump {
    pub from: Version,
    pub to: Version,
    pub internal: Vec<String>,
}

/// Why a bump is refused.
#[derive(Debug)]
pub enum BumpError {
    Tag(ParseTagError),
    Manifest(ManifestError),
    NotNewer { from: Version, to: Version },
}

/// Whether `bump` is what planning a bump to `tag` gives for `facts`.
pub open spec fn bump_planned(tag: Seq<char>, facts: ManifestFacts, bump: Result<Bump, BumpError>) -> bool {
    match parsed_tag(tag) {
        Err(fault) => bump matches Err(BumpError::Tag(error)) && error.spec_input() == tag
            && error.spec_reason() == fault,
        Ok(to) => match release_version_of(facts.package_version) {
            None => bump matches Err(BumpError::Manifest(error)) && reads_version(
                facts.package_version,
                Err(error),
            ),
            Some(from) => if !precedes(from, to) {
                bump matches Err(BumpError::NotNewer { from: found_from, to: found_to })
                    && found_from@ == from && found_to@ == to
            } else {
                match facts.dependencies {
                    None => bump matches Err(
                        BumpError::Manifest(ManifestError::MissingWorkspaceDependencies),
                    ),
                    Some(entries) => match internal_names(entries@) {
                        Err(name) => bump matches Err(
                            BumpError::Manifest(ManifestError::InternalWithoutVersion(found)),
                        ) && found@ == name,
                        Ok(names) => if names.len() == 0 {
                            bump matches Err(
                                BumpError::Manifest(ManifestError::NoInternalDependencies),
                            )
                        } else {
                            bump matches Ok(bump) && bump.from@ == from && bump.to@ == to
                                && name_texts(bump.internal@) == names
                        },
                    },
                }
            },
        },
    }
}

/// Plans the move of the workspace the manifest describes to the version
/// `tag` names: the `[workspace.package]` version and every internal
/// requirement.
///
/// Refuses a tag that is not a release, a manifest without a release
/// version, a version that is not strictly greater than the one the
/// workspace is at, and a manifest whose internal requirements cannot all be
/// rewritten, in that order; a refused bump writes nothing.
pub fn plan_bump(tag: &str, facts: &ManifestFacts) -> (bump: Result<Bump, BumpError>)
    ensures
        bump_planned(tag@, *facts, bump),
{
    let tag = match ReleaseTag::parse(tag) {
        Ok(tag) => tag,
        Err(error) => return Err(BumpError::Tag(error)),
    };
    let from = match workspace_version(facts) {
        Ok(version) => version,
        Err(error) => return Err(BumpError::Manifest(error)),
    };
    let to = tag.version();
    if !from.is_before(&to) {
        return Err(BumpError::NotNewer { from, to });
    }
    match release_sites(facts) {
        Ok(internal) => Ok(Bump { from, to, internal }),
        Err(error) => Err(BumpError::Manifest(error)),
    }
}

impl Bump {
    /// What the bump changed, for a person reading the log.
    pub fn summary(&self) -> (text: String)
        ensures
            text@ == "bumped "@ + version_text(self.from@) + " -> "@ + version_text(self.to@)
                + ": [workspace.package], "@ + crate::release::version::decimal_text(
                self.internal@.len() as nat,
            ) + " internal requirements, Cargo.lock"@,
    {
        let mut text = owned("bumped ");
        text.append(self.from.to_string().as_str());
        text.append(" -> ");
        text.append(self.to.to_string().as_str());
        text.append(": [workspace.package], ");
        let count = self.internal.len();
        push_decimal(&mut text, count as u64);
        text.append(" internal requirements, Cargo.lock");
        text
    }
}

impl BumpError {
    /// The refusal as a person reads it.
    pub fn to_string(&self) -> (message: String)
        ensures
            match *self {
                BumpError::Tag(error) => message@ == "`"@ + error.spec_input()
                    + "` is not a release tag: "@ + crate::release::version::tag_fault_text(
                    error.spec_reason(),
                ) + "; a release tag is `v` then MAJOR.MINOR.PATCH, such as v0.1.1"@,
                BumpError::Manifest(error) => message@
                    == crate::release::manifest::manifest_error_text(error),
                BumpError::NotNewer { from, to } => message@ == "v"@ + version_text(to@)
                    + " is not newer than the workspace version "@ + version_text(from@)
                    + "; a release must be strictly greater than the one before it"@,
            },
    {
        match self {
            BumpError::Tag(error) => error.to_string(),
            BumpError::Manifest(error) => error.to_string(),
            BumpError::NotNewer { from, to } => {
                let mut message = owned("v");
                message.append(to.to_string().as_str());
                message.append(" is not newer than the workspace version ");
                message.append(from.to_string().as_str());
                message.append("; a release must be strictly greater than the one before it");
                message
            },
        }
    }
}

/// What a bump writes as the workspace version reads back as the version
/// of the tag it bumped to, so the bumped workspace verifies at that tag.
pub proof fn a_bumped_workspace_verifies_at_its_tag(
    tag: Seq<char>,
    facts: ManifestFacts,
    written: String,
)
    requires
        parsed_tag(tag) is Ok,
        written@ == version_text(parsed_tag(tag)->Ok_0),
    ensures
        release_version_of(VersionField::Text(written)) == Some(parsed_tag(tag)->Ok_0),
        forall|checked: Result<ReleaseTag, VerifyError>|
            checks_tag(
                tag,
                ManifestFacts {
                    package_version: VersionField::Text(written),
                    dependencies: facts.dependencies,
                },
                checked,
            ) ==> #[trigger] checked.is_ok(),
{
    parsing_a_printed_version_gives_it_back(parsed_tag(tag)->Ok_0);
}

/// Plans the move of the root manifest `manifest` to the version `tag`
/// names, as [`plan_bump`] does over what the manifest holds, and writes it:
/// the new text, with every version site set to the tag's version. The outer
/// error is the message TOML parsing refuses the manifest with.
pub fn bump_manifest(tag: &str, manifest: &str) -> (bumped: Result<
    Result<(Bump, String), BumpError>,
    String,
>)
    ensures
        match toml_parse_error(manifest@) {
            Some(message) => bumped matches Err(found) && found@ == message,
            None => bumped matches Ok(planned) && exists|facts: ManifestFacts|
                reads_facts(manifest@, facts) && match planned {
                    Ok((bump, text)) => bump_planned(tag@, facts, Ok(bump)) && text@
                        == with_release_version(
                        manifest@,
                        version_text(bump.to@),
                        name_texts(bump.internal@),
                    ) && reads_back_release(
                        manifest@,
                        text@,
                        version_text(bump.to@),
                        name_texts(bump.internal@),
                    ),
                    Err(error) => bump_planned(tag@, facts, Err(error)),
                },
        },
{
    let facts = match read_facts(manifest) {
        Ok(facts) => facts,
        Err(message) => return Err(message),
    };
    match plan_bump(tag, &facts) {
        Ok(bump) => {
            let text = rewrite_release_version(manifest, &bump.to, &bump.internal);
            assert(bump_planned(tag@, facts, Ok(bump)));
            proof {
                assert(sites_chosen(facts, Ok(bump.internal)));
                lemma_chosen_sites_hold_strings(manifest@, facts, bump.internal);
            }
            Ok(Ok((bump, text)))
        },
        Err(error) => {
            assert(bump_planned(tag@, facts, Err(error)));
            Ok(Err(error))
        },
    }
}

/// A manifest that reads back a tag's version as its workspace version,
/// as a bumped manifest does, verifies at that tag.
pub proof fn a_bumped_manifest_verifies_at_its_tag(
    tag: Seq<char>,
    manifest: Seq<char>,
    facts: ManifestFacts,
)
    requires
        parsed_tag(tag) is Ok,
        reads_facts(manifest, facts),
        field_at(manifest, package_version_path()) == Some(Some(version_text(parsed_tag(tag)->Ok_0))),
    ensures
        release_version_of(facts.package_version) == Some(parsed_tag(tag)->Ok_0),
        forall|checked: Result<ReleaseTag, VerifyError>|
            checks_tag(tag, facts, checked) ==> #[trigger] checked.is_ok(),
{
    parsing_a_printed_version_gives_it_back(parsed_tag(tag)->Ok_0);
    assert(field_view(facts.package_version) == Some(Some(version_text(parsed_tag(tag)->Ok_0))));
}

} // verus!
