//! Does the workspace release what a tag names?

use vstd::prelude::*;
use vstd::string::*;

use crate::release::manifest::{
    read_facts, reads_facts, reads_version, release_version_of, toml_parse_error,
    workspace_version, ManifestError, ManifestFacts,
};
use crate::release::version::{parsed_tag, version_text, ParseTagError, ReleaseTag, Version};
use crate::text::owned;

verus! {

/// Why a tag does not match the workspace.
#[derive(Debug)]
pub enum VerifyError {
    Tag(ParseTagError),
    Manifest(ManifestError),
    Mismatch { tag: ReleaseTag, workspace: Version },
}

/// Whether `checked` is what checking `tag` against a manifest whose
/// `[workspace.package] version` is described by `facts` gives.
pub open spec fn checks_tag(
    tag: Seq<char>,
    facts: ManifestFacts,
    checked: Result<ReleaseTag, VerifyError>,
) -> bool {
    match parsed_tag(tag) {
        Err(fault) => checked matches Err(VerifyError::Tag(error)) && error.spec_input() == tag
            && error.spec_reason() == fault,
        Ok(version) => match release_version_of(facts.package_version) {
            None => checked matches Err(VerifyError::Manifest(error)) && reads_version(
                facts.package_version,
                Err(error),
            ),
            Some(workspace) => if workspace == version {
                checked matches Ok(found) && found@ == version
            } else {
                checked matches Err(VerifyError::Mismatch { tag: found, workspace: at })
                    && found@ == version && at@ == workspace
            },
        },
    }
}

/// Checks that `tag` is a release tag and that the workspace the manifest
/// describes is at exactly its version, and returns that tag.
pub fn check_tag(tag: &str, facts: &ManifestFacts) -> (checked: Result<ReleaseTag, VerifyError>)
    ensures
        checks_tag(tag@, *facts, checked),
{
    let tag = match ReleaseTag::parse(tag) {
        Ok(tag) => tag,
        Err(error) => return Err(VerifyError::Tag(error)),
    };
    let workspace = match workspace_version(facts) {
        Ok(version) => version,
        Err(error) => return Err(VerifyError::Manifest(error)),
    };
    if workspace.is_same(&tag.version()) {
        Ok(tag)
    } else {
        Err(VerifyError::Mismatch { tag, workspace })
    }
}

/// What each refusal says.
pub open spec fn verify_error_text(error: VerifyError) -> Seq<char> {
    match error {
        VerifyError::Tag(error) => "`"@ + error.spec_input() + "` is not a release tag: "@
            + crate::release::version::tag_fault_text(error.spec_reason())
            + "; a release tag is `v` then MAJOR.MINOR.PATCH, such as v0.1.1"@,
        VerifyError::Manifest(error) => crate::release::manifest::manifest_error_text(error),
        VerifyError::Mismatch { tag, workspace } => "the tag is v"@ + version_text(tag@)
            + " but the workspace version is "@ + version_text(workspace@),
    }
}

impl VerifyError {
    /// The refusal as a person reads it.
    pub fn to_string(&self) -> (message: String)
        ensures
            message@ == verify_error_text(*self),
    {
        match self {
            VerifyError::Tag(error) => error.to_string(),
            VerifyError::Manifest(error) => error.to_string(),
            VerifyError::Mismatch { tag, workspace } => {
                let mut message = owned("the tag is ");
                message.append(tag.to_string().as_str());
                message.append(" but the workspace version is ");
                message.append(workspace.to_string().as_str());
                proof {
                    reveal_strlit("the tag is ");
                    reveal_strlit("the tag is v");
                }
                assert(message@ =~= "the tag is v"@ + version_text(tag@)
                    + " but the workspace version is "@ + version_text(workspace@));
                message
            },
        }
    }
}

/// Checks `tag` against the root manifest `manifest`, as [`check_tag`]
/// does over what the manifest holds. The outer error is the message TOML
/// parsing refuses the manifest with.
pub fn check_tag_in(tag: &str, manifest: &str) -> (checked: Result<
    Result<ReleaseTag, VerifyError>,
    String,
>)
    ensures
        match toml_parse_error(manifest@) {
            Some(message) => checked matches Err(found) && found@ == message,
            None => checked matches Ok(checked) && exists|facts: ManifestFacts|
                reads_facts(manifest@, facts) && checks_tag(tag@, facts, checked),
        },
{
    let facts = match read_facts(manifest) {
        Ok(facts) => facts,
        Err(message) => return Err(message),
    };
    let checked = check_tag(tag, &facts);
    assert(checks_tag(tag@, facts, checked));
    Ok(checked)
}

} // verus!
