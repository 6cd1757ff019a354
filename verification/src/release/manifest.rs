//! The release version as the root manifest records it.
//!
//! It is written in two kinds of place: `[workspace.package] version`, which
//! every member inherits, and the `version` requirement on every
//! `[workspace.dependencies]` entry that has a `path`: the project's own
//! crates, which a published manifest can only find by version. This module
//! reads what the manifest holds at those places and decides which of them a
//! release rewrites, or why none can be.

use vstd::prelude::*;
use vstd::string::*;

use crate::release::version::{parsed_version, version_text, ParseVersionError, Version};
use crate::text::owned;

verus! {

/// What the manifest holds at `[workspace.package] version`.
#[derive(Clone, Debug, PartialEq, Eq)]
pub enum VersionField {
    /// There is no such key.
    Missing,
    /// The key holds something other than a string.
    NotAString,
    /// The key holds this string.
    Text(String),
}

/// One entry of `[workspace.dependencies]`, as far as a release reads it.
#[derive(Clone, Debug, PartialEq, Eq)]
pub struct DependencyEntry {
    /// The entry's key.
    pub name: String,
    /// Whether the entry is a table (inline or not) rather than a bare
    /// version string.
    pub is_table: bool,
    /// Whether the table has a `path` key.
    pub has_path: bool,
    /// Whether the table has a `version` key holding a string.
    pub has_version_string: bool,
}

/// The places of the root manifest a release reads.
#[derive(Clone, Debug, PartialEq, Eq)]
pub struct ManifestFacts {
    /// `[workspace.package] version`.
    pub package_version: VersionField,
    /// The entries of `[workspace.dependencies]`, in the manifest's order;
    /// `None` when there is no such table.
    pub dependencies: Option<Vec<DependencyEntry>>,
}

/// The root manifest does not have the shape a release version needs.
#[derive(Clone, Debug, PartialEq, Eq)]
pub enum ManifestError {
    MissingWorkspaceVersion,
    WorkspaceVersionNotAString,
    WorkspaceVersionNotARelease(ParseVersionError),
    MissingWorkspaceDependencies,
    NoInternalDependencies,
    InternalWithoutVersion(String),
}

/// Whether an entry is one of the project's own crates: a table with a
/// `path`.
pub open spec fn is_internal(entry: DependencyEntry) -> bool {
    entry.is_table && entry.has_path
}

/// The internal entries' names, in order, or the first internal entry
/// without a version string.
pub open spec fn internal_names(entries: Seq<DependencyEntry>) -> Result<Seq<Seq<char>>, Seq<char>>
    decreases entries.len(),
{
    if entries.len() == 0 {
        Ok(Seq::empty())
    } else {
        match internal_names(entries.drop_last()) {
            Err(name) => Err(name),
            Ok(names) => {
                let entry = entries.last();
                if !is_internal(entry) {
                    Ok(names)
                } else if !entry.has_version_string {
                    Err(entry.name@)
                } else {
                    Ok(names.push(entry.name@))
                }
            },
        }
    }
}

/// The text of each name.
pub open spec fn name_texts(names: Seq<String>) -> Seq<Seq<char>> {
    names.map_values(|name: String| name@)
}

/// Once a prefix of the entries has an internal entry without a version,
/// the whole list reports that entry.
proof fn lemma_internal_error_stays(entries: Seq<DependencyEntry>, length: int)
    requires
        0 <= length <= entries.len(),
        internal_names(entries.take(length)) is Err,
    ensures
        internal_names(entries) == internal_names(entries.take(length)),
    decreases entries.len() - length,
{
    if length < entries.len() {
        assert(entries.take(length + 1).drop_last() =~= entries.take(length));
        lemma_internal_error_stays(entries, length + 1);
    } else {
        assert(entries.take(length) =~= entries);
    }
}

/// Whether `version` is what reading `field` as the release version gives:
/// the version it holds, or why it holds none.
pub open spec fn reads_version(field: VersionField, version: Result<Version, ManifestError>) -> bool {
    match field {
        VersionField::Missing => version == Err::<Version, _>(
            ManifestError::MissingWorkspaceVersion,
        ),
        VersionField::NotAString => version == Err::<Version, _>(
            ManifestError::WorkspaceVersionNotAString,
        ),
        VersionField::Text(text) => match parsed_version(text@) {
            Ok(parts) => version matches Ok(version) && version@ == parts,
            Err(fault) => version matches Err(ManifestError::WorkspaceVersionNotARelease(error))
                && error.spec_input() == text@ && error.spec_reason() == fault,
        },
    }
}

/// The release version `field` holds, if it holds one.
pub open spec fn release_version_of(field: VersionField) -> Option<(u64, u64, u64)> {
    match field {
        VersionField::Text(text) => match parsed_version(text@) {
            Ok(parts) => Some(parts),
            Err(_) => None,
        },
        _ => None,
    }
}

/// The version in `[workspace.package]`.
pub fn workspace_version(facts: &ManifestFacts) -> (version: Result<Version, ManifestError>)
    ensures
        reads_version(facts.package_version, version),
        version is Ok <==> release_version_of(facts.package_version) is Some,
{
    match &facts.package_version {
        VersionField::Missing => Err(ManifestError::MissingWorkspaceVersion),
        VersionField::NotAString => Err(ManifestError::WorkspaceVersionNotAString),
        VersionField::Text(text) => match Version::parse(text.as_str()) {
            Ok(version) => Ok(version),
            Err(error) => Err(ManifestError::WorkspaceVersionNotARelease(error)),
        },
    }
}

/// The keys of every `[workspace.dependencies]` entry with a `path`, each
/// checked to carry a string `version` before anything is edited.
pub fn internal_dependency_names(facts: &ManifestFacts) -> (names: Result<
    Vec<String>,
    ManifestError,
>)
    ensures
        match facts.dependencies {
            None => names == Err::<Vec<String>, _>(ManifestError::MissingWorkspaceDependencies),
            Some(entries) => match internal_names(entries@) {
                Ok(expected) => names matches Ok(names) && name_texts(names@) == expected,
                Err(name) => names matches Err(ManifestError::InternalWithoutVersion(found))
                    && found@ == name,
            },
        },
{
    let entries = match &facts.dependencies {
        Some(entries) => entries,
        None => return Err(ManifestError::MissingWorkspaceDependencies),
    };
    let mut names: Vec<String> = Vec::new();
    let mut index: usize = 0;
    assert(name_texts(names@) =~= Seq::empty());
    while index < entries.len()
        invariant
            facts.dependencies == Some(*entries),
            index <= entries@.len(),
            internal_names(entries@.take(index as int)) == Ok::<_, Seq<char>>(name_texts(names@)),
        decreases entries@.len() - index,
    {
        let entry = &entries[index];
        assert(entries@.take(index + 1).drop_last() =~= entries@.take(index as int));
        assert(entries@.take(index + 1).last() == entries@[index as int]);
        if entry.is_table && entry.has_path {
            if !entry.has_version_string {
                proof {
                    lemma_internal_error_stays(entries@, index + 1);
                }
                return Err(ManifestError::InternalWithoutVersion(entry.name.clone()));
            }
            let ghost before = names@;
            names.push(entry.name.clone());
            assert(name_texts(names@) =~= name_texts(before).push(entry.name@));
        }
        index += 1;
    }
    assert(entries@.take(index as int) =~= entries@);
    Ok(names)
}

/// Whether `sites` is what choosing the sites a release rewrites gives for
/// `facts`: the internal dependencies' names, or why there are none to
/// rewrite.
pub open spec fn sites_chosen(facts: ManifestFacts, sites: Result<Vec<String>, ManifestError>) -> bool {
    match facts.dependencies {
        None => sites == Err::<Vec<String>, _>(ManifestError::MissingWorkspaceDependencies),
        Some(entries) => match internal_names(entries@) {
            Err(name) => sites matches Err(ManifestError::InternalWithoutVersion(found))
                && found@ == name,
            Ok(expected) => if expected.len() == 0 {
                sites == Err::<Vec<String>, _>(ManifestError::NoInternalDependencies)
            } else {
                match facts.package_version {
                    VersionField::Missing => sites == Err::<Vec<String>, _>(
                        ManifestError::MissingWorkspaceVersion,
                    ),
                    VersionField::NotAString => sites == Err::<Vec<String>, _>(
                        ManifestError::WorkspaceVersionNotAString,
                    ),
                    VersionField::Text(_) => sites matches Ok(names) && name_texts(names@)
                        == expected,
                }
            },
        },
    }
}

/// Which internal dependencies a release rewrites, once every place it
/// writes is known to hold a string: the names of every `[workspace.dependencies]`
/// entry with a `path`. Nothing is to be written unless every place can be:
/// an internal dependency without a `version` is refused rather than given
/// one, since its absence means the manifest has stopped looking the way a
/// release assumes.
pub fn release_sites(facts: &ManifestFacts) -> (sites: Result<Vec<String>, ManifestError>)
    ensures
        sites_chosen(*facts, sites),
{
    let internal = internal_dependency_names(facts)?;
    if internal.len() == 0 {
        return Err(ManifestError::NoInternalDependencies);
    }
    match &facts.package_version {
        VersionField::Missing => Err(ManifestError::MissingWorkspaceVersion),
        VersionField::NotAString => Err(ManifestError::WorkspaceVersionNotAString),
        VersionField::Text(_) => Ok(internal),
    }
}

/// What each refusal says.
pub open spec fn manifest_error_text(error: ManifestError) -> Seq<char> {
    match error {
        ManifestError::MissingWorkspaceVersion => "the root manifest declares no [workspace.package] version"@,
        ManifestError::WorkspaceVersionNotAString => "[workspace.package] version is not a string"@,
        ManifestError::WorkspaceVersionNotARelease(error) => "[workspace.package] version: "@ + (
        "`"@ + error.spec_input() + "` is not a release version: "@
            + crate::release::version::fault_text(error.spec_reason())),
        ManifestError::MissingWorkspaceDependencies => "the root manifest declares no [workspace.dependencies]"@,
        ManifestError::NoInternalDependencies => "[workspace.dependencies] declares none of ritual's own crates by path"@,
        ManifestError::InternalWithoutVersion(name) => "[workspace.dependencies] "@ + name@
            + " has a path but no version string"@,
    }
}

impl ManifestError {
    /// The refusal as a person reads it.
    pub fn to_string(&self) -> (message: String)
        ensures
            message@ == manifest_error_text(*self),
    {
        match self {
            ManifestError::MissingWorkspaceVersion => owned(
                "the root manifest declares no [workspace.package] version",
            ),
            ManifestError::WorkspaceVersionNotAString => owned(
                "[workspace.package] version is not a string",
            ),
            ManifestError::WorkspaceVersionNotARelease(error) => {
                let mut message = owned("[workspace.package] version: ");
                message.append(error.to_string().as_str());
                message
            },
            ManifestError::MissingWorkspaceDependencies => owned(
                "the root manifest declares no [workspace.dependencies]",
            ),
            ManifestError::NoInternalDependencies => owned(
                "[workspace.dependencies] declares none of ritual's own crates by path",
            ),
            ManifestError::InternalWithoutVersion(name) => {
                let mut message = owned("[workspace.dependencies] ");
                message.append(name.as_str());
                message.append(" has a path but no version string");
                message
            },
        }
    }
}

/// The names of the internal entries, in order.
pub open spec fn internal_entry_names(entries: Seq<DependencyEntry>) -> Seq<Seq<char>>
    decreases entries.len(),
{
    if entries.len() == 0 {
        Seq::empty()
    } else if is_internal(entries.last()) {
        internal_entry_names(entries.drop_last()).push(entries.last().name@)
    } else {
        internal_entry_names(entries.drop_last())
    }
}

/// A release rewrites every internal requirement and nothing else, and only
/// when every one of them holds a version string; otherwise it names an
/// internal dependency without one.
pub proof fn a_release_rewrites_exactly_the_internal_requirements(entries: Seq<DependencyEntry>)
    ensures
        (internal_names(entries) is Ok) == (forall|i: int|
            0 <= i < entries.len() && is_internal(#[trigger] entries[i])
                ==> entries[i].has_version_string),
        internal_names(entries) is Ok ==> internal_names(entries) == Ok::<_, Seq<char>>(
            internal_entry_names(entries),
        ),
        internal_names(entries) matches Err(name) ==> exists|i: int|
            0 <= i < entries.len() && is_internal(#[trigger] entries[i])
                && !entries[i].has_version_string && entries[i].name@ == name,
    decreases entries.len(),
{
    if entries.len() > 0 {
        let rest = entries.drop_last();
        let last = entries.last();
        a_release_rewrites_exactly_the_internal_requirements(rest);
        assert forall|i: int| 0 <= i < rest.len() implies #[trigger] rest[i] == entries[i] by {}
        if internal_names(rest) is Ok && is_internal(last) && !last.has_version_string {
            assert(entries[entries.len() - 1] == last);
        }
        if let Err(name) = internal_names(rest) {
            let i = choose|i: int|
                0 <= i < rest.len() && is_internal(#[trigger] rest[i]) && !rest[i].has_version_string
                    && rest[i].name@ == name;
            assert(entries[i] == rest[i]);
        }
        if internal_names(entries) is Ok {
            assert forall|i: int|
                0 <= i < entries.len() && is_internal(#[trigger] entries[i]) implies entries[i].has_version_string by {
                if i < entries.len() - 1 {
                    assert(rest[i] == entries[i]);
                }
            }
        }
    }
}

/// The texts of a path of keys.
pub open spec fn key_texts(path: Seq<&str>) -> Seq<Seq<char>> {
    path.map_values(|key: &str| key@)
}

/// A [`VersionField`] as a plain value: `None` when missing, `Some(None)`
/// when not a string, `Some(Some(text))` when the string `text`.
pub open spec fn field_view(field: VersionField) -> Option<Option<Seq<char>>> {
    match field {
        VersionField::Missing => None,
        VersionField::NotAString => Some(None),
        VersionField::Text(text) => Some(Some(text@)),
    }
}

/// The message TOML parsing refuses `manifest` with, or `None` when it
/// parses.
pub uninterp spec fn toml_parse_error(manifest: Seq<char>) -> Option<Seq<char>>;

/// What the item reached from the document's root by `path`, key by key,
/// holds: `None` when the text does not parse or the path reaches nothing,
/// `Some(None)` when it reaches something other than a string,
/// `Some(Some(text))` when it reaches the string `text`.
pub uninterp spec fn field_at(manifest: Seq<char>, path: Seq<Seq<char>>) -> Option<
    Option<Seq<char>>,
>;

/// The keys, in the document's order, of the table (inline or not) reached
/// by `path`; `None` when the text does not parse or the path reaches no
/// table.
pub uninterp spec fn keys_at(manifest: Seq<char>, path: Seq<Seq<char>>) -> Option<Seq<Seq<char>>>;

/// Whether `path` reaches a table, inline or not.
pub uninterp spec fn table_at(manifest: Seq<char>, path: Seq<Seq<char>>) -> bool;

/// The text with the string reached by `path` replaced by `text`, its
/// surrounding whitespace and comments, and everything else in the
/// document, kept as they were; the text unchanged when it does not parse or
/// the path reaches no value.
pub uninterp spec fn replaced_string(manifest: Seq<char>, path: Seq<Seq<char>>, text: Seq<char>) -> Seq<char>;

/// Parses `manifest` as TOML and gives the refusal's message, if any.
///
/// Calls `str::parse::<toml_edit::DocumentMut>` and renders the error with
/// its `Display`. The contract names the message, a function of the text
/// alone.
#[verifier::external_body]
fn toml_error(manifest: &str) -> (error: Option<String>)
    ensures
        match error {
            Some(error) => toml_parse_error(manifest@) == Some(error@),
            None => toml_parse_error(manifest@) is None,
        },
{
    manifest.parse::<toml_edit::DocumentMut>().err().map(|error| error.to_string())
}

/// What the item `path` reaches holds.
///
/// Calls `toml_edit`'s parse, `Item::get` key by key, and `Item::as_str`.
/// The contract names the result, a function of the text and path alone.
#[verifier::external_body]
fn string_at(manifest: &str, path: &[&str]) -> (field: VersionField)
    ensures
        field_view(field) == field_at(manifest@, key_texts(path@)),
{
    let Ok(document) = manifest.parse::<toml_edit::DocumentMut>() else {
        return VersionField::Missing;
    };
    match path.iter().try_fold(document.as_item(), |item, key| item.get(*key)) {
        None => VersionField::Missing,
        Some(item) => item.as_str().map_or(VersionField::NotAString, |text| VersionField::Text(text.to_string())),
    }
}

/// The keys of the table `path` reaches.
///
/// Calls `toml_edit`'s parse, `Item::get` key by key, `Item::as_table_like`
/// and `TableLike::iter`. The contract names the result, a function of the
/// text and path alone.
#[verifier::external_body]
fn table_keys(manifest: &str, path: &[&str]) -> (keys: Option<Vec<String>>)
    ensures
        match keys {
            Some(keys) => keys_at(manifest@, key_texts(path@)) == Some(name_texts(keys@)),
            None => keys_at(manifest@, key_texts(path@)) is None,
        },
{
    let document = manifest.parse::<toml_edit::DocumentMut>().ok()?;
    let item = path.iter().try_fold(document.as_item(), |item, key| item.get(*key))?;
    Some(item.as_table_like()?.iter().map(|(key, _)| key.to_string()).collect())
}

/// Whether `path` reaches a table.
///
/// Calls `toml_edit`'s parse, `Item::get` key by key, and
/// `Item::as_table_like`. The contract names the result, a function of the
/// text and path alone.
#[verifier::external_body]
fn is_table_at(manifest: &str, path: &[&str]) -> (table: bool)
    ensures
        table == table_at(manifest@, key_texts(path@)),
{
    let Ok(document) = manifest.parse::<toml_edit::DocumentMut>() else {
        return false;
    };
    path.iter().try_fold(document.as_item(), |item, key| item.get(*key)).is_some_and(|item| item.as_table_like().is_some())
}

/// Replaces the string `path` reaches with `text`.
///
/// Calls `toml_edit`'s parse, `TableLike::get_mut` key by key,
/// `Item::as_value_mut`, `Value::from`, the value's decor, and the
/// document's `Display`. The contract names the result, a function of its
/// three arguments alone. Where the text parses and `path` reaches a
/// string, it also claims what `toml_edit`'s source shows of such an edit:
/// the new text parses, `path` reaches the string `text` in it, and every
/// other path reaches what it reached before (a value is swapped for another
/// string in place, keeping its decor, and the document is printed back as
/// it was read). What is claimed of the bytes is only the name.
#[verifier::external_body]
fn with_string_at(manifest: &str, path: &[&str], text: &str) -> (rewritten: String)
    ensures
        rewritten@ == replaced_string(manifest@, key_texts(path@), text@),
        (toml_parse_error(manifest@) is None && (field_at(manifest@, key_texts(path@)) matches Some(
            Some(_),
        ))) ==> {
            &&& toml_parse_error(rewritten@) is None
            &&& field_at(rewritten@, key_texts(path@)) == Some(Some(text@))
            &&& forall|other: Seq<Seq<char>>|
                other != key_texts(path@) ==> #[trigger] field_at(rewritten@, other) == field_at(
                    manifest@,
                    other,
                )
        },
{
    let Ok(mut document) = manifest.parse::<toml_edit::DocumentMut>() else {
        return manifest.to_string();
    };
    let site = path.iter().try_fold(document.as_item_mut(), |item, key| item.as_table_like_mut()?.get_mut(key));
    if let Some(value) = site.and_then(toml_edit::Item::as_value_mut) {
        let decor = value.decor().clone();
        *value = toml_edit::Value::from(text);
        *value.decor_mut() = decor;
    }
    document.to_string()
}

/// Where `[workspace.package] version` is.
pub open spec fn package_version_path() -> Seq<Seq<char>> {
    seq!["workspace"@, "package"@, "version"@]
}

/// Where `[workspace.dependencies]` is.
pub open spec fn dependencies_path() -> Seq<Seq<char>> {
    seq!["workspace"@, "dependencies"@]
}

/// Whether `entry` is what the manifest holds at the dependency `key`.
pub open spec fn entry_read(manifest: Seq<char>, key: Seq<char>, entry: DependencyEntry) -> bool {
    &&& entry.name@ == key
    &&& entry.is_table == table_at(manifest, dependencies_path().push(key))
    &&& entry.has_path == (field_at(manifest, dependencies_path().push(key).push("path"@)) is Some)
    &&& entry.has_version_string == (field_at(
        manifest,
        dependencies_path().push(key).push("version"@),
    ) matches Some(Some(_)))
}

/// Whether `facts` is what a release reads of the parsed `manifest`.
pub open spec fn reads_facts(manifest: Seq<char>, facts: ManifestFacts) -> bool {
    &&& field_view(facts.package_version) == field_at(manifest, package_version_path())
    &&& match keys_at(manifest, dependencies_path()) {
        None => facts.dependencies is None,
        Some(keys) => facts.dependencies matches Some(entries) && entries@.len() == keys.len()
            && forall|i: int| 0 <= i < keys.len() ==> entry_read(manifest, keys[i], #[trigger] entries@[i]),
    }
}

/// The places of the root manifest `manifest` a release reads, or the
/// message TOML parsing refuses it with.
pub fn read_facts(manifest: &str) -> (facts: Result<ManifestFacts, String>)
    ensures
        match toml_parse_error(manifest@) {
            Some(message) => facts matches Err(found) && found@ == message,
            None => facts matches Ok(facts) && reads_facts(manifest@, facts),
        },
{
    if let Some(error) = toml_error(manifest) {
        return Err(error);
    }
    let version_path = vec!["workspace", "package", "version"];
    assert(key_texts(version_path@) =~= package_version_path());
    let package_version = string_at(manifest, version_path.as_slice());
    let table_path = vec!["workspace", "dependencies"];
    assert(key_texts(table_path@) =~= dependencies_path());
    let dependencies = match table_keys(manifest, table_path.as_slice()) {
        None => None,
        Some(keys) => {
            let mut entries: Vec<DependencyEntry> = Vec::new();
            let mut index: usize = 0;
            while index < keys.len()
                invariant
                    index <= keys@.len(),
                    keys_at(manifest@, dependencies_path()) == Some(name_texts(keys@)),
                    entries@.len() == index,
                    forall|i: int|
                        0 <= i < index ==> entry_read(manifest@, keys@[i]@, #[trigger] entries@[i]),
                decreases keys@.len() - index,
            {
                let key = keys[index].as_str();
                let entry_path = vec!["workspace", "dependencies", key];
                let path_path = vec!["workspace", "dependencies", key, "path"];
                let version_path = vec!["workspace", "dependencies", key, "version"];
                assert(key_texts(entry_path@) =~= dependencies_path().push(key@));
                assert(key_texts(path_path@) =~= dependencies_path().push(key@).push("path"@));
                assert(key_texts(version_path@) =~= dependencies_path().push(key@).push(
                    "version"@,
                ));
                let is_table = is_table_at(manifest, entry_path.as_slice());
                let has_path = match string_at(manifest, path_path.as_slice()) {
                    VersionField::Missing => false,
                    _ => true,
                };
                let has_version_string = match string_at(manifest, version_path.as_slice()) {
                    VersionField::Text(_) => true,
                    _ => false,
                };
                entries.push(DependencyEntry { name: owned(key), is_table, has_path, has_version_string });
                index += 1;
            }
            assert forall|i: int| 0 <= i < keys@.len() implies entry_read(
                manifest@,
                name_texts(keys@)[i],
                #[trigger] entries@[i],
            ) by {
                assert(name_texts(keys@)[i] == keys@[i]@);
            }
            Some(entries)
        },
    };
    Ok(ManifestFacts { package_version, dependencies })
}

/// `manifest` with every place a release writes set to `version`:
/// `[workspace.package] version` first, then the `version` of each of the
/// `internal` dependencies, in order.
pub open spec fn with_release_version(manifest: Seq<char>, version: Seq<char>, internal: Seq<Seq<char>>) -> Seq<char>
    decreases internal.len(),
{
    if internal.len() == 0 {
        replaced_string(manifest, package_version_path(), version)
    } else {
        replaced_string(
            with_release_version(manifest, version, internal.drop_last()),
            dependencies_path().push(internal.last()).push("version"@),
            version,
        )
    }
}

/// Where the `version` of the dependency `name` is.
pub open spec fn requirement_path(name: Seq<char>) -> Seq<Seq<char>> {
    dependencies_path().push(name).push("version"@)
}

/// A dependency's requirement is never the package version.
proof fn lemma_requirement_is_not_the_package_version(name: Seq<char>)
    ensures
        requirement_path(name) != package_version_path(),
{
    assert(requirement_path(name).len() == 4);
    assert(package_version_path().len() == 3);
}

/// Whether `path` is one of the places a release writes for `internal`.
pub open spec fn is_release_site(internal: Seq<Seq<char>>, path: Seq<Seq<char>>) -> bool {
    path == package_version_path() || exists|i: int|
        0 <= i < internal.len() && path == requirement_path(#[trigger] internal[i])
}

/// Whether `manifest` parses and holds a string at every place a release
/// writes for `internal`.
pub open spec fn holds_release_strings(manifest: Seq<char>, internal: Seq<Seq<char>>) -> bool {
    &&& toml_parse_error(manifest) is None
    &&& (field_at(manifest, package_version_path()) matches Some(Some(_)))
    &&& forall|i: int|
        0 <= i < internal.len() ==> (field_at(manifest, requirement_path(#[trigger] internal[i]))
            matches Some(Some(_)))
}

/// Whether `rewritten` is `manifest` read back with `version` at every place
/// a release writes for `internal`, and everything else as it was.
pub open spec fn reads_back_release(
    manifest: Seq<char>,
    rewritten: Seq<char>,
    version: Seq<char>,
    internal: Seq<Seq<char>>,
) -> bool {
    &&& toml_parse_error(rewritten) is None
    &&& field_at(rewritten, package_version_path()) == Some(Some(version))
    &&& forall|i: int|
        0 <= i < internal.len() ==> field_at(rewritten, requirement_path(#[trigger] internal[i]))
            == Some(Some(version))
    &&& forall|path: Seq<Seq<char>>|
        !is_release_site(internal, path) ==> #[trigger] field_at(rewritten, path) == field_at(
            manifest,
            path,
        )
}

/// Writes `version` to `[workspace.package]` and to the `version` of each of
/// `internal`, keeping everything else. Where every one of those places
/// holds a string, the rewritten text reads back `version` at each of them,
/// and what it read before everywhere else.
pub fn rewrite_release_version(manifest: &str, version: &Version, internal: &Vec<String>) -> (rewritten: String)
    ensures
        rewritten@ == with_release_version(manifest@, version_text(version@), name_texts(internal@)),
        holds_release_strings(manifest@, name_texts(internal@)) ==> reads_back_release(
            manifest@,
            rewritten@,
            version_text(version@),
            name_texts(internal@),
        ),
{
    let ghost all = name_texts(internal@);
    let ghost premise = holds_release_strings(manifest@, all);
    let text = version.to_string();
    let version_path = vec!["workspace", "package", "version"];
    assert(key_texts(version_path@) =~= package_version_path());
    let mut rewritten = with_string_at(manifest, version_path.as_slice(), text.as_str());
    let mut index: usize = 0;
    assert(name_texts(internal@).take(0) =~= Seq::<Seq<char>>::empty());
    proof {
        if premise {
            assert forall|path: Seq<Seq<char>>|
                !is_release_site(all.take(0), path) implies #[trigger] field_at(rewritten@, path)
                == field_at(manifest@, path) by {
                assert(path != package_version_path());
            }
        }
    }
    while index < internal.len()
        invariant
            index <= internal@.len(),
            all == name_texts(internal@),
            text@ == version_text(version@),
            rewritten@ == with_release_version(
                manifest@,
                text@,
                name_texts(internal@).take(index as int),
            ),
            premise == holds_release_strings(manifest@, all),
            premise ==> reads_back_release(manifest@, rewritten@, text@, all.take(index as int)),
        decreases internal@.len() - index,
    {
        let ghost earlier = rewritten@;
        let ghost done = all.take(index as int);
        let ghost name = all[index as int];
        proof {
            if premise {
                assert(field_at(manifest@, requirement_path(all[index as int])) is Some);
                if !is_release_site(done, requirement_path(name)) {
                    assert(field_at(earlier, requirement_path(name)) == field_at(
                        manifest@,
                        requirement_path(name),
                    ));
                } else {
                    lemma_requirement_is_not_the_package_version(name);
                    let i = choose|i: int|
                        0 <= i < done.len() && requirement_path(name) == requirement_path(
                            #[trigger] done[i],
                        );
                    assert(field_at(earlier, requirement_path(done[i])) == Some(Some(text@)));
                }
            }
        }
        let ghost names = name_texts(internal@).take(index + 1);
        assert(names.drop_last() =~= name_texts(internal@).take(index as int));
        assert(names.last() == internal@[index as int]@);
        let site = vec!["workspace", "dependencies", internal[index].as_str(), "version"];
        assert(key_texts(site@) =~= dependencies_path().push(internal@[index as int]@).push(
            "version"@,
        ));
        rewritten = with_string_at(rewritten.as_str(), site.as_slice(), text.as_str());
        proof {
            if premise {
                let now = all.take(index + 1);
                assert(now.drop_last() =~= done);
                assert(now.last() == name);
                assert(key_texts(site@) == requirement_path(name));
                lemma_requirement_is_not_the_package_version(name);
                assert forall|i: int| 0 <= i < now.len() implies field_at(
                    rewritten@,
                    requirement_path(#[trigger] now[i]),
                ) == Some(Some(text@)) by {
                    if i < done.len() {
                        assert(now[i] == done[i]);
                        if requirement_path(done[i]) != requirement_path(name) {
                            assert(field_at(earlier, requirement_path(done[i])) == Some(
                                Some(text@),
                            ));
                        }
                    }
                }
                assert forall|path: Seq<Seq<char>>|
                    !is_release_site(now, path) implies #[trigger] field_at(rewritten@, path)
                    == field_at(manifest@, path) by {
                    assert(path != requirement_path(name)) by {
                        if path == requirement_path(name) {
                            assert(path == requirement_path(now[now.len() - 1]));
                        }
                    }
                    assert(!is_release_site(done, path)) by {
                        if is_release_site(done, path) && path != package_version_path() {
                            let i = choose|i: int|
                                0 <= i < done.len() && path == requirement_path(
                                    #[trigger] done[i],
                                );
                            assert(now[i] == done[i]);
                            assert(path == requirement_path(now[i]));
                        }
                    }
                }
            }
        }
        index += 1;
    }
    assert(name_texts(internal@).take(index as int) =~= name_texts(internal@));
    rewritten
}

/// Every name a release chooses is an internal entry's, with a version
/// string.
proof fn lemma_internal_names_have_versions(entries: Seq<DependencyEntry>)
    ensures
        internal_names(entries) matches Ok(names) ==> forall|k: int|
            #![trigger names[k]]
            0 <= k < names.len() ==> exists|i: int|
                0 <= i < entries.len() && (#[trigger] entries[i]).name@ == names[k]
                    && entries[i].has_version_string,
    decreases entries.len(),
{
    if entries.len() > 0 {
        let rest = entries.drop_last();
        lemma_internal_names_have_versions(rest);
        if let Ok(names) = internal_names(entries) {
            assert forall|k: int| #![trigger names[k]] 0 <= k < names.len() implies exists|i: int|
                0 <= i < entries.len() && (#[trigger] entries[i]).name@ == names[k]
                    && entries[i].has_version_string by {
                let earlier = internal_names(rest)->Ok_0;
                if k < earlier.len() {
                    assert(names[k] == earlier[k]);
                    let i = choose|i: int|
                        0 <= i < rest.len() && (#[trigger] rest[i]).name@ == earlier[k]
                            && rest[i].has_version_string;
                    assert(entries[i] == rest[i]);
                } else {
                    assert(entries[entries.len() - 1] == entries.last());
                }
            }
        }
    }
}

/// The places a release chooses for a parsed manifest all hold strings.
pub proof fn lemma_chosen_sites_hold_strings(manifest: Seq<char>, facts: ManifestFacts, names: Vec<String>)
    requires
        toml_parse_error(manifest) is None,
        reads_facts(manifest, facts),
        sites_chosen(facts, Ok(names)),
    ensures
        holds_release_strings(manifest, name_texts(names@)),
{
    let entries = facts.dependencies->Some_0;
    let keys = keys_at(manifest, dependencies_path())->Some_0;
    lemma_internal_names_have_versions(entries@);
    let chosen = name_texts(names@);
    assert forall|k: int| 0 <= k < chosen.len() implies (field_at(
        manifest,
        requirement_path(#[trigger] chosen[k]),
    ) matches Some(Some(_))) by {
        let i = choose|i: int|
            0 <= i < entries@.len() && (#[trigger] entries@[i]).name@ == chosen[k]
                && entries@[i].has_version_string;
        assert(entry_read(manifest, keys[i], entries@[i]));
    }
}

/// Writes `version` to every place of the root manifest `manifest` a
/// release writes, and returns the new text and the internal dependencies it
/// rewrote; or why the manifest cannot take it. Only the version strings
/// change; nothing is written unless every place can be. The outer error is
/// the message TOML parsing refuses the manifest with.
pub fn set_release_version(manifest: &str, version: &Version) -> (result: Result<
    Result<(String, Vec<String>), ManifestError>,
    String,
>)
    ensures
        match toml_parse_error(manifest@) {
            Some(message) => result matches Err(found) && found@ == message,
            None => result matches Ok(result) && exists|facts: ManifestFacts|
                reads_facts(manifest@, facts) && match result {
                    Ok((text, names)) => sites_chosen(facts, Ok(names)) && text@
                        == with_release_version(
                        manifest@,
                        version_text(version@),
                        name_texts(names@),
                    ) && reads_back_release(
                        manifest@,
                        text@,
                        version_text(version@),
                        name_texts(names@),
                    ),
                    Err(error) => sites_chosen(facts, Err(error)),
                },
        },
{
    let facts = match read_facts(manifest) {
        Ok(facts) => facts,
        Err(message) => return Err(message),
    };
    match release_sites(&facts) {
        Ok(names) => {
            let text = rewrite_release_version(manifest, version, &names);
            assert(sites_chosen(facts, Ok(names)));
            proof {
                lemma_chosen_sites_hold_strings(manifest@, facts, names);
            }
            Ok(Ok((text, names)))
        },
        Err(error) => {
            assert(sites_chosen(facts, Err(error)));
            Ok(Err(error))
        },
    }
}

} // verus!
