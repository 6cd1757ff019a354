use rituals::release::bump::bump_manifest;
use rituals::release::manifest::{
    read_facts, set_release_version, workspace_version, ManifestError,
};
use rituals::release::notes::{
    add_response, commit_ids, contributors, contributors_from_responses, Contributor, NotesError,
};
use rituals::release::publish::{members_from_output, Publishable, PublishError};
use rituals::release::verify::check_tag_in;
use rituals::release::version::{ReleaseTag, Version};

fn release(text: &str) -> Version {
    Version::parse(text).expect("the fixture version is a release")
}

/// Sets the release version of a text known to be TOML.
fn set(text: &str, version: &Version) -> Result<(String, Vec<String>), ManifestError> {
    set_release_version(text, version).expect("the fixture is valid TOML")
}

fn workspace_version_of(text: &str) -> Result<Version, ManifestError> {
    workspace_version(&read_facts(text).expect("the fixture is valid TOML"))
}

/// A root manifest shaped like this project's own: the release version, the
/// project's crates by path and version, and registry dependencies.
const ROOT_MANIFEST: &str = "[workspace]\n\
    members = [\"crates/rituals\", \"crates/rituals-core\", \"xtask\"]\n\
    resolver = \"3\"\n\
    \n\
    [workspace.package]\n\
    version = \"0.1.0\" # the release\n\
    edition = \"2024\"\n\
    \n\
    [workspace.dependencies]\n\
    rituals = { path = \"crates/rituals\", version = \"0.1.0\" }\n\
    rituals-core = { path = \"crates/rituals-core\", version =  \"0.1.0\" }\n\
    clap = { version = \"4.5\", features = [\"derive\"] }\n\
    serde_json = \"1\"\n";

#[test]
fn bumping_the_root_manifest_moves_every_site_and_only_those_lines() {
    let before = workspace_version_of(ROOT_MANIFEST).expect("the root manifest has a version");
    let after = release("98.76.54");
    assert_ne!(before, after);

    let (edited, rewritten) =
        set(ROOT_MANIFEST, &after).expect("the bump applies");
    assert_eq!(rewritten, ["rituals", "rituals-core"]);
    assert_eq!(workspace_version_of(&edited), Ok(after));

    let old = format!("\"{}\"", before.to_string());
    let new = format!("\"{}\"", after.to_string());
    let original_lines: Vec<&str> = ROOT_MANIFEST.lines().collect();
    let edited_lines: Vec<&str> = edited.lines().collect();
    assert_eq!(original_lines.len(), edited_lines.len());
    let mut changed = 0;
    for (original, edited) in original_lines.iter().zip(&edited_lines) {
        if original != edited {
            changed += 1;
            assert_eq!(original.replacen(&old, &new, 1), *edited);
        }
    }
    assert_eq!(changed, 1 + rewritten.len());
    assert!(edited.contains("version = \"98.76.54\" # the release\n"));
    assert!(edited.contains("version =  \"98.76.54\" }"));
}

#[test]
fn a_bumped_manifest_reads_back_and_bumps_again() {
    let (first, _) = set(ROOT_MANIFEST, &release("0.2.0")).expect("applies");
    assert_eq!(workspace_version_of(&first), Ok(release("0.2.0")));
    let (second, _) = set(&first, &release("0.3.0")).expect("applies again");
    assert_eq!(workspace_version_of(&second), Ok(release("0.3.0")));
}

#[test]
fn a_dependency_table_written_as_a_table_is_rewritten_too() {
    let text = "[workspace.package]\nversion = \"0.1.0\"\n\n\
                [workspace.dependencies.rituals]\npath = \"crates/rituals\"\nversion = \"0.1.0\" # kept\n";
    let (edited, _) = set(text, &release("0.1.1")).expect("the bump applies");
    assert_eq!(
        edited,
        "[workspace.package]\nversion = \"0.1.1\"\n\n\
         [workspace.dependencies.rituals]\npath = \"crates/rituals\"\nversion = \"0.1.1\" # kept\n",
    );
}

#[test]
fn an_internal_dependency_without_a_version_is_refused_and_nothing_changes() {
    let text = "[workspace.package]\nversion = \"0.1.0\"\n\n[workspace.dependencies]\n\
                rituals = { path = \"crates/rituals\", version = \"0.1.0\" }\n\
                ritual = { path = \"crates/rituals-core\" }\n";
    assert_eq!(
        set(text, &release("0.1.1")),
        Err(ManifestError::InternalWithoutVersion("ritual".to_string()))
    );
}

#[test]
fn registry_dependencies_are_left_alone() {
    let text = "[workspace.package]\nversion = \"0.1.0\"\n\n[workspace.dependencies]\n\
                rituals = { path = \"crates/rituals\", version = \"0.1.0\" }\n\
                serde_json = { version = \"0.1.0\" }\n\
                plain = \"0.1.0\"\n";
    let (edited, rewritten) = set(text, &release("0.1.1")).expect("applies");
    assert_eq!(rewritten, ["rituals"]);
    assert!(edited.contains("serde_json = { version = \"0.1.0\" }\nplain = \"0.1.0\"\n"));
}

#[test]
fn a_manifest_without_the_expected_shape_is_refused() {
    let cases = [
        ("", ManifestError::MissingWorkspaceVersion),
        ("[workspace.package]\nversion = 1\n", ManifestError::WorkspaceVersionNotAString),
        (
            "[workspace.package]\nversion = \"0.1.0\"\n",
            ManifestError::MissingWorkspaceDependencies,
        ),
        (
            "[workspace.package]\nversion = \"0.1.0\"\n[workspace.dependencies]\nx = \"1\"\n",
            ManifestError::NoInternalDependencies,
        ),
    ];
    for (text, error) in cases {
        let outcome = workspace_version_of(text)
            .and_then(|_| set(text, &release("0.1.1")));
        assert_eq!(outcome.map(|_| ()), Err(error), "for {text:?}");
    }
}

#[test]
fn a_workspace_version_that_is_not_a_release_is_refused() {
    assert!(matches!(
        workspace_version_of("[workspace.package]\nversion = \"0.1.0-rc.1\"\n"),
        Err(ManifestError::WorkspaceVersionNotARelease(_))
    ));
}

#[test]
fn text_that_is_not_toml_is_refused_with_the_parsers_message() {
    assert!(read_facts("[workspace\n").is_err());
    assert!(matches!(bump_manifest("v0.2.0", "= nothing"), Err(_)));
    assert!(matches!(check_tag_in("v0.1.0", "[["), Err(_)));
}

#[test]
fn a_bumped_manifest_text_verifies_at_its_tag() {
    let (bump, text) = match bump_manifest("v0.2.0", ROOT_MANIFEST) {
        Ok(Ok(bumped)) => bumped,
        _ => panic!("the bump applies"),
    };
    assert_eq!(bump.internal, ["rituals", "rituals-core"]);
    let checked = check_tag_in("v0.2.0", &text);
    assert!(matches!(checked, Ok(Ok(_))));
    assert!(matches!(bump_manifest("v0.1.0", ROOT_MANIFEST), Ok(Err(_))));
    let at_old = check_tag_in("v0.2.0", ROOT_MANIFEST);
    assert!(matches!(at_old, Ok(Err(_))));
    assert_eq!(
        ReleaseTag::parse("v0.2.0").map(|tag| tag.version()),
        Ok(bump.to)
    );
}

fn authors_response(commits: &[&[(&str, Option<&str>)]]) -> String {
    let nodes: Vec<String> = commits
        .iter()
        .map(|authors| {
            let authors: Vec<String> = authors
                .iter()
                .map(|(name, login)| match login {
                    Some(login) => format!("{{\"name\":\"{name}\",\"user\":{{\"login\":\"{login}\"}}}}"),
                    None => format!("{{\"name\":\"{name}\",\"user\":null}}"),
                })
                .collect();
            format!("{{\"oid\":\"0\",\"authors\":{{\"nodes\":[{}]}}}}", authors.join(","))
        })
        .collect();
    format!("{{\"data\":{{\"nodes\":[{}]}}}}", nodes.join(","))
}

#[test]
fn contributors_are_read_from_the_graphql_text() {
    let first = authors_response(&[&[("Bee", Some("beeauvin")), ("zed", Some("Zed"))]]);
    let second = authors_response(&[
        &[("github-actions[bot]", None)],
        &[("Someone Unlinked", None), ("amy", Some("amy"))],
    ]);
    let listed = contributors_from_responses(&[&first, &second]).expect("the answers parse");
    assert_eq!(
        listed,
        [
            Contributor::Account("amy".to_string()),
            Contributor::Account("beeauvin".to_string()),
            Contributor::Account("Zed".to_string()),
            Contributor::Unlinked("Someone Unlinked".to_string()),
        ]
    );
}

#[test]
fn a_graphql_text_that_is_not_json_or_reports_errors_is_refused() {
    let good = authors_response(&[&[("Bee", Some("beeauvin"))]]);
    let refused = contributors_from_responses(&[&good, "not json"]);
    assert!(matches!(refused, Err(NotesError::Response("GraphQL printed invalid JSON"))));
    let errors = "{\"data\":{\"nodes\":[null]},\"errors\":[{\"type\":\"NOT_FOUND\"}]}";
    assert!(matches!(
        contributors_from_responses(&[errors]),
        Err(NotesError::Response("GraphQL answered with errors"))
    ));
    assert!(matches!(
        contributors_from_responses(&["{\"data\":{\"nodes\":[null]}}"]),
        Err(NotesError::Response("a commit has no authors"))
    ));
    assert!(matches!(contributors_from_responses(&[]), Ok(listed) if listed.is_empty()));
}

fn metadata_output(xtask_publish: &str, members: &str) -> String {
    let package = |name: &str, publish: &str| {
        format!("{{\"id\":\"path+file:///w/{name}#0.1.1\",\"name\":\"{name}\",\"version\":\"0.1.1\",\"publish\":{publish}}}")
    };
    format!(
        "{{\"packages\":[{},{},{}],\"workspace_members\":{members}}}",
        package("rituals", "null"),
        package("xtask", xtask_publish),
        package("rituals-core", "null"),
    )
}

const ALL_MEMBERS: &str = "[\"path+file:///w/rituals#0.1.1\",\"path+file:///w/xtask#0.1.1\",\"path+file:///w/rituals-core#0.1.1\"]";

#[test]
fn members_are_read_from_the_metadata_text() {
    let listed = members_from_output(&metadata_output("[]", ALL_MEMBERS)).expect("the shape is valid");
    let read: Vec<(&str, Publishable)> =
        listed.iter().map(|(member, publishable)| (member.name(), *publishable)).collect();
    assert_eq!(
        read,
        [
            ("rituals", Publishable::Yes),
            ("xtask", Publishable::No),
            ("rituals-core", Publishable::Yes)
        ]
    );
}

#[test]
fn a_crate_restricted_to_named_registries_is_refused() {
    let refused = members_from_output(&metadata_output("[\"somewhere-else\"]", ALL_MEMBERS));
    assert!(matches!(refused, Err(PublishError::NamedRegistries(_))));
    let odd = members_from_output(&metadata_output("true", ALL_MEMBERS));
    assert!(matches!(odd, Err(PublishError::NamedRegistries(_))));
}

#[test]
fn packages_outside_the_workspace_are_not_members() {
    let listed = members_from_output(&metadata_output("[]", "[]")).expect("the shape is valid");
    assert_eq!(listed.len(), 0);
}

#[test]
fn metadata_that_is_not_json_is_refused() {
    assert!(matches!(
        members_from_output("cargo failed"),
        Err(PublishError::Metadata("invalid JSON"))
    ));
    assert!(matches!(
        members_from_output("{\"workspace_members\":[]}"),
        Err(PublishError::Metadata("no packages array"))
    ));
}

#[test]
fn setting_a_version_on_text_that_is_not_toml_gives_the_parsers_message() {
    assert!(set_release_version("[workspace", &release("0.1.1")).is_err());
}

#[test]
fn workspace_member_ids_are_compared_as_json_values() {
    let text = "{\"packages\":[{\"id\":0.0,\"name\":\"odd\",\"version\":\"0.1.1\",\"publish\":null}],\
                \"workspace_members\":[-0.0]}";
    let listed = members_from_output(text).expect("the shape is valid");
    assert_eq!(listed.len(), 1, "0.0 and -0.0 are equal JSON values");
    let none = "{\"packages\":[{\"id\":\"a\",\"name\":\"a\",\"version\":\"0.1.1\",\"publish\":null}],\
                \"workspace_members\":[\"b\"]}";
    assert!(members_from_output(none).expect("the shape is valid").is_empty());
}

#[test]
fn responses_are_read_as_they_come_and_the_first_bad_one_stops() {
    let mut answers = Vec::new();
    let good = authors_response(&[&[("Bee", Some("beeauvin"))]]);
    assert!(add_response(&mut answers, &good).is_ok());
    assert!(matches!(
        add_response(&mut answers, "<html>"),
        Err(NotesError::Response("GraphQL printed invalid JSON"))
    ));
    assert_eq!(answers.len(), 1, "a response that is not JSON adds nothing");
    assert_eq!(
        contributors(&answers).expect("the answer parses"),
        [Contributor::Account("beeauvin".to_string())]
    );
}

#[test]
fn empty_lines_are_not_commit_ids() {
    assert_eq!(commit_ids(&["C_1", "", "C_2", ""]), ["C_1", "C_2"]);
    assert!(commit_ids(&[]).is_empty());
}

#[test]
fn a_rewritten_manifest_reads_back_the_version_everywhere_and_nothing_else_changes() {
    let (text, names) = set(ROOT_MANIFEST, &release("1.2.3")).expect("applies");
    let facts = read_facts(&text).expect("the rewritten text is TOML");
    assert_eq!(workspace_version(&facts), Ok(release("1.2.3")));
    for name in &names {
        assert!(text.contains(&format!("{name} = {{ path = ")), "{text}");
    }
    assert!(text.contains("clap = { version = \"4.5\", features = [\"derive\"] }"));
    assert!(text.contains("serde_json = \"1\""));
    assert!(text.contains("edition = \"2024\""));
}
