use rituals::release::bump::{plan_bump, BumpError};
use rituals::release::manifest::{
    internal_dependency_names, release_sites, workspace_version, DependencyEntry, ManifestError,
    ManifestFacts, VersionField,
};
use rituals::release::notes::{
    authors_requests, commits_request, compose, contributors, generate_request,
    previous_release, releases_request, Answer, Author, CommitAuthors, Contributor, NotesError,
};
use rituals::release::program::{command_line, Program};
use rituals::release::publish::{
    ensure_members_on_tag, lookups, members, plan, Member, Metadata, PackageRecord, Plan,
    PublishError, PublishField, Publishable,
};
use rituals::release::verify::{check_tag, VerifyError};
use rituals::release::version::{ReleaseTag, TagFault, Version, VersionFault};

fn version(major: u64, minor: u64, patch: u64) -> Version {
    Version::from_parts(major, minor, patch)
}

fn tag(text: &str) -> ReleaseTag {
    ReleaseTag::parse(text).expect("the fixture tag is a release tag")
}

fn fault_of_tag(text: &str) -> TagFault {
    ReleaseTag::parse(text)
        .expect_err(&format!("{text:?} must be refused"))
        .reason()
}

#[test]
fn a_full_release_tag_parses_to_its_version() {
    let tag = ReleaseTag::parse("v0.1.1").expect("v0.1.1 is a release tag");
    assert_eq!(tag.version(), version(0, 1, 1));
    assert_eq!(tag.to_string(), "v0.1.1");
}

#[test]
fn zero_parts_and_large_parts_parse() {
    assert_eq!(Version::parse("0.0.0"), Ok(version(0, 0, 0)));
    assert_eq!(Version::parse("10.20.30"), Ok(version(10, 20, 30)));
    assert_eq!(
        Version::parse("18446744073709551615.0.0"),
        Ok(version(u64::MAX, 0, 0))
    );
}

#[test]
fn every_malformed_tag_is_refused_for_its_own_reason() {
    let cases = [
        ("0.1.1", TagFault::MissingPrefix),
        ("V0.1.1", TagFault::MissingPrefix),
        ("", TagFault::MissingPrefix),
        ("v", TagFault::Version(VersionFault::NotThreeParts)),
        ("v0.1", TagFault::Version(VersionFault::NotThreeParts)),
        ("v0.1.1.0", TagFault::Version(VersionFault::NotThreeParts)),
        ("v0..1", TagFault::Version(VersionFault::EmptyPart)),
        ("v0.1.", TagFault::Version(VersionFault::EmptyPart)),
        ("v0.1.1-garbage", TagFault::Version(VersionFault::PreReleaseOrBuild)),
        ("v0.1.1-rc.1", TagFault::Version(VersionFault::PreReleaseOrBuild)),
        ("v0.1.1+build", TagFault::Version(VersionFault::PreReleaseOrBuild)),
        ("v0.1.x", TagFault::Version(VersionFault::NotDigits)),
        ("v0.1. 1", TagFault::Version(VersionFault::NotDigits)),
        ("v0.1.1 ", TagFault::Version(VersionFault::NotDigits)),
        ("vv0.1.1", TagFault::Version(VersionFault::NotDigits)),
        ("v0.01.1", TagFault::Version(VersionFault::LeadingZero)),
        ("v00.1.1", TagFault::Version(VersionFault::LeadingZero)),
        ("v18446744073709551616.0.0", TagFault::Version(VersionFault::TooLarge)),
    ];
    for (text, fault) in cases {
        assert_eq!(fault_of_tag(text), fault, "for {text:?}");
    }
}

#[test]
fn non_ascii_digits_are_not_digits() {
    assert_eq!(
        fault_of_tag("v0.1.\u{0661}"),
        TagFault::Version(VersionFault::NotDigits)
    );
}

#[test]
fn the_refusal_names_the_input_and_the_expected_shape() {
    let message = ReleaseTag::parse("0.1.1")
        .expect_err("a tag without `v` is refused")
        .to_string();
    assert_eq!(
        message,
        "`0.1.1` is not a release tag: it must start with `v`; \
         a release tag is `v` then MAJOR.MINOR.PATCH, such as v0.1.1"
    );
}

#[test]
fn ordering_is_semver_precedence() {
    let ascending = [
        version(0, 0, 9),
        version(0, 1, 0),
        version(0, 1, 1),
        version(0, 1, 10),
        version(0, 2, 0),
        version(1, 0, 0),
    ];
    for pair in ascending.windows(2) {
        assert!(pair[0] < pair[1], "{} < {}", pair[0].to_string(), pair[1].to_string());
        assert!(pair[0].is_before(&pair[1]));
        assert!(!pair[1].is_before(&pair[0]));
    }
}

#[test]
fn a_printed_version_parses_back() {
    for parts in [(0, 0, 0), (1, 2, 3), (u64::MAX, 10, 0)] {
        let printed = version(parts.0, parts.1, parts.2).to_string();
        assert_eq!(Version::parse(&printed), Ok(version(parts.0, parts.1, parts.2)));
    }
}

#[test]
fn the_previous_release_is_the_highest_published_one_below_the_tag() {
    let published = [
        "v0.1.0",
        "v0.2.0",
        "v0.1.5",
        "v0.3.0",
        "not-a-release",
        "v1.0.0-rc.1",
    ];
    assert_eq!(previous_release(&published, tag("v0.2.1")), Some(tag("v0.2.0")));
    assert_eq!(previous_release(&published, tag("v0.1.6")), Some(tag("v0.1.5")));
    assert_eq!(previous_release(&published, tag("v0.1.0")), None);
    assert_eq!(previous_release(&[], tag("v0.1.0")), None);
}

#[test]
fn a_first_release_says_so_instead_of_naming_a_previous_one() {
    let body = compose("## What's Changed", None, &[]);
    assert!(body.ends_with(
        "## What's Changed\n\n## Contributors\n\nNobody has authored a commit in this release.\n"
    ));
}

fn author(name: &str, login: Option<&str>) -> Author {
    Author {
        login: login.map(str::to_string),
        name: Some(name.to_string()),
    }
}

fn response(commits: &[&[Author]]) -> Answer {
    Answer {
        has_errors: false,
        nodes: Some(
            commits
                .iter()
                .map(|authors| CommitAuthors {
                    authors: Some(authors.to_vec()),
                })
                .collect(),
        ),
    }
}

#[test]
fn a_co_author_is_a_contributor_alongside_the_author() {
    let answer = response(&[&[author("Bee", Some("beeauvin")), author("Delphi", Some("delphimoon"))]]);
    assert_eq!(
        contributors(&[answer]).expect("the answer parses"),
        [
            Contributor::Account("beeauvin".to_string()),
            Contributor::Account("delphimoon".to_string()),
        ]
    );
}

#[test]
fn the_captured_release_composes_into_prose_notes_and_contributors() {
    let generated = "## What's Changed\n* the first release by @beeauvin in https://github.com/hexlace/ritual/pull/1";
    let contributors = [
        Contributor::Account("beeauvin".to_string()),
        Contributor::Account("delphimoon".to_string()),
    ];
    let body = compose(generated, Some(tag("v0.1.0")), &contributors);
    let expected = format!(
        "<!-- Release prose: write it here, above the line. Everything below the line was \
         generated. -->\n\n_Write about this release here._\n\n---\n\n{generated}\n\n\
         ## Contributors\n\n\
         Everyone who authored or co-authored a commit since v0.1.0:\n\n\
         * @beeauvin\n* @delphimoon\n"
    );
    assert_eq!(body, expected);
    assert!(body.contains("https://github.com/hexlace/ritual/pull/1"));
}

#[test]
fn bots_are_left_out_when_github_resolves_them_to_a_login() {
    let bots = response(&[
        &[author("dependabot[bot]", Some("dependabot[bot]"))],
        &[author("github-actions[bot]", Some("github-actions[bot]"))],
    ]);
    let people = response(&[&[author("Bee", Some("beeauvin")), author("Delphi", Some("delphimoon"))]]);
    assert_eq!(
        contributors(&[bots, people]).expect("the answers parse"),
        [
            Contributor::Account("beeauvin".to_string()),
            Contributor::Account("delphimoon".to_string()),
        ]
    );
}

#[test]
fn unlinked_bots_are_left_out_and_unlinked_people_are_kept_by_name() {
    let answer = response(&[
        &[author("github-actions[bot]", None)],
        &[author("Someone Unlinked", None), author("Bee", Some("beeauvin"))],
    ]);
    assert_eq!(
        contributors(&[answer]).expect("the answer parses"),
        [
            Contributor::Account("beeauvin".to_string()),
            Contributor::Unlinked("Someone Unlinked".to_string()),
        ]
    );
}

#[test]
fn contributors_across_commits_and_queries_appear_once_sorted_without_case() {
    let first = response(&[&[author("Bee", Some("beeauvin")), author("zed", Some("Zed"))]]);
    let second = response(&[&[author("Bee again", Some("beeauvin")), author("amy", Some("amy"))]]);
    let listed: Vec<String> = contributors(&[first, second])
        .expect("the answers parse")
        .iter()
        .map(Contributor::to_string)
        .collect();
    assert_eq!(listed, ["@amy", "@beeauvin", "@Zed"]);
}

#[test]
fn a_graphql_error_is_refused_rather_than_read_as_no_contributors() {
    let answer = Answer {
        has_errors: true,
        nodes: Some(vec![CommitAuthors { authors: None }]),
    };
    assert!(matches!(contributors(&[answer]), Err(NotesError::Response(_))));
}

#[test]
fn a_null_node_without_an_error_is_refused_too() {
    let answer = Answer {
        has_errors: false,
        nodes: Some(vec![CommitAuthors { authors: None }]),
    };
    assert!(contributors(&[answer]).is_err());
}

#[test]
fn an_author_with_neither_login_nor_name_is_refused() {
    let answer = response(&[&[Author { login: None, name: None }]]);
    let refused = contributors(&[answer]);
    assert!(matches!(refused, Err(NotesError::Response(_))));
    if let Err(error) = refused {
        assert_eq!(error.to_string(), "GitHub's answer: an author has no name");
    }
}

#[test]
fn the_requests_name_the_repository_the_tag_and_the_range() {
    assert_eq!(
        releases_request("hexlace/ritual"),
        [
            "api",
            "--paginate",
            "repos/hexlace/ritual/releases",
            "--jq",
            ".[] | select((.draft or .prerelease) | not) | .tag_name"
        ]
    );
    assert_eq!(
        generate_request("hexlace/ritual", tag("v0.1.1"), "9360276", Some(tag("v0.1.0"))),
        [
            "api",
            "--method",
            "POST",
            "repos/hexlace/ritual/releases/generate-notes",
            "-f",
            "tag_name=v0.1.1",
            "-f",
            "target_commitish=9360276",
            "--jq",
            ".body",
            "-f",
            "previous_tag_name=v0.1.0"
        ]
    );
    assert_eq!(generate_request("o/r", tag("v0.1.0"), "main", None).len(), 10);
    assert_eq!(
        commits_request("o/r", "main", Some(tag("v0.1.0"))),
        ["api", "--paginate", "repos/o/r/compare/v0.1.0...main?per_page=100", "--jq", ".commits[].node_id"]
    );
    assert_eq!(
        commits_request("o/r", "main", None),
        ["api", "--paginate", "repos/o/r/commits?sha=main&per_page=100", "--jq", ".[].node_id"]
    );
}

#[test]
fn commit_ids_are_asked_about_a_hundred_at_a_time() {
    let ids: Vec<String> = (0..250).map(|index| format!("C_{index}")).collect();
    let ids: Vec<&str> = ids.iter().map(String::as_str).collect();
    let requests = authors_requests(&ids);
    assert_eq!(requests.len(), 3);
    assert_eq!(requests[0].len(), 4 + 2 * 100);
    assert_eq!(requests[2].len(), 4 + 2 * 50);
    assert_eq!(requests[0][..3], ["api", "graphql", "-f"]);
    assert!(requests[0][3].starts_with("query=query($ids: [ID!]!)"));
    assert_eq!(requests[1][4..6], ["-f", "ids[]=C_100"]);
    assert!(authors_requests(&[]).is_empty());
}

fn package(is_workspace_member: bool, name: &str, publish: PublishField) -> PackageRecord {
    PackageRecord {
        is_workspace_member,
        name: Some(name.to_string()),
        version: Some("0.1.1".to_string()),
        publish,
    }
}

const RELEASED: [&str; 8] = [
    "rituals",
    "rituals-cli",
    "rituals-compose",
    "rituals-core",
    "rituals-core-add",
    "rituals-core-create",
    "rituals-core-new",
    "rituals-core-regenerate",
];

/// A workspace laid out as this project's own: the eight released crates,
/// `xtask` which is never published, and a registry dependency that is not a
/// member.
fn this_workspace() -> Metadata {
    let mut packages: Vec<PackageRecord> = RELEASED
        .iter()
        .map(|name| package(true, name, PublishField::AnyRegistry))
        .collect();
    packages.push(package(true, "xtask", PublishField::Registries(0)));
    packages.push(package(false, "serde_json", PublishField::AnyRegistry));
    Metadata {
        packages: Some(packages),
        has_workspace_members: true,
    }
}

fn names(members: &[Member]) -> Vec<&str> {
    let mut names: Vec<&str> = members.iter().map(Member::name).collect();
    names.sort_unstable();
    names
}

fn plan_with(answer: impl Fn(&Member) -> bool) -> Plan {
    let listed = members(&this_workspace()).expect("the metadata has the expected shape");
    let asked = lookups(&listed);
    let answers: Vec<bool> = asked.iter().map(answer).collect();
    plan(listed, &answers)
}

#[test]
fn this_workspace_releases_eight_crates_and_never_publishes_xtask() {
    let plan = plan_with(|_| false);
    assert_eq!(names(&plan.to_publish), RELEASED);
    assert_eq!(names(&plan.never_published), ["xtask"]);
    assert!(plan.already_published.is_empty());
}

#[test]
fn crates_already_on_the_registry_are_left_out_and_nothing_else_is() {
    let listed = members(&this_workspace()).expect("the metadata has the expected shape");
    let asked = lookups(&listed);
    assert!(
        !asked.iter().any(|member| member.name() == "xtask"),
        "an unpublishable member is never looked up"
    );
    let answers: Vec<bool> = asked
        .iter()
        .map(|member| member.name() == "rituals" || member.name() == "rituals-core-new")
        .collect();
    let plan = plan(listed, &answers);
    assert_eq!(names(&plan.already_published), ["rituals", "rituals-core-new"]);
    assert_eq!(plan.to_publish.len(), RELEASED.len() - 2);
    assert_eq!(
        names(&plan.excluded()),
        ["rituals", "rituals-core-new", "xtask"],
        "every member left out is excluded from `cargo publish --workspace`"
    );
}

#[test]
fn every_crate_already_published_leaves_nothing_to_publish() {
    let plan = plan_with(|_| true);
    assert!(plan.to_publish.is_empty());
    assert_eq!(names(&plan.already_published), RELEASED);
}

/// Reads `outputs` back the way the publish job does: two lines, each
/// `key=` then names separated by single spaces.
fn read_outputs(outputs: &str) -> [(String, Vec<String>); 2] {
    let lines: Vec<&str> = outputs.split_terminator('\n').collect();
    assert_eq!(lines.len(), 2, "exactly two lines: {outputs:?}");
    [lines[0], lines[1]].map(|line| {
        let (key, value) = line.split_once('=').expect("each line is key=value");
        let mut names: Vec<String> = value.split(' ').map(str::to_string).collect();
        names.retain(|name| !name.is_empty());
        names.sort_unstable();
        (key.to_string(), names)
    })
}

#[test]
fn the_outputs_name_what_to_upload_and_what_to_exclude() {
    let plan = plan_with(|member| member.name() != "rituals-cli" && member.name() != "rituals-core-new");
    let outputs = plan.outputs();
    assert!(!outputs.contains("  "), "one space between names: {outputs:?}");
    let [(publish, to_publish), (exclude, excluded)] = read_outputs(&outputs);
    assert_eq!((publish.as_str(), exclude.as_str()), ("publish", "exclude"));
    assert_eq!(to_publish, ["rituals-cli", "rituals-core-new"]);
    assert_eq!(
        excluded,
        [
            "rituals",
            "rituals-compose",
            "rituals-core",
            "rituals-core-add",
            "rituals-core-create",
            "rituals-core-regenerate",
            "xtask",
        ]
    );
}

#[test]
fn nothing_to_upload_still_writes_both_lines() {
    let plan = plan_with(|_| true);
    let outputs = plan.outputs();
    assert!(outputs.starts_with("publish=\n"), "{outputs:?}");
    let [_, (_, excluded)] = read_outputs(&outputs);
    assert_eq!(excluded.len(), RELEASED.len() + 1, "every member, xtask included");
}

#[test]
fn the_summary_lists_each_kind_of_member() {
    let plan = plan_with(|member| member.name() != "rituals-cli");
    assert_eq!(
        plan.summary(),
        "dry-run published: [rituals-cli]; already on crates.io, skipped: [rituals, \
         rituals-compose, rituals-core, rituals-core-add, rituals-core-create, rituals-core-new, \
         rituals-core-regenerate]; never published: [xtask]"
    );
    let nothing = plan_with(|_| true);
    assert!(nothing.summary().starts_with("nothing to publish; already on crates.io, skipped: ["));
}

#[test]
fn a_record_restricted_to_named_registries_is_refused() {
    let mut metadata = this_workspace();
    if let Some(packages) = metadata.packages.as_mut() {
        packages[0].publish = PublishField::Registries(1);
    }
    let refused = members(&metadata);
    assert!(matches!(refused, Err(PublishError::NamedRegistries(_))));
    if let Err(error) = refused {
        assert_eq!(
            error.to_string(),
            "rituals restricts `publish` to named registries, which this does not handle"
        );
    }
}

#[test]
fn records_outside_the_workspace_are_not_members() {
    let mut metadata = this_workspace();
    if let Some(packages) = metadata.packages.as_mut() {
        for package in packages.iter_mut() {
            package.is_workspace_member = false;
        }
    }
    assert_eq!(members(&metadata).expect("the shape is valid").len(), 0);
}

#[test]
fn metadata_without_the_expected_lists_is_refused() {
    let mut metadata = this_workspace();
    metadata.has_workspace_members = false;
    let refused = members(&metadata);
    assert!(matches!(refused, Err(PublishError::Metadata("no workspace_members array"))));
    metadata.packages = None;
    let refused = members(&metadata);
    assert!(matches!(refused, Err(PublishError::Metadata("no packages array"))));
    if let Err(error) = refused {
        assert_eq!(error.to_string(), "cargo metadata: no packages array");
    }
    let mut nameless = this_workspace();
    if let Some(packages) = nameless.packages.as_mut() {
        packages[2].name = None;
    }
    assert!(matches!(members(&nameless), Err(PublishError::Metadata("a package has no name"))));
}

#[test]
fn a_member_off_the_tag_is_refused() {
    let listed = members(&this_workspace()).expect("the metadata has the expected shape");
    assert!(ensure_members_on_tag(&listed, tag("v0.1.1")).is_ok());
    let refused = ensure_members_on_tag(&listed, tag("v0.2.0"));
    assert!(matches!(refused, Err(PublishError::MemberOffTag { .. })));
    if let Err(error) = refused {
        assert_eq!(error.to_string(), "rituals is at 0.1.1, not the tag's version 0.2.0");
    }
    let member = Member::new("rituals", "0.1.1");
    assert_eq!(member.spec(), "rituals@0.1.1");
    assert_eq!(listed[8].1, Publishable::No);
}

fn facts(version: VersionField, dependencies: Option<Vec<DependencyEntry>>) -> ManifestFacts {
    ManifestFacts {
        package_version: version,
        dependencies,
    }
}

fn entry(name: &str, is_table: bool, has_path: bool, has_version_string: bool) -> DependencyEntry {
    DependencyEntry {
        name: name.to_string(),
        is_table,
        has_path,
        has_version_string,
    }
}

fn at(text: &str) -> VersionField {
    VersionField::Text(text.to_string())
}

#[test]
fn facts_without_the_expected_shape_are_refused() {
    let cases = [
        (facts(VersionField::Missing, None), ManifestError::MissingWorkspaceVersion),
        (facts(VersionField::NotAString, None), ManifestError::WorkspaceVersionNotAString),
        (facts(at("0.1.0"), None), ManifestError::MissingWorkspaceDependencies),
        (
            facts(at("0.1.0"), Some(vec![entry("x", false, false, false)])),
            ManifestError::NoInternalDependencies,
        ),
    ];
    for (facts, error) in cases {
        let outcome = workspace_version(&facts).and_then(|_| release_sites(&facts));
        assert_eq!(outcome.map(|_| ()), Err(error));
    }
}

#[test]
fn facts_with_a_version_that_is_not_a_release_are_refused() {
    assert!(matches!(
        workspace_version(&facts(at("0.1.0-rc.1"), None)),
        Err(ManifestError::WorkspaceVersionNotARelease(_))
    ));
    if let Err(error) = workspace_version(&facts(at("0.1.0-rc.1"), None)) {
        assert!(error
            .to_string()
            .starts_with("[workspace.package] version: `0.1.0-rc.1` is not a release version: "));
    }
}

#[test]
fn facts_with_an_internal_dependency_without_a_version_are_refused() {
    let facts = facts(
        at("0.1.0"),
        Some(vec![
            entry("rituals", true, true, true),
            entry("ritual", true, true, false),
        ]),
    );
    assert_eq!(
        release_sites(&facts),
        Err(ManifestError::InternalWithoutVersion("ritual".to_string()))
    );
    assert_eq!(
        ManifestError::InternalWithoutVersion("ritual".to_string()).to_string(),
        "[workspace.dependencies] ritual has a path but no version string"
    );
}

#[test]
fn registry_entries_are_not_release_sites() {
    let facts = facts(
        at("0.1.0"),
        Some(vec![
            entry("rituals", true, true, true),
            entry("serde_json", true, false, true),
            entry("plain", false, false, false),
        ]),
    );
    assert_eq!(release_sites(&facts), Ok(vec!["rituals".to_string()]));
    assert_eq!(internal_dependency_names(&facts), Ok(vec!["rituals".to_string()]));
}

fn this_manifest(version: &str) -> ManifestFacts {
    facts(
        at(version),
        Some(vec![
            entry("rituals", true, true, true),
            entry("rituals-core", true, true, true),
            entry("clap", true, false, true),
        ]),
    )
}

#[test]
fn a_refused_tag_writes_nothing() {
    for text in ["v0.0.0", "0.9.9", "v1.0.0-rc.1"] {
        assert!(plan_bump(text, &this_manifest("0.1.0")).is_err(), "{text}");
    }
}

#[test]
fn a_bump_moves_every_internal_requirement() {
    let bump = plan_bump("v98.0.0", &this_manifest("0.1.0")).expect("the bump applies");
    assert_eq!(bump.to.to_string(), "98.0.0");
    assert_eq!(bump.from.to_string(), "0.1.0");
    assert_eq!(bump.internal, ["rituals", "rituals-core"]);
    assert_eq!(
        bump.summary(),
        "bumped 0.1.0 -> 98.0.0: [workspace.package], 2 internal requirements, Cargo.lock"
    );
}

#[test]
fn a_bump_to_the_same_or_an_older_version_is_refused() {
    let refused = plan_bump("v0.1.0", &this_manifest("0.1.0"));
    assert!(matches!(refused, Err(BumpError::NotNewer { .. })));
    if let Err(error) = refused {
        assert_eq!(
            error.to_string(),
            "v0.1.0 is not newer than the workspace version 0.1.0; a release must be strictly \
             greater than the one before it"
        );
    }
    assert!(matches!(plan_bump("v0.0.9", &this_manifest("0.1.0")), Err(BumpError::NotNewer { .. })));
    assert!(matches!(plan_bump("0.2.0", &this_manifest("0.1.0")), Err(BumpError::Tag(_))));
}

#[test]
fn a_tag_matching_the_workspace_is_verified() {
    assert_eq!(check_tag("v0.1.0", &this_manifest("0.1.0")).ok(), Some(tag("v0.1.0")));
    let mismatch = check_tag("v0.2.0", &this_manifest("0.1.0"));
    assert!(matches!(mismatch, Err(VerifyError::Mismatch { .. })));
    if let Err(error) = mismatch {
        assert_eq!(error.to_string(), "the tag is v0.2.0 but the workspace version is 0.1.0");
    }
    assert!(matches!(check_tag("v0.1", &this_manifest("0.1.0")), Err(VerifyError::Tag(_))));
    assert!(matches!(
        check_tag("v0.1.0", &facts(VersionField::Missing, None)),
        Err(VerifyError::Manifest(ManifestError::MissingWorkspaceVersion))
    ));
}

#[test]
fn a_command_is_shown_by_its_program_and_arguments() {
    assert_eq!(
        command_line(Program::Cargo, &["metadata", "--no-deps"]),
        "cargo metadata --no-deps"
    );
    assert_eq!(command_line(Program::Gh, &[]), "gh ");
    assert_eq!(Program::Gh.name(), "gh");
}

fn scratch_name(test: &str, process: u32) -> String {
    format!("ritual-xtask-bump-{test}-{process}")
}

#[test]
fn scratch_names_differ_by_test_and_by_process() {
    assert_ne!(scratch_name("a", 1), scratch_name("b", 1));
    assert_ne!(scratch_name("a", 1), scratch_name("a", 2));
}

#[test]
fn a_bumped_workspace_verifies_at_its_tag_and_bumps_again() {
    let bump = plan_bump("v0.2.0", &this_manifest("0.1.0")).expect("the bump applies");
    let bumped = this_manifest(&bump.to.to_string());
    assert_eq!(check_tag("v0.2.0", &bumped).ok(), Some(tag("v0.2.0")));
    assert!(plan_bump("v0.3.0", &bumped).is_ok());
    assert!(plan_bump("v0.2.0", &bumped).is_err());
}

#[test]
fn every_manifest_refusal_reads_as_the_manifest_it_describes() {
    assert_eq!(
        ManifestError::MissingWorkspaceVersion.to_string(),
        "the root manifest declares no [workspace.package] version"
    );
    assert_eq!(
        ManifestError::WorkspaceVersionNotAString.to_string(),
        "[workspace.package] version is not a string"
    );
    assert_eq!(
        ManifestError::MissingWorkspaceDependencies.to_string(),
        "the root manifest declares no [workspace.dependencies]"
    );
    assert_eq!(
        ManifestError::NoInternalDependencies.to_string(),
        "[workspace.dependencies] declares none of ritual's own crates by path"
    );
    let refused = plan_bump("v0.2.0", &facts(at("0.1.0"), None));
    assert!(matches!(
        refused,
        Err(BumpError::Manifest(ManifestError::MissingWorkspaceDependencies))
    ));
}

#[test]
fn a_refused_tag_reads_the_same_from_every_command() {
    let expected = "`0.1.1` is not a release tag: it must start with `v`; a release tag is `v` \
                    then MAJOR.MINOR.PATCH, such as v0.1.1";
    match plan_bump("0.1.1", &this_manifest("0.1.0")) {
        Err(error) => assert_eq!(error.to_string(), expected),
        Ok(_) => panic!("the tag must be refused"),
    }
    match check_tag("0.1.1", &this_manifest("0.1.0")) {
        Err(error) => assert_eq!(error.to_string(), expected),
        Ok(_) => panic!("the tag must be refused"),
    }
    let notes_error = NotesError::Tag(ReleaseTag::parse("0.1.1").expect_err("refused"));
    assert_eq!(notes_error.to_string(), expected);
    let publish_error = PublishError::Verify(VerifyError::Tag(
        ReleaseTag::parse("0.1.1").expect_err("refused"),
    ));
    assert_eq!(publish_error.to_string(), expected);
}

#[test]
fn a_version_is_refused_at_its_first_failing_check() {
    let cases = [
        ("1.2.3-rc.1", VersionFault::PreReleaseOrBuild),
        ("1.2", VersionFault::NotThreeParts),
        ("1..3", VersionFault::EmptyPart),
        ("1.x.3", VersionFault::NotDigits),
        ("1.02.3", VersionFault::LeadingZero),
        ("1.2.18446744073709551616", VersionFault::TooLarge),
        ("01.x.", VersionFault::LeadingZero),
        ("1.x.", VersionFault::NotDigits),
    ];
    for (text, fault) in cases {
        assert_eq!(Version::parse(text).map_err(|error| error.reason()), Err(fault), "{text:?}");
    }
    for text in ["0.0.0", "1.20.300", "18446744073709551615.0.1"] {
        let version = Version::parse(text).expect("a release");
        assert_eq!(version.to_string(), text);
    }
}

#[test]
fn the_plan_partitions_the_members_by_the_answers() {
    let listed = members(&this_workspace()).expect("the metadata has the expected shape");
    let asked = lookups(&listed);
    assert_eq!(asked.len(), RELEASED.len());
    let answers: Vec<bool> = (0..asked.len()).map(|index| index % 3 == 0).collect();
    let plan = plan(listed, &answers);
    let mut all: Vec<&str> = plan
        .to_publish
        .iter()
        .chain(&plan.already_published)
        .chain(&plan.never_published)
        .map(Member::name)
        .collect();
    all.sort_unstable();
    let mut expected: Vec<&str> = RELEASED.to_vec();
    expected.push("xtask");
    expected.sort_unstable();
    assert_eq!(all, expected);
    let published: Vec<&str> = plan.already_published.iter().map(Member::name).collect();
    let expected_published: Vec<&str> = asked
        .iter()
        .zip(&answers)
        .filter(|(_, answer)| **answer)
        .map(|(member, _)| member.name())
        .collect();
    assert_eq!(published, expected_published);
}
