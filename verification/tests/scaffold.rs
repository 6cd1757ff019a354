use rituals::scaffold::add::{
    already_imported_refusal, ensure_the_name_is_not_the_bin_name,
    ensure_workspace_can_take_the_import, leftover_refusal, next_step, package_name_taken_refusal,
    prepare_refusal, regenerate_failure, relative_to, undo_report, workspace_member, ImportFacts,
};
use rituals::scaffold::create::next_steps;
use rituals::scaffold::new::{
    cargo_alias, cli_manifest, dependency_line, framework, management_bundle, project_files,
    workspace_manifest, Source, VERSION,
};
use rituals::scaffold::standalone::{
    already_exists_refusal, create_refusal, new_refusal, removal_report,
};
use rituals::scaffold::toml::escape_toml_string;
use rituals::{Failure, Name};

/// How a default project's `regenerate` is typed.
const REGENERATE: &str = "cargo ritual regenerate";

/// Every TOML basic-string escape class in one input, plus a non-ASCII
/// character: `\b \t \n \f \r \" \\`, a control character with no named
/// escape (U+0001), U+007F, and `é`.
const ESCAPE_CLASS_CORPUS: &str = "\u{8}\t\n\u{c}\r\"\\\u{1}\u{7f}é";

fn valid_name(value: &str) -> Name {
    Name::new(value).expect("a test passes only names it knows are valid")
}

fn ritual_name() -> Name {
    valid_name("ritual")
}

/// Reads a string value back out of a parsed document, the way Cargo would.
fn read_back(rendered: &str, table: &[&str], key: &str, field: &str) -> Option<String> {
    let document: toml_edit::DocumentMut = rendered.parse().ok()?;
    let mut item = document.as_item();
    for name in table {
        item = item.get(name)?;
    }
    let entry = item.get(key)?.as_inline_table()?;
    entry.get(field)?.as_str().map(str::to_string)
}

#[test]
fn already_imported_refusal_refuses_a_dependency_that_is_also_listed() {
    let result =
        already_imported_refusal("demo-ritual", &valid_name("lint"), true, true, REGENERATE);
    assert!(result.is_err(), "expected the import to be refused");
    if let Err(error) = result {
        let message = error.to_string();
        assert!(message.contains("`lint` is already a task of `demo-ritual`"));
        assert!(message.contains("if its command is missing from the command line"));
        assert!(message.contains("run `cargo ritual regenerate`"));
    }
}

#[test]
fn already_imported_refusal_refuses_a_dependency_that_is_not_listed() {
    let result =
        already_imported_refusal("demo-ritual", &valid_name("lint"), true, false, REGENERATE);
    assert!(result.is_err(), "expected the import to be refused");
    if let Err(error) = result {
        assert!(error.to_string().contains("not in"));
    }
}

#[test]
fn already_imported_refusal_refuses_a_name_listed_without_a_dependency() {
    let result =
        already_imported_refusal("demo-ritual", &valid_name("zzz"), false, true, REGENERATE);
    assert!(result.is_err(), "expected the import to be refused");
    if let Err(error) = result {
        let message = error.to_string();
        assert!(message.contains("named in [package.metadata.ritual] tasks"));
        assert!(message.contains("no dependency called `zzz`"));
        assert!(message.contains("run add again"));
        assert!(message.contains("run `cargo ritual regenerate`"));
    }
}

#[test]
fn already_imported_refusal_allows_a_name_that_is_neither() {
    let result =
        already_imported_refusal("demo-ritual", &valid_name("second"), false, false, REGENERATE);
    assert!(result.is_ok(), "expected a genuinely new name to be allowed: {result:?}");
}

#[test]
fn the_bin_name_is_refused_as_reserved_and_asks_for_another_name() {
    let result = ensure_the_name_is_not_the_bin_name(&valid_name("ritual"), "ritual");
    assert!(result.is_err(), "expected the bin's own name to be refused");
    if let Err(error) = result {
        assert_eq!(
            error.to_string(),
            "`ritual` is reserved for this command line's own commands; give this \
             task another name"
        );
    }
}

#[test]
fn a_different_name_passes() {
    let result = ensure_the_name_is_not_the_bin_name(&valid_name("lint"), "ritual");
    assert!(result.is_ok(), "expected a different name to pass: {result:?}");
}

#[test]
fn a_name_that_only_contains_the_bin_name_passes() {
    let result = ensure_the_name_is_not_the_bin_name(&valid_name("ritual-helper"), "ritual");
    assert!(
        result.is_ok(),
        "expected a name that only contains the bin name to pass: {result:?}"
    );
}

#[test]
fn a_bin_name_that_looks_like_a_package_name_is_still_refused() {
    let result = ensure_the_name_is_not_the_bin_name(&valid_name("demo-ritual"), "demo-ritual");
    assert!(
        result.is_err(),
        "expected the bin name to be refused even when it looks like a package name"
    );
}

#[test]
fn the_next_step_names_the_file_to_edit_and_the_command_that_runs_it() {
    let name = Name::new("hello").expect("hello is a valid name");
    assert_eq!(
        next_step(&name, "acme"),
        "next: edit tasks/hello/src/lib.rs, then run cargo acme hello"
    );
}

#[test]
fn a_taken_package_name_names_the_workspace() {
    let failure = package_name_taken_refusal(&valid_name("lint"), "/work/demo");
    assert_eq!(
        failure.to_string(),
        "the workspace at /work/demo already has a package called `lint`; a task's crate is \
         named after the command"
    );
}

#[test]
fn a_workspace_without_rituals_or_members_cannot_take_the_import() {
    let missing_rituals = ensure_workspace_can_take_the_import("/work/Cargo.toml", false, true);
    assert_eq!(
        missing_rituals.map_err(|failure| failure.to_string()),
        Err(format!(
            "add needs `rituals` in [workspace.dependencies] of /work/Cargo.toml, so that a task \
             crate's dependency on it does not change when the crate moves; add it there, as a \
             version such as `rituals = \"{VERSION}\"` or with a path or git source"
        ))
    );
    let missing_members = ensure_workspace_can_take_the_import("/work/Cargo.toml", true, false);
    assert_eq!(
        missing_members.map_err(|failure| failure.to_string()),
        Err("/work/Cargo.toml has no [workspace] members list to append to; add `members = []`"
            .to_string())
    );
    assert!(ensure_workspace_can_take_the_import("/work/Cargo.toml", true, true).is_ok());
}

#[test]
fn a_leftover_task_crate_gets_the_edits_that_import_it() {
    let leftover = leftover_refusal("demo-ritual", &valid_name("lint"), true, "../tasks/lint", REGENERATE);
    assert_eq!(
        leftover.to_string(),
        "refusing to create tasks/lint: it already exists and is a task crate `demo-ritual` does \
         not import; add `lint = { path = \"../tasks/lint\" }` to `demo-ritual`'s [dependencies] \
         and `\"lint\"` to its [package.metadata.ritual] tasks, then run `cargo ritual regenerate`"
    );
    let collision = leftover_refusal("demo-ritual", &valid_name("lint"), false, "../tasks/lint", REGENERATE);
    assert_eq!(collision.to_string(), "refusing to create tasks/lint: it already exists");
}

#[test]
fn an_undo_says_what_it_could_not_put_back() {
    let failure = Failure::new("writing Cargo.toml failed").caused_by("disk full");
    let name = valid_name("lint");
    assert_eq!(
        undo_report(&failure, &name, 0, "").to_string(),
        "writing Cargo.toml failed: disk full; ritual put the project back as it found it"
    );
    assert_eq!(
        undo_report(&failure, &name, 1, "tasks/lint").to_string(),
        "writing Cargo.toml failed: disk full; ritual put the project back except for \
         tasks/lint \u{2014} check it before running `add lint` again"
    );
    assert!(undo_report(&failure, &name, 2, "a and b")
        .to_string()
        .contains("\u{2014} check them before"));
}

#[test]
fn a_failed_regenerate_says_the_import_stands() {
    let failure = Failure::new("regenerating failed");
    assert_eq!(
        regenerate_failure(&failure, &valid_name("lint"), REGENERATE).to_string(),
        "regenerating failed; `lint` is imported \u{2014} run `cargo ritual regenerate` to finish"
    );
    assert_eq!(workspace_member(&valid_name("lint")), "tasks/lint");
}

#[test]
fn the_next_steps_name_both_edits_with_a_dependency_line_ready_to_paste() {
    let name = Name::new("lint").expect("lint is a valid name");
    let lines = next_steps(&name, Some("/work/lint"));
    assert_eq!(
        lines,
        [
            "next: to import it, add this under [dependencies] in a project's \
             ritual/Cargo.toml:",
            "lint = { path = \"/work/lint\" }",
            "then add \"lint\" to [package.metadata.ritual] tasks and run cargo ritual \
             regenerate there (or cargo <name> ritual regenerate if it was made with --cli \
             <name>)",
        ]
    );
}

#[test]
fn a_path_that_is_not_utf8_gets_a_plain_statement_instead_of_a_dependency_line() {
    let name = Name::new("lint").expect("lint is a valid name");
    assert_eq!(
        next_steps(&name, None),
        [
            "next: lint was created, but its path is not valid UTF-8, so no Cargo manifest \
             can name it; move it to a path that is before importing it"
        ]
    );
}

#[test]
fn a_scaffold_that_could_not_finish_says_whether_it_cleaned_up() {
    let failure = Failure::new("writing lint/Cargo.toml failed");
    let name = valid_name("lint");
    assert_eq!(
        removal_report(&failure, &name, true, "create").to_string(),
        "writing lint/Cargo.toml failed; ritual removed lint so a retry starts clean"
    );
    assert_eq!(
        removal_report(&failure, &name, false, "new").to_string(),
        "writing lint/Cargo.toml failed; ritual could not remove lint \u{2014} check it before \
         running `new lint` again"
    );
    assert_eq!(
        already_exists_refusal(&name).to_string(),
        "refusing to create lint: it already exists"
    );
}

#[test]
fn the_standalone_refusals_name_the_enclosing_projects_own_add() {
    let create = create_refusal(&valid_name("demo"));
    assert_eq!(create.attempted_command, "create demo");
    assert!(create.what_to_do_instead.contains("that project's own `add demo`"));
    let new = new_refusal(&valid_name("demo"));
    assert_eq!(new.attempted_command, "new demo");
    assert_eq!(
        new.why_not_here,
        "a project does not belong inside another project's workspace"
    );
}

#[test]
fn workspace_manifest_for_a_path_source_round_trips_through_toml_edit() {
    let rendered = workspace_manifest(&Source::Path(ESCAPE_CLASS_CORPUS.to_string()));
    let expected = std::path::Path::new(ESCAPE_CLASS_CORPUS)
        .join("crates")
        .join("rituals");
    assert_eq!(
        read_back(&rendered, &["workspace", "dependencies"], "rituals", "path"),
        Some(expected.display().to_string()),
        "{rendered}"
    );
}

#[test]
fn workspace_manifest_for_a_git_source_round_trips_through_toml_edit() {
    let url = format!("https://example.invalid/{ESCAPE_CLASS_CORPUS}");
    let rendered = workspace_manifest(&Source::Git(url.clone()));
    assert_eq!(
        read_back(&rendered, &["workspace", "dependencies"], "rituals", "git"),
        Some(url),
        "{rendered}"
    );
}

#[test]
fn workspace_manifest_for_a_path_source() {
    let rendered = workspace_manifest(&Source::Path("/checkout".to_string()));
    assert_eq!(
        rendered,
        "[workspace]\n\
         members = [\n\
         \x20\x20\x20\x20\"ritual\",\n\
         ]\n\
         resolver = \"3\"\n\
         \n\
         [workspace.dependencies]\n\
         rituals = { path = \"/checkout/crates/rituals\" }\n"
    );
    assert!(!rendered.contains('*'));
}

#[test]
fn workspace_manifest_for_a_git_source() {
    let rendered = workspace_manifest(&Source::Git("https://example.invalid/x".to_string()));
    assert!(rendered.contains("rituals = { git = \"https://example.invalid/x\" }\n"));
}

#[test]
fn workspace_manifest_for_the_registry_asks_for_this_version() {
    let rendered = workspace_manifest(&Source::Registry);
    assert!(rendered.ends_with(&format!("rituals = \"{VERSION}\"\n")), "{rendered}");
}

#[test]
fn workspace_manifest_names_ritual_as_its_one_member_regardless_of_cli() {
    let rendered = workspace_manifest(&Source::Path("/checkout".to_string()));
    assert!(rendered.contains("members = [\n    \"ritual\",\n]\n"));
}

#[test]
fn a_named_cli_reaches_the_alias_and_the_bin_name() {
    let cli = valid_name("mytool");
    let source = Source::Path("/checkout".to_string());

    let alias = cargo_alias(&cli, "demo-ritual");
    assert!(alias.contains("# `cargo mytool <task>` runs"));
    assert!(alias.contains("mytool = [\"run\", \"--package\", \"demo-ritual\", \"--\"]\n"));

    let manifest = cli_manifest(&cli, "demo-ritual", &source);
    assert!(manifest.contains("name = \"demo-ritual\"\n"));
    assert!(manifest.contains("[[bin]]\nname = \"mytool\"\n"));
}

#[test]
fn cargo_alias_names_the_cli_package() {
    let rendered = cargo_alias(&ritual_name(), "demo-ritual");
    assert_eq!(
        rendered,
        "# `cargo ritual <task>` runs this project's own composed command line, from\n\
         # anywhere inside the checkout. Nothing has to be installed: the alias builds\n\
         # the crate on demand, the way a project-local task runner already does.\n\
         [alias]\n\
         ritual = [\"run\", \"--package\", \"demo-ritual\", \"--\"]\n"
    );
}

#[test]
fn cli_manifest_declares_the_explicit_bin_target() {
    let rendered = cli_manifest(&ritual_name(), "demo-ritual", &Source::Path("/checkout".to_string()));
    assert_eq!(
        rendered,
        "[package]\n\
         name = \"demo-ritual\"\n\
         version = \"0.1.0\"\n\
         edition = \"2024\"\n\
         \n\
         [[bin]]\n\
         name = \"ritual\"\n\
         path = \"src/main.rs\"\n\
         \n\
         [dependencies]\n\
         rituals.workspace = true\n\
         ritual = { package = \"rituals-core\", path = \"/checkout/crates/rituals-core\" }\n\
         \n\
         [package.metadata.ritual]\n\
         tasks = [\"ritual\"]\n"
    );
    assert!(!rendered.contains('*'));
}

#[test]
fn cli_manifest_for_a_git_source() {
    let rendered = cli_manifest(
        &ritual_name(),
        "demo-ritual",
        &Source::Git("https://example.invalid/x".to_string()),
    );
    assert!(rendered.contains(
        "ritual = { package = \"rituals-core\", git = \"https://example.invalid/x\" }\n"
    ));
    assert!(rendered.contains("tasks = [\"ritual\"]"));
}

#[test]
fn cli_manifest_for_a_path_source_round_trips_through_toml_edit() {
    let rendered = cli_manifest(
        &ritual_name(),
        "demo-ritual",
        &Source::Path(ESCAPE_CLASS_CORPUS.to_string()),
    );
    let key = management_bundle().key;
    assert_eq!(
        read_back(&rendered, &["dependencies"], key, "package"),
        Some("rituals-core".to_string())
    );
    let expected = std::path::Path::new(ESCAPE_CLASS_CORPUS).join("crates/rituals-core");
    assert_eq!(
        read_back(&rendered, &["dependencies"], key, "path"),
        Some(expected.display().to_string())
    );
}

#[test]
fn cli_manifest_for_a_git_source_round_trips_through_toml_edit() {
    let url = format!("https://example.invalid/{ESCAPE_CLASS_CORPUS}");
    let rendered = cli_manifest(&ritual_name(), "demo-ritual", &Source::Git(url.clone()));
    let key = management_bundle().key;
    assert_eq!(
        read_back(&rendered, &["dependencies"], key, "package"),
        Some("rituals-core".to_string())
    );
    assert_eq!(read_back(&rendered, &["dependencies"], key, "git"), Some(url));
    assert_eq!(read_back(&rendered, &["dependencies"], key, "path"), None);
}

#[test]
fn a_registry_dependency_line_carries_the_package_clause_only_when_renamed() {
    assert_eq!(
        dependency_line(&framework(), &Source::Registry),
        format!("rituals = \"{VERSION}\"\n")
    );
    assert_eq!(
        dependency_line(&management_bundle(), &Source::Registry),
        format!("ritual = {{ package = \"rituals-core\", version = \"{VERSION}\" }}\n")
    );
}

#[test]
fn a_checkout_root_ending_in_a_slash_gets_no_second_one() {
    assert_eq!(
        dependency_line(&framework(), &Source::Path("/checkout/".to_string())),
        "rituals = { path = \"/checkout/crates/rituals\" }\n"
    );
}

#[test]
fn every_escape_class_is_written_as_toml_expects() {
    assert_eq!(
        escape_toml_string(ESCAPE_CLASS_CORPUS),
        "\\b\\t\\n\\f\\r\\\"\\\\\\u0001\\u007Fé"
    );
    assert_eq!(escape_toml_string("plain/path"), "plain/path");
}

#[test]
fn escaped_text_reads_back_as_itself_in_a_toml_document() {
    for text in [ESCAPE_CLASS_CORPUS, "", "a \"quoted\" \\path\\", "\u{0}\u{1f}\u{7f}"] {
        let document = format!("value = \"{}\"\n", escape_toml_string(text));
        let parsed: toml_edit::DocumentMut = document.parse().expect("the line parses");
        assert_eq!(parsed["value"].as_str(), Some(text), "{document}");
    }
}

#[test]
fn a_new_project_writes_its_five_files_in_order() {
    let files = project_files(
        &valid_name("demo"),
        &valid_name("acme"),
        &Source::Git("https://example.invalid/x".to_string()),
        "fn main() {}\n",
    );
    let paths: Vec<&str> = files.iter().map(|file| file.path.as_str()).collect();
    assert_eq!(
        paths,
        [
            "Cargo.toml",
            ".gitignore",
            ".cargo/config.toml",
            "ritual/Cargo.toml",
            "ritual/src/main.rs"
        ]
    );
    assert_eq!(files[1].content, "/target\n");
    assert_eq!(files[2].reported, "demo/.cargo/config.toml");
    assert!(files[2].content.contains("acme = [\"run\", \"--package\", \"demo-ritual\", \"--\"]"));
    assert!(files[3].content.contains("name = \"demo-ritual\"\n"));
    assert_eq!(files[4].content, "fn main() {}\n");
    assert_eq!(
        rituals::scaffold::new::next_step(&valid_name("demo"), &valid_name("acme")),
        "next: cd demo && cargo acme --help"
    );
}

#[test]
fn a_path_under_the_workspace_is_reported_relative_to_it() {
    assert_eq!(relative_to("/work/demo/ritual/Cargo.toml", "/work/demo"), "ritual/Cargo.toml");
    assert_eq!(relative_to("/elsewhere/Cargo.toml", "/work/demo"), "/elsewhere/Cargo.toml");
    assert_eq!(relative_to("/work/demo-other/Cargo.toml", "/work/demo"), "/work/demo-other/Cargo.toml");
}

#[test]
fn every_refusal_of_an_imported_name_names_the_name_the_package_and_the_remedy() {
    let name = valid_name("lint");
    for (dependency, listed) in [(true, true), (true, false), (false, true)] {
        let refused = already_imported_refusal("demo-ritual", &name, dependency, listed, "acme regenerate");
        let message = refused.expect_err("an import already spoken for is refused").to_string();
        assert!(message.contains("`lint`"), "{message}");
        assert!(message.contains("`demo-ritual`"), "{message}");
        assert!(message.contains("`acme regenerate`"), "{message}");
    }
    assert!(already_imported_refusal("demo-ritual", &name, false, false, "acme regenerate").is_ok());
}

#[test]
fn a_dependency_line_is_one_line_for_every_source() {
    let custom = rituals::scaffold::new::ImportedCrate {
        key: "tool",
        package: Some("acme-tool"),
        directory: "",
    };
    let lines = [
        dependency_line(&custom, &Source::Registry),
        dependency_line(&custom, &Source::Path("/checkout".to_string())),
        dependency_line(&custom, &Source::Git("https://example.invalid/x".to_string())),
    ];
    for line in &lines {
        assert!(line.ends_with('\n') && line.matches('\n').count() == 1, "{line:?}");
        assert!(line.starts_with("tool = { package = \"acme-tool\", "), "{line:?}");
    }
    assert_eq!(lines[1], "tool = { package = \"acme-tool\", path = \"/checkout/\" }\n");
}

/// Facts under which nothing refuses `lint`.
fn passing_facts(name: &str) -> ImportFacts {
    ImportFacts {
        name: name.to_string(),
        binary_name: "ritual".to_string(),
        command_free: Ok(()),
        project: Ok(()),
        package: "demo-ritual".to_string(),
        regenerate: REGENERATE.to_string(),
        already_a_dependency: false,
        already_listed: false,
        existing_directory: None,
        dependency_path: "../tasks/lint".to_string(),
        member_taken: false,
        workspace_root: "/work/demo".to_string(),
        task_list: Ok(()),
        workspace_manifest: Ok(()),
        workspace_manifest_path: "/work/Cargo.toml".to_string(),
        declares_rituals: true,
        has_members_list: true,
        cli_manifest: Ok(()),
    }
}

#[test]
fn an_import_that_nothing_refuses_gets_its_validated_name() {
    let outcome = prepare_refusal(passing_facts("lint"));
    assert_eq!(outcome.map(|name| name.as_str().to_string()).map_err(|f| f.to_string()), Ok("lint".to_string()));
}

#[test]
fn the_spelling_of_the_name_is_refused_before_anything_else() {
    let mut facts = passing_facts("Lint");
    facts.binary_name = "Lint".to_string();
    facts.member_taken = true;
    facts.declares_rituals = false;
    let refusal = prepare_refusal(facts).err().expect("an invalid name is refused");
    assert_eq!(refusal.to_string(), Name::new("Lint").unwrap_err().to_string());
}

#[test]
fn the_bin_name_is_refused_before_the_top_level_and_an_existing_import() {
    let mut facts = passing_facts("ritual");
    facts.command_free = Err(Failure::new("`ritual` is already a command"));
    facts.already_a_dependency = true;
    let refusal = prepare_refusal(facts).err().expect("the bin name is refused");
    assert_eq!(
        refusal.to_string(),
        "`ritual` is reserved for this command line's own commands; give this \
         task another name"
    );
}

#[test]
fn a_taken_top_level_is_refused_before_an_existing_import() {
    let mut facts = passing_facts("lint");
    facts.command_free = Err(Failure::new("`lint` is already a command"));
    facts.already_a_dependency = true;
    facts.already_listed = true;
    let refusal = prepare_refusal(facts).err().expect("a taken top level is refused");
    assert_eq!(refusal.to_string(), "`lint` is already a command");
}

#[test]
fn an_existing_import_is_refused_before_a_leftover_directory() {
    let mut facts = passing_facts("lint");
    facts.already_a_dependency = true;
    facts.already_listed = true;
    facts.existing_directory = Some(true);
    let expected = already_imported_refusal("demo-ritual", &valid_name("lint"), true, true, REGENERATE)
        .err()
        .expect("a listed dependency is already imported");
    let refusal = prepare_refusal(facts).err().expect("an existing import is refused");
    assert_eq!(refusal.to_string(), expected.to_string());
}

#[test]
fn a_leftover_directory_is_refused_before_a_taken_member_and_the_manifests() {
    let mut facts = passing_facts("lint");
    facts.existing_directory = Some(false);
    facts.member_taken = true;
    facts.has_members_list = false;
    let refusal = prepare_refusal(facts).err().expect("a leftover directory is refused");
    assert_eq!(refusal.to_string(), "refusing to create tasks/lint: it already exists");
}

#[test]
fn the_task_list_is_refused_before_the_workspace_manifest() {
    let mut facts = passing_facts("lint");
    facts.task_list = Err(Failure::new("the task list does not resolve").caused_by("no such task"));
    facts.declares_rituals = false;
    let refusal = prepare_refusal(facts).err().expect("an unresolved task list is refused");
    assert_eq!(refusal.to_string(), "the task list does not resolve: no such task");
}

#[test]
fn the_workspace_manifest_is_refused_before_the_command_lines_manifest() {
    let mut facts = passing_facts("lint");
    facts.has_members_list = false;
    facts.cli_manifest = Err(Failure::new("cannot read the command line's manifest"));
    let refusal = prepare_refusal(facts).err().expect("a manifest without members is refused");
    assert_eq!(
        refusal.to_string(),
        "/work/Cargo.toml has no [workspace] members list to append to; add `members = []`"
    );
    let mut last = passing_facts("lint");
    last.cli_manifest = Err(Failure::new("cannot read the command line's manifest"));
    let refusal = prepare_refusal(last).err().expect("an unreadable manifest is refused");
    assert_eq!(refusal.to_string(), "cannot read the command line's manifest");
}
