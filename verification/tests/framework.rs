use std::path::Path;

use rituals::dispatch::{assemble, flatten, mount_refusal, refusal_line, resolve};
use rituals::name::has_valid_spelling;
use rituals::task::{bundle_fault, declaration_steps, BundleFault, Declaration};
use rituals::{CommandLine, Failure, Identity, Name, Task};

fn assert_send<T: Send>() {}
fn assert_sync<T: Sync>() {}
fn assert_copy<T: Copy>() {}

/// A leaf whose handler is a plain number, so a test can tell which leaf a
/// walk reached.
fn task() -> Task<u32> {
    Task::leaf("a test task", 0)
}

fn group(about: &'static str, children: Vec<(&'static str, Task<u32>)>) -> Task<u32> {
    assert_eq!(bundle_fault(&children), None, "the test builds a valid bundle");
    Task::group(about, children)
}

fn names_of<H>(mounts: &[(&'static str, Task<H>)]) -> Vec<&'static str> {
    mounts.iter().map(|(name, _)| *name).collect()
}

#[test]
fn command_line_is_send_and_sync() {
    assert_send::<CommandLine>();
    assert_sync::<CommandLine>();
}

#[test]
fn identity_and_flattened_commands_read_back_what_from_dispatch_was_given() {
    let identity = Identity::from_macro_expansion("a-package", "a-binary", "1.2.3");
    let command_line = CommandLine::from_dispatch(identity, &["add", "build"]);

    assert_eq!(command_line.identity(), identity);
    assert_eq!(command_line.flattened_commands(), ["add", "build"]);
}

#[test]
fn flattened_commands_is_empty_when_nothing_was_given() {
    let identity = Identity::from_macro_expansion("a-package", "a-binary", "1.2.3");
    let command_line = CommandLine::from_dispatch(identity, &[]);

    assert!(command_line.flattened_commands().is_empty());
}

#[test]
fn identity_is_send_and_sync_and_copy() {
    assert_send::<Identity>();
    assert_sync::<Identity>();
    assert_copy::<Identity>();
}

#[test]
fn three_distinct_values_reach_their_own_accessors() {
    let identity = Identity::from_macro_expansion("a-package", "a-binary", "1.2.3");
    assert_eq!(identity.package_name(), "a-package");
    assert_eq!(identity.binary_name(), "a-binary");
    assert_eq!(identity.version(), "1.2.3");
}

#[test]
fn every_accepted_name_joins_as_exactly_one_path_component() {
    let corpus = [
        "l", "l1", "a-b-c", "greet", "lint", "new", "create", "add-on", "z9",
    ];

    for candidate in corpus {
        let outcome = Name::new(candidate);
        assert!(outcome.is_ok(), "expected {candidate:?} to be accepted, got {outcome:?}");

        if let Ok(name) = outcome {
            let root = Path::new("/root/tasks");
            let joined = root.join(name.as_str());
            assert!(joined.starts_with(root), "joining {candidate:?} escaped the root: {joined:?}");
            assert_eq!(
                joined.components().count(),
                root.components().count() + 1,
                "joining {candidate:?} did not add exactly one path component: {joined:?}"
            );
        }
    }
}

#[test]
fn curated_invalid_names_are_all_refused() {
    let corpus = [
        "..", "../x", "a/b", "a\\b", "/abs", "C:\\x", "", "New", "1lint", "lint-",
    ];

    for candidate in corpus {
        assert!(Name::new(candidate).is_err(), "expected {candidate:?} to be refused");
    }
}

#[test]
fn reserved_identifiers_are_refused_as_not_an_identifier() {
    for reserved in ["crate", "self", "super"] {
        assert!(Name::new(reserved).is_err(), "expected {reserved:?} to be refused");
        if let Err(error) = Name::new(reserved) {
            let message = error.to_string();
            assert!(
                message.contains("cannot be written as a Rust identifier"),
                "expected {reserved:?} to be refused for not being a Rust identifier, got: {message}"
            );
        }
    }
}

#[test]
fn badly_spelled_names_are_refused_for_spelling() {
    for bad in ["..", "New", "1lint", "lint-", ""] {
        assert!(Name::new(bad).is_err(), "expected {bad:?} to be refused");
        if let Err(error) = Name::new(bad) {
            let message = error.to_string();
            assert!(
                message.contains("starts with a lowercase letter"),
                "expected {bad:?} to be refused for spelling, got: {message}"
            );
        }
    }
}

#[test]
fn every_ascii_byte_value_is_judged_correctly_in_first_and_later_position() {
    for byte in 0u8..=127 {
        let character = char::from(byte);

        let expected_first = character.is_ascii_lowercase();
        assert_eq!(
            has_valid_spelling(&character.to_string()),
            expected_first,
            "byte {byte:#04x} in first position disagreed with the rule"
        );

        let two_characters = format!("a{character}");
        let expected_later =
            (character.is_ascii_lowercase() || character.is_ascii_digit() || character == '-')
                && !two_characters.ends_with('-');
        assert_eq!(
            has_valid_spelling(&two_characters),
            expected_later,
            "byte {byte:#04x} in a later position disagreed with the rule"
        );
    }
}

#[test]
fn multi_byte_characters_are_refused_in_first_and_later_position() {
    for character in ['é', 'ñ', '中', 'Ω', '🦀'] {
        assert!(
            !has_valid_spelling(&character.to_string()),
            "{character:?} must be refused in first position"
        );

        let two_characters = format!("a{character}");
        assert!(
            !has_valid_spelling(&two_characters),
            "{character:?} must be refused in a later position"
        );
    }
}

#[test]
fn a_valid_name_reads_back_as_itself() {
    let name = Name::new("lint").expect("lint is a valid name");
    assert_eq!(name.as_str(), "lint");
    assert_eq!(name.clone(), name);
}

#[test]
fn display_is_the_message() {
    let failure = Failure::new("tasks/lint already exists");
    assert_eq!(failure.to_string(), "tasks/lint already exists");
}

#[test]
fn source_is_absent_until_caused_by_is_called() {
    let failure = Failure::new("something went wrong");
    assert!(failure.source().is_none());
}

#[test]
fn source_is_the_cause_after_caused_by() {
    let failure = Failure::new("writing failed").caused_by("the underlying cause");
    let source = failure.source();
    assert!(source.is_some(), "a cause was attached");
    if let Some(source) = source {
        assert_eq!(source, "the underlying cause");
    }
}

#[test]
fn display_carries_the_cause_when_one_is_attached_and_omits_it_otherwise() {
    let caused = Failure::new("writing failed").caused_by("the underlying cause");
    assert_eq!(caused.to_string(), "writing failed: the underlying cause");

    let plain = Failure::new("writing failed");
    assert_eq!(plain.to_string(), "writing failed");
}

#[test]
fn from_invalid_name_keeps_the_message_verbatim() {
    assert!(Name::new("../evil").is_err(), "`../evil` must be refused");

    if let Err(invalid_name) = Name::new("../evil") {
        let expected = invalid_name.to_string();
        let failure = Failure::from(invalid_name);
        assert_eq!(failure.to_string(), expected);
    }
}

#[test]
fn imports_are_assembled_in_order() {
    let imported = vec![("regenerate", task()), ("greet", task())];
    let (assembled, refusals) = assemble("demo", imported);
    assert_eq!(names_of(&assembled), ["regenerate", "greet"]);
    assert!(refusals.is_empty());
}

#[test]
fn an_import_colliding_with_an_earlier_import_is_dropped() {
    let imported = vec![("greet", task()), ("greet", task())];
    let (assembled, refusals) = assemble("demo", imported);
    assert_eq!(names_of(&assembled), ["greet"]);
    assert_eq!(refusals.len(), 1);
}

#[test]
fn an_import_with_an_invalid_name_is_dropped() {
    let imported = vec![("regenerate", task()), ("../evil", task())];
    let (assembled, refusals) = assemble("demo", imported);
    assert_eq!(names_of(&assembled), ["regenerate"]);
    assert_eq!(refusals.len(), 1);
    assert!(refusals[0].starts_with("demo: "), "{}", refusals[0]);
}

#[test]
fn a_task_named_add_mounts_like_any_other_import() {
    let imported = vec![("add", task())];
    let (assembled, _) = assemble("demo", imported);
    assert_eq!(names_of(&assembled), ["add"]);
}

#[test]
fn a_mount_refusal_leads_with_the_bin_name() {
    let line = refusal_line("ritual", &mount_refusal("new"));
    assert!(line.starts_with("ritual: "));
    assert!(line.contains("`new`"));
    assert!(line.contains("collides"));
}

#[test]
fn refusal_line_carries_the_bin_prefix_exactly_once() {
    let failure = Failure::new("tasks/lint already exists");
    let line = refusal_line("myapp-ritual", &failure.to_string());
    assert_eq!(line, "myapp-ritual: tasks/lint already exists");
    assert_eq!(line.matches("myapp-ritual:").count(), 1);
}

#[test]
fn flatten_with_no_bin_name_mount_is_the_identity() {
    let mounts = vec![("add", task()), ("regenerate", task())];
    let result = flatten("acme", mounts);
    assert!(result.is_ok(), "expected no refusal");
    if let Ok(top_level) = result {
        assert_eq!(names_of(&top_level.mounts), ["add", "regenerate"]);
        assert!(top_level.flattened.is_empty(), "expected nothing to have been promoted");
    }
}

#[test]
fn flatten_splices_in_place_and_preserves_surrounding_order() {
    let bundle = group("acme's own commands", vec![("add", task()), ("build", task())]);
    let mounts = vec![("lint", task()), ("acme", bundle), ("format", task())];
    let result = flatten("acme", mounts);
    assert!(result.is_ok(), "expected no refusal");
    if let Ok(top_level) = result {
        assert_eq!(names_of(&top_level.mounts), ["lint", "add", "build", "format"]);
    }
}

#[test]
fn flatten_reports_the_names_it_promoted() {
    let bundle = group("acme's own commands", vec![("add", task()), ("build", task())]);
    let mounts = vec![("acme", bundle)];
    let result = flatten("acme", mounts);
    assert!(result.is_ok(), "expected no refusal");
    if let Ok(top_level) = result {
        assert_eq!(top_level.flattened, ["add", "build"]);
    }
}

#[test]
fn a_leaf_under_the_bin_name_is_refused() {
    let mounts = vec![("acme", task())];
    let result = flatten("acme", mounts);
    assert!(result.is_err(), "expected a refusal");
    if let Err(failure) = result {
        let message = failure.to_string();
        assert!(message.contains("`acme`"), "message was: {message}");
        assert!(message.contains("Task::group"), "message was: {message}");
    }
}

#[test]
fn a_child_colliding_with_a_later_mount_key_is_refused() {
    let bundle = group("acme's own commands", vec![("lint", task())]);
    let mounts = vec![("acme", bundle), ("lint", task())];
    let result = flatten("acme", mounts);
    assert!(result.is_err(), "expected a refusal");
    if let Err(failure) = result {
        let message = failure.to_string();
        assert!(message.contains("`lint`"), "message was: {message}");
        assert!(message.contains("`acme`"), "message was: {message}");
        assert!(message.contains("another name"), "message was: {message}");
    }
}

#[test]
fn a_child_colliding_with_an_earlier_mount_key_is_refused() {
    let bundle = group("acme's own commands", vec![("lint", task())]);
    let mounts = vec![("lint", task()), ("acme", bundle)];
    let result = flatten("acme", mounts);
    assert!(result.is_err(), "expected a refusal");
    if let Err(failure) = result {
        let message = failure.to_string();
        assert!(message.contains("`lint`"), "message was: {message}");
    }
}

#[test]
fn a_child_named_the_same_as_the_bin_is_mounted_once_not_flattened_again() {
    let bundle = group("acme's own commands", vec![("acme", task())]);
    let mounts = vec![("acme", bundle)];
    let result = flatten("acme", mounts);
    assert!(result.is_ok(), "expected no refusal");
    if let Ok(top_level) = result {
        assert_eq!(names_of(&top_level.mounts), ["acme"]);
    }
}

#[test]
fn a_nested_bundle_under_a_key_equal_to_the_bin_name_is_untouched() {
    let inner = group("nested, keyed the same as the bin", vec![("lint", task())]);
    let outer = group("an ordinary bundle", vec![("acme", inner)]);
    let mounts = vec![("outer", outer)];
    let result = flatten("acme", mounts);
    assert!(result.is_ok(), "expected no refusal");
    if let Ok(top_level) = result {
        assert_eq!(names_of(&top_level.mounts), ["outer"]);
    }
}

#[test]
fn a_mount_key_named_help_is_refused() {
    let mounts = vec![("help", task())];
    let result = flatten("acme", mounts);
    assert!(result.is_err(), "expected a refusal");
    if let Err(failure) = result {
        let message = failure.to_string();
        assert!(message.contains("`help`"), "message was: {message}");
        assert!(message.contains("clap"), "message was: {message}");
    }
}

#[test]
fn a_help_mount_alongside_a_flattened_bundle_is_refused() {
    let bundle = group("acme's own commands", vec![("lint", task())]);
    let mounts = vec![("acme", bundle), ("help", task())];
    let result = flatten("acme", mounts);
    assert!(result.is_err(), "expected a refusal");
    if let Err(failure) = result {
        let message = failure.to_string();
        assert!(message.contains("`help`"), "message was: {message}");
        assert!(message.contains("clap"), "message was: {message}");
    }
}

#[test]
fn the_descend_loop_reaches_a_leaf_two_levels_down() {
    let leaf = Task::leaf("the leaf two levels down", 2);
    let inner = group("inner bundle", vec![("leaf", leaf)]);
    let outer = group("outer bundle", vec![("inner", inner)]);
    let mounts = vec![("first", Task::leaf("a sibling", 1)), ("outer", outer)];

    let reached = resolve(&mounts, &["outer", "inner", "leaf"]);
    assert!(reached.is_some(), "the path names a leaf");
    if let Some(task) = reached {
        assert_eq!(task.handler(), Some(&2));
        assert_eq!(task.about(), "the leaf two levels down");
    }
}

#[test]
fn a_walk_that_names_nothing_or_stops_at_a_bundle_reaches_no_task() {
    let inner = group("inner bundle", vec![("leaf", Task::leaf("a leaf", 2))]);
    let mounts = vec![("first", Task::leaf("a sibling", 1)), ("inner", inner)];

    assert!(resolve(&mounts, &["missing"]).is_none());
    assert!(resolve(&mounts, &["inner"]).is_none());
    assert!(resolve(&mounts, &[]).is_none());
    assert_eq!(resolve(&mounts, &["first"]).and_then(|task| task.handler()), Some(&1));
}

#[test]
fn group_builds_a_well_formed_bundle_without_panicking() {
    let bundle = group("a bundle", vec![("first", task()), ("second", task())]);
    let children = bundle.children();
    assert!(children.is_some(), "a group is a bundle");
    if let Some(children) = children {
        assert_eq!(names_of(children), ["first", "second"]);
    }
    assert!(bundle.handler().is_none());
    assert_eq!(bundle.about(), "a bundle");
}

#[test]
fn each_bundle_fault_is_named() {
    let none: Vec<(&'static str, Task<u32>)> = Vec::new();
    assert_eq!(bundle_fault(&none), Some(BundleFault::NoChildren));
    assert_eq!(
        bundle_fault(&[("lint", task()), ("lint", task())]),
        Some(BundleFault::RepeatedName("lint"))
    );
    assert_eq!(bundle_fault(&[("help", task())]), Some(BundleFault::ChildNamedHelp));
}

#[test]
fn into_children_gives_a_leaf_back_unconsumed() {
    let leaf = Task::leaf("a leaf", 7);
    let given_back = leaf.into_children();
    assert!(given_back.is_err());
    if let Err(leaf) = given_back {
        assert_eq!(leaf.handler(), Some(&7));
    }
}

#[test]
fn task_is_send_and_sync() {
    assert_send::<Task<u32>>();
    assert_sync::<Task<u32>>();
}

/// The steps as text: `+name` opens a bundle, `name` is a leaf, `-` closes.
fn steps_of(task: &Task<u32>, name: &'static str) -> Vec<String> {
    declaration_steps(task, name)
        .into_iter()
        .map(|step| match step {
            Declaration::Open { name, about } => format!("+{name} ({about})"),
            Declaration::Leaf { name, about, handler } => format!("{name} ({about}) #{handler}"),
            Declaration::Close => "-".to_string(),
        })
        .collect()
}

#[test]
fn declare_tree_on_a_leaf_is_unchanged_from_a_plain_command() {
    let task = Task::leaf("say hello", 3);
    assert_eq!(steps_of(&task, "greet"), ["greet (say hello) #3"]);
}

#[test]
fn declare_tree_on_a_group_lists_its_children_in_order_with_their_own_about() {
    let bundle = group(
        "a bundle",
        vec![
            ("first", Task::leaf("the first child", 1)),
            ("second", Task::leaf("the second child", 2)),
        ],
    );
    assert_eq!(
        steps_of(&bundle, "bundle"),
        [
            "+bundle (a bundle)",
            "first (the first child) #1",
            "second (the second child) #2",
            "-"
        ]
    );
}

#[test]
fn declare_tree_on_a_two_level_group_puts_the_grandchild_under_the_child() {
    let inner = group("inner bundle", vec![("leaf", Task::leaf("a leaf", 5))]);
    let outer = group("outer bundle", vec![("inner", inner), ("after", Task::leaf("later", 6))]);
    assert_eq!(
        steps_of(&outer, "outer"),
        [
            "+outer (outer bundle)",
            "+inner (inner bundle)",
            "leaf (a leaf) #5",
            "-",
            "after (later) #6",
            "-"
        ]
    );
}

#[test]
fn a_name_renders_as_the_text_it_validated() {
    let name = Name::new("greet").expect("greet is a valid name");
    assert_eq!(name.as_str(), "greet");
    assert_eq!(name.to_string(), "greet");
}

#[test]
fn flatten_follows_its_rule_on_each_kind_of_top_level() {
    // No mount under the bin name: unchanged unless a key is `help`.
    let result = flatten("acme", vec![("a", task()), ("b", task())]);
    assert!(matches!(&result, Ok(top) if names_of(&top.mounts) == ["a", "b"] && top.flattened.is_empty()));
    assert!(flatten("acme", vec![("a", task()), ("help", task())]).is_err());
    // A bundle under the bin name: spliced in place, its children promoted in order.
    let bundle = group("own", vec![("x", task()), ("y", task())]);
    let result = flatten("acme", vec![("a", task()), ("acme", bundle), ("b", task())]);
    assert!(matches!(&result, Ok(top) if names_of(&top.mounts) == ["a", "x", "y", "b"] && top.flattened == ["x", "y"]));
    // A leaf there, a child colliding with another mount, or a `help` child: refused.
    assert!(flatten("acme", vec![("acme", task())]).is_err());
    let colliding = group("own", vec![("a", task())]);
    assert!(flatten("acme", vec![("a", task()), ("acme", colliding)]).is_err());
}
