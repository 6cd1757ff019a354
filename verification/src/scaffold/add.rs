//! What `add` decides and says: which names it refuses and why, the line it
//! ends on, and what it reports when it has to put a project back.

use vstd::prelude::*;
use vstd::string::*;

use crate::name::{has_name_spelling, invalid_name_message, is_usable_name, Name};
use crate::outcome::{failure_text, Failure, Outcome};
use crate::scaffold::new::VERSION;
use crate::text::{owned, same_text};

verus! {

/// The refusal for a name equal to the bin name.
pub open spec fn bin_name_refusal_text(binary_name: Seq<char>) -> Seq<char> {
    "`"@ + binary_name + "` is reserved for this command line's own commands; give this "@
        + "task another name"@
}

/// The refusal for a name equal to the bin's own name: whatever is mounted
/// there becomes the command line's own top level and has to be a bundle,
/// and `add` only scaffolds plain tasks.
pub fn bin_name_refusal(binary_name: &str) -> (failure: Failure)
    ensures
        failure@ == (bin_name_refusal_text(binary_name@), None::<Seq<char>>),
{
    let mut message = owned("`");
    message.append(binary_name);
    message.append("` is reserved for this command line's own commands; give this ");
    message.append("task another name");
    Failure::from_message(message)
}

/// Refuses when `name` is exactly the bin name the running command line was
/// built as: a plain task there would make the command line refuse to start
/// at its next build. A name that only contains the bin name passes.
pub fn ensure_the_name_is_not_the_bin_name(name: &Name, binary_name: &str) -> (outcome: Outcome)
    ensures
        outcome is Ok <==> name@ != binary_name@,
        outcome matches Err(failure) ==> failure@ == (
            bin_name_refusal_text(binary_name@),
            None::<Seq<char>>,
        ),
{
    if same_text(name.as_str(), binary_name) {
        return Err(bin_name_refusal(binary_name));
    }
    Ok(())
}

/// The refusal for each way `name` can already be spoken for in the
/// command line's own manifest, or `None` when it is not.
pub open spec fn already_imported_text(
    package: Seq<char>,
    name: Seq<char>,
    already_a_dependency: bool,
    already_listed: bool,
    regenerate: Seq<char>,
) -> Option<Seq<char>> {
    if already_a_dependency && already_listed {
        Some(
            "`"@ + name + "` is already a task of `"@ + package
                + "`; if its command is missing from the command line, run `"@ + regenerate
                + "`"@,
        )
    } else if already_a_dependency {
        Some(
            "`"@ + package + "` already has a dependency called `"@ + name
                + "` that is not in [package.metadata.ritual] tasks; add `\""@ + name
                + "\"` to that list and run `"@ + regenerate + "`"@,
        )
    } else if already_listed {
        Some(
            "`"@ + name + "` is named in [package.metadata.ritual] tasks but `"@ + package
                + "` has no dependency called `"@ + name
                + "`; drop it from the list and run add again, or add the dependency by hand and run `"@
                + regenerate + "`"@,
        )
    } else {
        None
    }
}

/// Refuses when `name` is already spoken for in the command line's own
/// manifest: a dependency, listed or not, or listed with no matching
/// dependency. The two flags decide four different outcomes; only a name
/// that is neither passes. `regenerate` is how a person types this command
/// line's `regenerate`, so every remedy can be copied as written.
pub fn already_imported_refusal(
    package: &str,
    name: &Name,
    already_a_dependency: bool,
    already_listed: bool,
    regenerate: &str,
) -> (outcome: Outcome)
    ensures
        match already_imported_text(
            package@,
            name@,
            already_a_dependency,
            already_listed,
            regenerate@,
        ) {
            None => outcome is Ok,
            Some(text) => outcome matches Err(failure) && failure@ == (text, None::<Seq<char>>),
        },
{
    let name = name.as_str();
    if already_a_dependency && already_listed {
        let mut message = owned("`");
        message.append(name);
        message.append("` is already a task of `");
        message.append(package);
        message.append("`; if its command is missing from the command line, run `");
        message.append(regenerate);
        message.append("`");
        Err(Failure::from_message(message))
    } else if already_a_dependency {
        let mut message = owned("`");
        message.append(package);
        message.append("` already has a dependency called `");
        message.append(name);
        message.append("` that is not in [package.metadata.ritual] tasks; add `\"");
        message.append(name);
        message.append("\"` to that list and run `");
        message.append(regenerate);
        message.append("`");
        Err(Failure::from_message(message))
    } else if already_listed {
        let mut message = owned("`");
        message.append(name);
        message.append("` is named in [package.metadata.ritual] tasks but `");
        message.append(package);
        message.append("` has no dependency called `");
        message.append(name);
        message.append(
            "`; drop it from the list and run add again, or add the dependency by hand and run `",
        );
        message.append(regenerate);
        message.append("`");
        Err(Failure::from_message(message))
    } else {
        Ok(())
    }
}

/// The refusal for a workspace that already has a package called `name`: a
/// task's crate is named after the command, so this would collide with it.
pub fn package_name_taken_refusal(name: &Name, workspace_root: &str) -> (failure: Failure)
    ensures
        failure@ == (
            "the workspace at "@ + workspace_root@ + " already has a package called `"@ + name@
                + "`; a task's crate is named after the command"@,
            None::<Seq<char>>,
        ),
{
    let mut message = owned("the workspace at ");
    message.append(workspace_root);
    message.append(" already has a package called `");
    message.append(name.as_str());
    message.append("`; a task's crate is named after the command");
    Failure::from_message(message)
}

/// Refuses when the workspace manifest at `path` cannot take the import: no
/// inheritable `rituals` source in `[workspace.dependencies]`, or no
/// `[workspace] members` list to append to, checked in that order.
pub fn ensure_workspace_can_take_the_import(
    path: &str,
    declares_rituals: bool,
    has_members_list: bool,
) -> (outcome: Outcome)
    ensures
        outcome is Ok <==> declares_rituals && has_members_list,
        !declares_rituals ==> (outcome matches Err(failure) && failure@ == (
            "add needs `rituals` in [workspace.dependencies] of "@ + path@
                + ", so that a task crate's dependency on it does not change when the crate moves; add it there, as a version such as `rituals = \""@
                + VERSION@ + "\"` or with a path or git source"@,
            None::<Seq<char>>,
        )),
        declares_rituals && !has_members_list ==> (outcome matches Err(failure) && failure@ == (
            path@ + " has no [workspace] members list to append to; add `members = []`"@,
            None::<Seq<char>>,
        )),
{
    if !declares_rituals {
        let mut message = owned("add needs `rituals` in [workspace.dependencies] of ");
        message.append(path);
        message.append(
            ", so that a task crate's dependency on it does not change when the crate moves; add it there, as a version such as `rituals = \"",
        );
        message.append(VERSION);
        message.append("\"` or with a path or git source");
        return Err(Failure::from_message(message));
    }
    if !has_members_list {
        let mut message = owned(path);
        message.append(" has no [workspace] members list to append to; add `members = []`");
        return Err(Failure::from_message(message));
    }
    Ok(())
}

/// The refusal for a `tasks/<name>` directory that already exists: a task
/// crate this project does not import (a leftover from a run that did not
/// finish), with the edits that import it, or an unrelated collision.
pub fn leftover_refusal(
    package: &str,
    name: &Name,
    is_a_task_crate: bool,
    dependency_path: &str,
    regenerate: &str,
) -> (failure: Failure)
    ensures
        failure@ == (
            if is_a_task_crate {
                "refusing to create tasks/"@ + name@ + ": it already exists and is a task crate `"@
                    + package@ + "` does not import; add `"@ + name@ + " = { path = \""@
                    + dependency_path@ + "\" }` to `"@ + package@ + "`'s [dependencies] and `\""@
                    + name@ + "\"` to its [package.metadata.ritual] tasks, then run `"@
                    + regenerate@ + "`"@
            } else {
                "refusing to create tasks/"@ + name@ + ": it already exists"@
            },
            None::<Seq<char>>,
        ),
{
    let mut message = owned("refusing to create tasks/");
    message.append(name.as_str());
    if !is_a_task_crate {
        message.append(": it already exists");
        return Failure::from_message(message);
    }
    message.append(": it already exists and is a task crate `");
    message.append(package);
    message.append("` does not import; add `");
    message.append(name.as_str());
    message.append(" = { path = \"");
    message.append(dependency_path);
    message.append("\" }` to `");
    message.append(package);
    message.append("`'s [dependencies] and `\"");
    message.append(name.as_str());
    message.append("\"` to its [package.metadata.ritual] tasks, then run `");
    message.append(regenerate);
    message.append("`");
    Failure::from_message(message)
}

/// The `[workspace] members` entry for the task crate `name`.
pub fn workspace_member(name: &Name) -> (member: String)
    ensures
        member@ == "tasks/"@ + name@,
{
    let mut member = owned("tasks/");
    member.append(name.as_str());
    member
}

/// The line `add` ends on: the file the new task's code goes in, and what a
/// person types to run it.
pub fn next_step(name: &Name, binary_name: &str) -> (line: String)
    ensures
        line@ == "next: edit tasks/"@ + name@ + "/src/lib.rs, then run cargo "@ + binary_name@
            + " "@ + name@,
{
    let mut line = owned("next: edit tasks/");
    line.append(name.as_str());
    line.append("/src/lib.rs, then run cargo ");
    line.append(binary_name);
    line.append(" ");
    line.append(name.as_str());
    line
}

/// What `add` reports when regenerating fails after the import was
/// written: the import stands, and regenerating again finishes it.
pub fn regenerate_failure(failure: &Failure, name: &Name, regenerate: &str) -> (report: Failure)
    ensures
        report@ == (
            failure_text(failure@) + "; `"@ + name@ + "` is imported \u{2014} run `"@ + regenerate@
                + "` to finish"@,
            None::<Seq<char>>,
        ),
{
    let mut message = failure.to_string();
    message.append("; `");
    message.append(name.as_str());
    message.append("` is imported \u{2014} run `");
    message.append(regenerate);
    message.append("` to finish");
    Failure::from_message(message)
}

/// What `add` reports after putting a project back because a write
/// failed: that everything was restored, or which places were not.
/// `not_restored` counts the places that could not be put back, and
/// `listed` is how they read in a sentence.
pub fn undo_report(failure: &Failure, name: &Name, not_restored: usize, listed: &str) -> (report:
    Failure)
    ensures
        report@ == (
            if not_restored == 0 {
                failure_text(failure@) + "; ritual put the project back as it found it"@
            } else {
                failure_text(failure@) + "; ritual put the project back except for "@ + listed@
                    + " \u{2014} "@ + (if not_restored == 1 {
                    "check it"@
                } else {
                    "check them"@
                }) + " before running `add "@ + name@ + "` again"@
            },
            None::<Seq<char>>,
        ),
{
    let mut message = failure.to_string();
    if not_restored == 0 {
        message.append("; ritual put the project back as it found it");
        return Failure::from_message(message);
    }
    let pronoun = if not_restored == 1 {
        "check it"
    } else {
        "check them"
    };
    message.append("; ritual put the project back except for ");
    message.append(listed);
    message.append(" \u{2014} ");
    message.append(pronoun);
    message.append(" before running `add ");
    message.append(name.as_str());
    message.append("` again");
    Failure::from_message(message)
}

/// What is left of `path` once `base` is taken off its front, compared
/// component by component, or `None` when `base` is not a prefix of it.
pub uninterp spec fn stripped_prefix(path: Seq<char>, base: Seq<char>) -> Option<Seq<char>>;

/// Takes `base` off the front of `path`.
///
/// Calls `Path::strip_prefix` from std and renders what is left with
/// `Path::display`. The contract names the result and claims only that it
/// depends on the two paths alone; both are valid UTF-8, so the rendering
/// loses nothing.
#[verifier::external_body]
fn strip_prefix(path: &str, base: &str) -> (rest: Option<String>)
    ensures
        match rest {
            Some(rest) => stripped_prefix(path@, base@) == Some(rest@),
            None => stripped_prefix(path@, base@) is None,
        },
{
    std::path::Path::new(path).strip_prefix(base).ok().map(|rest| rest.display().to_string())
}

/// `path` relative to `workspace_root`, the shape `add` reports paths in,
/// or `path` as it is when it does not lie under that root.
pub fn relative_to(path: &str, workspace_root: &str) -> (relative: String)
    ensures
        relative@ == match stripped_prefix(path@, workspace_root@) {
            Some(rest) => rest,
            None => path@,
        },
{
    match strip_prefix(path, workspace_root) {
        Some(rest) => rest,
        None => owned(path),
    }
}

/// A name is refused as already imported exactly when it is already a
/// dependency or already listed, and every such refusal ends with the
/// `regenerate` command quoted as given.
pub proof fn a_name_is_refused_exactly_when_it_is_spoken_for(
    package: Seq<char>,
    name: Seq<char>,
    already_a_dependency: bool,
    already_listed: bool,
    regenerate: Seq<char>,
)
    ensures
        (already_imported_text(package, name, already_a_dependency, already_listed, regenerate)
            is None) == (!already_a_dependency && !already_listed),
        already_imported_text(package, name, already_a_dependency, already_listed, regenerate)
            matches Some(text) ==> (regenerate + "`"@).is_suffix_of(text),
{
    let suffix = regenerate + "`"@;
    if let Some(text) = already_imported_text(
        package,
        name,
        already_a_dependency,
        already_listed,
        regenerate,
    ) {
        let start = text.len() - suffix.len();
        assert(text.subrange(start, text.len() as int) =~= suffix);
    }
}

/// What each of `add`'s checks found before it writes anything, in the
/// order it makes them: the name typed, the bin name, whether the command
/// line's top level has the name free, whether the project could be found,
/// whether the name is already imported, whether `tasks/<name>` exists (and
/// is a task crate), whether a workspace member already has the name,
/// whether the project's task list resolves, what the workspace manifest
/// says, and whether the command line's manifest could be read.
pub struct ImportFacts {
    pub name: String,
    pub binary_name: String,
    pub command_free: Outcome,
    pub project: Outcome,
    pub package: String,
    pub regenerate: String,
    pub already_a_dependency: bool,
    pub already_listed: bool,
    pub existing_directory: Option<bool>,
    pub dependency_path: String,
    pub member_taken: bool,
    pub workspace_root: String,
    pub task_list: Outcome,
    pub workspace_manifest: Outcome,
    pub workspace_manifest_path: String,
    pub declares_rituals: bool,
    pub has_members_list: bool,
    pub cli_manifest: Outcome,
}

/// The refusal an outcome carries, as plain values.
pub open spec fn refusal_of(outcome: Outcome) -> Option<(Seq<char>, Option<Seq<char>>)> {
    match outcome {
        Ok(()) => None,
        Err(failure) => Some(failure@),
    }
}

/// A refusal with no cause.
pub open spec fn plain(message: Seq<char>) -> Option<(Seq<char>, Option<Seq<char>>)> {
    Some((message, None))
}

/// The first refusal among `facts`, in the order `add` checks: every
/// refusal about the name itself (its spelling, the bin name, the top
/// level, an existing import, a leftover directory, a member of that name)
/// before the one about the project's existing task list, and that before
/// the manifests. `None` when nothing refuses.
pub open spec fn first_import_refusal(facts: ImportFacts) -> Option<(Seq<char>, Option<Seq<char>>)> {
    let name = facts.name@;
    if !is_usable_name(name) {
        plain(invalid_name_message(name, !has_name_spelling(name)))
    } else if name == facts.binary_name@ {
        plain(bin_name_refusal_text(facts.binary_name@))
    } else if facts.command_free is Err {
        refusal_of(facts.command_free)
    } else if facts.project is Err {
        refusal_of(facts.project)
    } else if already_imported_text(
        facts.package@,
        name,
        facts.already_a_dependency,
        facts.already_listed,
        facts.regenerate@,
    ) is Some {
        plain(
            already_imported_text(
                facts.package@,
                name,
                facts.already_a_dependency,
                facts.already_listed,
                facts.regenerate@,
            )->Some_0,
        )
    } else if facts.existing_directory is Some {
        plain(
            if facts.existing_directory->Some_0 {
                "refusing to create tasks/"@ + name + ": it already exists and is a task crate `"@
                    + facts.package@ + "` does not import; add `"@ + name + " = { path = \""@
                    + facts.dependency_path@ + "\" }` to `"@ + facts.package@
                    + "`'s [dependencies] and `\""@ + name
                    + "\"` to its [package.metadata.ritual] tasks, then run `"@ + facts.regenerate@
                    + "`"@
            } else {
                "refusing to create tasks/"@ + name + ": it already exists"@
            },
        )
    } else if facts.member_taken {
        plain(
            "the workspace at "@ + facts.workspace_root@ + " already has a package called `"@ + name
                + "`; a task's crate is named after the command"@,
        )
    } else if facts.task_list is Err {
        refusal_of(facts.task_list)
    } else if facts.workspace_manifest is Err {
        refusal_of(facts.workspace_manifest)
    } else if !facts.declares_rituals {
        plain(
            "add needs `rituals` in [workspace.dependencies] of "@ + facts.workspace_manifest_path@
                + ", so that a task crate's dependency on it does not change when the crate moves; add it there, as a version such as `rituals = \""@
                + VERSION@ + "\"` or with a path or git source"@,
        )
    } else if !facts.has_members_list {
        plain(
            facts.workspace_manifest_path@
                + " has no [workspace] members list to append to; add `members = []`"@,
        )
    } else {
        refusal_of(facts.cli_manifest)
    }
}

/// `add` goes ahead with an import exactly when every one of its checks
/// passed: a usable name other than the bin name, a free top level, a
/// project found, no existing import of the name, no leftover directory, no
/// workspace member of that name, a task list that resolves, and manifests
/// that can take the import. And a workspace that already has a package of
/// that name, with every earlier check passing, is refused for that reason.
pub proof fn an_import_goes_ahead_only_when_every_check_passes(facts: ImportFacts)
    ensures
        first_import_refusal(facts) is None <==> {
            &&& is_usable_name(facts.name@)
            &&& facts.name@ != facts.binary_name@
            &&& facts.command_free is Ok
            &&& facts.project is Ok
            &&& !facts.already_a_dependency
            &&& !facts.already_listed
            &&& facts.existing_directory is None
            &&& !facts.member_taken
            &&& facts.task_list is Ok
            &&& facts.workspace_manifest is Ok
            &&& facts.declares_rituals
            &&& facts.has_members_list
            &&& facts.cli_manifest is Ok
        },
        ({
            &&& is_usable_name(facts.name@)
            &&& facts.name@ != facts.binary_name@
            &&& facts.command_free is Ok
            &&& facts.project is Ok
            &&& !facts.already_a_dependency
            &&& !facts.already_listed
            &&& facts.existing_directory is None
            &&& facts.member_taken
        }) ==> first_import_refusal(facts) == Some(
            (
                "the workspace at "@ + facts.workspace_root@ + " already has a package called `"@
                    + facts.name@ + "`; a task's crate is named after the command"@,
                None::<Seq<char>>,
            ),
        ),
{
}

/// Weighs what `add`'s checks found, in the order it makes them, and
/// returns the validated name, or the first refusal. Nothing is written
/// until every refusal here has passed.
pub fn prepare_refusal(facts: ImportFacts) -> (outcome: Result<Name, Failure>)
    ensures
        match first_import_refusal(facts) {
            None => outcome matches Ok(name) && name@ == facts.name@,
            Some(refusal) => outcome matches Err(failure) && failure@ == refusal,
        },
        outcome matches Ok(name) ==> name@ == facts.name@,
        outcome is Ok <==> {
            &&& is_usable_name(facts.name@)
            &&& facts.name@ != facts.binary_name@
            &&& facts.command_free is Ok
            &&& facts.project is Ok
            &&& !facts.already_a_dependency
            &&& !facts.already_listed
            &&& facts.existing_directory is None
            &&& !facts.member_taken
            &&& facts.task_list is Ok
            &&& facts.workspace_manifest is Ok
            &&& facts.declares_rituals
            &&& facts.has_members_list
            &&& facts.cli_manifest is Ok
        },
        ({
            &&& is_usable_name(facts.name@)
            &&& facts.name@ != facts.binary_name@
            &&& facts.command_free is Ok
            &&& facts.project is Ok
            &&& !facts.already_a_dependency
            &&& !facts.already_listed
            &&& facts.existing_directory is None
            &&& facts.member_taken
        }) ==> (outcome matches Err(failure) && failure@ == (
            "the workspace at "@ + facts.workspace_root@ + " already has a package called `"@
                + facts.name@ + "`; a task's crate is named after the command"@,
            None::<Seq<char>>,
        )),
{
    proof {
        an_import_goes_ahead_only_when_every_check_passes(facts);
    }
    let name = match Name::new(facts.name.as_str()) {
        Ok(name) => name,
        Err(error) => return Err(Failure::from(error)),
    };
    ensure_the_name_is_not_the_bin_name(&name, facts.binary_name.as_str())?;
    facts.command_free?;
    facts.project?;
    already_imported_refusal(
        facts.package.as_str(),
        &name,
        facts.already_a_dependency,
        facts.already_listed,
        facts.regenerate.as_str(),
    )?;
    if let Some(is_a_task_crate) = facts.existing_directory {
        return Err(
            leftover_refusal(
                facts.package.as_str(),
                &name,
                is_a_task_crate,
                facts.dependency_path.as_str(),
                facts.regenerate.as_str(),
            ),
        );
    }
    if facts.member_taken {
        return Err(package_name_taken_refusal(&name, facts.workspace_root.as_str()));
    }
    facts.task_list?;
    facts.workspace_manifest?;
    ensure_workspace_can_take_the_import(
        facts.workspace_manifest_path.as_str(),
        facts.declares_rituals,
        facts.has_members_list,
    )?;
    facts.cli_manifest?;
    Ok(name)
}

} // verus!
