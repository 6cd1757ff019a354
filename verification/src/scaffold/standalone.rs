//! What `create` and `new`, the two tasks that scaffold outside any
//! project, say when they cannot go ahead or cannot finish.

use vstd::prelude::*;
use vstd::string::*;

use crate::name::Name;
use crate::outcome::{failure_text, Failure};
use crate::text::owned;

verus! {

/// What a task puts into the refusal for a directory that is inside a Cargo
/// workspace: the command that was attempted, why it cannot run there, and
/// what to do instead.
#[derive(Clone, Debug, PartialEq, Eq)]
pub struct Refusal {
    pub attempted_command: String,
    pub why_not_here: String,
    pub what_to_do_instead: String,
}

/// What `create` puts into the refusal for a directory inside a workspace.
/// The remedy names the enclosing project's own `add`, since that project's
/// command line may be called anything.
pub fn create_refusal(name: &Name) -> (refusal: Refusal)
    ensures
        refusal.attempted_command@ == "create "@ + name@,
        refusal.why_not_here@ == "a crate scaffolded there does not build on its own"@,
        refusal.what_to_do_instead@
            == "run create outside any Cargo workspace, or, if the enclosing project is a ritual project, add the task with that project's own `add "@
            + name@ + "`"@,
{
    let mut attempted_command = owned("create ");
    attempted_command.append(name.as_str());
    let mut what_to_do_instead = owned(
        "run create outside any Cargo workspace, or, if the enclosing project is a ritual project, add the task with that project's own `add ",
    );
    what_to_do_instead.append(name.as_str());
    what_to_do_instead.append("`");
    Refusal {
        attempted_command,
        why_not_here: owned("a crate scaffolded there does not build on its own"),
        what_to_do_instead,
    }
}

/// What `new` puts into the refusal for a directory inside a workspace.
pub fn new_refusal(name: &Name) -> (refusal: Refusal)
    ensures
        refusal.attempted_command@ == "new "@ + name@,
        refusal.why_not_here@ == "a project does not belong inside another project's workspace"@,
        refusal.what_to_do_instead@
            == "run new outside any Cargo workspace, or, if you meant a new command rather than a new project, add it with the enclosing project's own `add "@
            + name@ + "`"@,
{
    let mut attempted_command = owned("new ");
    attempted_command.append(name.as_str());
    let mut what_to_do_instead = owned(
        "run new outside any Cargo workspace, or, if you meant a new command rather than a new project, add it with the enclosing project's own `add ",
    );
    what_to_do_instead.append(name.as_str());
    what_to_do_instead.append("`");
    Refusal {
        attempted_command,
        why_not_here: owned("a project does not belong inside another project's workspace"),
        what_to_do_instead,
    }
}

/// The refusal for a target directory that already exists.
pub fn already_exists_refusal(name: &Name) -> (failure: Failure)
    ensures
        failure@ == ("refusing to create "@ + name@ + ": it already exists"@, None::<Seq<char>>),
{
    let mut message = owned("refusing to create ");
    message.append(name.as_str());
    message.append(": it already exists");
    Failure::from_message(message)
}

/// The refusal a scaffold ends on when a write failed partway, folding in
/// whether removing what it had created succeeded: a run that does not
/// finish leaves nothing behind, and says whether it managed to. `command`
/// is the task's own command, `create` or `new`.
pub fn removal_report(failure: &Failure, name: &Name, removed: bool, command: &str) -> (report:
    Failure)
    ensures
        report@ == (
            if removed {
                failure_text(failure@) + "; ritual removed "@ + name@ + " so a retry starts clean"@
            } else {
                failure_text(failure@) + "; ritual could not remove "@ + name@
                    + " \u{2014} check it before running `"@ + command@ + " "@ + name@
                    + "` again"@
            },
            None::<Seq<char>>,
        ),
{
    let mut message = failure.to_string();
    if removed {
        message.append("; ritual removed ");
        message.append(name.as_str());
        message.append(" so a retry starts clean");
    } else {
        message.append("; ritual could not remove ");
        message.append(name.as_str());
        message.append(" \u{2014} check it before running `");
        message.append(command);
        message.append(" ");
        message.append(name.as_str());
        message.append("` again");
    }
    Failure::from_message(message)
}

} // verus!
