//! What `create` says once it has scaffolded a task crate on its own.

use vstd::prelude::*;
use vstd::string::*;

use crate::name::Name;
use crate::scaffold::toml::{escape_toml_string, escaped};
use crate::text::owned;

verus! {

/// The lines `create` ends on for a crate at `path`, or the one line it
/// ends on when the crate's path is not valid UTF-8 (`None`).
pub open spec fn next_steps_text(name: Seq<char>, path: Option<Seq<char>>) -> Seq<Seq<char>> {
    match path {
        None => seq![
            "next: "@ + name
                + " was created, but its path is not valid UTF-8, so no Cargo manifest can name it; move it to a path that is before importing it"@,
        ],
        Some(path) => seq![
            "next: to import it, add this under [dependencies] in a project's ritual/Cargo.toml:"@,
            name + " = { path = \""@ + escaped(path) + "\" }"@,
            "then add \""@ + name
                + "\" to [package.metadata.ritual] tasks and run cargo ritual regenerate there (or cargo <name> ritual regenerate if it was made with --cli <name>)"@,
        ],
    }
}

/// The lines `create` ends on: the dependency line that imports the new
/// crate, on a line of its own so it pastes as TOML, and the one edit after
/// it. The path is absolute so the line works from any project on this
/// machine. A path that is not valid UTF-8 (`None` here) cannot be written
/// in a Cargo manifest at all, so then the one line says that instead.
pub fn next_steps(name: &Name, path: Option<&str>) -> (lines: Vec<String>)
    ensures
        lines@.map_values(|line: String| line@) == next_steps_text(
            name@,
            match path {
                Some(path) => Some(path@),
                None => None,
            },
        ),
{
    let mut lines: Vec<String> = Vec::new();
    match path {
        None => {
            let mut line = owned("next: ");
            line.append(name.as_str());
            line.append(
                " was created, but its path is not valid UTF-8, so no Cargo manifest can name it; move it to a path that is before importing it",
            );
            lines.push(line);
        },
        Some(path) => {
            lines.push(
                owned(
                    "next: to import it, add this under [dependencies] in a project's ritual/Cargo.toml:",
                ),
            );
            let mut dependency = owned(name.as_str());
            dependency.append(" = { path = \"");
            dependency.append(escape_toml_string(path).as_str());
            dependency.append("\" }");
            lines.push(dependency);
            let mut then = owned("then add \"");
            then.append(name.as_str());
            then.append(
                "\" to [package.metadata.ritual] tasks and run cargo ritual regenerate there (or cargo <name> ritual regenerate if it was made with --cli <name>)",
            );
            lines.push(then);
        },
    }
    assert(lines@.map_values(|line: String| line@) =~= next_steps_text(
        name@,
        match path {
            Some(path) => Some(path@),
            None => None,
        },
    ));
    lines
}

} // verus!
