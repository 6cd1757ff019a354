//! What `new` writes: a project's own workspace manifest, its `cargo <cli>`
//! alias and its composed command line's manifest, and the files those go
//! in.

use vstd::prelude::*;
use vstd::string::*;

use crate::name::Name;
use crate::outcome::Failure;
use crate::scaffold::toml::{escape_toml_string, escaped};
use crate::text::owned;

verus! {

/// The version of the framework this library is, which a scaffolded
/// project asks the registry for: every crate the project publishes moves
/// at this version together.
pub const VERSION: &'static str = "0.1.0";

/// Where the project's own framework crates come from.
#[derive(Clone, Debug, PartialEq, Eq)]
pub enum Source {
    /// The registry, at [`VERSION`].
    Registry,
    /// A checkout of the framework at this root.
    Path(String),
    /// A git repository at this URL.
    Git(String),
}

/// One of the framework's crates a scaffolded project imports: the key a
/// manifest names it under, the package name when it differs from that key,
/// and the crate's directory within a checkout.
#[derive(Clone, Copy, Debug, PartialEq, Eq)]
pub struct ImportedCrate {
    pub key: &'static str,
    pub package: Option<&'static str>,
    pub directory: &'static str,
}

/// The one crate a scaffolded project's `[workspace.dependencies]` names,
/// under its own package name, so every task crate the project scaffolds
/// later writes `rituals.workspace = true` and nothing else.
pub fn framework() -> (imported: ImportedCrate)
    ensures
        imported == (ImportedCrate { key: "rituals", package: None, directory: "crates/rituals" }),
{
    ImportedCrate { key: "rituals", package: None, directory: "crates/rituals" }
}

/// The framework's own management tasks, as the one entry a scaffolded
/// project's command line imports and lists: always under the key `ritual`,
/// whatever the project calls its own binary.
pub fn management_bundle() -> (imported: ImportedCrate)
    ensures
        imported == (ImportedCrate {
            key: "ritual",
            package: Some("rituals-core"),
            directory: "crates/rituals-core",
        }),
{
    ImportedCrate { key: "ritual", package: Some("rituals-core"), directory: "crates/rituals-core" }
}

/// `directory` joined onto `root` as a path, rendered: what
/// `std::path::Path::join` gives, which depends on the platform's separator.
pub uninterp spec fn joined_path(root: Seq<char>, directory: Seq<char>) -> Seq<char>;

/// Joins `directory` onto `root`, as `std::path::Path::join` does, and
/// renders the result.
///
/// Calls `Path::join` and `Path::display` from std. The contract names the
/// result, a function of the two texts alone; it does not state the
/// separator, which is the platform's. Both are valid UTF-8, so the
/// rendering loses nothing.
#[verifier::external_body]
fn join_path(root: &str, directory: &str) -> (joined: String)
    ensures
        joined@ == joined_path(root@, directory@),
{
    std::path::Path::new(root).join(directory).display().to_string()
}

/// `package = "<package>", ` when the package name differs from the key,
/// and nothing otherwise.
pub open spec fn package_clause(package: Option<&'static str>) -> Seq<char> {
    match package {
        Some(package) => "package = \""@ + package@ + "\", "@,
        None => Seq::empty(),
    }
}

/// The line naming `imported` as a dependency from `source`.
pub open spec fn dependency_line_text(imported: ImportedCrate, source: Source) -> Seq<char> {
    match source {
        Source::Registry => match imported.package {
            None => imported.key@ + " = \""@ + VERSION@ + "\"\n"@,
            Some(_) => imported.key@ + " = { "@ + package_clause(imported.package) + "version = \""@
                + VERSION@ + "\" }\n"@,
        },
        Source::Path(root) => imported.key@ + " = { "@ + package_clause(imported.package)
            + "path = \""@ + escaped(joined_path(root@, imported.directory@)) + "\" }\n"@,
        Source::Git(url) => imported.key@ + " = { "@ + package_clause(imported.package)
            + "git = \""@ + escaped(url@) + "\" }\n"@,
    }
}

/// Renders the line naming `imported` as a dependency from `source`: a
/// version requirement for the registry, `path = "…"` or `git = "…"`
/// otherwise, with a `package = "…"` clause only when the package name
/// differs from the key. A path source is the checkout root, and the
/// crate's directory is joined onto it; a git source names no directory,
/// since Cargo finds a package by name anywhere in the repository.
pub fn dependency_line(imported: &ImportedCrate, source: &Source) -> (line: String)
    ensures
        line@ == dependency_line_text(*imported, *source),
{
    let mut clause = String::new();
    match imported.package {
        Some(package) => {
            clause.append("package = \"");
            clause.append(package);
            clause.append("\", ");
        },
        None => {},
    }
    assert(clause@ =~= package_clause(imported.package));
    let mut line = owned(imported.key);
    match source {
        Source::Registry => match imported.package {
            None => {
                line.append(" = \"");
                line.append(VERSION);
                line.append("\"\n");
            },
            Some(_) => {
                line.append(" = { ");
                line.append(clause.as_str());
                line.append("version = \"");
                line.append(VERSION);
                line.append("\" }\n");
            },
        },
        Source::Path(root) => {
            let directory = join_path(root.as_str(), imported.directory);
            line.append(" = { ");
            line.append(clause.as_str());
            line.append("path = \"");
            line.append(escape_toml_string(directory.as_str()).as_str());
            line.append("\" }\n");
        },
        Source::Git(url) => {
            line.append(" = { ");
            line.append(clause.as_str());
            line.append("git = \"");
            line.append(escape_toml_string(url.as_str()).as_str());
            line.append("\" }\n");
        },
    }
    line
}

/// The text of a project's workspace manifest.
pub open spec fn workspace_manifest_text(source: Source) -> Seq<char> {
    "[workspace]\nmembers = [\n    \"ritual\",\n]\nresolver = \"3\"\n\n[workspace.dependencies]\n"@
        + dependency_line_text(
        ImportedCrate { key: "rituals", package: None, directory: "crates/rituals" },
        source,
    )
}

/// Renders `<name>/Cargo.toml`: the project's workspace manifest, with an
/// explicit `members` list naming the command line's own fixed directory,
/// `ritual`, and `[workspace.dependencies]` naming the framework from
/// `source`.
pub fn workspace_manifest(source: &Source) -> (manifest: String)
    ensures
        manifest@ == workspace_manifest_text(*source),
{
    let imported = framework();
    let mut manifest = owned(
        "[workspace]\nmembers = [\n    \"ritual\",\n]\nresolver = \"3\"\n\n[workspace.dependencies]\n",
    );
    manifest.append(dependency_line(&imported, source).as_str());
    manifest
}

/// The text of a project's `cargo <cli>` alias.
pub open spec fn cargo_alias_text(cli: Seq<char>, cli_package: Seq<char>) -> Seq<char> {
    "# `cargo "@ + cli
        + " <task>` runs this project's own composed command line, from\n# anywhere inside the checkout. Nothing has to be installed: the alias builds\n# the crate on demand, the way a project-local task runner already does.\n[alias]\n"@
        + cli + " = [\"run\", \"--package\", \""@ + cli_package + "\", \"--\"]\n"@
}

/// Renders `<name>/.cargo/config.toml`: the `cargo <cli>` alias, which runs
/// the project's own command line from anywhere inside the checkout.
pub fn cargo_alias(cli: &Name, cli_package: &str) -> (alias: String)
    ensures
        alias@ == cargo_alias_text(cli@, cli_package@),
{
    let mut alias = owned("# `cargo ");
    alias.append(cli.as_str());
    alias.append(
        " <task>` runs this project's own composed command line, from\n# anywhere inside the checkout. Nothing has to be installed: the alias builds\n# the crate on demand, the way a project-local task runner already does.\n[alias]\n",
    );
    alias.append(cli.as_str());
    alias.append(" = [\"run\", \"--package\", \"");
    alias.append(cli_package);
    alias.append("\", \"--\"]\n");
    alias
}

/// The text of the composed command line's manifest.
pub open spec fn cli_manifest_text(cli: Seq<char>, cli_package: Seq<char>, source: Source) -> Seq<
    char,
> {
    "[package]\nname = \""@ + cli_package
        + "\"\nversion = \"0.1.0\"\nedition = \"2024\"\n\n[[bin]]\nname = \""@ + cli
        + "\"\npath = \"src/main.rs\"\n\n[dependencies]\nrituals.workspace = true\n"@
        + dependency_line_text(
        ImportedCrate {
            key: "ritual",
            package: Some("rituals-core"),
            directory: "crates/rituals-core",
        },
        source,
    ) + "\n[package.metadata.ritual]\ntasks = [\"ritual\"]\n"@
}

/// Renders `<name>/ritual/Cargo.toml`: the composed command line's own
/// manifest, with the explicit `[[bin]]` an unambiguous target needs,
/// `[dependencies]` naming the framework and the management bundle from
/// `source`, and `[package.metadata.ritual] tasks` listing the bundle's own
/// key. `cli_package` is the package name and `cli` the `[[bin]]` name.
pub fn cli_manifest(cli: &Name, cli_package: &str, source: &Source) -> (manifest: String)
    ensures
        manifest@ == cli_manifest_text(cli@, cli_package@, *source),
{
    let imported = management_bundle();
    let mut manifest = owned("[package]\nname = \"");
    manifest.append(cli_package);
    manifest.append("\"\nversion = \"0.1.0\"\nedition = \"2024\"\n\n[[bin]]\nname = \"");
    manifest.append(cli.as_str());
    manifest.append("\"\npath = \"src/main.rs\"\n\n[dependencies]\nrituals.workspace = true\n");
    manifest.append(dependency_line(&imported, source).as_str());
    manifest.append("\n[package.metadata.ritual]\ntasks = [\"ritual\"]\n");
    manifest
}

/// One file `new` writes: where it goes under the project directory, what
/// it holds, and how it is reported.
#[derive(Clone, Debug, PartialEq, Eq)]
pub struct ProjectFile {
    pub path: String,
    pub content: String,
    pub reported: String,
}

/// A [`ProjectFile`] as plain values.
pub open spec fn file_view(file: ProjectFile) -> (Seq<char>, Seq<char>, Seq<char>) {
    (file.path@, file.content@, file.reported@)
}

/// The files of a new project called `name` whose command line is `cli`,
/// in the order they are written: the workspace manifest, `.gitignore`, the
/// alias, the command line's manifest, and its generated `main.rs`.
pub open spec fn project_files_view(
    name: Seq<char>,
    cli: Seq<char>,
    source: Source,
    generated_main: Seq<char>,
) -> Seq<(Seq<char>, Seq<char>, Seq<char>)> {
    let cli_package = name + "-ritual"@;
    seq![
        ("Cargo.toml"@, workspace_manifest_text(source), name + "/Cargo.toml"@),
        (".gitignore"@, "/target\n"@, name + "/.gitignore"@),
        (".cargo/config.toml"@, cargo_alias_text(cli, cli_package), name + "/.cargo/config.toml"@),
        (
            "ritual/Cargo.toml"@,
            cli_manifest_text(cli, cli_package, source),
            name + "/ritual/Cargo.toml"@,
        ),
        ("ritual/src/main.rs"@, generated_main, name + "/ritual/src/main.rs"@),
    ]
}

/// `name` followed by `suffix`, as a new `String`.
fn suffixed(name: &Name, suffix: &str) -> (text: String)
    ensures
        text@ == name@ + suffix@,
{
    let mut text = owned(name.as_str());
    text.append(suffix);
    text
}

/// Every file `new` scaffolds into the project directory, in the order it
/// writes them. The composed command line's package is always
/// `<name>-ritual`, and its directory is always `ritual/`, whatever `cli`
/// names: `cli` is the `[[bin]]` name and the alias key, never a path.
/// `generated_main` is the rendered `main.rs` that mounts the management
/// bundle.
pub fn project_files(name: &Name, cli: &Name, source: &Source, generated_main: &str) -> (files: Vec<
    ProjectFile,
>)
    ensures
        files@.map_values(|file: ProjectFile| file_view(file)) == project_files_view(
            name@,
            cli@,
            *source,
            generated_main@,
        ),
{
    let cli_package = suffixed(name, "-ritual");
    let mut files: Vec<ProjectFile> = Vec::new();
    files.push(
        ProjectFile {
            path: owned("Cargo.toml"),
            content: workspace_manifest(source),
            reported: suffixed(name, "/Cargo.toml"),
        },
    );
    files.push(
        ProjectFile {
            path: owned(".gitignore"),
            content: owned("/target\n"),
            reported: suffixed(name, "/.gitignore"),
        },
    );
    files.push(
        ProjectFile {
            path: owned(".cargo/config.toml"),
            content: cargo_alias(cli, cli_package.as_str()),
            reported: suffixed(name, "/.cargo/config.toml"),
        },
    );
    files.push(
        ProjectFile {
            path: owned("ritual/Cargo.toml"),
            content: cli_manifest(cli, cli_package.as_str(), source),
            reported: suffixed(name, "/ritual/Cargo.toml"),
        },
    );
    files.push(
        ProjectFile {
            path: owned("ritual/src/main.rs"),
            content: owned(generated_main),
            reported: suffixed(name, "/ritual/src/main.rs"),
        },
    );
    assert(files@.map_values(|file: ProjectFile| file_view(file)) =~= project_files_view(
        name@,
        cli@,
        *source,
        generated_main@,
    ));
    files
}

/// The line `new` ends on: how to reach the new project's command line.
pub fn next_step(name: &Name, cli: &Name) -> (line: String)
    ensures
        line@ == "next: cd "@ + name@ + " && cargo "@ + cli@ + " --help"@,
{
    let mut line = owned("next: cd ");
    line.append(name.as_str());
    line.append(" && cargo ");
    line.append(cli.as_str());
    line.append(" --help");
    line
}

} // verus!
