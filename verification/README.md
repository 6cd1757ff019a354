# rituals

A command-line framework whose commands are composed from imported tasks,
with the scaffolding and release tooling built on it, as a library whose
logic is proved with Verus.

`src/` holds the library. Every function in it is verified, except the small
trusted wrappers that make the calls into std, `serde_json` and `toml_edit`;
each of those states in a doc comment what its contract claims of the call:

- `name`, `identity`, `command_line`, `outcome`, `task`: the name rule every
  command obeys, the identity and command line a task runs in, the refusals a
  task reports, and the shape of a task tree.
- `dispatch`: assembling a composed command line's mounts, flattening the
  bundle mounted under the binary's own name, and walking a parse down to the
  leaf it selected.
- `scaffold`: what the `add`, `create` and `new` tasks decide, write and say,
  and the TOML string escaping their manifests rely on.
- `release`: release versions and tags, reading and rewriting the root
  manifest's version sites (through `toml_edit`), bumping and verifying a tag,
  reading `cargo metadata` and GraphQL answers (through `serde_json`), the
  publish plan, and the draft release body.

`app/` is the program around it: the release commands (`bump`, `verify-tag`,
`publish-plan`, `release-notes`), which read and write files and run Cargo and
the GitHub CLI; and the runtime that replays a task tree's declaration steps
with clap and dispatches a process's arguments to one.

`tests/` runs the library on concrete values.
