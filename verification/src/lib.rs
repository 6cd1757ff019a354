//! Ritual's framework and release tooling, as a verified library: the name
//! rule every command obeys, the identity and command line a task runs in,
//! the refusals a task reports, how a composed command line assembles and
//! flattens its mounts, the text the scaffolding tasks write, and the
//! release-version arithmetic the release automation relies on.

pub mod text;
pub mod name;

pub use name::{InvalidName, Name};
pub mod identity;
pub mod command_line;
pub mod outcome;

pub use command_line::CommandLine;
pub use identity::Identity;
pub use outcome::{Failure, Outcome};
pub mod task;

pub use task::Task;
pub mod dispatch;
pub mod release;
pub mod scaffold;
