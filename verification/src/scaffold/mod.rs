//! What the scaffolding tasks write and say: the manifests a new project
//! starts from, the lines a person pastes next, and the refusals and
//! reports when a scaffold cannot go ahead or cannot finish.

pub mod toml;
pub mod new;
pub mod standalone;
pub mod create;
pub mod add;
