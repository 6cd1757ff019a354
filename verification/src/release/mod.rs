//! The release automation's own logic: release versions and tags, the
//! draft release body, the publish plan, and the version sites of the root
//! manifest.

pub mod version;
pub mod notes;
pub mod publish;
pub mod manifest;
pub mod verify;
pub mod bump;
pub mod program;
