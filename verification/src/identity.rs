//! A composed command line's own identity: the package name, bin name and
//! version Cargo fixed when it was built.

use vstd::prelude::*;

verus! {

/// The identity of the composed command line a task is running inside: the
/// three facts Cargo fixes at compile time for a binary target, its package
/// name, its bin name and its version.
#[derive(Debug, Clone, Copy, PartialEq, Eq, Hash)]
pub struct Identity {
    package_name: &'static str,
    binary_name: &'static str,
    version: &'static str,
}

impl Identity {
    /// The package name this identity carries.
    pub closed spec fn spec_package_name(self) -> Seq<char> {
        self.package_name@
    }

    /// The bin name this identity carries.
    pub closed spec fn spec_binary_name(self) -> Seq<char> {
        self.binary_name@
    }

    /// The version this identity carries.
    pub closed spec fn spec_version(self) -> Seq<char> {
        self.version@
    }

    /// The name of the Cargo package the running command line was built
    /// from.
    pub fn package_name(self) -> (name: &'static str)
        ensures
            name@ == self.spec_package_name(),
    {
        self.package_name
    }

    /// The name of the compiled binary the running command line was built as.
    pub fn binary_name(self) -> (name: &'static str)
        ensures
            name@ == self.spec_binary_name(),
    {
        self.binary_name
    }

    /// The version of the running command line, from its own `Cargo.toml`.
    pub fn version(self) -> (version: &'static str)
        ensures
            version@ == self.spec_version(),
    {
        self.version
    }

    /// Builds an [`Identity`] from the three strings Cargo fixes for a binary
    /// target, in the order package name, bin name, version.
    pub fn from_macro_expansion(
        package_name: &'static str,
        binary_name: &'static str,
        version: &'static str,
    ) -> (identity: Self)
        ensures
            identity.spec_package_name() == package_name@,
            identity.spec_binary_name() == binary_name@,
            identity.spec_version() == version@,
    {
        Identity { package_name, binary_name, version }
    }
}

} // verus!
