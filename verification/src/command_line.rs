//! The composed command line a task is running inside.

use vstd::prelude::*;

use crate::identity::Identity;

verus! {

/// The composed command line a task is running inside: the identity of the
/// binary it was built as, and the commands its top level gets from the
/// bundle mounted under that same name.
#[derive(Debug, Clone, PartialEq, Eq)]
pub struct CommandLine {
    identity: Identity,
    flattened_commands: Vec<&'static str>,
}

impl CommandLine {
    /// The identity this command line carries.
    pub closed spec fn spec_identity(self) -> Identity {
        self.identity
    }

    /// The flattened commands this command line carries, in order.
    pub closed spec fn spec_flattened_commands(self) -> Seq<&'static str> {
        self.flattened_commands@
    }

    /// The identity of the command line the task is mounted in.
    pub fn identity(&self) -> (identity: Identity)
        ensures
            identity == self.spec_identity(),
    {
        self.identity
    }

    /// The commands this command line's top level gets from the bundle
    /// mounted under the name the binary was built as. Empty when nothing is
    /// mounted under that name.
    pub fn flattened_commands(&self) -> (commands: &[&'static str])
        ensures
            commands@ == self.spec_flattened_commands(),
    {
        self.flattened_commands.as_slice()
    }

    /// Builds a `CommandLine` from what the dispatcher assembled.
    pub fn from_dispatch(identity: Identity, flattened_commands: &[&'static str]) -> (command_line:
        Self)
        ensures
            command_line.spec_identity() == identity,
            command_line.spec_flattened_commands() == flattened_commands@,
    {
        let mut commands: Vec<&'static str> = Vec::new();
        let mut index: usize = 0;
        while index < flattened_commands.len()
            invariant
                index <= flattened_commands@.len(),
                commands@ == flattened_commands@.take(index as int),
            decreases flattened_commands@.len() - index,
        {
            commands.push(flattened_commands[index]);
            index += 1;
            assert(commands@ =~= flattened_commands@.take(index as int));
        }
        assert(flattened_commands@.take(index as int) =~= flattened_commands@);
        CommandLine { identity, flattened_commands: commands }
    }
}

} // verus!
