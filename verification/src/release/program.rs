//! The programs the release tasks drive, and how a command is named when one
//! of them could not be started or did not succeed.

use vstd::prelude::*;
use vstd::string::*;

use crate::text::owned;

verus! {

/// A program the release tasks run.
#[derive(Clone, Copy, Debug, PartialEq, Eq, Structural)]
pub enum Program {
    /// Cargo: the one running the task, or plain `cargo`.
    Cargo,
    /// The GitHub CLI.
    Gh,
}

/// The name each program is shown by.
pub open spec fn program_name(program: Program) -> Seq<char> {
    match program {
        Program::Cargo => "cargo"@,
        Program::Gh => "gh"@,
    }
}

/// `arguments` with a single space between each two.
pub open spec fn spaced(arguments: Seq<Seq<char>>) -> Seq<char>
    decreases arguments.len(),
{
    if arguments.len() == 0 {
        Seq::empty()
    } else if arguments.len() == 1 {
        arguments[0]
    } else {
        spaced(arguments.drop_last()) + " "@ + arguments.last()
    }
}

/// The text of each argument.
pub open spec fn argument_texts(arguments: Seq<&str>) -> Seq<Seq<char>> {
    arguments.map_values(|argument: &str| argument@)
}

impl Program {
    /// The name the program is shown by.
    pub fn name(self) -> (name: &'static str)
        ensures
            name@ == program_name(self),
    {
        match self {
            Program::Cargo => "cargo",
            Program::Gh => "gh",
        }
    }
}

/// The command as a refusal shows it: the program's name, a space, and the
/// arguments separated by single spaces.
pub fn command_line(program: Program, arguments: &[&str]) -> (line: String)
    ensures
        line@ == program_name(program) + " "@ + spaced(argument_texts(arguments@)),
{
    let ghost texts = argument_texts(arguments@);
    let mut line = owned(program.name());
    line.append(" ");
    let ghost start = line@;
    let mut index: usize = 0;
    while index < arguments.len()
        invariant
            index <= arguments@.len(),
            texts == argument_texts(arguments@),
            line@ == start + spaced(texts.take(index as int)),
        decreases arguments@.len() - index,
    {
        assert(texts.take(index + 1).drop_last() =~= texts.take(index as int));
        assert(texts[index as int] == arguments@[index as int]@);
        if index > 0 {
            line.append(" ");
        }
        line.append(arguments[index]);
        index += 1;
    }
    assert(texts.take(index as int) =~= texts);
    line
}

} // verus!
