//! What a task returns, and the refusal message a caller reads when it does
//! not succeed.

use vstd::prelude::*;
use vstd::string::*;

use crate::name::{invalid_name_message, InvalidName};
use crate::text::owned;

verus! {

/// What running a task, or any of the framework's own fallible operations,
/// produces: nothing on success, or a [`Failure`] naming what went wrong.
pub type Outcome = Result<(), Failure>;

/// How a refusal reads: its message, then `: ` and its cause when one is
/// attached.
pub open spec fn failure_text(failure: (Seq<char>, Option<Seq<char>>)) -> Seq<char> {
    match failure.1 {
        Some(cause) => failure.0 + ": "@ + cause,
        None => failure.0,
    }
}

/// A refusal: the message a person reads when a task cannot do its job, and
/// the rendered text of the underlying error when there is one.
///
/// Its view is the pair of the two.
#[derive(Debug)]
pub struct Failure {
    message: String,
    cause: Option<String>,
}

impl View for Failure {
    type V = (Seq<char>, Option<Seq<char>>);

    closed spec fn view(&self) -> (Seq<char>, Option<Seq<char>>) {
        (
            self.message@,
            match self.cause {
                Some(cause) => Some(cause@),
                None => None,
            },
        )
    }
}

impl Failure {
    /// Builds a refusal carrying `message`, the text a caller reads.
    pub fn new(message: &str) -> (failure: Self)
        ensures
            failure@ == (message@, None::<Seq<char>>),
    {
        Failure { message: owned(message), cause: None }
    }

    /// Builds a refusal from a message already built as a `String`.
    pub fn from_message(message: String) -> (failure: Self)
        ensures
            failure@ == (message@, None::<Seq<char>>),
    {
        Failure { message, cause: None }
    }

    /// Attaches `cause`, the rendered text of an underlying error, as this
    /// refusal's cause.
    pub fn caused_by(self, cause: &str) -> (failure: Self)
        ensures
            failure@ == (self@.0, Some(cause@)),
    {
        Failure { message: self.message, cause: Some(owned(cause)) }
    }

    /// The cause attached with [`Failure::caused_by`], if any.
    pub fn source(&self) -> (cause: Option<&str>)
        ensures
            match cause {
                Some(text) => self@.1 == Some(text@),
                None => self@.1 is None,
            },
    {
        match &self.cause {
            Some(cause) => Some(cause.as_str()),
            None => None,
        }
    }

    /// The refusal as a person reads it: `<message>`, or `<message>: <cause>`
    /// when a cause is attached.
    pub fn to_string(&self) -> (text: String)
        ensures
            text@ == failure_text(self@),
    {
        let mut text = owned(self.message.as_str());
        match &self.cause {
            Some(cause) => {
                text.append(": ");
                text.append(cause.as_str());
            },
            None => {},
        }
        text
    }
}

impl From<InvalidName> for Failure {
    fn from(error: InvalidName) -> (failure: Self)
        ensures
            failure@ == (
                invalid_name_message(error.text(), error.refused_for_spelling()),
                None::<Seq<char>>,
            ),
    {
        Failure::from_message(error.to_string())
    }
}

impl vstd::std_specs::convert::FromSpecImpl<InvalidName> for Failure {
    open spec fn obeys_from_spec() -> bool {
        false
    }

    open spec fn from_spec(error: InvalidName) -> Self {
        arbitrary()
    }
}

} // verus!
