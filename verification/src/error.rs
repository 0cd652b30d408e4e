//! The errors of the library.

use crate::syntax::EvalError;
use vstd::prelude::*;

verus! {

/// What is wrong with a project file, or with a list of models that is no
/// valid project.
#[derive(Debug, Clone, Copy, PartialEq, Eq, Structural)]
pub enum SchemaFault {
    /// The bytes are no JSON document.
    NotJson,
    /// The document is not of the project file format.
    Malformed,
    /// The model at this index has an empty identifier.
    EmptyId(usize),
    /// The models at these two indices have the same identifier.
    DuplicateId(usize, usize),
    /// The model at this index refers to a model or a pin that does not
    /// exist: by a connection, as a jump target or as a speaker.
    DanglingReference(usize),
}

/// An operation that could not be carried out.
#[derive(Debug, PartialEq, Eq)]
pub enum Error {
    /// The database holds no project.
    NotLoaded,
    /// The interpreter has no cursor: `start` has not been called.
    NotStarted,
    /// No model, or no hierarchy node, has this identifier.
    NotFound(String),
    /// The model of this identifier is no user folder.
    NotAFolder(String),
    /// The interpreter waits for a choice.
    AwaitingChoice,
    /// This identifier is none of the pending choices.
    InvalidChoice(String),
    /// A script failed to evaluate.
    EvalError(EvalError),
    /// The project file cannot be read, or its models are no valid project.
    SchemaError(SchemaFault),
    /// `exhaust_maximally` took all its steps without reaching an event.
    Runaway,
    /// The walk cannot go on where the graph intends no end, or it took all
    /// its steps, or forked too often, without reaching an event.
    Stuck,
}

/// The mathematical content of an [`Error`].
pub enum Fault {
    NotLoaded,
    NotStarted,
    NotFound(Seq<char>),
    NotAFolder(Seq<char>),
    AwaitingChoice,
    InvalidChoice(Seq<char>),
    EvalError(EvalError),
    SchemaError(SchemaFault),
    Runaway,
    Stuck,
}

impl View for Error {
    type V = Fault;

    open spec fn view(&self) -> Fault {
        match self {
            Error::NotLoaded => Fault::NotLoaded,
            Error::NotStarted => Fault::NotStarted,
            Error::NotFound(id) => Fault::NotFound(id@),
            Error::NotAFolder(id) => Fault::NotAFolder(id@),
            Error::AwaitingChoice => Fault::AwaitingChoice,
            Error::InvalidChoice(id) => Fault::InvalidChoice(id@),
            Error::EvalError(e) => Fault::EvalError(*e),
            Error::SchemaError(f) => Fault::SchemaError(*f),
            Error::Runaway => Fault::Runaway,
            Error::Stuck => Fault::Stuck,
        }
    }
}

} // verus!
