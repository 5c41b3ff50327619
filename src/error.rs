use vstd::prelude::*;

verus! {

/// The ways in which a [`crate::Node`] can be asked for the wrong thing.
#[derive(Debug, PartialEq, Eq, Clone, Copy, Structural)]
pub enum Error {
    /// The node was asked for the decision it continues to, but it holds an answer.
    DecisionIsNotABranch,
    /// The node was asked for its answer, but it continues to another decision.
    DecisionIsNotAAnswer,
}

impl Error {
    /// The message that describes the error.
    pub fn message(&self) -> (r: &'static str)
        ensures
            *self == Error::DecisionIsNotABranch ==> r@ == "The decision is not a branch."@,
            *self == Error::DecisionIsNotAAnswer ==> r@ == "The decision is not an answer."@,
    {
        match self {
            Error::DecisionIsNotABranch => "The decision is not a branch.",
            Error::DecisionIsNotAAnswer => "The decision is not an answer.",
        }
    }
}

pub type Result<R> = core::result::Result<R, Error>;

} // verus!
