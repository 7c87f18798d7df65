//! The error taxonomy: every failure is an expected, recoverable outcome
//! returned as a result value.

use vstd::prelude::*;

verus! {

/// Failure of `Question::set_decision`: the question already holds a decision.
#[derive(Debug, PartialEq, Eq, Structural)]
pub enum SetDecisionError {
    AlreadyExists,
}

/// Failure of `Registry::add_tag`: the tag is already registered.
#[derive(Debug, PartialEq, Eq, Structural)]
pub enum AddTagErrors {
    AlreadyExists,
}

/// Failure of `Registry::add_question`.
#[derive(Debug)]
pub enum AddQuestionError {
    /// A question with the same identifier is already admitted.
    AlreadyExists,
    /// The question references tags unknown to the registry; carries every
    /// offending tag.
    UsesNonExistentTags(Vec<String>),
}

/// Failure of `Registry::get_question`.
#[derive(Debug, PartialEq, Eq, Structural)]
pub enum GetQuestionError {
    /// The identifier string is not a well-formed identifier.
    InvalidUUID,
    /// The identifier is well formed but no admitted question carries it.
    DoesNotExist,
}

} // verus!
