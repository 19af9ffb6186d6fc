//! Structured failures.
//!
//! Two user-facing classes: a `DefinitionError` means the author of the
//! argument definition stream wrote something invalid; a `UserError` means
//! the invoker supplied bad runtime input.  Both are terminal: the engine
//! surfaces a single descriptive failure and the caller owns the exit path.

use vstd::prelude::*;

verus! {

/// A mistake in the definition token stream.  Always reported before any
/// runtime token is processed.
#[derive(Debug)]
pub enum DefinitionError {
    /// An attribute marker required a following value and the stream ended.
    MissingAttributeValue { attribute: String },
    /// The position after `--ordinal`/`--order`/`--ord` is not a `u16`.
    InvalidOrdinal { value: String },
    /// A specification had neither an explicit name nor a flag to derive one from.
    NoNameOrFlags,
    /// The specification can never receive a value: no flags, no ordinals, not catch-all.
    NotSettable { name: String },
    /// Boolean specifications do not compose with `--repeated`.
    BooleanRepeated { name: String },
    /// Boolean specifications do not compose with `--catch-all`.
    BooleanCatchAll { name: String },
    /// Boolean specifications do not compose with `--ordinal`.
    BooleanOrdinal { name: String },
    /// Unknown top-level token in the definition stream.
    UnrecognizedOption { token: String },
    /// The value after `--columns`/`--cols` is not a `usize`.
    InvalidColumns { value: String },
    /// Two specifications declared the same name.
    DuplicateName { name: String },
}

/// The mathematical shape of a `DefinitionError`: each text field viewed as
/// its character sequence.
pub enum DefErrModel {
    MissingAttributeValue { attribute: Seq<char> },
    InvalidOrdinal { value: Seq<char> },
    NoNameOrFlags,
    NotSettable { name: Seq<char> },
    BooleanRepeated { name: Seq<char> },
    BooleanCatchAll { name: Seq<char> },
    BooleanOrdinal { name: Seq<char> },
    UnrecognizedOption { token: Seq<char> },
    InvalidColumns { value: Seq<char> },
    DuplicateName { name: Seq<char> },
}

impl View for DefinitionError {
    type V = DefErrModel;

    open spec fn view(&self) -> DefErrModel {
        match self {
            DefinitionError::MissingAttributeValue { attribute } => DefErrModel::MissingAttributeValue { attribute: attribute@ },
            DefinitionError::InvalidOrdinal { value } => DefErrModel::InvalidOrdinal { value: value@ },
            DefinitionError::NoNameOrFlags => DefErrModel::NoNameOrFlags,
            DefinitionError::NotSettable { name } => DefErrModel::NotSettable { name: name@ },
            DefinitionError::BooleanRepeated { name } => DefErrModel::BooleanRepeated { name: name@ },
            DefinitionError::BooleanCatchAll { name } => DefErrModel::BooleanCatchAll { name: name@ },
            DefinitionError::BooleanOrdinal { name } => DefErrModel::BooleanOrdinal { name: name@ },
            DefinitionError::UnrecognizedOption { token } => DefErrModel::UnrecognizedOption { token: token@ },
            DefinitionError::InvalidColumns { value } => DefErrModel::InvalidColumns { value: value@ },
            DefinitionError::DuplicateName { name } => DefErrModel::DuplicateName { name: name@ },
        }
    }
}

/// Bad runtime input from the invoker, reported with the offending token or
/// value and the specification name.
#[derive(Debug)]
pub enum UserError {
    /// A bare flag needed a value and the token stream was exhausted.
    NoValueForArgument { name: String },
    /// The value of a boolean specification is neither `true` nor `false`.
    NonBooleanValue { name: String, value: String },
    /// The value of an integer specification is not a 64-bit signed integer.
    NonIntegerValue { name: String, value: String },
    /// The value of a float specification is not a 64-bit float literal.
    NonNumericValue { name: String, value: String },
    /// The value of a choice specification matches none of its options.
    UnknownChoiceValue { name: String, value: String },
    /// A token matched no flag, no ordinal, and no catch-all was available.
    ExtraArgument { token: String },
    /// A specification that is not `--repeated` received more than one value.
    MultipleValues { name: String },
    /// A `--required` specification received no value.
    MissingArgument { name: String },
}

/// The mathematical shape of a `UserError`.
pub enum UserErrModel {
    NoValueForArgument { name: Seq<char> },
    NonBooleanValue { name: Seq<char>, value: Seq<char> },
    NonIntegerValue { name: Seq<char>, value: Seq<char> },
    NonNumericValue { name: Seq<char>, value: Seq<char> },
    UnknownChoiceValue { name: Seq<char>, value: Seq<char> },
    ExtraArgument { token: Seq<char> },
    MultipleValues { name: Seq<char> },
    MissingArgument { name: Seq<char> },
}

impl View for UserError {
    type V = UserErrModel;

    open spec fn view(&self) -> UserErrModel {
        match self {
            UserError::NoValueForArgument { name } => UserErrModel::NoValueForArgument { name: name@ },
            UserError::NonBooleanValue { name, value } => UserErrModel::NonBooleanValue { name: name@, value: value@ },
            UserError::NonIntegerValue { name, value } => UserErrModel::NonIntegerValue { name: name@, value: value@ },
            UserError::NonNumericValue { name, value } => UserErrModel::NonNumericValue { name: name@, value: value@ },
            UserError::UnknownChoiceValue { name, value } => UserErrModel::UnknownChoiceValue { name: name@, value: value@ },
            UserError::ExtraArgument { token } => UserErrModel::ExtraArgument { token: token@ },
            UserError::MultipleValues { name } => UserErrModel::MultipleValues { name: name@ },
            UserError::MissingArgument { name } => UserErrModel::MissingArgument { name: name@ },
        }
    }
}

} // verus!
