//! What can go wrong, and how it is reported.
//!
//! Every failure is an ordinary result. An error that names an identifier
//! carries it as text; its view carries it as a sequence of characters, which
//! is what the contracts speak of.

use vstd::prelude::*;

verus! {

/// Why a value does not fit a datatype.
#[derive(Debug, Clone, Copy, PartialEq, Eq, Structural)]
pub enum ValidationError {
    /// The value is of another kind than the datatype.
    KindMismatch,
    /// A number lies outside the bounds of the datatype.
    OutOfRange,
    /// A string is longer than the datatype allows.
    LengthExceeded,
    /// An enumeration value names no value that the datatype declares.
    UnknownEnumValue,
}

/// The namespaces of identifiers.
#[derive(Debug, Clone, Copy, PartialEq, Eq, Structural)]
pub enum EntityKind {
    DatatypeDefinition,
    SpecType,
    AttributeDefinition,
    SpecObject,
    SpecRelation,
    Specification,
    SpecHierarchy,
    ToolExtension,
}

/// An entity that points at a requirement.
#[derive(Debug, Clone, PartialEq, Eq)]
pub enum Referrer {
    /// The relation with this identifier has it as source or target.
    Relation(String),
    /// A hierarchy node of a specification stands for it.
    Hierarchy { specification: String, node: String },
}

/// A `Referrer`, with identifiers as sequences of characters.
pub enum Reference {
    Relation(Seq<char>),
    Hierarchy { specification: Seq<char>, node: Seq<char> },
}

impl View for Referrer {
    type V = Reference;

    open spec fn view(&self) -> Reference {
        match self {
            Referrer::Relation(id) => Reference::Relation(id@),
            Referrer::Hierarchy { specification, node } => Reference::Hierarchy {
                specification: specification@,
                node: node@,
            },
        }
    }
}

/// The referrers in `by`, each with its identifiers as sequences of
/// characters.
pub open spec fn references(by: Seq<Referrer>) -> Seq<Reference> {
    by.map_values(|r: Referrer| r@)
}

/// Why an operation on a document was refused.
#[derive(Debug, Clone, PartialEq, Eq)]
pub enum ModelError {
    /// An identifier that the entity refers to names nothing of that kind.
    DanglingReference(EntityKind, String),
    /// The identifier is already taken in its namespace.
    DuplicateIdentifier(String),
    /// A hierarchy would hold the same node identifier twice.
    CyclicHierarchy,
    /// The requirement is still pointed at, by these.
    ReferencedElsewhere(Vec<Referrer>),
    /// A value is of another kind than its datatype.
    KindMismatch,
    /// A number lies outside the bounds of its datatype.
    OutOfRange,
    /// A string is longer than its datatype allows.
    LengthExceeded,
    /// An enumeration value names no value that its datatype declares.
    UnknownEnumValue,
}

/// A `ModelError`, with identifiers as sequences of characters.
pub enum Fault {
    DanglingReference(EntityKind, Seq<char>),
    DuplicateIdentifier(Seq<char>),
    CyclicHierarchy,
    ReferencedElsewhere(Seq<Reference>),
    KindMismatch,
    OutOfRange,
    LengthExceeded,
    UnknownEnumValue,
}

impl View for ModelError {
    type V = Fault;

    open spec fn view(&self) -> Fault {
        match self {
            ModelError::DanglingReference(kind, id) => Fault::DanglingReference(*kind, id@),
            ModelError::DuplicateIdentifier(id) => Fault::DuplicateIdentifier(id@),
            ModelError::CyclicHierarchy => Fault::CyclicHierarchy,
            ModelError::ReferencedElsewhere(by) => Fault::ReferencedElsewhere(references(by@)),
            ModelError::KindMismatch => Fault::KindMismatch,
            ModelError::OutOfRange => Fault::OutOfRange,
            ModelError::LengthExceeded => Fault::LengthExceeded,
            ModelError::UnknownEnumValue => Fault::UnknownEnumValue,
        }
    }
}

/// The fault that stands for a value that does not fit its datatype.
pub open spec fn validation_fault(error: ValidationError) -> Fault {
    match error {
        ValidationError::KindMismatch => Fault::KindMismatch,
        ValidationError::OutOfRange => Fault::OutOfRange,
        ValidationError::LengthExceeded => Fault::LengthExceeded,
        ValidationError::UnknownEnumValue => Fault::UnknownEnumValue,
    }
}

impl ModelError {
    /// The error that reports a value that does not fit its datatype.
    pub fn from_validation(error: ValidationError) -> (reported: ModelError)
        ensures
            reported@ == validation_fault(error),
    {
        match error {
            ValidationError::KindMismatch => ModelError::KindMismatch,
            ValidationError::OutOfRange => ModelError::OutOfRange,
            ValidationError::LengthExceeded => ModelError::LengthExceeded,
            ValidationError::UnknownEnumValue => ModelError::UnknownEnumValue,
        }
    }
}

} // verus!
