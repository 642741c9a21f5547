//! The single error channel of the pipeline: lexical errors, parse errors and
//! reference-resolution errors, each carrying the source offset at which it
//! was detected, and for unknown references the name that failed to resolve.

use vstd::prelude::*;

verus! {

/// Why a compilation stopped. The pipeline is fail-fast: the first error at
/// any stage is the only one surfaced.
#[derive(Debug, Clone, PartialEq)]
pub enum SchemaError {
    /// A string literal was still open at end of input.
    UnterminatedString { offset: usize },
    /// A block comment did not reach nesting depth zero before end of input.
    UnterminatedComment { offset: usize },
    /// A character no token can start with.
    UnexpectedCharacter { offset: usize },
    /// A token of the wrong kind where a particular construct was required;
    /// `expected` names the construct and `found` the kind actually there.
    UnexpectedToken { expected: String, found: String, offset: usize },
    /// A keyword beginning a declaration was required.
    ExpectedDeclaration { offset: usize },
    /// End of input inside an unterminated object, array, enum or column body.
    UnexpectedEnd { offset: usize },
    /// A `${Name}` sentinel whose name no declaration carries, met while
    /// resolving references.
    UnknownReference { name: String },
    /// The compiler was handed a node that is not a schema root.
    ExpectedSchemaRoot,
}

/// The human-readable message of an error.
pub open spec fn spec_message(e: SchemaError) -> Seq<char> {
    match e {
        SchemaError::UnterminatedString { .. } => "Unterminated string"@,
        SchemaError::UnterminatedComment { .. } => "Unterminated block comment"@,
        SchemaError::UnexpectedCharacter { .. } => "Unexpected character"@,
        SchemaError::UnexpectedToken { expected, found, .. } => "Expected "@ + expected@
            + ", but found "@ + found@,
        SchemaError::ExpectedDeclaration { .. } => "Expected a declaration keyword"@,
        SchemaError::UnexpectedEnd { .. } => "Unexpected end of file"@,
        SchemaError::UnknownReference { name } => "Unknown reference: "@ + name@,
        SchemaError::ExpectedSchemaRoot => "Expected schema node at root level"@,
    }
}

impl SchemaError {
    /// The source offset at which the error was detected, where one is known.
    pub open spec fn spec_offset(self) -> Option<usize> {
        match self {
            SchemaError::UnterminatedString { offset } => Some(offset),
            SchemaError::UnterminatedComment { offset } => Some(offset),
            SchemaError::UnexpectedCharacter { offset } => Some(offset),
            SchemaError::UnexpectedToken { offset, .. } => Some(offset),
            SchemaError::ExpectedDeclaration { offset } => Some(offset),
            SchemaError::UnexpectedEnd { offset } => Some(offset),
            SchemaError::UnknownReference { .. } => None,
            SchemaError::ExpectedSchemaRoot => None,
        }
    }

    /// The source offset, as a value.
    pub fn offset(&self) -> (r: Option<usize>)
        ensures
            r == self.spec_offset(),
    {
        match self {
            SchemaError::UnterminatedString { offset } => Some(*offset),
            SchemaError::UnterminatedComment { offset } => Some(*offset),
            SchemaError::UnexpectedCharacter { offset } => Some(*offset),
            SchemaError::UnexpectedToken { offset, .. } => Some(*offset),
            SchemaError::ExpectedDeclaration { offset } => Some(*offset),
            SchemaError::UnexpectedEnd { offset } => Some(*offset),
            SchemaError::UnknownReference { .. } => None,
            SchemaError::ExpectedSchemaRoot => None,
        }
    }

    /// The human-readable message.
    pub fn message(&self) -> (r: String)
        ensures
            r@ == spec_message(*self),
    {
        match self {
            SchemaError::UnterminatedString { .. } => String::from_str("Unterminated string"),
            SchemaError::UnterminatedComment { .. } => String::from_str(
                "Unterminated block comment",
            ),
            SchemaError::UnexpectedCharacter { .. } => String::from_str("Unexpected character"),
            SchemaError::UnexpectedToken { expected, found, .. } => {
                let mut s = String::from_str("Expected ");
                s.append(expected.as_str());
                s.append(", but found ");
                s.append(found.as_str());
                s
            },
            SchemaError::ExpectedDeclaration { .. } => String::from_str(
                "Expected a declaration keyword",
            ),
            SchemaError::UnexpectedEnd { .. } => String::from_str("Unexpected end of file"),
            SchemaError::UnknownReference { name } => {
                let mut s = String::from_str("Unknown reference: ");
                s.append(name.as_str());
                s
            },
            SchemaError::ExpectedSchemaRoot => String::from_str(
                "Expected schema node at root level",
            ),
        }
    }
}

} // verus!
