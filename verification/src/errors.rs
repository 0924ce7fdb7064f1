//! The assembler's error taxonomy: every fatal condition the pipeline can
//! detect, each with the diagnostic text it is reported under.

use vstd::prelude::*;

verus! {

/// A fatal assembly error. The pipeline either fully succeeds or stops at
/// the first of these; none is recovered from.
#[derive(Clone, Copy, Debug, PartialEq, Eq, Structural)]
pub enum AsmError {
    /// A data-section line does not split into name, directive and value.
    MalformedData,
    /// A nameless data directive appeared with no prior named entry.
    DataNameNotFound,
    /// A numeric literal could not be parsed or does not fit 32 bits.
    InvalidNumber,
    /// A label declaration has no corresponding pre-scanned label entry.
    UndeclaredLabel,
    /// A pseudo-instruction operand names no declared datum.
    UndeclaredData,
    /// An instruction line does not split into mnemonic and operands.
    MalformedInstruction,
    /// A pseudo-instruction's operand list does not have the expected shape.
    MalformedOperands,
    /// A mnemonic that the instruction registry does not know.
    UnknownInstruction,
    /// A symbolic operand names no declared datum and no label.
    UnresolvedArgument,
    /// Fewer operands than the instruction's format requires.
    MissingOperands,
    /// A pseudo-instruction reached the encoder unexpanded.
    UnexpandedPseudo,
}

impl AsmError {
    /// The diagnostic text for this error.
    pub fn message(&self) -> (r: String)
        ensures
            r@ == self.spec_message(),
    {
        proof {
            reveal_strlit("Invalid data declaration.");
            reveal_strlit("Data name not found.");
            reveal_strlit("Failed to parse number.");
            reveal_strlit("Use of undeclared label.");
            reveal_strlit("Use of undeclared data.");
            reveal_strlit("Invalid instruction.");
            reveal_strlit("Failed to parse arguments.");
            reveal_strlit("Unknown instruction.");
            reveal_strlit("Failed to resolve argument value.");
            reveal_strlit("Missing instruction operands.");
            reveal_strlit("A pseudo instruction found.");
        }
        match self {
            AsmError::MalformedData => String::from_str("Invalid data declaration."),
            AsmError::DataNameNotFound => String::from_str("Data name not found."),
            AsmError::InvalidNumber => String::from_str("Failed to parse number."),
            AsmError::UndeclaredLabel => String::from_str("Use of undeclared label."),
            AsmError::UndeclaredData => String::from_str("Use of undeclared data."),
            AsmError::MalformedInstruction => String::from_str("Invalid instruction."),
            AsmError::MalformedOperands => String::from_str("Failed to parse arguments."),
            AsmError::UnknownInstruction => String::from_str("Unknown instruction."),
            AsmError::UnresolvedArgument => String::from_str("Failed to resolve argument value."),
            AsmError::MissingOperands => String::from_str("Missing instruction operands."),
            AsmError::UnexpandedPseudo => String::from_str("A pseudo instruction found."),
        }
    }

    /// The diagnostic text, as a sequence of characters.
    pub open spec fn spec_message(&self) -> Seq<char> {
        match self {
            AsmError::MalformedData => "Invalid data declaration."@,
            AsmError::DataNameNotFound => "Data name not found."@,
            AsmError::InvalidNumber => "Failed to parse number."@,
            AsmError::UndeclaredLabel => "Use of undeclared label."@,
            AsmError::UndeclaredData => "Use of undeclared data."@,
            AsmError::MalformedInstruction => "Invalid instruction."@,
            AsmError::MalformedOperands => "Failed to parse arguments."@,
            AsmError::UnknownInstruction => "Unknown instruction."@,
            AsmError::UnresolvedArgument => "Failed to resolve argument value."@,
            AsmError::MissingOperands => "Missing instruction operands."@,
            AsmError::UnexpandedPseudo => "A pseudo instruction found."@,
        }
    }
}

} // verus!
