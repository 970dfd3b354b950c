//! Recoverable lexical errors, collected alongside the token sequence.

use vstd::prelude::*;

verus! {

/// One recoverable lexical error.
///
/// Diagnostics are recorded next to, not instead of, the token sequence: the
/// scanner still returns every token it recognized. Lines are 0-based and
/// offsets count characters from the start of the source.
#[derive(Debug, Clone, PartialEq)]
pub enum Diagnostic {
    /// A character matched no lexical rule; the scanner skipped it and went
    /// on with the next character.
    UnrecognizedCharacter { line: usize, offset: usize, ch: char },
    /// A string literal's closing delimiter was never found before the end
    /// of the input; `line` is the line on which the literal started.
    UnterminatedString { line: usize },
}

/// The mathematical model of a [`Diagnostic`].
#[verifier::ext_equal]
pub enum SpecDiagnostic {
    UnrecognizedCharacter { line: nat, offset: nat, ch: char },
    UnterminatedString { line: nat },
}

impl View for Diagnostic {
    type V = SpecDiagnostic;

    open spec fn view(&self) -> SpecDiagnostic {
        match self {
            Diagnostic::UnrecognizedCharacter { line, offset, ch } => {
                SpecDiagnostic::UnrecognizedCharacter {
                    line: *line as nat,
                    offset: *offset as nat,
                    ch: *ch,
                }
            },
            Diagnostic::UnterminatedString { line } => {
                SpecDiagnostic::UnterminatedString { line: *line as nat }
            },
        }
    }
}

impl DeepView for Diagnostic {
    type V = SpecDiagnostic;

    open spec fn deep_view(&self) -> SpecDiagnostic {
        self.view()
    }
}

} // verus!
