//! Contains the `Scanner` struct: a single-use cursor over one source text.

use vstd::prelude::*;
use vstd::string::StrSliceExecFns;

use crate::diagnostics::{Diagnostic, SpecDiagnostic};
use crate::scan_model::{scan_at, ScanOut};
use crate::token::{SpecToken, Token};
use crate::token_type::TokenType;

verus! {

/// The outcome of one pass of the per-lexeme recognizer.
#[derive(Debug, Clone, Copy, PartialEq, Eq, Structural)]
pub enum ScanTokenResult {
    /// A token was recognized; the caller appends it, with the lexeme
    /// running from `start` to `current`.
    ///
    /// This is the normal case.
    TokenFound(TokenType),
    /// A token was recognized and already appended to the `tokens` vector.
    ///
    /// This is used when the scan pass itself decides how the token is
    /// added, as for string literals with their payload.
    TokenFoundAndAdded,
    /// No token came out of this pass.
    ///
    /// This is normal and happens for skipped whitespace, a consumed
    /// comment, or a skipped unrecognized character.
    NoTokenFromScanPass,
    /// The end of the input was reached.
    EndOfFile,
}

/// The scanner struct.
pub struct Scanner<'a> {
    /// The raw source text, read-only for the scanner's lifetime.
    pub source: &'a str,
    /// The tokens accumulated so far; append-only.
    pub tokens: Vec<Token>,
    /// The recoverable lexical errors found so far; append-only.
    pub diagnostics: Vec<Diagnostic>,
    /// Character offset of the first character of the lexeme currently
    /// being recognized.
    pub start: usize,
    /// Character offset of the next character to be examined; never less
    /// than `start`.
    pub current: usize,
    /// The character at `current`, or `None` if `current` is at or past the
    /// end of the source. Cached, and refreshed together with `current`.
    pub current_char: Option<char>,
    /// The 0-based line `current` is on; monotonically non-decreasing.
    pub line: usize,
}

impl<'a> Scanner<'a> {
    /// The scanner's internal invariant: the offsets are ordered and inside
    /// the source, the line counter never exceeds the number of characters
    /// consumed, and the cached character agrees with `current`.
    pub open spec fn wf(self) -> bool {
        &&& self.start <= self.current <= self.source@.len()
        &&& self.line <= self.current
        &&& self.current_char == (if self.current < self.source@.len() {
            Some(self.source@[self.current as int])
        } else {
            None::<char>
        })
    }

    /// The models of the tokens accumulated so far.
    pub open spec fn tokens_model(self) -> Seq<SpecToken> {
        Seq::new(self.tokens@.len(), |i: int| self.tokens@[i]@)
    }

    /// The models of the diagnostics recorded so far.
    pub open spec fn diags_model(self) -> Seq<SpecDiagnostic> {
        Seq::new(self.diagnostics@.len(), |i: int| self.diagnostics@[i]@)
    }

    /// What the rest of the scan, from the cursor's position on, produces.
    pub open spec fn remaining(self) -> ScanOut {
        scan_at(self.source@, self.current as nat, self.line as nat)
    }

    /// Create a new `Scanner` over `source`, at its first character.
    pub fn new(source: &'a str) -> (r: Scanner<'a>)
        ensures
            r.wf(),
            r.source == source,
            r.tokens@ =~= Seq::<Token>::empty(),
            r.diagnostics@ =~= Seq::<Diagnostic>::empty(),
            r.start == 0,
            r.current == 0,
            r.line == 0,
    {
        let len = source.unicode_len();
        let current_char = if len > 0 {
            Some(source.get_char(0))
        } else {
            None
        };
        Scanner {
            source,
            tokens: Vec::new(),
            diagnostics: Vec::new(),
            start: 0,
            current: 0,
            current_char,
            line: 0,
        }
    }

    /// Move the cursor forward by `increment_by` characters and refresh the
    /// cached current character.
    pub fn advance(&mut self, increment_by: usize)
        requires
            old(self).current + increment_by <= old(self).source@.len(),
        ensures
            final(self).current == old(self).current + increment_by,
            final(self).source == old(self).source,
            final(self).tokens == old(self).tokens,
            final(self).diagnostics == old(self).diagnostics,
            final(self).start == old(self).start,
            final(self).line == old(self).line,
            final(self).current_char == (if final(self).current < final(self).source@.len() {
                Some(final(self).source@[final(self).current as int])
            } else {
                None::<char>
            }),
    {
        let len = self.source.unicode_len();
        self.current = self.current + increment_by;
        self.current_char = if self.current < len {
            Some(self.source.get_char(self.current))
        } else {
            None
        };
    }
}

} // verus!
