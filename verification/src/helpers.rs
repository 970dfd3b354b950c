//! Lookahead helpers for the scanner.

use vstd::prelude::*;
use vstd::string::StrSliceExecFns;

use crate::scanner_struct::Scanner;

verus! {

/// Checks whether the character one past the cursor matches `expected`.
/// - If it does, returns `Ok(())`.
/// - If it does not, or there is no such character, returns `Err(())`.
///
/// The scanner itself is left untouched: this is lookahead, not consumption.
pub fn match_next(scanner: &mut Scanner<'_>, expected: char) -> (r: Result<(), ()>)
    ensures
        *final(scanner) == *old(scanner),
        r is Ok <==> (old(scanner).current + 1 < old(scanner).source@.len()
            && old(scanner).source@[old(scanner).current as int + 1] == expected),
{
    let len = scanner.source.unicode_len();
    if scanner.current < len && scanner.current + 1 < len {
        let c = scanner.source.get_char(scanner.current + 1);
        if c == expected {
            Ok(())
        } else {
            Err(())
        }
    } else {
        Err(())
    }
}

} // verus!
