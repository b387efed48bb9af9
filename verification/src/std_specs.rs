//! Contracts for the two items of the standard library that this crate uses
//! and that vstd leaves without one. Verus takes them on trust.

use vstd::prelude::*;

verus! {

/// `String::push` appends the given character to the end of the string and
/// leaves everything before it as it was.
pub assume_specification[ String::push ](s: &mut String, ch: char)
    ensures
        final(s)@ == old(s)@.push(ch),
;

/// `std::path::PathBuf`, a path on the file system. The library carries such
/// a value from its caller to whoever opens the file, and never looks inside.
#[verifier::external_type_specification]
#[verifier::external_body]
pub struct ExPathBuf(std::path::PathBuf);

} // verus!
