//! The options of the command line.

use std::path::PathBuf;
use vstd::prelude::*;

verus! {

/// `std::path::PathBuf`, carried through as it is: nothing is claimed of
/// what a path holds.
#[verifier::external_type_specification]
#[verifier::external_body]
pub struct ExPathBuf(PathBuf);

/// What the user asks for on the command line.
pub struct Cli {
    /// Path to the file to be read
    pub path: PathBuf,
    /// Display response headers
    pub verbose: bool,
    /// If set, output won't be colored
    pub no_color: bool,
}

} // verus!
