//! The options an interpreter run is configured with. Parsing a command
//! line into them is a collaborator's concern, outside the library.

use vstd::prelude::*;

verus! {

/// Runtime options for one interpreter run.
#[derive(Debug, Clone)]
pub struct Args {
    /// Where the program text comes from.
    pub program: String,
    /// Initial size of the machine's tape, if given; never zero.
    pub cells: Option<usize>,
    /// Whether the end of the tape extends automatically.
    pub extensible: bool,
}

} // verus!
