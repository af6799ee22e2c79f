//! Plain values handed in by the surrounding program.

use vstd::prelude::*;

verus! {

/// The start-up parameters of one compilation: the path of the source
/// file to translate. Collecting them from the process arguments is the
/// caller's concern.
pub struct Parameters {
    pub file_path: String,
}

} // verus!
