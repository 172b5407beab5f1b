//! Run configuration. Reading it from the command line is the launcher's
//! concern; the core only consumes the resulting flags.

use vstd::prelude::*;

verus! {

/// Whether container attribution is attempted this run.
#[derive(Debug, Clone, Copy, PartialEq, Eq, Structural)]
pub struct Args {
    pub docker_support: bool,
}

} // verus!
