//! The newer run-configuration surface, with the vendor-neutral flag name.

use vstd::prelude::*;

verus! {

/// Whether container attribution is attempted this run.
#[derive(Debug, Clone, Copy, PartialEq, Eq, Structural)]
pub struct Args {
    pub container_support: bool,
}

} // verus!
