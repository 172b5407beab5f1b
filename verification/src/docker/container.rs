//! A running container as the attribution engine sees it: identity plus the
//! host-visible PID of its top-level (init) process, which keys the
//! container index.

use vstd::prelude::*;

use crate::docker::docker::Id;

verus! {

#[derive(Debug, Clone, PartialEq, Eq)]
pub struct Container {
    pub id: Id,
    pub name: String,
    pub state: State,
}

#[derive(Debug, Clone, PartialEq, Eq)]
pub struct State {
    pub pid: u32,
}

/// The spec-level image of a container record: id, init PID, name.
pub open spec fn ctr_matches(c: Container, t: (Seq<char>, nat, Seq<char>)) -> bool {
    &&& c.id@ == t.0
    &&& c.state.pid as nat == t.1
    &&& c.name@ == t.2
}

} // verus!
