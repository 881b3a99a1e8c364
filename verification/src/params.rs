//! What a node is told when it is started.

use vstd::prelude::*;

verus! {

/// Settings of a node.
#[derive(Clone, Debug)]
pub struct ChainXParams {
    /// Name under which the validator is registered. A node that is given a key must be
    /// given the name that goes with it.
    pub validator_name: Option<String>,
}

} // verus!
