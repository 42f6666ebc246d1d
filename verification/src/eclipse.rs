//! The eclipse scenario in which attackers monopolize a routing-table bucket
//! through incoming connections. The scenario's orchestration is outside
//! this library; only its configuration marker lives here.
use vstd::prelude::*;

verus! {

/// The scenario marker: the attack needs no configuration of its own.
pub struct MonopolizingByIncomingNodes {}

impl MonopolizingByIncomingNodes {
    pub fn new() -> MonopolizingByIncomingNodes {
        MonopolizingByIncomingNodes {  }
    }
}

} // verus!
