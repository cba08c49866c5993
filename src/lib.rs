use vstd::prelude::*;

pub mod anti_entropy;
pub mod discovery;
pub mod matcher;
pub mod model;
pub mod notifier;
pub mod resolver;
pub mod store;

verus! {

/// Proposal state as seen by the negotiation layer.
#[derive(Clone, Copy, Debug, PartialEq, Eq, Structural)]
pub enum State {
    Initial,
    Draft,
    Rejected,
    Accepted,
    Expired,
}

} // verus!
