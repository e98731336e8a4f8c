//! Every way a call can be rejected. A rejected call changes nothing.

use vstd::prelude::*;
use cosmwasm_std::StdError;

verus! {

#[allow(inconsistent_fields)]
#[derive(Debug, PartialEq)]
pub enum ContractError {
    /// An error from CosmWasm itself, such as a malformed address.
    Std(StdError),
    NotChairperson {},
    NoProposals {},
    TooManyProposals { count: usize, max: usize },
    DuplicateProposal { name: String },
    NoRightToVote { address: String },
    AlreadyVoted { address: String },
    AlreadyHasRightToVote { address: String },
    SelfDelegation {},
    DelegationLoop {},
    DelegationChainTooLong { max: u32 },
    DelegateHasNoRightToVote {},
    ProposalNotFound { index: u32, count: usize },
    Overflow {},
}

} // verus!
