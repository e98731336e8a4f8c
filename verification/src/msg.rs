//! The ballot's public API: what can be sent to it and what comes back.

use vstd::prelude::*;

use crate::state::{Proposal, Voter};

verus! {

/// Sent once, when the ballot is deployed. Order matters: the first name is
/// proposal `0`.
#[derive(Debug, PartialEq)]
pub struct InstantiateMsg {
    pub proposals: Vec<String>,
}

/// State-changing calls.
#[derive(Debug, PartialEq)]
pub enum ExecuteMsg {
    /// Chairperson only. Grants `voter` a weight of 1.
    GiveRightToVote { voter: String },
    /// Cast the sender's weight for the proposal at this index. Final.
    Vote { proposal: u32 },
    /// Hand the sender's weight to another address, following its chain of
    /// delegations to the end. Final.
    Delegate { to: String },
}

/// Read-only calls.
#[derive(Debug, PartialEq)]
pub enum QueryMsg {
    Chairperson {},
    Proposals {},
    Voter { address: String },
    WinningProposal {},
    WinnerName {},
}

#[derive(Debug, PartialEq)]
pub struct ChairpersonResponse {
    pub chairperson: String,
}

#[derive(Debug, PartialEq)]
pub struct ProposalsResponse {
    pub proposals: Vec<Proposal>,
}

#[derive(Debug, PartialEq)]
pub struct VoterResponse {
    /// `None` if this address was never granted the right to vote.
    pub voter: Option<Voter>,
}

#[derive(Debug, PartialEq)]
pub struct WinningProposalResponse {
    pub index: u32,
    pub vote_count: u64,
    /// True when another proposal has the same count; `index` is then the
    /// lowest of the tied proposals.
    pub tied: bool,
}

#[derive(Debug, PartialEq)]
pub struct WinnerNameResponse {
    pub name: String,
    pub vote_count: u64,
    pub tied: bool,
}

/// The answer to a `QueryMsg`, one variant per query.
#[derive(Debug, PartialEq)]
pub enum QueryAnswer {
    Chairperson(ChairpersonResponse),
    Proposals(ProposalsResponse),
    Voter(VoterResponse),
    WinningProposal(WinningProposalResponse),
    WinnerName(WinnerNameResponse),
}

} // verus!
