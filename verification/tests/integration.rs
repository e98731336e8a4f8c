//! The ballot's behaviour, call by call, on addresses with Injective's `inj`
//! prefix, checked by CosmWasm's mock API just as the chain checks them.

use cosmwasm_std::testing::MockApi;
use cosmwasm_std::{Api, Response, StdError};

use voting_contract::contract::{execute, instantiate, query};
use voting_contract::msg::{
    ChairpersonResponse, ExecuteMsg, InstantiateMsg, ProposalsResponse, QueryAnswer, QueryMsg,
    VoterResponse, WinnerNameResponse, WinningProposalResponse,
};
use voting_contract::state::Ballot;
use voting_contract::ContractError;

fn api() -> MockApi {
    MockApi::default().with_prefix("inj")
}

/// The host's address check, as the chain runs it.
fn check(addr: String) -> Result<String, StdError> {
    api().addr_validate(&addr).map(|a| a.into_string())
}

fn addr(label: &str) -> String {
    api().addr_make(label).into_string()
}

/// Deploys a 3-option ballot. Returns it with the chairperson and three
/// other addresses.
fn setup() -> (Ballot, String, String, String, String) {
    let chair = addr("chairperson");
    let alice = addr("alice");
    let bob = addr("bob");
    let carol = addr("carol");
    let (ballot, _) = instantiate(
        chair.clone(),
        InstantiateMsg {
            proposals: vec!["Alpha".into(), "Beta".into(), "Gamma".into()],
        },
    )
    .unwrap();
    (ballot, chair, alice, bob, carol)
}

fn try_exec(ballot: &mut Ballot, who: &str, msg: ExecuteMsg) -> Result<Response, ContractError> {
    execute(ballot, who.to_string(), msg, check)
}

fn grant(ballot: &mut Ballot, chair: &str, voter: &str) {
    try_exec(
        ballot,
        chair,
        ExecuteMsg::GiveRightToVote {
            voter: voter.to_string(),
        },
    )
    .unwrap();
}

fn vote(ballot: &mut Ballot, who: &str, proposal: u32) {
    try_exec(ballot, who, ExecuteMsg::Vote { proposal }).unwrap();
}

fn delegate(ballot: &mut Ballot, from: &str, to: &str) {
    try_exec(ballot, from, ExecuteMsg::Delegate { to: to.to_string() }).unwrap();
}

fn counts(ballot: &Ballot) -> Vec<u64> {
    match query(ballot, QueryMsg::Proposals {}, check).unwrap() {
        QueryAnswer::Proposals(ProposalsResponse { proposals }) => {
            proposals.iter().map(|p| p.vote_count).collect()
        }
        other => panic!("unexpected answer {other:?}"),
    }
}

fn voter_record(ballot: &Ballot, who: &str) -> VoterResponse {
    match query(
        ballot,
        QueryMsg::Voter {
            address: who.to_string(),
        },
        check,
    )
    .unwrap()
    {
        QueryAnswer::Voter(v) => v,
        other => panic!("unexpected answer {other:?}"),
    }
}

fn weight_of(ballot: &Ballot, who: &str) -> u64 {
    voter_record(ballot, who).voter.map(|v| v.weight).unwrap_or(0)
}

fn winner(ballot: &Ballot) -> WinnerNameResponse {
    match query(ballot, QueryMsg::WinnerName {}, check).unwrap() {
        QueryAnswer::WinnerName(w) => w,
        other => panic!("unexpected answer {other:?}"),
    }
}

fn winning(ballot: &Ballot) -> WinningProposalResponse {
    match query(ballot, QueryMsg::WinningProposal {}, check).unwrap() {
        QueryAnswer::WinningProposal(w) => w,
        other => panic!("unexpected answer {other:?}"),
    }
}

// --- instantiate ------------------------------------------------------------

#[test]
fn deployer_becomes_chairperson_and_can_vote() {
    let (ballot, chair, ..) = setup();

    let res = query(&ballot, QueryMsg::Chairperson {}, check).unwrap();
    assert_eq!(
        res,
        QueryAnswer::Chairperson(ChairpersonResponse {
            chairperson: chair.clone()
        })
    );

    assert_eq!(weight_of(&ballot, &chair), 1);
    assert_eq!(counts(&ballot), vec![0, 0, 0]);
}

#[test]
fn empty_ballot_is_rejected() {
    let chair = addr("chairperson");
    let err = instantiate(chair, InstantiateMsg { proposals: vec![] }).unwrap_err();
    assert_eq!(err, ContractError::NoProposals {});
}

#[test]
fn duplicate_proposal_names_are_rejected() {
    let chair = addr("chairperson");
    let err = instantiate(
        chair,
        InstantiateMsg {
            proposals: vec!["Alpha".into(), "Alpha".into()],
        },
    )
    .unwrap_err();
    assert_eq!(
        err,
        ContractError::DuplicateProposal {
            name: "Alpha".into()
        }
    );
}

// --- giveRightToVote --------------------------------------------------------

#[test]
fn chairperson_grants_voting_rights() {
    let (mut ballot, chair, alice, ..) = setup();

    assert_eq!(weight_of(&ballot, &alice), 0);
    grant(&mut ballot, &chair, &alice);
    assert_eq!(weight_of(&ballot, &alice), 1);
}

#[test]
fn non_chairperson_cannot_grant_voting_rights() {
    let (mut ballot, _chair, alice, bob, _) = setup();

    let err = try_exec(
        &mut ballot,
        &alice,
        ExecuteMsg::GiveRightToVote {
            voter: bob.to_string(),
        },
    )
    .unwrap_err();
    assert_eq!(err, ContractError::NotChairperson {});
}

#[test]
fn granting_twice_is_rejected() {
    let (mut ballot, chair, alice, ..) = setup();
    grant(&mut ballot, &chair, &alice);

    let err = try_exec(
        &mut ballot,
        &chair,
        ExecuteMsg::GiveRightToVote {
            voter: alice.to_string(),
        },
    )
    .unwrap_err();
    assert_eq!(
        err,
        ContractError::AlreadyHasRightToVote {
            address: alice.to_string()
        }
    );
}

// --- vote -------------------------------------------------------------------

#[test]
fn voting_adds_weight_to_the_chosen_proposal() {
    let (mut ballot, chair, alice, bob, _) = setup();
    grant(&mut ballot, &chair, &alice);
    grant(&mut ballot, &chair, &bob);

    vote(&mut ballot, &alice, 0);
    vote(&mut ballot, &bob, 2);
    vote(&mut ballot, &chair, 0);

    assert_eq!(counts(&ballot), vec![2, 0, 1]);
    assert_eq!(winner(&ballot).name, "Alpha");
}

#[test]
fn a_stranger_cannot_vote() {
    let (mut ballot, _chair, alice, ..) = setup();

    let err = try_exec(&mut ballot, &alice, ExecuteMsg::Vote { proposal: 0 }).unwrap_err();
    assert_eq!(
        err,
        ContractError::NoRightToVote {
            address: alice.to_string()
        }
    );
}

#[test]
fn voting_twice_is_rejected() {
    let (mut ballot, chair, alice, ..) = setup();
    grant(&mut ballot, &chair, &alice);
    vote(&mut ballot, &alice, 0);

    let err = try_exec(&mut ballot, &alice, ExecuteMsg::Vote { proposal: 1 }).unwrap_err();
    assert_eq!(
        err,
        ContractError::AlreadyVoted {
            address: alice.to_string()
        }
    );
    assert_eq!(counts(&ballot), vec![1, 0, 0]);
}

#[test]
fn voting_for_a_nonexistent_proposal_is_rejected() {
    let (mut ballot, chair, alice, ..) = setup();
    grant(&mut ballot, &chair, &alice);

    let err = try_exec(&mut ballot, &alice, ExecuteMsg::Vote { proposal: 9 }).unwrap_err();
    assert_eq!(err, ContractError::ProposalNotFound { index: 9, count: 3 });
}

// --- delegate ---------------------------------------------------------------

#[test]
fn delegation_moves_weight_to_someone_who_has_not_voted() {
    let (mut ballot, chair, alice, bob, _) = setup();
    grant(&mut ballot, &chair, &alice);
    grant(&mut ballot, &chair, &bob);

    delegate(&mut ballot, &alice, &bob);

    assert_eq!(weight_of(&ballot, &alice), 1);
    assert_eq!(weight_of(&ballot, &bob), 2);
    assert_eq!(counts(&ballot), vec![0, 0, 0]);

    vote(&mut ballot, &bob, 1);
    assert_eq!(counts(&ballot), vec![0, 2, 0]);
}

#[test]
fn delegating_to_someone_who_already_voted_counts_immediately() {
    let (mut ballot, chair, alice, bob, _) = setup();
    grant(&mut ballot, &chair, &alice);
    grant(&mut ballot, &chair, &bob);

    vote(&mut ballot, &bob, 2);
    assert_eq!(counts(&ballot), vec![0, 0, 1]);

    delegate(&mut ballot, &alice, &bob);
    assert_eq!(counts(&ballot), vec![0, 0, 2]);
}

#[test]
fn delegation_chains_collapse_to_the_final_delegate() {
    let (mut ballot, chair, alice, bob, carol) = setup();
    grant(&mut ballot, &chair, &alice);
    grant(&mut ballot, &chair, &bob);
    grant(&mut ballot, &chair, &carol);

    delegate(&mut ballot, &bob, &carol);
    delegate(&mut ballot, &alice, &bob);

    assert_eq!(weight_of(&ballot, &carol), 3);

    vote(&mut ballot, &carol, 0);
    assert_eq!(counts(&ballot), vec![3, 0, 0]);
}

#[test]
fn self_delegation_is_rejected() {
    let (mut ballot, chair, alice, ..) = setup();
    grant(&mut ballot, &chair, &alice);

    let err = try_exec(
        &mut ballot,
        &alice,
        ExecuteMsg::Delegate {
            to: alice.to_string(),
        },
    )
    .unwrap_err();
    assert_eq!(err, ContractError::SelfDelegation {});
}

#[test]
fn delegation_loops_are_rejected() {
    let (mut ballot, chair, alice, bob, _) = setup();
    grant(&mut ballot, &chair, &alice);
    grant(&mut ballot, &chair, &bob);

    delegate(&mut ballot, &bob, &alice);

    let err = try_exec(
        &mut ballot,
        &alice,
        ExecuteMsg::Delegate {
            to: bob.to_string(),
        },
    )
    .unwrap_err();
    assert_eq!(err, ContractError::DelegationLoop {});
}

#[test]
fn cannot_delegate_to_someone_without_voting_rights() {
    let (mut ballot, chair, alice, bob, _) = setup();
    grant(&mut ballot, &chair, &alice);

    let err = try_exec(
        &mut ballot,
        &alice,
        ExecuteMsg::Delegate {
            to: bob.to_string(),
        },
    )
    .unwrap_err();
    assert_eq!(err, ContractError::DelegateHasNoRightToVote {});
}

#[test]
fn cannot_delegate_after_voting() {
    let (mut ballot, chair, alice, bob, _) = setup();
    grant(&mut ballot, &chair, &alice);
    grant(&mut ballot, &chair, &bob);
    vote(&mut ballot, &alice, 0);

    let err = try_exec(
        &mut ballot,
        &alice,
        ExecuteMsg::Delegate {
            to: bob.to_string(),
        },
    )
    .unwrap_err();
    assert_eq!(
        err,
        ContractError::AlreadyVoted {
            address: alice.to_string()
        }
    );
}

// --- winner -----------------------------------------------------------------

#[test]
fn winner_reports_index_name_and_count() {
    let (mut ballot, chair, alice, bob, _) = setup();
    grant(&mut ballot, &chair, &alice);
    grant(&mut ballot, &chair, &bob);

    vote(&mut ballot, &alice, 1);
    vote(&mut ballot, &bob, 1);
    vote(&mut ballot, &chair, 0);

    let res = winning(&ballot);
    assert_eq!((res.index, res.vote_count, res.tied), (1, 2, false));
    assert_eq!(winner(&ballot).name, "Beta");
}

#[test]
fn ties_are_flagged_rather_than_hidden() {
    let (mut ballot, chair, alice, ..) = setup();
    grant(&mut ballot, &chair, &alice);

    vote(&mut ballot, &chair, 0);
    vote(&mut ballot, &alice, 1);

    let res = winner(&ballot);
    assert!(res.tied);
    assert_eq!(res.name, "Alpha");
    assert_eq!(res.vote_count, 1);
}

#[test]
fn a_ballot_with_no_votes_is_a_tie_at_zero() {
    let (ballot, ..) = setup();

    let res = winner(&ballot);
    assert!(res.tied);
    assert_eq!(res.vote_count, 0);
}
