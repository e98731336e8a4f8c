//! Edge cases, response attributes and the ballot's laws on concrete runs.

use cosmwasm_std::testing::MockApi;
use cosmwasm_std::{Api, Response, StdError};

use voting_contract::contract::{
    delegate, execute, give_right_to_vote, instantiate, query, query_winner_name,
    query_winning_proposal, voter_response,
};
use voting_contract::msg::{ExecuteMsg, InstantiateMsg, QueryAnswer, QueryMsg};
use voting_contract::state::{Ballot, Proposal, Voter};
use voting_contract::ContractError;

fn api() -> MockApi {
    MockApi::default().with_prefix("inj")
}

fn check(addr: String) -> Result<String, StdError> {
    api().addr_validate(&addr).map(|a| a.into_string())
}

fn addr(label: &str) -> String {
    api().addr_make(label).into_string()
}

fn names(n: usize) -> Vec<String> {
    (0..n).map(|i| format!("P{i}")).collect()
}

fn fresh(chair: &str) -> Ballot {
    instantiate(
        chair.to_string(),
        InstantiateMsg {
            proposals: vec!["Alpha".into(), "Beta".into(), "Gamma".into()],
        },
    )
    .unwrap()
    .0
}

fn run(ballot: &mut Ballot, who: &str, msg: ExecuteMsg) -> Result<Response, ContractError> {
    execute(ballot, who.to_string(), msg, check)
}

fn grant(ballot: &mut Ballot, chair: &str, voter: &str) {
    run(
        ballot,
        chair,
        ExecuteMsg::GiveRightToVote {
            voter: voter.to_string(),
        },
    )
    .unwrap();
}

fn attrs(res: &Response) -> Vec<(String, String)> {
    res.attributes
        .iter()
        .map(|a| (a.key.clone(), a.value.clone()))
        .collect()
}

fn pair(k: &str, v: &str) -> (String, String) {
    (k.to_string(), v.to_string())
}

fn counts(ballot: &Ballot) -> Vec<u64> {
    ballot.proposals().iter().map(|p| p.vote_count).collect()
}

/// Vote counts plus the weight that voters still hold unused.
fn tally(ballot: &Ballot) -> u64 {
    let counted: u64 = counts(ballot).iter().sum();
    let unused: u64 = ballot
        .records()
        .iter()
        .filter(|(_, v)| !v.voted)
        .map(|(_, v)| v.weight)
        .sum();
    counted + unused
}

// --- instantiate ------------------------------------------------------------

#[test]
fn instantiate_reports_chairperson_and_proposal_count() {
    let chair = addr("chairperson");
    let (ballot, res) = instantiate(
        chair.clone(),
        InstantiateMsg {
            proposals: names(12),
        },
    )
    .unwrap();
    assert_eq!(
        attrs(&res),
        vec![
            pair("action", "instantiate"),
            pair("chairperson", &chair),
            pair("proposal_count", "12"),
        ]
    );
    assert_eq!(ballot.chairperson(), &chair);
    assert_eq!(ballot.proposals().len(), 12);
    assert_eq!(
        ballot.voter(&chair),
        Some(Voter {
            weight: 1,
            voted: false,
            delegate: None,
            vote: None
        })
    );
}

#[test]
fn fifty_proposals_are_allowed_but_not_fifty_one() {
    let chair = addr("chairperson");
    assert!(instantiate(chair.clone(), InstantiateMsg { proposals: names(50) }).is_ok());
    let err = instantiate(chair, InstantiateMsg { proposals: names(51) }).unwrap_err();
    assert_eq!(err, ContractError::TooManyProposals { count: 51, max: 50 });
}

#[test]
fn the_first_repeated_name_is_reported() {
    let chair = addr("chairperson");
    let err = instantiate(
        chair,
        InstantiateMsg {
            proposals: vec!["A".into(), "B".into(), "C".into(), "B".into(), "A".into()],
        },
    )
    .unwrap_err();
    assert_eq!(err, ContractError::DuplicateProposal { name: "B".into() });
}

// --- giveRightToVote --------------------------------------------------------

#[test]
fn grant_reports_the_voter() {
    let chair = addr("chairperson");
    let alice = addr("alice");
    let mut ballot = fresh(&chair);
    let res = run(
        &mut ballot,
        &chair,
        ExecuteMsg::GiveRightToVote {
            voter: alice.clone(),
        },
    )
    .unwrap();
    assert_eq!(
        attrs(&res),
        vec![pair("action", "give_right_to_vote"), pair("voter", &alice)]
    );
}

#[test]
fn a_malformed_address_is_refused_by_the_host_check() {
    let chair = addr("chairperson");
    let mut ballot = fresh(&chair);
    let err = run(
        &mut ballot,
        &chair,
        ExecuteMsg::GiveRightToVote {
            voter: "not-an-address".into(),
        },
    )
    .unwrap_err();
    assert!(matches!(err, ContractError::Std(_)));
}

#[test]
fn a_stranger_is_refused_before_the_address_is_checked() {
    let chair = addr("chairperson");
    let alice = addr("alice");
    let mut ballot = fresh(&chair);
    let err = execute(
        &mut ballot,
        alice,
        ExecuteMsg::GiveRightToVote {
            voter: "not-an-address".into(),
        },
        |_: String| -> Result<String, StdError> { panic!("the address must not be checked") },
    )
    .unwrap_err();
    assert_eq!(err, ContractError::NotChairperson {});
}

#[test]
fn granting_to_someone_who_already_voted_is_rejected() {
    let chair = addr("chairperson");
    let mut ballot = fresh(&chair);
    run(&mut ballot, &chair, ExecuteMsg::Vote { proposal: 0 }).unwrap();
    let err = give_right_to_vote(&mut ballot, chair.clone(), chair.clone(), Ok(chair.clone()))
        .unwrap_err();
    assert_eq!(err, ContractError::AlreadyVoted { address: chair });
}

#[test]
fn the_host_verdict_decides_the_address_granted() {
    let chair = addr("chairperson");
    let mut ballot = fresh(&chair);
    let err = give_right_to_vote(
        &mut ballot,
        chair.clone(),
        "typed".into(),
        Err(StdError::generic_err("Invalid input")),
    )
    .unwrap_err();
    assert_eq!(
        err,
        ContractError::Std(StdError::generic_err("Invalid input"))
    );
    give_right_to_vote(&mut ballot, chair.clone(), "typed".into(), Ok("checked".into())).unwrap();
    assert_eq!(ballot.voter(&"checked".to_string()).map(|v| v.weight), Some(1));
    assert_eq!(ballot.voter(&"typed".to_string()), None);
}

// --- vote -------------------------------------------------------------------

#[test]
fn vote_reports_voter_and_proposal() {
    let chair = addr("chairperson");
    let mut ballot = fresh(&chair);
    let res = run(&mut ballot, &chair, ExecuteMsg::Vote { proposal: 2 }).unwrap();
    assert_eq!(
        attrs(&res),
        vec![
            pair("action", "vote"),
            pair("voter", &chair),
            pair("proposal", "2"),
        ]
    );
    assert_eq!(
        ballot.voter(&chair),
        Some(Voter {
            weight: 1,
            voted: true,
            delegate: None,
            vote: Some(2)
        })
    );
}

#[test]
fn a_count_that_would_overflow_is_refused() {
    let alice = addr("alice");
    let mut ballot = Ballot::from_records(
        addr("chairperson"),
        vec![Proposal {
            name: "Alpha".into(),
            vote_count: u64::MAX,
        }],
        vec![(
            alice.clone(),
            Voter {
                weight: 1,
                voted: false,
                delegate: None,
                vote: None,
            },
        )],
    );
    let err = run(&mut ballot, &alice, ExecuteMsg::Vote { proposal: 0 }).unwrap_err();
    assert_eq!(err, ContractError::Overflow {});
    assert_eq!(counts(&ballot), vec![u64::MAX]);
    assert!(!ballot.voter(&alice).unwrap().voted);
}

// --- delegate ---------------------------------------------------------------

#[test]
fn delegate_reports_the_end_of_the_chain() {
    let chair = addr("chairperson");
    let (alice, bob, carol) = (addr("alice"), addr("bob"), addr("carol"));
    let mut ballot = fresh(&chair);
    for v in [&alice, &bob, &carol] {
        grant(&mut ballot, &chair, v);
    }
    run(&mut ballot, &bob, ExecuteMsg::Delegate { to: carol.clone() }).unwrap();
    let res = run(&mut ballot, &alice, ExecuteMsg::Delegate { to: bob.clone() }).unwrap();
    assert_eq!(
        attrs(&res),
        vec![
            pair("action", "delegate"),
            pair("from", &alice),
            pair("to", &carol),
            pair("weight", "1"),
        ]
    );
    assert_eq!(ballot.voter(&alice).unwrap().delegate, Some(carol.clone()));
}

#[test]
fn chains_of_twenty_hops_are_followed_but_not_twenty_one() {
    let chair = addr("chairperson");
    let mut ballot = fresh(&chair);
    let chain: Vec<String> = (0..22).map(|i| addr(&format!("link{i}"))).collect();
    let sender = addr("sender");
    grant(&mut ballot, &chair, &sender);
    for v in &chain {
        grant(&mut ballot, &chair, v);
    }
    for i in 0..21 {
        run(
            &mut ballot,
            &chain[i],
            ExecuteMsg::Delegate {
                to: chain[i + 1].clone(),
            },
        )
        .unwrap();
    }
    let err = run(
        &mut ballot,
        &sender,
        ExecuteMsg::Delegate {
            to: chain[0].clone(),
        },
    )
    .unwrap_err();
    assert_eq!(err, ContractError::DelegationChainTooLong { max: 20 });

    let res = run(
        &mut ballot,
        &sender,
        ExecuteMsg::Delegate {
            to: chain[1].clone(),
        },
    )
    .unwrap();
    assert_eq!(attrs(&res)[2], pair("to", &chain[21]));
    assert_eq!(ballot.voter(&chain[21]).unwrap().weight, 23);
}

#[test]
fn a_stranger_cannot_delegate() {
    let chair = addr("chairperson");
    let alice = addr("alice");
    let mut ballot = fresh(&chair);
    let err = delegate(&mut ballot, alice.clone(), Ok(chair.clone())).unwrap_err();
    assert_eq!(err, ContractError::NoRightToVote { address: alice });
}

#[test]
fn a_malformed_delegate_address_is_refused() {
    let chair = addr("chairperson");
    let mut ballot = fresh(&chair);
    let err = run(
        &mut ballot,
        &chair,
        ExecuteMsg::Delegate {
            to: "nobody".into(),
        },
    )
    .unwrap_err();
    assert!(matches!(err, ContractError::Std(_)));
}

#[test]
fn a_delegate_that_voted_for_a_missing_proposal_is_reported() {
    let (alice, bob) = (addr("alice"), addr("bob"));
    let mut ballot = Ballot::from_records(
        addr("chairperson"),
        vec![Proposal {
            name: "Alpha".into(),
            vote_count: 0,
        }],
        vec![
            (
                alice.clone(),
                Voter {
                    weight: 1,
                    voted: false,
                    delegate: None,
                    vote: None,
                },
            ),
            (
                bob.clone(),
                Voter {
                    weight: 1,
                    voted: true,
                    delegate: None,
                    vote: Some(4),
                },
            ),
        ],
    );
    let err = run(&mut ballot, &alice, ExecuteMsg::Delegate { to: bob }).unwrap_err();
    assert_eq!(err, ContractError::ProposalNotFound { index: 4, count: 1 });
    assert!(!ballot.voter(&alice).unwrap().voted);
}

#[test]
fn a_delegate_weight_that_would_overflow_is_refused() {
    let (alice, bob) = (addr("alice"), addr("bob"));
    let unused = |weight| Voter {
        weight,
        voted: false,
        delegate: None,
        vote: None,
    };
    let mut ballot = Ballot::from_records(
        addr("chairperson"),
        vec![Proposal {
            name: "Alpha".into(),
            vote_count: 0,
        }],
        vec![(alice.clone(), unused(1)), (bob.clone(), unused(u64::MAX))],
    );
    let err = run(&mut ballot, &alice, ExecuteMsg::Delegate { to: bob.clone() }).unwrap_err();
    assert_eq!(err, ContractError::Overflow {});
    assert_eq!(ballot.voter(&bob).unwrap().weight, u64::MAX);
}

// --- queries ----------------------------------------------------------------

#[test]
fn voter_query_answers_none_for_strangers_and_refuses_bad_addresses() {
    let chair = addr("chairperson");
    let ballot = fresh(&chair);
    let res = query(
        &ballot,
        QueryMsg::Voter {
            address: addr("alice"),
        },
        check,
    )
    .unwrap();
    assert_eq!(
        res,
        QueryAnswer::Voter(voting_contract::msg::VoterResponse { voter: None })
    );
    assert!(query(
        &ballot,
        QueryMsg::Voter {
            address: "x".into()
        },
        check
    )
    .is_err());
    assert!(voter_response(&ballot, Err(StdError::generic_err("bad"))).is_err());
}

#[test]
fn the_lowest_index_leads_among_equals() {
    let ballot = Ballot::from_records(
        addr("chairperson"),
        vec![
            Proposal {
                name: "A".into(),
                vote_count: 3,
            },
            Proposal {
                name: "B".into(),
                vote_count: 7,
            },
            Proposal {
                name: "C".into(),
                vote_count: 7,
            },
        ],
        vec![],
    );
    let w = query_winning_proposal(&ballot);
    assert_eq!((w.index, w.vote_count, w.tied), (1, 7, true));
    assert_eq!(query_winner_name(&ballot).name, "B");
}

#[test]
fn an_empty_list_has_no_winner() {
    let ballot = Ballot::from_records(addr("chairperson"), vec![], vec![]);
    let w = query_winning_proposal(&ballot);
    assert_eq!((w.index, w.vote_count, w.tied), (0, 0, false));
}

// --- laws on concrete runs --------------------------------------------------

#[test]
fn every_granted_vote_is_counted_once() {
    let chair = addr("chairperson");
    let (alice, bob, carol) = (addr("alice"), addr("bob"), addr("carol"));
    let mut ballot = fresh(&chair);
    assert_eq!(tally(&ballot), 1);
    for v in [&alice, &bob, &carol] {
        grant(&mut ballot, &chair, v);
    }
    assert_eq!(tally(&ballot), 4);
    run(&mut ballot, &bob, ExecuteMsg::Delegate { to: carol.clone() }).unwrap();
    assert_eq!(tally(&ballot), 4);
    run(&mut ballot, &carol, ExecuteMsg::Vote { proposal: 1 }).unwrap();
    assert_eq!(tally(&ballot), 4);
    run(&mut ballot, &alice, ExecuteMsg::Delegate { to: bob.clone() }).unwrap();
    assert_eq!(tally(&ballot), 4);
    assert_eq!(counts(&ballot), vec![0, 3, 0]);
    // A refused call changes nothing.
    assert!(run(&mut ballot, &alice, ExecuteMsg::Vote { proposal: 0 }).is_err());
    assert_eq!(tally(&ballot), 4);
}

#[test]
fn a_used_vote_is_final() {
    let chair = addr("chairperson");
    let (alice, bob) = (addr("alice"), addr("bob"));
    let mut ballot = fresh(&chair);
    grant(&mut ballot, &chair, &alice);
    grant(&mut ballot, &chair, &bob);
    run(&mut ballot, &bob, ExecuteMsg::Vote { proposal: 0 }).unwrap();
    let before = ballot.voter(&bob);
    run(&mut ballot, &alice, ExecuteMsg::Delegate { to: bob.clone() }).unwrap();
    assert_eq!(ballot.voter(&bob), before);
    let err = run(&mut ballot, &alice, ExecuteMsg::Vote { proposal: 1 }).unwrap_err();
    assert_eq!(err, ContractError::AlreadyVoted { address: alice.clone() });
    let err = run(&mut ballot, &alice, ExecuteMsg::Delegate { to: chair.clone() }).unwrap_err();
    assert_eq!(err, ContractError::AlreadyVoted { address: alice });
}

#[test]
fn the_ballot_never_changes_shape() {
    let chair = addr("chairperson");
    let alice = addr("alice");
    let mut ballot = fresh(&chair);
    grant(&mut ballot, &chair, &alice);
    run(&mut ballot, &alice, ExecuteMsg::Vote { proposal: 2 }).unwrap();
    run(&mut ballot, &chair, ExecuteMsg::Vote { proposal: 2 }).unwrap();
    let names: Vec<&str> = ballot.proposals().iter().map(|p| p.name.as_str()).collect();
    assert_eq!(names, vec!["Alpha", "Beta", "Gamma"]);
    assert_eq!(ballot.chairperson(), &chair);
    assert_eq!(counts(&ballot), vec![0, 0, 2]);
}

#[test]
fn records_round_trip_through_storage_order() {
    let chair = addr("chairperson");
    let alice = addr("alice");
    let mut ballot = fresh(&chair);
    grant(&mut ballot, &chair, &alice);
    run(&mut ballot, &alice, ExecuteMsg::Delegate { to: chair.clone() }).unwrap();
    let rebuilt = Ballot::from_records(
        ballot.chairperson().clone(),
        ballot.proposals().clone(),
        ballot.records().clone(),
    );
    assert_eq!(rebuilt.voter(&alice), ballot.voter(&alice));
    assert_eq!(rebuilt.voter(&chair).unwrap().weight, 2);
}

// --- responses, the ballot invariant and queries ---------------------------

fn attributes_only(res: &Response) -> bool {
    res.messages.is_empty() && res.events.is_empty() && res.data.is_none()
}

#[test]
fn responses_carry_attributes_only() {
    let chair = addr("chairperson");
    let (alice, bob) = (addr("alice"), addr("bob"));
    let (mut ballot, res) = instantiate(
        chair.clone(),
        InstantiateMsg {
            proposals: vec!["Alpha".into(), "Beta".into()],
        },
    )
    .unwrap();
    assert!(attributes_only(&res));
    let res = run(
        &mut ballot,
        &chair,
        ExecuteMsg::GiveRightToVote {
            voter: alice.clone(),
        },
    )
    .unwrap();
    assert!(attributes_only(&res));
    grant(&mut ballot, &chair, &bob);
    let res = run(&mut ballot, &alice, ExecuteMsg::Delegate { to: bob.clone() }).unwrap();
    assert!(attributes_only(&res));
    let res = run(&mut ballot, &bob, ExecuteMsg::Vote { proposal: 1 }).unwrap();
    assert!(attributes_only(&res));
}

/// Following delegation links from `start` never comes back to it and
/// only ever reaches registered addresses.
fn chain_is_open(ballot: &Ballot, start: &String) -> bool {
    let mut at = start.clone();
    for _ in 0..ballot.records().len() + 1 {
        match ballot.voter(&at).and_then(|v| v.delegate) {
            None => return true,
            Some(next) => {
                if next == *start || ballot.voter(&next).is_none() {
                    return false;
                }
                at = next;
            }
        }
    }
    false
}

#[test]
fn the_ballot_invariant_holds_along_a_run() {
    let chair = addr("chairperson");
    let voters: Vec<String> = (0..6).map(|i| addr(&format!("v{i}"))).collect();
    let mut ballot = fresh(&chair);
    for v in &voters {
        grant(&mut ballot, &chair, v);
    }
    let steps = [(0, 1), (2, 3), (1, 2), (4, 0), (5, 4)];
    for (from, to) in steps {
        run(
            &mut ballot,
            &voters[from],
            ExecuteMsg::Delegate {
                to: voters[to].clone(),
            },
        )
        .unwrap();
        assert!(ballot.voter(&chair).is_some());
        for (a, v) in ballot.records() {
            assert!(v.weight > 0);
            assert_eq!(v.voted, v.delegate.is_some() || v.vote.is_some());
            assert!(chain_is_open(&ballot, a));
        }
    }
    assert_eq!(ballot.voter(&voters[3]).unwrap().weight, 6);
}

#[test]
fn equal_queries_give_equal_answers() {
    let chair = addr("chairperson");
    let alice = addr("alice");
    let mut ballot = fresh(&chair);
    grant(&mut ballot, &chair, &alice);
    run(&mut ballot, &alice, ExecuteMsg::Vote { proposal: 1 }).unwrap();
    let questions = || {
        vec![
            QueryMsg::Chairperson {},
            QueryMsg::Proposals {},
            QueryMsg::Voter {
                address: alice.clone(),
            },
            QueryMsg::WinningProposal {},
            QueryMsg::WinnerName {},
        ]
    };
    for (q1, q2) in questions().into_iter().zip(questions()) {
        assert_eq!(query(&ballot, q1, check), query(&ballot, q2, check));
    }
}
