//! The ballot's logic: deployment, the three state-changing calls and the
//! read-only queries.
//!
//! Each call is described twice: once as a spec function that says what the
//! call yields on a given ballot (the new ballot and the attributes of the
//! response, or the error), and once as the executable function whose
//! contract ties it to that description. A rejected call leaves the ballot
//! exactly as it was.
//!
//! Addresses that arrive inside a message are checked by the host chain;
//! the functions that take a `validate` closure call it exactly where the
//! address must be checked, and a sibling function takes the host's verdict
//! as an argument.

use vstd::prelude::*;
use cosmwasm_std::{Response, StdError};

use crate::cosmos::{
    add_attribute, attributes_only, decimal, decimal_string, response_attributes, response_new,
};
use crate::error::ContractError;
use crate::msg::{
    ChairpersonResponse, ExecuteMsg, InstantiateMsg, ProposalsResponse, QueryAnswer, QueryMsg,
    VoterResponse, WinnerNameResponse, WinningProposalResponse,
};
use crate::state::{record_of, Ballot, BallotView, Proposal, Voter};

verus! {

/// Reading the ballot costs gas proportional to its length, so it is capped.
pub const MAX_PROPOSALS: usize = 50;

/// The longest delegation chain that is followed.
pub const MAX_DELEGATION_DEPTH: u32 = 20;

/// The attributes of a response, as (key, value) pairs.
pub type Attributes = Seq<(Seq<char>, Seq<char>)>;

/// What a call yields: the new ballot and the response's attributes, or the
/// error it is rejected with.
pub type Outcome = Result<(BallotView, Attributes), ContractError>;

/// `res` and `after` are what a call with outcome `outcome` returns and
/// leaves behind when it starts from `before`.
pub open spec fn applied(
    outcome: Outcome,
    before: BallotView,
    res: Result<Response, ContractError>,
    after: BallotView,
) -> bool {
    match outcome {
        Ok((b, attrs)) => {
            &&& res matches Ok(r) && response_attributes(r) == attrs && attributes_only(r)
            &&& after == b
        },
        Err(e) => {
            &&& res == Err::<Response, ContractError>(e)
            &&& after == before
        },
    }
}

// ---------------------------------------------------------------------------
// instantiate
// ---------------------------------------------------------------------------

/// Some name before position `i` equals the name at `i`.
pub open spec fn has_earlier_copy(names: Seq<String>, i: int) -> bool {
    exists|j: int| 0 <= j < i && names[j]@ == names[i]@
}

/// `k` is the first position whose name already occurred before it.
pub open spec fn first_duplicate(names: Seq<String>, k: int) -> bool {
    &&& 0 <= k < names.len()
    &&& has_earlier_copy(names, k)
    &&& forall|i: int| 0 <= i < k ==> !has_earlier_copy(names, i)
}

/// The proposals of a new ballot: the given names, each with no votes.
pub open spec fn fresh_proposals(names: Seq<String>) -> Seq<Proposal> {
    names.map_values(|n: String| Proposal { name: n, vote_count: 0 })
}

pub open spec fn instantiate_outcome(sender: String, names: Seq<String>) -> Outcome {
    if names.len() == 0 {
        Err(ContractError::NoProposals {})
    } else if names.len() > MAX_PROPOSALS {
        Err(ContractError::TooManyProposals { count: names.len() as usize, max: MAX_PROPOSALS })
    } else if exists|k: int| first_duplicate(names, k) {
        Err(ContractError::DuplicateProposal { name: names[choose|k: int| first_duplicate(names, k)] })
    } else {
        Ok(
            (
                BallotView {
                    chairperson: sender@,
                    proposals: fresh_proposals(names),
                    voters: Map::<Seq<char>, Voter>::empty().insert(sender@, Voter::granted()),
                },
                seq![
                    ("action"@, "instantiate"@),
                    ("chairperson"@, sender@),
                    ("proposal_count"@, decimal(names.len())),
                ],
            ),
        )
    }
}

/// Deploys a ballot. Whoever deploys it becomes the chairperson and gets one
/// vote; every proposal starts at zero. The ballot must have between one and
/// `MAX_PROPOSALS` proposals with pairwise distinct names.
pub fn instantiate(sender: String, msg: InstantiateMsg) -> (res: Result<(Ballot, Response), ContractError>)
    ensures
        match instantiate_outcome(sender, msg.proposals@) {
            Ok((b, attrs)) => res matches Ok((ballot, r)) && ballot@ == b && response_attributes(r)
                == attrs && attributes_only(r),
            Err(e) => res == Err::<(Ballot, Response), ContractError>(e),
        },
{
    let names = msg.proposals;
    let n = names.len();
    if n == 0 {
        return Err(ContractError::NoProposals {});
    }
    if n > MAX_PROPOSALS {
        return Err(ContractError::TooManyProposals { count: n, max: MAX_PROPOSALS });
    }
    let mut i: usize = 0;
    while i < n
        invariant
            n == names@.len(),
            names@ == msg.proposals@,
            0 < n <= MAX_PROPOSALS,
            i <= n,
            forall|k: int| 0 <= k < i ==> !has_earlier_copy(names@, k),
        decreases n - i,
    {
        let mut j: usize = 0;
        while j < i
            invariant
                n == names@.len(),
                names@ == msg.proposals@,
                0 < n <= MAX_PROPOSALS,
                j <= i < n,
                forall|k: int| 0 <= k < i ==> !has_earlier_copy(names@, k),
                forall|k: int| 0 <= k < j ==> names@[k]@ != names@[i as int]@,
            decreases i - j,
        {
            if names[j] == names[i] {
                proof {
                    assert(has_earlier_copy(names@, i as int));
                    assert(first_duplicate(names@, i as int));
                    let k = choose|k: int| first_duplicate(names@, k);
                    assert(k == i) by {
                        if k < i {
                            assert(!has_earlier_copy(names@, k));
                        } else if k > i {
                            assert(!has_earlier_copy(names@, i as int));
                        }
                    }
                    assert(exists|k: int| first_duplicate(names@, k));
                }
                return Err(ContractError::DuplicateProposal { name: names[i].clone() });
            }
            j = j + 1;
        }
        assert(!has_earlier_copy(names@, i as int));
        i = i + 1;
    }
    assert(!exists|k: int| first_duplicate(names@, k));

    let mut proposals: Vec<Proposal> = Vec::new();
    let mut i: usize = 0;
    while i < n
        invariant
            n == names@.len(),
            i <= n,
            proposals@.len() == i,
            forall|k: int| 0 <= k < i ==> proposals@[k] == (Proposal { name: names@[k], vote_count: 0 }),
        decreases n - i,
    {
        proposals.push(Proposal { name: names[i].clone(), vote_count: 0 });
        i = i + 1;
    }
    assert(proposals@ =~= fresh_proposals(names@));

    let mut ballot = Ballot::new(sender.clone(), proposals);
    ballot.set_voter(sender.clone(), Voter::new_granted());

    proof {
        reveal_strlit("action");
        reveal_strlit("chairperson");
        reveal_strlit("proposal_count");
    }
    let r = response_new();
    let r = add_attribute(r, "action", "instantiate");
    let r = add_attribute(r, "chairperson", sender.as_str());
    let r = add_attribute(r, "proposal_count", decimal_string(n as u64).as_str());
    proof {
        assert(response_attributes(r) =~= seq![
            ("action"@, "instantiate"@),
            ("chairperson"@, sender@),
            ("proposal_count"@, decimal(names@.len())),
        ]);
    }
    Ok((ballot, r))
}

// ---------------------------------------------------------------------------
// giveRightToVote
// ---------------------------------------------------------------------------

/// Granting `voter` (checked by the host as `checked`) the right to vote.
pub open spec fn give_right_outcome(
    b: BallotView,
    sender: String,
    voter: String,
    checked: Result<String, StdError>,
) -> Outcome {
    if sender@ != b.chairperson {
        Err(ContractError::NotChairperson {})
    } else {
        match checked {
            Err(e) => Err(ContractError::Std(e)),
            Ok(addr) => {
                let existing = record_of(b.voters, addr@);
                if existing.voted {
                    Err(ContractError::AlreadyVoted { address: voter })
                } else if existing.weight != 0 {
                    Err(ContractError::AlreadyHasRightToVote { address: voter })
                } else {
                    Ok(
                        (
                            BallotView {
                                voters: b.voters.insert(addr@, Voter::granted()),
                                ..b
                            },
                            seq![("action"@, "give_right_to_vote"@), ("voter"@, addr@)],
                        ),
                    )
                }
            },
        }
    }
}

/// The chairperson grants `voter` one vote; `checked` is the host's verdict
/// on the address `voter`.
pub fn give_right_to_vote(
    ballot: &mut Ballot,
    sender: String,
    voter: String,
    checked: Result<String, StdError>,
) -> (res: Result<Response, ContractError>)
    ensures
        applied(give_right_outcome(old(ballot)@, sender, voter, checked), old(ballot)@, res, final(ballot)@),
{
    if sender != *ballot.chairperson() {
        return Err(ContractError::NotChairperson {});
    }
    let addr = match checked {
        Ok(addr) => addr,
        Err(e) => return Err(ContractError::Std(e)),
    };
    let existing = ballot.voter_or_default(&addr);
    if existing.voted {
        return Err(ContractError::AlreadyVoted { address: voter });
    }
    if existing.weight != 0 {
        return Err(ContractError::AlreadyHasRightToVote { address: voter });
    }
    ballot.set_voter(addr.clone(), Voter::new_granted());
    proof {
        reveal_strlit("action");
        reveal_strlit("voter");
    }
    let r = response_new();
    let r = add_attribute(r, "action", "give_right_to_vote");
    let r = add_attribute(r, "voter", addr.as_str());
    proof {
        assert(response_attributes(r) =~= seq![("action"@, "give_right_to_vote"@), ("voter"@, addr@)]);
    }
    Ok(r)
}

/// What `execute_give_right_to_vote` returns and leaves behind: the host is
/// asked about `voter` only once the sender is known to be the chairperson.
pub open spec fn give_right_done<F: Fn(String) -> Result<String, StdError>>(
    before: BallotView,
    sender: String,
    voter: String,
    validate: F,
    res: Result<Response, ContractError>,
    after: BallotView,
) -> bool {
    &&& sender@ != before.chairperson ==> res == Err::<Response, ContractError>(
        ContractError::NotChairperson {},
    ) && after == before
    &&& sender@ == before.chairperson ==> exists|c: Result<String, StdError>|
        #[trigger] validate.ensures((voter,), c) && applied(
            give_right_outcome(before, sender, voter, c),
            before,
            res,
            after,
        )
}

/// The chairperson grants `voter` one vote; `validate` is the host's
/// address check.
pub fn execute_give_right_to_vote<F: Fn(String) -> Result<String, StdError>>(
    ballot: &mut Ballot,
    sender: String,
    voter: String,
    validate: &F,
) -> (res: Result<Response, ContractError>)
    requires
        forall|s: String| validate.requires((s,)),
    ensures
        give_right_done(old(ballot)@, sender, voter, *validate, res, final(ballot)@),
{
    if sender != *ballot.chairperson() {
        return Err(ContractError::NotChairperson {});
    }
    let checked = validate(voter.clone());
    give_right_to_vote(ballot, sender, voter, checked)
}

// ---------------------------------------------------------------------------
// vote
// ---------------------------------------------------------------------------

/// The sender casting their weight for proposal `proposal`.
pub open spec fn vote_outcome(b: BallotView, sender: String, proposal: u32) -> Outcome {
    let v = record_of(b.voters, sender@);
    if v.weight == 0 {
        Err(ContractError::NoRightToVote { address: sender })
    } else if v.voted {
        Err(ContractError::AlreadyVoted { address: sender })
    } else if proposal >= b.proposals.len() {
        Err(ContractError::ProposalNotFound { index: proposal, count: b.proposals.len() as usize })
    } else if b.proposals[proposal as int].vote_count + v.weight > u64::MAX {
        Err(ContractError::Overflow {})
    } else {
        let p = b.proposals[proposal as int];
        Ok(
            (
                BallotView {
                    proposals: b.proposals.update(
                        proposal as int,
                        Proposal { name: p.name, vote_count: (p.vote_count + v.weight) as u64 },
                    ),
                    voters: b.voters.insert(sender@, Voter { voted: true, vote: Some(proposal), ..v }),
                    ..b
                },
                seq![
                    ("action"@, "vote"@),
                    ("voter"@, sender@),
                    ("proposal"@, decimal(proposal as nat)),
                ],
            ),
        )
    }
}

/// The sender casts their whole weight for the proposal at index
/// `proposal`. Final: afterwards they can neither vote again nor delegate.
pub fn execute_vote(ballot: &mut Ballot, sender: String, proposal: u32) -> (res: Result<
    Response,
    ContractError,
>)
    ensures
        applied(vote_outcome(old(ballot)@, sender, proposal), old(ballot)@, res, final(ballot)@),
{
    let voter = ballot.voter_or_default(&sender);
    if voter.weight == 0 {
        return Err(ContractError::NoRightToVote { address: sender });
    }
    if voter.voted {
        return Err(ContractError::AlreadyVoted { address: sender });
    }
    let count = ballot.proposals().len();
    let index = proposal as usize;
    if index >= count {
        return Err(ContractError::ProposalNotFound { index: proposal, count });
    }
    let new_count = match ballot.proposals()[index].vote_count.checked_add(voter.weight) {
        Some(c) => c,
        None => return Err(ContractError::Overflow {}),
    };
    ballot.set_vote_count(index, new_count);
    let spent = Voter { voted: true, vote: Some(proposal), ..voter };
    ballot.set_voter(sender.clone(), spent);
    proof {
        reveal_strlit("action");
        reveal_strlit("voter");
        reveal_strlit("proposal");
    }
    let r = response_new();
    let r = add_attribute(r, "action", "vote");
    let r = add_attribute(r, "voter", sender.as_str());
    let r = add_attribute(r, "proposal", decimal_string(proposal as u64).as_str());
    proof {
        assert(response_attributes(r) =~= seq![
            ("action"@, "vote"@),
            ("voter"@, sender@),
            ("proposal"@, decimal(proposal as nat)),
        ]);
    }
    Ok(r)
}

// ---------------------------------------------------------------------------
// delegate
// ---------------------------------------------------------------------------

/// The address that `a` delegated to, if `a` has a record and delegated.
pub open spec fn delegate_of(voters: Map<Seq<char>, Voter>, a: Seq<char>) -> Option<String> {
    if voters.contains_key(a) {
        voters[a].delegate
    } else {
        None
    }
}

/// Where following a delegation chain ends.
pub enum Walk {
    /// At this address, which delegated to no one.
    End(String),
    /// Back at the sender.
    Loop,
    /// After more hops than allowed.
    TooLong,
}

/// Follows the chain of delegations that starts at `target`, on behalf of
/// `sender`, with `hops` more hops allowed.
pub open spec fn walk(voters: Map<Seq<char>, Voter>, sender: Seq<char>, target: String, hops: nat) -> Walk
    decreases hops,
{
    match delegate_of(voters, target@) {
        None => Walk::End(target),
        Some(next) => {
            if next@ == sender {
                Walk::Loop
            } else if hops == 0 {
                Walk::TooLong
            } else {
                walk(voters, sender, next, (hops - 1) as nat)
            }
        },
    }
}

/// The sender handing their weight to the address `checked` (the host's
/// verdict on the address they named), or to the end of its chain.
pub open spec fn delegate_outcome(b: BallotView, sender: String, checked: Result<String, StdError>) -> Outcome {
    let sv = record_of(b.voters, sender@);
    if sv.weight == 0 {
        Err(ContractError::NoRightToVote { address: sender })
    } else if sv.voted {
        Err(ContractError::AlreadyVoted { address: sender })
    } else {
        match checked {
            Err(e) => Err(ContractError::Std(e)),
            Ok(to) => {
                if to@ == sender@ {
                    Err(ContractError::SelfDelegation {})
                } else {
                    match walk(b.voters, sender@, to, MAX_DELEGATION_DEPTH as nat) {
                        Walk::Loop => Err(ContractError::DelegationLoop {}),
                        Walk::TooLong => Err(
                            ContractError::DelegationChainTooLong { max: MAX_DELEGATION_DEPTH },
                        ),
                        Walk::End(target) => delegate_to_outcome(b, sender, target),
                    }
                }
            },
        }
    }
}

/// The last step of a delegation: the sender's weight goes to `target`, or
/// straight onto the proposal `target` voted for.
pub open spec fn delegate_to_outcome(b: BallotView, sender: String, target: String) -> Outcome {
    let sv = record_of(b.voters, sender@);
    let tv = record_of(b.voters, target@);
    let w = sv.weight;
    let voters = b.voters.insert(sender@, Voter { voted: true, delegate: Some(target), ..sv });
    let attrs = seq![
        ("action"@, "delegate"@),
        ("from"@, sender@),
        ("to"@, target@),
        ("weight"@, decimal(w as nat)),
    ];
    if tv.weight == 0 {
        Err(ContractError::DelegateHasNoRightToVote {})
    } else if tv.voted {
        let index: u32 = match tv.vote {
            Some(i) => i,
            None => 0,
        };
        if index >= b.proposals.len() {
            Err(ContractError::ProposalNotFound { index, count: b.proposals.len() as usize })
        } else if b.proposals[index as int].vote_count + w > u64::MAX {
            Err(ContractError::Overflow {})
        } else {
            let p = b.proposals[index as int];
            Ok(
                (
                    BallotView {
                        proposals: b.proposals.update(
                            index as int,
                            Proposal { name: p.name, vote_count: (p.vote_count + w) as u64 },
                        ),
                        voters,
                        ..b
                    },
                    attrs,
                ),
            )
        }
    } else if tv.weight + w > u64::MAX {
        Err(ContractError::Overflow {})
    } else {
        Ok(
            (
                BallotView {
                    voters: voters.insert(target@, Voter { weight: (tv.weight + w) as u64, ..tv }),
                    ..b
                },
                attrs,
            ),
        )
    }
}

/// The sender hands their weight to `checked` (the host's verdict on the
/// address they named). If that address delegated in turn, the weight
/// follows the chain to its end; if the end has already voted, the weight
/// is added to the proposal it chose. Final for the sender.
pub fn delegate(ballot: &mut Ballot, sender: String, checked: Result<String, StdError>) -> (res: Result<
    Response,
    ContractError,
>)
    ensures
        applied(delegate_outcome(old(ballot)@, sender, checked), old(ballot)@, res, final(ballot)@),
{
    let sender_voter = ballot.voter_or_default(&sender);
    if sender_voter.weight == 0 {
        return Err(ContractError::NoRightToVote { address: sender });
    }
    if sender_voter.voted {
        return Err(ContractError::AlreadyVoted { address: sender });
    }
    let mut target = match checked {
        Ok(to) => to,
        Err(e) => return Err(ContractError::Std(e)),
    };
    if target == sender {
        return Err(ContractError::SelfDelegation {});
    }
    let ghost start = target;
    let mut depth: u32 = 0;
    loop
        invariant
            depth <= MAX_DELEGATION_DEPTH,
            ballot@ == old(ballot)@,
            sender_voter == record_of(old(ballot)@.voters, sender@),
            sender_voter.weight != 0,
            !sender_voter.voted,
            checked == Ok::<String, StdError>(start),
            start@ != sender@,
            target@ != sender@,
            walk(ballot@.voters, sender@, start, MAX_DELEGATION_DEPTH as nat) == walk(
                ballot@.voters,
                sender@,
                target,
                (MAX_DELEGATION_DEPTH - depth) as nat,
            ),
        ensures
            ballot@ == old(ballot)@,
            target@ != sender@,
            walk(ballot@.voters, sender@, start, MAX_DELEGATION_DEPTH as nat) == Walk::End(target),
        decreases MAX_DELEGATION_DEPTH - depth,
    {
        let next = match ballot.voter(&target) {
            Some(v) => v.delegate,
            None => None,
        };
        match next {
            None => break,
            Some(next) => {
                target = next;
                if target == sender {
                    return Err(ContractError::DelegationLoop {});
                }
                depth = depth + 1;
                if depth > MAX_DELEGATION_DEPTH {
                    return Err(ContractError::DelegationChainTooLong { max: MAX_DELEGATION_DEPTH });
                }
            },
        }
    }
    delegate_to(ballot, sender, sender_voter, target)
}

/// The last step of `delegate`, once the chain has been followed to `target`.
fn delegate_to(ballot: &mut Ballot, sender: String, sender_voter: Voter, target: String) -> (res:
    Result<Response, ContractError>)
    requires
        sender_voter == record_of(old(ballot)@.voters, sender@),
        target@ != sender@,
    ensures
        applied(delegate_to_outcome(old(ballot)@, sender, target), old(ballot)@, res, final(ballot)@),
{
    let target_voter = ballot.voter_or_default(&target);
    if target_voter.weight == 0 {
        return Err(ContractError::DelegateHasNoRightToVote {});
    }
    let transferred = sender_voter.weight;
    let spent = Voter { voted: true, delegate: Some(target.clone()), ..sender_voter };
    if target_voter.voted {
        let index: u32 = match target_voter.vote {
            Some(i) => i,
            None => 0,
        };
        let count = ballot.proposals().len();
        if index as usize >= count {
            return Err(ContractError::ProposalNotFound { index, count });
        }
        let new_count = match ballot.proposals()[index as usize].vote_count.checked_add(transferred) {
            Some(c) => c,
            None => return Err(ContractError::Overflow {}),
        };
        ballot.set_voter(sender.clone(), spent);
        ballot.set_vote_count(index as usize, new_count);
    } else {
        let new_weight = match target_voter.weight.checked_add(transferred) {
            Some(w) => w,
            None => return Err(ContractError::Overflow {}),
        };
        ballot.set_voter(sender.clone(), spent);
        ballot.set_voter(target.clone(), Voter { weight: new_weight, ..target_voter });
    }
    proof {
        reveal_strlit("action");
        reveal_strlit("from");
        reveal_strlit("to");
        reveal_strlit("weight");
    }
    let r = response_new();
    let r = add_attribute(r, "action", "delegate");
    let r = add_attribute(r, "from", sender.as_str());
    let r = add_attribute(r, "to", target.as_str());
    let r = add_attribute(r, "weight", decimal_string(transferred).as_str());
    proof {
        assert(response_attributes(r) =~= seq![
            ("action"@, "delegate"@),
            ("from"@, sender@),
            ("to"@, target@),
            ("weight"@, decimal(transferred as nat)),
        ]);
    }
    Ok(r)
}

/// What `execute_delegate` returns and leaves behind: the host is asked
/// about `to` only once the sender is known to hold an unused vote.
pub open spec fn delegate_done<F: Fn(String) -> Result<String, StdError>>(
    before: BallotView,
    sender: String,
    to: String,
    validate: F,
    res: Result<Response, ContractError>,
    after: BallotView,
) -> bool {
    let sv = record_of(before.voters, sender@);
    &&& sv.weight == 0 ==> res == Err::<Response, ContractError>(
        ContractError::NoRightToVote { address: sender },
    ) && after == before
    &&& sv.weight != 0 && sv.voted ==> res == Err::<Response, ContractError>(
        ContractError::AlreadyVoted { address: sender },
    ) && after == before
    &&& sv.weight != 0 && !sv.voted ==> exists|c: Result<String, StdError>|
        #[trigger] validate.ensures((to,), c) && applied(
            delegate_outcome(before, sender, c),
            before,
            res,
            after,
        )
}

/// The sender hands their weight to `to`; `validate` is the host's address
/// check.
pub fn execute_delegate<F: Fn(String) -> Result<String, StdError>>(
    ballot: &mut Ballot,
    sender: String,
    to: String,
    validate: &F,
) -> (res: Result<Response, ContractError>)
    requires
        forall|s: String| validate.requires((s,)),
    ensures
        delegate_done(old(ballot)@, sender, to, *validate, res, final(ballot)@),
{
    let sender_voter = ballot.voter_or_default(&sender);
    if sender_voter.weight == 0 {
        return Err(ContractError::NoRightToVote { address: sender });
    }
    if sender_voter.voted {
        return Err(ContractError::AlreadyVoted { address: sender });
    }
    let checked = validate(to.clone());
    delegate(ballot, sender, checked)
}

// ---------------------------------------------------------------------------
// execute: the router
// ---------------------------------------------------------------------------

/// What `execute` returns and leaves behind for `msg` sent by `sender`.
pub open spec fn execute_done<F: Fn(String) -> Result<String, StdError>>(
    before: BallotView,
    sender: String,
    msg: ExecuteMsg,
    validate: F,
    res: Result<Response, ContractError>,
    after: BallotView,
) -> bool {
    match msg {
        ExecuteMsg::GiveRightToVote { voter } => give_right_done(before, sender, voter, validate, res, after),
        ExecuteMsg::Vote { proposal } => applied(vote_outcome(before, sender, proposal), before, res, after),
        ExecuteMsg::Delegate { to } => delegate_done(before, sender, to, validate, res, after),
    }
}

/// Runs the state-changing call `msg` sent by `sender`. Addresses named in
/// the message are checked with `validate`, the host's address check.
pub fn execute<F: Fn(String) -> Result<String, StdError>>(
    ballot: &mut Ballot,
    sender: String,
    msg: ExecuteMsg,
    validate: F,
) -> (res: Result<Response, ContractError>)
    requires
        forall|s: String| validate.requires((s,)),
    ensures
        execute_done(old(ballot)@, sender, msg, validate, res, final(ballot)@),
{
    match msg {
        ExecuteMsg::GiveRightToVote { voter } => execute_give_right_to_vote(ballot, sender, voter, &validate),
        ExecuteMsg::Vote { proposal } => execute_vote(ballot, sender, proposal),
        ExecuteMsg::Delegate { to } => execute_delegate(ballot, sender, to, &validate),
    }
}

// ---------------------------------------------------------------------------
// queries
// ---------------------------------------------------------------------------

/// Proposal `i` has the highest count, and every earlier proposal has less.
pub open spec fn leads(p: Seq<Proposal>, i: int) -> bool {
    &&& 0 <= i < p.len()
    &&& forall|j: int| 0 <= j < p.len() ==> p[j].vote_count <= p[i].vote_count
    &&& forall|j: int| 0 <= j < i ==> p[j].vote_count < p[i].vote_count
}

/// The lowest index among the proposals with the highest count.
pub open spec fn leader(p: Seq<Proposal>) -> int {
    choose|i: int| leads(p, i)
}

/// Two different proposals have the count `c`.
pub open spec fn is_tied(p: Seq<Proposal>, c: u64) -> bool {
    exists|i: int, j: int| 0 <= i < j < p.len() && p[i].vote_count == c && p[j].vote_count == c
}

/// The answer to `WinningProposal`: the leader, its count, and whether
/// another proposal has the same count. An empty list gives index 0, count
/// 0, no tie.
pub open spec fn winning(p: Seq<Proposal>) -> WinningProposalResponse {
    if p.len() == 0 {
        WinningProposalResponse { index: 0, vote_count: 0, tied: false }
    } else {
        let i = leader(p);
        WinningProposalResponse {
            index: i as u32,
            vote_count: p[i].vote_count,
            tied: is_tied(p, p[i].vote_count),
        }
    }
}

/// The answer to `WinnerName`: the name at the reported index, with the
/// count and the tie flag of `winning`.
pub open spec fn winner_name_of(p: Seq<Proposal>) -> WinnerNameResponse {
    let w = winning(p);
    WinnerNameResponse { name: p[w.index as int].name, vote_count: w.vote_count, tied: w.tied }
}

pub proof fn lemma_leader_unique(p: Seq<Proposal>, a: int, b: int)
    requires
        leads(p, a),
        leads(p, b),
    ensures
        a == b,
{
    if a < b {
        assert(p[a].vote_count < p[b].vote_count);
        assert(p[b].vote_count <= p[a].vote_count);
    } else if b < a {
        assert(p[b].vote_count < p[a].vote_count);
        assert(p[a].vote_count <= p[b].vote_count);
    }
}

/// `winning`, together with the leader's index as a `usize`.
fn find_winner(ballot: &Ballot) -> (r: (WinningProposalResponse, usize))
    ensures
        r.0 == winning(ballot@.proposals),
        ballot@.proposals.len() > 0 ==> r.1 == leader(ballot@.proposals) && leads(
            ballot@.proposals,
            r.1 as int,
        ),
{
    let p = ballot.proposals();
    let n = p.len();
    let mut best: u64 = 0;
    let mut i: usize = 0;
    while i < n
        invariant
            n == p@.len(),
            i <= n,
            forall|k: int| 0 <= k < i ==> p@[k].vote_count <= best,
            i > 0 ==> exists|k: int| 0 <= k < i && p@[k].vote_count == best,
            i == 0 ==> best == 0,
        decreases n - i,
    {
        if p[i].vote_count > best {
            best = p[i].vote_count;
        } else {
            assert(p@[i as int].vote_count == best || i > 0);
        }
        i = i + 1;
    }
    let mut index: usize = 0;
    let mut found = false;
    let mut twice = false;
    let mut i: usize = 0;
    while i < n
        invariant
            n == p@.len(),
            i <= n,
            found <==> exists|k: int| 0 <= k < i && p@[k].vote_count == best,
            found ==> index < i && p@[index as int].vote_count == best && forall|k: int|
                0 <= k < index ==> p@[k].vote_count != best,
            !found ==> index == 0,
            twice <==> exists|a: int, b: int|
                0 <= a < b < i && p@[a].vote_count == best && p@[b].vote_count == best,
        decreases n - i,
    {
        if p[i].vote_count == best {
            if found {
                assert(0 <= index < i && p@[index as int].vote_count == best && p@[i as int].vote_count
                    == best);
                twice = true;
            } else {
                index = i;
                found = true;
            }
        }
        proof {
            if twice {
                let (a, b) = choose|a: int, b: int|
                    0 <= a < b < i + 1 && p@[a].vote_count == best && p@[b].vote_count == best;
                assert(0 <= a < b < i + 1);
            }
        }
        i = i + 1;
    }
    let res = WinningProposalResponse { index: index as u32, vote_count: best, tied: twice };
    proof {
        if n > 0 {
            assert(found);
            assert(leads(p@, index as int)) by {
                assert forall|k: int| 0 <= k < index implies p@[k].vote_count < p@[index as int].vote_count by {
                    assert(p@[k].vote_count <= best);
                }
            }
            lemma_leader_unique(p@, index as int, leader(p@));
        } else {
            assert(!twice);
        }
    }
    (res, index)
}

/// Solidity's `winningProposal()`: the lowest index among the proposals with
/// the most votes, that count, and whether another proposal has it too.
pub fn query_winning_proposal(ballot: &Ballot) -> (r: WinningProposalResponse)
    ensures
        r == winning(ballot@.proposals),
{
    find_winner(ballot).0
}

/// Solidity's `winnerName()`: the name of the proposal that
/// `query_winning_proposal` reports.
pub fn query_winner_name(ballot: &Ballot) -> (r: WinnerNameResponse)
    requires
        ballot@.proposals.len() > 0,
    ensures
        r == winner_name_of(ballot@.proposals),
{
    let (w, i) = find_winner(ballot);
    let p = ballot.proposals();
    assert((i as u32) as usize <= i) by (bit_vector);
    assert(w.index == i as u32);
    let name = p[w.index as usize].name.clone();
    WinnerNameResponse { name, vote_count: w.vote_count, tied: w.tied }
}

/// The answer to `Voter` once the host has checked the address: the stored
/// record, if any.
pub open spec fn voter_answer(b: BallotView, checked: Result<String, StdError>) -> Result<VoterResponse, StdError> {
    match checked {
        Err(e) => Err(e),
        Ok(a) => Ok(
            VoterResponse {
                voter: if b.voters.contains_key(a@) {
                    Some(b.voters[a@])
                } else {
                    None
                },
            },
        ),
    }
}

/// The record of the address `checked` (the host's verdict on the address
/// asked about).
pub fn voter_response(ballot: &Ballot, checked: Result<String, StdError>) -> (r: Result<VoterResponse, StdError>)
    ensures
        r == voter_answer(ballot@, checked),
{
    match checked {
        Err(e) => Err(e),
        Ok(a) => Ok(VoterResponse { voter: ballot.voter(&a) }),
    }
}

/// The record of `address`; `validate` is the host's address check.
pub fn query_voter<F: Fn(String) -> Result<String, StdError>>(
    ballot: &Ballot,
    address: String,
    validate: &F,
) -> (r: Result<VoterResponse, StdError>)
    requires
        forall|s: String| validate.requires((s,)),
    ensures
        exists|c: Result<String, StdError>| #[trigger] validate.ensures((address,), c) && r == voter_answer(ballot@, c),
{
    let checked = validate(address.clone());
    voter_response(ballot, checked)
}

/// A copy of the proposal list.
fn copy_proposals(p: &Vec<Proposal>) -> (c: Vec<Proposal>)
    ensures
        c@ == p@,
{
    let mut c: Vec<Proposal> = Vec::new();
    let mut i: usize = 0;
    while i < p.len()
        invariant
            i <= p@.len(),
            c@ == p@.take(i as int),
        decreases p@.len() - i,
    {
        c.push(p[i].clone());
        assert(p@.take(i + 1) =~= p@.take(i as int).push(p@[i as int]));
        i = i + 1;
    }
    assert(p@.take(p@.len() as int) =~= p@);
    c
}

/// `res` is the answer to `msg` on `ballot`, where `checked` is the host's
/// verdict on the address that a `Voter` query names. The answers to
/// `Proposals` are fixed by their elements, the others entirely.
pub open spec fn answers(
    ballot: Ballot,
    msg: QueryMsg,
    checked: Result<String, StdError>,
    res: Result<QueryAnswer, StdError>,
) -> bool {
    match msg {
        QueryMsg::Chairperson {} => res == Ok::<QueryAnswer, StdError>(
            QueryAnswer::Chairperson(ChairpersonResponse { chairperson: ballot.chairperson_value() }),
        ),
        QueryMsg::Proposals {} => res matches Ok(QueryAnswer::Proposals(p)) && p.proposals@
            == ballot@.proposals,
        QueryMsg::Voter { address } => match voter_answer(ballot@, checked) {
            Ok(v) => res == Ok::<QueryAnswer, StdError>(QueryAnswer::Voter(v)),
            Err(e) => res == Err::<QueryAnswer, StdError>(e),
        },
        QueryMsg::WinningProposal {} => res == Ok::<QueryAnswer, StdError>(
            QueryAnswer::WinningProposal(winning(ballot@.proposals)),
        ),
        QueryMsg::WinnerName {} => res == Ok::<QueryAnswer, StdError>(
            QueryAnswer::WinnerName(winner_name_of(ballot@.proposals)),
        ),
    }
}

/// What `query` answers for `msg`: the host is asked about an address only
/// for a `Voter` query, and the answer is `answers` for its verdict.
pub open spec fn query_done<F: Fn(String) -> Result<String, StdError>>(
    ballot: Ballot,
    msg: QueryMsg,
    validate: F,
    res: Result<QueryAnswer, StdError>,
) -> bool {
    match msg {
        QueryMsg::Voter { address } => exists|c: Result<String, StdError>|
            #[trigger] validate.ensures((address,), c) && answers(ballot, msg, c, res),
        _ => forall|c: Result<String, StdError>| #[trigger] answers(ballot, msg, c, res),
    }
}

/// Answers the read-only call `msg`. `WinnerName` needs at least one
/// proposal, which every deployed ballot has.
pub fn query<F: Fn(String) -> Result<String, StdError>>(ballot: &Ballot, msg: QueryMsg, validate: F) -> (res:
    Result<QueryAnswer, StdError>)
    requires
        forall|s: String| validate.requires((s,)),
        msg is WinnerName ==> ballot@.proposals.len() > 0,
    ensures
        query_done(*ballot, msg, validate, res),
{
    match msg {
        QueryMsg::Chairperson {} => Ok(
            QueryAnswer::Chairperson(ChairpersonResponse { chairperson: ballot.chairperson().clone() }),
        ),
        QueryMsg::Proposals {} => Ok(
            QueryAnswer::Proposals(ProposalsResponse { proposals: copy_proposals(ballot.proposals()) }),
        ),
        QueryMsg::Voter { address } => match query_voter(ballot, address, &validate) {
            Ok(v) => Ok(QueryAnswer::Voter(v)),
            Err(e) => Err(e),
        },
        QueryMsg::WinningProposal {} => Ok(QueryAnswer::WinningProposal(query_winning_proposal(ballot))),
        QueryMsg::WinnerName {} => Ok(QueryAnswer::WinnerName(query_winner_name(ballot))),
    }
}

} // verus!
