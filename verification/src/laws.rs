//! Properties of the ballot that hold across calls: what every successful
//! call keeps, what a used vote becomes, and where delegated weight lands.

use vstd::prelude::*;
use cosmwasm_std::StdError;

use crate::contract::{
    answers, applied, delegate_of, delegate_outcome, delegate_to_outcome, execute_done, first_duplicate,
    give_right_outcome, has_earlier_copy, instantiate_outcome, leader, leads, vote_outcome,
    voter_answer, walk, winner_name_of, winning, Outcome, Walk, MAX_DELEGATION_DEPTH, MAX_PROPOSALS,
};
use cosmwasm_std::Response;
use crate::error::ContractError;
use crate::msg::{ExecuteMsg, QueryAnswer, QueryMsg, VoterResponse, WinningProposalResponse};
use crate::state::{record_of, Ballot, BallotView, Proposal, Voter};

verus! {

// ---------------------------------------------------------------------------
// Weight in play
// ---------------------------------------------------------------------------

/// The weight a record still carries: its weight until it is used, then none.
pub open spec fn unused_weight_of(v: Voter) -> int {
    if v.voted {
        0
    } else {
        v.weight as int
    }
}

/// The sum of `unused_weight_of` over the records of the addresses in `s`.
pub open spec fn unused_weight_in(voters: Map<Seq<char>, Voter>, s: Set<Seq<char>>) -> int {
    s.fold(0int, |acc: int, a: Seq<char>| acc + unused_weight_of(voters[a]))
}

/// The weight of all votes that have not been used yet.
pub open spec fn unused_weight(voters: Map<Seq<char>, Voter>) -> int {
    unused_weight_in(voters, voters.dom())
}

/// The sum of the vote counts.
pub open spec fn total_votes(p: Seq<Proposal>) -> int
    decreases p.len(),
{
    if p.len() == 0 {
        0
    } else {
        total_votes(p.drop_last()) + p.last().vote_count
    }
}

/// Every vote that was ever granted: those already counted for a proposal
/// plus those still held by voters who have not used them.
pub open spec fn tally(b: BallotView) -> int {
    total_votes(b.proposals) + unused_weight(b.voters)
}

proof fn lemma_fold_step_commutes(voters: Map<Seq<char>, Voter>)
    ensures
        vstd::set::fold::is_fun_commutative(
            |acc: int, a: Seq<char>| acc + unused_weight_of(voters[a]),
        ),
{
}

proof fn lemma_unused_in_insert(voters: Map<Seq<char>, Voter>, s: Set<Seq<char>>, a: Seq<char>)
    requires
        s.finite(),
        !s.contains(a),
    ensures
        unused_weight_in(voters, s.insert(a)) == unused_weight_in(voters, s) + unused_weight_of(voters[a]),
{
    lemma_fold_step_commutes(voters);
    vstd::set::fold::lemma_fold_insert(s, 0int, |acc: int, a: Seq<char>| acc + unused_weight_of(voters[a]), a);
}

proof fn lemma_unused_in_empty(voters: Map<Seq<char>, Voter>)
    ensures
        unused_weight_in(voters, Set::empty()) == 0,
{
    vstd::set::fold::lemma_fold_empty::<Seq<char>, int>(0int, |acc: int, a: Seq<char>| acc + unused_weight_of(voters[a]));
}

proof fn lemma_unused_in_agree(m1: Map<Seq<char>, Voter>, m2: Map<Seq<char>, Voter>, s: Set<Seq<char>>)
    requires
        s.finite(),
        forall|a: Seq<char>| s.contains(a) ==> unused_weight_of(m1[a]) == unused_weight_of(m2[a]),
    ensures
        unused_weight_in(m1, s) == unused_weight_in(m2, s),
    decreases s.len(),
{
    if s.len() == 0 {
        assert(s =~= Set::<Seq<char>>::empty());
        lemma_unused_in_empty(m1);
        lemma_unused_in_empty(m2);
    } else {
        let x = s.choose();
        assert(s.contains(x));
        let r = s.remove(x);
        assert(s =~= r.insert(x));
        lemma_unused_in_agree(m1, m2, r);
        lemma_unused_in_insert(m1, r, x);
        lemma_unused_in_insert(m2, r, x);
    }
}

/// Replacing one record changes the unused weight by the difference of the
/// two records' unused weights.
pub proof fn lemma_unused_weight_insert(voters: Map<Seq<char>, Voter>, a: Seq<char>, v: Voter)
    requires
        voters.dom().finite(),
    ensures
        voters.insert(a, v).dom().finite(),
        unused_weight(voters.insert(a, v)) == unused_weight(voters) - unused_weight_of(record_of(voters, a))
            + unused_weight_of(v),
{
    let m2 = voters.insert(a, v);
    let r = voters.dom().remove(a);
    assert(m2.dom() =~= r.insert(a));
    lemma_unused_in_insert(m2, r, a);
    lemma_unused_in_agree(voters, m2, r);
    if voters.contains_key(a) {
        assert(voters.dom() =~= r.insert(a));
        lemma_unused_in_insert(voters, r, a);
    } else {
        assert(voters.dom() =~= r);
    }
}

pub proof fn lemma_total_votes_update(p: Seq<Proposal>, i: int, x: Proposal)
    requires
        0 <= i < p.len(),
    ensures
        total_votes(p.update(i, x)) == total_votes(p) - p[i].vote_count + x.vote_count,
    decreases p.len(),
{
    let q = p.update(i, x);
    if i == p.len() - 1 {
        assert(q.drop_last() =~= p.drop_last());
    } else {
        assert(q.drop_last() =~= p.drop_last().update(i, x));
        lemma_total_votes_update(p.drop_last(), i, x);
    }
}

// ---------------------------------------------------------------------------
// One outcome for every state-changing call
// ---------------------------------------------------------------------------

/// The outcome of `msg` sent by `sender`, when the address the message names
/// (if any) was checked by the host as `checked`.
pub open spec fn execute_outcome(
    b: BallotView,
    sender: String,
    msg: ExecuteMsg,
    checked: Result<String, StdError>,
) -> Outcome {
    match msg {
        ExecuteMsg::GiveRightToVote { voter } => give_right_outcome(b, sender, voter, checked),
        ExecuteMsg::Vote { proposal } => vote_outcome(b, sender, proposal),
        ExecuteMsg::Delegate { to } => delegate_outcome(b, sender, checked),
    }
}

/// Every call of `execute` returns and leaves behind what `execute_outcome`
/// says for some verdict of the host on the address the message names (the
/// verdict that the host's check gave, where it was asked), so the laws
/// below, stated over `execute_outcome`, hold of `execute`.
pub proof fn law_execute_follows_outcome<F: Fn(String) -> Result<String, StdError>>(
    before: BallotView,
    sender: String,
    msg: ExecuteMsg,
    validate: F,
    res: Result<Response, ContractError>,
    after: BallotView,
)
    requires
        execute_done(before, sender, msg, validate, res, after),
    ensures
        exists|c: Result<String, StdError>|
            applied(#[trigger] execute_outcome(before, sender, msg, c), before, res, after),
{
    let any: Result<String, StdError> = vstd::pervasive::arbitrary();
    match msg {
        ExecuteMsg::GiveRightToVote { voter } => {
            if sender@ != before.chairperson {
                assert(applied(execute_outcome(before, sender, msg, any), before, res, after));
            } else {
                let c = choose|c: Result<String, StdError>|
                    #[trigger] validate.ensures((voter,), c) && applied(
                        give_right_outcome(before, sender, voter, c),
                        before,
                        res,
                        after,
                    );
                assert(applied(execute_outcome(before, sender, msg, c), before, res, after));
            }
        },
        ExecuteMsg::Vote { proposal } => {
            assert(applied(execute_outcome(before, sender, msg, any), before, res, after));
        },
        ExecuteMsg::Delegate { to } => {
            let sv = record_of(before.voters, sender@);
            if sv.weight == 0 || sv.voted {
                assert(applied(execute_outcome(before, sender, msg, any), before, res, after));
            } else {
                let c = choose|c: Result<String, StdError>|
                    #[trigger] validate.ensures((to,), c) && applied(
                        delegate_outcome(before, sender, c),
                        before,
                        res,
                        after,
                    );
                assert(applied(execute_outcome(before, sender, msg, c), before, res, after));
            }
        },
    }
}

/// Where a delegation chain ends: at an address that delegated to no one,
/// which is not the sender.
pub proof fn lemma_walk_end(voters: Map<Seq<char>, Voter>, sender: Seq<char>, target: String, hops: nat)
    requires
        target@ != sender,
        walk(voters, sender, target, hops) is End,
    ensures
        ({
            let end = walk(voters, sender, target, hops)->End_0;
            &&& delegate_of(voters, end@) is None
            &&& end@ != sender
        }),
    decreases hops,
{
    match delegate_of(voters, target@) {
        None => {},
        Some(next) => {
            if next@ != sender && hops > 0 {
                lemma_walk_end(voters, sender, next, (hops - 1) as nat);
            }
        },
    }
}

/// The final delegate of a successful delegation, and what is known of it.
proof fn lemma_delegate_end(b: BallotView, sender: String, checked: Result<String, StdError>)
    requires
        delegate_outcome(b, sender, checked) is Ok,
    ensures
        checked is Ok,
        checked->Ok_0@ != sender@,
        walk(b.voters, sender@, checked->Ok_0, MAX_DELEGATION_DEPTH as nat) is End,
        ({
            let end = walk(b.voters, sender@, checked->Ok_0, MAX_DELEGATION_DEPTH as nat)->End_0;
            &&& delegate_outcome(b, sender, checked) == delegate_to_outcome(b, sender, end)
            &&& delegate_of(b.voters, end@) is None
            &&& end@ != sender@
        }),
{
    let to = checked->Ok_0;
    lemma_walk_end(b.voters, sender@, to, MAX_DELEGATION_DEPTH as nat);
}

// ---------------------------------------------------------------------------
// Laws
// ---------------------------------------------------------------------------

/// Every granted vote is counted exactly once: the vote counts plus the
/// weight not yet used stay the same through every successful vote or
/// delegation, and grow by exactly one with every grant. No vote is lost,
/// duplicated or silently reset.
pub proof fn law_votes_are_conserved(
    b: BallotView,
    sender: String,
    msg: ExecuteMsg,
    checked: Result<String, StdError>,
)
    requires
        b.voters.dom().finite(),
        execute_outcome(b, sender, msg, checked) is Ok,
    ensures
        ({
            let b2 = execute_outcome(b, sender, msg, checked)->Ok_0.0;
            &&& b2.voters.dom().finite()
            &&& tally(b2) == tally(b) + if msg is GiveRightToVote {
                1int
            } else {
                0int
            }
        }),
{
    match msg {
        ExecuteMsg::GiveRightToVote { voter } => {
            let addr = checked->Ok_0;
            lemma_unused_weight_insert(b.voters, addr@, Voter::granted());
        },
        ExecuteMsg::Vote { proposal } => {
            let v = record_of(b.voters, sender@);
            let p = b.proposals[proposal as int];
            lemma_unused_weight_insert(b.voters, sender@, Voter { voted: true, vote: Some(proposal), ..v });
            lemma_total_votes_update(
                b.proposals,
                proposal as int,
                Proposal { name: p.name, vote_count: (p.vote_count + v.weight) as u64 },
            );
        },
        ExecuteMsg::Delegate { to } => {
            lemma_delegate_end(b, sender, checked);
            let end = walk(b.voters, sender@, checked->Ok_0, MAX_DELEGATION_DEPTH as nat)->End_0;
            let sv = record_of(b.voters, sender@);
            let tv = record_of(b.voters, end@);
            let spent = Voter { voted: true, delegate: Some(end), ..sv };
            let voters1 = b.voters.insert(sender@, spent);
            lemma_unused_weight_insert(b.voters, sender@, spent);
            if tv.voted {
                let index: u32 = match tv.vote {
                    Some(i) => i,
                    None => 0,
                };
                let p = b.proposals[index as int];
                lemma_total_votes_update(
                    b.proposals,
                    index as int,
                    Proposal { name: p.name, vote_count: (p.vote_count + sv.weight) as u64 },
                );
            } else {
                assert(record_of(voters1, end@) == tv);
                lemma_unused_weight_insert(voters1, end@, Voter { weight: (tv.weight + sv.weight) as u64, ..tv });
            }
        },
    }
}

/// A vote, once used, is used for good: a successful call never changes the
/// record of an address that has already voted or delegated.
pub proof fn law_used_votes_are_final(
    b: BallotView,
    sender: String,
    msg: ExecuteMsg,
    checked: Result<String, StdError>,
    a: Seq<char>,
)
    requires
        execute_outcome(b, sender, msg, checked) is Ok,
        b.voters.contains_key(a),
        b.voters[a].voted,
    ensures
        ({
            let b2 = execute_outcome(b, sender, msg, checked)->Ok_0.0;
            b2.voters.contains_key(a) && b2.voters[a] == b.voters[a]
        }),
{
    if msg is Delegate {
        lemma_delegate_end(b, sender, checked);
    }
}

/// Each voter has one turn: after a successful vote or delegation, every
/// further vote or delegation by the same sender is refused with
/// `AlreadyVoted`, whatever it names.
pub proof fn law_one_turn_per_voter(
    b: BallotView,
    sender: String,
    msg: ExecuteMsg,
    checked: Result<String, StdError>,
    proposal: u32,
    checked_again: Result<String, StdError>,
)
    requires
        !(msg is GiveRightToVote),
        execute_outcome(b, sender, msg, checked) is Ok,
    ensures
        ({
            let b2 = execute_outcome(b, sender, msg, checked)->Ok_0.0;
            &&& vote_outcome(b2, sender, proposal) == Err::<(BallotView, Seq<(Seq<char>, Seq<char>)>), ContractError>(
                ContractError::AlreadyVoted { address: sender },
            )
            &&& delegate_outcome(b2, sender, checked_again) == Err::<(BallotView, Seq<(Seq<char>, Seq<char>)>), ContractError>(
                ContractError::AlreadyVoted { address: sender },
            )
        }),
{
    if msg is Delegate {
        lemma_delegate_end(b, sender, checked);
    }
}

/// The ballot itself never changes after deployment: same chairperson, same
/// number of proposals with the same names, and no count ever goes down.
pub proof fn law_ballot_is_fixed(
    b: BallotView,
    sender: String,
    msg: ExecuteMsg,
    checked: Result<String, StdError>,
)
    requires
        execute_outcome(b, sender, msg, checked) is Ok,
    ensures
        ({
            let b2 = execute_outcome(b, sender, msg, checked)->Ok_0.0;
            &&& b2.chairperson == b.chairperson
            &&& b2.proposals.len() == b.proposals.len()
            &&& forall|i: int|
                0 <= i < b.proposals.len() ==> b2.proposals[i].name == b.proposals[i].name
                    && b2.proposals[i].vote_count >= b.proposals[i].vote_count
        }),
{
    if msg is Delegate {
        lemma_delegate_end(b, sender, checked);
    }
}

/// Only the chairperson can hand out the right to vote, and each grant is
/// worth exactly one vote.
pub proof fn law_only_chairperson_grants(
    b: BallotView,
    sender: String,
    voter: String,
    checked: Result<String, StdError>,
)
    requires
        give_right_outcome(b, sender, voter, checked) is Ok,
    ensures
        sender@ == b.chairperson,
        checked is Ok,
        give_right_outcome(b, sender, voter, checked)->Ok_0.0.voters == b.voters.insert(
            checked->Ok_0@,
            Voter::granted(),
        ),
{
}

/// Delegation chains collapse: a successful delegation records as the
/// sender's delegate an address other than the sender that has not
/// delegated itself, so no weight is ever parked on a used turn.
pub proof fn law_delegation_reaches_chain_end(
    b: BallotView,
    sender: String,
    checked: Result<String, StdError>,
)
    requires
        delegate_outcome(b, sender, checked) is Ok,
    ensures
        ({
            let b2 = delegate_outcome(b, sender, checked)->Ok_0.0;
            &&& b2.voters.contains_key(sender@)
            &&& b2.voters[sender@].voted
            &&& b2.voters[sender@].delegate matches Some(end) && end@ != sender@ && delegate_of(
                b.voters,
                end@,
            ) is None && record_of(b.voters, end@).weight != 0
        }),
{
    lemma_delegate_end(b, sender, checked);
}

// ---------------------------------------------------------------------------
// Well-formed records
// ---------------------------------------------------------------------------

/// Every stored record is in one of three shapes: holding an unused vote,
/// having voted for an existing proposal, or having delegated; and every
/// stored record carries weight.
pub open spec fn records_consistent(b: BallotView) -> bool {
    forall|a: Seq<char>| #[trigger]
        b.voters.contains_key(a) ==> {
            let v = b.voters[a];
            &&& v.weight > 0
            &&& !v.voted ==> v.delegate is None && v.vote is None
            &&& v.voted ==> (v.delegate is Some && v.vote is None) || (v.delegate is None
                && v.vote is Some && v.vote->0 < b.proposals.len())
        }
}

/// A freshly deployed ballot holds one vote, the chairperson's, and keeps
/// the ballot invariant.
pub proof fn law_fresh_ballot(sender: String, names: Seq<String>)
    requires
        instantiate_outcome(sender, names) is Ok,
    ensures
        ({
            let b = instantiate_outcome(sender, names)->Ok_0.0;
            &&& ballot_invariant(b)
            &&& tally(b) == 1
        }),
{
    let b = instantiate_outcome(sender, names)->Ok_0.0;
    lemma_no_first_duplicate_means_distinct(names);
    assert(distinct_names(b.proposals));
    assert forall|a: Seq<char>, n: nat| n > 0 implies #[trigger] follow(b.voters, a, n) != Some(a) by {
        assert(delegate_of(b.voters, a) is None);
    }
    let empty = Map::<Seq<char>, Voter>::empty();
    assert(empty.dom() =~= Set::<Seq<char>>::empty());
    lemma_unused_in_empty(empty);
    lemma_unused_weight_insert(empty, sender@, Voter::granted());
    assert(total_votes(b.proposals) == 0) by {
        lemma_total_votes_zero(b.proposals);
    }
}

proof fn lemma_total_votes_zero(p: Seq<Proposal>)
    requires
        forall|i: int| 0 <= i < p.len() ==> p[i].vote_count == 0,
    ensures
        total_votes(p) == 0,
    decreases p.len(),
{
    if p.len() > 0 {
        lemma_total_votes_zero(p.drop_last());
    }
}

/// Every successful call keeps the records consistent.
pub proof fn law_records_stay_consistent(
    b: BallotView,
    sender: String,
    msg: ExecuteMsg,
    checked: Result<String, StdError>,
)
    requires
        records_consistent(b),
        execute_outcome(b, sender, msg, checked) is Ok,
    ensures
        records_consistent(execute_outcome(b, sender, msg, checked)->Ok_0.0),
{
    let b2 = execute_outcome(b, sender, msg, checked)->Ok_0.0;
    if msg is Delegate {
        lemma_delegate_end(b, sender, checked);
    }
    assert forall|a: Seq<char>| #[trigger] b2.voters.contains_key(a) implies {
        let v = b2.voters[a];
        &&& v.weight > 0
        &&& !v.voted ==> v.delegate is None && v.vote is None
        &&& v.voted ==> (v.delegate is Some && v.vote is None) || (v.delegate is None
            && v.vote is Some && v.vote->0 < b2.proposals.len())
    } by {
        if b.voters.contains_key(a) {
            assert(b.voters.contains_key(a));
        }
    }
}

/// On consistent records, a delegation to someone who already voted always
/// finds the proposal they voted for: `ProposalNotFound` never comes from
/// a delegation.
pub proof fn law_delegation_finds_the_vote(
    b: BallotView,
    sender: String,
    checked: Result<String, StdError>,
)
    requires
        records_consistent(b),
    ensures
        !(delegate_outcome(b, sender, checked) matches Err(ContractError::ProposalNotFound { .. })),
{
    let sv = record_of(b.voters, sender@);
    if sv.weight != 0 && !sv.voted && checked is Ok && checked->Ok_0@ != sender@ {
        let to = checked->Ok_0;
        let w = walk(b.voters, sender@, to, MAX_DELEGATION_DEPTH as nat);
        if w is End {
            lemma_walk_end(b.voters, sender@, to, MAX_DELEGATION_DEPTH as nat);
            let end = w->End_0;
            if b.voters.contains_key(end@) {
                assert(b.voters.contains_key(end@));
            }
        }
    }
}

// ---------------------------------------------------------------------------
// The ballot invariant
// ---------------------------------------------------------------------------

/// Where following delegation links `n` times from `a` leads, or `None` if
/// the chain stops before.
pub open spec fn follow(voters: Map<Seq<char>, Voter>, a: Seq<char>, n: nat) -> Option<Seq<char>>
    decreases n,
{
    if n == 0 {
        Some(a)
    } else {
        match delegate_of(voters, a) {
            None => None,
            Some(d) => follow(voters, d@, (n - 1) as nat),
        }
    }
}

/// No chain of delegation links leads back to where it started.
pub open spec fn no_delegation_cycle(voters: Map<Seq<char>, Voter>) -> bool {
    forall|a: Seq<char>, n: nat| n > 0 ==> #[trigger] follow(voters, a, n) != Some(a)
}

/// Every recorded delegate is another address that has a record.
pub open spec fn delegates_registered(voters: Map<Seq<char>, Voter>) -> bool {
    forall|a: Seq<char>| #[trigger]
        voters.contains_key(a) ==> (voters[a].delegate is Some ==> voters[a].delegate->0@ != a
            && voters.contains_key(voters[a].delegate->0@))
}

/// No two proposals share a name.
pub open spec fn distinct_names(p: Seq<Proposal>) -> bool {
    forall|i: int, j: int| 0 <= i < j < p.len() ==> p[i].name@ != p[j].name@
}

/// What every deployed ballot satisfies: between one and `MAX_PROPOSALS`
/// proposals with distinct names, a registered chairperson, consistent
/// records, delegates that are other registered addresses, and no cycle of
/// delegations.
pub open spec fn ballot_invariant(b: BallotView) -> bool {
    &&& 1 <= b.proposals.len() <= MAX_PROPOSALS
    &&& distinct_names(b.proposals)
    &&& b.voters.dom().finite()
    &&& b.voters.contains_key(b.chairperson)
    &&& records_consistent(b)
    &&& delegates_registered(b.voters)
    &&& no_delegation_cycle(b.voters)
}

proof fn lemma_first_duplicate_exists(names: Seq<String>, j: int)
    requires
        0 <= j < names.len(),
        has_earlier_copy(names, j),
    ensures
        exists|k: int| first_duplicate(names, k),
    decreases j,
{
    if forall|i: int| 0 <= i < j ==> !has_earlier_copy(names, i) {
        assert(first_duplicate(names, j));
    } else {
        let i = choose|i: int| 0 <= i < j && has_earlier_copy(names, i);
        lemma_first_duplicate_exists(names, i);
    }
}

proof fn lemma_no_first_duplicate_means_distinct(names: Seq<String>)
    requires
        !exists|k: int| first_duplicate(names, k),
    ensures
        forall|i: int, j: int| 0 <= i < j < names.len() ==> names[i]@ != names[j]@,
{
    assert forall|i: int, j: int| 0 <= i < j < names.len() implies names[i]@ != names[j]@ by {
        if names[i]@ == names[j]@ {
            assert(has_earlier_copy(names, j));
            lemma_first_duplicate_exists(names, j);
        }
    }
}

proof fn lemma_follow_same_links(m1: Map<Seq<char>, Voter>, m2: Map<Seq<char>, Voter>, a: Seq<char>, n: nat)
    requires
        forall|x: Seq<char>| #[trigger] delegate_of(m1, x) == delegate_of(m2, x),
    ensures
        follow(m1, a, n) == follow(m2, a, n),
    decreases n,
{
    if n > 0 {
        assert(delegate_of(m1, a) == delegate_of(m2, a));
        if let Some(d) = delegate_of(m1, a) {
            lemma_follow_same_links(m1, m2, d@, (n - 1) as nat);
        }
    }
}

proof fn lemma_follow_split(m: Map<Seq<char>, Voter>, x: Seq<char>, k: nat, j: nat, z: Seq<char>)
    requires
        follow(m, x, k) == Some(z),
    ensures
        follow(m, x, k + j) == follow(m, z, j),
    decreases k,
{
    if k > 0 {
        let d = delegate_of(m, x)->0;
        assert(follow(m, x, (k + j) as nat) == follow(m, d@, (k + j - 1) as nat));
        lemma_follow_split(m, d@, (k - 1) as nat, j, z);
    }
}

/// Walks that never pass through `s` see the same links in both maps.
proof fn lemma_follow_avoiding(
    m: Map<Seq<char>, Voter>,
    m2: Map<Seq<char>, Voter>,
    s: Seq<char>,
    x: Seq<char>,
    n: nat,
)
    requires
        forall|y: Seq<char>| y != s ==> #[trigger] delegate_of(m2, y) == delegate_of(m, y),
        forall|k: nat| k < n ==> #[trigger] follow(m2, x, k) != Some(s),
    ensures
        follow(m2, x, n) == follow(m, x, n),
    decreases n,
{
    if n > 0 {
        assert(follow(m2, x, 0) != Some(s));
        assert(delegate_of(m2, x) == delegate_of(m, x));
        if let Some(d) = delegate_of(m2, x) {
            assert forall|k: nat| k < (n - 1) as nat implies #[trigger] follow(m2, d@, k) != Some(s) by {
                assert(follow(m2, x, k + 1) == follow(m2, d@, k));
                assert(follow(m2, x, (k + 1) as nat) != Some(s));
            }
            lemma_follow_avoiding(m, m2, s, d@, (n - 1) as nat);
        }
    }
}

/// Adding one link from `s` (which had none) to `t` (which has none) makes
/// no cycle.
proof fn lemma_link_to_sink_keeps_acyclic(
    m: Map<Seq<char>, Voter>,
    m2: Map<Seq<char>, Voter>,
    s: Seq<char>,
    t: Seq<char>,
)
    requires
        no_delegation_cycle(m),
        s != t,
        forall|y: Seq<char>| y != s ==> #[trigger] delegate_of(m2, y) == delegate_of(m, y),
        delegate_of(m2, s) is Some && delegate_of(m2, s)->0@ == t,
        delegate_of(m2, t) is None,
    ensures
        no_delegation_cycle(m2),
{
    assert forall|a: Seq<char>, n: nat| n > 0 implies #[trigger] follow(m2, a, n) != Some(a) by {
        if exists|k: nat| k < n && #[trigger] follow(m2, a, k) == Some(s) {
            let k = choose|k: nat| k < n && #[trigger] follow(m2, a, k) == Some(s);
            lemma_follow_split(m2, a, k, (n - k) as nat, s);
            assert(follow(m2, s, (n - k) as nat) == follow(m2, t, (n - k - 1) as nat));
            if n - k - 1 > 0 {
                assert(follow(m2, t, (n - k - 1) as nat) is None);
            } else {
                assert(follow(m2, t, n) is None);
            }
        } else {
            lemma_follow_avoiding(m, m2, s, a, n);
            assert(follow(m, a, n) != Some(a));
        }
    }
}

/// Every successful call keeps the ballot invariant.
pub proof fn law_invariant_is_kept(
    b: BallotView,
    sender: String,
    msg: ExecuteMsg,
    checked: Result<String, StdError>,
)
    requires
        ballot_invariant(b),
        execute_outcome(b, sender, msg, checked) is Ok,
    ensures
        ballot_invariant(execute_outcome(b, sender, msg, checked)->Ok_0.0),
{
    let b2 = execute_outcome(b, sender, msg, checked)->Ok_0.0;
    law_votes_are_conserved(b, sender, msg, checked);
    law_ballot_is_fixed(b, sender, msg, checked);
    law_records_stay_consistent(b, sender, msg, checked);
    assert(distinct_names(b2.proposals)) by {
        assert forall|i: int, j: int| 0 <= i < j < b2.proposals.len() implies b2.proposals[i].name@
            != b2.proposals[j].name@ by {
            assert(b2.proposals[i].name == b.proposals[i].name);
            assert(b2.proposals[j].name == b.proposals[j].name);
        }
    }
    match msg {
        ExecuteMsg::Delegate { to } => {
            lemma_delegate_end(b, sender, checked);
            let end = walk(b.voters, sender@, checked->Ok_0, MAX_DELEGATION_DEPTH as nat)->End_0;
            let sv = record_of(b.voters, sender@);
            assert(b.voters.contains_key(sender@));
            assert(b.voters.contains_key(end@));
            assert forall|y: Seq<char>| y != sender@ implies #[trigger] delegate_of(b2.voters, y)
                == delegate_of(b.voters, y) by {
                if y == end@ {
                    assert(b2.voters.contains_key(y));
                }
            }
            assert(delegate_of(b2.voters, end@) is None);
            lemma_link_to_sink_keeps_acyclic(b.voters, b2.voters, sender@, end@);
            assert forall|a: Seq<char>| #[trigger] b2.voters.contains_key(a) implies (b2.voters[a].delegate is Some
                ==> b2.voters[a].delegate->0@ != a && b2.voters.contains_key(
                b2.voters[a].delegate->0@,
            )) by {
                if a != sender@ {
                    assert(b.voters.contains_key(a));
                }
            }
        },
        _ => {
            assert forall|y: Seq<char>| #[trigger] delegate_of(b.voters, y) == delegate_of(b2.voters, y) by {
                if b.voters.contains_key(y) {
                    assert(b.voters.contains_key(y));
                }
            }
            assert forall|a: Seq<char>, n: nat| n > 0 implies #[trigger] follow(b2.voters, a, n) != Some(a) by {
                lemma_follow_same_links(b.voters, b2.voters, a, n);
                assert(follow(b.voters, a, n) != Some(a));
            }
            assert forall|a: Seq<char>| #[trigger] b2.voters.contains_key(a) implies (b2.voters[a].delegate is Some
                ==> b2.voters[a].delegate->0@ != a && b2.voters.contains_key(
                b2.voters[a].delegate->0@,
            )) by {
                if b.voters.contains_key(a) {
                    assert(b.voters.contains_key(a));
                }
            }
        },
    }
}

// ---------------------------------------------------------------------------
// Queries
// ---------------------------------------------------------------------------

/// Two query results are the same: equal, where two `Proposals` answers
/// count as equal when they list the same proposals in the same order.
pub open spec fn same_answer(r1: Result<QueryAnswer, StdError>, r2: Result<QueryAnswer, StdError>) -> bool {
    match (r1, r2) {
        (Ok(QueryAnswer::Proposals(p1)), Ok(QueryAnswer::Proposals(p2))) => p1.proposals@
            == p2.proposals@,
        _ => r1 == r2,
    }
}

/// A query's answer depends on nothing but the ballot, the message and the
/// host's verdict on the address a `Voter` query names: any two answers
/// that `query` may give for them are the same. (`query` reads the ballot
/// through a shared reference, so it never changes it.)
pub proof fn law_queries_are_determined(
    ballot: Ballot,
    msg: QueryMsg,
    checked: Result<String, StdError>,
    r1: Result<QueryAnswer, StdError>,
    r2: Result<QueryAnswer, StdError>,
)
    requires
        answers(ballot, msg, checked, r1),
        answers(ballot, msg, checked, r2),
    ensures
        same_answer(r1, r2),
{
}

// ---------------------------------------------------------------------------
// What each call is for
// ---------------------------------------------------------------------------

proof fn lemma_leader_exists(p: Seq<Proposal>)
    requires
        p.len() > 0,
    ensures
        leads(p, leader(p)),
    decreases p.len(),
{
    if p.len() == 1 {
        assert(leads(p, 0));
    } else {
        let q = p.drop_last();
        lemma_leader_exists(q);
        let i = leader(q);
        let last = p.len() - 1;
        assert forall|j: int| 0 <= j < q.len() implies q[j] == p[j] by {}
        if p[last].vote_count > q[i].vote_count {
            assert forall|j: int| 0 <= j < p.len() implies p[j].vote_count <= p[last].vote_count by {
                if j < last {
                    assert(q[j].vote_count <= q[i].vote_count);
                }
            }
            assert forall|j: int| 0 <= j < last implies p[j].vote_count < p[last].vote_count by {
                assert(q[j].vote_count <= q[i].vote_count);
            }
            assert(leads(p, last));
        } else {
            assert forall|j: int| 0 <= j < p.len() implies p[j].vote_count <= p[i].vote_count by {
                if j < last {
                    assert(q[j].vote_count <= q[i].vote_count);
                }
            }
            assert forall|j: int| 0 <= j < i implies p[j].vote_count < p[i].vote_count by {
                assert(q[j].vote_count < q[i].vote_count);
            }
            assert(leads(p, i));
        }
    }
}

/// The winning proposal is the lowest index among those with the most
/// votes: its count is at least every proposal's count, every earlier
/// proposal has fewer, and it is flagged as tied exactly when two different
/// proposals, wherever they stand, both have that count. An empty list
/// answers index 0, count 0, no tie.
pub proof fn law_winning_proposal_is_the_first_leader(p: Seq<Proposal>)
    ensures
        p.len() == 0 ==> winning(p) == (WinningProposalResponse { index: 0, vote_count: 0, tied: false }),
        forall|j: int| 0 <= j < p.len() ==> p[j].vote_count <= winning(p).vote_count,
        p.len() > 0 ==> exists|i: int|
            0 <= i < p.len() && winning(p).index == i as u32 && p[i].vote_count == winning(p).vote_count
                && forall|j: int| 0 <= j < i ==> p[j].vote_count < winning(p).vote_count,
        winning(p).tied <==> exists|i: int, j: int|
            0 <= i < j < p.len() && p[i].vote_count == winning(p).vote_count && p[j].vote_count
                == winning(p).vote_count,
{
    if p.len() > 0 {
        lemma_leader_exists(p);
        let i = leader(p);
        assert(0 <= i < p.len() && winning(p).index == i as u32);
    }
}

/// The winner's name is that of a proposal with the most votes and no
/// earlier proposal as good: its count is at least every proposal's count,
/// and it is flagged as tied exactly when two different proposals both have
/// that count. (The index is handed on as a `u32`, so the name is that of
/// the proposal at the leader's index taken modulo 2^32.)
pub proof fn law_winner_name_names_a_leader(p: Seq<Proposal>)
    requires
        p.len() > 0,
    ensures
        forall|j: int| 0 <= j < p.len() ==> p[j].vote_count <= winner_name_of(p).vote_count,
        exists|i: int|
            0 <= i < p.len() && p[i].vote_count == winner_name_of(p).vote_count && (forall|j: int|
                0 <= j < i ==> p[j].vote_count < winner_name_of(p).vote_count) && winner_name_of(p).name
                == p[(i as u32) as int].name,
        winner_name_of(p).tied <==> exists|i: int, j: int|
            0 <= i < j < p.len() && p[i].vote_count == winner_name_of(p).vote_count && p[j].vote_count
                == winner_name_of(p).vote_count,
{
    law_winning_proposal_is_the_first_leader(p);
    lemma_leader_exists(p);
    let i = leader(p);
    assert(0 <= i < p.len() && p[i].vote_count == winner_name_of(p).vote_count);
}

/// A grant succeeds exactly when the sender is the chairperson, the host
/// accepts the address, and that address holds no vote and has not voted;
/// the chairperson's own record plays no part. A successful grant gives the
/// address a record of weight 1, unused, and changes nothing else.
pub proof fn law_grant_enfranchises_fresh_addresses(
    b: BallotView,
    sender: String,
    voter: String,
    checked: Result<String, StdError>,
)
    ensures
        give_right_outcome(b, sender, voter, checked) is Ok <==> {
            &&& sender@ == b.chairperson
            &&& checked is Ok
            &&& !(b.voters.contains_key(checked->Ok_0@) && (b.voters[checked->Ok_0@].voted
                || b.voters[checked->Ok_0@].weight != 0))
        },
        give_right_outcome(b, sender, voter, checked) is Ok ==> {
            let b2 = give_right_outcome(b, sender, voter, checked)->Ok_0.0;
            &&& b2.chairperson == b.chairperson
            &&& b2.proposals == b.proposals
            &&& b2.voters == b.voters.insert(
                checked->Ok_0@,
                Voter { weight: 1, voted: false, delegate: None, vote: None },
            )
        },
{
}

/// The `Voter` query answers the stored record of the checked address as it
/// is, or `None` for an address without one, and passes on the host's
/// refusal of a malformed address.
pub proof fn law_voter_query_reports_the_stored_record(b: BallotView, checked: Result<String, StdError>)
    ensures
        checked is Err ==> voter_answer(b, checked) == Err::<VoterResponse, StdError>(checked->Err_0),
        checked is Ok && b.voters.contains_key(checked->Ok_0@) ==> voter_answer(b, checked)
            == Ok::<VoterResponse, StdError>(
            VoterResponse { voter: Some(b.voters[checked->Ok_0@]) },
        ),
        checked is Ok && !b.voters.contains_key(checked->Ok_0@) ==> voter_answer(b, checked)
            == Ok::<VoterResponse, StdError>(VoterResponse { voter: None }),
{
}

/// After a successful vote or delegation, asking about the sender shows the
/// vote as used, with the sender's weight unchanged: a vote records the
/// chosen proposal, a delegation records the delegate.
pub proof fn law_used_vote_shows_in_voter_query(
    b: BallotView,
    sender: String,
    msg: ExecuteMsg,
    checked: Result<String, StdError>,
)
    requires
        !(msg is GiveRightToVote),
        execute_outcome(b, sender, msg, checked) is Ok,
    ensures
        ({
            let b2 = execute_outcome(b, sender, msg, checked)->Ok_0.0;
            let answer = voter_answer(b2, Ok(sender));
            &&& answer is Ok
            &&& answer->Ok_0.voter is Some
            &&& answer->Ok_0.voter->0.voted
            &&& answer->Ok_0.voter->0.weight == b.voters[sender@].weight
            &&& b.voters.contains_key(sender@) && !b.voters[sender@].voted
            &&& (msg matches ExecuteMsg::Vote { proposal } ==> answer->Ok_0.voter->0.vote == Some(
                proposal,
            ) && answer->Ok_0.voter->0.delegate == b.voters[sender@].delegate)
            &&& (msg is Delegate ==> answer->Ok_0.voter->0.delegate is Some)
        }),
{
    law_voter_query_reports_the_stored_record(b, Ok(sender));
    if msg is Delegate {
        lemma_delegate_end(b, sender, checked);
    }
}

/// A successful delegation marks the sender's vote as used and records the
/// end of the chain as delegate, keeping the sender's weight and everything
/// else in the sender's record. The weight goes to the end of the chain: to
/// its record if it has not voted, else onto the proposal it voted for. No
/// other record changes.
pub proof fn law_delegation_hands_over_the_weight(
    b: BallotView,
    sender: String,
    checked: Result<String, StdError>,
)
    requires
        delegate_outcome(b, sender, checked) is Ok,
    ensures
        ({
            let b2 = delegate_outcome(b, sender, checked)->Ok_0.0;
            let s = sender@;
            let old = b.voters[s];
            &&& b.voters.contains_key(s) && b2.voters.contains_key(s)
            &&& !old.voted && old.weight > 0
            &&& b2.voters[s].delegate is Some
            &&& b2.voters[s] == (Voter { voted: true, delegate: b2.voters[s].delegate, ..old })
            &&& ({
                let end = b2.voters[s].delegate->0@;
                let e = b.voters[end];
                &&& end != s && b.voters.contains_key(end) && e.weight > 0
                &&& !e.voted ==> b2.voters[end] == (Voter { weight: (e.weight + old.weight) as u64, ..e })
                    && b2.proposals == b.proposals && e.weight + old.weight <= u64::MAX
                &&& e.voted ==> b2.voters[end] == e && b2.proposals.len() == b.proposals.len()
                    && forall|k: int|
                    0 <= k < b.proposals.len() ==> b2.proposals[k].name == b.proposals[k].name
                        && b2.proposals[k].vote_count == b.proposals[k].vote_count + if k == (match e.vote {
                        Some(i) => i as int,
                        None => 0int,
                    }) {
                        old.weight as int
                    } else {
                        0int
                    }
                &&& forall|a: Seq<char>|
                    a != s && a != end ==> (#[trigger] b2.voters.contains_key(a) <==> b.voters.contains_key(a))
                        && (b.voters.contains_key(a) ==> b2.voters[a] == b.voters[a])
            })
        }),
{
    lemma_delegate_end(b, sender, checked);
}

/// A vote succeeds exactly when the sender holds an unused vote, the
/// proposal exists and its count does not overflow. It then adds the
/// sender's whole weight to that proposal and to no other, and records the
/// vote as used for that proposal, keeping the rest of the sender's record.
pub proof fn law_vote_adds_the_weight_to_the_chosen_proposal(b: BallotView, sender: String, proposal: u32)
    ensures
        vote_outcome(b, sender, proposal) is Ok <==> {
            &&& b.voters.contains_key(sender@)
            &&& b.voters[sender@].weight != 0
            &&& !b.voters[sender@].voted
            &&& proposal < b.proposals.len()
            &&& b.proposals[proposal as int].vote_count + b.voters[sender@].weight <= u64::MAX
        },
        vote_outcome(b, sender, proposal) is Ok ==> {
            let b2 = vote_outcome(b, sender, proposal)->Ok_0.0;
            let old = b.voters[sender@];
            &&& b2.chairperson == b.chairperson
            &&& b2.proposals.len() == b.proposals.len()
            &&& forall|k: int|
                0 <= k < b.proposals.len() ==> b2.proposals[k].name == b.proposals[k].name
                    && b2.proposals[k].vote_count == b.proposals[k].vote_count + if k == proposal {
                    old.weight as int
                } else {
                    0int
                }
            &&& b2.voters == b.voters.insert(sender@, Voter { voted: true, vote: Some(proposal), ..old })
        },
{
}

/// Deployment succeeds exactly when there are between one and
/// `MAX_PROPOSALS` names, no two alike. The ballot then lists the names in
/// order, each with no votes, and the deployer is the chairperson with one
/// unused vote and the only record. Otherwise it reports the first name
/// that repeats an earlier one, or the wrong number of names.
pub proof fn law_deployment_sets_up_the_ballot(sender: String, names: Seq<String>)
    ensures
        instantiate_outcome(sender, names) is Ok <==> {
            &&& 1 <= names.len() <= MAX_PROPOSALS
            &&& forall|i: int, j: int| 0 <= i < j < names.len() ==> names[i]@ != names[j]@
        },
        instantiate_outcome(sender, names) is Ok ==> {
            let b = instantiate_outcome(sender, names)->Ok_0.0;
            &&& b.chairperson == sender@
            &&& b.proposals.len() == names.len()
            &&& forall|i: int| 0 <= i < names.len() ==> b.proposals[i] == (Proposal { name: names[i], vote_count: 0 })
            &&& b.voters == Map::<Seq<char>, Voter>::empty().insert(
                sender@,
                Voter { weight: 1, voted: false, delegate: None, vote: None },
            )
        },
        names.len() == 0 ==> instantiate_outcome(sender, names) == Err::<(BallotView, Seq<(Seq<char>, Seq<char>)>), ContractError>(
            ContractError::NoProposals {},
        ),
        names.len() > MAX_PROPOSALS ==> instantiate_outcome(sender, names) == Err::<(BallotView, Seq<(Seq<char>, Seq<char>)>), ContractError>(
            ContractError::TooManyProposals { count: names.len() as usize, max: MAX_PROPOSALS },
        ),
        forall|k: int|
            1 <= names.len() <= MAX_PROPOSALS && 0 <= k < names.len() && (exists|j: int|
                0 <= j < k && names[j]@ == names[k]@) && (forall|i: int, j: int|
                0 <= j < i < k ==> names[j]@ != names[i]@) ==> instantiate_outcome(sender, names)
                == Err::<(BallotView, Seq<(Seq<char>, Seq<char>)>), ContractError>(
                ContractError::DuplicateProposal { name: names[k] },
            ),
{
    if 1 <= names.len() <= MAX_PROPOSALS {
        if exists|k: int| first_duplicate(names, k) {
            let k = choose|k: int| first_duplicate(names, k);
            assert(has_earlier_copy(names, k));
            let j = choose|j: int| 0 <= j < k && names[j]@ == names[k]@;
            assert(!(forall|i: int, j: int| 0 <= i < j < names.len() ==> names[i]@ != names[j]@));
        } else {
            lemma_no_first_duplicate_means_distinct(names);
        }
    }
    assert forall|k: int|
        1 <= names.len() <= MAX_PROPOSALS && 0 <= k < names.len() && (exists|j: int|
            0 <= j < k && names[j]@ == names[k]@) && (forall|i: int, j: int|
            0 <= j < i < k ==> names[j]@ != names[i]@) implies instantiate_outcome(sender, names)
            == Err::<(BallotView, Seq<(Seq<char>, Seq<char>)>), ContractError>(
            ContractError::DuplicateProposal { name: names[k] },
        ) by {
        assert(has_earlier_copy(names, k));
        assert forall|i: int| 0 <= i < k implies !has_earlier_copy(names, i) by {
            if has_earlier_copy(names, i) {
                let j = choose|j: int| 0 <= j < i && names[j]@ == names[i]@;
                assert(names[j]@ != names[i]@);
            }
        }
        assert(first_duplicate(names, k));
        let c = choose|c: int| first_duplicate(names, c);
        assert(c == k) by {
            if c < k {
                assert(!has_earlier_copy(names, c));
            } else if c > k {
                assert(!has_earlier_copy(names, k));
            }
        }
    }
}

/// Following a chain from the named address: where `walk` ends, at an
/// address reached by at most `hops` links that never passes through the
/// sender; where it finds a loop, the sender is reached by at most
/// `hops + 1` links; where the chain is too long, `hops + 1` links can be
/// followed without reaching the sender.
proof fn lemma_walk_follows_links(voters: Map<Seq<char>, Voter>, sender: Seq<char>, target: String, hops: nat)
    requires
        target@ != sender,
    ensures
        walk(voters, sender, target, hops) matches Walk::End(e) ==> exists|n: nat|
            n <= hops && #[trigger] follow(voters, target@, n) == Some(e@) && delegate_of(voters, e@) is None
                && forall|k: nat| k <= n ==> #[trigger] follow(voters, target@, k) != Some(sender),
        walk(voters, sender, target, hops) is Loop ==> exists|n: nat|
            1 <= n <= hops + 1 && #[trigger] follow(voters, target@, n) == Some(sender),
        walk(voters, sender, target, hops) is TooLong ==> #[trigger] follow(voters, target@, hops + 1) is Some
            && forall|k: nat| k <= hops + 1 ==> #[trigger] follow(voters, target@, k) != Some(sender),
    decreases hops,
{
    match delegate_of(voters, target@) {
        None => {
            assert(follow(voters, target@, 0) == Some(target@));
        },
        Some(next) => {
            assert(follow(voters, target@, 1) == follow(voters, next@, 0));
            if next@ == sender {
            } else if hops == 0 {
                assert forall|k: nat| k <= hops + 1 implies #[trigger] follow(voters, target@, k) != Some(sender) by {
                    if k == 1 {
                        assert(follow(voters, target@, 1) == follow(voters, next@, 0));
                    }
                }
            } else {
                let h = (hops - 1) as nat;
                lemma_walk_follows_links(voters, sender, next, h);
                assert forall|k: nat| #[trigger] follow(voters, target@, k + 1) == follow(voters, next@, k) by {
                    assert(follow(voters, target@, (k + 1) as nat) == follow(voters, next@, k));
                }
                match walk(voters, sender, next, h) {
                    Walk::End(e) => {
                        let n = choose|n: nat|
                            n <= h && #[trigger] follow(voters, next@, n) == Some(e@) && delegate_of(voters, e@) is None
                                && forall|k: nat| k <= n ==> #[trigger] follow(voters, next@, k) != Some(sender);
                        assert(follow(voters, target@, n + 1) == Some(e@));
                        assert forall|k: nat| k <= n + 1 implies #[trigger] follow(voters, target@, k) != Some(sender) by {
                            if k > 0 {
                                assert(follow(voters, target@, ((k - 1) as nat) + 1) == follow(voters, next@, (k - 1) as nat));
                            }
                        }
                    },
                    Walk::Loop => {
                        let n = choose|n: nat| 1 <= n <= h + 1 && #[trigger] follow(voters, next@, n) == Some(sender);
                        assert(follow(voters, target@, n + 1) == Some(sender));
                    },
                    Walk::TooLong => {
                        assert(follow(voters, target@, h + 1 + 1) is Some);
                        assert forall|k: nat| k <= hops + 1 implies #[trigger] follow(voters, target@, k) != Some(sender) by {
                            if k > 0 {
                                assert(follow(voters, target@, ((k - 1) as nat) + 1) == follow(voters, next@, (k - 1) as nat));
                            }
                        }
                    },
                }
            }
        },
    }
}

/// Delegation follows the links that voters recorded, starting at the
/// address the sender named: a successful delegation lands on an address
/// reached by at most `MAX_DELEGATION_DEPTH` links that itself delegated to
/// no one, without passing through the sender; `DelegationLoop` comes only
/// when the links lead back to the sender; `DelegationChainTooLong` only
/// when more than `MAX_DELEGATION_DEPTH` links can be followed without
/// meeting the sender.
pub proof fn law_delegation_follows_recorded_links(
    b: BallotView,
    sender: String,
    checked: Result<String, StdError>,
)
    ensures
        delegate_outcome(b, sender, checked) is Ok ==> {
            let b2 = delegate_outcome(b, sender, checked)->Ok_0.0;
            let end = b2.voters[sender@].delegate->0@;
            &&& checked is Ok
            &&& exists|n: nat|
                n <= MAX_DELEGATION_DEPTH && #[trigger] follow(b.voters, checked->Ok_0@, n) == Some(end)
                    && forall|k: nat| k <= n ==> #[trigger] follow(b.voters, checked->Ok_0@, k) != Some(sender@)
            &&& delegate_of(b.voters, end) is None
        },
        delegate_outcome(b, sender, checked) == Err::<(BallotView, Seq<(Seq<char>, Seq<char>)>), ContractError>(
            ContractError::DelegationLoop {},
        ) ==> checked is Ok && exists|n: nat|
            1 <= n <= MAX_DELEGATION_DEPTH + 1 && #[trigger] follow(b.voters, checked->Ok_0@, n) == Some(sender@),
        delegate_outcome(b, sender, checked) == Err::<(BallotView, Seq<(Seq<char>, Seq<char>)>), ContractError>(
            ContractError::DelegationChainTooLong { max: MAX_DELEGATION_DEPTH },
        ) ==> checked is Ok && follow(b.voters, checked->Ok_0@, (MAX_DELEGATION_DEPTH + 1) as nat) is Some
            && forall|k: nat| k <= MAX_DELEGATION_DEPTH + 1 ==> #[trigger] follow(b.voters, checked->Ok_0@, k) != Some(sender@),
{
    let sv = record_of(b.voters, sender@);
    if sv.weight != 0 && !sv.voted && checked is Ok && checked->Ok_0@ != sender@ {
        lemma_walk_follows_links(b.voters, sender@, checked->Ok_0, MAX_DELEGATION_DEPTH as nat);
        if delegate_outcome(b, sender, checked) is Ok {
            lemma_delegate_end(b, sender, checked);
        }
    }
}

/// Each query reads what its name says off the ballot: the stored
/// chairperson, the stored proposals in order, the stored record of the
/// checked address, and for the two winner queries a proposal with the
/// most votes and no earlier one as good, with the tie flag set exactly when
/// two different proposals share that count.
pub proof fn law_queries_read_the_ballot(
    ballot: Ballot,
    msg: QueryMsg,
    checked: Result<String, StdError>,
    res: Result<QueryAnswer, StdError>,
)
    requires
        answers(ballot, msg, checked, res),
    ensures
        msg is Chairperson ==> (res matches Ok(QueryAnswer::Chairperson(c)) && c.chairperson@
            == ballot@.chairperson),
        msg is Proposals ==> (res matches Ok(QueryAnswer::Proposals(p)) && p.proposals@
            == ballot@.proposals),
        msg is Voter ==> (checked is Err ==> res == Err::<QueryAnswer, StdError>(checked->Err_0)) && (
        checked is Ok ==> res == Ok::<QueryAnswer, StdError>(
            QueryAnswer::Voter(
                VoterResponse {
                    voter: if ballot@.voters.contains_key(checked->Ok_0@) {
                        Some(ballot@.voters[checked->Ok_0@])
                    } else {
                        None
                    },
                },
            ),
        )),
        msg is WinningProposal ==> (res matches Ok(QueryAnswer::WinningProposal(w)) && (forall|j: int|
            0 <= j < ballot@.proposals.len() ==> ballot@.proposals[j].vote_count <= w.vote_count) && (
        w.tied <==> exists|i: int, j: int|
            0 <= i < j < ballot@.proposals.len() && ballot@.proposals[i].vote_count == w.vote_count
                && ballot@.proposals[j].vote_count == w.vote_count) && (ballot@.proposals.len() > 0
            ==> exists|i: int|
            0 <= i < ballot@.proposals.len() && w.index == i as u32 && ballot@.proposals[i].vote_count
                == w.vote_count && forall|j: int| 0 <= j < i ==> ballot@.proposals[j].vote_count < w.vote_count)),
        msg is WinnerName && ballot@.proposals.len() > 0 ==> (res matches Ok(QueryAnswer::WinnerName(w))
            && (forall|j: int|
            0 <= j < ballot@.proposals.len() ==> ballot@.proposals[j].vote_count <= w.vote_count) && (
        w.tied <==> exists|i: int, j: int|
            0 <= i < j < ballot@.proposals.len() && ballot@.proposals[i].vote_count == w.vote_count
                && ballot@.proposals[j].vote_count == w.vote_count) && exists|i: int|
            0 <= i < ballot@.proposals.len() && ballot@.proposals[i].vote_count == w.vote_count && (forall|j: int|
                0 <= j < i ==> ballot@.proposals[j].vote_count < w.vote_count) && w.name
                == ballot@.proposals[(i as u32) as int].name),
{
    ballot.lemma_chairperson_value();
    law_voter_query_reports_the_stored_record(ballot@, checked);
    law_winning_proposal_is_the_first_leader(ballot@.proposals);
    if ballot@.proposals.len() > 0 {
        law_winner_name_names_a_leader(ballot@.proposals);
    }
}

} // verus!
