//! What the ballot remembers between transactions: the chairperson, the list
//! of proposals with their running counts, and one record per address that
//! was ever granted the right to vote.

use vstd::prelude::*;

verus! {

/// One option people can vote for.
#[derive(Debug, PartialEq)]
pub struct Proposal {
    pub name: String,
    /// Sum of the weights of everyone who voted for this proposal.
    pub vote_count: u64,
}

impl Clone for Proposal {
    fn clone(&self) -> (copy: Self)
        ensures
            copy == *self,
    {
        Proposal { name: self.name.clone(), vote_count: self.vote_count }
    }
}

/// Everything known about one participant.
#[derive(Debug, PartialEq)]
pub struct Voter {
    /// How many votes this address carries; `0` means "not allowed to vote".
    pub weight: u64,
    /// True once this address has either voted directly or delegated away.
    pub voted: bool,
    /// Who this address delegated to, if anyone.
    pub delegate: Option<String>,
    /// Index of the proposal this address voted for directly.
    pub vote: Option<u32>,
}

impl Voter {
    /// The record of an address that was never granted anything.
    pub open spec fn unregistered() -> Voter {
        Voter { weight: 0, voted: false, delegate: None, vote: None }
    }

    /// The record of a freshly granted voter: one vote, not yet used.
    pub open spec fn granted() -> Voter {
        Voter { weight: 1, voted: false, delegate: None, vote: None }
    }

    pub(crate) fn new_granted() -> (v: Voter)
        ensures
            v == Voter::granted(),
    {
        Voter { weight: 1, voted: false, delegate: None, vote: None }
    }
}

impl Default for Voter {
    fn default() -> (v: Self)
        ensures
            v == Voter::unregistered(),
    {
        Voter { weight: 0, voted: false, delegate: None, vote: None }
    }
}

impl Clone for Voter {
    fn clone(&self) -> (copy: Self)
        ensures
            copy == *self,
    {
        let delegate = match &self.delegate {
            Some(d) => Some(d.clone()),
            None => None,
        };
        Voter { weight: self.weight, voted: self.voted, delegate, vote: self.vote }
    }
}

/// The voter map as seen through a list of (address, record) entries: a
/// later entry for the same address overrides an earlier one.
pub open spec fn entries_map(s: Seq<(String, Voter)>) -> Map<Seq<char>, Voter>
    decreases s.len(),
{
    if s.len() == 0 {
        Map::empty()
    } else {
        entries_map(s.drop_last()).insert(s.last().0@, s.last().1)
    }
}

/// The record stored for `addr`, or the record of an unregistered address.
pub open spec fn record_of(voters: Map<Seq<char>, Voter>, addr: Seq<char>) -> Voter {
    if voters.contains_key(addr) {
        voters[addr]
    } else {
        Voter::unregistered()
    }
}

/// `j` is the last entry whose address is `addr`.
pub open spec fn last_entry_for(s: Seq<(String, Voter)>, j: int, addr: Seq<char>) -> bool {
    &&& 0 <= j < s.len()
    &&& s[j].0@ == addr
    &&& forall|i: int| j < i < s.len() ==> s[i].0@ != addr
}

pub proof fn lemma_entries_finite(s: Seq<(String, Voter)>)
    ensures
        entries_map(s).dom().finite(),
    decreases s.len(),
{
    if s.len() > 0 {
        lemma_entries_finite(s.drop_last());
    }
}

pub proof fn lemma_entries_absent(s: Seq<(String, Voter)>, addr: Seq<char>)
    requires
        forall|i: int| 0 <= i < s.len() ==> s[i].0@ != addr,
    ensures
        !entries_map(s).contains_key(addr),
    decreases s.len(),
{
    if s.len() > 0 {
        lemma_entries_absent(s.drop_last(), addr);
    }
}

pub proof fn lemma_entries_lookup(s: Seq<(String, Voter)>, j: int, addr: Seq<char>)
    requires
        last_entry_for(s, j, addr),
    ensures
        entries_map(s).contains_key(addr),
        entries_map(s)[addr] == s[j].1,
    decreases s.len(),
{
    if j < s.len() - 1 {
        assert(last_entry_for(s.drop_last(), j, addr));
        lemma_entries_lookup(s.drop_last(), j, addr);
    }
}

pub proof fn lemma_entries_update(s: Seq<(String, Voter)>, j: int, key: String, v: Voter)
    requires
        last_entry_for(s, j, key@),
    ensures
        entries_map(s.update(j, (key, v))) == entries_map(s).insert(key@, v),
    decreases s.len(),
{
    let t = s.update(j, (key, v));
    if j == s.len() - 1 {
        assert(t.drop_last() =~= s.drop_last());
        assert(entries_map(t) =~= entries_map(s).insert(key@, v));
    } else {
        assert(last_entry_for(s.drop_last(), j, key@));
        lemma_entries_update(s.drop_last(), j, key, v);
        assert(t.drop_last() =~= s.drop_last().update(j, (key, v)));
        assert(t.last() == s.last());
        assert(entries_map(t) =~= entries_map(s).insert(key@, v));
    }
}

pub proof fn lemma_entries_push(s: Seq<(String, Voter)>, key: String, v: Voter)
    ensures
        entries_map(s.push((key, v))) == entries_map(s).insert(key@, v),
{
    assert(s.push((key, v)).drop_last() =~= s);
}

/// The abstract state of a ballot.
pub struct BallotView {
    pub chairperson: Seq<char>,
    pub proposals: Seq<Proposal>,
    pub voters: Map<Seq<char>, Voter>,
}

/// The whole state of one ballot: who may hand out voting rights, the fixed
/// list of proposals, and one record per address that was granted a vote.
#[derive(Debug)]
pub struct Ballot {
    chairperson: String,
    proposals: Vec<Proposal>,
    voters: Vec<(String, Voter)>,
}

impl View for Ballot {
    type V = BallotView;

    closed spec fn view(&self) -> BallotView {
        BallotView {
            chairperson: self.chairperson@,
            proposals: self.proposals@,
            voters: entries_map(self.voters@),
        }
    }
}

impl Ballot {
    pub proof fn lemma_voters_finite(&self)
        ensures
            self@.voters.dom().finite(),
    {
        lemma_entries_finite(self.voters@);
    }

    /// A ballot with the given chairperson, proposals and no voters yet.
    pub fn new(chairperson: String, proposals: Vec<Proposal>) -> (b: Ballot)
        ensures
            b@.chairperson == chairperson@,
            b@.proposals == proposals@,
            b@.voters == Map::<Seq<char>, Voter>::empty(),
    {
        let b = Ballot { chairperson, proposals, voters: Vec::new() };
        assert(b@.voters =~= Map::<Seq<char>, Voter>::empty());
        b
    }

    /// A ballot rebuilt from stored records; for an address that occurs more
    /// than once, the later record counts.
    pub fn from_records(
        chairperson: String,
        proposals: Vec<Proposal>,
        records: Vec<(String, Voter)>,
    ) -> (b: Ballot)
        ensures
            b@.chairperson == chairperson@,
            b@.proposals == proposals@,
            b@.voters == entries_map(records@),
    {
        let mut b = Ballot::new(chairperson, proposals);
        let ghost all = records@;
        let mut i: usize = 0;
        while i < records.len()
            invariant
                i <= records@.len(),
                all == records@,
                b@.chairperson == chairperson@,
                b@.proposals == proposals@,
                b@.voters == entries_map(all.take(i as int)),
            decreases records@.len() - i,
        {
            let addr = records[i].0.clone();
            let v = records[i].1.clone();
            b.set_voter(addr, v);
            proof {
                assert(all.take(i + 1) =~= all.take(i as int).push((addr, v)));
                lemma_entries_push(all.take(i as int), addr, v);
            }
            i = i + 1;
        }
        assert(all.take(records@.len() as int) =~= all);
        b
    }

    /// The chairperson's address as stored.
    pub closed spec fn chairperson_value(&self) -> String {
        self.chairperson
    }

    pub proof fn lemma_chairperson_value(&self)
        ensures
            self.chairperson_value()@ == self@.chairperson,
    {
    }

    pub fn chairperson(&self) -> (c: &String)
        ensures
            *c == self.chairperson_value(),
            c@ == self@.chairperson,
    {
        &self.chairperson
    }

    pub fn proposals(&self) -> (p: &Vec<Proposal>)
        ensures
            p@ == self@.proposals,
    {
        &self.proposals
    }

    /// Every stored record, in order; where an address occurs more than once,
    /// its later record is the one that counts.
    pub fn records(&self) -> (r: &Vec<(String, Voter)>)
        ensures
            entries_map(r@) == self@.voters,
    {
        &self.voters
    }

    /// Index of the last entry for `addr`, if there is one.
    fn find(&self, addr: &String) -> (j: Option<usize>)
        ensures
            match j {
                Some(j) => last_entry_for(self.voters@, j as int, addr@),
                None => forall|i: int| 0 <= i < self.voters@.len() ==> self.voters@[i].0@ != addr@,
            },
    {
        let mut i = self.voters.len();
        while i > 0
            invariant
                i <= self.voters@.len(),
                forall|k: int| i <= k < self.voters@.len() ==> self.voters@[k].0@ != addr@,
            decreases i,
        {
            i = i - 1;
            if self.voters[i].0 == *addr {
                return Some(i);
            }
        }
        None
    }

    /// The record stored for `addr`, if any.
    pub fn voter(&self, addr: &String) -> (v: Option<Voter>)
        ensures
            v == (if self@.voters.contains_key(addr@) {
                Some(self@.voters[addr@])
            } else {
                None
            }),
    {
        match self.find(addr) {
            Some(j) => {
                proof {
                    lemma_entries_lookup(self.voters@, j as int, addr@);
                }
                Some(self.voters[j].1.clone())
            },
            None => {
                proof {
                    lemma_entries_absent(self.voters@, addr@);
                }
                None
            },
        }
    }

    /// The record stored for `addr`, or a record of weight zero if none is.
    pub fn voter_or_default(&self, addr: &String) -> (v: Voter)
        ensures
            v == record_of(self@.voters, addr@),
    {
        match self.voter(addr) {
            Some(v) => v,
            None => Voter::default(),
        }
    }

    /// Store `v` as the record of `addr`.
    pub(crate) fn set_voter(&mut self, addr: String, v: Voter)
        ensures
            final(self)@ == (BallotView { voters: old(self)@.voters.insert(addr@, v), ..old(self)@ }),
    {
        match self.find(&addr) {
            Some(j) => {
                proof {
                    lemma_entries_update(self.voters@, j as int, addr, v);
                }
                self.voters.set(j, (addr, v));
            },
            None => {
                proof {
                    lemma_entries_push(self.voters@, addr, v);
                }
                self.voters.push((addr, v));
            },
        }
    }

    /// Set the vote count of proposal `i`, keeping its name.
    pub(crate) fn set_vote_count(&mut self, i: usize, count: u64)
        requires
            i < old(self)@.proposals.len(),
        ensures
            final(self)@ == (BallotView {
                proposals: old(self)@.proposals.update(
                    i as int,
                    Proposal { name: old(self)@.proposals[i as int].name, vote_count: count },
                ),
                ..old(self)@
            }),
    {
        let name = self.proposals[i].name.clone();
        self.proposals.set(i, Proposal { name, vote_count: count });
    }
}

} // verus!
