//! On-chain governance: proposals, their stake-weighted tallies and the
//! ballots cast on them.
use vstd::prelude::*;
use crate::core_types::address::Address;

verus! {

/// A proposal and its running tally (stake for and against).
#[derive(Debug, Clone, Copy)]
pub struct Proposal {
    pub id: u64,
    pub proposer: Address,
    pub created_epoch: u64,
    pub end_epoch: u64,
    pub votes_for: u64,
    pub votes_against: u64,
}

/// Proposals in creation order, each with the encoded proposal body it was
/// created with, and every ballot cast as `(proposal id, voter)`.
#[derive(Debug, Clone)]
pub struct Governance {
    pub proposals: Vec<Proposal>,
    pub payloads: Vec<Vec<u8>>,
    pub ballots: Vec<(u64, Address)>,
    pub next_proposal_id: u64,
}

pub open spec fn sat_add(a: u64, b: u64) -> u64 {
    if a + b > u64::MAX {
        u64::MAX
    } else {
        (a + b) as u64
    }
}

/// The index of the first proposal with id `id`.
pub open spec fn find_index(ps: Seq<Proposal>, id: u64) -> Option<int> {
    if exists|i: int| 0 <= i < ps.len() && ps[i].id == id {
        Some(choose|i: int| 0 <= i < ps.len() && ps[i].id == id && forall|j: int| 0 <= j < i ==> ps[j].id != id)
    } else {
        None
    }
}

/// Whether `voter` has a ballot on proposal `id`.
pub open spec fn has_voted(ballots: Seq<(u64, Address)>, id: u64, voter: Seq<u8>) -> bool {
    exists|i: int| 0 <= i < ballots.len() && ballots[i].0 == id && ballots[i].1.0@ == voter
}

/// The tally after a ballot of weight `stake`.
pub open spec fn tallied(p: Proposal, stake: u64, vote_for: bool) -> Proposal {
    if vote_for {
        Proposal { votes_for: sat_add(p.votes_for, stake), ..p }
    } else {
        Proposal { votes_against: sat_add(p.votes_against, stake), ..p }
    }
}

/// The error text of a second ballot by the same voter.
pub open spec fn already_voted_error() -> Seq<char> {
    "Voter has already voted on this proposal"@
}

impl Governance {
    /// Every proposal has its body.
    pub open spec fn wf(&self) -> bool {
        self.proposals@.len() == self.payloads@.len()
    }

    pub fn new() -> (g: Self)
        ensures
            g.wf(),
            g.proposals@.len() == 0,
            g.ballots@.len() == 0,
            g.next_proposal_id == 0,
    {
        Governance { proposals: Vec::new(), payloads: Vec::new(), ballots: Vec::new(), next_proposal_id: 0 }
    }

    /// The position of the first proposal with id `id`.
    pub fn find_proposal(&self, id: u64) -> (r: Option<usize>)
        ensures
            r matches Some(i) ==> find_index(self.proposals@, id) == Some(i as int) && i < self.proposals@.len()
                && self.proposals@[i as int].id == id,
            r is None ==> find_index(self.proposals@, id) is None,
    {
        let mut i: usize = 0;
        while i < self.proposals.len()
            invariant
                0 <= i <= self.proposals@.len(),
                forall|j: int| 0 <= j < i ==> self.proposals@[j].id != id,
            decreases self.proposals@.len() - i,
        {
            if self.proposals[i].id == id {
                proof {
                    let ps = self.proposals@;
                    let k = choose|k: int| 0 <= k < ps.len() && ps[k].id == id && forall|j: int| 0 <= j < k ==> ps[j].id != id;
                    assert(ps[i as int].id == id && forall|j: int| 0 <= j < i ==> ps[j].id != id);
                    if k < i {
                    } else if k > i {
                    }
                    assert(k == i);
                }
                return Some(i);
            }
            i = i + 1;
        }
        None
    }

    fn voted(&self, id: u64, voter: &Address) -> (b: bool)
        ensures
            b == has_voted(self.ballots@, id, voter.0@),
    {
        let mut i: usize = 0;
        while i < self.ballots.len()
            invariant
                0 <= i <= self.ballots@.len(),
                forall|j: int| 0 <= j < i ==> !(self.ballots@[j].0 == id && self.ballots@[j].1.0@ == voter.0@),
            decreases self.ballots@.len() - i,
        {
            let (pid, who) = self.ballots[i];
            if pid == id && who == *voter {
                return true;
            }
            i = i + 1;
        }
        false
    }

    /// Cast a ballot of weight `stake` on the proposal at position `index`.
    /// A voter may vote once per proposal.
    pub fn add_vote(&mut self, index: usize, voter: Address, stake: u64, vote_for: bool) -> (r: Result<(), String>)
        requires
            index < old(self).proposals@.len(),
        ensures
            final(self).wf() == old(self).wf(),
            final(self).payloads@ == old(self).payloads@,
            final(self).next_proposal_id == old(self).next_proposal_id,
            has_voted(old(self).ballots@, old(self).proposals@[index as int].id, voter.0@) <==> r is Err,
            r matches Err(m) ==> m@ == already_voted_error() && *final(self) == *old(self),
            r is Ok ==> final(self).proposals@ == old(self).proposals@.update(
                index as int,
                tallied(old(self).proposals@[index as int], stake, vote_for),
            ) && final(self).ballots@ == old(self).ballots@.push((old(self).proposals@[index as int].id, voter)),
    {
        let p: Proposal = self.proposals[index];
        if self.voted(p.id, &voter) {
            return Err("Voter has already voted on this proposal".to_owned());
        }
        let updated = if vote_for {
            Proposal { votes_for: p.votes_for.saturating_add(stake), ..p }
        } else {
            Proposal { votes_against: p.votes_against.saturating_add(stake), ..p }
        };
        self.proposals.set(index, updated);
        self.ballots.push((p.id, voter));
        Ok(())
    }

    /// Open a proposal that runs from `epoch` for `duration` epochs; returns
    /// its id.
    pub fn create_proposal(&mut self, proposer: Address, payload: Vec<u8>, epoch: u64, duration: u64) -> (id: u64)
        ensures
            final(self).wf() == old(self).wf(),
            id == old(self).next_proposal_id,
            final(self).next_proposal_id == sat_add(old(self).next_proposal_id, 1),
            final(self).proposals@ == old(self).proposals@.push(
                Proposal {
                    id,
                    proposer,
                    created_epoch: epoch,
                    end_epoch: sat_add(epoch, duration),
                    votes_for: 0,
                    votes_against: 0,
                },
            ),
            final(self).payloads@ == old(self).payloads@.push(payload),
            final(self).ballots@ == old(self).ballots@,
    {
        let id: u64 = self.next_proposal_id;
        self.proposals.push(
            Proposal {
                id,
                proposer,
                created_epoch: epoch,
                end_epoch: epoch.saturating_add(duration),
                votes_for: 0,
                votes_against: 0,
            },
        );
        self.payloads.push(payload);
        self.next_proposal_id = self.next_proposal_id.saturating_add(1);
        id
    }
}

/// One ballot per voter per proposal: once a voter's ballot on a proposal is
/// recorded, every later ballot by that voter on it is refused, whatever other
/// ballots come between.
pub proof fn law_one_ballot_per_voter(ballots: Seq<(u64, Address)>, id: u64, voter: Address, later: Seq<(u64, Address)>)
    ensures
        has_voted(ballots.push((id, voter)) + later, id, voter.0@),
{
    let all = ballots.push((id, voter)) + later;
    assert(all[ballots.len() as int] == (id, voter));
}

/// A ballot counts on its own side only: a vote against leaves the votes for
/// as they were and raises the votes against by the voter's stake (up to
/// `u64::MAX`); a vote for does the opposite; nothing else of the proposal
/// changes.
pub proof fn law_ballot_counts_on_its_side(p: Proposal, stake: u64, vote_for: bool)
    ensures
        !vote_for ==> tallied(p, stake, vote_for).votes_for == p.votes_for,
        !vote_for ==> tallied(p, stake, vote_for).votes_against == (if p.votes_against + stake <= u64::MAX {
            (p.votes_against + stake) as u64
        } else {
            u64::MAX
        }),
        vote_for ==> tallied(p, stake, vote_for).votes_against == p.votes_against,
        vote_for ==> tallied(p, stake, vote_for).votes_for == (if p.votes_for + stake <= u64::MAX {
            (p.votes_for + stake) as u64
        } else {
            u64::MAX
        }),
        tallied(p, stake, vote_for).id == p.id,
        tallied(p, stake, vote_for).proposer == p.proposer,
        tallied(p, stake, vote_for).created_epoch == p.created_epoch,
        tallied(p, stake, vote_for).end_epoch == p.end_epoch,
{
}

} // verus!
