use vstd::prelude::*;

verus! {

/// One candidate's record: the accumulated tally. Created at registration
/// with a zero count; each successfully cast ballot for this candidate
/// increments the count by exactly one.
#[derive(Clone, Copy, Debug, PartialEq, Eq, Structural)]
pub struct CandidateInfo {
    pub vote_count: u64,
}

impl CandidateInfo {
    /// A fresh record with no votes yet.
    pub fn new() -> (c: Self)
        ensures
            c == (CandidateInfo { vote_count: 0 }),
    {
        CandidateInfo { vote_count: 0 }
    }

    /// A record with the count chosen by the caller.
    pub fn set(val: u64) -> (c: Self)
        ensures
            c == (CandidateInfo { vote_count: val }),
    {
        CandidateInfo { vote_count: val }
    }
}

/// The operations a candidate record offers to the ballot processor.
pub trait Candidate: Sized {
    /// The accumulated tally.
    spec fn spec_vote_count(&self) -> u64;

    /// A record for a newly registered candidate.
    fn new_candidate() -> (c: Self)
        ensures
            c.spec_vote_count() == 0;

    /// The accumulated tally.
    fn vote_count(&self) -> (n: u64)
        ensures
            n == self.spec_vote_count();

    /// Record one more ballot for this candidate.
    fn increase_vote(&mut self)
        requires
            old(self).spec_vote_count() < u64::MAX,
        ensures
            final (self).spec_vote_count() == old(self).spec_vote_count() + 1;
}

impl Candidate for CandidateInfo {
    open spec fn spec_vote_count(&self) -> u64 {
        self.vote_count
    }

    fn new_candidate() -> (c: Self) {
        CandidateInfo::new()
    }

    fn vote_count(&self) -> (n: u64) {
        self.vote_count
    }

    fn increase_vote(&mut self)
        ensures
            *final (self) == (CandidateInfo { vote_count: (old(self).vote_count + 1) as u64 }),
    {
        self.vote_count = self.vote_count + 1;
    }
}

} // verus!
