use vstd::prelude::*;

verus! {

/// One voter's record. Created at registration with no vote recorded; mutated
/// exactly once, when the voter's single ballot is cast, which sets both
/// fields together.
#[derive(Clone, Copy, Debug, PartialEq, Eq, Structural)]
pub struct VoterInfo {
    pub vote_status: bool,
    pub voted_for: Option<u64>,
}

impl VoterInfo {
    /// A record is coherent when the target of the vote is recorded exactly
    /// when the vote has been cast.
    pub open spec fn wf(self) -> bool {
        self.voted_for is Some <==> self.vote_status
    }

    /// A fresh record: no vote cast, no target.
    pub fn new() -> (v: Self)
        ensures
            v == (VoterInfo { vote_status: false, voted_for: None }),
            v.wf(),
            !v.vote_status,
    {
        VoterInfo { vote_status: false, voted_for: None }
    }

    /// A record with both fields chosen by the caller; the target is always
    /// recorded.
    pub fn set(val: bool, who: u64) -> (v: Self)
        ensures
            v == (VoterInfo { vote_status: val, voted_for: Some(who) }),
    {
        VoterInfo { vote_status: val, voted_for: Some(who) }
    }
}

/// The operations a voter record offers to the ballot processor.
pub trait Voter: Sized {
    /// Whether the single ballot has been cast.
    spec fn spec_voted(&self) -> bool;

    /// The candidate the ballot went to, if it has been cast.
    spec fn spec_voted_for(&self) -> Option<u64>;

    /// A record for a newly registered voter.
    fn new_voter() -> (v: Self)
        ensures
            !v.spec_voted(),
            v.spec_voted_for() is None;

    /// Record the single ballot: mark the vote cast and remember its target.
    fn voted(&mut self, candidate: u64)
        ensures
            final (self).spec_voted(),
            final (self).spec_voted_for() == Some(candidate);

    /// Whether the single ballot has been cast.
    fn check_voted(&self) -> (b: bool)
        ensures
            b == self.spec_voted();

    /// The ballot's target, reported only once the ballot has been cast.
    fn voted_for(&self) -> (r: Option<u64>)
        ensures
            r == if self.spec_voted() {
                self.spec_voted_for()
            } else {
                None::<u64>
            },
    ;
}

impl Voter for VoterInfo {
    open spec fn spec_voted(&self) -> bool {
        self.vote_status
    }

    open spec fn spec_voted_for(&self) -> Option<u64> {
        self.voted_for
    }

    fn new_voter() -> (v: Self) {
        VoterInfo::new()
    }

    fn voted(&mut self, candidate: u64)
        ensures
            *final (self) == (VoterInfo { vote_status: true, voted_for: Some(candidate) }),
    {
        self.vote_status = true;
        self.voted_for = Some(candidate);
    }

    fn check_voted(&self) -> (b: bool) {
        self.vote_status
    }

    fn voted_for(&self) -> (r: Option<u64>) {
        if self.vote_status {
            self.voted_for
        } else {
            None
        }
    }
}

} // verus!
