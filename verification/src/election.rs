use vstd::prelude::*;

use crate::candidate::{Candidate, CandidateInfo};
use crate::errors::Error;
use crate::model::{
    lemma_config_election_next_inv, lemma_genesis_inv, lemma_give_vote_next_inv,
    lemma_register_candidate_next_inv, lemma_register_voter_next_inv, lemma_vote_count_bounded,
    lemma_winner_next_inv, lemma_winners_prefix_len, winners_of, ElectionView, MAX_WINNERS,
};
use crate::registry::Registry;
use crate::voter::{Voter, VoterInfo};
use crate::window::ElectionInfo;

verus! {

/// The election module's owned state: the two registries, the window
/// singleton, the running maximum tally, and the stored winner set.
///
/// Every operation is a synchronous, total function over this state; the
/// host serializes requests and supplies the caller identity and the current
/// logical time as arguments.
pub struct Election {
    pub voters: Registry<VoterInfo>,
    pub candidates: Registry<CandidateInfo>,
    pub election_config: Option<ElectionInfo>,
    pub max_vote: u64,
    pub max_vote_candidate: Option<Vec<u64>>,
}

impl View for Election {
    type V = ElectionView;

    open spec fn view(&self) -> ElectionView {
        ElectionView {
            voters: self.voters.as_map(),
            voter_order: self.voters.keys(),
            candidates: self.candidates.as_map(),
            candidate_order: self.candidates.keys(),
            config: self.election_config,
            max_vote: self.max_vote,
            winners: match self.max_vote_candidate {
                Some(w) => Some(w@),
                None => None,
            },
        }
    }
}

impl Election {
    /// Well-formedness: both registries keep unique keys, and the abstract
    /// state satisfies the election invariant.
    pub open spec fn wf(self) -> bool {
        &&& self.voters.wf()
        &&& self.candidates.wf()
        &&& self@.inv()
    }

    /// A fresh deployment: empty registries, no window, no votes, no stored
    /// winners.
    pub fn new() -> (e: Election)
        ensures
            e.wf(),
            e@ == ElectionView::genesis(),
    {
        let e = Election {
            voters: Registry::new(),
            candidates: Registry::new(),
            election_config: None,
            max_vote: 0,
            max_vote_candidate: None,
        };
        proof {
            lemma_genesis_inv();
            assert(e@ =~~= ElectionView::genesis());
        }
        e
    }

    /// Register the calling account as a voter. Fails with
    /// `AlreadyRegistered` exactly when the account is already a voter, and
    /// then changes nothing.
    pub fn register_voter(&mut self, who: u64) -> (r: Result<(), Error>)
        requires
            old(self).wf(),
        ensures
            final (self).wf(),
            r == old(self)@.register_voter_result(who),
            final (self)@ == old(self)@.register_voter_next(who),
    {
        let is_voter = self.voters.contains_key(who);
        if is_voter {
            return Err(Error::AlreadyRegistered);
        }
        let new_voter = VoterInfo::new();
        self.voters.insert(who, new_voter);
        proof {
            lemma_register_voter_next_inv(old(self)@, who);
            assert(self@ =~~= old(self)@.register_voter_next(who));
        }
        Ok(())
    }

    /// Register the calling account as a candidate with a zero tally. Fails
    /// with `AlreadyRegistered` exactly when the account is already a
    /// candidate, and then changes nothing.
    pub fn register_candidate(&mut self, who: u64) -> (r: Result<(), Error>)
        requires
            old(self).wf(),
        ensures
            final (self).wf(),
            r == old(self)@.register_candidate_result(who),
            final (self)@ == old(self)@.register_candidate_next(who),
    {
        let is_candidate = self.candidates.contains_key(who);
        if is_candidate {
            return Err(Error::AlreadyRegistered);
        }
        let new_candidate = CandidateInfo::new();
        self.candidates.insert(who, new_candidate);
        proof {
            lemma_register_candidate_next_inv(old(self)@, who);
            assert(self@ =~~= old(self)@.register_candidate_next(who));
        }
        Ok(())
    }

    /// Configure the one-shot voting window `[start, end]`. Fails with
    /// `AlreadyConfiguredElection` when a window exists, with
    /// `ElectionTimeIllogical` when `start >= end`; on failure nothing
    /// changes.
    pub fn config_election(&mut self, start: u64, end: u64) -> (r: Result<(), Error>)
        requires
            old(self).wf(),
        ensures
            final (self).wf(),
            r == old(self)@.config_election_result(start, end),
            final (self)@ == old(self)@.config_election_next(start, end),
    {
        let is_configured_election = self.election_config.is_some();
        if is_configured_election {
            return Err(Error::AlreadyConfiguredElection);
        }
        if start >= end {
            return Err(Error::ElectionTimeIllogical);
        }
        let election = ElectionInfo::set(start, end);
        self.election_config = Some(election);
        proof {
            lemma_config_election_next_inv(old(self)@, start, end);
            assert(self@ =~~= old(self)@.config_election_next(start, end));
        }
        Ok(())
    }

    /// Cast the caller's single ballot for `to_vote_for` at logical time
    /// `now`. The window gate's errors come first, then `NotRegistered` for
    /// a missing voter or candidate record, then `AlreadyVoted`; on any
    /// failure nothing changes. On success the candidate's tally, the
    /// voter's record and the running maximum are updated together.
    pub fn give_vote(&mut self, voter: u64, to_vote_for: u64, now: u64) -> (r: Result<(), Error>)
        requires
            old(self).wf(),
        ensures
            final (self).wf(),
            r == old(self)@.give_vote_result(voter, to_vote_for, now),
            final (self)@ == old(self)@.give_vote_next(voter, to_vote_for, now),
    {
        match ElectionInfo::ensure_election_progress(&self.election_config, now) {
            Err(e) => {
                return Err(e);
            },
            Ok(_) => {},
        }
        let is_voter = self.voters.contains_key(voter);
        if !is_voter {
            return Err(Error::NotRegistered);
        }
        let is_candidate = self.candidates.contains_key(to_vote_for);
        if !is_candidate {
            return Err(Error::NotRegistered);
        }
        let voterinfo = self.voters.get(voter).unwrap();
        if voterinfo.check_voted() {
            return Err(Error::AlreadyVoted);
        }
        // The candidate's count is strictly below the number of registered
        // voters, which fits a machine word: the increment cannot overflow.
        let n_voters = self.voters.len();
        proof {
            lemma_vote_count_bounded(self@, voter, to_vote_for);
            assert(self@.candidates[to_vote_for].vote_count < n_voters);
        }
        let mut candidateinfo = self.candidates.get(to_vote_for).unwrap();
        candidateinfo.increase_vote();
        self.candidates.set(to_vote_for, candidateinfo);
        let mut voterrec = voterinfo;
        voterrec.voted(to_vote_for);
        self.voters.set(voter, voterrec);
        let candidate_votes = candidateinfo.vote_count;
        if self.max_vote < candidate_votes {
            self.max_vote = candidate_votes;
        }
        proof {
            lemma_give_vote_next_inv(old(self)@, voter, to_vote_for, now);
            assert(self@ =~~= old(self)@.give_vote_next(voter, to_vote_for, now));
        }
        Ok(())
    }

    /// Resolve the winner set at logical time `now`: once the window has
    /// closed, collect every candidate whose tally equals the running
    /// maximum, in registration order, and store them. Fails with the
    /// post-close gate's errors, or with `MaxCandidatesExceed` when the tied
    /// leaders would not fit the winner set's capacity; on any failure
    /// nothing changes, and in particular no partial winner set is stored.
    pub fn winner(&mut self, now: u64) -> (r: Result<(), Error>)
        requires
            old(self).wf(),
        ensures
            final (self).wf(),
            r == old(self)@.winner_result(now),
            final (self)@ == old(self)@.winner_next(now),
    {
        match ElectionInfo::ensure_election_ended(&self.election_config, now) {
            Err(e) => {
                return Err(e);
            },
            Ok(_) => {},
        }
        let n = self.candidates.len();
        let mut winner_vec: Vec<u64> = Vec::new();
        let mut i: usize = 0;
        while i < n
            invariant
                *self == *old(self),
                self.wf(),
                ElectionInfo::ended_result(self.election_config, now) is Ok,
                n == self.candidates.keys().len(),
                i <= n,
                winner_vec@ == winners_of(
                    self.candidates.keys().take(i as int),
                    self.candidates.as_map(),
                    self.max_vote,
                ),
                winner_vec@.len() <= MAX_WINNERS,
            decreases n - i,
        {
            let key = self.candidates.key_at(i);
            let info = self.candidates.value_at(i);
            proof {
                assert(self.candidates.keys().take(i as int + 1).drop_last() =~= self
                    .candidates
                    .keys()
                    .take(i as int));
                assert(self.candidates.keys().take(i as int + 1).last() == key);
            }
            if info.vote_count == self.max_vote {
                if winner_vec.len() >= MAX_WINNERS {
                    proof {
                        lemma_winners_prefix_len(
                            self.candidates.keys(),
                            self.candidates.as_map(),
                            self.max_vote,
                            i as int + 1,
                        );
                        assert(self@.winners_seq().len() > MAX_WINNERS);
                    }
                    return Err(Error::MaxCandidatesExceed);
                }
                winner_vec.push(key);
            }
            i += 1;
        }
        proof {
            assert(self.candidates.keys().take(n as int) =~= self.candidates.keys());
            assert(winner_vec@ == old(self)@.winners_seq());
        }
        self.max_vote_candidate = Some(winner_vec);
        proof {
            lemma_winner_next_inv(old(self)@, now);
            assert(self@ =~~= old(self)@.winner_next(now));
        }
        Ok(())
    }

    /// The stored record of a voter, if the account is registered.
    pub fn voter_account(&self, who: u64) -> (r: Option<VoterInfo>)
        requires
            self.wf(),
        ensures
            r == if self@.voters.contains_key(who) {
                Some(self@.voters[who])
            } else {
                None::<VoterInfo>
            },
    {
        self.voters.get(who)
    }

    /// The stored record of a candidate, if the account is registered.
    pub fn candidate_account(&self, who: u64) -> (r: Option<CandidateInfo>)
        requires
            self.wf(),
        ensures
            r == if self@.candidates.contains_key(who) {
                Some(self@.candidates[who])
            } else {
                None::<CandidateInfo>
            },
    {
        self.candidates.get(who)
    }

    /// The configured voting window, if one has been set.
    pub fn get_election(&self) -> (r: Option<ElectionInfo>)
        ensures
            r == self@.config,
    {
        self.election_config
    }

    /// The running maximum tally across all candidates.
    pub fn max_votes(&self) -> (n: u64)
        ensures
            n == self@.max_vote,
    {
        self.max_vote
    }

    /// A copy of the stored winner set, if resolution has run.
    pub fn max_votes_candidate(&self) -> (r: Option<Vec<u64>>)
        ensures
            match (r, self@.winners) {
                (Some(v), Some(w)) => v@ == w,
                (None, None) => true,
                _ => false,
            },
    {
        match &self.max_vote_candidate {
            None => None,
            Some(w) => {
                let len = w.len();
                let mut out: Vec<u64> = Vec::new();
                let mut i: usize = 0;
                while i < len
                    invariant
                        len == w@.len(),
                        i <= len,
                        out@ == w@.take(i as int),
                    decreases len - i,
                {
                    let x = w[i];
                    out.push(x);
                    proof {
                        assert(out@ =~= w@.take(i as int + 1));
                    }
                    i += 1;
                }
                proof {
                    assert(out@ =~= w@);
                }
                Some(out)
            },
        }
    }
}

} // verus!
