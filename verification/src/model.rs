use vstd::prelude::*;

use crate::candidate::CandidateInfo;
use crate::errors::Error;
use crate::voter::VoterInfo;
use crate::window::ElectionInfo;

verus! {

/// Capacity of the winner set: resolution aborts rather than store more tied
/// leaders than this.
pub const MAX_WINNERS: usize = 100;

/// How many voters in `order` have cast their ballot for `c` under the
/// records in `voters`.
pub open spec fn tally(order: Seq<u64>, voters: Map<u64, VoterInfo>, c: u64) -> nat
    decreases order.len(),
{
    if order.len() == 0 {
        0
    } else {
        tally(order.drop_last(), voters, c) + if voters[order.last()].voted_for == Some(c) {
            1nat
        } else {
            0nat
        }
    }
}

/// The candidates of `order`, in order, whose tally equals `m`.
pub open spec fn winners_of(order: Seq<u64>, candidates: Map<u64, CandidateInfo>, m: u64) -> Seq<
    u64,
>
    decreases order.len(),
{
    if order.len() == 0 {
        Seq::empty()
    } else {
        let rest = winners_of(order.drop_last(), candidates, m);
        if candidates[order.last()].vote_count == m {
            rest.push(order.last())
        } else {
            rest
        }
    }
}

/// The mathematical state of the election module: the two registries with
/// their registration orders, the window singleton, the running maximum
/// tally, and the stored winner set.
#[verifier::ext_equal]
pub struct ElectionView {
    pub voters: Map<u64, VoterInfo>,
    pub voter_order: Seq<u64>,
    pub candidates: Map<u64, CandidateInfo>,
    pub candidate_order: Seq<u64>,
    pub config: Option<ElectionInfo>,
    pub max_vote: u64,
    pub winners: Option<Seq<u64>>,
}

impl ElectionView {
    /// The state of a fresh deployment: nothing registered, no window, no
    /// votes, no stored winners.
    pub open spec fn genesis() -> ElectionView {
        ElectionView {
            voters: Map::empty(),
            voter_order: Seq::empty(),
            candidates: Map::empty(),
            candidate_order: Seq::empty(),
            config: None,
            max_vote: 0,
            winners: None,
        }
    }

    pub open spec fn voter_registered(self, who: u64) -> bool {
        self.voters.contains_key(who)
    }

    pub open spec fn candidate_registered(self, who: u64) -> bool {
        self.candidates.contains_key(who)
    }

    /// The state invariant. Registration orders carry each registered
    /// account exactly once; every voter record is coherent and votes only
    /// for registered candidates; every candidate's count is exactly the
    /// number of voters that voted for it; `max_vote` is the running maximum
    /// of the counts; a configured window is well formed.
    pub open spec fn inv(self) -> bool {
        &&& self.voter_order.no_duplicates()
        &&& self.candidate_order.no_duplicates()
        &&& (forall|a: u64| #[trigger]
            self.voters.contains_key(a) <==> self.voter_order.contains(a))
        &&& (forall|c: u64| #[trigger]
            self.candidates.contains_key(c) <==> self.candidate_order.contains(c))
        &&& (forall|a: u64|
            self.voters.contains_key(a) ==> (#[trigger] self.voters[a]).wf())
        &&& (forall|a: u64|
            self.voters.contains_key(a) && (#[trigger] self.voters[a]).voted_for is Some
                ==> self.candidates.contains_key(self.voters[a].voted_for->0))
        &&& (forall|c: u64|
            self.candidates.contains_key(c) ==> (#[trigger] self.candidates[c]).vote_count
                == tally(self.voter_order, self.voters, c))
        &&& (forall|c: u64|
            self.candidates.contains_key(c) ==> (#[trigger] self.candidates[c]).vote_count
                <= self.max_vote)
        &&& (self.max_vote == 0 || exists|c: u64|
            self.candidates.contains_key(c) && (#[trigger] self.candidates[c]).vote_count
                == self.max_vote)
        &&& (self.config matches Some(w) ==> w.wf())
        &&& (self.winners matches Some(w) ==> w.len() <= MAX_WINNERS)
    }

    /// Outcome of registering `who` as a voter.
    pub open spec fn register_voter_result(self, who: u64) -> Result<(), Error> {
        if self.voters.contains_key(who) {
            Err(Error::AlreadyRegistered)
        } else {
            Ok(())
        }
    }

    /// State after registering `who` as a voter (unchanged on failure).
    pub open spec fn register_voter_next(self, who: u64) -> ElectionView {
        if self.voters.contains_key(who) {
            self
        } else {
            ElectionView {
                voters: self.voters.insert(
                    who,
                    VoterInfo { vote_status: false, voted_for: None },
                ),
                voter_order: self.voter_order.push(who),
                ..self
            }
        }
    }

    /// Outcome of registering `who` as a candidate.
    pub open spec fn register_candidate_result(self, who: u64) -> Result<(), Error> {
        if self.candidates.contains_key(who) {
            Err(Error::AlreadyRegistered)
        } else {
            Ok(())
        }
    }

    /// State after registering `who` as a candidate (unchanged on failure).
    pub open spec fn register_candidate_next(self, who: u64) -> ElectionView {
        if self.candidates.contains_key(who) {
            self
        } else {
            ElectionView {
                candidates: self.candidates.insert(who, CandidateInfo { vote_count: 0 }),
                candidate_order: self.candidate_order.push(who),
                ..self
            }
        }
    }

    /// Outcome of configuring the window `[start, end]`.
    pub open spec fn config_election_result(self, start: u64, end: u64) -> Result<(), Error> {
        if self.config is Some {
            Err(Error::AlreadyConfiguredElection)
        } else if start >= end {
            Err(Error::ElectionTimeIllogical)
        } else {
            Ok(())
        }
    }

    /// State after configuring the window (unchanged on failure).
    pub open spec fn config_election_next(self, start: u64, end: u64) -> ElectionView {
        if self.config_election_result(start, end) is Ok {
            ElectionView {
                config: Some(ElectionInfo { start_block: Some(start), end_block: Some(end) }),
                ..self
            }
        } else {
            self
        }
    }

    /// Outcome of `voter` casting a ballot for `candidate` at logical time
    /// `now`: the window gate's error first, then missing registrations,
    /// then the single-vote rule.
    pub open spec fn give_vote_result(self, voter: u64, candidate: u64, now: u64) -> Result<
        (),
        Error,
    > {
        if ElectionInfo::progress_result(self.config, now) is Err {
            ElectionInfo::progress_result(self.config, now)
        } else if !self.voters.contains_key(voter) {
            Err(Error::NotRegistered)
        } else if !self.candidates.contains_key(candidate) {
            Err(Error::NotRegistered)
        } else if self.voters[voter].vote_status {
            Err(Error::AlreadyVoted)
        } else {
            Ok(())
        }
    }

    /// State after the ballot (unchanged on failure). On success the
    /// candidate's count rises by one, the voter's record is marked, and the
    /// running maximum is bumped if the new count passes it.
    pub open spec fn give_vote_next(self, voter: u64, candidate: u64, now: u64) -> ElectionView {
        if self.give_vote_result(voter, candidate, now) is Ok {
            let new_count = (self.candidates[candidate].vote_count + 1) as u64;
            ElectionView {
                voters: self.voters.insert(
                    voter,
                    VoterInfo { vote_status: true, voted_for: Some(candidate) },
                ),
                candidates: self.candidates.insert(
                    candidate,
                    CandidateInfo { vote_count: new_count },
                ),
                max_vote: if self.max_vote < new_count {
                    new_count
                } else {
                    self.max_vote
                },
                ..self
            }
        } else {
            self
        }
    }

    /// Every candidate whose count equals the running maximum, in
    /// registration order: the tied leaders.
    pub open spec fn winners_seq(self) -> Seq<u64> {
        winners_of(self.candidate_order, self.candidates, self.max_vote)
    }

    /// Outcome of winner resolution at logical time `now`.
    pub open spec fn winner_result(self, now: u64) -> Result<(), Error> {
        if ElectionInfo::ended_result(self.config, now) is Err {
            ElectionInfo::ended_result(self.config, now)
        } else if self.winners_seq().len() > MAX_WINNERS {
            Err(Error::MaxCandidatesExceed)
        } else {
            Ok(())
        }
    }

    /// State after winner resolution (unchanged on failure). On success the
    /// winner set is overwritten with the tied leaders.
    pub open spec fn winner_next(self, now: u64) -> ElectionView {
        if self.winner_result(now) is Ok {
            ElectionView { winners: Some(self.winners_seq()), ..self }
        } else {
            self
        }
    }
}

/// A tally never exceeds the number of registered voters.
pub proof fn lemma_tally_le_len(order: Seq<u64>, voters: Map<u64, VoterInfo>, c: u64)
    ensures
        tally(order, voters, c) <= order.len(),
    decreases order.len(),
{
    if order.len() > 0 {
        lemma_tally_le_len(order.drop_last(), voters, c);
    }
}

/// Tallies depend only on the `voted_for` fields of the records of the
/// voters in `order`.
pub proof fn lemma_tally_agree(
    order: Seq<u64>,
    v1: Map<u64, VoterInfo>,
    v2: Map<u64, VoterInfo>,
    c: u64,
)
    requires
        forall|a: u64| order.contains(a) ==> v1[a].voted_for == v2[a].voted_for,
    ensures
        tally(order, v1, c) == tally(order, v2, c),
    decreases order.len(),
{
    if order.len() > 0 {
        let rest = order.drop_last();
        assert(order.contains(order.last()));
        assert forall|a: u64| rest.contains(a) implies order.contains(a) by {
            let i = choose|i: int| 0 <= i < rest.len() && rest[i] == a;
            assert(order[i] == a);
        }
        lemma_tally_agree(rest, v1, v2, c);
    }
}

/// Inserting a record for an account outside `order` leaves every tally
/// unchanged.
pub proof fn lemma_tally_absent_key(
    order: Seq<u64>,
    voters: Map<u64, VoterInfo>,
    who: u64,
    rec: VoterInfo,
    c: u64,
)
    requires
        !order.contains(who),
    ensures
        tally(order, voters.insert(who, rec), c) == tally(order, voters, c),
{
    assert forall|b: u64| order.contains(b) implies voters.insert(who, rec)[b].voted_for
        == voters[b].voted_for by {
        assert(b != who);
    }
    lemma_tally_agree(order, voters.insert(who, rec), voters, c);
}

/// If no voter in `order` voted for `c`, the tally for `c` is zero.
pub proof fn lemma_tally_zero(order: Seq<u64>, voters: Map<u64, VoterInfo>, c: u64)
    requires
        forall|a: u64| order.contains(a) ==> voters[a].voted_for != Some(c),
    ensures
        tally(order, voters, c) == 0,
    decreases order.len(),
{
    if order.len() > 0 {
        let rest = order.drop_last();
        assert(order.contains(order.last()));
        assert forall|a: u64| rest.contains(a) implies order.contains(a) by {
            let i = choose|i: int| 0 <= i < rest.len() && rest[i] == a;
            assert(order[i] == a);
        }
        lemma_tally_zero(rest, voters, c);
    }
}

/// Replacing the record of one voter in `order` shifts the tally by exactly
/// the difference of that voter's old and new contributions.
pub proof fn lemma_tally_update(
    order: Seq<u64>,
    voters: Map<u64, VoterInfo>,
    who: u64,
    rec: VoterInfo,
    c: u64,
)
    requires
        order.no_duplicates(),
        order.contains(who),
    ensures
        tally(order, voters.insert(who, rec), c) == tally(order, voters, c) - (
        if voters[who].voted_for == Some(c) {
            1int
        } else {
            0int
        }) + (
        if rec.voted_for == Some(c) {
            1int
        } else {
            0int
        }),
    decreases order.len(),
{
    let rest = order.drop_last();
    let last = order.last();
    assert(rest.no_duplicates()) by {
        assert forall|i: int, j: int|
            0 <= i < rest.len() && 0 <= j < rest.len() && i != j implies rest[i] != rest[j] by {
            assert(rest[i] == order[i]);
            assert(rest[j] == order[j]);
        }
    }
    if last == who {
        assert(!rest.contains(who)) by {
            if rest.contains(who) {
                let i = choose|i: int| 0 <= i < rest.len() && rest[i] == who;
                assert(order[i] == who);
                assert(order[order.len() - 1] == who);
            }
        }
        lemma_tally_absent_key(rest, voters, who, rec, c);
    } else {
        assert(rest.contains(who)) by {
            let i = choose|i: int| 0 <= i < order.len() && order[i] == who;
            assert(i != order.len() - 1);
            assert(rest[i] == who);
        }
        lemma_tally_update(rest, voters, who, rec, c);
    }
}

/// A voter in `order` who did not vote for `c` keeps the tally for `c`
/// strictly below the number of voters.
pub proof fn lemma_tally_strict(
    order: Seq<u64>,
    voters: Map<u64, VoterInfo>,
    c: u64,
    who: u64,
)
    requires
        order.no_duplicates(),
        order.contains(who),
        voters[who].voted_for != Some(c),
    ensures
        tally(order, voters, c) < order.len(),
    decreases order.len(),
{
    let rest = order.drop_last();
    let last = order.last();
    assert(rest.no_duplicates()) by {
        assert forall|i: int, j: int|
            0 <= i < rest.len() && 0 <= j < rest.len() && i != j implies rest[i] != rest[j] by {
            assert(rest[i] == order[i]);
            assert(rest[j] == order[j]);
        }
    }
    if last == who {
        lemma_tally_le_len(rest, voters, c);
    } else {
        assert(rest.contains(who)) by {
            let i = choose|i: int| 0 <= i < order.len() && order[i] == who;
            assert(i != order.len() - 1);
            assert(rest[i] == who);
        }
        lemma_tally_strict(rest, voters, c, who);
    }
}

/// Membership in the tied-leader sequence: exactly the candidates of
/// `order` whose count equals `m`.
pub proof fn lemma_winners_membership(
    order: Seq<u64>,
    candidates: Map<u64, CandidateInfo>,
    m: u64,
    c: u64,
)
    ensures
        winners_of(order, candidates, m).contains(c) <==> (order.contains(c)
            && candidates[c].vote_count == m),
    decreases order.len(),
{
    if order.len() == 0 {
        if winners_of(order, candidates, m).contains(c) {
            let i = choose|i: int|
                0 <= i < winners_of(order, candidates, m).len() && winners_of(
                    order,
                    candidates,
                    m,
                )[i] == c;
        }
        if order.contains(c) {
            let i = choose|i: int| 0 <= i < order.len() && order[i] == c;
        }
    } else {
        let rest = order.drop_last();
        let last = order.last();
        lemma_winners_membership(rest, candidates, m, c);
        let w_rest = winners_of(rest, candidates, m);
        let w = winners_of(order, candidates, m);
        assert(order.contains(last));
        assert forall|a: u64| rest.contains(a) implies order.contains(a) by {
            let i = choose|i: int| 0 <= i < rest.len() && rest[i] == a;
            assert(order[i] == a);
        }
        if candidates[last].vote_count == m {
            assert(w == w_rest.push(last));
            if w.contains(c) {
                let i = choose|i: int| 0 <= i < w.len() && w[i] == c;
                if i < w_rest.len() {
                    assert(w_rest[i] == c);
                    assert(w_rest.contains(c));
                } else {
                    assert(c == last);
                }
            }
            if order.contains(c) && candidates[c].vote_count == m {
                if c == last {
                    assert(w[w.len() - 1] == c);
                    assert(w.contains(c));
                } else {
                    let i = choose|i: int| 0 <= i < order.len() && order[i] == c;
                    assert(i != order.len() - 1);
                    assert(rest[i] == c);
                    assert(rest.contains(c));
                    let j = choose|j: int| 0 <= j < w_rest.len() && w_rest[j] == c;
                    assert(w[j] == c);
                    assert(w.contains(c));
                }
            }
        } else {
            assert(w == w_rest);
            if order.contains(c) && candidates[c].vote_count == m {
                assert(c != last);
                let i = choose|i: int| 0 <= i < order.len() && order[i] == c;
                assert(i != order.len() - 1);
                assert(rest[i] == c);
                assert(rest.contains(c));
            }
        }
    }
}

/// The genesis state satisfies the invariant.
pub proof fn lemma_genesis_inv()
    ensures
        ElectionView::genesis().inv(),
{
    let g = ElectionView::genesis();
    assert forall|a: u64| !g.voter_order.contains(a) by {
        if g.voter_order.contains(a) {
            let i = choose|i: int| 0 <= i < g.voter_order.len() && g.voter_order[i] == a;
        }
    }
    assert forall|c: u64| !g.candidate_order.contains(c) by {
        if g.candidate_order.contains(c) {
            let i = choose|i: int| 0 <= i < g.candidate_order.len() && g.candidate_order[i] == c;
        }
    }
}

/// Registering a voter preserves the invariant.
pub proof fn lemma_register_voter_next_inv(pre: ElectionView, who: u64)
    requires
        pre.inv(),
    ensures
        pre.register_voter_next(who).inv(),
{
    if !pre.voters.contains_key(who) {
        let post = pre.register_voter_next(who);
        let order = pre.voter_order;
        let fresh = VoterInfo { vote_status: false, voted_for: None };
        assert(!order.contains(who));
        assert(post.voter_order.no_duplicates()) by {
            assert forall|i: int, j: int|
                0 <= i < post.voter_order.len() && 0 <= j < post.voter_order.len() && i != j
                implies post.voter_order[i] != post.voter_order[j] by {
                let n = order.len() as int;
                if i < n && j < n {
                    assert(order[i] != order[j]);
                } else if i < n && j == n {
                    if order[i] == who {
                        assert(order.contains(who));
                    }
                } else if j < n && i == n {
                    if order[j] == who {
                        assert(order.contains(who));
                    }
                }
            }
        }
        assert forall|a: u64| #[trigger]
            post.voters.contains_key(a) <==> post.voter_order.contains(a) by {
            if a == who {
                assert(post.voter_order[order.len() as int] == who);
                assert(post.voter_order.contains(who));
            } else {
                if order.contains(a) {
                    let i = choose|i: int| 0 <= i < order.len() && order[i] == a;
                    assert(post.voter_order[i] == a);
                    assert(post.voter_order.contains(a));
                }
                if post.voter_order.contains(a) {
                    let i = choose|i: int|
                        0 <= i < post.voter_order.len() && post.voter_order[i] == a;
                    assert(i < order.len());
                    assert(order[i] == a);
                    assert(order.contains(a));
                }
            }
        }
        assert(post.voter_order.drop_last() =~= order);
        assert forall|c: u64| post.candidates.contains_key(c) implies (
        #[trigger] post.candidates[c]).vote_count == tally(post.voter_order, post.voters, c) by {
            assert(tally(post.voter_order, post.voters, c) == tally(order, post.voters, c));
            lemma_tally_absent_key(order, pre.voters, who, fresh, c);
        }
        assert(post.candidates == pre.candidates);
        assert(post.candidate_order == pre.candidate_order);
        assert(post.max_vote == pre.max_vote);
        assert(post.config == pre.config);
        assert forall|a: u64|
            post.voters.contains_key(a) && (#[trigger] post.voters[a]).voted_for is Some
            implies post.candidates.contains_key(post.voters[a].voted_for->0) by {
            if a != who {
                assert(pre.voters.contains_key(a));
                assert(post.voters[a] == pre.voters[a]);
            }
        }
        if pre.max_vote != 0 {
            let cstar = choose|c: u64|
                pre.candidates.contains_key(c) && (#[trigger] pre.candidates[c]).vote_count
                    == pre.max_vote;
            assert(post.candidates.contains_key(cstar) && post.candidates[cstar].vote_count
                == post.max_vote);
        }
    }
}

/// Registering a candidate preserves the invariant.
pub proof fn lemma_register_candidate_next_inv(pre: ElectionView, who: u64)
    requires
        pre.inv(),
    ensures
        pre.register_candidate_next(who).inv(),
{
    if !pre.candidates.contains_key(who) {
        let post = pre.register_candidate_next(who);
        let order = pre.candidate_order;
        assert(!order.contains(who));
        assert(post.candidate_order.no_duplicates()) by {
            assert forall|i: int, j: int|
                0 <= i < post.candidate_order.len() && 0 <= j < post.candidate_order.len() && i
                    != j implies post.candidate_order[i] != post.candidate_order[j] by {
                let n = order.len() as int;
                if i < n && j < n {
                    assert(order[i] != order[j]);
                } else if i < n && j == n {
                    if order[i] == who {
                        assert(order.contains(who));
                    }
                } else if j < n && i == n {
                    if order[j] == who {
                        assert(order.contains(who));
                    }
                }
            }
        }
        assert forall|c: u64| #[trigger]
            post.candidates.contains_key(c) <==> post.candidate_order.contains(c) by {
            if c == who {
                assert(post.candidate_order[order.len() as int] == who);
                assert(post.candidate_order.contains(who));
            } else {
                if order.contains(c) {
                    let i = choose|i: int| 0 <= i < order.len() && order[i] == c;
                    assert(post.candidate_order[i] == c);
                    assert(post.candidate_order.contains(c));
                }
                if post.candidate_order.contains(c) {
                    let i = choose|i: int|
                        0 <= i < post.candidate_order.len() && post.candidate_order[i] == c;
                    assert(i < order.len());
                    assert(order[i] == c);
                    assert(order.contains(c));
                }
            }
        }
        assert forall|c: u64| post.candidates.contains_key(c) implies (
        #[trigger] post.candidates[c]).vote_count == tally(post.voter_order, post.voters, c) by {
            if c == who {
                assert forall|a: u64| pre.voter_order.contains(a) implies pre.voters[a].voted_for
                    != Some(who) by {
                    assert(pre.voters.contains_key(a));
                    if pre.voters[a].voted_for == Some(who) {
                        assert(pre.voters[a].voted_for is Some);
                        assert(pre.candidates.contains_key(who));
                    }
                }
                lemma_tally_zero(pre.voter_order, pre.voters, who);
            } else {
                assert(pre.candidates.contains_key(c));
            }
        }
        if pre.max_vote != 0 {
            let cstar = choose|c: u64|
                pre.candidates.contains_key(c) && (#[trigger] pre.candidates[c]).vote_count
                    == pre.max_vote;
            assert(post.candidates.contains_key(cstar));
            assert(post.candidates[cstar].vote_count == pre.max_vote);
        }
    }
}

/// Configuring the window preserves the invariant.
pub proof fn lemma_config_election_next_inv(pre: ElectionView, start: u64, end: u64)
    requires
        pre.inv(),
    ensures
        pre.config_election_next(start, end).inv(),
{
    let post = pre.config_election_next(start, end);
    assert(post.voters == pre.voters);
    assert(post.voter_order == pre.voter_order);
    assert(post.candidates == pre.candidates);
    assert(post.candidate_order == pre.candidate_order);
    assert(post.max_vote == pre.max_vote);
    if pre.max_vote != 0 {
        let cstar = choose|c: u64|
            pre.candidates.contains_key(c) && (#[trigger] pre.candidates[c]).vote_count
                == pre.max_vote;
        assert(post.candidates.contains_key(cstar) && post.candidates[cstar].vote_count
            == post.max_vote);
    }
}

/// A registered voter who has not voted keeps the tally of every candidate
/// strictly below the number of registered voters.
pub proof fn lemma_vote_count_bounded(v: ElectionView, voter: u64, candidate: u64)
    requires
        v.inv(),
        v.voters.contains_key(voter),
        !v.voters[voter].vote_status,
        v.candidates.contains_key(candidate),
    ensures
        v.candidates[candidate].vote_count < v.voter_order.len(),
{
    assert(v.voters[voter].wf());
    assert(v.voters[voter].voted_for is None);
    assert(v.voter_order.contains(voter));
    lemma_tally_strict(v.voter_order, v.voters, candidate, voter);
}

/// A successfully cast ballot preserves the invariant (given that the new
/// count still fits its machine word, which `lemma_vote_count_bounded`
/// supplies for any state a machine can hold).
pub proof fn lemma_give_vote_next_inv(pre: ElectionView, voter: u64, candidate: u64, now: u64)
    requires
        pre.inv(),
        pre.candidates.contains_key(candidate) ==> pre.candidates[candidate].vote_count
            < u64::MAX,
    ensures
        pre.give_vote_next(voter, candidate, now).inv(),
{
    if pre.give_vote_result(voter, candidate, now) is Ok {
        let post = pre.give_vote_next(voter, candidate, now);
        let order = pre.voter_order;
        let old_count = pre.candidates[candidate].vote_count;
        let new_count = (old_count + 1) as u64;
        let voted_rec = VoterInfo { vote_status: true, voted_for: Some(candidate) };
        assert(pre.voters[voter].wf());
        assert(pre.voters[voter].voted_for is None);
        assert(order.contains(voter));
        assert forall|a: u64| #[trigger]
            post.voters.contains_key(a) <==> post.voter_order.contains(a) by {
            if a != voter {
                assert(post.voters.contains_key(a) == pre.voters.contains_key(a));
            }
        }
        assert forall|c: u64| post.candidates.contains_key(c) implies (
        #[trigger] post.candidates[c]).vote_count == tally(post.voter_order, post.voters, c) by {
            lemma_tally_update(order, pre.voters, voter, voted_rec, c);
            if c == candidate {
                assert(post.candidates[c].vote_count == new_count);
                assert(tally(order, post.voters, c) == tally(order, pre.voters, c) + 1);
            } else {
                assert(post.candidates[c].vote_count == pre.candidates[c].vote_count);
                assert(tally(order, post.voters, c) == tally(order, pre.voters, c));
            }
        }
        assert forall|c: u64| post.candidates.contains_key(c) implies (
        #[trigger] post.candidates[c]).vote_count <= post.max_vote by {
            if c != candidate {
                assert(pre.candidates[c].vote_count <= pre.max_vote);
            }
        }
        assert(post.max_vote == 0 || exists|c: u64|
            post.candidates.contains_key(c) && (#[trigger] post.candidates[c]).vote_count
                == post.max_vote) by {
            if pre.max_vote < new_count {
                assert(post.candidates.contains_key(candidate));
                assert(post.candidates[candidate].vote_count == post.max_vote);
            } else {
                assert(post.max_vote == pre.max_vote);
                assert(pre.max_vote >= new_count >= 1);
                let cstar = choose|c: u64|
                    pre.candidates.contains_key(c) && (#[trigger] pre.candidates[c]).vote_count
                        == pre.max_vote;
                assert(cstar != candidate);
                assert(post.candidates.contains_key(cstar));
                assert(post.candidates[cstar].vote_count == post.max_vote);
            }
        }
    }
}

/// Winner resolution preserves the invariant: it only overwrites the stored
/// winner set.
pub proof fn lemma_winner_next_inv(pre: ElectionView, now: u64)
    requires
        pre.inv(),
    ensures
        pre.winner_next(now).inv(),
{
    let post = pre.winner_next(now);
    assert(post.voters == pre.voters);
    assert(post.voter_order == pre.voter_order);
    assert(post.candidates == pre.candidates);
    assert(post.candidate_order == pre.candidate_order);
    assert(post.config == pre.config);
    assert(post.max_vote == pre.max_vote);
    if pre.max_vote != 0 {
        let cstar = choose|c: u64|
            pre.candidates.contains_key(c) && (#[trigger] pre.candidates[c]).vote_count
                == pre.max_vote;
        assert(post.candidates.contains_key(cstar) && post.candidates[cstar].vote_count
            == post.max_vote);
    }
}

/// Scanning a longer prefix of the registration order can only find more
/// tied leaders.
pub proof fn lemma_winners_prefix_len(
    order: Seq<u64>,
    candidates: Map<u64, CandidateInfo>,
    m: u64,
    i: int,
)
    requires
        0 <= i <= order.len(),
    ensures
        winners_of(order.take(i), candidates, m).len() <= winners_of(order, candidates, m).len(),
    decreases order.len() - i,
{
    if i == order.len() {
        assert(order.take(i) =~= order);
    } else {
        assert(order.take(i + 1).drop_last() =~= order.take(i));
        assert(order.take(i + 1).last() == order[i]);
        lemma_winners_prefix_len(order, candidates, m, i + 1);
    }
}

} // verus!
