use vstd::prelude::*;

use crate::errors::Error;
use crate::model::{lemma_winners_membership, ElectionView};
use crate::window::ElectionInfo;

verus! {

/// After a voter registration succeeds, registering the same account as a
/// voter again fails with `AlreadyRegistered`.
pub proof fn lemma_register_voter_twice_fails(v: ElectionView, who: u64)
    requires
        v.register_voter_result(who) is Ok,
    ensures
        v.register_voter_next(who).register_voter_result(who) == Err::<(), Error>(
            Error::AlreadyRegistered,
        ),
{
}

/// After a candidate registration succeeds, registering the same account as
/// a candidate again fails with `AlreadyRegistered`.
pub proof fn lemma_register_candidate_twice_fails(v: ElectionView, who: u64)
    requires
        v.register_candidate_result(who) is Ok,
    ensures
        v.register_candidate_next(who).register_candidate_result(who) == Err::<(), Error>(
            Error::AlreadyRegistered,
        ),
{
}

/// A ballot cast outside the configured window is rejected with exactly the
/// phase error (`ElectionNotStarted` before the start, `ElectionEnded` after
/// the end) and leaves the whole state unchanged: in particular no voter
/// record and no candidate count moves.
pub proof fn lemma_vote_outside_window_rejected(
    v: ElectionView,
    voter: u64,
    candidate: u64,
    now: u64,
)
    requires
        v.config matches Some(w) && w.wf() && !w.in_progress_at(now),
    ensures
        v.give_vote_next(voter, candidate, now) == v,
        now < v.config->0.start() ==> v.give_vote_result(voter, candidate, now) == Err::<
            (),
            Error,
        >(Error::ElectionNotStarted),
        now > v.config->0.end() ==> v.give_vote_result(voter, candidate, now) == Err::<(), Error>(
            Error::ElectionEnded,
        ),
{
}

/// Casting twice from the same voter is impossible: after one successful
/// ballot, every further ballot by that voter fails (with `AlreadyVoted`
/// whenever it gets past the window gate and names a registered candidate),
/// and the failed attempt changes nothing, so the first ballot's single
/// increment is the total effect.
///
/// The bound on the candidate's count holds in every state a machine can
/// hold (`lemma_vote_count_bounded`).
pub proof fn lemma_no_double_vote(
    v: ElectionView,
    voter: u64,
    c1: u64,
    now1: u64,
    c2: u64,
    now2: u64,
)
    requires
        v.inv(),
        v.give_vote_result(voter, c1, now1) is Ok,
        v.candidates[c1].vote_count < u64::MAX,
    ensures
        v.give_vote_next(voter, c1, now1).give_vote_result(voter, c2, now2) is Err,
        ElectionInfo::progress_result(v.config, now2) is Ok && v.candidates.contains_key(c2)
            ==> v.give_vote_next(voter, c1, now1).give_vote_result(voter, c2, now2) == Err::<
            (),
            Error,
        >(Error::AlreadyVoted),
        v.give_vote_next(voter, c1, now1).give_vote_next(voter, c2, now2) == v.give_vote_next(
            voter,
            c1,
            now1,
        ),
        v.give_vote_next(voter, c1, now1).candidates[c1].vote_count == v.candidates[c1].vote_count
            + 1,
{
}

/// The winner set collects exactly the tied leaders: a candidate is among
/// the winners if and only if it is registered and its count equals the
/// running maximum, which no candidate's count exceeds. Ties are preserved,
/// never broken.
pub proof fn lemma_winners_are_tied_leaders(v: ElectionView, c: u64)
    requires
        v.inv(),
    ensures
        v.winners_seq().contains(c) <==> (v.candidates.contains_key(c)
            && v.candidates[c].vote_count == v.max_vote),
        v.candidates.contains_key(c) ==> v.candidates[c].vote_count <= v.max_vote,
{
    lemma_winners_membership(v.candidate_order, v.candidates, v.max_vote, c);
}

/// Boundary inclusivity: a registered voter who has not voted can cast for
/// a registered candidate exactly at the window's start and exactly at its
/// end, while any later time is rejected with `ElectionEnded`.
pub proof fn lemma_window_boundaries(v: ElectionView, voter: u64, candidate: u64)
    requires
        v.inv(),
        v.config is Some,
        v.voters.contains_key(voter),
        !v.voters[voter].vote_status,
        v.candidates.contains_key(candidate),
    ensures
        v.give_vote_result(voter, candidate, v.config->0.start()) is Ok,
        v.give_vote_result(voter, candidate, v.config->0.end()) is Ok,
        forall|now: u64|
            now > v.config->0.end() ==> v.give_vote_result(voter, candidate, now) == Err::<
                (),
                Error,
            >(Error::ElectionEnded),
{
}

/// Winner resolution at or before the window's end always fails with
/// `ElectionNotEnded`, regardless of the vote state, and changes nothing.
pub proof fn lemma_winner_before_end_fails(v: ElectionView, now: u64)
    requires
        v.config matches Some(w) && now <= w.end(),
    ensures
        v.winner_result(now) == Err::<(), Error>(Error::ElectionNotEnded),
        v.winner_next(now) == v,
{
}

/// Winner resolution is safely re-runnable once the window has closed: with
/// the registries unchanged it reaches the same verdict and recomputes the
/// same winner set.
pub proof fn lemma_winner_rerun(v: ElectionView, now1: u64, now2: u64)
    requires
        v.winner_result(now1) is Ok,
    ensures
        v.winner_next(now1).winner_result(now2) == v.winner_result(now2),
        v.winner_next(now1).winner_next(now2).winners == v.winner_next(now1).winners,
{
    let next = v.winner_next(now1);
    assert(next.candidates == v.candidates);
    assert(next.candidate_order == v.candidate_order);
    assert(next.max_vote == v.max_vote);
    assert(next.config == v.config);
    assert(next.winners_seq() == v.winners_seq());
}

} // verus!
