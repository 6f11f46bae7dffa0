use evoting::candidate::{Candidate, CandidateInfo};
use evoting::election::Election;
use evoting::errors::Error;
use evoting::registry::Registry;
use evoting::voter::{Voter, VoterInfo};

#[test]
fn tie_is_preserved() {
    // Counts {A: 3, B: 3, C: 2} resolve to the tied leaders {A, B}.
    let a: u64 = 100;
    let b: u64 = 101;
    let c: u64 = 102;
    let mut e = Election::new();
    for voter in 1..=8u64 {
        assert_eq!(e.register_voter(voter), Ok(()));
    }
    assert_eq!(e.register_candidate(a), Ok(()));
    assert_eq!(e.register_candidate(b), Ok(()));
    assert_eq!(e.register_candidate(c), Ok(()));
    assert_eq!(e.config_election(5, 25), Ok(()));
    assert_eq!(e.give_vote(1, a, 10), Ok(()));
    assert_eq!(e.give_vote(2, a, 10), Ok(()));
    assert_eq!(e.give_vote(3, a, 10), Ok(()));
    assert_eq!(e.give_vote(4, b, 10), Ok(()));
    assert_eq!(e.give_vote(5, b, 10), Ok(()));
    assert_eq!(e.give_vote(6, b, 10), Ok(()));
    assert_eq!(e.give_vote(7, c, 10), Ok(()));
    assert_eq!(e.give_vote(8, c, 10), Ok(()));
    assert_eq!(e.max_votes(), 3);
    assert_eq!(e.winner(26), Ok(()));
    assert_eq!(e.max_votes_candidate().unwrap(), vec![a, b]);
}

#[test]
fn window_boundaries_are_inclusive() {
    // Votes exactly at the start and exactly at the end succeed; one past the
    // end fails with ElectionEnded.
    let mut e = Election::new();
    assert_eq!(e.register_voter(1), Ok(()));
    assert_eq!(e.register_voter(2), Ok(()));
    assert_eq!(e.register_voter(3), Ok(()));
    assert_eq!(e.register_candidate(9), Ok(()));
    assert_eq!(e.config_election(5, 25), Ok(()));
    assert_eq!(e.give_vote(1, 9, 5), Ok(()));
    assert_eq!(e.give_vote(2, 9, 25), Ok(()));
    assert_eq!(e.give_vote(3, 9, 26), Err(Error::ElectionEnded));
    assert_eq!(e.candidate_account(9).unwrap(), CandidateInfo::set(2));
}

#[test]
fn full_scenario() {
    // Window [5, 25]; voters {Alice, Bob}; candidates {Carol, Dave}; at time
    // 10 both voters pick Carol; at time 30 the winner set is {Carol} with a
    // count of 2, while Dave stays at 0.
    let alice: u64 = 1;
    let bob: u64 = 2;
    let carol: u64 = 3;
    let dave: u64 = 4;
    let mut e = Election::new();
    assert_eq!(e.config_election(5, 25), Ok(()));
    assert_eq!(e.register_voter(alice), Ok(()));
    assert_eq!(e.register_voter(bob), Ok(()));
    assert_eq!(e.register_candidate(carol), Ok(()));
    assert_eq!(e.register_candidate(dave), Ok(()));
    assert_eq!(e.give_vote(alice, carol, 10), Ok(()));
    assert_eq!(e.give_vote(bob, carol, 10), Ok(()));
    assert_eq!(e.winner(30), Ok(()));
    assert_eq!(e.max_votes_candidate().unwrap(), vec![carol]);
    assert_eq!(e.candidate_account(carol).unwrap(), CandidateInfo::set(2));
    assert_eq!(e.candidate_account(dave).unwrap(), CandidateInfo::set(0));
    assert_eq!(e.max_votes(), 2);
}

#[test]
fn rejected_vote_leaves_no_side_effect() {
    let mut e = Election::new();
    assert_eq!(e.register_voter(1), Ok(()));
    assert_eq!(e.register_candidate(9), Ok(()));
    assert_eq!(e.config_election(5, 25), Ok(()));
    assert_eq!(e.give_vote(1, 9, 2), Err(Error::ElectionNotStarted));
    assert_eq!(e.give_vote(1, 9, 40), Err(Error::ElectionEnded));
    assert_eq!(e.candidate_account(9).unwrap(), CandidateInfo::set(0));
    assert_eq!(e.voter_account(1).unwrap(), VoterInfo::new());
    assert_eq!(e.max_votes(), 0);
}

#[test]
fn err_configure_twice() {
    let mut e = Election::new();
    assert_eq!(e.config_election(5, 25), Ok(()));
    assert_eq!(e.config_election(6, 30), Err(Error::AlreadyConfiguredElection));
}

#[test]
fn err_illogical_window() {
    let mut e = Election::new();
    assert_eq!(e.config_election(25, 5), Err(Error::ElectionTimeIllogical));
    assert_eq!(e.config_election(7, 7), Err(Error::ElectionTimeIllogical));
    assert!(e.get_election().is_none());
}

#[test]
fn winner_capacity_is_enforced() {
    // 101 candidates, no votes: all tied at zero, one more than the winner
    // set can hold, so resolution aborts and stores nothing.
    let mut e = Election::new();
    for c in 1..=101u64 {
        assert_eq!(e.register_candidate(c), Ok(()));
    }
    assert_eq!(e.config_election(5, 25), Ok(()));
    assert_eq!(e.winner(26), Err(Error::MaxCandidatesExceed));
    assert!(e.max_votes_candidate().is_none());
}

#[test]
fn winner_capacity_boundary_fits() {
    // Exactly 100 tied candidates fill the winner set to its capacity.
    let mut e = Election::new();
    for c in 1..=100u64 {
        assert_eq!(e.register_candidate(c), Ok(()));
    }
    assert_eq!(e.config_election(5, 25), Ok(()));
    assert_eq!(e.winner(26), Ok(()));
    let winners = e.max_votes_candidate().unwrap();
    assert_eq!(winners.len(), 100);
    assert_eq!(winners, (1..=100u64).collect::<Vec<u64>>());
}

#[test]
fn winner_is_rerunnable() {
    let mut e = Election::new();
    assert_eq!(e.register_voter(1), Ok(()));
    assert_eq!(e.register_candidate(9), Ok(()));
    assert_eq!(e.register_candidate(8), Ok(()));
    assert_eq!(e.config_election(5, 25), Ok(()));
    assert_eq!(e.give_vote(1, 9, 10), Ok(()));
    assert_eq!(e.winner(26), Ok(()));
    let first = e.max_votes_candidate().unwrap();
    assert_eq!(e.winner(40), Ok(()));
    assert_eq!(e.max_votes_candidate().unwrap(), first);
    assert_eq!(first, vec![9]);
}

#[test]
fn heavy_tied_election() {
    // 100 candidates and 1000 voters, ten ballots each: a full hundred-way
    // tie at ten votes.
    let mut e = Election::new();
    for c in 1..=100u64 {
        assert_eq!(e.register_candidate(c), Ok(()));
    }
    for v in 101..=1100u64 {
        assert_eq!(e.register_voter(v), Ok(()));
    }
    assert_eq!(e.config_election(1, 20), Ok(()));
    for i in 0..1000u64 {
        assert_eq!(e.give_vote(101 + i, 1 + (i % 100), 10), Ok(()));
    }
    assert_eq!(e.max_votes(), 10);
    assert_eq!(e.winner(21), Ok(()));
    assert_eq!(e.max_votes_candidate().unwrap().len(), 100);
}

#[test]
fn voter_record_operations() {
    let v = VoterInfo::new();
    assert!(!v.check_voted());
    assert_eq!(v.voted_for(), None);

    let mut w: VoterInfo = Voter::new_voter();
    assert!(!w.check_voted());
    w.voted(7);
    assert!(w.check_voted());
    assert_eq!(w.voted_for(), Some(7));
    assert_eq!(w, VoterInfo::set(true, 7));
}

#[test]
fn candidate_record_operations() {
    let mut c: CandidateInfo = Candidate::new_candidate();
    assert_eq!(c.vote_count(), 0);
    c.increase_vote();
    c.increase_vote();
    assert_eq!(c.vote_count(), 2);
    assert_eq!(c, CandidateInfo::set(2));
}

#[test]
fn registry_keeps_order_and_replaces_in_place() {
    let mut r: Registry<u64> = Registry::new();
    assert_eq!(r.len(), 0);
    assert!(!r.contains_key(5));
    r.insert(5, 50);
    r.insert(3, 30);
    r.insert(8, 80);
    assert_eq!(r.len(), 3);
    assert!(r.contains_key(3));
    assert!(!r.contains_key(4));
    assert_eq!(r.get(3), Some(30));
    assert_eq!(r.get(4), None);
    assert_eq!(r.key_at(0), 5);
    assert_eq!(r.key_at(1), 3);
    assert_eq!(r.key_at(2), 8);
    assert_eq!(r.value_at(1), 30);
    r.set(3, 31);
    assert_eq!(r.get(3), Some(31));
    assert_eq!(r.len(), 3);
    assert_eq!(r.key_at(1), 3);
}
