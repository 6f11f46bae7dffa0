use evoting::candidate::CandidateInfo;
use evoting::election::Election;
use evoting::errors::Error;
use evoting::voter::VoterInfo;
use evoting::window::ElectionInfo;

const ALICE: u64 = 1;
const BOB: u64 = 2;
const DAVE: u64 = 3;
const RON: u64 = 4;
const JOHN: u64 = 5;

fn run_voting_process() {
    let mut e = Election::new();

    // Voter
    assert_eq!(e.register_voter(ALICE), Ok(()));
    assert_eq!(e.voter_account(ALICE).unwrap(), VoterInfo::new());

    // Candidate
    assert_eq!(e.register_candidate(BOB), Ok(()));
    assert_eq!(e.candidate_account(BOB).unwrap(), CandidateInfo::new());

    // Election
    assert_eq!(e.config_election(1, 20), Ok(()));
    assert_eq!(e.get_election().unwrap(), ElectionInfo::set(1, 20));

    // Voting at logical time 5
    assert_eq!(e.give_vote(ALICE, BOB, 5), Ok(()));
    assert_eq!(e.candidate_account(BOB).unwrap(), CandidateInfo::set(1));
    assert_eq!(e.voter_account(ALICE).unwrap(), VoterInfo::set(true, BOB));
}

#[test]
fn test_during_election() {
    run_voting_process();
}

#[test]
fn test_voting_process() {
    run_voting_process();
}

#[test]
fn err_before_election() {
    let mut e = Election::new();

    assert_eq!(e.register_voter(ALICE), Ok(()));
    assert_eq!(e.voter_account(ALICE).unwrap(), VoterInfo::new());

    assert_eq!(e.register_candidate(BOB), Ok(()));
    assert_eq!(e.candidate_account(BOB).unwrap(), CandidateInfo::new());

    assert_eq!(e.config_election(1, 20), Ok(()));
    assert_eq!(e.get_election().unwrap(), ElectionInfo::set(1, 20));

    // Voting at logical time 0, before the window opens
    assert_eq!(e.give_vote(ALICE, BOB, 0), Err(Error::ElectionNotStarted));
}

#[test]
fn err_after_election() {
    let mut e = Election::new();

    assert_eq!(e.register_voter(ALICE), Ok(()));
    assert_eq!(e.voter_account(ALICE).unwrap(), VoterInfo::new());

    assert_eq!(e.register_candidate(BOB), Ok(()));
    assert_eq!(e.candidate_account(BOB).unwrap(), CandidateInfo::new());

    assert_eq!(e.config_election(1, 20), Ok(()));
    assert_eq!(e.get_election().unwrap(), ElectionInfo::set(1, 20));

    // Voting at logical time 25, after the window has closed
    assert_eq!(e.give_vote(ALICE, BOB, 25), Err(Error::ElectionEnded));
}

#[test]
fn test_register_voter() {
    let mut e = Election::new();
    assert_eq!(e.register_voter(ALICE), Ok(()));
    assert_eq!(e.voter_account(ALICE).unwrap(), VoterInfo::new());
}

#[test]
fn test_register_candidate() {
    let mut e = Election::new();
    assert_eq!(e.register_candidate(BOB), Ok(()));
    assert_eq!(e.candidate_account(BOB).unwrap(), CandidateInfo::new());
}

#[test]
fn test_election_configured() {
    let mut e = Election::new();
    assert_eq!(e.config_election(1, 20), Ok(()));
    assert_eq!(e.get_election().unwrap(), ElectionInfo::set(1, 20));
}

#[test]
fn config_election() {
    let mut e = Election::new();
    assert_eq!(e.config_election(1, 20), Ok(()));
    assert_eq!(e.get_election().unwrap(), ElectionInfo::set(1, 20));
}

#[test]
fn test_winner() {
    let mut e = Election::new();

    // Voters
    assert_eq!(e.register_voter(ALICE), Ok(()));
    assert_eq!(e.register_voter(BOB), Ok(()));
    assert_eq!(e.register_voter(DAVE), Ok(()));
    assert_eq!(e.register_voter(JOHN), Ok(()));
    assert_eq!(e.register_voter(RON), Ok(()));

    // Candidates
    assert_eq!(e.register_candidate(DAVE), Ok(()));
    assert_eq!(e.register_candidate(RON), Ok(()));
    assert_eq!(e.register_candidate(JOHN), Ok(()));

    // Election
    assert_eq!(e.config_election(1, 20), Ok(()));

    // Voting at logical time 5
    assert_eq!(e.give_vote(ALICE, DAVE, 5), Ok(()));
    assert_eq!(e.give_vote(JOHN, DAVE, 5), Ok(()));
    assert_eq!(e.give_vote(DAVE, RON, 5), Ok(()));
    assert_eq!(e.give_vote(BOB, RON, 5), Ok(()));
    assert_eq!(e.give_vote(RON, JOHN, 5), Ok(()));

    // Winner at logical time 25
    let win: Vec<u64> = vec![DAVE, RON];
    assert_eq!(e.winner(25), Ok(()));
    assert_eq!(e.max_votes_candidate().unwrap(), win);
}

#[test]
fn err_twice_register_voter() {
    let mut e = Election::new();
    assert_eq!(e.register_voter(ALICE), Ok(()));
    assert_eq!(e.voter_account(ALICE).unwrap(), VoterInfo::new());

    // Register the same voter again
    assert_eq!(e.register_voter(ALICE), Err(Error::AlreadyRegistered));
}

#[test]
fn err_twice_register_candidate() {
    let mut e = Election::new();
    assert_eq!(e.register_candidate(BOB), Ok(()));
    assert_eq!(e.candidate_account(BOB).unwrap(), CandidateInfo::new());

    // Register the same candidate again
    assert_eq!(e.register_candidate(BOB), Err(Error::AlreadyRegistered));
}

#[test]
fn err_already_voted() {
    let mut e = Election::new();

    assert_eq!(e.register_voter(ALICE), Ok(()));
    assert_eq!(e.voter_account(ALICE).unwrap(), VoterInfo::new());

    assert_eq!(e.register_candidate(BOB), Ok(()));
    assert_eq!(e.candidate_account(BOB).unwrap(), CandidateInfo::new());

    assert_eq!(e.config_election(1, 20), Ok(()));
    assert_eq!(e.get_election().unwrap(), ElectionInfo::set(1, 20));

    assert_eq!(e.give_vote(ALICE, BOB, 5), Ok(()));
    assert_eq!(e.candidate_account(BOB).unwrap(), CandidateInfo::set(1));
    assert_eq!(e.voter_account(ALICE).unwrap(), VoterInfo::set(true, BOB));

    assert_eq!(e.give_vote(ALICE, BOB, 5), Err(Error::AlreadyVoted));
    // The tally moved by exactly one in total, not two.
    assert_eq!(e.candidate_account(BOB).unwrap(), CandidateInfo::set(1));
}

#[test]
fn err_voting_election_not_configured() {
    let mut e = Election::new();

    assert_eq!(e.register_voter(ALICE), Ok(()));
    assert_eq!(e.voter_account(ALICE).unwrap(), VoterInfo::new());

    assert_eq!(e.register_candidate(BOB), Ok(()));
    assert_eq!(e.candidate_account(BOB).unwrap(), CandidateInfo::new());

    assert_eq!(e.give_vote(ALICE, BOB, 5), Err(Error::ElectionNotConfigured));
}

#[test]
fn err_voting_not_registered_voter() {
    let mut e = Election::new();

    assert_eq!(e.register_candidate(BOB), Ok(()));
    assert_eq!(e.candidate_account(BOB).unwrap(), CandidateInfo::new());

    assert_eq!(e.config_election(1, 20), Ok(()));
    assert_eq!(e.get_election().unwrap(), ElectionInfo::set(1, 20));

    assert_eq!(e.give_vote(ALICE, BOB, 5), Err(Error::NotRegistered));
}

#[test]
fn err_voting_not_registered_candidate() {
    let mut e = Election::new();

    assert_eq!(e.register_voter(ALICE), Ok(()));
    assert_eq!(e.voter_account(ALICE).unwrap(), VoterInfo::new());

    assert_eq!(e.config_election(1, 20), Ok(()));
    assert_eq!(e.get_election().unwrap(), ElectionInfo::set(1, 20));

    assert_eq!(e.give_vote(ALICE, BOB, 5), Err(Error::NotRegistered));
}

#[test]
fn err_winner() {
    let mut e = Election::new();

    assert_eq!(e.config_election(1, 20), Ok(()));
    assert_eq!(e.get_election().unwrap(), ElectionInfo::set(1, 20));

    // Logical time 5: the window is still open.
    assert_eq!(e.winner(5), Err(Error::ElectionNotEnded));
}
