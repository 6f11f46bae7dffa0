use evoting::election::Election;
use evoting::errors::Error;

const ALICE: u64 = 1;
const BOB: u64 = 2;

const ELECTION_START_TIME: u64 = 5;
const ELECTION_END_TIME: u64 = 25;
const TIME_DURING_ELECTION: u64 = 10;

fn configure_election_start_and_end_time(e: &mut Election) {
    assert_eq!(e.config_election(ELECTION_START_TIME, ELECTION_END_TIME), Ok(()));
}

#[test]
fn test_raise_error_when_voter_registers_twice() {
    let mut e = Election::new();

    assert_eq!(e.register_voter(ALICE), Ok(()));
    assert_eq!(e.register_voter(ALICE), Err(Error::AlreadyRegistered));
}

#[test]
fn test_raise_error_when_candidate_registers_twice() {
    let mut e = Election::new();

    assert_eq!(e.register_candidate(BOB), Ok(()));
    assert_eq!(e.register_candidate(BOB), Err(Error::AlreadyRegistered));
}

#[test]
fn test_raise_error_when_voter_already_voted() {
    let mut e = Election::new();
    assert_eq!(e.register_voter(ALICE), Ok(()));
    assert_eq!(e.register_candidate(BOB), Ok(()));

    configure_election_start_and_end_time(&mut e);

    assert_eq!(e.give_vote(ALICE, BOB, TIME_DURING_ELECTION), Ok(()));
    assert_eq!(e.give_vote(ALICE, BOB, TIME_DURING_ELECTION), Err(Error::AlreadyVoted));
}

#[test]
fn test_raise_error_for_voting_when_election_not_configured() {
    let mut e = Election::new();
    assert_eq!(e.register_voter(ALICE), Ok(()));
    assert_eq!(e.register_candidate(BOB), Ok(()));

    assert_eq!(
        e.give_vote(ALICE, BOB, TIME_DURING_ELECTION),
        Err(Error::ElectionNotConfigured)
    );
}

#[test]
fn test_raise_error_when_voting_by_not_registered_voter() {
    let mut e = Election::new();
    assert_eq!(e.register_candidate(BOB), Ok(()));

    configure_election_start_and_end_time(&mut e);

    assert_eq!(e.give_vote(ALICE, BOB, TIME_DURING_ELECTION), Err(Error::NotRegistered));
}

#[test]
fn test_raise_error_when_voting_to_not_registered_candidate() {
    let mut e = Election::new();
    assert_eq!(e.register_voter(ALICE), Ok(()));

    configure_election_start_and_end_time(&mut e);

    assert_eq!(e.give_vote(ALICE, BOB, TIME_DURING_ELECTION), Err(Error::NotRegistered));
}

#[test]
fn test_raise_error_when_calling_winner_before_election_end() {
    let mut e = Election::new();
    assert_eq!(e.register_voter(ALICE), Ok(()));
    assert_eq!(e.register_candidate(BOB), Ok(()));
    configure_election_start_and_end_time(&mut e);

    assert_eq!(e.winner(TIME_DURING_ELECTION), Err(Error::ElectionNotEnded));
}
