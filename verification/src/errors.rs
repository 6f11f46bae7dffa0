use vstd::prelude::*;

verus! {

/// Why a single request was rejected. Every error is terminal for the request
/// that produced it; no operation is partially applied on failure.
#[derive(Clone, Copy, Debug, PartialEq, Eq, Structural)]
pub enum Error {
    /// The caller's one vote has already been cast.
    AlreadyVoted,
    /// The account is already present in the targeted registry.
    AlreadyRegistered,
    /// The voting window is a one-shot singleton and has already been set.
    AlreadyConfiguredElection,
    /// A required voter or candidate record is absent.
    NotRegistered,
    /// No voting window has been configured yet.
    ElectionNotConfigured,
    /// The logical clock is still before the window's start.
    ElectionNotStarted,
    /// The logical clock is already past the window's end.
    ElectionEnded,
    /// Winner resolution was requested while the window is still open.
    ElectionNotEnded,
    /// The tied leaders would not fit in the winner set's fixed capacity.
    MaxCandidatesExceed,
    /// A window was requested whose start does not precede its end.
    ElectionTimeIllogical,
}

} // verus!
