use vstd::prelude::*;

use crate::errors::Error;

verus! {

/// The voting window: a one-shot singleton interval of logical time. Voting
/// is permitted from `start_block` to `end_block`, both ends inclusive.
#[derive(Clone, Copy, Debug, PartialEq, Eq, Structural)]
pub struct ElectionInfo {
    pub start_block: Option<u64>,
    pub end_block: Option<u64>,
}

impl ElectionInfo {
    /// A configured window carries both bounds, and opens strictly before it
    /// closes.
    pub open spec fn wf(self) -> bool {
        &&& self.start_block is Some
        &&& self.end_block is Some
        &&& self.start_block->0 < self.end_block->0
    }

    /// The first logical time at which voting is allowed.
    pub open spec fn start(self) -> u64 {
        self.start_block->0
    }

    /// The last logical time at which voting is allowed.
    pub open spec fn end(self) -> u64 {
        self.end_block->0
    }

    /// Voting is open at `now`: the window has started and has not ended.
    pub open spec fn in_progress_at(self, now: u64) -> bool {
        self.start() <= now <= self.end()
    }

    /// The window is over at `now`; winner resolution may run.
    pub open spec fn ended_at(self, now: u64) -> bool {
        now > self.end()
    }

    /// The outcome of the in-progress gate: exactly which error a
    /// voting-period-sensitive request is rejected with at `now`, if any.
    pub open spec fn progress_result(config: Option<ElectionInfo>, now: u64) -> Result<(), Error> {
        match config {
            None => Err(Error::ElectionNotConfigured),
            Some(w) => if now < w.start() {
                Err(Error::ElectionNotStarted)
            } else if now > w.end() {
                Err(Error::ElectionEnded)
            } else {
                Ok(())
            },
        }
    }

    /// The outcome of the post-close gate: winner resolution is allowed only
    /// strictly after the window's end.
    pub open spec fn ended_result(config: Option<ElectionInfo>, now: u64) -> Result<(), Error> {
        match config {
            None => Err(Error::ElectionNotConfigured),
            Some(w) => if now <= w.end() {
                Err(Error::ElectionNotEnded)
            } else {
                Ok(())
            },
        }
    }

    /// A window with the given bounds.
    pub fn set(start: u64, end: u64) -> (w: Self)
        ensures
            w == (ElectionInfo { start_block: Some(start), end_block: Some(end) }),
            start < end ==> w.wf(),
    {
        ElectionInfo { start_block: Some(start), end_block: Some(end) }
    }

    /// Gate a voting-period-sensitive request: fail while no window exists,
    /// before the window opens, and after it closes.
    pub fn ensure_election_progress(config: &Option<ElectionInfo>, now: u64) -> (r: Result<(), Error>)
        requires
            config matches Some(w) ==> w.wf(),
        ensures
            r == Self::progress_result(*config, now),
            r is Ok <==> (config matches Some(w) && w.in_progress_at(now)),
    {
        match config {
            None => Err(Error::ElectionNotConfigured),
            Some(w) => {
                let start = w.start_block.unwrap();
                let end = w.end_block.unwrap();
                if now < start {
                    Err(Error::ElectionNotStarted)
                } else if now > end {
                    Err(Error::ElectionEnded)
                } else {
                    Ok(())
                }
            },
        }
    }

    /// Gate winner resolution: fail while no window exists or the window has
    /// not yet closed.
    pub fn ensure_election_ended(config: &Option<ElectionInfo>, now: u64) -> (r: Result<(), Error>)
        requires
            config matches Some(w) ==> w.wf(),
        ensures
            r == Self::ended_result(*config, now),
            r is Ok <==> (config matches Some(w) && w.ended_at(now)),
    {
        match config {
            None => Err(Error::ElectionNotConfigured),
            Some(w) => {
                let end = w.end_block.unwrap();
                if now <= end {
                    Err(Error::ElectionNotEnded)
                } else {
                    Ok(())
                }
            },
        }
    }
}

} // verus!
