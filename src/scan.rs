//! The decisions of the double-buffered analog scan: when to start a scan and
//! when to collect its samples. The owner of the converter performs what
//! `poll` asks for.
use vstd::prelude::*;

verus! {

/// Where the scan is.
#[derive(Debug, Clone, Copy, PartialEq, Eq, Structural)]
pub enum ScanState {
    /// Nothing to scan with yet.
    Uninitialized,
    /// A sampling configuration is armed but no scan runs.
    Idle,
    /// A scan is in progress.
    Scanning,
}

/// What the owner of the converter must do after a poll.
#[derive(Debug, Clone, Copy, PartialEq, Eq, Structural)]
pub enum ScanAction {
    /// Nothing; no samples this time.
    Wait,
    /// Start a scan; no samples this time.
    Start,
    /// Take the samples of the finished scan, start the next scan at once, and
    /// hand the samples on.
    CollectAndRestart,
}

/// The state and action of one poll.
pub open spec fn poll_result(state: ScanState, transfer_done: bool) -> (ScanState, ScanAction) {
    match state {
        ScanState::Uninitialized => (ScanState::Uninitialized, ScanAction::Wait),
        ScanState::Idle => (ScanState::Scanning, ScanAction::Start),
        ScanState::Scanning => if transfer_done {
            (ScanState::Scanning, ScanAction::CollectAndRestart)
        } else {
            (ScanState::Scanning, ScanAction::Wait)
        },
    }
}

impl ScanState {
    /// One poll. `transfer_done` says whether the running scan has finished;
    /// it is looked at only while scanning.
    pub fn poll(&mut self, transfer_done: bool) -> (r: ScanAction)
        ensures
            (*final(self), r) == poll_result(*old(self), transfer_done),
    {
        match *self {
            ScanState::Uninitialized => ScanAction::Wait,
            ScanState::Idle => {
                *self = ScanState::Scanning;
                ScanAction::Start
            },
            ScanState::Scanning => if transfer_done {
                ScanAction::CollectAndRestart
            } else {
                ScanAction::Wait
            },
        }
    }
}

/// The states after each poll in turn, given for each poll whether the running
/// transfer had finished.
pub open spec fn run_polls(state: ScanState, done: Seq<bool>) -> ScanState
    decreases done.len(),
{
    if done.len() == 0 {
        state
    } else {
        run_polls(poll_result(state, done[0]).0, done.drop_first())
    }
}

/// Once a scan has started the machine never leaves `Scanning`: samples come
/// out exactly on the polls where the transfer had finished, and each of those
/// re-arms the next scan at once.
pub proof fn lemma_scanning_continues(state: ScanState, done: Seq<bool>)
    requires
        state == ScanState::Scanning,
    ensures
        run_polls(state, done) == ScanState::Scanning,
        forall|i: int|
            0 <= i < done.len() ==> (poll_result(ScanState::Scanning, #[trigger] done[i]).1
                == ScanAction::CollectAndRestart) == done[i],
    decreases done.len(),
{
    if done.len() > 0 {
        lemma_scanning_continues(poll_result(state, done[0]).0, done.drop_first());
    }
}

} // verus!
