use microcontroller::scan::{ScanAction, ScanState};

#[test]
fn idle_starts_a_scan() {
    let mut s = ScanState::Idle;
    assert_eq!(s.poll(false), ScanAction::Start);
    assert_eq!(s, ScanState::Scanning);
}

#[test]
fn unfinished_scan_waits() {
    let mut s = ScanState::Scanning;
    assert_eq!(s.poll(false), ScanAction::Wait);
    assert_eq!(s, ScanState::Scanning);
}

#[test]
fn finished_scan_yields_once_and_rearms() {
    let mut s = ScanState::Idle;
    assert_eq!(s.poll(true), ScanAction::Start);
    assert_eq!(s.poll(false), ScanAction::Wait);
    assert_eq!(s.poll(true), ScanAction::CollectAndRestart);
    assert_eq!(s, ScanState::Scanning);
    assert_eq!(s.poll(false), ScanAction::Wait);
    assert_eq!(s.poll(true), ScanAction::CollectAndRestart);
}

#[test]
fn uninitialized_does_nothing() {
    let mut s = ScanState::Uninitialized;
    assert_eq!(s.poll(true), ScanAction::Wait);
    assert_eq!(s, ScanState::Uninitialized);
}
