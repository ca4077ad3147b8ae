//! The process-lifecycle model: exit statuses and repeated waits.

use gaol::process::{ExitStatus, Process};

#[test]
fn success_is_exactly_exit_code_zero() {
    assert!(ExitStatus::Status(0).success());
    assert!(!ExitStatus::Status(1).success());
    assert!(!ExitStatus::Status(255).success());
}

#[test]
fn first_wait_records_the_reported_code() {
    let mut p = Process::new(4242);
    assert_eq!(p.handle(), 4242);
    assert_eq!(p.exit_recorded(), None);
    let status = p.record_exit(3);
    assert_eq!(status, ExitStatus::Status(3));
    assert_eq!(p.exit_recorded(), Some(ExitStatus::Status(3)));
}

#[test]
fn waiting_twice_returns_the_same_status() {
    let mut p = Process::new(1);
    let first = p.record_exit(0);
    // whatever the operating system reports for a later wait, the recorded
    // terminal status is what comes back
    let second = p.record_exit(77);
    assert_eq!(first, second);
    assert!(second.success());
    assert_eq!(p.exit_recorded(), Some(first));
}
