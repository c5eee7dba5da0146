//! Process liveness.

use sinew::process::{alive_from_probe, is_process_alive, probe_target, ProbeOutcome};

#[test]
fn own_process_is_alive() {
    let pid = nix::unistd::getpid().as_raw() as u32;
    assert!(is_process_alive(pid));
}

#[test]
fn nonexistent_pid_is_dead() {
    assert!(!is_process_alive(u32::MAX - 1));
}

#[test]
fn pids_above_the_signed_range_are_dead() {
    assert!(!is_process_alive(u32::MAX));
    assert!(!is_process_alive(i32::MAX as u32 + 1));
}

#[test]
fn probe_outcomes_read_as_alive_unless_missing() {
    assert!(alive_from_probe(ProbeOutcome::Exists));
    assert!(alive_from_probe(ProbeOutcome::PermissionDenied));
    assert!(!alive_from_probe(ProbeOutcome::Missing));
}

#[test]
fn the_probe_is_made_for_the_pid_itself() {
    assert_eq!(probe_target(0), Some(0));
    assert_eq!(probe_target(4321), Some(4321));
    assert_eq!(probe_target(i32::MAX as u32), Some(i32::MAX));
    assert_eq!(probe_target(i32::MAX as u32 + 1), None);
    assert_eq!(probe_target(u32::MAX), None);
}
