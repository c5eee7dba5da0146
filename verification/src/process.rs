//! Whether a process is still running, by a signal-0 probe.

use vstd::prelude::*;

verus! {

/// What a signal-0 probe of a process id reports.
#[derive(Debug, Clone, Copy, PartialEq, Eq, Structural)]
pub enum ProbeOutcome {
    /// The process exists and may be signalled.
    Exists,
    /// The process exists but belongs to someone else.
    PermissionDenied,
    /// No such process (or the probe failed otherwise).
    Missing,
}

/// `nix::sys::signal::kill(Pid::from_raw(pid), None)`: asks the kernel
/// whether `pid` could be signalled, without sending a signal. `Ok` is
/// reported as `Exists`, `EPERM` as `PermissionDenied`, any other error as
/// `Missing`. The answer depends on the machine's processes at the time of
/// the call, so nothing is claimed of it.
#[verifier::external_body]
fn probe_process(pid: i32) -> ProbeOutcome {
    match nix::sys::signal::kill(nix::unistd::Pid::from_raw(pid), None) {
        Ok(()) => ProbeOutcome::Exists,
        Err(nix::errno::Errno::EPERM) => ProbeOutcome::PermissionDenied,
        Err(_) => ProbeOutcome::Missing,
    }
}

/// A process counts as alive when the probe found it, whether or not it
/// may be signalled.
pub fn alive_from_probe(outcome: ProbeOutcome) -> (alive: bool)
    ensures
        alive == (outcome != ProbeOutcome::Missing),
{
    match outcome {
        ProbeOutcome::Exists => true,
        ProbeOutcome::PermissionDenied => true,
        ProbeOutcome::Missing => false,
    }
}

/// The `pid_t` that the liveness probe of process `pid` is made for: `pid`
/// itself, when it fits a signed 32-bit `pid_t`; none above `i32::MAX`,
/// where no process can be.
pub open spec fn probe_target_spec(pid: u32) -> Option<i32> {
    if pid <= i32::MAX as u32 {
        Some(pid as i32)
    } else {
        None
    }
}

/// The target of the liveness probe of process `pid` (see
/// `probe_target_spec`).
pub fn probe_target(pid: u32) -> (r: Option<i32>)
    ensures
        r == probe_target_spec(pid),
{
    if pid > i32::MAX as u32 {
        None
    } else {
        Some(pid as i32)
    }
}

/// What one liveness probe of a process found: the process id probed, and
/// the probe's report, none when the id has no probe target. Only
/// `probe_liveness_of` makes one, by probing, so a value of this type in a
/// contract stands for a probe that was actually made.
pub struct Liveness {
    pid: u32,
    report: Option<ProbeOutcome>,
}

impl Liveness {
    /// The process id that was probed.
    pub closed spec fn probed_pid(self) -> u32 {
        self.pid
    }

    /// What the probe reported; none when no probe could be made.
    pub closed spec fn reported(self) -> Option<ProbeOutcome> {
        self.report
    }

    /// Whether the probe found the process (see `alive_from_probe`).
    pub open spec fn found_alive(self) -> bool {
        match self.reported() {
            Some(outcome) => outcome != ProbeOutcome::Missing,
            None => false,
        }
    }

    /// Whether the probe found the process.
    pub fn alive(&self) -> (r: bool)
        ensures
            r == self.found_alive(),
    {
        match self.report {
            Some(outcome) => alive_from_probe(outcome),
            None => false,
        }
    }
}

/// Probes process `pid`: the probe is made for the target that
/// `probe_target` gives; without a target no probe is made.
pub fn probe_liveness_of(pid: u32) -> (r: Liveness)
    ensures
        r.probed_pid() == pid,
        r.reported() is None <==> probe_target_spec(pid) is None,
{
    match probe_target(pid) {
        Some(target) => Liveness { pid, report: Some(probe_process(target)) },
        None => Liveness { pid, report: None },
    }
}

/// Whether the process `pid` is alive: what a probe of it found (see
/// `probe_liveness_of`); without a probe target the process is dead.
pub fn is_process_alive(pid: u32) -> (alive: bool)
    ensures
        probe_target_spec(pid) is None ==> !alive,
        exists|l: Liveness| l.probed_pid() == pid && alive == l.found_alive(),
{
    let l = probe_liveness_of(pid);
    l.alive()
}

} // verus!
