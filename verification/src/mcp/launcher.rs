//! When to spawn the broker and how long to wait for it to become healthy:
//! a probe first; if the broker does not answer, one spawn, then up to
//! twelve probes half a second apart.

use vstd::prelude::*;

verus! {

#[verifier::external_type_specification]
#[verifier::external_body]
pub struct ExIoError(std::io::Error);

/// Probes of a freshly spawned broker before giving up.
pub const HEALTH_POLL_ATTEMPTS: u32 = 12;

/// Milliseconds between two probes of a freshly spawned broker.
pub const HEALTH_POLL_INTERVAL_MS: u64 = 500;

/// Why the broker could not be brought up.
#[derive(Debug)]
pub enum LauncherError {
    /// The path of the running executable could not be read.
    CurrentExe(std::io::Error),
    /// The broker process could not be spawned.
    Spawn(std::io::Error),
    /// The spawned broker did not become healthy in time.
    Timeout,
}

/// What to do next while bringing up the broker.
#[derive(Debug, Clone, Copy, PartialEq, Eq, Structural)]
pub enum LaunchAction {
    /// The broker answers: done.
    Ready,
    /// Spawn a detached broker process.
    SpawnBroker,
    /// Wait `HEALTH_POLL_INTERVAL_MS`, then probe again.
    WaitThenProbe,
}

/// Where the bring-up stands.
pub struct LaunchState {
    /// Whether a broker process has been spawned.
    pub spawned: bool,
    /// Unhealthy probes since the spawn.
    pub failed_polls: u32,
}

/// The count of unhealthy probes after one more; it stops growing once it
/// has reached the attempts.
pub open spec fn polls_after_failure(n: u32) -> u32 {
    if n < HEALTH_POLL_ATTEMPTS {
        (n + 1) as u32
    } else {
        n
    }
}

/// The count of unhealthy probes after `k` of them since the spawn.
pub open spec fn polls_after(k: nat) -> u32
    decreases k,
{
    if k == 0 {
        0
    } else {
        polls_after_failure(polls_after((k - 1) as nat))
    }
}

/// A spawned broker is probed twelve times at most: each of the first
/// eleven unhealthy probes is followed by another, and the twelfth ends
/// the bring-up.
pub proof fn law_twelve_probes_then_timeout(k: nat)
    requires
        k <= HEALTH_POLL_ATTEMPTS,
    ensures
        polls_after(k) == k,
        k < HEALTH_POLL_ATTEMPTS ==> polls_after(k) < HEALTH_POLL_ATTEMPTS,
        k == HEALTH_POLL_ATTEMPTS ==> polls_after(k) >= HEALTH_POLL_ATTEMPTS,
    decreases k,
{
    if k > 0 {
        law_twelve_probes_then_timeout((k - 1) as nat);
        assert(polls_after(k) == polls_after_failure(polls_after((k - 1) as nat)));
    }
}

impl LaunchState {
    /// Nothing spawned, nothing probed.
    pub fn new() -> (r: Self)
        ensures
            !r.spawned,
            r.failed_polls == 0,
    {
        LaunchState { spawned: false, failed_polls: 0 }
    }

    /// The broker was spawned: wait, then probe.
    pub fn after_spawn(&mut self) -> (r: LaunchAction)
        ensures
            final(self).spawned,
            final(self).failed_polls == 0,
            r == LaunchAction::WaitThenProbe,
    {
        self.spawned = true;
        self.failed_polls = 0;
        LaunchAction::WaitThenProbe
    }

    /// A probe answered `healthy`. A healthy broker is ready; before any
    /// spawn an unhealthy one is spawned; after the spawn, unhealthy probes
    /// are retried until twelve of them have failed, and then the bring-up
    /// times out.
    pub fn after_probe(&mut self, healthy: bool) -> (r: Result<LaunchAction, LauncherError>)
        ensures
            healthy ==> (r matches Ok(LaunchAction::Ready)) && *final(self) == *old(self),
            !healthy && !old(self).spawned ==> (r matches Ok(LaunchAction::SpawnBroker))
                && *final(self) == *old(self),
            !healthy && old(self).spawned ==> {
                &&& final(self).spawned
                &&& final(self).failed_polls == polls_after_failure(old(self).failed_polls)
                &&& final(self).failed_polls < HEALTH_POLL_ATTEMPTS ==> (r matches Ok(
                    LaunchAction::WaitThenProbe,
                ))
                &&& final(self).failed_polls >= HEALTH_POLL_ATTEMPTS ==> (r matches Err(
                    LauncherError::Timeout,
                ))
            },
    {
        if healthy {
            return Ok(LaunchAction::Ready);
        }
        if !self.spawned {
            return Ok(LaunchAction::SpawnBroker);
        }
        if self.failed_polls < HEALTH_POLL_ATTEMPTS {
            self.failed_polls = self.failed_polls + 1;
        }
        if self.failed_polls < HEALTH_POLL_ATTEMPTS {
            Ok(LaunchAction::WaitThenProbe)
        } else {
            Err(LauncherError::Timeout)
        }
    }
}

} // verus!
