//! Stable guest paths used to coordinate a live fork.
use vstd::prelude::*;

verus! {

/// Directory privately inherited by each restored VM.
pub const STATE_DIR: &'static str = "/run/smolvm/forkpoint";

/// Marker written by the workload when it reaches a safe fork boundary.
pub const READY_PATH: &'static str = "/run/smolvm/forkpoint/ready";

/// Marker written after a restored clone can safely enter ordinary timed waits.
pub const RESTORED_PATH: &'static str = "/run/smolvm/forkpoint/restored";

/// Marker written by the host after a clone is ready to resume.
pub const RELEASE_PATH: &'static str = "/run/smolvm/forkpoint/release";

/// Workload-facing helper installed in bare VMs and workload containers.
pub const HELPER_PATH: &'static str = "/usr/local/bin/smolvm-fork-ready";

/// Every marker lies in the state directory, so a restored VM inherits them all
/// privately.
pub proof fn law_markers_lie_in_state_dir()
    ensures
        READY_PATH@ == STATE_DIR@ + "/ready"@,
        RESTORED_PATH@ == STATE_DIR@ + "/restored"@,
        RELEASE_PATH@ == STATE_DIR@ + "/release"@,
{
    reveal_strlit("/run/smolvm/forkpoint");
    reveal_strlit("/run/smolvm/forkpoint/ready");
    reveal_strlit("/run/smolvm/forkpoint/restored");
    reveal_strlit("/run/smolvm/forkpoint/release");
    reveal_strlit("/ready");
    reveal_strlit("/restored");
    reveal_strlit("/release");
}

} // verus!
