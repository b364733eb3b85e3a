//! Durable records for automatic held-fork pools and their one-shot leases.
use vstd::prelude::*;
use crate::digits::parse_unsigned;
use crate::text::same;

verus! {

/// Maximum time a durably claimed worker may remain in the activation handoff.
/// The user-facing lease TTL starts only after this phase commits.
pub const FORK_LEASE_ACTIVATION_GRACE_SECS: u64 = 300;

/// Configuration and lifecycle state for one automatic fork pool.
#[derive(Debug, PartialEq, Eq)]
pub struct ForkPoolRecord {
    /// Stable API name for the pool.
    pub name: String,
    /// Forkable machine used to replenish clean slots.
    pub golden: String,
    /// Number of clean, held workers the controller keeps ready.
    pub desired_ready: u32,
    /// Optional limit on simultaneously active leases.
    pub max_active: Option<u32>,
    /// Dynamically calibrate the active-lease limit from host/GPU telemetry.
    pub auto_admission: bool,
    /// Host CUDA device ordinal inherited from the golden workload.
    ///
    /// Shared-CUDA records without one use CUDA's default device.
    pub cuda_device_ordinal: Option<u32>,
    /// Share the golden's immutable CUDA allocations with each worker.
    pub share_weights: bool,
    /// Maximum time to wait for the golden's workload forkpoint.
    pub ready_timeout_secs: u64,
    /// Default time an acquired worker may run without a heartbeat.
    pub lease_ttl_secs: u64,
    /// Unix timestamp when the pool was created.
    pub created_at: u64,
    /// True after deletion has begun; no new workers or leases are admitted.
    pub deleting: bool,
}

impl Clone for ForkPoolRecord {
    fn clone(&self) -> (r: Self)
        ensures
            r == *self,
    {
        ForkPoolRecord {
            name: self.name.clone(),
            golden: self.golden.clone(),
            desired_ready: self.desired_ready,
            max_active: self.max_active,
            auto_admission: self.auto_admission,
            cuda_device_ordinal: self.cuda_device_ordinal,
            share_weights: self.share_weights,
            ready_timeout_secs: self.ready_timeout_secs,
            lease_ttl_secs: self.lease_ttl_secs,
            created_at: self.created_at,
            deleting: self.deleting,
        }
    }
}

impl ForkPoolRecord {
    /// The device whose telemetry governs this pool: the recorded one, else
    /// device zero for a pool that shares CUDA allocations.
    pub open spec fn admission_device(&self) -> Option<u32> {
        match self.cuda_device_ordinal {
            Some(ordinal) => Some(ordinal),
            None => if self.share_weights {
                Some(0u32)
            } else {
                None
            },
        }
    }

    /// Device whose telemetry and active-lease budget govern this pool.
    pub fn admission_device_ordinal(&self) -> (r: Option<u32>)
        ensures
            r == self.admission_device(),
    {
        match self.cuda_device_ordinal {
            Some(ordinal) => Some(ordinal),
            None => if self.share_weights {
                Some(0)
            } else {
                None
            },
        }
    }
}

/// The value of the last pair with key `key`.
pub open spec fn last_value(env: Seq<(String, String)>, key: Seq<char>) -> Option<Seq<char>>
    decreases env.len(),
{
    if env.len() == 0 {
        None
    } else if env.last().0@ == key {
        Some(env.last().1@)
    } else {
        last_value(env.drop_last(), key)
    }
}

/// The device that a workload environment selects: the last value of
/// `SMOLVM_CUDA_DEVICE`, and zero where there is none.
pub open spec fn selected_device(env: Seq<(String, String)>) -> Result<u32, Seq<char>> {
    match last_value(env, "SMOLVM_CUDA_DEVICE"@) {
        None => Ok(0u32),
        Some(value) => match crate::digits::unsigned_value(value, u32::MAX as nat) {
            Some(n) => Ok(n as u32),
            None => Err(
                "SMOLVM_CUDA_DEVICE must be a non-negative host CUDA device ordinal, got '"@ + value
                    + "'"@,
            ),
        },
    }
}

/// Resolve the host CUDA device selected by a workload environment.
///
/// The CUDA shims expose one guest device and interpret an absent selector as
/// host ordinal zero. An explicitly malformed selector must not silently join
/// the wrong admission domain.
pub fn cuda_device_ordinal_from_env(env: &[(String, String)]) -> (r: Result<u32, String>)
    ensures
        match r {
            Ok(n) => selected_device(env@) == Ok::<u32, Seq<char>>(n),
            Err(message) => selected_device(env@) == Err::<u32, Seq<char>>(message@),
        },
{
    let mut i: usize = env.len();
    proof {
        assert(env@.take(env@.len() as int) =~= env@);
    }
    while i > 0
        invariant
            i <= env@.len(),
            last_value(env@, "SMOLVM_CUDA_DEVICE"@) == last_value(
                env@.take(i as int),
                "SMOLVM_CUDA_DEVICE"@,
            ),
        decreases i,
    {
        proof {
            assert(env@.take(i as int).drop_last() =~= env@.take(i - 1));
        }
        i -= 1;
        if same(env[i].0.as_str(), "SMOLVM_CUDA_DEVICE") {
            let value = env[i].1.as_str();
            return match parse_unsigned(value, u32::MAX as u64) {
                Some(n) => Ok(n as u32),
                None => {
                    let mut message =
                        "SMOLVM_CUDA_DEVICE must be a non-negative host CUDA device ordinal, got '".to_owned();
                    message.append(value);
                    message.append("'");
                    Err(message)
                },
            };
        }
    }
    Ok(0)
}

/// Runtime-calibrated limits checked together with a durable pool claim.
#[derive(Debug, Clone, Copy, PartialEq, Eq, Structural)]
pub struct ForkPoolAdmissionLimit {
    /// Fair-share ceiling for this pool while multiple pools have demand.
    pub pool: u32,
    /// Aggregate active-lease ceiling for every pool on the same CUDA device.
    pub device: u32,
}

/// Controller lifecycle state for one machine owned by a fork pool.
#[derive(Debug, Clone, Copy, PartialEq, Eq, Structural)]
pub enum ForkPoolSlotState {
    /// A machine name is reserved and the held fork is being created.
    Provisioning,
    /// The machine is booted and parked at its inherited forkpoint.
    Ready,
    /// The durable claim committed and guest activation is in progress.
    Activating,
    /// The worker was released to exactly one lease.
    Leased,
    /// The worker must be deleted and replaced, never reused.
    Retiring,
}

impl ForkPoolSlotState {
    /// The name a slot state has in the database.
    pub open spec fn label(self) -> Seq<char> {
        match self {
            ForkPoolSlotState::Provisioning => "provisioning"@,
            ForkPoolSlotState::Ready => "ready"@,
            ForkPoolSlotState::Activating => "activating"@,
            ForkPoolSlotState::Leased => "leased"@,
            ForkPoolSlotState::Retiring => "retiring"@,
        }
    }

    /// Stable database representation used for indexed state queries.
    pub fn as_str(self) -> (r: &'static str)
        ensures
            r@ == self.label(),
    {
        match self {
            ForkPoolSlotState::Provisioning => "provisioning",
            ForkPoolSlotState::Ready => "ready",
            ForkPoolSlotState::Activating => "activating",
            ForkPoolSlotState::Leased => "leased",
            ForkPoolSlotState::Retiring => "retiring",
        }
    }
}

/// Durable ownership record for one pool-managed machine.
#[derive(Debug, Clone, PartialEq, Eq)]
pub struct ForkPoolSlotRecord {
    /// Pool that owns the machine.
    pub pool_name: String,
    /// Machine name in the normal smolvm machine registry.
    pub machine_name: String,
    /// Current controller lifecycle state.
    pub state: ForkPoolSlotState,
    /// Lease currently owning the machine, if it has been claimed.
    pub lease_id: Option<String>,
    /// Unix timestamp when the slot reservation was created.
    pub created_at: u64,
    /// Unix timestamp of the last state transition.
    pub updated_at: u64,
    /// Last provisioning or activation error, if any.
    pub last_error: Option<String>,
}

/// Lifecycle state for a one-shot worker lease.
#[derive(Debug, Clone, Copy, PartialEq, Eq, Structural)]
pub enum ForkLeaseState {
    /// The durable claim committed and guest activation is in progress.
    Activating,
    /// The guest was released and the caller owns the worker.
    Active,
    /// The caller completed the lease normally.
    Completed,
    /// The caller stopped heartbeating before the deadline.
    Expired,
    /// Activation failed after the slot was consumed.
    Failed,
    /// Pool deletion revoked the lease.
    Cancelled,
}

impl ForkLeaseState {
    /// The name a lease state has in the database.
    pub open spec fn label(self) -> Seq<char> {
        match self {
            ForkLeaseState::Activating => "activating"@,
            ForkLeaseState::Active => "active"@,
            ForkLeaseState::Completed => "completed"@,
            ForkLeaseState::Expired => "expired"@,
            ForkLeaseState::Failed => "failed"@,
            ForkLeaseState::Cancelled => "cancelled"@,
        }
    }

    /// Stable database representation used for indexed state queries.
    pub fn as_str(self) -> (r: &'static str)
        ensures
            r@ == self.label(),
    {
        match self {
            ForkLeaseState::Activating => "activating",
            ForkLeaseState::Active => "active",
            ForkLeaseState::Completed => "completed",
            ForkLeaseState::Expired => "expired",
            ForkLeaseState::Failed => "failed",
            ForkLeaseState::Cancelled => "cancelled",
        }
    }
}

/// Durable exactly-once claim for one pool worker.
#[derive(Debug, Clone, PartialEq, Eq)]
pub struct ForkLeaseRecord {
    /// Opaque lease identifier.
    pub id: String,
    /// Pool the worker came from.
    pub pool_name: String,
    /// Claimed worker machine name.
    pub machine_name: String,
    /// Caller-provided retry key, unique within the pool.
    pub idempotency_key: String,
    /// Current lease lifecycle state.
    pub state: ForkLeaseState,
    /// Canonical assignment environment written before guest release.
    pub assignment: Vec<(String, String)>,
    /// Digest of the canonical pre-release file payload, for retry validation.
    pub payload_sha256: Option<String>,
    /// Unix timestamp when the claim was created.
    pub created_at: u64,
    /// Unix timestamp of the last state transition or heartbeat.
    pub updated_at: u64,
    /// Unix timestamp after which the controller may retire the worker.
    pub expires_at: u64,
    /// Lease duration applied by each heartbeat.
    pub ttl_secs: u64,
    /// Activation failure, when the lease ended in `failed`.
    pub last_error: Option<String>,
}

/// Result of an atomic lease acquisition attempt.
#[derive(Debug, Clone, PartialEq, Eq)]
pub enum ClaimForkPoolSlot {
    /// A new slot was durably consumed for this request.
    Claimed(ForkLeaseRecord),
    /// The same idempotency key already owns this lease.
    Existing(ForkLeaseRecord),
    /// No clean held slot is currently ready.
    NoReadySlot,
    /// The pool reached its configured active-lease limit.
    AtCapacity,
    /// The pool was removed between request validation and claim.
    PoolNotFound,
    /// Pool deletion began before the claim committed.
    PoolDeleting,
    /// Payload staging cannot safely target an externally mounted workspace.
    WorkspaceExternallyMounted,
}

/// No two slot states share a database name.
pub proof fn law_slot_labels_distinct(a: ForkPoolSlotState, b: ForkPoolSlotState)
    requires
        a.label() == b.label(),
    ensures
        a == b,
{
    reveal_strlit("provisioning");
    reveal_strlit("ready");
    reveal_strlit("activating");
    reveal_strlit("leased");
    reveal_strlit("retiring");
    assert("provisioning"@.len() == 12);
    assert("ready"@.len() == 5);
    assert("activating"@.len() == 10);
    assert("leased"@.len() == 6);
    assert("retiring"@.len() == 8);
}

/// No two lease states share a database name.
pub proof fn law_lease_labels_distinct(a: ForkLeaseState, b: ForkLeaseState)
    requires
        a.label() == b.label(),
    ensures
        a == b,
{
    reveal_strlit("activating");
    reveal_strlit("active");
    reveal_strlit("completed");
    reveal_strlit("expired");
    reveal_strlit("failed");
    reveal_strlit("cancelled");
    assert("activating"@.len() == 10);
    assert("active"@.len() == 6 && "active"@[0] == 'a');
    assert("completed"@.len() == 9 && "completed"@[1] == 'o');
    assert("expired"@.len() == 7);
    assert("failed"@.len() == 6 && "failed"@[0] == 'f');
    assert("cancelled"@.len() == 9 && "cancelled"@[1] == 'a');
}

/// A workload that names no device runs on device zero.
pub proof fn law_no_selector_means_device_zero(env: Seq<(String, String)>)
    requires
        forall|i: int| 0 <= i < env.len() ==> (#[trigger] env[i]).0@ != "SMOLVM_CUDA_DEVICE"@,
    ensures
        selected_device(env) == Ok::<u32, Seq<char>>(0u32),
    decreases env.len(),
{
    if env.len() > 0 {
        assert(env[env.len() - 1].0@ != "SMOLVM_CUDA_DEVICE"@);
        assert forall|i: int| 0 <= i < env.drop_last().len() implies (
        #[trigger] env.drop_last()[i]).0@ != "SMOLVM_CUDA_DEVICE"@ by {
            assert(env.drop_last()[i] == env[i]);
        }
        law_no_selector_means_device_zero(env.drop_last());
    }
}

/// A pool is governed by the device it names, else by device zero where it
/// shares CUDA allocations, else by none.
pub proof fn law_named_device_governs(pool: ForkPoolRecord)
    ensures
        pool.cuda_device_ordinal is Some ==> pool.admission_device() == pool.cuda_device_ordinal,
        pool.cuda_device_ordinal is None && pool.share_weights ==> pool.admission_device() == Some(
            0u32,
        ),
        pool.cuda_device_ordinal is None && !pool.share_weights ==> pool.admission_device() is None,
{
}

/// The last selector of an environment counts, whatever stands before it and
/// whatever other variables follow.
pub proof fn law_last_selector_counts(env: Seq<(String, String)>, i: int)
    requires
        0 <= i < env.len(),
        env[i].0@ == "SMOLVM_CUDA_DEVICE"@,
        forall|j: int| i < j < env.len() ==> (#[trigger] env[j]).0@ != "SMOLVM_CUDA_DEVICE"@,
    ensures
        match crate::digits::unsigned_value(env[i].1@, 4294967295) {
            Some(n) => selected_device(env) is Ok && selected_device(env)->Ok_0 == n,
            None => selected_device(env) == Err::<u32, Seq<char>>(
                "SMOLVM_CUDA_DEVICE must be a non-negative host CUDA device ordinal, got '"@
                    + env[i].1@ + "'"@,
            ),
        },
    decreases env.len(),
{
    if i < env.len() - 1 {
        let init = env.drop_last();
        assert(init[i] == env[i]);
        assert forall|j: int| i < j < init.len() implies (#[trigger] init[j]).0@
            != "SMOLVM_CUDA_DEVICE"@ by {
            assert(init[j] == env[j]);
        }
        law_last_selector_counts(init, i);
        assert(env[env.len() - 1].0@ != "SMOLVM_CUDA_DEVICE"@);
    }
}

} // verus!
