//! Automatic held-fork pools and one-shot leases.
use vstd::prelude::*;
use crate::api::error::{quoted, ApiError, Refusal};
use crate::pool::{
    ClaimForkPoolSlot,
    ForkLeaseRecord,
    ForkLeaseState,
    ForkPoolRecord,
    ForkPoolSlotRecord,
    ForkPoolSlotState,
};
use crate::text::{char_vec, is_control, maybe_text, pair_texts, same, starts_with};

verus! {

/// Ready timeout of a pool that asks for none.
pub const DEFAULT_READY_TIMEOUT_SECS: u64 = 240;

/// Longest ready timeout.
pub const MAX_READY_TIMEOUT_SECS: u64 = 3600;

/// Lease TTL of a pool that asks for none.
pub const DEFAULT_LEASE_TTL_SECS: u64 = 300;

/// Most ready workers of a pool.
pub const MAX_POOL_READY: u32 = 256;

/// Shortest lease TTL.
pub const MIN_LEASE_TTL_SECS: u64 = 30;

/// Longest lease TTL.
pub const MAX_LEASE_TTL_SECS: u64 = 86400;

/// Longest idempotency key.
pub const MAX_IDEMPOTENCY_KEY_BYTES: usize = 256;

/// Request to create a pool.
#[derive(Debug, Clone)]
pub struct CreateForkPoolRequest {
    /// Name of the pool.
    pub name: String,
    /// Machine to fork.
    pub golden: String,
    /// Workers to keep ready.
    pub desired_ready: u32,
    /// Limit on active leases.
    pub max_active: Option<u32>,
    /// Share the golden's CUDA allocations.
    pub share_weights: bool,
    /// Time to wait for the golden's forkpoint.
    pub ready_timeout_secs: Option<u64>,
    /// Time a worker may run without a heartbeat.
    pub lease_ttl_secs: Option<u64>,
}

/// Public state of a pool.
#[derive(Debug, Clone, PartialEq, Eq)]
pub struct ForkPoolInfo {
    /// Name of the pool.
    pub name: String,
    /// Machine that is forked.
    pub golden: String,
    /// Workers to keep ready.
    pub desired_ready: u32,
    /// Limit on active leases.
    pub max_active: Option<u32>,
    /// Share the golden's CUDA allocations.
    pub share_weights: bool,
    /// Time a worker may run without a heartbeat.
    pub lease_ttl_secs: u64,
    /// Slots that are being created.
    pub provisioning: usize,
    /// Slots that are ready.
    pub ready: usize,
    /// Slots that are being activated.
    pub activating: usize,
    /// Slots that are leased.
    pub active: usize,
    /// Slots that are being deleted.
    pub retiring: usize,
    /// Deletion has begun.
    pub deleting: bool,
    /// When the pool was created.
    pub created_at: u64,
}

/// Public state of a lease.
#[derive(Debug, Clone, PartialEq, Eq)]
pub struct ForkLeaseInfo {
    /// Identifier of the lease.
    pub id: String,
    /// Pool of the worker.
    pub pool: String,
    /// Worker.
    pub machine: String,
    /// State of the lease.
    pub state: String,
    /// When the lease was created.
    pub created_at: u64,
    /// When the lease ends without a heartbeat.
    pub expires_at: u64,
    /// Why activation failed.
    pub error: Option<String>,
}

/// What is known of a golden machine.
#[derive(Debug, Clone, Copy, PartialEq, Eq, Structural)]
pub struct GoldenFacts {
    /// It is itself a fork clone.
    pub is_clone: bool,
    /// Its process is alive.
    pub alive: bool,
    /// It has CUDA enabled.
    pub cuda: bool,
}

/// Durations of a new pool.
#[derive(Debug, Clone, Copy, PartialEq, Eq, Structural)]
pub struct PoolTimes {
    /// Time to wait for the golden's forkpoint.
    pub ready_timeout_secs: u64,
    /// Time a worker may run without a heartbeat.
    pub lease_ttl_secs: u64,
}

/// The given number, else the default.
pub open spec fn or_default(value: Option<u64>, default: u64) -> u64 {
    match value {
        Some(value) => value,
        None => default,
    }
}

/// The TTL is allowed.
pub open spec fn ttl_allowed(ttl: u64) -> bool {
    MIN_LEASE_TTL_SECS <= ttl <= MAX_LEASE_TTL_SECS
}

/// The refusal of a TTL that is not allowed.
pub open spec fn ttl_refusal() -> Refusal {
    Refusal::BadRequest("lease TTL must be between 30 and 86400 seconds"@)
}

/// A lease TTL lies within its bounds.
pub fn validate_ttl(ttl: u64) -> (r: Result<u64, ApiError>)
    ensures
        match r {
            Ok(accepted) => accepted == ttl && ttl_allowed(ttl),
            Err(error) => !ttl_allowed(ttl) && error@ == ttl_refusal(),
        },
{
    if ttl < MIN_LEASE_TTL_SECS || ttl > MAX_LEASE_TTL_SECS {
        Err(ApiError::BadRequest("lease TTL must be between 30 and 86400 seconds".to_owned()))
    } else {
        Ok(ttl)
    }
}

/// What is wrong with a request for a pool, if anything is. The name checks say
/// what is wrong with the two names.
pub open spec fn create_refusal(
    req: CreateForkPoolRequest,
    name_fault: Option<Seq<char>>,
    golden_fault: Option<Seq<char>>,
) -> Option<Refusal> {
    let ready_timeout = or_default(req.ready_timeout_secs, DEFAULT_READY_TIMEOUT_SECS);
    if name_fault is Some {
        Some(Refusal::BadRequest(name_fault->0))
    } else if golden_fault is Some {
        Some(Refusal::BadRequest(golden_fault->0))
    } else if !(1 <= req.desired_ready <= MAX_POOL_READY) {
        Some(Refusal::BadRequest("desiredReady must be between 1 and 256"@))
    } else if req.max_active == Some(0u32) {
        Some(Refusal::BadRequest("maxActive must be greater than zero when set"@))
    } else if !(1 <= ready_timeout <= MAX_READY_TIMEOUT_SECS) {
        Some(Refusal::BadRequest("readyTimeoutSecs must be between 1 and 3600"@))
    } else if !ttl_allowed(or_default(req.lease_ttl_secs, DEFAULT_LEASE_TTL_SECS)) {
        Some(ttl_refusal())
    } else {
        None
    }
}

/// Checks a request for a pool before anything is looked up.
pub fn validate_create(
    req: &CreateForkPoolRequest,
    name_fault: Option<String>,
    golden_fault: Option<String>,
) -> (r: Result<PoolTimes, ApiError>)
    ensures
        ({
            let refusal = create_refusal(*req, maybe_text(name_fault), maybe_text(golden_fault));
            match r {
                Ok(times) => {
                    &&& refusal is None
                    &&& times.ready_timeout_secs == or_default(
                        req.ready_timeout_secs,
                        DEFAULT_READY_TIMEOUT_SECS,
                    )
                    &&& times.lease_ttl_secs == or_default(
                        req.lease_ttl_secs,
                        DEFAULT_LEASE_TTL_SECS,
                    )
                },
                Err(error) => refusal == Some(error@),
            }
        }),
{
    if let Some(fault) = name_fault {
        return Err(ApiError::BadRequest(fault));
    }
    if let Some(fault) = golden_fault {
        return Err(ApiError::BadRequest(fault));
    }
    if req.desired_ready == 0 || req.desired_ready > MAX_POOL_READY {
        return Err(ApiError::BadRequest("desiredReady must be between 1 and 256".to_owned()));
    }
    if let Some(max_active) = req.max_active {
        if max_active == 0 {
            return Err(
                ApiError::BadRequest("maxActive must be greater than zero when set".to_owned()),
            );
        }
    }
    let ready_timeout_secs: u64 = match req.ready_timeout_secs {
        Some(secs) => secs,
        None => DEFAULT_READY_TIMEOUT_SECS,
    };
    if ready_timeout_secs == 0 || ready_timeout_secs > MAX_READY_TIMEOUT_SECS {
        return Err(ApiError::BadRequest("readyTimeoutSecs must be between 1 and 3600".to_owned()));
    }
    let lease_ttl_secs: u64 = match req.lease_ttl_secs {
        Some(secs) => secs,
        None => DEFAULT_LEASE_TTL_SECS,
    };
    match validate_ttl(lease_ttl_secs) {
        Ok(lease_ttl_secs) => Ok(PoolTimes { ready_timeout_secs, lease_ttl_secs }),
        Err(error) => Err(error),
    }
}

/// What keeps a machine from being a pool's golden, if anything does.
pub open spec fn golden_refusal(
    golden: Seq<char>,
    share_weights: bool,
    found: Option<GoldenFacts>,
) -> Option<Refusal> {
    match found {
        None => Some(Refusal::NotFound("machine '"@ + golden + "' not found"@)),
        Some(facts) => if facts.is_clone {
            Some(Refusal::Conflict("a fork clone cannot be used as a pool golden"@))
        } else if !facts.alive {
            Some(Refusal::Conflict("golden machine '"@ + golden + "' is not running"@))
        } else if share_weights && !facts.cuda {
            Some(Refusal::Conflict("golden machine '"@ + golden + "' does not have CUDA enabled"@))
        } else {
            None
        },
    }
}

/// Checks the golden machine that was found.
pub fn check_golden(req: &CreateForkPoolRequest, found: Option<GoldenFacts>) -> (r: Result<
    (),
    ApiError,
>)
    ensures
        match r {
            Ok(_) => golden_refusal(req.golden@, req.share_weights, found) is None,
            Err(error) => golden_refusal(req.golden@, req.share_weights, found) == Some(error@),
        },
{
    let golden = req.golden.as_str();
    let facts = match found {
        Some(facts) => facts,
        None => {
            return Err(ApiError::NotFound(quoted("machine '", golden, "' not found")));
        },
    };
    if facts.is_clone {
        return Err(ApiError::Conflict("a fork clone cannot be used as a pool golden".to_owned()));
    }
    if !facts.alive {
        return Err(ApiError::Conflict(quoted("golden machine '", golden, "' is not running")));
    }
    if req.share_weights && !facts.cuda {
        return Err(
            ApiError::Conflict(
                quoted("golden machine '", golden, "' does not have CUDA enabled"),
            ),
        );
    }
    Ok(())
}

/// Checks that the golden is forkable, by what its control socket answered to a
/// status request. There is no answer without a socket.
pub fn check_forkable(golden: &str, status: Option<&str>) -> (r: Result<(), ApiError>)
    ensures
        ({
            let forkable = status matches Some(text) && crate::text::has_prefix(text@, "OK"@);
            match r {
                Ok(_) => forkable,
                Err(error) => !forkable && error@ == Refusal::Conflict(
                    "golden machine '"@ + golden@ + "' is not running forkable"@,
                ),
            }
        }),
{
    let forkable = match status {
        Some(text) => starts_with(text, "OK"),
        None => false,
    };
    if forkable {
        Ok(())
    } else {
        Err(
            ApiError::Conflict(quoted("golden machine '", golden, "' is not running forkable")),
        )
    }
}

/// The record of a new pool.
pub fn pool_record(req: CreateForkPoolRequest, times: PoolTimes, created_at: u64) -> (r:
    ForkPoolRecord)
    ensures
        r.name == req.name,
        r.golden == req.golden,
        r.desired_ready == req.desired_ready,
        r.max_active == req.max_active,
        !r.auto_admission,
        r.cuda_device_ordinal is None,
        r.share_weights == req.share_weights,
        r.ready_timeout_secs == times.ready_timeout_secs,
        r.lease_ttl_secs == times.lease_ttl_secs,
        r.created_at == created_at,
        !r.deleting,
{
    ForkPoolRecord {
        name: req.name,
        golden: req.golden,
        desired_ready: req.desired_ready,
        max_active: req.max_active,
        auto_admission: false,
        cuda_device_ordinal: None,
        share_weights: req.share_weights,
        ready_timeout_secs: times.ready_timeout_secs,
        lease_ttl_secs: times.lease_ttl_secs,
        created_at,
        deleting: false,
    }
}

/// A pool whose name is taken is not created.
pub fn check_inserted(inserted: bool, name: &str) -> (r: Result<(), ApiError>)
    ensures
        match r {
            Ok(_) => inserted,
            Err(error) => !inserted && error@ == Refusal::Conflict(
                "fork pool '"@ + name@ + "' already exists"@,
            ),
        },
{
    if inserted {
        Ok(())
    } else {
        Err(ApiError::Conflict(quoted("fork pool '", name, "' already exists")))
    }
}

/// Refusal of a request about a pool that does not exist.
pub open spec fn no_pool(name: Seq<char>) -> Refusal {
    Refusal::NotFound("fork pool '"@ + name + "' not found"@)
}

/// Refusal of a request about a pool that is being deleted.
pub open spec fn pool_deleting(name: Seq<char>) -> Refusal {
    Refusal::Conflict("fork pool '"@ + name + "' is deleting"@)
}

/// The pool that was found.
pub fn require_pool(found: Option<ForkPoolRecord>, name: &str) -> (r: Result<
    ForkPoolRecord,
    ApiError,
>)
    ensures
        match (found, r) {
            (Some(pool), Ok(same_pool)) => same_pool == pool,
            (None, Err(error)) => error@ == no_pool(name@),
            _ => false,
        },
{
    match found {
        Some(pool) => Ok(pool),
        None => Err(ApiError::NotFound(quoted("fork pool '", name, "' not found"))),
    }
}

/// A pool may be resized to zero, but not above the maximum.
pub fn validate_resize(desired_ready: u32) -> (r: Result<(), ApiError>)
    ensures
        match r {
            Ok(_) => desired_ready <= MAX_POOL_READY,
            Err(error) => desired_ready > MAX_POOL_READY && error@ == Refusal::BadRequest(
                "desiredReady must be at most 256"@,
            ),
        },
{
    if desired_ready > MAX_POOL_READY {
        Err(ApiError::BadRequest("desiredReady must be at most 256".to_owned()))
    } else {
        Ok(())
    }
}

/// The pool after a resize: it must exist and not be on its way out.
pub fn resized_pool(found: Option<ForkPoolRecord>, name: &str) -> (r: Result<
    ForkPoolRecord,
    ApiError,
>)
    ensures
        match (found, r) {
            (Some(pool), Ok(same_pool)) => same_pool == pool && !pool.deleting,
            (Some(pool), Err(error)) => pool.deleting && error@ == pool_deleting(name@),
            (None, Err(error)) => error@ == no_pool(name@),
            (None, Ok(_)) => false,
        },
{
    match require_pool(found, name) {
        Ok(pool) => if pool.deleting {
            Err(ApiError::Conflict(quoted("fork pool '", name, "' is deleting")))
        } else {
            Ok(pool)
        },
        Err(error) => Err(error),
    }
}

/// What came of a request to delete a pool: nothing is known of the pool, it has
/// active leases, or deletion began.
pub fn delete_outcome(outcome: Option<bool>, name: &str) -> (r: Result<(), ApiError>)
    ensures
        match (outcome, r) {
            (Some(begun), Ok(_)) => begun,
            (Some(begun), Err(error)) => !begun && error@ == Refusal::Conflict(
                "fork pool '"@ + name@ + "' has active leases; complete them or use force=true"@,
            ),
            (None, Err(error)) => error@ == no_pool(name@),
            (None, Ok(_)) => false,
        },
{
    match outcome {
        None => Err(ApiError::NotFound(quoted("fork pool '", name, "' not found"))),
        Some(begun) => if begun {
            Ok(())
        } else {
            Err(
                ApiError::Conflict(
                    quoted(
                        "fork pool '",
                        name,
                        "' has active leases; complete them or use force=true",
                    ),
                ),
            )
        },
    }
}

/// Number of slots in the given state.
pub open spec fn slots_in(slots: Seq<ForkPoolSlotRecord>, state: ForkPoolSlotState) -> nat
    decreases slots.len(),
{
    if slots.len() == 0 {
        0
    } else {
        slots_in(slots.drop_last(), state) + if slots.last().state == state {
            1nat
        } else {
            0
        }
    }
}

/// Public state of a pool, with its slots counted by state.
pub fn pool_info(pool: ForkPoolRecord, slots: &Vec<ForkPoolSlotRecord>) -> (r: ForkPoolInfo)
    ensures
        r.name == pool.name,
        r.golden == pool.golden,
        r.desired_ready == pool.desired_ready,
        r.max_active == pool.max_active,
        r.share_weights == pool.share_weights,
        r.lease_ttl_secs == pool.lease_ttl_secs,
        r.provisioning == slots_in(slots@, ForkPoolSlotState::Provisioning),
        r.ready == slots_in(slots@, ForkPoolSlotState::Ready),
        r.activating == slots_in(slots@, ForkPoolSlotState::Activating),
        r.active == slots_in(slots@, ForkPoolSlotState::Leased),
        r.retiring == slots_in(slots@, ForkPoolSlotState::Retiring),
        r.deleting == pool.deleting,
        r.created_at == pool.created_at,
{
    let mut provisioning: usize = 0;
    let mut ready: usize = 0;
    let mut activating: usize = 0;
    let mut active: usize = 0;
    let mut retiring: usize = 0;
    assert(slots@.take(0) =~= Seq::empty());
    for i in 0..slots.len()
        invariant
            provisioning + ready + activating + active + retiring == i,
            provisioning == slots_in(slots@.take(i as int), ForkPoolSlotState::Provisioning),
            ready == slots_in(slots@.take(i as int), ForkPoolSlotState::Ready),
            activating == slots_in(slots@.take(i as int), ForkPoolSlotState::Activating),
            active == slots_in(slots@.take(i as int), ForkPoolSlotState::Leased),
            retiring == slots_in(slots@.take(i as int), ForkPoolSlotState::Retiring),
    {
        assert(slots@.take(i + 1).drop_last() =~= slots@.take(i as int));
        match slots[i].state {
            ForkPoolSlotState::Provisioning => {
                provisioning += 1;
            },
            ForkPoolSlotState::Ready => {
                ready += 1;
            },
            ForkPoolSlotState::Activating => {
                activating += 1;
            },
            ForkPoolSlotState::Leased => {
                active += 1;
            },
            ForkPoolSlotState::Retiring => {
                retiring += 1;
            },
        }
    }
    assert(slots@.take(slots@.len() as int) =~= slots@);
    ForkPoolInfo {
        name: pool.name,
        golden: pool.golden,
        desired_ready: pool.desired_ready,
        max_active: pool.max_active,
        share_weights: pool.share_weights,
        lease_ttl_secs: pool.lease_ttl_secs,
        provisioning,
        ready,
        activating,
        active,
        retiring,
        deleting: pool.deleting,
        created_at: pool.created_at,
    }
}

/// What is published of a lease.
pub open spec fn publishes(info: ForkLeaseInfo, lease: ForkLeaseRecord) -> bool {
    &&& info.id == lease.id
    &&& info.pool == lease.pool_name
    &&& info.machine == lease.machine_name
    &&& info.state@ == lease.state.label()
    &&& info.created_at == lease.created_at
    &&& info.expires_at == lease.expires_at
    &&& info.error == lease.last_error
}

/// Public state of a lease.
pub fn lease_info(lease: ForkLeaseRecord) -> (r: ForkLeaseInfo)
    ensures
        publishes(r, lease),
{
    ForkLeaseInfo {
        id: lease.id,
        pool: lease.pool_name,
        machine: lease.machine_name,
        state: lease.state.as_str().to_owned(),
        created_at: lease.created_at,
        expires_at: lease.expires_at,
        error: lease.last_error,
    }
}

/// The key has between one and 256 bytes and no control characters.
pub open spec fn key_allowed(key: Seq<char>) -> bool {
    &&& key.len() > 0
    &&& vstd::utf8::encode_utf8(key).len() <= MAX_IDEMPOTENCY_KEY_BYTES
    &&& forall|i: int| 0 <= i < key.len() ==> !crate::text::is_control_char(#[trigger] key[i])
}

/// Checks the retry key of a request for a lease.
pub fn check_idempotency_key(key: &str) -> (r: Result<(), ApiError>)
    ensures
        match r {
            Ok(_) => key_allowed(key@),
            Err(error) => !key_allowed(key@) && error@ == Refusal::BadRequest(
                "idempotencyKey must contain 1-256 non-control bytes"@,
            ),
        },
{
    let chars = char_vec(key);
    let mut allowed = chars.len() > 0 && key.as_bytes().len() <= MAX_IDEMPOTENCY_KEY_BYTES;
    for i in 0..chars.len()
        invariant
            chars@ == key@,
            allowed ==> key@.len() > 0 && vstd::utf8::encode_utf8(key@).len()
                <= MAX_IDEMPOTENCY_KEY_BYTES && forall|j: int|
                0 <= j < i ==> !crate::text::is_control_char(#[trigger] key@[j]),
            !allowed ==> !key_allowed(key@),
    {
        if is_control(chars[i]) {
            assert(crate::text::is_control_char(key@[i as int]));
            allowed = false;
        }
    }
    if allowed {
        Ok(())
    } else {
        Err(
            ApiError::BadRequest(
                "idempotencyKey must contain 1-256 non-control bytes".to_owned(),
            ),
        )
    }
}

/// TTL of a lease: the requested one, else the pool's.
pub fn lease_ttl(requested: Option<u64>, pool_ttl: u64) -> (r: Result<u64, ApiError>)
    ensures
        ({
            let ttl = or_default(requested, pool_ttl);
            match r {
                Ok(accepted) => accepted == ttl && ttl_allowed(ttl),
                Err(error) => !ttl_allowed(ttl) && error@ == ttl_refusal(),
            }
        }),
{
    match requested {
        Some(ttl) => validate_ttl(ttl),
        None => validate_ttl(pool_ttl),
    }
}

/// Identifier of a new lease, from two random parts.
pub fn lease_id(first: &str, second: &str) -> (r: String)
    ensures
        r@ == "lease-"@ + first@ + second@,
{
    quoted("lease-", first, second)
}

/// What follows a claim.
#[derive(Debug)]
pub enum ClaimStep {
    /// The same request made this lease before: it is the answer.
    Respond(ForkLeaseInfo),
    /// The lease is new: its worker is to be activated.
    Activate(ForkLeaseRecord),
}

/// Whether two environments are the same.
fn same_pairs(a: &Vec<(String, String)>, b: &Vec<(String, String)>) -> (r: bool)
    ensures
        r == (pair_texts(a@) == pair_texts(b@)),
{
    let ghost x = pair_texts(a@);
    let ghost y = pair_texts(b@);
    if a.len() != b.len() {
        assert(x.len() != y.len());
        return false;
    }
    for i in 0..a.len()
        invariant
            x == pair_texts(a@),
            y == pair_texts(b@),
            a@.len() == b@.len(),
            forall|j: int| 0 <= j < i ==> x[j] == y[j],
    {
        assert(x[i as int] == (a@[i as int].0@, a@[i as int].1@));
        assert(y[i as int] == (b@[i as int].0@, b@[i as int].1@));
        if !same(a[i].0.as_str(), b[i].0.as_str()) || !same(a[i].1.as_str(), b[i].1.as_str()) {
            return false;
        }
    }
    assert(x =~= y);
    true
}

/// A lease that exists under a retry key answers the request that made it.
pub open spec fn answers(
    lease: ForkLeaseRecord,
    assignment: Seq<(Seq<char>, Seq<char>)>,
    ttl: u64,
) -> bool {
    pair_texts(lease.assignment@) == assignment && lease.ttl_secs == ttl
}

/// What a claim leads to.
pub enum ClaimAnswer {
    /// The lease of an earlier request is the answer.
    Respond(ForkLeaseRecord),
    /// The worker of the new lease is to be activated.
    Activate(ForkLeaseRecord),
    /// The request is refused.
    Refuse(Refusal),
}

/// What a claim leads to. A key that was used for something else is a conflict.
/// No payload is sent with a claim, so a refusal of one is a fault of the server.
pub open spec fn claim_answer(
    claim: ClaimForkPoolSlot,
    pool_name: Seq<char>,
    assignment: Seq<(Seq<char>, Seq<char>)>,
    ttl: u64,
) -> ClaimAnswer {
    match claim {
        ClaimForkPoolSlot::Claimed(lease) => ClaimAnswer::Activate(lease),
        ClaimForkPoolSlot::Existing(lease) => if answers(lease, assignment, ttl) {
            ClaimAnswer::Respond(lease)
        } else {
            ClaimAnswer::Refuse(
                Refusal::Conflict(
                    "idempotencyKey was already used with a different assignment or TTL"@,
                ),
            )
        },
        ClaimForkPoolSlot::NoReadySlot => ClaimAnswer::Refuse(
            Refusal::Unavailable("fork pool '"@ + pool_name + "' has no clean worker ready"@),
        ),
        ClaimForkPoolSlot::AtCapacity => ClaimAnswer::Refuse(
            Refusal::Conflict("fork pool '"@ + pool_name + "' reached maxActive"@),
        ),
        ClaimForkPoolSlot::PoolNotFound => ClaimAnswer::Refuse(no_pool(pool_name)),
        ClaimForkPoolSlot::PoolDeleting => ClaimAnswer::Refuse(pool_deleting(pool_name)),
        ClaimForkPoolSlot::WorkspaceExternallyMounted => ClaimAnswer::Refuse(
            Refusal::Internal("pool claim refused a payload that was not sent"@),
        ),
    }
}

/// What follows a claim. A key that was used for something else is a conflict.
pub fn acquire_lease(
    claim: ClaimForkPoolSlot,
    pool_name: &str,
    assignment: &Vec<(String, String)>,
    ttl: u64,
) -> (r: Result<ClaimStep, ApiError>)
    ensures
        match (claim_answer(claim, pool_name@, pair_texts(assignment@), ttl), r) {
            (ClaimAnswer::Respond(lease), Ok(ClaimStep::Respond(info))) => publishes(info, lease),
            (ClaimAnswer::Activate(lease), Ok(ClaimStep::Activate(claimed))) => claimed == lease,
            (ClaimAnswer::Refuse(refusal), Err(error)) => error@ == refusal,
            _ => false,
        },
{
    match claim {
        ClaimForkPoolSlot::Existing(lease) => {
            if !same_pairs(&lease.assignment, assignment) || lease.ttl_secs != ttl {
                return Err(
                    ApiError::Conflict(
                        "idempotencyKey was already used with a different assignment or TTL".to_owned(),
                    ),
                );
            }
            Ok(ClaimStep::Respond(lease_info(lease)))
        },
        ClaimForkPoolSlot::NoReadySlot => Err(
            ApiError::Unavailable(quoted("fork pool '", pool_name, "' has no clean worker ready")),
        ),
        ClaimForkPoolSlot::AtCapacity => Err(
            ApiError::Conflict(quoted("fork pool '", pool_name, "' reached maxActive")),
        ),
        ClaimForkPoolSlot::PoolNotFound => Err(
            ApiError::NotFound(quoted("fork pool '", pool_name, "' not found")),
        ),
        ClaimForkPoolSlot::PoolDeleting => Err(
            ApiError::Conflict(quoted("fork pool '", pool_name, "' is deleting")),
        ),
        ClaimForkPoolSlot::Claimed(lease) => Ok(ClaimStep::Activate(lease)),
        ClaimForkPoolSlot::WorkspaceExternallyMounted => Err(
            ApiError::Internal("pool claim refused a payload that was not sent".to_owned()),
        ),
    }
}

/// What the activation of a claimed lease does next.
#[derive(Debug)]
pub enum ActivationStep {
    /// Release the held worker.
    Release,
    /// Mark the lease active.
    MarkActive,
    /// Record the lease as failed with the first message, then report the
    /// second.
    FailLease(String, String),
    /// Report the message; the lease stays as it is.
    Report(String),
}

/// What was learned about a claimed lease.
#[derive(Debug)]
pub enum ActivationEvent {
    /// The worker was looked up: whether it exists, or why that is unknown.
    LookedUp(Result<bool, String>),
    /// The held worker was released, or why not.
    Released(Result<(), String>),
}

/// The phases of activating a claimed lease.
pub enum Phase {
    /// The worker is released to its lease.
    Releasing,
    /// The lease is marked active.
    Marking,
    /// The lease failed, and its worker with it.
    Lost,
    /// Nothing is known of the worker.
    Unknown,
}

/// The phase that an event leads to.
pub open spec fn phase_after(event: ActivationEvent) -> Phase {
    match event {
        ActivationEvent::LookedUp(Ok(exists)) => if exists {
            Phase::Releasing
        } else {
            Phase::Lost
        },
        ActivationEvent::LookedUp(Err(_)) => Phase::Unknown,
        ActivationEvent::Released(Ok(_)) => Phase::Marking,
        ActivationEvent::Released(Err(_)) => Phase::Lost,
    }
}

/// The next step of activating a claimed lease.
///
/// A worker that is gone or cannot be released costs its lease: the failure is
/// recorded, and the worker is replaced, never reused.
pub fn activation_step(event: ActivationEvent) -> (r: ActivationStep)
    ensures
        match event {
            ActivationEvent::LookedUp(Ok(exists)) => if exists {
                r is Release
            } else {
                r matches ActivationStep::FailLease(recorded, reported) && recorded@
                    == "claimed pool worker disappeared"@ && reported@ == recorded@
            },
            ActivationEvent::LookedUp(Err(why)) => r matches ActivationStep::Report(message)
                && message@ == "pool worker lookup failed: "@ + why@,
            ActivationEvent::Released(Ok(_)) => r is MarkActive,
            ActivationEvent::Released(Err(why)) => r matches ActivationStep::FailLease(
                recorded,
                reported,
            ) && recorded@ == why@ && reported@
                == "pool worker was consumed and will be replaced after activation failed: "@
                + why@,
        },
        match phase_after(event) {
            Phase::Releasing => r is Release,
            Phase::Marking => r is MarkActive,
            Phase::Lost => r is FailLease,
            Phase::Unknown => r is Report,
        },
{
    match event {
        ActivationEvent::LookedUp(Ok(exists)) => if exists {
            ActivationStep::Release
        } else {
            ActivationStep::FailLease(
                "claimed pool worker disappeared".to_owned(),
                "claimed pool worker disappeared".to_owned(),
            )
        },
        ActivationEvent::LookedUp(Err(why)) => {
            let mut message = "pool worker lookup failed: ".to_owned();
            message.append(why.as_str());
            ActivationStep::Report(message)
        },
        ActivationEvent::Released(Ok(_)) => ActivationStep::MarkActive,
        ActivationEvent::Released(Err(why)) => {
            let mut reported =
                "pool worker was consumed and will be replaced after activation failed: ".to_owned();
            reported.append(why.as_str());
            ActivationStep::FailLease(why, reported)
        },
    }
}

/// The lease after it was marked active: it must still exist and be active.
pub fn activated_lease(marked: Option<ForkLeaseRecord>) -> (r: Result<ForkLeaseRecord, String>)
    ensures
        match (marked, r) {
            (Some(lease), Ok(active)) => active == lease && lease.state is Active,
            (Some(lease), Err(message)) => !(lease.state is Active) && message@
                == "lease changed to '"@ + lease.state.label()
                + "' before activation completed"@,
            (None, Err(message)) => message@ == "claimed lease disappeared"@,
            (None, Ok(_)) => false,
        },
{
    match marked {
        None => Err("claimed lease disappeared".to_owned()),
        Some(lease) => if lease.state == ForkLeaseState::Active {
            Ok(lease)
        } else {
            Err(
                quoted("lease changed to '", lease.state.as_str(), "' before activation completed"),
            )
        },
    }
}

/// The lease that was found in a pool.
pub fn get_lease(found: Option<ForkLeaseRecord>, lease_id: &str, pool_name: &str) -> (r: Result<
    ForkLeaseInfo,
    ApiError,
>)
    ensures
        match (found, r) {
            (Some(lease), Ok(info)) => publishes(info, lease),
            (None, Err(error)) => error@ == Refusal::NotFound(
                "lease '"@ + lease_id@ + "' not found in fork pool '"@ + pool_name@ + "'"@,
            ),
            _ => false,
        },
{
    match found {
        Some(lease) => Ok(lease_info(lease)),
        None => {
            let mut message = quoted("lease '", lease_id, "' not found in fork pool '");
            message.append(pool_name);
            message.append("'");
            Err(ApiError::NotFound(message))
        },
    }
}

/// Refusal of a request about a lease that does not exist.
pub open spec fn no_lease(lease_id: Seq<char>) -> Refusal {
    Refusal::NotFound("fork lease '"@ + lease_id + "' not found"@)
}

/// A heartbeat at `now` keeps the lease.
pub open spec fn keeps_alive(lease: ForkLeaseRecord, now: u64) -> bool {
    lease.state is Active && now < lease.expires_at
}

/// The lease after a heartbeat at `now`: it must exist, be active and not have
/// expired.
pub fn heartbeat_lease(found: Option<ForkLeaseRecord>, lease_id: &str, now: u64) -> (r: Result<
    ForkLeaseRecord,
    ApiError,
>)
    ensures
        match (found, r) {
            (Some(lease), Ok(extended)) => extended == lease && lease.state is Active
                && lease.expires_at > now,
            (Some(lease), Err(error)) => !(lease.state is Active && lease.expires_at > now)
                && error@ == Refusal::Conflict(
                "fork lease '"@ + lease_id@ + "' is no longer active"@,
            ),
            (None, Err(error)) => error@ == no_lease(lease_id@),
            (None, Ok(_)) => false,
        },
        r is Ok <==> found is Some && keeps_alive(found->0, now),
{
    match found {
        None => Err(ApiError::NotFound(quoted("fork lease '", lease_id, "' not found"))),
        Some(lease) => if lease.state != ForkLeaseState::Active || lease.expires_at <= now {
            Err(ApiError::Conflict(quoted("fork lease '", lease_id, "' is no longer active")))
        } else {
            Ok(lease)
        },
    }
}

/// The answer to a heartbeat, by whether the worker's process is alive. A dead
/// worker's lease is to be failed before the refusal is reported.
pub fn heartbeat_answer(lease: ForkLeaseRecord, lease_id: &str, worker_alive: bool) -> (r: Result<
    ForkLeaseInfo,
    ApiError,
>)
    ensures
        match r {
            Ok(info) => worker_alive && publishes(info, lease),
            Err(error) => !worker_alive && error@ == Refusal::Conflict(
                "fork lease '"@ + lease_id@ + "' worker is no longer running"@,
            ),
        },
{
    if worker_alive {
        Ok(lease_info(lease))
    } else {
        Err(ApiError::Conflict(quoted("fork lease '", lease_id, "' worker is no longer running")))
    }
}

/// The answer to a request to complete a lease: it must exist and be completed
/// now.
pub fn complete_lease(found: Option<ForkLeaseRecord>, lease_id: &str) -> (r: Result<
    ForkLeaseInfo,
    ApiError,
>)
    ensures
        match (found, r) {
            (Some(lease), Ok(info)) => lease.state is Completed && publishes(info, lease),
            (Some(lease), Err(error)) => !(lease.state is Completed) && error@ == Refusal::Conflict(
                "fork lease '"@ + lease_id@ + "' is '"@ + lease.state.label() + "', not active"@,
            ),
            (None, Err(error)) => error@ == no_lease(lease_id@),
            (None, Ok(_)) => false,
        },
{
    match found {
        None => Err(ApiError::NotFound(quoted("fork lease '", lease_id, "' not found"))),
        Some(lease) => if lease.state != ForkLeaseState::Completed {
            let mut message = quoted("fork lease '", lease_id, "' is '");
            message.append(lease.state.as_str());
            message.append("', not active");
            Err(ApiError::Conflict(message))
        } else {
            Ok(lease_info(lease))
        },
    }
}

/// Every slot is counted under exactly one state.
pub proof fn law_every_slot_is_counted(slots: Seq<ForkPoolSlotRecord>)
    ensures
        slots_in(slots, ForkPoolSlotState::Provisioning) + slots_in(
            slots,
            ForkPoolSlotState::Ready,
        ) + slots_in(slots, ForkPoolSlotState::Activating) + slots_in(
            slots,
            ForkPoolSlotState::Leased,
        ) + slots_in(slots, ForkPoolSlotState::Retiring) == slots.len(),
    decreases slots.len(),
{
    if slots.len() > 0 {
        law_every_slot_is_counted(slots.drop_last());
    }
}

/// A worker is activated only for a new claim: a retry gets the lease of the
/// request it repeats, and a key that was used for something else is refused.
pub proof fn law_retry_never_activates_again(
    lease: ForkLeaseRecord,
    pool_name: Seq<char>,
    assignment: Seq<(Seq<char>, Seq<char>)>,
    ttl: u64,
)
    ensures
        answers(lease, assignment, ttl) ==> claim_answer(
            ClaimForkPoolSlot::Existing(lease),
            pool_name,
            assignment,
            ttl,
        ) == ClaimAnswer::Respond(lease),
        !answers(lease, assignment, ttl) ==> claim_answer(
            ClaimForkPoolSlot::Existing(lease),
            pool_name,
            assignment,
            ttl,
        ) is Refuse,
{
}

/// The defaults of a pool are themselves allowed.
pub proof fn law_defaults_are_allowed()
    ensures
        ttl_allowed(DEFAULT_LEASE_TTL_SECS),
        1 <= DEFAULT_READY_TIMEOUT_SECS <= MAX_READY_TIMEOUT_SECS,
{
}

/// A pool that was created can lease its workers: the TTL it was created with is
/// allowed for leases.
pub proof fn law_pool_ttl_is_leasable(
    req: CreateForkPoolRequest,
    name_fault: Option<Seq<char>>,
    golden_fault: Option<Seq<char>>,
)
    requires
        create_refusal(req, name_fault, golden_fault) is None,
    ensures
        ttl_allowed(or_default(None, or_default(req.lease_ttl_secs, DEFAULT_LEASE_TTL_SECS))),
{
}

/// A golden is accepted exactly if it exists, is no clone, runs, and has CUDA
/// where its weights are to be shared.
pub proof fn law_golden_is_accepted(
    golden: Seq<char>,
    share_weights: bool,
    found: Option<GoldenFacts>,
)
    ensures
        golden_refusal(golden, share_weights, found) is None <==> (found matches Some(facts)
            && !facts.is_clone && facts.alive && (share_weights ==> facts.cuda)),
        found is None ==> golden_refusal(golden, share_weights, found) == Some(
            Refusal::NotFound("machine '"@ + golden + "' not found"@),
        ),
        found is Some && golden_refusal(golden, share_weights, found) is Some ==> golden_refusal(
            golden,
            share_weights,
            found,
        )->0 is Conflict,
{
}

/// A refused golden is told the first thing that is wrong with it: being a clone,
/// not running, lacking CUDA.
pub proof fn law_golden_refusals_are_ordered(
    golden: Seq<char>,
    share_weights: bool,
    facts: GoldenFacts,
)
    ensures
        facts.is_clone ==> golden_refusal(golden, share_weights, Some(facts)) == Some(
            Refusal::Conflict("a fork clone cannot be used as a pool golden"@),
        ),
        !facts.is_clone && !facts.alive ==> golden_refusal(golden, share_weights, Some(facts))
            == Some(Refusal::Conflict("golden machine '"@ + golden + "' is not running"@)),
        !facts.is_clone && facts.alive && share_weights && !facts.cuda ==> golden_refusal(
            golden,
            share_weights,
            Some(facts),
        ) == Some(
            Refusal::Conflict("golden machine '"@ + golden + "' does not have CUDA enabled"@),
        ),
{
}

/// A pool is requested well exactly if both names are, between 1 and 256 workers
/// are kept ready, some leases are allowed, and the times that are given lie
/// within an hour and between half a minute and a day.
pub proof fn law_pool_request_is_accepted(
    req: CreateForkPoolRequest,
    name_fault: Option<Seq<char>>,
    golden_fault: Option<Seq<char>>,
)
    ensures
        create_refusal(req, name_fault, golden_fault) is None <==> {
            &&& name_fault is None && golden_fault is None
            &&& 1 <= req.desired_ready <= 256
            &&& req.max_active matches Some(most) ==> most >= 1
            &&& req.ready_timeout_secs matches Some(secs) ==> 1 <= secs <= 3600
            &&& req.lease_ttl_secs matches Some(secs) ==> 30 <= secs <= 86400
        },
        create_refusal(req, name_fault, golden_fault) matches Some(refusal) ==> refusal
            is BadRequest,
        name_fault matches Some(fault) ==> create_refusal(req, name_fault, golden_fault) == Some(
            Refusal::BadRequest(fault),
        ),
        golden_fault matches Some(fault) ==> (name_fault is None ==> create_refusal(
            req,
            name_fault,
            golden_fault,
        ) == Some(Refusal::BadRequest(fault))),
{
}

/// What is given wins over what is default, and a lease lasts between half a
/// minute and a day.
pub proof fn law_given_times_win(given: u64, default: u64)
    ensures
        or_default(Some(given), default) == given,
        or_default(None, default) == default,
        ttl_allowed(given) <==> 30 <= given <= 86400,
        DEFAULT_READY_TIMEOUT_SECS == 240,
        DEFAULT_LEASE_TTL_SECS == 300,
{
}

/// A retry key is allowed exactly if it has between 1 and 256 bytes, none of
/// which makes a control character.
pub proof fn law_retry_keys(key: Seq<char>)
    ensures
        key_allowed(key) <==> {
            &&& key.len() >= 1
            &&& vstd::utf8::encode_utf8(key).len() <= 256
            &&& forall|i: int|
                0 <= i < key.len() ==> 0x20 <= (#[trigger] key[i]) as u32 && !(0x7f
                    <= key[i] as u32 <= 0x9f)
        },
{
}

/// A further slot is counted under its own state and no other.
pub proof fn law_slots_are_counted_by_state(
    slots: Seq<ForkPoolSlotRecord>,
    slot: ForkPoolSlotRecord,
    state: ForkPoolSlotState,
)
    ensures
        slots_in(Seq::empty(), state) == 0,
        slot.state == state ==> slots_in(slots.push(slot), state) == slots_in(slots, state) + 1,
        slot.state != state ==> slots_in(slots.push(slot), state) == slots_in(slots, state),
{
    assert(slots.push(slot).drop_last() =~= slots);
}

/// A worker is activated exactly for a new claim. A lease is handed out again
/// exactly to the request that it was made for: same assignment, same TTL.
/// Everything else is refused, and nothing as a wrong request.
pub proof fn law_claims_are_answered(
    claim: ClaimForkPoolSlot,
    pool_name: Seq<char>,
    assignment: Seq<(Seq<char>, Seq<char>)>,
    ttl: u64,
)
    ensures
        ({
            let answer = claim_answer(claim, pool_name, assignment, ttl);
            &&& claim matches ClaimForkPoolSlot::Claimed(lease) ==> answer == ClaimAnswer::Activate(
                lease,
            )
            &&& answer is Activate ==> claim is Claimed
            &&& claim matches ClaimForkPoolSlot::Existing(lease) ==> (pair_texts(
                lease.assignment@,
            ) == assignment && lease.ttl_secs == ttl ==> answer == ClaimAnswer::Respond(lease))
            &&& claim matches ClaimForkPoolSlot::Existing(lease) ==> (!(pair_texts(
                lease.assignment@,
            ) == assignment && lease.ttl_secs == ttl) ==> (
            answer matches ClaimAnswer::Refuse(refusal) && refusal is Conflict))
            &&& answer is Respond ==> claim is Existing
            &&& claim is NoReadySlot ==> (answer matches ClaimAnswer::Refuse(refusal) && refusal
                == Refusal::Unavailable(
                "fork pool '"@ + pool_name + "' has no clean worker ready"@,
            ))
            &&& claim is AtCapacity ==> (answer matches ClaimAnswer::Refuse(refusal) && refusal
                == Refusal::Conflict("fork pool '"@ + pool_name + "' reached maxActive"@))
            &&& claim is PoolNotFound ==> (answer matches ClaimAnswer::Refuse(refusal) && refusal
                == Refusal::NotFound("fork pool '"@ + pool_name + "' not found"@))
            &&& claim is PoolDeleting ==> (answer matches ClaimAnswer::Refuse(refusal) && refusal
                == Refusal::Conflict("fork pool '"@ + pool_name + "' is deleting"@))
            &&& answer matches ClaimAnswer::Refuse(refusal) ==> !(refusal is BadRequest)
        }),
{
}

/// A heartbeat keeps an active lease until the moment it expires, and no other.
pub proof fn law_heartbeat_keeps_active_leases(lease: ForkLeaseRecord, now: u64)
    ensures
        keeps_alive(lease, now) <==> lease.state == ForkLeaseState::Active && lease.expires_at
            > now,
        keeps_alive(lease, now) ==> forall|t: u64| t <= now ==> #[trigger] keeps_alive(lease, t),
        !keeps_alive(lease, lease.expires_at),
{
}

/// A lease becomes active only over a worker that was found and released; a
/// worker that is gone or was not released costs the lease.
pub proof fn law_activation_needs_a_released_worker(event: ActivationEvent)
    ensures
        phase_after(event) is Marking <==> (event matches ActivationEvent::Released(outcome)
            && outcome is Ok),
        phase_after(event) is Releasing <==> event == ActivationEvent::LookedUp(
            Ok::<bool, String>(true),
        ),
        phase_after(event) is Lost <==> event == ActivationEvent::LookedUp(
            Ok::<bool, String>(false),
        ) || (event matches ActivationEvent::Released(outcome) && outcome is Err),
{
}

/// What is published of a lease identifies it, its pool and its machine, and
/// shows its state, its times and its error.
pub proof fn law_published_lease(info: ForkLeaseInfo, lease: ForkLeaseRecord)
    requires
        publishes(info, lease),
    ensures
        info.id@ == lease.id@ && info.pool@ == lease.pool_name@ && info.machine@
            == lease.machine_name@,
        info.state@ == lease.state.label(),
        info.created_at == lease.created_at && info.expires_at == lease.expires_at,
        maybe_text(info.error) == maybe_text(lease.last_error),
        no_lease(lease.id@) == Refusal::NotFound("fork lease '"@ + lease.id@ + "' not found"@),
{
}

} // verus!
