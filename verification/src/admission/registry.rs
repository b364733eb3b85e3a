//! Calibration of all devices, and which pool is governed by which device.
use std::collections::HashMap;
use vstd::prelude::*;
use crate::admission::calibration::{
    AdmissionSnapshot,
    Calibration,
    Evaluation,
    Judgement,
    Observation,
    PoolAdmissionState,
    Snapshot,
};
use crate::admission::fair_share::{fair_pool_limit, find_pool, DevicePoolState, PoolEntry};
use crate::admission::gpu::GpuSample;
use crate::digits::to_decimal;
use crate::pool::{ForkPoolAdmissionLimit, ForkPoolRecord};
use crate::text::same;

verus! {

/// One pool's part of a controller tick: its record, its active leases and the
/// leases it completed so far.
pub type PoolObservation = (ForkPoolRecord, u32, u64);

/// State of one device: its calibration and the pools that it governs.
#[derive(Debug)]
pub struct DeviceAdmissionState<U> {
    pub admission: PoolAdmissionState<U>,
    pub pools: Vec<(String, DevicePoolState)>,
}

/// Mathematical model of a device.
pub struct DeviceModel<U> {
    pub admission: Calibration<U>,
    pub pools: Seq<PoolEntry>,
}

impl<U> View for DeviceAdmissionState<U> {
    type V = DeviceModel<U>;

    open spec fn view(&self) -> DeviceModel<U> {
        DeviceModel {
            admission: self.admission@,
            pools: crate::admission::fair_share::entries(self.pools@),
        }
    }
}

/// Bridge between the HTTP admission path and the background telemetry loop.
///
/// A device has a state while some live automatic pool is governed by it.
#[derive(Debug)]
pub struct AdmissionRegistry<U> {
    devices: Vec<(u32, DeviceAdmissionState<U>)>,
    pool_devices: Vec<(String, u32)>,
}

/// The state of device `d`.
pub open spec fn device_in<U>(
    devices: Seq<(u32, DeviceAdmissionState<U>)>,
    d: u32,
) -> Option<DeviceModel<U>>
    decreases devices.len(),
{
    if devices.len() == 0 {
        None
    } else if devices.last().0 == d {
        Some(devices.last().1@)
    } else {
        device_in(devices.drop_last(), d)
    }
}

/// The device of pool `name`.
pub open spec fn device_of_in(list: Seq<(String, u32)>, name: Seq<char>) -> Option<u32>
    decreases list.len(),
{
    if list.len() == 0 {
        None
    } else if list.last().0@ == name {
        Some(list.last().1)
    } else {
        device_of_in(list.drop_last(), name)
    }
}

/// The observation of device `d` in a report.
pub open spec fn reported<U>(report: Seq<(u32, Observation<U>)>, d: u32) -> Option<Observation<U>>
    decreases report.len(),
{
    if report.len() == 0 {
        None
    } else if report.last().0 == d {
        Some(report.last().1)
    } else {
        reported(report.drop_last(), d)
    }
}

/// No device is reported twice.
pub open spec fn reported_once<U>(report: Seq<(u32, Observation<U>)>) -> bool {
    forall|i: int, j: int|
        0 <= i < j < report.len() ==> (#[trigger] report[i]).0 != (#[trigger] report[j]).0
}

/// Most active leases that a pool's configuration allows; at least one.
pub open spec fn pool_ceiling(pool: ForkPoolRecord) -> u32 {
    let wanted = match pool.max_active {
        Some(max) => if max < pool.desired_ready {
            max
        } else {
            pool.desired_ready
        },
        None => pool.desired_ready,
    };
    if wanted < 1 {
        1u32
    } else {
        wanted
    }
}

/// The observation is of a live pool that device `d` governs.
pub open spec fn on_device(observation: PoolObservation, d: u32) -> bool {
    !observation.0.deleting && observation.0.admission_device() == Some(d)
}

/// The observation is of a live automatic pool that device `d` governs.
pub open spec fn automatic_on(observation: PoolObservation, d: u32) -> bool {
    on_device(observation, d) && observation.0.auto_admission
}

/// Some live automatic pool is governed by device `d`.
pub open spec fn live(observations: Seq<PoolObservation>, d: u32) -> bool
    decreases observations.len(),
{
    observations.len() > 0 && (automatic_on(observations.last(), d) || live(
        observations.drop_last(),
        d,
    ))
}

/// The device of pool `name` after a tick: that of its last observation as a
/// live automatic pool.
pub open spec fn assigned(observations: Seq<PoolObservation>, name: Seq<char>) -> Option<u32>
    decreases observations.len(),
{
    if observations.len() == 0 {
        None
    } else {
        let last = observations.last();
        if !last.0.deleting && last.0.auto_admission && last.0.admission_device() is Some
            && last.0.name@ == name {
            last.0.admission_device()
        } else {
            assigned(observations.drop_last(), name)
        }
    }
}

/// Sum of the ceilings of the automatic pools of device `d`.
pub open spec fn ceiling_sum(observations: Seq<PoolObservation>, d: u32) -> nat
    decreases observations.len(),
{
    if observations.len() == 0 {
        0
    } else {
        ceiling_sum(observations.drop_last(), d) + if automatic_on(observations.last(), d) {
            pool_ceiling(observations.last().0) as nat
        } else {
            0
        }
    }
}

/// Active leases of all pools of device `d`, automatic or not.
pub open spec fn active_sum(observations: Seq<PoolObservation>, d: u32) -> nat
    decreases observations.len(),
{
    if observations.len() == 0 {
        0
    } else {
        active_sum(observations.drop_last(), d) + if on_device(observations.last(), d) {
            observations.last().1 as nat
        } else {
            0
        }
    }
}

/// Completed leases of all pools of device `d`, automatic or not.
pub open spec fn completed_sum(observations: Seq<PoolObservation>, d: u32) -> nat
    decreases observations.len(),
{
    if observations.len() == 0 {
        0
    } else {
        completed_sum(observations.drop_last(), d) + if on_device(observations.last(), d) {
            observations.last().2 as nat
        } else {
            0
        }
    }
}

/// `n`, but no more than the largest `u32`.
pub open spec fn within_u32(n: nat) -> u32 {
    if n > u32::MAX {
        u32::MAX
    } else {
        n as u32
    }
}

/// `n`, but no more than the largest `u64`.
pub open spec fn within_u64(n: nat) -> u64 {
    if n > u64::MAX {
        u64::MAX
    } else {
        n as u64
    }
}

/// Ceiling of device `d`: what its automatic pools may have together.
pub open spec fn device_ceiling(observations: Seq<PoolObservation>, d: u32) -> u32 {
    let sum = within_u32(ceiling_sum(observations, d));
    if sum < 1 {
        1u32
    } else {
        sum
    }
}

/// The list with the pool's state replaced, or the pool added at the end.
pub open spec fn upserted(pools: Seq<PoolEntry>, name: Seq<char>, state: DevicePoolState) -> Seq<
    PoolEntry,
>
    decreases pools.len(),
{
    if pools.len() == 0 {
        seq![(name, state)]
    } else if pools.last().0 == name {
        pools.drop_last().push((name, state))
    } else if crate::admission::fair_share::pool_named(pools.drop_last(), name) is Some {
        upserted(pools.drop_last(), name, state).push(pools.last())
    } else {
        pools.push((name, state))
    }
}

/// Recent demand that is known of a pool.
pub open spec fn known_demand(pools: Seq<PoolEntry>, name: Seq<char>) -> Option<u64> {
    match crate::admission::fair_share::pool_named(pools, name) {
        Some(pool) => pool.last_demand,
        None => None,
    }
}

/// The pools of device `d` after a tick: the automatic ones that were observed,
/// with what is known of their demand.
pub open spec fn pools_after(
    observations: Seq<PoolObservation>,
    d: u32,
    known: Seq<PoolEntry>,
) -> Seq<PoolEntry>
    decreases observations.len(),
{
    if observations.len() == 0 {
        Seq::empty()
    } else {
        let init = pools_after(observations.drop_last(), d, known);
        let last = observations.last();
        if automatic_on(last, d) {
            upserted(
                init,
                last.0.name@,
                DevicePoolState {
                    ceiling: pool_ceiling(last.0),
                    active: last.1,
                    last_demand: known_demand(known, last.0.name@),
                },
            )
        } else {
            init
        }
    }
}

/// The pools that a device is known to have.
pub open spec fn known_pools<U>(before: Option<DeviceModel<U>>) -> Seq<PoolEntry> {
    match before {
        Some(model) => model.pools,
        None => Seq::empty(),
    }
}

/// Calibration of device `d` with the ceiling of this tick, before a sample.
pub open spec fn resized<U>(
    before: Option<DeviceModel<U>>,
    observations: Seq<PoolObservation>,
    d: u32,
    now: u64,
) -> Calibration<U> {
    let ceiling = device_ceiling(observations, d);
    let completed = within_u64(completed_sum(observations, d));
    let base = match before {
        Some(model) => model.admission,
        None => Calibration::initial(ceiling, now, completed),
    };
    base.with_ceiling(ceiling, now, completed)
}

/// Device `d` after a tick.
pub open spec fn device_after<U>(
    before: Option<DeviceModel<U>>,
    observations: Seq<PoolObservation>,
    d: u32,
    gpu: Option<GpuSample<U>>,
    host_cpu_percent: Option<U>,
    now: u64,
    sample: bool,
) -> DeviceModel<U> {
    let admission = resized(before, observations, d, now);
    DeviceModel {
        admission: if sample {
            admission.observed(
                now,
                within_u32(active_sum(observations, d)),
                within_u64(completed_sum(observations, d)),
                gpu,
                host_cpu_percent,
            )
        } else {
            admission
        },
        pools: pools_after(observations, d, known_pools(before)),
    }
}

/// What a sampling tick reports of device `d`.
pub open spec fn observation_of<U>(
    before: Option<DeviceModel<U>>,
    observations: Seq<PoolObservation>,
    d: u32,
    gpu: Option<GpuSample<U>>,
    now: u64,
) -> Observation<U> {
    resized(before, observations, d, now).observation(
        now,
        within_u32(active_sum(observations, d)),
        within_u64(completed_sum(observations, d)),
        gpu,
    )
}

/// The sample of device `d`.
pub open spec fn sample_of<U>(gpu: Option<Map<u32, GpuSample<U>>>, d: u32) -> Option<GpuSample<U>> {
    match gpu {
        Some(samples) => if samples.dom().contains(d) {
            Some(samples[d])
        } else {
            None
        },
        None => None,
    }
}

/// The list in which the pool's last demand is `now`.
pub open spec fn with_demand(pools: Seq<PoolEntry>, name: Seq<char>, now: u64) -> Seq<PoolEntry> {
    match crate::admission::fair_share::pool_named(pools, name) {
        Some(state) => upserted(
            pools,
            name,
            DevicePoolState { last_demand: Some(now), ..state },
        ),
        None => pools,
    }
}

/// The device after a caller of pool `name` was blocked.
pub open spec fn device_blocked<U>(
    model: DeviceModel<U>,
    name: Seq<char>,
    now: u64,
) -> DeviceModel<U> {
    DeviceModel {
        admission: Calibration { last_blocked: Some(now), ..model.admission },
        pools: with_demand(model.pools, name, now),
    }
}

/// The device's pools with `pool` among them.
pub open spec fn with_pool(pools: Seq<PoolEntry>, pool: ForkPoolRecord) -> Seq<PoolEntry> {
    if crate::admission::fair_share::pool_named(pools, pool.name@) is Some {
        pools
    } else {
        pools.push(
            (
                pool.name@,
                DevicePoolState { ceiling: pool_ceiling(pool), active: 0, last_demand: None },
            ),
        )
    }
}

/// What is published of a pool that a device governs.
pub open spec fn snapshot_of<U>(model: DeviceModel<U>, d: u32, name: Seq<char>, now: u64) -> Snapshot<
    U,
> {
    let device = model.admission.published();
    let pool_limit = crate::admission::fair_share::fair_limit(
        model.pools,
        name,
        device.effective_limit,
        now,
        true,
    );
    Snapshot {
        effective_limit: pool_limit as u32,
        device_limit: device.effective_limit,
        device_ordinal: d,
        reason: if model.pools.len() > 1 {
            "CUDA device "@ + crate::digits::decimal(d as nat) + " limit "@
                + crate::digits::decimal(device.effective_limit as nat) + "; pool fair share "@
                + crate::digits::decimal(pool_limit) + ": "@ + device.reason
        } else {
            device.reason
        },
        ..device
    }
}

proof fn lemma_upserted(pools: Seq<PoolEntry>, name: Seq<char>, state: DevicePoolState, i: int)
    requires
        0 <= i < pools.len(),
        pools[i].0 == name,
        forall|j: int| i < j < pools.len() ==> (#[trigger] pools[j]).0 != name,
    ensures
        upserted(pools, name, state) == pools.update(i, (name, state)),
        crate::admission::fair_share::pool_named(pools, name) == Some(pools[i].1),
    decreases pools.len(),
{
    if i == pools.len() - 1 {
        assert(pools.drop_last().push((name, state)) =~= pools.update(i, (name, state)));
    } else {
        assert(pools[pools.len() - 1].0 != name);
        let init = pools.drop_last();
        assert forall|j: int| i < j < init.len() implies (#[trigger] init[j]).0 != name by {
            assert(init[j] == pools[j]);
        }
        lemma_upserted(init, name, state, i);
        assert(init.update(i, (name, state)).push(pools.last()) =~= pools.update(i, (name, state)));
    }
}

proof fn lemma_upserted_new(pools: Seq<PoolEntry>, name: Seq<char>, state: DevicePoolState)
    requires
        crate::admission::fair_share::pool_named(pools, name) is None,
    ensures
        upserted(pools, name, state) == pools.push((name, state)),
{
    if pools.len() == 0 {
        assert(pools.push((name, state)) =~= seq![(name, state)]);
    }
}

/// Position of the pool `name`.
fn find_index(pools: &Vec<(String, DevicePoolState)>, name: &str) -> (r: Option<usize>)
    ensures
        match r {
            Some(i) => {
                &&& i < pools@.len()
                &&& pools@[i as int].0@ == name@
                &&& forall|j: int| i < j < pools@.len() ==> (#[trigger] pools@[j]).0@ != name@
                &&& crate::admission::fair_share::pool_named(
                    crate::admission::fair_share::entries(pools@),
                    name@,
                ) == Some(pools@[i as int].1)
            },
            None => crate::admission::fair_share::pool_named(
                crate::admission::fair_share::entries(pools@),
                name@,
            ) is None,
        },
{
    let ghost e = crate::admission::fair_share::entries(pools@);
    let mut i: usize = pools.len();
    assert(e.take(e.len() as int) =~= e);
    while i > 0
        invariant
            i <= pools@.len(),
            e == crate::admission::fair_share::entries(pools@),
            forall|j: int| i <= j < pools@.len() ==> (#[trigger] pools@[j]).0@ != name@,
            crate::admission::fair_share::pool_named(e, name@)
                == crate::admission::fair_share::pool_named(e.take(i as int), name@),
        decreases i,
    {
        assert(e.take(i as int).drop_last() =~= e.take(i - 1));
        i -= 1;
        if same(pools[i].0.as_str(), name) {
            return Some(i);
        }
    }
    None
}

/// Replaces the state of a pool, or adds the pool.
fn upsert(pools: &mut Vec<(String, DevicePoolState)>, name: &String, state: DevicePoolState)
    ensures
        crate::admission::fair_share::entries(final(pools)@) == upserted(
            crate::admission::fair_share::entries(old(pools)@),
            name@,
            state,
        ),
{
    let ghost e = crate::admission::fair_share::entries(pools@);
    match find_index(pools, name.as_str()) {
        Some(i) => {
            proof {
                assert forall|j: int| i < j < e.len() implies (#[trigger] e[j]).0 != name@ by {
                    assert(pools@[j].0@ != name@);
                }
                lemma_upserted(e, name@, state, i as int);
            }
            pools.set(i, (name.clone(), state));
            assert(crate::admission::fair_share::entries(pools@) =~= e.update(
                i as int,
                (name@, state),
            ));
        },
        None => {
            proof {
                lemma_upserted_new(e, name@, state);
            }
            pools.push((name.clone(), state));
            assert(crate::admission::fair_share::entries(pools@) =~= e.push((name@, state)));
        },
    }
}

/// Most active leases that a pool's configuration allows.
pub fn ceiling(pool: &ForkPoolRecord) -> (r: u32)
    ensures
        r == pool_ceiling(*pool),
{
    let wanted: u32 = match pool.max_active {
        Some(max) => if max < pool.desired_ready {
            max
        } else {
            pool.desired_ready
        },
        None => pool.desired_ready,
    };
    if wanted < 1 {
        1
    } else {
        wanted
    }
}

/// Whether device `d` governs the observed live pool.
fn is_on_device(observation: &PoolObservation, d: u32) -> (r: bool)
    ensures
        r == on_device(*observation, d),
{
    if observation.0.deleting {
        return false;
    }
    match observation.0.admission_device_ordinal() {
        Some(ordinal) => ordinal == d,
        None => false,
    }
}

/// Ceiling, active leases and completed leases of device `d`.
fn device_totals(observations: &[PoolObservation], d: u32) -> (r: (u32, u32, u64))
    ensures
        r.0 == device_ceiling(observations@, d),
        r.1 == within_u32(active_sum(observations@, d)),
        r.2 == within_u64(completed_sum(observations@, d)),
{
    let mut total: u32 = 0;
    let mut active: u32 = 0;
    let mut completed: u64 = 0;
    assert(observations@.take(0) =~= Seq::empty());
    for i in 0..observations.len()
        invariant
            total == within_u32(ceiling_sum(observations@.take(i as int), d)),
            active == within_u32(active_sum(observations@.take(i as int), d)),
            completed == within_u64(completed_sum(observations@.take(i as int), d)),
    {
        assert(observations@.take(i + 1).drop_last() =~= observations@.take(i as int));
        if is_on_device(&observations[i], d) {
            active = active.saturating_add(observations[i].1);
            completed = completed.saturating_add(observations[i].2);
            if observations[i].0.auto_admission {
                total = total.saturating_add(ceiling(&observations[i].0));
            }
        }
    }
    assert(observations@.take(observations@.len() as int) =~= observations@);
    if total < 1 {
        total = 1;
    }
    (total, active, completed)
}

/// The pools of device `d` after a tick.
fn refresh_pools(
    observations: &[PoolObservation],
    d: u32,
    known: &Vec<(String, DevicePoolState)>,
) -> (r: Vec<(String, DevicePoolState)>)
    ensures
        crate::admission::fair_share::entries(r@) == pools_after(
            observations@,
            d,
            crate::admission::fair_share::entries(known@),
        ),
{
    let mut pools: Vec<(String, DevicePoolState)> = Vec::new();
    let ghost k = crate::admission::fair_share::entries(known@);
    assert(observations@.take(0) =~= Seq::empty());
    assert(crate::admission::fair_share::entries(pools@) =~= Seq::empty());
    for i in 0..observations.len()
        invariant
            k == crate::admission::fair_share::entries(known@),
            crate::admission::fair_share::entries(pools@) == pools_after(
                observations@.take(i as int),
                d,
                k,
            ),
    {
        assert(observations@.take(i + 1).drop_last() =~= observations@.take(i as int));
        if is_on_device(&observations[i], d) && observations[i].0.auto_admission {
            let last_demand: Option<u64> = match find_pool(known, observations[i].0.name.as_str()) {
                Some(pool) => pool.last_demand,
                None => None,
            };
            let state = DevicePoolState {
                ceiling: ceiling(&observations[i].0),
                active: observations[i].1,
                last_demand,
            };
            upsert(&mut pools, &observations[i].0.name, state);
        }
    }
    assert(observations@.take(observations@.len() as int) =~= observations@);
    pools
}

/// Every name of `pools_after` is new to it exactly once.
proof fn lemma_upserted_distinct(pools: Seq<PoolEntry>, name: Seq<char>, state: DevicePoolState)
    requires
        crate::admission::fair_share::distinct_names(pools),
    ensures
        crate::admission::fair_share::distinct_names(upserted(pools, name, state)),
{
    let r = upserted(pools, name, state);
    if crate::admission::fair_share::pool_named(pools, name) is Some {
        let i = lemma_position(pools, name);
        lemma_upserted(pools, name, state, i);
        assert forall|a: int, b: int| 0 <= a < b < r.len() implies (#[trigger] r[a]).0 != (
        #[trigger] r[b]).0 by {
            assert(r[a].0 == pools[a].0);
            assert(r[b].0 == pools[b].0);
        }
    } else {
        lemma_upserted_new(pools, name, state);
        lemma_no_position(pools, name);
        assert forall|a: int, b: int| 0 <= a < b < r.len() implies (#[trigger] r[a]).0 != (
        #[trigger] r[b]).0 by {
            assert(r[a] == pools[a]);
            if b < pools.len() {
                assert(r[b] == pools[b]);
            }
        }
    }
}

proof fn lemma_position(pools: Seq<PoolEntry>, name: Seq<char>) -> (i: int)
    requires
        crate::admission::fair_share::pool_named(pools, name) is Some,
    ensures
        0 <= i < pools.len(),
        pools[i].0 == name,
        forall|j: int| i < j < pools.len() ==> (#[trigger] pools[j]).0 != name,
    decreases pools.len(),
{
    let n = pools.len() - 1;
    if pools.last().0 == name {
        n
    } else {
        let i = lemma_position(pools.drop_last(), name);
        assert forall|j: int| i < j < pools.len() implies (#[trigger] pools[j]).0 != name by {
            if j < n {
                assert(pools.drop_last()[j] == pools[j]);
            }
        }
        i
    }
}

proof fn lemma_no_position(pools: Seq<PoolEntry>, name: Seq<char>)
    requires
        crate::admission::fair_share::pool_named(pools, name) is None,
    ensures
        forall|j: int| 0 <= j < pools.len() ==> (#[trigger] pools[j]).0 != name,
    decreases pools.len(),
{
    if pools.len() > 0 {
        lemma_no_position(pools.drop_last(), name);
        assert forall|j: int| 0 <= j < pools.len() implies (#[trigger] pools[j]).0 != name by {
            if j < pools.len() - 1 {
                assert(pools.drop_last()[j] == pools[j]);
            }
        }
    }
}

proof fn lemma_pools_after_distinct(
    observations: Seq<PoolObservation>,
    d: u32,
    known: Seq<PoolEntry>,
)
    ensures
        crate::admission::fair_share::distinct_names(pools_after(observations, d, known)),
    decreases observations.len(),
{
    if observations.len() > 0 {
        lemma_pools_after_distinct(observations.drop_last(), d, known);
        let last = observations.last();
        if automatic_on(last, d) {
            lemma_upserted_distinct(
                pools_after(observations.drop_last(), d, known),
                last.0.name@,
                DevicePoolState {
                    ceiling: pool_ceiling(last.0),
                    active: last.1,
                    last_demand: known_demand(known, last.0.name@),
                },
            );
        }
    }
}

impl<U> DeviceModel<U> {
    /// The limits are ordered and the pools have distinct names.
    pub open spec fn wf(self) -> bool {
        self.admission.wf() && crate::admission::fair_share::distinct_names(self.pools)
    }
}

/// A well-formed device stays so through a tick.
proof fn lemma_device_after_wf<U>(
    before: Option<DeviceModel<U>>,
    observations: Seq<PoolObservation>,
    d: u32,
    gpu: Option<GpuSample<U>>,
    host_cpu_percent: Option<U>,
    now: u64,
    sample: bool,
)
    requires
        before matches Some(model) ==> model.wf(),
    ensures
        device_after(before, observations, d, gpu, host_cpu_percent, now, sample).wf(),
{
    lemma_pools_after_distinct(observations, d, known_pools(before));
}

proof fn lemma_remove_device<U>(devices: Seq<(u32, DeviceAdmissionState<U>)>, i: int, d: u32)
    requires
        0 <= i < devices.len(),
        devices[i].0 != d,
    ensures
        device_in(devices.remove(i), d) == device_in(devices, d),
    decreases devices.len(),
{
    if i == devices.len() - 1 {
        assert(devices.remove(i) =~= devices.drop_last());
    } else {
        lemma_remove_device(devices.drop_last(), i, d);
        assert(devices.remove(i).drop_last() =~= devices.drop_last().remove(i));
        assert(devices.remove(i).last() == devices.last());
    }
}

proof fn lemma_update_device<U>(
    devices: Seq<(u32, DeviceAdmissionState<U>)>,
    i: int,
    state: DeviceAdmissionState<U>,
    d: u32,
)
    requires
        0 <= i < devices.len(),
        forall|j: int| i < j < devices.len() ==> (#[trigger] devices[j]).0 != devices[i].0,
    ensures
        device_in(devices.update(i, (devices[i].0, state)), d) == if d == devices[i].0 {
            Some(state@)
        } else {
            device_in(devices, d)
        },
        device_in(devices, devices[i].0) == Some(devices[i].1@),
    decreases devices.len(),
{
    let after = devices.update(i, (devices[i].0, state));
    if i == devices.len() - 1 {
        assert(after.drop_last() =~= devices.drop_last());
    } else {
        let init = devices.drop_last();
        assert forall|j: int| i < j < init.len() implies (#[trigger] init[j]).0 != init[i].0 by {
            assert(init[j] == devices[j]);
        }
        lemma_update_device(init, i, state, d);
        assert(after.drop_last() =~= init.update(i, (init[i].0, state)));
        assert(devices[devices.len() - 1].0 != devices[i].0);
    }
}

proof fn lemma_not_reported<U>(report: Seq<(u32, Observation<U>)>, d: u32)
    requires
        reported(report, d) is None,
    ensures
        forall|i: int| 0 <= i < report.len() ==> (#[trigger] report[i]).0 != d,
    decreases report.len(),
{
    if report.len() > 0 {
        lemma_not_reported(report.drop_last(), d);
        assert forall|i: int| 0 <= i < report.len() implies (#[trigger] report[i]).0 != d by {
            if i < report.len() - 1 {
                assert(report.drop_last()[i] == report[i]);
            }
        }
    }
}

/// Position of device `d`.
fn find_device<U>(devices: &Vec<(u32, DeviceAdmissionState<U>)>, d: u32) -> (r: Option<usize>)
    ensures
        match r {
            Some(i) => {
                &&& i < devices@.len()
                &&& devices@[i as int].0 == d
                &&& forall|j: int| i < j < devices@.len() ==> (#[trigger] devices@[j]).0 != d
                &&& device_in(devices@, d) == Some(devices@[i as int].1@)
            },
            None => device_in(devices@, d) is None,
        },
{
    let mut i: usize = devices.len();
    assert(devices@.take(devices@.len() as int) =~= devices@);
    while i > 0
        invariant
            i <= devices@.len(),
            forall|j: int| i <= j < devices@.len() ==> (#[trigger] devices@[j]).0 != d,
            device_in(devices@, d) == device_in(devices@.take(i as int), d),
        decreases i,
    {
        assert(devices@.take(i as int).drop_last() =~= devices@.take(i - 1));
        i -= 1;
        if devices[i].0 == d {
            return Some(i);
        }
    }
    None
}

/// Takes device `d` out of the list.
fn take_device<U>(devices: &mut Vec<(u32, DeviceAdmissionState<U>)>, d: u32) -> (r: Option<
    DeviceAdmissionState<U>,
>)
    ensures
        match r {
            Some(state) => device_in(old(devices)@, d) == Some(state@),
            None => device_in(old(devices)@, d) is None,
        },
        forall|e: u32| e != d ==> #[trigger] device_in(final(devices)@, e) == device_in(
            old(devices)@,
            e,
        ),
{
    match find_device(devices, d) {
        Some(i) => {
            proof {
                assert forall|e: u32| e != d implies #[trigger] device_in(
                    devices@.remove(i as int),
                    e,
                ) == device_in(devices@, e) by {
                    lemma_remove_device(devices@, i as int, e);
                }
            }
            Some(devices.remove(i).1)
        },
        None => None,
    }
}

/// The device of pool `name`.
fn find_assignment(list: &Vec<(String, u32)>, name: &str) -> (r: Option<u32>)
    ensures
        r == device_of_in(list@, name@),
{
    let mut i: usize = list.len();
    assert(list@.take(list@.len() as int) =~= list@);
    while i > 0
        invariant
            i <= list@.len(),
            device_of_in(list@, name@) == device_of_in(list@.take(i as int), name@),
        decreases i,
    {
        assert(list@.take(i as int).drop_last() =~= list@.take(i - 1));
        i -= 1;
        if same(list[i].0.as_str(), name) {
            return Some(list[i].1);
        }
    }
    None
}

/// The devices of the pools after a tick.
fn assign_pools(observations: &[PoolObservation]) -> (r: Vec<(String, u32)>)
    ensures
        forall|name: Seq<char>| #[trigger]
            device_of_in(r@, name) == assigned(observations@, name),
{
    let mut list: Vec<(String, u32)> = Vec::new();
    assert(observations@.take(0) =~= Seq::empty());
    for i in 0..observations.len()
        invariant
            forall|name: Seq<char>| #[trigger]
                device_of_in(list@, name) == assigned(observations@.take(i as int), name),
    {
        let ghost before = list@;
        assert(observations@.take(i + 1).drop_last() =~= observations@.take(i as int));
        let pool = &observations[i].0;
        if !pool.deleting && pool.auto_admission {
            if let Some(d) = pool.admission_device_ordinal() {
                list.push((pool.name.clone(), d));
                assert(list@.drop_last() =~= before);
            }
        }
        assert forall|name: Seq<char>| #[trigger]
            device_of_in(list@, name) == assigned(observations@.take(i + 1), name) by {
            assert(device_of_in(before, name) == assigned(observations@.take(i as int), name));
        }
    }
    assert(observations@.take(observations@.len() as int) =~= observations@);
    list
}

/// `device_after`, as one opaque step.
#[verifier::opaque]
spec fn tick_state<U>(
    before: Option<DeviceModel<U>>,
    observations: Seq<PoolObservation>,
    d: u32,
    gpu: Option<GpuSample<U>>,
    host_cpu_percent: Option<U>,
    now: u64,
    sample: bool,
) -> DeviceModel<U> {
    device_after(before, observations, d, gpu, host_cpu_percent, now, sample)
}

/// `observation_of`, as one opaque step.
#[verifier::opaque]
spec fn tick_observation<U>(
    before: Option<DeviceModel<U>>,
    observations: Seq<PoolObservation>,
    d: u32,
    gpu: Option<GpuSample<U>>,
    now: u64,
) -> Observation<U> {
    observation_of(before, observations, d, gpu, now)
}

/// Device `d` after a tick, and what is reported of it.
fn refresh_device<U: Copy>(
    before: Option<DeviceAdmissionState<U>>,
    observations: &[PoolObservation],
    d: u32,
    gpu: Option<GpuSample<U>>,
    host_cpu_percent: Option<U>,
    now: u64,
    sample: bool,
) -> (r: (DeviceAdmissionState<U>, Option<Observation<U>>))
    ensures
        ({
            let model = match before {
                Some(state) => Some(state@),
                None => None,
            };
            &&& r.0@ == tick_state(
                model,
                observations@,
                d,
                gpu,
                host_cpu_percent,
                now,
                sample,
            )
            &&& r.1 == if sample {
                Some(tick_observation(model, observations@, d, gpu, now))
            } else {
                None
            }
        }),
{
    reveal(tick_state);
    reveal(tick_observation);
    let (limit, active, completed) = device_totals(observations, d);
    let (mut admission, known) = match before {
        Some(state) => (state.admission, state.pools),
        None => {
            let none: Vec<(String, DevicePoolState)> = Vec::new();
            assert(crate::admission::fair_share::entries(none@) =~= Seq::empty());
            (PoolAdmissionState::new(limit, now, completed), none)
        },
    };
    let pools = refresh_pools(observations, d, &known);
    admission.update_ceiling(limit, now, completed);
    let report = if sample {
        Some(admission.observe(now, active, completed, gpu, host_cpu_percent))
    } else {
        None
    };
    (DeviceAdmissionState { admission, pools }, report)
}

/// The samples of a tick.
pub open spec fn samples_of<U>(gpu: Option<&HashMap<u32, GpuSample<U>>>) -> Option<
    Map<u32, GpuSample<U>>,
> {
    match gpu {
        Some(samples) => Some(samples@),
        None => None,
    }
}

/// The sample of one device.
fn find_sample<U: Copy>(gpu: Option<&HashMap<u32, GpuSample<U>>>, d: u32) -> (r: Option<
    GpuSample<U>,
>)
    ensures
        r == sample_of(samples_of(gpu), d),
{
    match gpu {
        Some(samples) => match samples.get(&d) {
            Some(sample) => Some(*sample),
            None => None,
        },
        None => None,
    }
}

impl<U> AdmissionRegistry<U> {
    /// The state of device `d`.
    pub closed spec fn device(&self, d: u32) -> Option<DeviceModel<U>> {
        device_in(self.devices@, d)
    }

    /// The device that governs the pool `name`.
    pub closed spec fn device_of(&self, name: Seq<char>) -> Option<u32> {
        device_of_in(self.pool_devices@, name)
    }

    /// Every device is well-formed.
    pub open spec fn wf(&self) -> bool {
        forall|d: u32| (#[trigger] self.device(d)) matches Some(model) ==> model.wf()
    }

    /// No device has a state and no pool a device.
    pub open spec fn is_blank(&self) -> bool {
        &&& forall|d: u32| (#[trigger] self.device(d)) is None
        &&& forall|name: Seq<char>| (#[trigger] self.device_of(name)) is None
    }

    /// Nothing but device `d` differs from `before`, and it is `model`.
    pub open spec fn differs_at(&self, before: &Self, d: u32, model: DeviceModel<U>) -> bool {
        &&& self.device(d) == Some(model)
        &&& forall|e: u32| e != d ==> #[trigger] self.device(e) == before.device(e)
        &&& forall|name: Seq<char>| #[trigger] self.device_of(name) == before.device_of(name)
    }

    /// Nothing differs from `before`.
    pub open spec fn same_as(&self, before: &Self) -> bool {
        &&& forall|d: u32| #[trigger] self.device(d) == before.device(d)
        &&& forall|name: Seq<char>| #[trigger] self.device_of(name) == before.device_of(name)
    }

    /// The registry after a tick that started at `before`.
    pub open spec fn ticked(
        &self,
        before: &Self,
        observations: Seq<PoolObservation>,
        gpu: Option<Map<u32, GpuSample<U>>>,
        host_cpu_percent: Option<U>,
        now: u64,
        sample: bool,
    ) -> bool {
        &&& forall|d: u32| #[trigger]
            self.device(d) == if live(observations, d) {
                Some(
                    device_after(
                        before.device(d),
                        observations,
                        d,
                        sample_of(gpu, d),
                        host_cpu_percent,
                        now,
                        sample,
                    ),
                )
            } else {
                None
            }
        &&& forall|name: Seq<char>| #[trigger]
            self.device_of(name) == assigned(observations, name)
    }

    /// The report of a sampling tick that started at `before`.
    pub open spec fn tick_report(
        before: &Self,
        report: Seq<(u32, Observation<U>)>,
        observations: Seq<PoolObservation>,
        gpu: Option<Map<u32, GpuSample<U>>>,
        now: u64,
    ) -> bool {
        &&& forall|d: u32| #[trigger]
            reported(report, d) == if live(observations, d) {
                Some(observation_of(before.device(d), observations, d, sample_of(gpu, d), now))
            } else {
                None
            }
        &&& reported_once(report)
    }

    /// A registry without devices.
    pub fn new() -> (r: Self)
        ensures
            r.is_blank(),
            r.wf(),
    {
        AdmissionRegistry { devices: Vec::new(), pool_devices: Vec::new() }
    }
}

impl<U> Default for AdmissionRegistry<U> {
    fn default() -> (r: Self)
        ensures
            r.is_blank(),
            r.wf(),
    {
        AdmissionRegistry::new()
    }
}

impl<U: Copy> AdmissionRegistry<U> {
    /// Record that a caller had work but could not claim another resident slot.
    pub fn note_blocked(&mut self, pool_name: &str, now: u64)
        ensures
            match old(self).device_of(pool_name@) {
                Some(d) => match old(self).device(d) {
                    Some(model) => final(self).differs_at(
                        old(self),
                        d,
                        device_blocked(model, pool_name@, now),
                    ),
                    None => final(self).same_as(old(self)),
                },
                None => final(self).same_as(old(self)),
            },
            old(self).wf() ==> final(self).wf(),
    {
        let d: u32 = match find_assignment(&self.pool_devices, pool_name) {
            Some(d) => d,
            None => {
                return;
            },
        };
        if let Some(i) = find_device(&self.devices, d) {
            let ghost before = self.devices@;
            let mut device = self.devices.remove(i).1;
            let ghost model = device@;
            device.admission.last_blocked = Some(now);
            match find_index(&device.pools, pool_name) {
                Some(k) => {
                    let ghost e = model.pools;
                    let state = DevicePoolState { last_demand: Some(now), ..device.pools[k].1 };
                    let name = device.pools[k].0.clone();
                    proof {
                        assert forall|j: int| k < j < e.len() implies (#[trigger] e[j]).0
                            != pool_name@ by {
                            assert(device.pools@[j].0@ != pool_name@);
                        }
                        lemma_upserted(e, pool_name@, state, k as int);
                        if crate::admission::fair_share::distinct_names(e) {
                            lemma_upserted_distinct(e, pool_name@, state);
                        }
                    }
                    device.pools.set(k, (name, state));
                    assert(crate::admission::fair_share::entries(device.pools@) =~= e.update(
                        k as int,
                        (pool_name@, state),
                    ));
                },
                None => {},
            }
            assert(device@ == device_blocked(model, pool_name@, now));
            let ghost after = device;
            self.devices.insert(i, (d, device));
            proof {
                assert(self.devices@ =~= before.update(i as int, (before[i as int].0, after)));
                assert forall|e: u32| #[trigger] self.device(e) == if e == d {
                    Some(after@)
                } else {
                    device_in(before, e)
                } by {
                    lemma_update_device(before, i as int, after, e);
                }
                if old(self).wf() {
                    assert forall|e: u32| (#[trigger] self.device(e)) matches Some(m)
                        ==> m.wf() by {
                        assert(old(self).device(e) == device_in(before, e));
                    }
                }
            }
        }
    }

    /// Current dynamic pool and device claim limits. `None` means the pool uses
    /// its static `max_active` and ready-slot behavior.
    pub fn limit(&mut self, pool: &ForkPoolRecord, now: u64) -> (r: Option<ForkPoolAdmissionLimit>)
        ensures
            match pool.admission_device() {
                _ if !pool.auto_admission => r is None && final(self).same_as(old(self)),
                None => r == Some(
                    ForkPoolAdmissionLimit { pool: pool_ceiling(*pool), device: pool_ceiling(*pool) },
                ) && final(self).same_as(old(self)),
                Some(d) => match old(self).device(d) {
                    None => r == Some(
                        ForkPoolAdmissionLimit {
                            pool: pool_ceiling(*pool),
                            device: pool_ceiling(*pool),
                        },
                    ) && final(self).same_as(old(self)),
                    Some(model) => {
                        let pools = with_pool(model.pools, *pool);
                        &&& r matches Some(limit)
                        &&& limit.device == model.admission.effective_limit
                        &&& limit.pool as nat == crate::admission::fair_share::fair_limit(
                            pools,
                            pool.name@,
                            limit.device,
                            now,
                            true,
                        )
                        &&& final(self).differs_at(
                            old(self),
                            d,
                            DeviceModel { admission: model.admission, pools },
                        )
                    },
                },
            },
            old(self).wf() ==> final(self).wf(),
    {
        if !pool.auto_admission {
            return None;
        }
        let fallback: u32 = ceiling(pool);
        let d: u32 = match pool.admission_device_ordinal() {
            Some(d) => d,
            None => {
                return Some(ForkPoolAdmissionLimit { pool: fallback, device: fallback });
            },
        };
        let i: usize = match find_device(&self.devices, d) {
            Some(i) => i,
            None => {
                return Some(ForkPoolAdmissionLimit { pool: fallback, device: fallback });
            },
        };
        let ghost before = self.devices@;
        let mut device = self.devices.remove(i).1;
        let ghost model = device@;
        if find_pool(&device.pools, pool.name.as_str()).is_none() {
            let ghost e = model.pools;
            let state = DevicePoolState { ceiling: fallback, active: 0, last_demand: None };
            device.pools.push((pool.name.clone(), state));
            proof {
                assert(crate::admission::fair_share::entries(device.pools@) =~= e.push(
                    (pool.name@, state),
                ));
                lemma_upserted_new(e, pool.name@, state);
                if crate::admission::fair_share::distinct_names(e) {
                    lemma_upserted_distinct(e, pool.name@, state);
                }
            }
        }
        let device_limit: u32 = device.admission.effective_limit;
        let pool_limit: u32 = fair_pool_limit(
            &device.pools,
            pool.name.as_str(),
            device_limit,
            now,
            true,
        );
        assert(device@ == (DeviceModel {
            admission: model.admission,
            pools: with_pool(model.pools, *pool),
        }));
        let ghost after = device;
        self.devices.insert(i, (d, device));
        proof {
            assert(self.devices@ =~= before.update(i as int, (before[i as int].0, after)));
            assert forall|e: u32| #[trigger] self.device(e) == if e == d {
                Some(after@)
            } else {
                device_in(before, e)
            } by {
                lemma_update_device(before, i as int, after, e);
            }
            if old(self).wf() {
                assert forall|e: u32| (#[trigger] self.device(e)) matches Some(m)
                    ==> m.wf() by {
                    assert(old(self).device(e) == device_in(before, e));
                }
            }
        }
        Some(ForkPoolAdmissionLimit { pool: pool_limit, device: device_limit })
    }

    /// Return the latest published telemetry and decision for an automatic pool.
    pub fn snapshot(&self, pool: &ForkPoolRecord, now: u64) -> (r: Option<AdmissionSnapshot<U>>)
        ensures
            match pool.admission_device() {
                Some(d) if pool.auto_admission => match self.device(d) {
                    Some(model) => r matches Some(snapshot) && snapshot@ == snapshot_of(
                        model,
                        d,
                        pool.name@,
                        now,
                    ),
                    None => r is None,
                },
                _ => r is None,
            },
    {
        if !pool.auto_admission {
            return None;
        }
        let d: u32 = match pool.admission_device_ordinal() {
            Some(d) => d,
            None => {
                return None;
            },
        };
        let i: usize = match find_device(&self.devices, d) {
            Some(i) => i,
            None => {
                return None;
            },
        };
        let device = &self.devices[i].1;
        let mut snapshot = device.admission.snapshot();
        snapshot.device_limit = snapshot.effective_limit;
        snapshot.device_ordinal = d;
        let pool_limit: u32 = fair_pool_limit(
            &device.pools,
            pool.name.as_str(),
            snapshot.effective_limit,
            now,
            true,
        );
        if device.pools.len() > 1 {
            let mut reason = "CUDA device ".to_owned();
            reason.append(to_decimal(d as u64).as_str());
            reason.append(" limit ");
            reason.append(to_decimal(snapshot.effective_limit as u64).as_str());
            reason.append("; pool fair share ");
            reason.append(to_decimal(pool_limit as u64).as_str());
            reason.append(": ");
            reason.append(snapshot.reason.as_str());
            snapshot.reason = reason;
        }
        snapshot.effective_limit = pool_limit;
        Some(snapshot)
    }

    /// Brings the registry up to a controller tick and, where asked to, records
    /// a telemetry sample for each device.
    pub fn update_pools_at(
        &mut self,
        observations: &[PoolObservation],
        gpu: Option<&HashMap<u32, GpuSample<U>>>,
        host_cpu_percent: Option<U>,
        now: u64,
        sample: bool,
    ) -> (r: Vec<(u32, Observation<U>)>)
        ensures
            final(self).ticked(
                old(self),
                observations@,
                samples_of(gpu),
                host_cpu_percent,
                now,
                sample,
            ),
            sample ==> Self::tick_report(old(self), r@, observations@, samples_of(gpu), now),
            !sample ==> r@.len() == 0,
            old(self).wf() ==> final(self).wf(),
    {
        let ghost start = self.devices@;
        let ghost samples = samples_of(gpu);
        let mut devices: Vec<(u32, DeviceAdmissionState<U>)> = Vec::new();
        let mut report: Vec<(u32, Observation<U>)> = Vec::new();
        assert(observations@.take(0) =~= Seq::empty());
        for i in 0..observations.len()
            invariant
                samples == samples_of(gpu),
                forall|d: u32| #[trigger]
                    device_in(devices@, d) == if live(observations@.take(i as int), d) {
                        Some(
                            tick_state(
                                device_in(start, d),
                                observations@,
                                d,
                                sample_of(samples, d),
                                host_cpu_percent,
                                now,
                                sample,
                            ),
                        )
                    } else {
                        None
                    },
                sample ==> forall|d: u32| #[trigger]
                    reported(report@, d) == if live(observations@.take(i as int), d) {
                        Some(
                            tick_observation(
                                device_in(start, d),
                                observations@,
                                d,
                                sample_of(samples, d),
                                now,
                            ),
                        )
                    } else {
                        None
                    },
                !sample ==> report@.len() == 0,
                reported_once(report@),
                forall|d: u32|
                    !live(observations@.take(i as int), d) ==> #[trigger] device_in(
                        self.devices@,
                        d,
                    ) == device_in(start, d),
                self.pool_devices@ == old(self).pool_devices@,
        {
            assert(observations@.take(i + 1).drop_last() =~= observations@.take(i as int));
            let pool = &observations[i].0;
            if !pool.deleting && pool.auto_admission {
                if let Some(d) = pool.admission_device_ordinal() {
                    if find_device(&devices, d).is_none() {
                        let ghost listed = devices@;
                        let ghost told = report@;
                        assert(device_in(devices@, d) is None);
                        let taken = take_device(&mut self.devices, d);
                        let (state, observation) = refresh_device(
                            taken,
                            observations,
                            d,
                            find_sample(gpu, d),
                            host_cpu_percent,
                            now,
                            sample,
                        );
                        devices.push((d, state));
                        assert(devices@.drop_last() =~= listed);
                        if let Some(observation) = observation {
                            proof {
                                lemma_not_reported(report@, d);
                            }
                            report.push((d, observation));
                            assert(report@.drop_last() =~= told);
                        }
                        assert forall|e: u32| e != d implies #[trigger] reported(report@, e)
                            == reported(told, e) by {}
                        assert forall|e: u32| e != d implies #[trigger] device_in(devices@, e)
                            == device_in(listed, e) by {}
                    }
                }
            }
        }
        assert(observations@.take(observations@.len() as int) =~= observations@);
        self.devices = devices;
        self.pool_devices = assign_pools(observations);
        proof {
            reveal(tick_state);
            reveal(tick_observation);
            if old(self).wf() {
                assert forall|d: u32| (#[trigger] self.device(d)) matches Some(model)
                    ==> model.wf() by {
                    let _ = old(self).device(d);
                    lemma_device_after_wf(
                        old(self).device(d),
                        observations@,
                        d,
                        sample_of(samples, d),
                        host_cpu_percent,
                        now,
                        sample,
                    );
                }
            }
        }
        report
    }

    /// Feed one controller-tick observation into a pool's calibration state.
    pub fn observe(
        &mut self,
        pool: &ForkPoolRecord,
        active: u32,
        completed_total: u64,
        gpu: Option<GpuSample<U>>,
        host_cpu_percent: Option<U>,
        now: u64,
    ) -> (r: Vec<(u32, Observation<U>)>)
        ensures
            ({
                let observations = seq![(*pool, active, completed_total)];
                let samples = match gpu {
                    Some(sample) => Some(map![sample.device_ordinal => sample]),
                    None => None,
                };
                &&& final(self).ticked(
                    old(self),
                    observations,
                    samples,
                    host_cpu_percent,
                    now,
                    true,
                )
                &&& Self::tick_report(old(self), r@, observations, samples, now)
            }),
            old(self).wf() ==> final(self).wf(),
    {
        let mut observations: Vec<PoolObservation> = Vec::new();
        observations.push((pool.clone(), active, completed_total));
        assert(observations@ =~= seq![(*pool, active, completed_total)]);
        match gpu {
            Some(sample) => {
                let mut samples: HashMap<u32, GpuSample<U>> = HashMap::new();
                samples.insert(sample.device_ordinal, sample);
                assert(samples@ =~= map![sample.device_ordinal => sample]);
                self.update_pools_at(
                    observations.as_slice(),
                    Some(&samples),
                    host_cpu_percent,
                    now,
                    true,
                )
            },
            None => self.update_pools_at(
                observations.as_slice(),
                None,
                host_cpu_percent,
                now,
                true,
            ),
        }
    }

    /// Feed a full controller tick into device-scoped calibration states.
    pub fn observe_pools(
        &mut self,
        observations: &[PoolObservation],
        gpu: Option<&HashMap<u32, GpuSample<U>>>,
        host_cpu_percent: Option<U>,
        now: u64,
    ) -> (r: Vec<(u32, Observation<U>)>)
        ensures
            final(self).ticked(
                old(self),
                observations@,
                samples_of(gpu),
                host_cpu_percent,
                now,
                true,
            ),
            Self::tick_report(old(self), r@, observations@, samples_of(gpu), now),
            old(self).wf() ==> final(self).wf(),
    {
        self.update_pools_at(observations, gpu, host_cpu_percent, now, true)
    }

    /// Synchronize pool topology, activity, and ceilings without adding a
    /// telemetry sample. Event-driven reconciliation uses this so mutations
    /// become immediately claimable without shortening calibration windows.
    pub fn ensure_pools(&mut self, observations: &[PoolObservation], now: u64)
        ensures
            final(self).ticked(old(self), observations@, None, None, now, false),
            old(self).wf() ==> final(self).wf(),
    {
        self.update_pools_at(observations, None, None, now, false);
    }

    /// Hands the averages of a complete window to its device.
    pub fn conclude(
        &mut self,
        device_ordinal: u32,
        evaluation: &Evaluation<U>,
        judgement: &Judgement<U>,
    )
        ensures
            match old(self).device(device_ordinal) {
                Some(model) => final(self).differs_at(
                    old(self),
                    device_ordinal,
                    DeviceModel {
                        admission: model.admission.concluded(*evaluation, *judgement),
                        pools: model.pools,
                    },
                ),
                None => final(self).same_as(old(self)),
            },
            old(self).wf() ==> final(self).wf(),
    {
        if let Some(i) = find_device(&self.devices, device_ordinal) {
            let ghost before = self.devices@;
            let mut device = self.devices.remove(i).1;
            device.admission.conclude(evaluation, judgement);
            let ghost after = device;
            self.devices.insert(i, (device_ordinal, device));
            proof {
                assert(self.devices@ =~= before.update(i as int, (before[i as int].0, after)));
                assert forall|e: u32| #[trigger] self.device(e) == if e == device_ordinal {
                    Some(after@)
                } else {
                    device_in(before, e)
                } by {
                    lemma_update_device(before, i as int, after, e);
                }
                if old(self).wf() {
                    assert forall|e: u32| (#[trigger] self.device(e)) matches Some(m)
                        ==> m.wf() by {
                        assert(old(self).device(e) == device_in(before, e));
                    }
                }
            }
        }
    }
}

/// What happens to one device does not depend on the pools of another: an
/// observation of a pool elsewhere changes nothing.
pub proof fn law_devices_are_independent<U>(
    before: Option<DeviceModel<U>>,
    observations: Seq<PoolObservation>,
    other: PoolObservation,
    d: u32,
    gpu: Option<GpuSample<U>>,
    host_cpu_percent: Option<U>,
    now: u64,
    sample: bool,
)
    requires
        !on_device(other, d),
    ensures
        device_after(before, observations.push(other), d, gpu, host_cpu_percent, now, sample)
            == device_after(before, observations, d, gpu, host_cpu_percent, now, sample),
        live(observations.push(other), d) == live(observations, d),
{
    assert(observations.push(other).drop_last() =~= observations);
}

/// Synchronizing without a sample leaves the calibration of a device untouched
/// as long as its ceiling stays.
pub proof fn law_event_sync_keeps_calibration<U>(
    model: DeviceModel<U>,
    observations: Seq<PoolObservation>,
    d: u32,
    now: u64,
)
    requires
        device_ceiling(observations, d) == model.admission.ceiling,
    ensures
        device_after(Some(model), observations, d, None, None, now, false).admission
            == model.admission,
{
}

/// The observations of device `d` are those that its model holds: every
/// automatic pool is listed with its ceiling and its active leases, every listed
/// pool is observed, and the ceiling of the device stays.
pub open spec fn unchanged<U>(
    model: DeviceModel<U>,
    observations: Seq<PoolObservation>,
    d: u32,
) -> bool {
    &&& device_ceiling(observations, d) == model.admission.ceiling
    &&& forall|i: int|
        0 <= i < observations.len() && automatic_on(#[trigger] observations[i], d) ==> (
        crate::admission::fair_share::pool_named(
            model.pools,
            observations[i].0.name@,
        ) matches Some(pool) && pool.ceiling == pool_ceiling(observations[i].0) && pool.active
            == observations[i].1)
    &&& forall|j: int|
        0 <= j < model.pools.len() ==> observed_on(observations, d, (#[trigger] model.pools[j]).0)
}

/// Pool `name` is observed as a live automatic pool of device `d`.
pub open spec fn observed_on(observations: Seq<PoolObservation>, d: u32, name: Seq<char>) -> bool {
    exists|i: int|
        0 <= i < observations.len() && automatic_on(#[trigger] observations[i], d)
            && observations[i].0.name@ == name
}

/// Synchronizing without a sample changes nothing that is published: where
/// ceilings and activity stay, every pool of the device has the snapshot that
/// it had, and the device stays governed.
pub proof fn law_event_sync_keeps_snapshots<U>(
    model: DeviceModel<U>,
    observations: Seq<PoolObservation>,
    d: u32,
    now: u64,
    name: Seq<char>,
    at: u64,
)
    requires
        model.wf(),
        unchanged(model, observations, d),
    ensures
        snapshot_of(
            device_after(Some(model), observations, d, None, None, now, false),
            d,
            name,
            at,
        ) == snapshot_of(model, d, name, at),
        model.pools.len() > 0 ==> live(observations, d),
{
    let after = pools_after(observations, d, model.pools);
    law_event_sync_keeps_calibration(model, observations, d, now);
    lemma_pools_after_distinct(observations, d, model.pools);
    assert forall|n: Seq<char>|
        crate::admission::fair_share::pool_named(after, n)
            == crate::admission::fair_share::pool_named(model.pools, n) by {
        law_listed_pools_are_live(observations, d, model.pools, n);
        lemma_unchanged_pool(model, observations, d, n);
        if crate::admission::fair_share::pool_named(model.pools, n) is Some {
            let j = lemma_position(model.pools, n);
            assert(observed_on(observations, d, model.pools[j].0));
        }
    }
    lemma_same_pools(after, model.pools);
    crate::admission::fair_share::law_order_of_pools_is_irrelevant(
        after,
        model.pools,
        name,
        model.admission.published().effective_limit,
        at,
        true,
    );
    if model.pools.len() > 0 {
        assert(observed_on(observations, d, model.pools[0].0));
        let i = choose|i: int|
            0 <= i < observations.len() && automatic_on(#[trigger] observations[i], d);
        lemma_live(observations, d, i);
    }
}

/// What a tick with known ceilings and activity lists of a pool was known.
proof fn lemma_unchanged_pool<U>(
    model: DeviceModel<U>,
    observations: Seq<PoolObservation>,
    d: u32,
    name: Seq<char>,
)
    requires
        forall|i: int|
            0 <= i < observations.len() && automatic_on(#[trigger] observations[i], d) ==> (
            crate::admission::fair_share::pool_named(
                model.pools,
                observations[i].0.name@,
            ) matches Some(pool) && pool.ceiling == pool_ceiling(observations[i].0) && pool.active
                == observations[i].1),
    ensures
        crate::admission::fair_share::pool_named(
            pools_after(observations, d, model.pools),
            name,
        ) matches Some(pool) ==> crate::admission::fair_share::pool_named(model.pools, name)
            == Some(pool),
    decreases observations.len(),
{
    if observations.len() > 0 {
        let init = observations.drop_last();
        let last = observations.last();
        assert forall|i: int|
            0 <= i < init.len() && automatic_on(#[trigger] init[i], d) implies (
            crate::admission::fair_share::pool_named(
                model.pools,
                init[i].0.name@,
            ) matches Some(pool) && pool.ceiling == pool_ceiling(init[i].0) && pool.active
                == init[i].1) by {
            assert(init[i] == observations[i]);
        }
        lemma_unchanged_pool(model, init, d, name);
        if automatic_on(last, d) {
            assert(observations[observations.len() - 1] == last);
            lemma_named_after_upsert(
                pools_after(init, d, model.pools),
                last.0.name@,
                DevicePoolState {
                    ceiling: pool_ceiling(last.0),
                    active: last.1,
                    last_demand: known_demand(model.pools, last.0.name@),
                },
                name,
            );
        }
    }
}

/// Two lists that say the same of every name hold the same entries.
proof fn lemma_same_pools(a: Seq<PoolEntry>, b: Seq<PoolEntry>)
    requires
        crate::admission::fair_share::distinct_names(a),
        crate::admission::fair_share::distinct_names(b),
        forall|n: Seq<char>|
            crate::admission::fair_share::pool_named(a, n)
                == crate::admission::fair_share::pool_named(b, n),
    ensures
        a.to_multiset() == b.to_multiset(),
        a.len() == b.len(),
{
    assert(a.no_duplicates());
    assert(b.no_duplicates());
    a.lemma_multiset_has_no_duplicates();
    b.lemma_multiset_has_no_duplicates();
    assert forall|e: PoolEntry| a.to_multiset().count(e) == b.to_multiset().count(e) by {
        a.to_multiset_ensures();
        b.to_multiset_ensures();
        lemma_listed(a, e);
        lemma_listed(b, e);
        assert(a.contains(e) == b.contains(e));
        assert(a.to_multiset().contains(e) == a.contains(e));
        assert(b.to_multiset().contains(e) == b.contains(e));
    }
    assert(a.to_multiset() =~= b.to_multiset());
    a.to_multiset_ensures();
    b.to_multiset_ensures();
}

/// An entry is in the list exactly if it is what the list says of its name.
proof fn lemma_listed(pools: Seq<PoolEntry>, entry: PoolEntry)
    requires
        crate::admission::fair_share::distinct_names(pools),
    ensures
        pools.contains(entry) == (crate::admission::fair_share::pool_named(pools, entry.0)
            == Some(entry.1)),
{
    if crate::admission::fair_share::pool_named(pools, entry.0) is Some {
        let i = lemma_position(pools, entry.0);
        lemma_upserted(pools, entry.0, entry.1, i);
        if pools[i].1 == entry.1 {
            assert(pools[i] == entry);
        }
    } else {
        lemma_no_position(pools, entry.0);
    }
}

/// A device that governs an observed automatic pool is live.
proof fn lemma_live(observations: Seq<PoolObservation>, d: u32, i: int)
    requires
        0 <= i < observations.len(),
        automatic_on(observations[i], d),
    ensures
        live(observations, d),
    decreases observations.len(),
{
    if i < observations.len() - 1 {
        lemma_live(observations.drop_last(), d, i);
    }
}

/// A device that a tick first sees starts calibrating below its ceiling.
pub proof fn law_new_device_starts_at_initial_limit<U>(
    observations: Seq<PoolObservation>,
    d: u32,
    now: u64,
)
    ensures
        device_after::<U>(
            None,
            observations,
            d,
            None,
            None,
            now,
            false,
        ).admission.effective_limit == crate::admission::calibration::initial_limit_of(
            device_ceiling(observations, d),
        ),
{
}

/// A pool is listed on a device after a tick exactly if it was observed there
/// as a live automatic pool.
pub proof fn law_listed_pools_are_live(
    observations: Seq<PoolObservation>,
    d: u32,
    known: Seq<PoolEntry>,
    name: Seq<char>,
)
    ensures
        crate::admission::fair_share::pool_named(pools_after(observations, d, known), name)
            is Some <==> exists|i: int|
            0 <= i < observations.len() && automatic_on(#[trigger] observations[i], d)
                && observations[i].0.name@ == name,
    decreases observations.len(),
{
    if observations.len() > 0 {
        let init = observations.drop_last();
        let last = observations.last();
        law_listed_pools_are_live(init, d, known, name);
        let pools = pools_after(init, d, known);
        if automatic_on(last, d) {
            let state = DevicePoolState {
                ceiling: pool_ceiling(last.0),
                active: last.1,
                last_demand: known_demand(known, last.0.name@),
            };
            lemma_named_after_upsert(pools, last.0.name@, state, name);
        }
        if exists|i: int|
            0 <= i < init.len() && automatic_on(#[trigger] init[i], d) && init[i].0.name@ == name {
            let i = choose|i: int|
                0 <= i < init.len() && automatic_on(#[trigger] init[i], d) && init[i].0.name@
                    == name;
            assert(observations[i] == init[i]);
        }
        if exists|i: int|
            0 <= i < observations.len() && automatic_on(#[trigger] observations[i], d)
                && observations[i].0.name@ == name {
            let i = choose|i: int|
                0 <= i < observations.len() && automatic_on(#[trigger] observations[i], d)
                    && observations[i].0.name@ == name;
            if i < init.len() {
                assert(init[i] == observations[i]);
            }
        }
        assert(observations[observations.len() - 1] == last);
    }
}

proof fn lemma_named_after_upsert(
    pools: Seq<PoolEntry>,
    name: Seq<char>,
    state: DevicePoolState,
    wanted: Seq<char>,
)
    ensures
        crate::admission::fair_share::pool_named(upserted(pools, name, state), wanted) == if wanted
            == name {
            Some(state)
        } else {
            crate::admission::fair_share::pool_named(pools, wanted)
        },
    decreases pools.len(),
{
    let after = upserted(pools, name, state);
    if pools.len() == 0 {
        assert(after.drop_last() =~= pools);
    } else if pools.last().0 == name {
        assert(after.drop_last() =~= pools.drop_last());
    } else if crate::admission::fair_share::pool_named(pools.drop_last(), name) is Some {
        lemma_named_after_upsert(pools.drop_last(), name, state, wanted);
        assert(after.drop_last() =~= upserted(pools.drop_last(), name, state));
    } else {
        assert(after.drop_last() =~= pools);
    }
}

/// Most active leases of a pool: the smaller of what is kept ready and what is
/// allowed, and at least one.
pub proof fn law_pool_ceiling_is_the_smaller(pool: ForkPoolRecord)
    ensures
        pool_ceiling(pool) >= 1,
        pool.desired_ready == 0 ==> pool_ceiling(pool) == 1,
        pool.max_active == Some(0u32) ==> pool_ceiling(pool) == 1,
        pool.desired_ready >= 1 && pool.max_active is None ==> pool_ceiling(pool)
            == pool.desired_ready,
        pool.max_active matches Some(most) ==> (most >= 1 && pool.desired_ready >= 1 ==> {
            &&& pool_ceiling(pool) <= most && pool_ceiling(pool) <= pool.desired_ready
            &&& pool_ceiling(pool) == most || pool_ceiling(pool) == pool.desired_ready
        }),
{
}

/// The observation is of a live pool whose golden runs on device `d`. A pool
/// that shares CUDA allocations without naming a device is on device zero.
pub open spec fn runs_on(o: PoolObservation, d: u32) -> bool {
    !o.0.deleting && (match o.0.cuda_device_ordinal {
        Some(ordinal) => ordinal == d,
        None => o.0.share_weights && d == 0,
    })
}

/// What each observation adds to the totals of a device: a live pool its active
/// and completed leases, and an automatic one its ceiling too.
pub proof fn law_device_totals_add_up(
    observations: Seq<PoolObservation>,
    o: PoolObservation,
    d: u32,
)
    ensures
        active_sum(Seq::empty(), d) == 0 && completed_sum(Seq::empty(), d) == 0 && ceiling_sum(
            Seq::empty(),
            d,
        ) == 0,
        active_sum(observations.push(o), d) == active_sum(observations, d) + if runs_on(o, d) {
            o.1 as nat
        } else {
            0
        },
        completed_sum(observations.push(o), d) == completed_sum(observations, d) + if runs_on(o, d) {
            o.2 as nat
        } else {
            0
        },
        ceiling_sum(observations.push(o), d) == ceiling_sum(observations, d) + if runs_on(o, d)
            && o.0.auto_admission {
            pool_ceiling(o.0) as nat
        } else {
            0
        },
{
    assert(observations.push(o).drop_last() =~= observations);
}

/// A tick takes the totals of a device over: a known device gets their ceiling
/// and, where one is taken, one sample with all its active and completed leases.
pub proof fn law_tick_feeds_the_totals<U>(
    model: DeviceModel<U>,
    observations: Seq<PoolObservation>,
    d: u32,
    gpu: Option<GpuSample<U>>,
    host_cpu_percent: Option<U>,
    now: u64,
    ceiling: u32,
    active: u32,
    completed: u64,
)
    requires
        ceiling_sum(observations, d) == ceiling,
        ceiling >= 1,
        active_sum(observations, d) == active,
        completed_sum(observations, d) == completed,
    ensures
        ({
            let base = model.admission.with_ceiling(ceiling, now, completed);
            &&& device_after(
                Some(model),
                observations,
                d,
                gpu,
                host_cpu_percent,
                now,
                true,
            ).admission == base.observed(now, active, completed, gpu, host_cpu_percent)
            &&& observation_of(Some(model), observations, d, gpu, now) == base.observation(
                now,
                active,
                completed,
                gpu,
            )
            &&& device_after(
                Some(model),
                observations,
                d,
                gpu,
                host_cpu_percent,
                now,
                false,
            ).admission == base
        }),
        ({
            let fresh = Calibration::<U>::initial(ceiling, now, completed);
            &&& device_after(None, observations, d, gpu, host_cpu_percent, now, true).admission
                == fresh.observed(now, active, completed, gpu, host_cpu_percent)
            &&& observation_of(None, observations, d, gpu, now) == fresh.observation(
                now,
                active,
                completed,
                gpu,
            )
            &&& device_after(
                None,
                observations,
                d,
                gpu,
                host_cpu_percent,
                now,
                false,
            ).admission == fresh
        }),
{
}

/// Totals that do not fit count as the largest number that does.
pub proof fn law_totals_saturate<U>(
    model: DeviceModel<U>,
    observations: Seq<PoolObservation>,
    d: u32,
    gpu: GpuSample<U>,
    host_cpu_percent: Option<U>,
    now: u64,
)
    requires
        !model.admission.telemetry_failed_open,
    ensures
        ({
            let after = device_after(
                Some(model),
                observations,
                d,
                Some(gpu),
                host_cpu_percent,
                now,
                true,
            ).admission;
            &&& ceiling_sum(observations, d) > u32::MAX ==> after.ceiling == u32::MAX
            &&& ceiling_sum(observations, d) == 0 ==> after.ceiling == 1
            &&& active_sum(observations, d) > u32::MAX ==> after.observed_active == u32::MAX
            &&& active_sum(observations, d) <= u32::MAX ==> after.observed_active == active_sum(
                observations,
                d,
            )
        }),
{
}

/// A device is governed exactly if some live automatic pool runs on it.
pub proof fn law_live_devices_have_automatic_pools(observations: Seq<PoolObservation>, d: u32)
    ensures
        live(observations, d) <==> exists|i: int|
            0 <= i < observations.len() && runs_on(#[trigger] observations[i], d)
                && observations[i].0.auto_admission,
    decreases observations.len(),
{
    if observations.len() > 0 {
        let init = observations.drop_last();
        law_live_devices_have_automatic_pools(init, d);
        assert(observations[observations.len() - 1] == observations.last());
        if live(init, d) {
            let i = choose|i: int|
                0 <= i < init.len() && runs_on(#[trigger] init[i], d) && init[i].0.auto_admission;
            assert(observations[i] == init[i]);
        }
        if exists|i: int|
            0 <= i < observations.len() && runs_on(#[trigger] observations[i], d)
                && observations[i].0.auto_admission {
            let i = choose|i: int|
                0 <= i < observations.len() && runs_on(#[trigger] observations[i], d)
                    && observations[i].0.auto_admission;
            if i < init.len() {
                assert(init[i] == observations[i]);
            }
        }
    }
}

/// A tick lists each automatic pool with its configured ceiling and its active
/// leases, and remembers its demand. The last observation of a pool counts.
pub proof fn law_tick_refreshes_the_pools(
    observations: Seq<PoolObservation>,
    d: u32,
    known: Seq<PoolEntry>,
    i: int,
)
    requires
        0 <= i < observations.len(),
        runs_on(observations[i], d),
        observations[i].0.auto_admission,
        forall|j: int|
            i < j < observations.len() && runs_on(#[trigger] observations[j], d)
                && observations[j].0.auto_admission ==> observations[j].0.name@
                != observations[i].0.name@,
    ensures
        ({
            let name = observations[i].0.name@;
            let known_pool = crate::admission::fair_share::pool_named(known, name);
            &&& crate::admission::fair_share::pool_named(
                pools_after(observations, d, known),
                name,
            ) matches Some(pool)
            &&& pool.ceiling == pool_ceiling(observations[i].0)
            &&& pool.active == observations[i].1
            &&& known_pool matches Some(was) ==> pool.last_demand == was.last_demand
            &&& known_pool is None ==> pool.last_demand is None
        }),
    decreases observations.len(),
{
    let init = observations.drop_last();
    let last = observations.last();
    let name = observations[i].0.name@;
    if automatic_on(last, d) {
        lemma_named_after_upsert(
            pools_after(init, d, known),
            last.0.name@,
            DevicePoolState {
                ceiling: pool_ceiling(last.0),
                active: last.1,
                last_demand: known_demand(known, last.0.name@),
            },
            name,
        );
    }
    if i < init.len() {
        assert(init[i] == observations[i]);
        assert forall|j: int|
            i < j < init.len() && runs_on(#[trigger] init[j], d)
                && init[j].0.auto_admission implies init[j].0.name@ != init[i].0.name@ by {
            assert(init[j] == observations[j]);
        }
        law_tick_refreshes_the_pools(init, d, known, i);
        assert(observations[observations.len() - 1] == last);
    }
}

/// The observation is of a live automatic pool that some device governs.
pub open spec fn is_governed(o: PoolObservation) -> bool {
    !o.0.deleting && o.0.auto_admission && (o.0.cuda_device_ordinal is Some || o.0.share_weights)
}

/// After a tick a pool belongs to the device of its last observation as a live
/// automatic pool.
pub proof fn law_tick_assigns_the_pools(observations: Seq<PoolObservation>, i: int, d: u32)
    requires
        0 <= i < observations.len(),
        is_governed(observations[i]),
        runs_on(observations[i], d),
        forall|j: int|
            i < j < observations.len() && is_governed(#[trigger] observations[j])
                ==> observations[j].0.name@ != observations[i].0.name@,
    ensures
        assigned(observations, observations[i].0.name@) == Some(d),
    decreases observations.len(),
{
    let init = observations.drop_last();
    assert(observations[observations.len() - 1] == observations.last());
    if i < init.len() {
        assert(init[i] == observations[i]);
        assert forall|j: int|
            i < j < init.len() && is_governed(#[trigger] init[j]) implies init[j].0.name@
            != init[i].0.name@ by {
            assert(init[j] == observations[j]);
        }
        law_tick_assigns_the_pools(init, i, d);
    }
}

/// After a tick a pool that was not observed as a live automatic pool belongs to
/// no device.
pub proof fn law_tick_drops_other_pools(observations: Seq<PoolObservation>, name: Seq<char>)
    requires
        forall|j: int|
            0 <= j < observations.len() && is_governed(#[trigger] observations[j])
                ==> observations[j].0.name@ != name,
    ensures
        assigned(observations, name) is None,
    decreases observations.len(),
{
    if observations.len() > 0 {
        let init = observations.drop_last();
        assert(observations[observations.len() - 1] == observations.last());
        assert forall|j: int|
            0 <= j < init.len() && is_governed(#[trigger] init[j]) implies init[j].0.name@
            != name by {
            assert(init[j] == observations[j]);
        }
        law_tick_drops_other_pools(init, name);
    }
}

/// A tick keeps exactly the devices with live automatic pools and hands each the
/// sample that was taken of it, and of no other.
pub proof fn law_tick_keeps_the_live_devices<U>(
    before: AdmissionRegistry<U>,
    after: AdmissionRegistry<U>,
    observations: Seq<PoolObservation>,
    gpu: Option<Map<u32, GpuSample<U>>>,
    host_cpu_percent: Option<U>,
    now: u64,
    sample: bool,
    d: u32,
)
    requires
        after.ticked(&before, observations, gpu, host_cpu_percent, now, sample),
    ensures
        after.device(d) is Some <==> exists|i: int|
            0 <= i < observations.len() && runs_on(#[trigger] observations[i], d)
                && observations[i].0.auto_admission,
        sample && after.device(d) is Some ==> (after.device(d)->0).admission.latest_gpu == (match gpu {
            Some(samples) => if samples.contains_key(d) {
                Some(samples[d])
            } else {
                None
            },
            None => None,
        }),
        sample && after.device(d) is Some ==> (
        after.device(d)->0).admission.latest_host_cpu_percent == host_cpu_percent,
        after.device(d) is Some && before.device(d) is Some ==> (
        after.device(d)->0).admission.last_blocked == (
        before.device(d)->0).admission.last_blocked,
        after.device(d) is Some && before.device(d) is None ==> (
        after.device(d)->0).admission.last_blocked is None,
{
    law_live_devices_have_automatic_pools(observations, d);
}

/// A blocked caller is remembered for its device and for its pool; nothing else
/// changes.
pub proof fn law_blocked_caller_is_remembered<U>(
    model: DeviceModel<U>,
    name: Seq<char>,
    now: u64,
    other: Seq<char>,
)
    ensures
        ({
            let after = device_blocked(model, name, now);
            let was = crate::admission::fair_share::pool_named(model.pools, name);
            let is = crate::admission::fair_share::pool_named(after.pools, name);
            &&& after.admission.last_blocked == Some(now)
            &&& after.admission == (Calibration {
                last_blocked: after.admission.last_blocked,
                ..model.admission
            })
            &&& was is None ==> after.pools == model.pools
            &&& was matches Some(pool) ==> is == Some(
                DevicePoolState {
                    ceiling: pool.ceiling,
                    active: pool.active,
                    last_demand: Some(now),
                },
            )
            &&& other != name ==> crate::admission::fair_share::pool_named(after.pools, other)
                == crate::admission::fair_share::pool_named(model.pools, other)
        }),
{
    if let Some(pool) = crate::admission::fair_share::pool_named(model.pools, name) {
        let state = DevicePoolState { last_demand: Some(now), ..pool };
        lemma_named_after_upsert(model.pools, name, state, name);
        lemma_named_after_upsert(model.pools, name, state, other);
    }
}

/// Asking for a limit lists the pool, idle and with its configured ceiling,
/// where it was not listed; what was listed stays.
pub proof fn law_asking_lists_the_pool(
    pools: Seq<PoolEntry>,
    pool: ForkPoolRecord,
    other: Seq<char>,
)
    ensures
        ({
            let after = with_pool(pools, pool);
            let was = crate::admission::fair_share::pool_named(pools, pool.name@);
            &&& was is Some ==> after == pools
            &&& was is None ==> crate::admission::fair_share::pool_named(after, pool.name@) == Some(
                DevicePoolState { ceiling: pool_ceiling(pool), active: 0, last_demand: None },
            )
            &&& other != pool.name@ ==> crate::admission::fair_share::pool_named(after, other)
                == crate::admission::fair_share::pool_named(pools, other)
        }),
{
    let entry = (
        pool.name@,
        DevicePoolState { ceiling: pool_ceiling(pool), active: 0, last_demand: None },
    );
    assert(pools.push(entry).drop_last() =~= pools);
}

/// A snapshot shows the limit that asking for it gives, the limit and the
/// telemetry of the device, and the device's reason, which names the share where
/// several pools are listed.
pub proof fn law_snapshot_shows_what_asking_gives<U>(
    model: DeviceModel<U>,
    d: u32,
    pool: ForkPoolRecord,
    now: u64,
)
    requires
        crate::admission::fair_share::pool_named(model.pools, pool.name@) is Some,
    ensures
        ({
            let shown = snapshot_of(model, d, pool.name@, now);
            let device = model.admission;
            let given = crate::admission::fair_share::fair_limit(
                with_pool(model.pools, pool),
                pool.name@,
                device.effective_limit,
                now,
                true,
            );
            &&& shown.effective_limit == given
            &&& shown.device_limit == device.effective_limit
            &&& shown.device_ordinal == d
            &&& shown.calibrating <==> !device.settled
            &&& shown.host_cpu_percent == device.latest_host_cpu_percent
            &&& device.latest_gpu matches Some(gpu) ==> shown.gpu_utilization_percent == Some(
                gpu.utilization_percent,
            ) && shown.gpu_memory_used_mib == Some(gpu.used_memory_mib)
                && shown.gpu_memory_total_mib == Some(gpu.total_memory_mib)
            &&& device.latest_gpu is None ==> shown.gpu_utilization_percent is None
                && shown.gpu_memory_used_mib is None && shown.gpu_memory_total_mib is None
            &&& model.pools.len() == 1 ==> shown.reason == device.reason
            &&& model.pools.len() > 1 ==> shown.reason == "CUDA device "@ + crate::digits::decimal(
                d as nat,
            ) + " limit "@ + crate::digits::decimal(device.effective_limit as nat)
                + "; pool fair share "@ + crate::digits::decimal(given) + ": "@ + device.reason
        }),
{
    crate::admission::fair_share::law_fair_limit_is_bounded(
        model.pools,
        pool.name@,
        model.admission.effective_limit,
        now,
        true,
    );
}

/// A tick reports once of each device with live automatic pools, from the sample
/// that was taken of it, and of nothing else.
pub proof fn law_tick_reports_the_live_devices<U>(
    before: AdmissionRegistry<U>,
    report: Seq<(u32, Observation<U>)>,
    observations: Seq<PoolObservation>,
    gpu: Option<Map<u32, GpuSample<U>>>,
    now: u64,
    d: u32,
)
    requires
        AdmissionRegistry::tick_report(&before, report, observations, gpu, now),
    ensures
        (exists|j: int| 0 <= j < report.len() && (#[trigger] report[j]).0 == d) <==> exists|i: int|
            0 <= i < observations.len() && runs_on(#[trigger] observations[i], d)
                && observations[i].0.auto_admission,
        forall|j: int, k: int|
            0 <= j < report.len() && 0 <= k < report.len() && (#[trigger] report[j]).0 == d && (
            #[trigger] report[k]).0 == d ==> j == k,
        forall|j: int|
            0 <= j < report.len() && (#[trigger] report[j]).0 == d ==> report[j].1
                == observation_of(
                before.device(d),
                observations,
                d,
                (match gpu {
                    Some(samples) => if samples.contains_key(d) {
                        Some(samples[d])
                    } else {
                        None
                    },
                    None => None,
                }),
                now,
            ),
{
    law_live_devices_have_automatic_pools(observations, d);
    lemma_reported(report, d);
    assert(reported(report, d) is Some <==> live(observations, d));
}

/// What is reported of a device is its last entry.
proof fn lemma_reported<U>(report: Seq<(u32, Observation<U>)>, d: u32)
    ensures
        match reported(report, d) {
            Some(o) => exists|j: int|
                0 <= j < report.len() && #[trigger] report[j] == (d, o),
            None => forall|j: int| 0 <= j < report.len() ==> (#[trigger] report[j]).0 != d,
        },
    decreases report.len(),
{
    if report.len() > 0 {
        let rest = report.drop_last();
        lemma_reported(rest, d);
        if report.last().0 == d {
            assert(report[report.len() - 1] == (d, report.last().1));
        } else if let Some(o) = reported(rest, d) {
            let j = choose|j: int| 0 <= j < rest.len() && #[trigger] rest[j] == (d, o);
            assert(report[j] == (d, o));
        } else {
            assert forall|j: int| 0 <= j < report.len() implies (#[trigger] report[j]).0 != d by {
                if j < rest.len() {
                    assert(rest[j].0 != d);
                }
            }
        }
    }
}

/// What is done to one device leaves the others, and where the pools stand, as
/// they were.
pub proof fn law_only_one_device_changes<U>(
    before: AdmissionRegistry<U>,
    after: AdmissionRegistry<U>,
    d: u32,
    model: DeviceModel<U>,
    other: u32,
    name: Seq<char>,
)
    ensures
        after.differs_at(&before, d, model) ==> {
            &&& after.device(d) == Some(model)
            &&& other != d ==> after.device(other) == before.device(other)
            &&& after.device_of(name) == before.device_of(name)
        },
        after.same_as(&before) ==> after.device(other) == before.device(other) && after.device_of(
            name,
        ) == before.device_of(name),
        after.is_blank() ==> after.device(other) is None && after.device_of(name) is None,
{
}

/// After a tick a pool belongs to the device of its last observation as a live
/// automatic pool, and to none if there is no such observation.
pub proof fn law_tick_places_the_pools<U>(
    before: AdmissionRegistry<U>,
    after: AdmissionRegistry<U>,
    observations: Seq<PoolObservation>,
    gpu: Option<Map<u32, GpuSample<U>>>,
    host_cpu_percent: Option<U>,
    now: u64,
    sample: bool,
    name: Seq<char>,
    i: int,
    d: u32,
)
    requires
        after.ticked(&before, observations, gpu, host_cpu_percent, now, sample),
        forall|j: int|
            0 <= j < observations.len() && i < j && is_governed(#[trigger] observations[j])
                ==> observations[j].0.name@ != name,
    ensures
        0 <= i < observations.len() && is_governed(observations[i]) && runs_on(observations[i], d)
            && observations[i].0.name@ == name ==> after.device_of(name) == Some(d),
        i < 0 ==> after.device_of(name) is None,
{
    if 0 <= i < observations.len() && is_governed(observations[i]) && runs_on(observations[i], d)
        && observations[i].0.name@ == name {
        law_tick_assigns_the_pools(observations, i, d);
    }
    if i < 0 {
        law_tick_drops_other_pools(observations, name);
    }
}

/// A pool belongs to the device of the last entry under its name.
pub proof fn law_last_assignment_counts(list: Seq<(String, u32)>, name: Seq<char>, i: int)
    requires
        i < list.len(),
        forall|j: int|
            0 <= j < list.len() && i < j ==> (#[trigger] list[j]).0@ != name,
        i >= 0 ==> list[i].0@ == name,
    ensures
        device_of_in(list, name) == if i >= 0 {
            Some(list[i].1)
        } else {
            None
        },
    decreases list.len(),
{
    if list.len() > 0 {
        let init = list.drop_last();
        assert(list[list.len() - 1] == list.last());
        if i < init.len() {
            assert forall|j: int| 0 <= j < init.len() && i < j implies (#[trigger] init[j]).0@
                != name by {
                assert(init[j] == list[j]);
            }
            if i >= 0 {
                assert(init[i] == list[i]);
            }
            law_last_assignment_counts(init, name, i);
        }
    }
}

/// A device has the state of the last entry under its ordinal.
pub proof fn law_last_state_counts<U>(
    devices: Seq<(u32, DeviceAdmissionState<U>)>,
    d: u32,
    i: int,
)
    requires
        i < devices.len(),
        forall|j: int|
            0 <= j < devices.len() && i < j ==> (#[trigger] devices[j]).0 != d,
        i >= 0 ==> devices[i].0 == d,
    ensures
        device_in(devices, d) == if i >= 0 {
            Some(devices[i].1@)
        } else {
            None
        },
    decreases devices.len(),
{
    if devices.len() > 0 {
        let init = devices.drop_last();
        assert(devices[devices.len() - 1] == devices.last());
        if i < init.len() {
            assert forall|j: int| 0 <= j < init.len() && i < j implies (#[trigger] init[j]).0
                != d by {
                assert(init[j] == devices[j]);
            }
            if i >= 0 {
                assert(init[i] == devices[i]);
            }
            law_last_state_counts(init, d, i);
        }
    }
}

} // verus!
