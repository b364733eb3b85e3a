use smolvm::admission::calibration::{
    AdmissionSnapshot, Evaluation, Judgement, Observation, PoolAdmissionState, Score,
};
use smolvm::admission::fair_share::{fair_pool_limit, find_pool, DevicePoolState};
use smolvm::admission::gpu::{device_reserve_mib, GpuSample};
use smolvm::admission::host_cpu::{checked_total, parse_cpu_times, HostCpuSampler};
use smolvm::admission::nvml::{
    any_mig, check_device_call, check_device_count, check_init, device_samples, is_partitioned,
    plan_mig_devices, require_visible, resolved_mig_devices, select_visible_devices,
    DeviceReading, NvmlDeviceIdentity,
};
use smolvm::admission::registry::AdmissionRegistry;
use smolvm::pool::{ForkPoolAdmissionLimit, ForkPoolRecord};
use std::collections::HashMap;

const SECOND: u64 = 1_000_000_000;

/// A registry together with the running sums of each device's window.
struct Controller {
    registry: AdmissionRegistry<f64>,
    sums: HashMap<u32, (f64, f64)>,
}

fn improvement(score: Score<f64>, baseline: Score<f64>) -> f64 {
    let (current, previous) = match (score.completion_rate, baseline.completion_rate) {
        (Some(current), Some(previous)) if previous > 0.0 => (current, previous),
        _ if baseline.gpu_utilization_percent > 0.0 => {
            (score.gpu_utilization_percent, baseline.gpu_utilization_percent)
        }
        _ => return f64::INFINITY,
    };
    ((current - previous) / previous) * 100.0
}

fn judge(evaluation: &Evaluation<f64>, sums: (f64, f64)) -> Judgement<f64> {
    let mean_gpu = sums.0 / f64::from(evaluation.samples);
    let mean_cpu = sums.1 / f64::from(evaluation.samples);
    let completion_rate = if evaluation.completed > 0 {
        Some(evaluation.completed as f64 / (evaluation.elapsed as f64 / SECOND as f64))
    } else {
        None
    };
    let score = Score { gpu_utilization_percent: mean_gpu, completion_rate };
    let gain = match evaluation.baseline {
        Some(baseline) => improvement(score, baseline),
        None => f64::INFINITY,
    };
    Judgement {
        score,
        cpu_safe: mean_cpu < 90.0,
        below_marginal_gain: gain < 2.0,
        mean_cpu: format!("{mean_cpu:.1}"),
        improvement: format!("{gain:.1}"),
    }
}

impl Controller {
    fn new() -> Self {
        Controller { registry: AdmissionRegistry::default(), sums: HashMap::new() }
    }

    fn take(
        &mut self,
        report: Vec<(u32, Observation<f64>)>,
        gpu: &HashMap<u32, GpuSample<f64>>,
        cpu: Option<f64>,
    ) {
        for (device, observation) in report {
            if let Observation::Sampled { opens_window, evaluation } = observation {
                let sums = self.sums.entry(device).or_insert((0.0, 0.0));
                if opens_window {
                    *sums = (0.0, 0.0);
                }
                sums.0 += gpu[&device].utilization_percent;
                sums.1 += cpu.unwrap_or(0.0);
                if let Some(evaluation) = evaluation {
                    let judgement = judge(&evaluation, *sums);
                    self.registry.conclude(device, &evaluation, &judgement);
                }
            }
        }
    }

    fn observe_at(
        &mut self,
        pool: &ForkPoolRecord,
        active: u32,
        completed: u64,
        gpu: Option<GpuSample<f64>>,
        cpu: Option<f64>,
        now: u64,
    ) {
        let samples = gpu_samples(gpu);
        let report = self.registry.observe(pool, active, completed, gpu, cpu, now);
        self.take(report, &samples, cpu);
    }

    fn observe_pools_at(
        &mut self,
        observations: &[(ForkPoolRecord, u32, u64)],
        samples: &HashMap<u32, GpuSample<f64>>,
        cpu: Option<f64>,
        now: u64,
    ) {
        let report = self.registry.observe_pools(observations, Some(samples), cpu, now);
        self.take(report, samples, cpu);
    }

    fn stable_window(
        &mut self,
        pool: &ForkPoolRecord,
        start: u64,
        observation: (u32, u64, f64, u64, f64),
    ) {
        let (active, completed, utilization, used, cpu) = observation;
        for second in 0..=8 {
            self.observe_at(
                pool,
                active,
                completed,
                gpu(utilization, used),
                Some(cpu),
                start + second * SECOND,
            );
        }
    }

    fn limit(&mut self, pool: &ForkPoolRecord) -> Option<ForkPoolAdmissionLimit> {
        self.registry.limit(pool, 0)
    }

    fn snapshot(&self, pool: &ForkPoolRecord) -> Option<AdmissionSnapshot<f64>> {
        self.registry.snapshot(pool, 0)
    }
}

fn pool(size: u32) -> ForkPoolRecord {
    ForkPoolRecord {
        name: "rollouts".into(),
        golden: "golden".into(),
        desired_ready: size,
        max_active: None,
        auto_admission: true,
        cuda_device_ordinal: Some(0),
        share_weights: true,
        ready_timeout_secs: 240,
        lease_ttl_secs: 300,
        created_at: 1,
        deleting: false,
    }
}

fn gpu(utilization: f64, used: u64) -> Option<GpuSample<f64>> {
    Some(GpuSample::new(0, utilization, used, 80 * 1024 - used, 80 * 1024))
}

fn pool_limit(controller: &mut Controller, pool: &ForkPoolRecord) -> Option<u32> {
    controller.limit(pool).map(|limit| limit.pool)
}

fn gpu_samples(samples: impl IntoIterator<Item = GpuSample<f64>>) -> HashMap<u32, GpuSample<f64>> {
    samples.into_iter().map(|sample| (sample.device_ordinal, sample)).collect()
}

fn identity(uuid: &str, bus: u32) -> NvmlDeviceIdentity {
    NvmlDeviceIdentity {
        uuid: uuid.as_bytes().to_vec(),
        domain: 0,
        bus,
        device: 0,
        mig_enabled: false,
    }
}

fn uuid_strings(uuids: Vec<Vec<u8>>) -> Vec<String> {
    uuids.into_iter().map(|uuid| String::from_utf8(uuid).unwrap()).collect()
}

#[test]
fn visible_devices_follow_pci_order_and_cuda_mask_order() {
    let devices = || vec![identity("GPU-second", 2), identity("GPU-first", 1)];
    assert_eq!(
        uuid_strings(select_visible_devices(devices(), None).unwrap()),
        ["GPU-first", "GPU-second"]
    );
    assert_eq!(
        uuid_strings(select_visible_devices(devices(), Some("1,0")).unwrap()),
        ["GPU-second", "GPU-first"]
    );
}

#[test]
fn visible_device_tokens_name_devices_or_fail() {
    let devices = || vec![identity("GPU-aa", 2), identity("GPU-ab", 1)];
    assert!(select_visible_devices(devices(), Some("  ")).unwrap().is_empty());
    assert_eq!(
        uuid_strings(select_visible_devices(devices(), Some("GPU-aa , 0,-1,nonsense")).unwrap()),
        ["GPU-aa", "GPU-ab"]
    );
    assert_eq!(
        select_visible_devices(devices(), Some("7")).unwrap_err(),
        "CUDA_VISIBLE_DEVICES index 7 is outside 2 PCI-ordered devices"
    );
    assert_eq!(
        select_visible_devices(devices(), Some("GPU-a")).unwrap_err(),
        "CUDA_VISIBLE_DEVICES token 'GPU-a' did not uniquely identify an NVML device"
    );
    assert_eq!(
        select_visible_devices(devices(), Some("1,")).unwrap_err(),
        "CUDA_VISIBLE_DEVICES token '' did not uniquely identify an NVML device"
    );
}

#[test]
fn mig_masks_are_planned_token_by_token() {
    assert_eq!(
        plan_mig_devices(None).unwrap_err(),
        "MIG mode requires CUDA_VISIBLE_DEVICES with explicit MIG UUIDs for admission"
    );
    let plan = plan_mig_devices(Some("MIG-1, MIG-2,-1,junk")).unwrap();
    assert_eq!(plan.tokens, ["MIG-1", "MIG-2"]);
    assert_eq!(plan.failure, None);
    assert_eq!(
        resolved_mig_devices(&plan, Some(1)).unwrap_err(),
        "NVML could not resolve MIG UUID 'MIG-2'"
    );
    assert_eq!(uuid_strings(resolved_mig_devices(&plan, None).unwrap()), ["MIG-1", "MIG-2"]);

    let plan = plan_mig_devices(Some("MIG-1,GPU-2")).unwrap();
    assert_eq!(
        resolved_mig_devices(&plan, None).unwrap_err(),
        "MIG mode requires full MIG UUIDs in CUDA_VISIBLE_DEVICES"
    );
    let plan = plan_mig_devices(Some("MIG-\0")).unwrap();
    assert_eq!(
        resolved_mig_devices(&plan, None).unwrap_err(),
        "CUDA_VISIBLE_DEVICES contains a NUL byte"
    );
}

#[test]
fn nvml_answers_are_checked() {
    assert!(check_init(0).is_ok());
    assert_eq!(check_init(-3).unwrap_err(), "nvmlInit_v2 returned -3");
    assert!(check_device_count(0, 2).is_ok());
    assert_eq!(
        check_device_count(0, 0).unwrap_err(),
        "nvmlDeviceGetCount_v2 returned 0 with count 0"
    );
    assert!(check_device_call("nvmlDeviceGetUUID", 1, 0, true).is_ok());
    assert_eq!(
        check_device_call("nvmlDeviceGetUUID", 1, 12, true).unwrap_err(),
        "nvmlDeviceGetUUID(1) returned 12"
    );
    assert!(check_device_call("nvmlDeviceGetHandleByIndex_v2", 1, 0, false).is_err());
    assert!(is_partitioned(Some((0, 1))));
    assert!(!is_partitioned(Some((1, 1))));
    assert!(!is_partitioned(None));
    let mut partitioned = identity("GPU-x", 1);
    assert!(!any_mig(&vec![identity("GPU-y", 2)]));
    partitioned.mig_enabled = true;
    assert!(any_mig(&vec![identity("GPU-y", 2), partitioned]));
    assert_eq!(
        require_visible(Vec::new()).unwrap_err(),
        "no CUDA-visible devices are available for admission"
    );
    assert_eq!(require_visible(vec![vec![1]]).unwrap(), vec![vec![1]]);
}

#[test]
fn samples_are_complete_or_absent() {
    let reading = |utilization_percent: f64| DeviceReading {
        utilization_percent,
        used_bytes: 5 << 20,
        free_bytes: 7 << 20,
        total_bytes: (12 << 20) + 1,
    };
    let samples = device_samples(&[Some(reading(40.0)), Some(reading(50.0))]).unwrap();
    assert_eq!(samples.len(), 2);
    assert_eq!(samples[&0], GpuSample::new(0, 40.0, 5, 7, 12));
    assert_eq!(samples[&1], GpuSample::new(1, 50.0, 5, 7, 12));
    assert!(device_samples(&[Some(reading(40.0)), None]).is_none());
    assert_eq!(device_samples::<f64>(&[]).unwrap().len(), 0);
}

#[test]
fn device_sample_uses_only_its_own_headroom() {
    let sample = GpuSample::new(0, 95.0, 75 * 1024, 5 * 1024, 80 * 1024);
    assert_eq!(sample.used_memory_mib, 75 * 1024);
    assert_eq!(sample.total_memory_mib, 80 * 1024);
    assert_eq!(sample.free_memory_mib, 5 * 1024);
    assert_eq!(sample.reserve_mib, 8 * 1024);
    assert!(!sample.memory_safe());
}

#[test]
fn heterogeneous_devices_each_use_their_own_reserve() {
    let small = GpuSample::new(0, 70.0, 15 * 1024, 9 * 1024, 24 * 1024);
    let large = GpuSample::new(1, 80.0, 135 * 1024, 25 * 1024, 160 * 1024);
    assert_eq!(small.reserve_mib, 8 * 1024);
    assert_eq!(large.reserve_mib, 16 * 1024);
    assert!(small.memory_safe());
    assert!(large.memory_safe());
}

#[test]
fn reserve_saturates_at_absurd_capacities() {
    assert_eq!(device_reserve_mib(0), 8192);
    assert_eq!(device_reserve_mib(81_920), 8192);
    assert_eq!(device_reserve_mib(81_930), 8193);
    assert_eq!(device_reserve_mib(u64::MAX), u64::MAX / 100);
}

#[test]
fn same_device_pools_share_one_limit_fairly() {
    let mut controller = Controller::new();
    let mut first = pool(6);
    first.name = "first".into();
    let mut second = pool(6);
    second.name = "second".into();
    let start = 0;
    let samples = gpu_samples([GpuSample::new(0, 10.0, 10_000, 70_000, 80_000)]);
    controller.observe_pools_at(
        &[(first.clone(), 0, 0), (second.clone(), 0, 0)],
        &samples,
        Some(10.0),
        start,
    );

    let first_only = controller.limit(&first).unwrap();
    assert_eq!(first_only.device, 4);
    assert_eq!(first_only.pool, 4);

    controller.registry.note_blocked("first", 0);
    controller.registry.note_blocked("second", 0);
    let second_share = controller.limit(&second).unwrap();
    let first_share = controller.limit(&first).unwrap();
    assert_eq!(first_share.device, 4);
    assert_eq!(second_share.device, 4);
    assert_eq!(first_share.pool, 2);
    assert_eq!(second_share.pool, 2);

    let snapshot = controller.snapshot(&first).unwrap();
    assert_eq!(
        snapshot.reason,
        "CUDA device 0 limit 4; pool fair share 2: observing stable residency at 0/4"
    );
    assert_eq!(snapshot.effective_limit, 2);
    assert_eq!(snapshot.device_limit, 4);
}

#[test]
fn different_device_pools_calibrate_independently() {
    let mut controller = Controller::new();
    let mut first = pool(6);
    first.name = "first".into();
    let mut second = pool(12);
    second.name = "second".into();
    second.cuda_device_ordinal = Some(1);
    let samples = gpu_samples([
        GpuSample::new(0, 10.0, 10_000, 70_000, 80_000),
        GpuSample::new(1, 20.0, 20_000, 60_000, 80_000),
    ]);
    controller.observe_pools_at(
        &[(first.clone(), 0, 0), (second.clone(), 0, 0)],
        &samples,
        Some(10.0),
        0,
    );

    assert_eq!(controller.limit(&first).unwrap().device, 2);
    assert_eq!(controller.limit(&second).unwrap().device, 4);
}

#[test]
fn per_device_pressure_rejects_a_larger_candidate() {
    let mut controller = Controller::new();
    let pool = pool(12);
    let start = 0;
    controller.observe_at(&pool, 0, 0, gpu(0.0, 10_000), Some(10.0), start);
    controller.registry.note_blocked("rollouts", 0);
    controller.stable_window(&pool, start, (4, 0, 50.0, 30_000, 50.0));
    assert_eq!(pool_limit(&mut controller, &pool), Some(8));

    let pressured = GpuSample::new(0, 95.0, 75 * 1024, 5 * 1024, 80 * 1024);
    for second in 0..=8 {
        controller.observe_at(
            &pool,
            8,
            0,
            Some(pressured),
            Some(50.0),
            start + (9 + second) * SECOND,
        );
    }

    assert_eq!(pool_limit(&mut controller, &pool), Some(4));
    let reason = controller.snapshot(&pool).unwrap().reason;
    assert!(reason.contains("limiting GPU has 5120 MiB free"), "{reason}");
}

#[test]
fn event_sync_initializes_and_resizes_without_failing_open() {
    let mut controller = Controller::new();
    let mut configured = pool(12);

    controller.registry.ensure_pools(&[(configured.clone(), 0, 7)], 0);
    let initial = controller.snapshot(&configured).unwrap();
    assert_eq!(initial.effective_limit, 4);
    assert!(initial.calibrating);
    assert!(initial.reason.contains("waiting for GPU telemetry"));

    configured.desired_ready = 3;
    controller.registry.ensure_pools(&[(configured.clone(), 0, 7)], 0);
    assert_eq!(controller.limit(&configured).unwrap().pool, 3);

    configured.auto_admission = false;
    controller.registry.ensure_pools(&[(configured.clone(), 0, 7)], 0);
    assert_eq!(controller.limit(&configured), None);
    assert!(controller.snapshot(&configured).is_none());
}

#[test]
fn event_sync_preserves_the_periodic_calibration_sample() {
    let mut controller = Controller::new();
    let configured = pool(12);
    let start = 0;
    controller.observe_at(&configured, 4, 3, gpu(50.0, 30_000), Some(40.0), start);
    let before = controller.snapshot(&configured).unwrap();

    controller.registry.ensure_pools(&[(configured.clone(), 4, 3)], 0);

    let after = controller.snapshot(&configured).unwrap();
    assert_eq!(after, before);
}

#[test]
fn event_sync_keeps_the_snapshots_of_all_pools() {
    let mut controller = Controller::new();
    let first = pool(12);
    let second = ForkPoolRecord { name: "second".into(), ..pool(4) };
    let mut observations = vec![(first.clone(), 3, 5), (second.clone(), 2, 1)];
    let samples = gpu_samples(gpu(50.0, 30_000));
    controller.observe_pools_at(&observations, &samples, Some(40.0), 0);
    controller.registry.note_blocked("second", SECOND);
    let before = [&first, &second].map(|p| controller.registry.snapshot(p, 2 * SECOND).unwrap());

    observations.reverse();
    controller.registry.ensure_pools(&observations, 2 * SECOND);

    let after = [&first, &second].map(|p| controller.registry.snapshot(p, 2 * SECOND).unwrap());
    assert_eq!(after, before);
    assert!(after[0].reason.starts_with("CUDA device 0 limit "));
}

#[test]
fn calibrates_to_the_measured_pareto_point_without_card_specific_limit() {
    let mut controller = Controller::new();
    let pool = pool(12);
    let start = 0;
    controller.observe_at(&pool, 0, 0, gpu(0.0, 10_000), Some(10.0), start);
    controller.registry.note_blocked("rollouts", 0);

    controller.stable_window(&pool, start, (4, 0, 56.6, 30_828, 62.0));
    assert_eq!(pool_limit(&mut controller, &pool), Some(8));

    controller.stable_window(&pool, start + 9 * SECOND, (8, 0, 90.2, 51_138, 62.0));
    assert_eq!(pool_limit(&mut controller, &pool), Some(12));

    controller.stable_window(&pool, start + 18 * SECOND, (12, 0, 88.0, 71_445, 62.0));
    assert_eq!(pool_limit(&mut controller, &pool), Some(8));
    assert!(!controller.snapshot(&pool).unwrap().calibrating);
}

#[test]
fn telemetry_failure_falls_back_to_full_residency() {
    let mut controller = Controller::new();
    let pool = pool(12);
    controller.observe_at(&pool, 0, 0, None, None, 0);
    let snapshot = controller.snapshot(&pool).unwrap();
    assert_eq!(snapshot.effective_limit, 12);
    assert!(snapshot.reason.contains("telemetry unavailable"));
}

#[test]
fn telemetry_recovery_restarts_calibration_after_existing_leases_drain() {
    let mut controller = Controller::new();
    let pool = pool(12);
    let start = 0;
    controller.observe_at(&pool, 12, 0, None, None, start);
    assert_eq!(pool_limit(&mut controller, &pool), Some(12));

    controller.observe_at(&pool, 12, 0, gpu(90.0, 70_000), Some(50.0), start + SECOND);
    assert_eq!(pool_limit(&mut controller, &pool), Some(4));
    assert!(controller.snapshot(&pool).unwrap().reason.contains("restarting calibration"));

    controller.observe_at(&pool, 12, 0, gpu(90.0, 70_000), Some(50.0), start + 2 * SECOND);
    assert!(controller.snapshot(&pool).unwrap().reason.contains("drain"));
    assert_eq!(pool_limit(&mut controller, &pool), Some(4));
}

#[test]
fn cpu_saturation_rejects_a_larger_candidate() {
    let mut controller = Controller::new();
    let pool = pool(12);
    let start = 0;
    controller.observe_at(&pool, 0, 0, gpu(0.0, 10_000), Some(10.0), start);
    controller.registry.note_blocked("rollouts", 0);
    controller.stable_window(&pool, start, (4, 0, 50.0, 30_000, 50.0));
    assert_eq!(pool_limit(&mut controller, &pool), Some(8));
    controller.stable_window(&pool, start + 9 * SECOND, (8, 0, 90.0, 50_000, 96.0));
    assert_eq!(pool_limit(&mut controller, &pool), Some(4));
}

#[test]
fn late_cpu_saturation_rolls_back_the_last_accepted_candidate() {
    let mut controller = Controller::new();
    let pool = pool(12);
    let start = 0;
    controller.observe_at(&pool, 0, 0, gpu(0.0, 10_000), Some(10.0), start);
    controller.registry.note_blocked("rollouts", 0);
    controller.stable_window(&pool, start, (4, 0, 50.0, 30_000, 50.0));
    controller.stable_window(&pool, start + 9 * SECOND, (8, 0, 75.0, 50_000, 70.0));
    assert_eq!(pool_limit(&mut controller, &pool), Some(12));
    controller.stable_window(&pool, start + 18 * SECOND, (12, 0, 95.0, 70_000, 80.0));
    assert_eq!(pool_limit(&mut controller, &pool), Some(12));
    controller.stable_window(&pool, start + 27 * SECOND, (12, 0, 95.0, 71_000, 95.0));
    assert_eq!(pool_limit(&mut controller, &pool), Some(8));
    let snapshot = controller.snapshot(&pool).unwrap();
    assert!(snapshot.reason.contains("drain"), "{}", snapshot.reason);
}

#[test]
fn a_static_pool_never_receives_a_dynamic_limit() {
    let mut controller = Controller::new();
    let mut pool = pool(12);
    pool.auto_admission = false;
    controller.observe_at(&pool, 0, 0, gpu(0.0, 0), Some(0.0), 0);
    assert_eq!(controller.limit(&pool), None);
    assert_eq!(controller.snapshot(&pool), None);
}

#[test]
fn an_unobserved_automatic_pool_gets_its_own_ceiling() {
    let mut controller = Controller::new();
    let mut unobserved = pool(12);
    unobserved.max_active = Some(5);
    assert_eq!(
        controller.limit(&unobserved),
        Some(ForkPoolAdmissionLimit { pool: 5, device: 5 })
    );
    unobserved.share_weights = false;
    unobserved.cuda_device_ordinal = None;
    unobserved.max_active = Some(0);
    assert_eq!(
        controller.limit(&unobserved),
        Some(ForkPoolAdmissionLimit { pool: 1, device: 1 })
    );
}

#[test]
fn a_deleted_pool_takes_its_device_with_it() {
    let mut controller = Controller::new();
    let mut only = pool(12);
    controller.registry.ensure_pools(&[(only.clone(), 0, 0)], 0);
    assert!(controller.snapshot(&only).is_some());
    only.deleting = true;
    controller.registry.ensure_pools(&[(only.clone(), 0, 0)], 0);
    assert!(controller.snapshot(&only).is_none());
}

#[test]
fn old_pressure_does_not_raise_the_limit() {
    let mut controller = Controller::new();
    let pool = pool(12);
    controller.observe_at(&pool, 0, 0, gpu(0.0, 10_000), Some(10.0), 0);
    controller.registry.note_blocked("rollouts", 0);
    controller.stable_window(&pool, 60 * SECOND, (4, 0, 50.0, 30_000, 50.0));
    assert_eq!(pool_limit(&mut controller, &pool), Some(4));
    let reason = controller.snapshot(&pool).unwrap().reason;
    assert_eq!(reason, "settled at resident limit 4");
}

#[test]
fn a_settled_limit_is_probed_again_after_a_quarter_of_an_hour() {
    let mut controller = Controller::new();
    let pool = pool(12);
    controller.observe_at(&pool, 0, 0, gpu(0.0, 10_000), Some(10.0), 0);
    controller.stable_window(&pool, SECOND, (4, 0, 50.0, 30_000, 50.0));
    assert!(!controller.snapshot(&pool).unwrap().calibrating);
    let later = 920 * SECOND;
    controller.registry.note_blocked("rollouts", later);
    controller.stable_window(&pool, later, (4, 0, 50.0, 30_000, 50.0));
    assert_eq!(controller.registry.snapshot(&pool, later).unwrap().device_limit, 8);
    // The fifth sample completes the long window; the others open the next one.
    assert_eq!(
        controller.registry.snapshot(&pool, later).unwrap().reason,
        "observing stable residency at 4/8"
    );
}

#[test]
fn a_gain_in_completions_outweighs_utilization() {
    let mut controller = Controller::new();
    let pool = pool(12);
    controller.observe_at(&pool, 0, 0, gpu(0.0, 10_000), Some(10.0), 0);
    controller.registry.note_blocked("rollouts", 0);
    for second in 0..=8 {
        controller.observe_at(&pool, 4, second, gpu(50.0, 30_000), Some(50.0), second * SECOND);
    }
    assert_eq!(controller.limit(&pool).unwrap().device, 8);
    for second in 0..=8 {
        controller.observe_at(
            &pool,
            8,
            8 + 2 * second,
            gpu(50.0, 30_000),
            Some(50.0),
            (9 + second) * SECOND,
        );
    }
    assert_eq!(controller.limit(&pool).unwrap().device, 12);
}

#[test]
fn a_candidate_without_gain_is_explained() {
    let mut controller = Controller::new();
    let pool = pool(12);
    controller.observe_at(&pool, 0, 0, gpu(0.0, 10_000), Some(10.0), 0);
    controller.registry.note_blocked("rollouts", 0);
    controller.stable_window(&pool, 0, (4, 0, 50.0, 30_000, 50.0));
    controller.stable_window(&pool, 9 * SECOND, (8, 0, 50.5, 30_000, 50.0));
    // The window's last sample falls at the old limit again: leases must drain.
    let state = controller.snapshot(&pool).unwrap();
    assert_eq!(state.device_limit, 4);
    assert_eq!(state.reason, "returned to 4: marginal gain 1.0% is below 2.0%");
}

#[test]
fn ceilings_bound_the_calibrated_limit() {
    let mut state: PoolAdmissionState<f64> = PoolAdmissionState::new(12, 0, 0);
    assert_eq!(state.effective_limit, 4);
    state.update_ceiling(3, 1, 0);
    assert_eq!(state.effective_limit, 3);
    assert!(state.settled);
    assert_eq!(state.reason, "pool ceiling changed; restarting calibration");
    state.update_ceiling(30, 2, 0);
    assert_eq!(state.effective_limit, 3);
    assert!(!state.settled);
    assert!(!state.has_pressure(0));
    state.last_blocked = Some(0);
    assert!(state.has_pressure(30 * SECOND));
    assert!(!state.has_pressure(30 * SECOND + 1));
    for (ceiling, initial) in [(0, 0), (1, 1), (2, 2), (3, 1), (4, 2), (12, 4), (13, 5)] {
        assert_eq!(PoolAdmissionState::<f64>::initial_limit(ceiling), initial);
    }
}

fn device_pool(name: &str, ceiling: u32, active: u32, demand: Option<u64>) -> (String, DevicePoolState) {
    (name.to_string(), DevicePoolState { ceiling, active, last_demand: demand })
}

#[test]
fn fair_shares_are_even_and_leave_nothing_over() {
    let pools = vec![
        device_pool("c", 10, 3, Some(0)),
        device_pool("a", 10, 3, Some(0)),
        device_pool("b", 2, 3, Some(0)),
        device_pool("idle", 10, 1, None),
    ];
    // Twelve residents, one of them idle: eleven to share; "b" is full at two.
    assert_eq!(fair_pool_limit(&pools, "a", 12, 0, true), 5);
    assert_eq!(fair_pool_limit(&pools, "b", 12, 0, true), 2);
    assert_eq!(fair_pool_limit(&pools, "c", 12, 0, true), 4);
    // A pool that does not compete gets nothing while others do.
    assert_eq!(fair_pool_limit(&pools, "idle", 12, 0, false), 0);
    assert_eq!(fair_pool_limit(&pools, "unknown", 12, 0, true), 0);
    // Where nobody competes the device is the pool's.
    assert_eq!(fair_pool_limit(&pools, "idle", 12, 31 * SECOND, false), 10);
    assert_eq!(fair_pool_limit(&pools, "unknown", 12, 31 * SECOND, false), 12);
    // More is occupied than there is.
    assert_eq!(fair_pool_limit(&pools, "idle", 1, 31 * SECOND, true), 0);
    assert_eq!(find_pool(&pools, "b").unwrap().ceiling, 2);
}

#[test]
fn host_cpu_time_is_the_difference_of_two_samples() {
    let mut sampler = HostCpuSampler::default();
    assert_eq!(sampler.sample("cpu  10 0 10 70 10 0\ncpu0 1 2 3 4\n"), None);
    assert_eq!(sampler.previous, Some((100, 80)));
    assert_eq!(sampler.sample("cpu 40 0 30 110 20\n"), Some((50, 100)));
    // No time passed.
    assert_eq!(sampler.sample("cpu 40 0 30 110 20"), None);
    // Not the aggregate line, or too few counters.
    assert_eq!(sampler.sample("intr 1 2 3 4"), None);
    assert_eq!(sampler.sample("cpu 1 2 3"), None);
    assert_eq!(sampler.sample(""), None);
    assert_eq!(sampler.previous, Some((200, 130)));
    // Words that are no numbers are passed over.
    assert_eq!(parse_cpu_times("cpu x 1 2 -3 3 4\n"), Some(vec![1, 2, 3, 4]));
    assert_eq!(checked_total(&vec![u64::MAX, 1]), None);
    assert_eq!(checked_total(&vec![1, 2, 3]), Some(6));
}
