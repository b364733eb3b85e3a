use smolvm::api::error::ApiError;
use smolvm::api::health::{machine_counts, mark_server_start, uptime_seconds};
use smolvm::api::pool_controller::{
    after_batch, after_fork, after_mark_ready, recover_interrupted_provisioning,
    retire_dead_leased_worker, retire_invalid_ready_worker, slot_is_free, worker_is_clean, worker_machine_name, DeleteOutcome,
    FillRun, FillStep, Filling, ProvisionStep, ReserveReply, SlotAction, WorkerFacts,
};
use smolvm::api::pools::{
    acquire_lease, activated_lease, activation_step, check_forkable, check_golden,
    check_idempotency_key, check_inserted, complete_lease, delete_outcome, get_lease,
    heartbeat_answer, heartbeat_lease, lease_id, lease_info, lease_ttl, pool_info, pool_record,
    require_pool, resized_pool, validate_create, validate_resize, validate_ttl, ActivationEvent,
    ActivationStep, ClaimStep, CreateForkPoolRequest, GoldenFacts,
};
use smolvm::api::prewarm::{check_reference, warm_artifact, PulledArtifact, WarmArtifactResponse};
use smolvm::api::rollouts::{
    batch_item, check_batch_size, check_device_policy_host, check_fallback_pool,
};
use smolvm::pool::{
    ClaimForkPoolSlot, ForkLeaseRecord, ForkLeaseState, ForkPoolSlotRecord, ForkPoolSlotState,
};

#[test]
fn empty_reference_is_rejected() {
    for blank in ["", "   "] {
        let err =
            check_reference(blank).expect_err("a blank reference must not reach the pull path");
        assert!(matches!(err, ApiError::BadRequest(_)));
    }
    assert!(check_reference("ghcr.io/o/r").is_ok());
    let pulled = PulledArtifact { digest: "sha256:aa".into(), size: 7, cached: true };
    assert_eq!(
        warm_artifact(pulled),
        WarmArtifactResponse {
            digest: "sha256:aa".into(),
            size_bytes: 7,
            already_cached: true
        }
    );
}

fn request() -> CreateForkPoolRequest {
    CreateForkPoolRequest {
        name: "pool".into(),
        golden: "gold".into(),
        desired_ready: 8,
        max_active: None,
        share_weights: false,
        ready_timeout_secs: None,
        lease_ttl_secs: None,
    }
}

#[test]
fn pool_requests_are_validated_in_order() {
    let times = validate_create(&request(), None, None).unwrap();
    assert_eq!((times.ready_timeout_secs, times.lease_ttl_secs), (240, 300));
    let bad = |req: CreateForkPoolRequest| validate_create(&req, None, None).unwrap_err();
    let message = |s: &str| ApiError::BadRequest(s.to_string());
    assert_eq!(
        validate_create(&request(), Some("bad name".into()), Some("bad golden".into())).unwrap_err(),
        message("bad name")
    );
    assert_eq!(
        validate_create(&request(), None, Some("bad golden".into())).unwrap_err(),
        message("bad golden")
    );
    for desired_ready in [0, 257] {
        assert_eq!(
            bad(CreateForkPoolRequest { desired_ready, ..request() }),
            message("desiredReady must be between 1 and 256")
        );
    }
    assert_eq!(
        bad(CreateForkPoolRequest { max_active: Some(0), ..request() }),
        message("maxActive must be greater than zero when set")
    );
    for secs in [0, 3601] {
        assert_eq!(
            bad(CreateForkPoolRequest { ready_timeout_secs: Some(secs), ..request() }),
            message("readyTimeoutSecs must be between 1 and 3600")
        );
    }
    for secs in [29, 86_401] {
        assert_eq!(
            bad(CreateForkPoolRequest { lease_ttl_secs: Some(secs), ..request() }),
            message("lease TTL must be between 30 and 86400 seconds")
        );
        assert!(validate_ttl(secs).is_err());
        assert!(lease_ttl(Some(secs), 300).is_err());
        assert!(lease_ttl(None, secs).is_err());
    }
    assert_eq!(lease_ttl(None, 30), Ok(30));
    assert_eq!(lease_ttl(Some(86_400), 30), Ok(86_400));
}

#[test]
fn goldens_must_be_running_and_forkable() {
    let facts = GoldenFacts { is_clone: false, alive: true, cuda: false };
    let conflict = |s: &str| Err(ApiError::Conflict(s.to_string()));
    assert_eq!(check_golden(&request(), Some(facts)), Ok(()));
    assert_eq!(
        check_golden(&request(), None),
        Err(ApiError::NotFound("machine 'gold' not found".into()))
    );
    assert_eq!(
        check_golden(&request(), Some(GoldenFacts { is_clone: true, ..facts })),
        conflict("a fork clone cannot be used as a pool golden")
    );
    assert_eq!(
        check_golden(&request(), Some(GoldenFacts { alive: false, ..facts })),
        conflict("golden machine 'gold' is not running")
    );
    let shared = CreateForkPoolRequest { share_weights: true, ..request() };
    assert_eq!(
        check_golden(&shared, Some(facts)),
        conflict("golden machine 'gold' does not have CUDA enabled")
    );
    assert_eq!(check_forkable("gold", Some("OK ready")), Ok(()));
    for status in [None, Some("ERR"), Some("")] {
        assert_eq!(
            check_forkable("gold", status),
            conflict("golden machine 'gold' is not running forkable")
        );
    }
    assert_eq!(check_inserted(true, "pool"), Ok(()));
    assert_eq!(check_inserted(false, "pool"), conflict("fork pool 'pool' already exists"));
}

fn slot(state: ForkPoolSlotState) -> ForkPoolSlotRecord {
    ForkPoolSlotRecord {
        pool_name: "pool".into(),
        machine_name: "m".into(),
        state,
        lease_id: None,
        created_at: 1,
        updated_at: 1,
        last_error: None,
    }
}

#[test]
fn pools_are_reported_with_their_slots() {
    let times = validate_create(&request(), None, None).unwrap();
    let record = pool_record(request(), times, 99);
    assert_eq!(record.created_at, 99);
    assert!(!record.auto_admission && !record.deleting);
    let slots: Vec<ForkPoolSlotRecord> = [
        ForkPoolSlotState::Ready,
        ForkPoolSlotState::Leased,
        ForkPoolSlotState::Ready,
        ForkPoolSlotState::Retiring,
        ForkPoolSlotState::Provisioning,
        ForkPoolSlotState::Activating,
        ForkPoolSlotState::Leased,
        ForkPoolSlotState::Ready,
    ]
    .into_iter()
    .map(slot)
    .collect();
    let info = pool_info(record.clone(), &slots);
    assert_eq!(
        (info.provisioning, info.ready, info.activating, info.active, info.retiring),
        (1, 3, 1, 2, 1)
    );
    assert_eq!(info.name, "pool");
    assert_eq!(info.lease_ttl_secs, 300);

    assert_eq!(require_pool(Some(record.clone()), "pool"), Ok(record.clone()));
    let missing = ApiError::NotFound("fork pool 'pool' not found".into());
    assert_eq!(require_pool(None, "pool"), Err(missing.clone()));
    assert_eq!(resized_pool(None, "pool"), Err(missing.clone()));
    assert_eq!(resized_pool(Some(record.clone()), "pool"), Ok(record.clone()));
    let mut deleting = record;
    deleting.deleting = true;
    assert_eq!(
        resized_pool(Some(deleting), "pool"),
        Err(ApiError::Conflict("fork pool 'pool' is deleting".into()))
    );
    assert_eq!(validate_resize(0), Ok(()));
    assert_eq!(
        validate_resize(257),
        Err(ApiError::BadRequest("desiredReady must be at most 256".into()))
    );
    assert_eq!(delete_outcome(Some(true), "pool"), Ok(()));
    assert_eq!(delete_outcome(None, "pool"), Err(missing));
    assert_eq!(
        delete_outcome(Some(false), "pool"),
        Err(ApiError::Conflict(
            "fork pool 'pool' has active leases; complete them or use force=true".into()
        ))
    );
}

fn lease(state: ForkLeaseState) -> ForkLeaseRecord {
    ForkLeaseRecord {
        id: "lease-1".into(),
        pool_name: "pool".into(),
        machine_name: "worker".into(),
        idempotency_key: "request".into(),
        state,
        assignment: vec![("A".into(), "b".into())],
        payload_sha256: None,
        created_at: 1,
        updated_at: 2,
        expires_at: 61,
        ttl_secs: 60,
        last_error: None,
    }
}

#[test]
fn retry_keys_are_bounded() {
    assert_eq!(check_idempotency_key("k"), Ok(()));
    assert_eq!(check_idempotency_key(&"k".repeat(256)), Ok(()));
    // 128 two-byte characters fit, 129 do not.
    assert_eq!(check_idempotency_key(&"ä".repeat(128)), Ok(()));
    for key in [String::new(), "k".repeat(257), "ä".repeat(129), "a\nb".into(), "\u{85}".into()] {
        assert_eq!(
            check_idempotency_key(&key),
            Err(ApiError::BadRequest(
                "idempotencyKey must contain 1-256 non-control bytes".into()
            ))
        );
    }
    assert_eq!(lease_id("ab", "cd"), "lease-abcd");
}

#[test]
fn claims_become_leases_or_refusals() {
    let assignment = vec![("A".to_string(), "b".to_string())];
    let claim = |outcome| acquire_lease(outcome, "pool", &assignment, 60);
    let active = lease(ForkLeaseState::Active);
    assert!(matches!(
        claim(ClaimForkPoolSlot::Claimed(active.clone())),
        Ok(ClaimStep::Activate(l)) if l == active
    ));
    assert!(matches!(
        claim(ClaimForkPoolSlot::Existing(active.clone())),
        Ok(ClaimStep::Respond(info)) if info == lease_info(active.clone())
    ));
    let mut other = active.clone();
    other.ttl_secs = 61;
    let mut different = active;
    different.assignment[0].1 = "c".into();
    for existing in [other, different] {
        assert!(matches!(
            claim(ClaimForkPoolSlot::Existing(existing)),
            Err(ApiError::Conflict(m))
                if m == "idempotencyKey was already used with a different assignment or TTL"
        ));
    }
    assert_eq!(
        claim(ClaimForkPoolSlot::NoReadySlot).unwrap_err(),
        ApiError::Unavailable("fork pool 'pool' has no clean worker ready".into())
    );
    assert_eq!(
        claim(ClaimForkPoolSlot::AtCapacity).unwrap_err(),
        ApiError::Conflict("fork pool 'pool' reached maxActive".into())
    );
    assert_eq!(
        claim(ClaimForkPoolSlot::PoolNotFound).unwrap_err(),
        ApiError::NotFound("fork pool 'pool' not found".into())
    );
    assert_eq!(
        claim(ClaimForkPoolSlot::PoolDeleting).unwrap_err(),
        ApiError::Conflict("fork pool 'pool' is deleting".into())
    );
    assert_eq!(
        claim(ClaimForkPoolSlot::WorkspaceExternallyMounted).unwrap_err(),
        ApiError::Internal("pool claim refused a payload that was not sent".into())
    );
}

#[test]
fn activation_consumes_the_worker() {
    assert!(matches!(
        activation_step(ActivationEvent::LookedUp(Ok(true))),
        ActivationStep::Release
    ));
    assert!(matches!(
        activation_step(ActivationEvent::LookedUp(Ok(false))),
        ActivationStep::FailLease(a, b)
            if a == "claimed pool worker disappeared" && b == "claimed pool worker disappeared"
    ));
    assert!(matches!(
        activation_step(ActivationEvent::LookedUp(Err("io".into()))),
        ActivationStep::Report(m) if m == "pool worker lookup failed: io"
    ));
    assert!(matches!(
        activation_step(ActivationEvent::Released(Ok(()))),
        ActivationStep::MarkActive
    ));
    assert!(matches!(
        activation_step(ActivationEvent::Released(Err("hung".into()))),
        ActivationStep::FailLease(a, b) if a == "hung"
            && b == "pool worker was consumed and will be replaced after activation failed: hung"
    ));
    let active = lease(ForkLeaseState::Active);
    assert_eq!(activated_lease(Some(active.clone())), Ok(active));
    assert_eq!(activated_lease(None), Err("claimed lease disappeared".to_string()));
    assert_eq!(
        activated_lease(Some(lease(ForkLeaseState::Cancelled))),
        Err("lease changed to 'cancelled' before activation completed".to_string())
    );
}

#[test]
fn leases_are_extended_and_completed() {
    let active = lease(ForkLeaseState::Active);
    let info = lease_info(active.clone());
    assert_eq!(info.state, "active");
    assert_eq!(get_lease(Some(active.clone()), "lease-1", "pool"), Ok(info.clone()));
    assert_eq!(
        get_lease(None, "lease-1", "pool"),
        Err(ApiError::NotFound("lease 'lease-1' not found in fork pool 'pool'".into()))
    );
    assert_eq!(heartbeat_lease(Some(active.clone()), "lease-1", 60), Ok(active.clone()));
    let over = Err(ApiError::Conflict("fork lease 'lease-1' is no longer active".into()));
    assert_eq!(heartbeat_lease(Some(active.clone()), "lease-1", 61), over);
    assert_eq!(heartbeat_lease(Some(lease(ForkLeaseState::Failed)), "lease-1", 2), over);
    let missing = ApiError::NotFound("fork lease 'lease-1' not found".into());
    assert_eq!(heartbeat_lease(None, "lease-1", 2), Err(missing.clone()));
    assert_eq!(heartbeat_answer(active.clone(), "lease-1", true), Ok(info));
    assert_eq!(
        heartbeat_answer(active.clone(), "lease-1", false),
        Err(ApiError::Conflict("fork lease 'lease-1' worker is no longer running".into()))
    );
    assert_eq!(complete_lease(None, "lease-1"), Err(missing));
    assert_eq!(
        complete_lease(Some(active), "lease-1"),
        Err(ApiError::Conflict("fork lease 'lease-1' is 'active', not active".into()))
    );
    assert_eq!(
        complete_lease(Some(lease(ForkLeaseState::Completed)), "lease-1").unwrap().state,
        "completed"
    );
}

#[test]
fn health_counts_live_machines() {
    let mut start = None;
    assert_eq!(uptime_seconds(start, 9), None);
    mark_server_start(&mut start, 1_000_000_000);
    mark_server_start(&mut start, 5_000_000_000);
    assert_eq!(uptime_seconds(start, 4_500_000_000), Some(3));
    assert_eq!(uptime_seconds(start, 0), Some(0));
    let counts = machine_counts(&vec![true, false, true]);
    assert_eq!((counts.total, counts.running), (3, 2));
}

#[test]
fn rollout_requests_are_checked() {
    assert_eq!(check_fallback_pool(None, false), Ok(()));
    assert_eq!(check_fallback_pool(Some("p"), true), Ok(()));
    assert_eq!(
        check_fallback_pool(Some("p"), false),
        Err(ApiError::BadRequest("fallback pool 'p' does not exist".into()))
    );
    assert_eq!(check_batch_size(1), Ok(()));
    assert_eq!(check_batch_size(256), Ok(()));
    for jobs in [0, 257] {
        assert_eq!(
            check_batch_size(jobs),
            Err(ApiError::BadRequest("jobs must contain between 1 and 256 items".into()))
        );
    }
    assert_eq!(check_device_policy_host(true), Ok(()));
    assert_eq!(
        check_device_policy_host(false),
        Err(ApiError::BadRequest("device-resident rollout handoff requires Linux".into()))
    );
    let done = batch_item("k".into(), Ok(5));
    assert_eq!((done.response, done.error), (Some(5), None));
    let failed = batch_item::<u8>("k".into(), Err(("code".into(), "message".into())));
    assert_eq!(failed.idempotency_key, "k");
    assert_eq!(failed.response, None);
    assert_eq!(failed.error_code.as_deref(), Some("code"));
    assert_eq!(failed.error.as_deref(), Some("message"));
}

#[test]
fn only_clean_workers_stay() {
    let clean = WorkerFacts { forkpoint_held: true, golden: Some("gold".into()), alive: true };
    assert!(worker_is_clean(&Some(clean.clone()), "gold"));
    let spoiled = [
        None,
        Some(WorkerFacts { forkpoint_held: false, ..clean.clone() }),
        Some(WorkerFacts { alive: false, ..clean.clone() }),
        Some(WorkerFacts { golden: None, ..clean.clone() }),
        Some(WorkerFacts { golden: Some("other".into()), ..clean.clone() }),
    ];
    for facts in &spoiled {
        assert!(matches!(
            recover_interrupted_provisioning(ForkPoolSlotState::Provisioning, facts, "gold"),
            SlotAction::Retire(r) if r == "controller restarted during worker provisioning"
        ));
        assert!(matches!(
            retire_invalid_ready_worker(ForkPoolSlotState::Ready, facts, "gold"),
            SlotAction::Retire(r) if r == "ready worker is missing, dead, or no longer held"
        ));
        assert!(matches!(
            retire_invalid_ready_worker(ForkPoolSlotState::Leased, facts, "gold"),
            SlotAction::Keep
        ));
    }
    let clean = Some(clean);
    assert!(matches!(
        recover_interrupted_provisioning(ForkPoolSlotState::Provisioning, &clean, "gold"),
        SlotAction::MarkReady
    ));
    assert!(matches!(
        recover_interrupted_provisioning(ForkPoolSlotState::Ready, &clean, "gold"),
        SlotAction::Keep
    ));
    assert!(matches!(
        retire_invalid_ready_worker(ForkPoolSlotState::Ready, &clean, "gold"),
        SlotAction::Keep
    ));
    assert_eq!(retire_dead_leased_worker(Some(true)), None);
    for alive in [None, Some(false)] {
        assert_eq!(
            retire_dead_leased_worker(alive).as_deref(),
            Some("leased worker process exited")
        );
    }
    assert!(slot_is_free(DeleteOutcome::Deleted));
    assert!(slot_is_free(DeleteOutcome::NotFound));
    assert!(!slot_is_free(DeleteOutcome::Failed));
}

#[test]
fn a_pool_is_filled_by_one_task_at_a_time() {
    let mut filling = Filling::new();
    assert!(!filling.start("p", false, 0));
    assert!(!filling.start("p", true, 3));
    assert!(filling.start("p", false, 3));
    assert!(!filling.start("p", false, 3));
    assert!(filling.start("q", false, 1));
    filling.finish("p");
    assert!(!filling.contains("p"));
    assert!(filling.contains("q"));
    filling.reset();
    assert!(filling.start("q", false, 1));
}

#[test]
fn a_fill_is_bounded() {
    let mut run = FillRun::new();
    assert_eq!(run.reserved("m0".into(), ReserveReply::Refused), FillStep::End);
    assert_eq!(run.reserved("m0".into(), ReserveReply::Failed), FillStep::End);
    for i in 1..4 {
        assert_eq!(run.reserved(format!("m{i}"), ReserveReply::Reserved), FillStep::Reserve);
    }
    assert_eq!(run.reserved("m4".into(), ReserveReply::Reserved), FillStep::Fork);
    assert_eq!(run.machines, ["m1", "m2", "m3", "m4"]);
    let mut short = FillRun::new();
    assert_eq!(short.reserved("m1".into(), ReserveReply::Reserved), FillStep::Reserve);
    assert_eq!(short.reserved("m2".into(), ReserveReply::Failed), FillStep::Fork);
    assert_eq!(short.machines, ["m1"]);
    assert_eq!(worker_machine_name("rollouts", "ab12", 40), "pool-rollouts-ab12");
    assert_eq!(worker_machine_name("rollouts", "ab12", 15), "pool-rollo-ab12");
    assert_eq!(worker_machine_name("rollouts", "ab12", 10), "pool--ab12");
}

#[test]
fn forked_workers_become_ready_or_retire() {
    assert!(matches!(after_fork(Ok(true)), ProvisionStep::MarkReady));
    assert!(matches!(
        after_fork(Ok(false)),
        ProvisionStep::Retire(r) if r == "forked pool worker was not held"
    ));
    assert!(matches!(after_fork(Err("boom".into())), ProvisionStep::Retire(r) if r == "boom"));
    assert_eq!(after_mark_ready(Ok(true)), None);
    assert_eq!(
        after_mark_ready(Ok(false)).as_deref(),
        Some("pool changed while worker was provisioning")
    );
    assert_eq!(after_mark_ready(Err("db".into())).as_deref(), Some("db"));
}

#[test]
fn a_failed_batch_retires_every_reserved_worker() {
    assert_eq!(after_batch(vec![], "boom"), vec![]);
    assert_eq!(
        after_batch(vec!["a".into(), "b".into()], "boom"),
        vec![("a".to_string(), "boom".to_string()), ("b".to_string(), "boom".to_string())]
    );
}
