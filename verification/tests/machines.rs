use smolvm::forkpoint::{READY_PATH, RELEASE_PATH, RESTORED_PATH, STATE_DIR};
use smolvm::pool::{
    cuda_device_ordinal_from_env, ForkLeaseState, ForkPoolRecord, ForkPoolSlotState,
};
use smolvm::proto_hash::{
    fnv1a, hash_directive, protocol_hash, rerun_directive, to_hex, wire_files, FNV_OFFSET,
};
use smolvm::proxy_opts::{first_nonempty_env, ProxyOpts};
use smolvm::workload::{
    is_missing_launch_metadata, launch_image_workload, launch_outcome, persistent_overlay_owner,
    record_mounts_to_bindings, WorkloadRecord,
};

#[test]
fn cuda_device_selector_defaults_to_zero_and_rejects_invalid_values() {
    assert_eq!(cuda_device_ordinal_from_env(&[]).unwrap(), 0);
    assert_eq!(
        cuda_device_ordinal_from_env(&[("SMOLVM_CUDA_DEVICE".into(), "3".into())]).unwrap(),
        3
    );
    assert!(
        cuda_device_ordinal_from_env(&[("SMOLVM_CUDA_DEVICE".into(), "-1".into())])
            .unwrap_err()
            .contains("non-negative")
    );
}

#[test]
fn legacy_pool_without_auto_admission_stays_full_residency() {
    let pool = ForkPoolRecord {
        name: "rollouts".into(),
        golden: "golden".into(),
        desired_ready: 8,
        max_active: None,
        auto_admission: false,
        cuda_device_ordinal: None,
        share_weights: true,
        ready_timeout_secs: 240,
        lease_ttl_secs: 300,
        created_at: 1,
        deleting: false,
    };
    assert!(!pool.auto_admission);
    assert_eq!(pool.cuda_device_ordinal, None);
    assert_eq!(pool.admission_device_ordinal(), Some(0));
}

#[test]
fn the_last_cuda_device_selector_counts() {
    let env = [
        ("SMOLVM_CUDA_DEVICE".to_string(), "x".to_string()),
        ("OTHER".to_string(), "9".to_string()),
        ("SMOLVM_CUDA_DEVICE".to_string(), "+02".to_string()),
    ];
    assert_eq!(cuda_device_ordinal_from_env(&env).unwrap(), 2);
    assert_eq!(
        cuda_device_ordinal_from_env(&env[..1]).unwrap_err(),
        "SMOLVM_CUDA_DEVICE must be a non-negative host CUDA device ordinal, got 'x'"
    );
    let max = [("SMOLVM_CUDA_DEVICE".to_string(), "4294967295".to_string())];
    assert_eq!(cuda_device_ordinal_from_env(&max).unwrap(), u32::MAX);
    for bad in ["4294967296", "", "+", "1 ", "0x1"] {
        let env = [("SMOLVM_CUDA_DEVICE".to_string(), bad.to_string())];
        assert!(cuda_device_ordinal_from_env(&env).is_err(), "{bad}");
    }
}

#[test]
fn states_have_stable_database_names() {
    let slots = [
        ForkPoolSlotState::Provisioning,
        ForkPoolSlotState::Ready,
        ForkPoolSlotState::Activating,
        ForkPoolSlotState::Leased,
        ForkPoolSlotState::Retiring,
    ];
    assert_eq!(
        slots.map(|s| s.as_str()),
        ["provisioning", "ready", "activating", "leased", "retiring"]
    );
    let leases = [
        ForkLeaseState::Activating,
        ForkLeaseState::Active,
        ForkLeaseState::Completed,
        ForkLeaseState::Expired,
        ForkLeaseState::Failed,
        ForkLeaseState::Cancelled,
    ];
    assert_eq!(
        leases.map(|s| s.as_str()),
        ["activating", "active", "completed", "expired", "failed", "cancelled"]
    );
}

// A plain machine's overlay is keyed by its own name; a fork clone's by
// its golden's name, so clone execs land in the CoW-inherited overlay
// (and its still-live restored mount) instead of a fresh empty one.
#[test]
fn overlay_owner_aliases_fork_clones_to_their_golden() {
    assert_eq!(persistent_overlay_owner("m1", None), "m1");
    assert_eq!(
        persistent_overlay_owner("clone-a", Some("golden-a")),
        "golden-a"
    );
}

// Only the agent's metadata-less-image failure downgrades a machine start
// to a bare-agent boot; every other launch failure must stay fatal.
#[test]
fn only_the_missing_metadata_error_is_downgraded() {
    assert!(is_missing_launch_metadata(
        "agent operation failed: run container detached: no command given \
         and image 'local-dir:/images/ubuntu' defines no entrypoint or cmd"
    ));
    assert!(!is_missing_launch_metadata("image not found: whatever"));
    assert!(!is_missing_launch_metadata(
        "run container detached: crun exited with status 1"
    ));
}

#[test]
fn launch_outcomes_follow_the_agents_answer() {
    assert_eq!(launch_outcome(Ok(())), Ok(true));
    assert_eq!(
        launch_outcome(Err("image 'x' defines no entrypoint or cmd".into())),
        Ok(false)
    );
    assert_eq!(
        launch_outcome(Err("boom".into())).unwrap_err().description(),
        "agent operation failed: start background CMD: boom"
    );
}

#[test]
fn a_workload_request_carries_the_record() {
    let mut record = WorkloadRecord {
        image: None,
        entrypoint: vec!["/entry".into()],
        cmd: vec!["a".into(), "b".into()],
        workdir: Some("/work".into()),
        user: None,
        mounts: vec![
            ("/host/a".into(), "/guest/a".into(), true),
            ("/host/b".into(), "/guest/b".into(), false),
        ],
        golden: Some("golden-a".into()),
    };
    assert!(launch_image_workload("clone-a", &record, vec![]).is_none());
    record.image = Some("alpine".into());
    let env = vec![("K".to_string(), "v".to_string())];
    let config = launch_image_workload("clone-a", &record, env.clone()).unwrap();
    assert_eq!(config.image, "alpine");
    assert_eq!(config.command, ["/entry", "a", "b"]);
    assert_eq!(config.env, env);
    assert_eq!(config.workdir.as_deref(), Some("/work"));
    assert_eq!(config.user, None);
    assert_eq!(config.persistent_overlay.as_deref(), Some("golden-a"));
    assert_eq!(
        config.mounts,
        vec![
            ("smolvm0".to_string(), "/guest/a".to_string(), true),
            ("smolvm1".to_string(), "/guest/b".to_string(), false),
        ]
    );
    let many: Vec<(String, String, bool)> =
        (0..12).map(|i| (format!("/h{i}"), format!("/g{i}"), false)).collect();
    assert_eq!(record_mounts_to_bindings(&many)[11].0, "smolvm11");
}

#[test]
fn env_fallback_picks_first_nonempty_in_order() {
    let a = "SMOLVM_TEST_PROXY_A_q7";
    let b = "SMOLVM_TEST_PROXY_B_q7";
    let mut env: Vec<(String, String)> = Vec::new();
    assert_eq!(first_nonempty_env(&[a, b], &env), None);
    env.push((b.to_string(), "http://b:3128".to_string()));
    assert_eq!(
        first_nonempty_env(&[a, b], &env).as_deref(),
        Some("http://b:3128")
    );
    // Whitespace-only is treated as unset; earlier-listed wins once real.
    env.push((a.to_string(), "   ".to_string()));
    assert_eq!(
        first_nonempty_env(&[a, b], &env).as_deref(),
        Some("http://b:3128")
    );
    env[1].1 = "http://a:3128".to_string();
    assert_eq!(
        first_nonempty_env(&[a, b], &env).as_deref(),
        Some("http://a:3128")
    );
}

#[test]
fn explicit_flag_wins_over_env() {
    let opts = ProxyOpts {
        proxy: Some("http://flag:3128".to_string()),
        no_proxy: Some("localhost".to_string()),
    };
    let env = [
        ("HTTPS_PROXY".to_string(), "http://env:3128".to_string()),
        ("NO_PROXY".to_string(), "internal".to_string()),
    ];
    // The flag short-circuits before any env lookup.
    assert_eq!(opts.proxy(&env).as_deref(), Some("http://flag:3128"));
    assert_eq!(opts.no_proxy(&env).as_deref(), Some("localhost"));
    let none = ProxyOpts::default();
    assert_eq!(none.proxy(&env).as_deref(), Some("http://env:3128"));
    assert_eq!(none.no_proxy(&env).as_deref(), Some("internal"));
    assert_eq!(none.proxy(&[]), None);
}

#[test]
fn proxy_variables_have_an_order() {
    let names = [
        "all_proxy",
        "ALL_PROXY",
        "http_proxy",
        "HTTP_PROXY",
        "https_proxy",
        "HTTPS_PROXY",
    ];
    let opts = ProxyOpts::default();
    let mut env: Vec<(String, String)> = Vec::new();
    for name in names {
        env.push((name.to_string(), name.to_lowercase()));
        assert_eq!(opts.proxy(&env), Some(name.to_lowercase()));
    }
}

#[test]
fn markers_lie_in_the_state_directory() {
    for path in [READY_PATH, RESTORED_PATH, RELEASE_PATH] {
        assert!(path.starts_with(&format!("{STATE_DIR}/")));
    }
}

#[test]
fn protocol_fingerprint_is_fnv1a() {
    assert_eq!(fnv1a(FNV_OFFSET, b""), 0xcbf2_9ce4_8422_2325);
    assert_eq!(fnv1a(FNV_OFFSET, b"a"), 0xaf63_dc4c_8601_ec8c);
    assert_eq!(fnv1a(FNV_OFFSET, b"foobar"), 0x85944171f73967e8);
    let epoch = fnv1a(FNV_OFFSET, b"epoch-1");
    assert_eq!(protocol_hash(&vec![]), epoch);
    let files = vec![b"b".to_vec(), vec![], b"ar".to_vec()];
    assert_eq!(protocol_hash(&files), fnv1a(FNV_OFFSET, b"epoch-1bar"));
    assert_eq!(protocol_hash(&vec![b"bar".to_vec()]), protocol_hash(&files));
    assert_eq!(wire_files().len(), 5);
    assert_eq!(
        hash_directive(0xab),
        "cargo:rustc-env=SMOLVM_PROTO_HASH=00000000000000ab"
    );
    assert_eq!(rerun_directive("src/proto.rs"), "cargo:rerun-if-changed=src/proto.rs");
    assert_eq!(to_hex(0x85944171f73967e8, 16), "85944171f73967e8");
    assert_eq!(to_hex(0xab, 4), "00ab");
}
