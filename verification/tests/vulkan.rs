use smolvm::vulkan::{
    append_ld_library_path, augment_exec_env, env_set, inject_into_container, is_musl_image,
    BundleProbe, OciSpec, Process, CONTAINER_BUNDLE_DIR, GUEST_BUNDLE_DIR, OPT_OUT_ENV,
};

fn spec() -> OciSpec {
    OciSpec { process: Process { env: vec![] }, mounts: vec![] }
}

fn bundle_mounted(s: &OciSpec) -> bool {
    s.mounts.iter().any(|m| m.destination == CONTAINER_BUNDLE_DIR)
}

fn probe() -> BundleProbe {
    BundleProbe {
        gpu_present: true,
        bundle_dir: GUEST_BUNDLE_DIR.to_string(),
        driver_present: true,
        icd_present: true,
        lib_entries: vec!["libc.so.6".to_string()],
    }
}

#[test]
fn injects_when_gpu_and_bundle_present() {
    let mut s = spec();
    inject_into_container(&mut s, &probe());
    assert!(s.mounts.iter().any(|m| m.destination == CONTAINER_BUNDLE_DIR));
    assert!(s
        .process
        .env
        .iter()
        .any(|e| e == "VK_DRIVER_FILES=/opt/smolvm-vulkan/virtio_icd.json"));
    assert!(s
        .process
        .env
        .iter()
        .any(|e| e.starts_with("LD_LIBRARY_PATH=") && e.contains(CONTAINER_BUNDLE_DIR)));
    assert_eq!(s.mounts[0].source, GUEST_BUNDLE_DIR);
    assert!(s.mounts[0].read_only);
}

#[test]
fn noop_without_gpu() {
    let mut s = spec();
    inject_into_container(&mut s, &BundleProbe { gpu_present: false, ..probe() });
    assert!(!bundle_mounted(&s));
    assert!(!s.process.env.iter().any(|e| e.starts_with("VK_DRIVER_FILES=")));
}

#[test]
fn noop_without_bundle() {
    let mut s = spec();
    inject_into_container(
        &mut s,
        &BundleProbe { driver_present: false, icd_present: false, ..probe() },
    );
    assert!(!bundle_mounted(&s));
    inject_into_container(&mut s, &BundleProbe { icd_present: false, ..probe() });
    assert!(!bundle_mounted(&s));
}

#[test]
fn user_driver_choice_wins() {
    let mut s = spec();
    s.process.env.push("VK_ICD_FILENAMES=/usr/share/vulkan/icd.d/mine.json".to_string());
    inject_into_container(&mut s, &probe());
    assert!(!s.process.env.iter().any(|e| e.starts_with("VK_DRIVER_FILES=")));
    // The bundle is still mounted: only the loader pin defers to the user.
    assert!(s.mounts.iter().any(|m| m.destination == CONTAINER_BUNDLE_DIR));
}

#[test]
fn opt_out_env_skips_entirely() {
    let mut s = spec();
    s.process.env.push(format!("{OPT_OUT_ENV}=1"));
    inject_into_container(&mut s, &probe());
    assert!(!bundle_mounted(&s));
}

#[test]
fn musl_image_skips() {
    let mut s = spec();
    let musl = BundleProbe { lib_entries: vec!["ld-musl-aarch64.so.1".to_string()], ..probe() };
    inject_into_container(&mut s, &musl);
    assert!(!bundle_mounted(&s));
    assert!(is_musl_image(&musl.lib_entries));
    assert!(!is_musl_image(&probe().lib_entries));
}

#[test]
fn ld_library_path_appends_and_dedupes() {
    let mut env = vec!["LD_LIBRARY_PATH=/usr/lib".to_string()];
    append_ld_library_path(&mut env, CONTAINER_BUNDLE_DIR);
    assert_eq!(
        env[0],
        format!("LD_LIBRARY_PATH=/usr/lib:{CONTAINER_BUNDLE_DIR}")
    );
    append_ld_library_path(&mut env, CONTAINER_BUNDLE_DIR);
    assert_eq!(env.len(), 1);
    assert_eq!(env[0].matches(CONTAINER_BUNDLE_DIR).count(), 1);
    let mut none = vec!["PATH=/bin".to_string()];
    append_ld_library_path(&mut none, "/x");
    assert_eq!(none, ["PATH=/bin", "LD_LIBRARY_PATH=/x"]);
}

#[test]
fn a_variable_counts_as_set_when_it_holds_something() {
    let env = vec!["A=".to_string(), "BB=1".to_string()];
    assert!(!env_set(&env, "A"));
    assert!(!env_set(&env, "B"));
    assert!(env_set(&env, "BB"));
}

#[test]
fn exec_environments_are_augmented_once() {
    let pairs = |list: &[(&str, &str)]| -> Vec<(String, String)> {
        list.iter().map(|(k, v)| (k.to_string(), v.to_string())).collect()
    };
    assert_eq!(augment_exec_env(pairs(&[("A", "b")]), false, true), pairs(&[("A", "b")]));
    assert_eq!(augment_exec_env(pairs(&[("A", "b")]), true, false), pairs(&[("A", "b")]));
    let once = augment_exec_env(pairs(&[("LD_LIBRARY_PATH", "/l")]), true, true);
    assert_eq!(
        once,
        pairs(&[
            ("LD_LIBRARY_PATH", "/l:/opt/smolvm-vulkan"),
            ("VK_DRIVER_FILES", "/opt/smolvm-vulkan/virtio_icd.json"),
        ])
    );
    assert_eq!(augment_exec_env(once.clone(), true, true), once);
    assert_eq!(
        augment_exec_env(pairs(&[("VK_ICD_FILENAMES", "/mine.json")]), true, true),
        pairs(&[("VK_ICD_FILENAMES", "/mine.json"), ("LD_LIBRARY_PATH", "/opt/smolvm-vulkan")])
    );
    let fresh = augment_exec_env(pairs(&[("VK_DRIVER_FILES", ""), ("A", "b")]), true, true);
    assert_eq!(fresh.len(), 4);
    assert_eq!(augment_exec_env(fresh.clone(), true, true), fresh);
}
