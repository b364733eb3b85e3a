use serde_json::Value;
use smolvm::pack_ref::{
    configured_credential, document_has_pack_layer, explicit_registry_host, is_auth_denial,
    is_docker_hub, manifest_has_pack_layer, may_probe, plan_probe, probe_outcome, ProbeCredential,
    ProbeOutcome, Reference, RegistryAuth, RegistryConfig, RegistryEntry, RegistryError,
    SmolSettings,
};

fn object(members: Vec<(&str, Value)>) -> Value {
    let mut map = serde_json::Map::new();
    for (key, value) in members {
        map.insert(key.to_string(), value);
    }
    Value::Object(map)
}

fn text(s: &str) -> Value {
    Value::String(s.to_string())
}

fn descriptor(media_type: &str, digest: &str, size: u64) -> Value {
    object(vec![
        ("mediaType", text(media_type)),
        ("digest", text(digest)),
        ("size", Value::from(size)),
    ])
}

#[test]
fn pack_manifests_are_detected_by_layer_media_type() {
    // The exact shape `smolvm pack push` produces.
    let pack = object(vec![
        ("schemaVersion", Value::from(2)),
        ("mediaType", text("application/vnd.oci.image.manifest.v1+json")),
        (
            "config",
            descriptor(
                "application/vnd.smolmachines.machine.config.v1+json",
                "sha256:1111111111111111111111111111111111111111111111111111111111111111",
                2,
            ),
        ),
        (
            "layers",
            Value::Array(vec![descriptor(
                "application/vnd.smolmachines.smolmachine.v1",
                "sha256:2222222222222222222222222222222222222222222222222222222222222222",
                123,
            )]),
        ),
    ]);
    assert!(manifest_has_pack_layer(&serde_json::to_vec(&pack).unwrap()));
    assert!(document_has_pack_layer(&pack));

    // An ordinary container manifest (gzip layers) must not match.
    let oci = object(vec![
        ("schemaVersion", Value::from(2)),
        ("mediaType", text("application/vnd.oci.image.manifest.v1+json")),
        ("config", descriptor("application/vnd.oci.image.config.v1+json", "sha256:aa", 1)),
        (
            "layers",
            Value::Array(vec![
                descriptor("application/vnd.oci.image.layer.v1.tar+gzip", "sha256:bb", 1),
                descriptor("application/vnd.docker.image.rootfs.diff.tar.gzip", "sha256:cc", 1),
            ]),
        ),
    ]);
    assert!(!manifest_has_pack_layer(&serde_json::to_vec(&oci).unwrap()));

    // Layerless docs (an image index) and garbage are "not a pack".
    let index = object(vec![
        ("schemaVersion", Value::from(2)),
        ("manifests", Value::Array(vec![])),
    ]);
    assert!(!manifest_has_pack_layer(&serde_json::to_vec(&index).unwrap()));
    assert!(!manifest_has_pack_layer(b"not json"));
}

#[test]
fn oddly_shaped_manifests_are_no_packs() {
    assert!(!document_has_pack_layer(&Value::Null));
    assert!(!document_has_pack_layer(&object(vec![("layers", text("x"))])));
    let numbers = object(vec![(
        "layers",
        Value::Array(vec![Value::from(1), object(vec![("mediaType", Value::from(7))])]),
    )]);
    assert!(!document_has_pack_layer(&numbers));
    let second = object(vec![(
        "layers",
        Value::Array(vec![Value::from(1), descriptor("application/vnd.smolmachines.v9", "d", 0)]),
    )]);
    assert!(document_has_pack_layer(&second));
    assert!(manifest_has_pack_layer(
        b" {\"layers\":[{\"mediaType\":\"application/vnd.smolmachines.x\"}]}\n"
    ));
    assert!(!manifest_has_pack_layer(
        b"{\"layers\":[{\"mediaType\":\"application/vnd.smolmachines.x\"}]} trailing"
    ));
}

#[test]
fn only_explicit_non_hub_hosts_are_probed() {
    // Bare Docker-convention names mean Docker Hub to the in-guest puller;
    // probing them against the smolmachines default would hijack the pull.
    assert_eq!(explicit_registry_host("alpine"), None);
    assert_eq!(explicit_registry_host("alpine:3.20"), None);
    assert_eq!(explicit_registry_host("library/ubuntu:24.04"), None);

    assert_eq!(
        explicit_registry_host("registry.smolmachines.com/library/alpine:latest"),
        Some("registry.smolmachines.com")
    );
    assert_eq!(
        explicit_registry_host("localhost:5000/myimage:dev"),
        Some("localhost:5000")
    );
    assert_eq!(explicit_registry_host("ghcr.io/o/r:v1"), Some("ghcr.io"));
    assert_eq!(explicit_registry_host("localhost/x"), Some("localhost"));
    assert_eq!(explicit_registry_host("ghcr.io/"), None);

    // Explicit Docker Hub spellings short-circuit without a probe.
    assert!(is_docker_hub("docker.io"));
    assert!(is_docker_hub("index.docker.io"));
    assert!(is_docker_hub("registry-1.docker.io"));
    assert!(!is_docker_hub("registry.smolmachines.com"));
    assert!(!may_probe("docker.io/library/alpine"));
    assert!(!may_probe("alpine"));
    assert!(may_probe("ghcr.io/o/r:v1"));
}

fn bearer_entry(password: &str) -> RegistryEntry {
    RegistryEntry {
        auth: Some(RegistryAuth {
            username: "token".to_string(),
            password: password.to_string(),
        }),
        ..Default::default()
    }
}

/// Build a settings object with a direct-bearer credential for `registry`
/// in whichever section the caller names.
fn settings_with_credential(
    section: fn(&mut SmolSettings) -> &mut RegistryConfig,
    registry: &str,
    password: &str,
) -> SmolSettings {
    let mut settings = SmolSettings::default();
    section(&mut settings)
        .registries
        .push((registry.to_string(), bearer_entry(password)));
    settings
}

#[test]
fn a_probe_credential_falls_back_to_the_image_section() {
    const REG: &str = "registry.smolmachines.com";

    // Configured under `machines`: the section a pack probe expects.
    let s = settings_with_credential(|s| &mut s.machines, REG, "from-machines");
    assert!(matches!(
        configured_credential(&s, REG),
        Some(ProbeCredential::Bearer(t)) if t == "from-machines"
    ));

    // Configured only under `images`. One host can serve both artifact
    // kinds, and the user already gave us a credential for it.
    let s = settings_with_credential(|s| &mut s.images, REG, "from-images");
    assert!(matches!(
        configured_credential(&s, REG),
        Some(ProbeCredential::Bearer(t)) if t == "from-images"
    ));

    // `machines` still wins when both are present.
    let mut s = settings_with_credential(|s| &mut s.machines, REG, "from-machines");
    s.images.registries.push((REG.to_string(), bearer_entry("from-images")));
    assert!(matches!(
        configured_credential(&s, REG),
        Some(ProbeCredential::Bearer(t)) if t == "from-machines"
    ));
}

#[test]
fn a_credential_is_never_borrowed_across_registries() {
    // The fallback crosses SECTIONS, never HOSTS: a credential for one
    // registry must not be presented to a different one.
    let s = settings_with_credential(|s| &mut s.images, "ghcr.io", "ghcr-secret");
    assert!(configured_credential(&s, "registry.smolmachines.com").is_none());
    assert!(configured_credential(&s, "docker.io").is_none());
    assert!(configured_credential(&s, "ghcr.io").is_some());
}

#[test]
fn entries_of_other_registries_change_nothing() {
    let mut s = settings_with_credential(|s| &mut s.images, "ghcr.io", "ghcr-secret");
    let before = configured_credential(&s, "ghcr.io");
    assert_eq!(before, Some(ProbeCredential::Bearer("ghcr-secret".into())));
    s.machines.registries.push(("quay.io".into(), bearer_entry("other")));
    s.images.registries.insert(0, ("quay.io".into(), bearer_entry("other")));
    s.images.registries.push(("docker.io".into(), bearer_entry("other")));
    assert_eq!(configured_credential(&s, "ghcr.io"), before);
}

#[test]
fn credentials_keep_their_form() {
    let mut s = SmolSettings::default();
    let mut entry = RegistryEntry {
        identity_token: None,
        auth: Some(RegistryAuth { username: "me".into(), password: "pw".into() }),
    };
    s.machines.registries.push(("ghcr.io".into(), entry.clone()));
    assert_eq!(
        configured_credential(&s, "ghcr.io"),
        Some(ProbeCredential::Basic { username: "me".into(), password: "pw".into() })
    );
    entry.identity_token = Some("jwt".into());
    s.machines.registries[0].1 = entry;
    assert_eq!(
        configured_credential(&s, "ghcr.io"),
        Some(ProbeCredential::Identity("jwt".into()))
    );
    s.machines.registries[0].1 = RegistryEntry::default();
    assert_eq!(configured_credential(&s, "ghcr.io"), None);
}

#[test]
fn auth_denials_are_distinguished_from_ordinary_probe_failures() {
    // A missing/unscoped credential: the case worth warning about.
    assert!(is_auth_denial(&RegistryError::Authentication {
        message: "no token".into()
    }));
    assert!(is_auth_denial(&RegistryError::ApiError {
        status: 401,
        body: "UNAUTHORIZED".into()
    }));
    assert!(is_auth_denial(&RegistryError::ApiError {
        status: 403,
        body: "DENIED".into()
    }));

    // Ordinary best-effort noise stays at debug: a 404 means the ref really
    // isn't there, and a 500 means the registry is unwell.
    assert!(!is_auth_denial(&RegistryError::ApiError {
        status: 404,
        body: "NAME_UNKNOWN".into()
    }));
    assert!(!is_auth_denial(&RegistryError::ApiError {
        status: 500,
        body: "boom".into()
    }));
    assert!(!is_auth_denial(&RegistryError::InvalidManifest(
        "garbage".into()
    )));
}

#[test]
fn probes_fail_open() {
    let outcome = probe_outcome(Err(RegistryError::ApiError { status: 401, body: "".into() }));
    assert_eq!(outcome, ProbeOutcome::Denied);
    assert_eq!(probe_outcome(Err(RegistryError::Other("dns".into()))), ProbeOutcome::Unanswered);
    assert_eq!(probe_outcome(Ok(b"{}".to_vec())), ProbeOutcome::NotAPack);
    assert_eq!(
        probe_outcome(Ok(
            b"{\"layers\":[{\"mediaType\":\"application/vnd.smolmachines.x\"}]}".to_vec()
        )),
        ProbeOutcome::Pack
    );
}

#[test]
fn a_probe_is_planned_from_the_reference() {
    let mut parsed = Reference {
        registry: "ghcr.io".into(),
        repository: "o/r".into(),
        digest: None,
        tag: None,
    };
    let settings = settings_with_credential(|s| &mut s.images, "ghcr.io", "secret");
    let plan = plan_probe(&parsed, None, false, None, &settings).unwrap();
    assert_eq!(plan.base_url, "https://ghcr.io");
    assert_eq!(plan.repository, "o/r");
    assert_eq!(plan.reference, "latest");
    assert_eq!(plan.credential, Some(ProbeCredential::Bearer("secret".into())));

    parsed.tag = Some("v1".into());
    let plan = plan_probe(&parsed, Some("localhost:5000"), true, Some("minted"), &settings).unwrap();
    assert_eq!(plan.base_url, "http://localhost:5000");
    assert_eq!(plan.reference, "v1");
    // A supplied identity token takes precedence over the settings.
    assert_eq!(plan.credential, Some(ProbeCredential::Identity("minted".into())));

    parsed.digest = Some("sha256:aa".into());
    let plan = plan_probe(&parsed, None, false, None, &SmolSettings::default()).unwrap();
    assert_eq!(plan.reference, "sha256:aa");
    assert_eq!(plan.credential, None);
    assert!(plan_probe(&parsed, Some("docker.io"), false, None, &settings).is_none());
}
