use smolvm::remote_volume::{
    from_parts, is_remote_source, mount_commands, mount_script, parse_spec, preflight_command,
    split_specs, verify_command, RemoteVolume,
};

fn split(specs: &[&str]) -> (Vec<String>, Vec<RemoteVolume>) {
    let specs: Vec<String> = specs.iter().map(|s| s.to_string()).collect();
    split_specs(&specs).unwrap()
}

#[test]
fn host_specs_pass_through_untouched() {
    // Plain dirs, relative dirs, and Windows drive-letter paths all stay
    // host mounts exactly as written.
    let (host, remote) = split(&["/data:/data:ro", "C:\\data:/data", "./x:/y"]);
    assert_eq!(host.len(), 3);
    assert!(remote.is_empty());
    assert_eq!(host, ["/data:/data:ro", "C:\\data:/data", "./x:/y"]);
}

#[test]
fn s3_sugar_parses_with_mode() {
    let (host, remote) = split(&["s3://my-bucket/prefix:/mnt/data:ro"]);
    assert!(host.is_empty());
    assert_eq!(
        remote,
        vec![RemoteVolume {
            source: "s3://my-bucket/prefix".into(),
            target: "/mnt/data".into(),
            read_only: true,
        }]
    );
}

#[test]
fn raw_rclone_strings_keep_their_internal_colons() {
    // The connection string itself contains ':' and ','; the right-anchored
    // parse peels the guest path off the end.
    let (_, remote) = split(&[":sftp,host=example.com,user=me:/srv/files:/mnt/sftp"]);
    assert_eq!(remote[0].source, ":sftp,host=example.com,user=me:/srv/files");
    assert_eq!(remote[0].target, "/mnt/sftp");
    assert!(!remote[0].read_only);
}

#[test]
fn s3_translation_is_anonymous_without_credentials() {
    let v = &split(&["s3://bucket/p:/d"]).1[0];
    assert_eq!(v.rclone_remote(&[]).unwrap(), ":s3,provider=AWS:bucket/p");
}

#[test]
fn s3_translation_uses_env_auth_and_endpoint_when_present() {
    let v = &split(&["s3://bucket:/d"]).1[0];
    let env = vec![
        ("AWS_ACCESS_KEY_ID".to_string(), "k".to_string()),
        (
            "AWS_ENDPOINT_URL".to_string(),
            "https://acc.r2.cloudflarestorage.com".to_string(),
        ),
    ];
    assert_eq!(
        v.rclone_remote(&env).unwrap(),
        ":s3,provider=AWS,env_auth=true,endpoint=\"https://acc.r2.cloudflarestorage.com\":bucket"
    );
    // http endpoints additionally force multipart uploads: streaming
    // single-part PUTs to plain http fail in rclone's aws-sdk-v2 backend.
    let http_env = vec![(
        "AWS_ENDPOINT_URL".to_string(),
        "http://100.96.0.1:9000".to_string(),
    )];
    assert_eq!(
        v.rclone_remote(&http_env).unwrap(),
        ":s3,provider=AWS,endpoint=\"http://100.96.0.1:9000\",upload_cutoff=0:bucket"
    );
}

#[test]
fn rejects_relative_guest_path_and_quotes_and_empty_bucket() {
    assert!(split_specs(&["s3://b:data".to_string()]).is_err());
    assert!(split_specs(&["s3://b:/it's:ro".to_string()]).is_err());
    assert!(split_specs(&["s3://:/d".to_string()]).is_err());
    assert!(split_specs(&["s3://b:/d".to_string(), "s3://c:/d".to_string()]).is_err());
}

#[test]
fn raw_remote_must_keep_its_path_colon() {
    // Missing ':path' (the trailing colon was eaten as the guest separator)
    // is rejected with the '::' hint...
    let err = split_specs(&[":http,url=\"https://host\":/mnt/d".to_string()]).unwrap_err();
    assert!(err.description().contains("::"));
    // ...and the double-colon empty-path form parses with the colon intact.
    let (_, remote) = split(&[":http,url=\"https://host\"::/mnt/d:ro"]);
    assert_eq!(remote[0].source, ":http,url=\"https://host\":");
    assert_eq!(remote[0].target, "/mnt/d");
}

#[test]
fn mount_script_is_the_joined_mount_commands_not_a_wrapper() {
    // The host builds only the mount SCRIPT; the agent wraps it ahead of the
    // image-resolved command (so a service image's entrypoint is preserved).
    let vols = split(&["s3://bucket:/mnt/d:ro"]).1;
    let script = mount_script(&vols, &[]).unwrap();
    assert!(script.contains("rclone"), "script mounts via rclone: {script}");
    assert!(script.contains("/mnt/d"), "script targets the guest path: {script}");
    assert!(
        !script.contains("exec \"$@\"") && !script.contains("sleep infinity"),
        "wrapping is the agent's job now, not the host's: {script}"
    );
    let two = split(&["s3://bucket:/mnt/d:ro", "s3://other:/mnt/e"]).1;
    let commands = mount_commands(&two, &[]).unwrap();
    assert_eq!(mount_script(&two, &[]).unwrap(), commands.join(" && "));
}

#[test]
fn from_parts_matches_colon_parser() {
    let structured = from_parts("s3://bucket/pfx", "/mnt/d", true).unwrap();
    let parsed = &split(&["s3://bucket/pfx:/mnt/d:ro"]).1[0];
    assert_eq!(&structured, parsed);
    // Same validation as the colon parser: relative target, missing
    // rclone path colon, empty bucket.
    assert!(from_parts("s3://b", "relative", false).is_err());
    assert!(from_parts(":http,url=\"https://h\"", "/mnt/x", false).is_err());
    assert!(from_parts("s3://", "/mnt/x", false).is_err());
    // Colon in a structured target would mis-split the reassembled spec.
    assert!(from_parts("s3://b", "/mnt/a:ro", false).is_err());
    assert!(!is_remote_source("/host/dir"));
    assert!(is_remote_source("s3://b"));
    assert!(is_remote_source(":http,url=\"https://h\":"));
}

#[test]
fn mount_command_quotes_and_picks_mode() {
    let v = &split(&["s3://bucket:/mnt/d:ro"]).1[0];
    let cmd = v.mount_command(&[]).unwrap();
    assert!(cmd.contains("rclone mount ':s3,provider=AWS:bucket' '/mnt/d' --daemon --read-only"));
    assert!(cmd.contains("mknod /dev/fuse"));
    let rw = &split(&["s3://bucket:/mnt/d"]).1[0];
    assert!(rw
        .mount_command(&[])
        .unwrap()
        .contains("--daemon --vfs-cache-mode writes"));
}

#[test]
fn each_mistake_in_a_spec_has_its_message() {
    let reason = |spec: &str| parse_spec(spec).unwrap_err().description();
    assert_eq!(
        reason("s3://b:data"),
        "parse remote volume: remote volume guest path must be absolute: 's3://b:data'"
    );
    assert_eq!(
        reason("s3://b:/a b"),
        "parse remote volume: remote volume guest path must not contain spaces: 's3://b:/a b'"
    );
    assert_eq!(
        reason("s3://b'c:/d:rw"),
        "parse remote volume: remote volume spec must not contain single quotes: 's3://b'c:/d:rw'"
    );
    assert_eq!(
        reason("s3:////:/d"),
        "parse remote volume: s3 volume needs a bucket name: 's3:////:/d'"
    );
    let duplicate = split_specs(&["s3://b:/d".to_string(), "s3://c:/d".to_string()]);
    assert_eq!(
        duplicate.unwrap_err().description(),
        "parse remote volume: duplicate mount target: /d is specified more than once"
    );
    assert_eq!(
        from_parts("/host", "/d", false).unwrap_err().description(),
        "parse remote volume: not a remote volume source: '/host'"
    );
    assert_eq!(
        from_parts("s3://b", "/d:x", false).unwrap_err().description(),
        "parse remote volume: remote volume guest path must not contain ':': '/d:x'"
    );
    assert_eq!(parse_spec("no-colon").unwrap(), None);
}

#[test]
fn an_endpoint_with_quotes_is_refused() {
    let v = &split(&["s3://bucket:/d"]).1[0];
    let env = vec![("AWS_ENDPOINT_URL".to_string(), "http://a\"b".to_string())];
    assert_eq!(
        v.rclone_remote(&env).unwrap_err().description(),
        "remote volume: AWS_ENDPOINT_URL must not contain quotes"
    );
    assert!(v.mount_command(&env).is_err());
    assert!(mount_script(&[v.clone()], &env).is_err());
    // A raw connection string does not look at the environment.
    let raw = &split(&[":sftp,host=h:/p:/d"]).1[0];
    assert_eq!(raw.rclone_remote(&env).unwrap(), ":sftp,host=h:/p");
}

#[test]
fn checks_cover_every_volume() {
    assert_eq!(preflight_command(&[]), None);
    assert_eq!(verify_command(&[]), None);
    let two = split(&["s3://bucket:/mnt/d:ro", "s3://other:/mnt/e"]).1;
    assert!(preflight_command(&two).unwrap().contains("command -v fusermount3"));
    let verify = verify_command(&two).unwrap();
    assert!(verify.contains(
        "if awk -v m='/mnt/d' '$2==m' /proc/mounts | grep -q rclone && awk -v m='/mnt/e' '$2==m' /proc/mounts | grep -q rclone; then exit 0; fi"
    ));
    assert!(verify.starts_with("t=0; while [ $t -lt 30 ]; do if "));
    assert!(verify.ends_with("for the rclone error\" >&2; exit 1"));
}

#[test]
fn parts_are_kept_or_refused() {
    let kept = from_parts(":sftp,host=h:/p", "/d", false).unwrap();
    assert_eq!((kept.source.as_str(), kept.target.as_str()), (":sftp,host=h:/p", "/d"));
    assert!(!kept.read_only);
    // A relative target is refused, also where it is a mode word.
    let reason = |target: &str, read_only: bool| {
        from_parts("s3://b:/p", target, read_only).unwrap_err().description()
    };
    assert!(reason("ro", false).ends_with("guest path must be absolute: 's3://b:/p:ro'"));
    assert!(reason("rw", false).ends_with("guest path must be absolute: 's3://b:/p:rw'"));
    assert!(reason("ro", true).ends_with("guest path must be absolute: 's3://b:/p:ro:ro'"));
    assert!(reason("rw", true).ends_with("guest path must be absolute: 's3://b:/p:rw:ro'"));
    // A host directory is no remote source, whatever the target.
    let host = |target: &str| from_parts("/host", target, false).unwrap_err().description();
    assert!(host("/d").ends_with("not a remote volume source: '/host'"));
    assert!(host("ro").ends_with("not a remote volume source: '/host'"));
}
