use smolvm::platform::host::{RosettaSupport, VmExecutor};
use smolvm::platform::windows::{rosetta_support, WindowsExecutor};
use smolvm::platform::{
    ensure_artifact_arch_matches_host, native_platform, rosetta, vm_executor, Arch, Os, Platform,
};

#[test]
fn test_artifact_arch_guard() {
    for target in ["x86_64", "aarch64"] {
        let arch = Arch::current(target).unwrap();
        let host = arch.oci_arch();
        let other = if host == "amd64" { "arm64" } else { "amd64" };

        // Matching arch (with the linux/ prefix) is accepted.
        assert!(ensure_artifact_arch_matches_host(&format!("linux/{host}"), arch).is_ok());
        // Bare arch string also accepted when it matches.
        assert!(ensure_artifact_arch_matches_host(host, arch).is_ok());
        // The opposite arch is rejected.
        assert!(ensure_artifact_arch_matches_host(&format!("linux/{other}"), arch).is_err());
        // Host OS is irrelevant: only the arch matters (Mac-built pack on Linux).
        assert!(ensure_artifact_arch_matches_host(&format!("darwin/{host}"), arch).is_ok());
        // Blank / unrecognized arch is allowed through rather than false-rejected.
        assert!(ensure_artifact_arch_matches_host("", arch).is_ok());
        assert!(ensure_artifact_arch_matches_host("linux/riscv64", arch).is_ok());
    }
}

#[test]
fn an_arch_mismatch_is_explained() {
    let error = ensure_artifact_arch_matches_host("linux/arm64 ", Arch::X86_64).unwrap_err();
    assert_eq!(
        error.description(),
        "agent operation failed: platform mismatch: this artifact is built for architecture \
         'arm64' (platform 'linux/arm64 '), but this host is 'amd64'. A packed VM or image \
         carries native binaries and cannot run on a different CPU architecture — re-pack on an \
         'arm64' host, or use an 'amd64' artifact."
    );
}

#[test]
fn test_current_platform_is_valid() {
    let platform = Platform::current("linux", "x86_64").unwrap();
    // Should not panic and should have valid values
    let _ = platform.oci_platform();
    assert_eq!(platform.os.as_str(), "linux");
    assert_eq!(platform.arch.as_str(), "x86_64");
    assert_eq!(Platform::current("plan9", "x86_64"), None);
    assert_eq!(Platform::current("macos", "riscv64"), None);
    assert_eq!(Os::current("windows"), Some(Os::Windows));
    assert!(Os::Windows.is_windows());
}

#[test]
fn test_oci_platform_format() {
    for os in [Os::MacOs, Os::Linux, Os::Windows] {
        for arch in [Arch::Arm64, Arch::X86_64] {
            let platform_str = native_platform(&Platform { os, arch });
            assert!(platform_str.starts_with("linux/"));
            assert!(
                platform_str == "linux/arm64" || platform_str == "linux/amd64",
                "unexpected platform: {}",
                platform_str
            );
        }
    }
}

#[test]
fn test_arch_oci_strings() {
    assert_eq!(Arch::Arm64.oci_arch(), "arm64");
    assert_eq!(Arch::X86_64.oci_arch(), "amd64");
}

#[test]
fn test_platform_supports_rosetta() {
    let macos_arm = Platform { os: Os::MacOs, arch: Arch::Arm64 };
    let macos_intel = Platform { os: Os::MacOs, arch: Arch::X86_64 };
    let linux_arm = Platform { os: Os::Linux, arch: Arch::Arm64 };
    let linux_x86 = Platform { os: Os::Linux, arch: Arch::X86_64 };

    assert!(macos_arm.supports_rosetta());
    assert!(!macos_intel.supports_rosetta());
    assert!(!linux_arm.supports_rosetta());
    assert!(!linux_x86.supports_rosetta());
}

#[test]
fn test_os_helpers() {
    assert!(Os::MacOs.is_macos());
    assert!(!Os::MacOs.is_linux());
    assert!(Os::Linux.is_linux());
    assert!(!Os::Linux.is_macos());
}

#[test]
fn test_arch_helpers() {
    assert!(Arch::Arm64.is_arm64());
    assert!(!Arch::Arm64.is_x86_64());
    assert!(Arch::X86_64.is_x86_64());
    assert!(!Arch::X86_64.is_arm64());
}

#[test]
fn test_platform_display() {
    let platform = Platform { os: Os::MacOs, arch: Arch::Arm64 };
    assert_eq!(platform.description(), "macos/arm64");
}

#[test]
fn test_host_oci_platform_all_combos() {
    let cases = [
        (Os::MacOs, Arch::Arm64, "darwin/arm64"),
        (Os::MacOs, Arch::X86_64, "darwin/amd64"),
        (Os::Linux, Arch::Arm64, "linux/arm64"),
        (Os::Linux, Arch::X86_64, "linux/amd64"),
        (Os::Windows, Arch::X86_64, "windows/amd64"),
    ];
    for (os, arch, expected) in cases {
        let p = Platform { os, arch };
        assert_eq!(p.host_oci_platform(), expected, "failed for {:?}/{:?}", os, arch);
    }
}

#[test]
fn executors_follow_the_host() {
    assert!(matches!(vm_executor(Os::MacOs), VmExecutor::MacOs));
    assert!(matches!(vm_executor(Os::Linux), VmExecutor::Linux));
    assert!(matches!(vm_executor(Os::Windows), VmExecutor::Windows(_)));
    assert!(matches!(rosetta(Os::MacOs), RosettaSupport::MacOs));
    assert!(matches!(rosetta(Os::Linux), RosettaSupport::Linux));
    assert!(matches!(rosetta(Os::Windows), RosettaSupport::Windows(_)));
    assert!(!rosetta_support().is_available());
    assert_eq!(rosetta_support().runtime_path(), None);
}

#[test]
fn windows_commands_are_checked() {
    let executor = WindowsExecutor;
    let build = |command: Option<Vec<String>>| {
        executor.build_exec_command(&command, &[], "/rootfs", false)
    };
    assert_eq!(build(None).unwrap(), ("/bin/sh".to_string(), vec![]));
    assert_eq!(
        build(Some(vec!["/bin/echo".into(), "a".into(), "b".into()])).unwrap(),
        ("/bin/echo".to_string(), vec!["a".to_string(), "b".to_string()])
    );
    assert_eq!(
        build(Some(vec![])).unwrap_err().description(),
        "machine creation failed: command cannot be empty"
    );
    assert_eq!(
        build(Some(vec!["a\0".into(), "b\0".into()])).unwrap_err().description(),
        "machine creation failed: invalid command path"
    );
    assert_eq!(
        build(Some(vec!["a".into(), "b\0".into()])).unwrap_err().description(),
        "machine creation failed: invalid command argument"
    );
    assert!(!executor.requires_mount_wrapper());
    assert_eq!(executor.dylib_extension(), "dll");
    assert!(executor.tool_search_paths().is_empty());
    assert!(executor.library_search_paths().is_empty());
}
