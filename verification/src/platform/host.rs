//! Operating system and architecture of the host.
use vstd::prelude::*;
use crate::error::{Error, Failure};
use crate::platform::windows::{rosetta_support, WindowsExecutor, WindowsRosetta};
use crate::text::{rsplit_once, same, trim};

verus! {

/// Host operating system.
#[derive(Debug, Clone, Copy, PartialEq, Eq, Hash, Structural)]
pub enum Os {
    /// macOS (Darwin)
    MacOs,
    /// Linux
    Linux,
    /// Windows
    Windows,
}

impl Os {
    /// The operating system that Rust calls `name`.
    pub open spec fn named(name: Seq<char>) -> Option<Os> {
        if name == "macos"@ {
            Some(Os::MacOs)
        } else if name == "linux"@ {
            Some(Os::Linux)
        } else if name == "windows"@ {
            Some(Os::Windows)
        } else {
            None
        }
    }

    /// The name of the operating system.
    pub open spec fn label(self) -> Seq<char> {
        match self {
            Os::MacOs => "macos"@,
            Os::Linux => "linux"@,
            Os::Windows => "windows"@,
        }
    }

    /// The OS of a build for the given target, if smolvm runs on it.
    pub fn current(target_os: &str) -> (r: Option<Os>)
        ensures
            r == Os::named(target_os@),
    {
        if same(target_os, "macos") {
            Some(Os::MacOs)
        } else if same(target_os, "linux") {
            Some(Os::Linux)
        } else if same(target_os, "windows") {
            Some(Os::Windows)
        } else {
            None
        }
    }

    /// Returns true if running on macOS.
    pub fn is_macos(&self) -> (r: bool)
        ensures
            r == (*self is MacOs),
    {
        matches!(self, Os::MacOs)
    }

    /// Returns true if running on Linux.
    pub fn is_linux(&self) -> (r: bool)
        ensures
            r == (*self is Linux),
    {
        matches!(self, Os::Linux)
    }

    /// Returns true if running on Windows.
    pub fn is_windows(&self) -> (r: bool)
        ensures
            r == (*self is Windows),
    {
        matches!(self, Os::Windows)
    }

    /// The name of the operating system.
    pub fn as_str(&self) -> (r: &'static str)
        ensures
            r@ == self.label(),
    {
        match self {
            Os::MacOs => "macos",
            Os::Linux => "linux",
            Os::Windows => "windows",
        }
    }
}

/// Host CPU architecture.
#[derive(Debug, Clone, Copy, PartialEq, Eq, Hash, Structural)]
pub enum Arch {
    /// ARM 64-bit (aarch64)
    Arm64,
    /// x86 64-bit (amd64)
    X86_64,
}

impl Arch {
    /// The architecture that Rust calls `name`.
    pub open spec fn named(name: Seq<char>) -> Option<Arch> {
        if name == "aarch64"@ {
            Some(Arch::Arm64)
        } else if name == "x86_64"@ {
            Some(Arch::X86_64)
        } else {
            None
        }
    }

    /// The name of the architecture in OCI image manifests.
    pub open spec fn oci_label(self) -> Seq<char> {
        match self {
            Arch::Arm64 => "arm64"@,
            Arch::X86_64 => "amd64"@,
        }
    }

    /// The name of the architecture.
    pub open spec fn label(self) -> Seq<char> {
        match self {
            Arch::Arm64 => "arm64"@,
            Arch::X86_64 => "x86_64"@,
        }
    }

    /// The architecture of a build for the given target, if smolvm runs on it.
    pub fn current(target_arch: &str) -> (r: Option<Arch>)
        ensures
            r == Arch::named(target_arch@),
    {
        if same(target_arch, "aarch64") {
            Some(Arch::Arm64)
        } else if same(target_arch, "x86_64") {
            Some(Arch::X86_64)
        } else {
            None
        }
    }

    /// Convert to OCI platform architecture string.
    ///
    /// Returns "arm64" or "amd64" as used in OCI image manifests.
    pub fn oci_arch(&self) -> (r: &'static str)
        ensures
            r@ == self.oci_label(),
    {
        match self {
            Arch::Arm64 => "arm64",
            Arch::X86_64 => "amd64",
        }
    }

    /// Returns true if running on ARM64.
    pub fn is_arm64(&self) -> (r: bool)
        ensures
            r == (*self is Arm64),
    {
        matches!(self, Arch::Arm64)
    }

    /// Returns true if running on x86_64.
    pub fn is_x86_64(&self) -> (r: bool)
        ensures
            r == (*self is X86_64),
    {
        matches!(self, Arch::X86_64)
    }

    /// The name of the architecture.
    pub fn as_str(&self) -> (r: &'static str)
        ensures
            r@ == self.label(),
    {
        match self {
            Arch::Arm64 => "arm64",
            Arch::X86_64 => "x86_64",
        }
    }
}

/// Combined platform identifier (OS + architecture).
#[derive(Debug, Clone, Copy, PartialEq, Eq, Hash, Structural)]
pub struct Platform {
    /// Operating system
    pub os: Os,
    /// CPU architecture
    pub arch: Arch,
}

impl Platform {
    /// The OCI platform of a guest: always Linux, on the host's architecture.
    pub open spec fn guest_label(self) -> Seq<char> {
        match self.arch {
            Arch::Arm64 => "linux/arm64"@,
            Arch::X86_64 => "linux/amd64"@,
        }
    }

    /// The OCI platform of the host.
    pub open spec fn host_label(self) -> Seq<char> {
        match (self.os, self.arch) {
            (Os::MacOs, Arch::Arm64) => "darwin/arm64"@,
            (Os::MacOs, Arch::X86_64) => "darwin/amd64"@,
            (Os::Linux, Arch::Arm64) => "linux/arm64"@,
            (Os::Linux, Arch::X86_64) => "linux/amd64"@,
            (Os::Windows, Arch::Arm64) => "windows/arm64"@,
            (Os::Windows, Arch::X86_64) => "windows/amd64"@,
        }
    }

    /// The platform of a build for the given target, if smolvm runs on it.
    pub fn current(target_os: &str, target_arch: &str) -> (r: Option<Platform>)
        ensures
            r == match (Os::named(target_os@), Arch::named(target_arch@)) {
                (Some(os), Some(arch)) => Some(Platform { os, arch }),
                _ => None,
            },
    {
        match (Os::current(target_os), Arch::current(target_arch)) {
            (Some(os), Some(arch)) => Some(Platform { os, arch }),
            _ => None,
        }
    }

    /// Convert to OCI platform string (e.g., "linux/arm64").
    ///
    /// Note: The OS is always "linux" for container images,
    /// regardless of the host OS, since VMs run Linux guests.
    pub fn oci_platform(&self) -> (r: &'static str)
        ensures
            r@ == self.guest_label(),
    {
        match self.arch {
            Arch::Arm64 => "linux/arm64",
            Arch::X86_64 => "linux/amd64",
        }
    }

    /// OCI platform string for the **host** (e.g., "darwin/arm64").
    ///
    /// Used for registry Image Index resolution: tells the registry which
    /// host OS+arch this `.smolmachine` runs on. Distinct from `oci_platform()`
    /// which always returns `linux/*` (the guest).
    pub fn host_oci_platform(&self) -> (r: &'static str)
        ensures
            r@ == self.host_label(),
    {
        match (self.os, self.arch) {
            (Os::MacOs, Arch::Arm64) => "darwin/arm64",
            (Os::MacOs, Arch::X86_64) => "darwin/amd64",
            (Os::Linux, Arch::Arm64) => "linux/arm64",
            (Os::Linux, Arch::X86_64) => "linux/amd64",
            (Os::Windows, Arch::Arm64) => "windows/arm64",
            (Os::Windows, Arch::X86_64) => "windows/amd64",
        }
    }

    /// Check if this platform supports Rosetta 2.
    ///
    /// Rosetta 2 is only available on Apple Silicon Macs.
    pub fn supports_rosetta(&self) -> (r: bool)
        ensures
            r == (self.os is MacOs && self.arch is Arm64),
    {
        matches!((self.os, self.arch), (Os::MacOs, Arch::Arm64))
    }

    /// The platform as `os/arch`.
    pub fn description(&self) -> (r: String)
        ensures
            r@ == self.os.label() + "/"@ + self.arch.label(),
    {
        let mut text = self.os.as_str().to_owned();
        text.append("/");
        text.append(self.arch.as_str());
        text
    }
}

/// Get native platform string for OCI images on the given host.
///
/// Returns "linux/arm64" or "linux/amd64" based on host architecture.
/// This is the platform string to use when pulling container images.
pub fn native_platform(host: &Platform) -> (r: &'static str)
    ensures
        r@ == host.guest_label(),
{
    host.oci_platform()
}

/// The architecture that a platform string names: what stands behind its last
/// slash.
pub open spec fn artifact_arch_of(platform: Seq<char>) -> Seq<char> {
    crate::text::trimmed(
        match crate::text::split_last(platform, '/') {
            Some((_, arch)) => arch,
            None => platform,
        },
    )
}

/// The artifact names a known architecture other than the host's.
pub open spec fn arch_mismatch(platform: Seq<char>, host: Arch) -> bool {
    let arch = artifact_arch_of(platform);
    (arch == "amd64"@ || arch == "arm64"@) && arch != host.oci_label()
}

/// Explanation of a mismatch.
pub open spec fn mismatch_message(platform: Seq<char>, host: Arch) -> Seq<char> {
    let arch = artifact_arch_of(platform);
    "this artifact is built for architecture '"@ + arch + "' (platform '"@ + platform
        + "'), but this host is '"@ + host.oci_label()
        + "'. A packed VM or image carries native binaries and cannot run on a different CPU architecture — re-pack on an '"@
        + arch + "' host, or use an '"@ + host.oci_label() + "' artifact."@
}

/// Reject a packed artifact whose guest CPU architecture differs from this host's.
///
/// A `.smolmachine` carries architecture-specific native binaries, so an `arm64`
/// artifact cannot run under an `amd64` guest kernel, or vice versa. Checked
/// before an artifact is extracted or booted, so the failure is an immediate,
/// actionable message rather than a cryptic exec-format crash mid-boot.
///
/// A sidecar boots through the HOST's own libkrun, so only the guest
/// ARCHITECTURE must match; the host OS is irrelevant. That is what lets a VM
/// packed on a Mac rehydrate on a same-arch Linux node.
///
/// `artifact_platform` is the manifest's guest platform (e.g. `"linux/arm64"`). A
/// blank or unrecognized arch is allowed through rather than risk falsely rejecting
/// an otherwise-valid artifact.
pub fn ensure_artifact_arch_matches_host(artifact_platform: &str, host: Arch) -> (r: Result<
    (),
    Error,
>)
    ensures
        match r {
            Ok(_) => !arch_mismatch(artifact_platform@, host),
            Err(error) => arch_mismatch(artifact_platform@, host) && error@ == (Failure::Agent {
                operation: "platform mismatch"@,
                reason: mismatch_message(artifact_platform@, host),
            }),
        },
{
    let host_arch = host.oci_arch();
    let artifact_arch = trim(
        match rsplit_once(artifact_platform, '/') {
            Some((_, arch)) => arch,
            None => artifact_platform,
        },
    );
    if (same(artifact_arch, "amd64") || same(artifact_arch, "arm64")) && !same(
        artifact_arch,
        host_arch,
    ) {
        let mut message = "this artifact is built for architecture '".to_owned();
        message.append(artifact_arch);
        message.append("' (platform '");
        message.append(artifact_platform);
        message.append("'), but this host is '");
        message.append(host_arch);
        message.append(
            "'. A packed VM or image carries native binaries and cannot run on a different CPU architecture — re-pack on an '",
        );
        message.append(artifact_arch);
        message.append("' host, or use an '");
        message.append(host_arch);
        message.append("' artifact.");
        return Err(Error::agent("platform mismatch", message));
    }
    Ok(())
}

/// How a VM is executed on a host.
#[derive(Debug)]
pub enum VmExecutor {
    /// The macOS executor.
    MacOs,
    /// The Linux executor.
    Linux,
    /// The Windows executor.
    Windows(WindowsExecutor),
}

/// What a host offers to run x86-64 binaries on ARM.
#[derive(Debug)]
pub enum RosettaSupport {
    /// Rosetta on macOS.
    MacOs,
    /// No Rosetta on Linux.
    Linux,
    /// No Rosetta on Windows.
    Windows(WindowsRosetta),
}

/// Get the platform-specific VM executor.
///
/// Returns an executor that handles platform differences in VM execution,
/// particularly around virtiofs mount handling.
pub fn vm_executor(os: Os) -> (r: VmExecutor)
    ensures
        match os {
            Os::MacOs => r is MacOs,
            Os::Linux => r is Linux,
            Os::Windows => r is Windows,
        },
{
    match os {
        Os::MacOs => VmExecutor::MacOs,
        Os::Linux => VmExecutor::Linux,
        Os::Windows => VmExecutor::Windows(WindowsExecutor),
    }
}

/// Get the platform-specific Rosetta support handler.
pub fn rosetta(os: Os) -> (r: RosettaSupport)
    ensures
        match os {
            Os::MacOs => r is MacOs,
            Os::Linux => r is Linux,
            Os::Windows => r is Windows,
        },
{
    match os {
        Os::MacOs => RosettaSupport::MacOs,
        Os::Linux => RosettaSupport::Linux,
        Os::Windows => RosettaSupport::Windows(rosetta_support()),
    }
}

/// The operating system of an artifact never matters, only its architecture.
pub proof fn law_artifact_os_is_irrelevant(a: Seq<char>, b: Seq<char>, arch: Seq<char>, host: Arch)
    requires
        !arch.contains('/'),
    ensures
        arch_mismatch(a + seq!['/'] + arch, host) == arch_mismatch(b + seq!['/'] + arch, host),
        arch_mismatch(a + seq!['/'] + arch, host) == arch_mismatch(arch, host),
{
    crate::text::lemma_split_last_joined(a, arch, '/');
    crate::text::lemma_split_last_joined(b, arch, '/');
    crate::text::lemma_last_index(arch, '/');
}

/// A host accepts the guests of its own platform.
pub proof fn law_native_artifact_is_accepted(host: Platform)
    ensures
        !arch_mismatch(host.guest_label(), host.arch),
{
    reveal_strlit("linux/arm64");
    reveal_strlit("linux/amd64");
    reveal_strlit("arm64");
    reveal_strlit("amd64");
    reveal_strlit("linux");
    let arch = host.arch.oci_label();
    assert(host.guest_label() =~= "linux"@ + seq!['/'] + arch);
    assert(!arch.contains('/'));
    crate::text::lemma_split_last_joined("linux"@, arch, '/');
    crate::text::lemma_trimmed_keeps(arch, |c: char| crate::text::is_space(c));
}

/// Every system and every architecture is known by the name that the compiler
/// gives it, and by no other.
pub proof fn law_targets_have_one_name(os: Os, arch: Arch, name: Seq<char>)
    ensures
        Os::named(os.label()) == Some(os),
        Os::named(name) == Some(os) ==> name == os.label(),
        Arch::named("aarch64"@) == Some(Arch::Arm64),
        Arch::named("x86_64"@) == Some(Arch::X86_64),
        Arch::named(name) is Some ==> name == "aarch64"@ || name == "x86_64"@,
{
    reveal_strlit("macos");
    reveal_strlit("linux");
    reveal_strlit("windows");
    reveal_strlit("aarch64");
    reveal_strlit("x86_64");
    assert("macos"@[0] != "linux"@[0]);
    assert("macos"@[0] != "windows"@[0]);
    assert("linux"@[0] != "windows"@[0]);
    assert("aarch64"@[0] != "x86_64"@[0]);
}

/// A guest is always Linux on the host's architecture; the host goes by its own
/// system.
pub proof fn law_platform_labels(p: Platform)
    ensures
        p.guest_label() == "linux/"@ + p.arch.oci_label(),
        p.host_label() == (match p.os {
            Os::MacOs => "darwin/"@,
            Os::Linux => "linux/"@,
            Os::Windows => "windows/"@,
        }) + p.arch.oci_label(),
        p.arch is Arm64 ==> p.arch.oci_label() == "arm64"@ && p.arch.label() == "arm64"@,
        p.arch is X86_64 ==> p.arch.oci_label() == "amd64"@ && p.arch.label() == "x86_64"@,
{
    reveal_strlit("linux/");
    reveal_strlit("darwin/");
    reveal_strlit("windows/");
    reveal_strlit("arm64");
    reveal_strlit("amd64");
    reveal_strlit("linux/arm64");
    reveal_strlit("linux/amd64");
    reveal_strlit("darwin/arm64");
    reveal_strlit("darwin/amd64");
    reveal_strlit("windows/arm64");
    reveal_strlit("windows/amd64");
    assert("linux/"@ + "arm64"@ =~= "linux/arm64"@);
    assert("linux/"@ + "amd64"@ =~= "linux/amd64"@);
    assert("darwin/"@ + "arm64"@ =~= "darwin/arm64"@);
    assert("darwin/"@ + "amd64"@ =~= "darwin/amd64"@);
    assert("windows/"@ + "arm64"@ =~= "windows/arm64"@);
    assert("windows/"@ + "amd64"@ =~= "windows/amd64"@);
}

/// An artifact is refused exactly if it names the other of the two architectures,
/// with or without a system in front and with or without white space around.
pub proof fn law_other_architecture_is_refused(os: Seq<char>, arch: Seq<char>, host: Arch)
    requires
        !arch.contains('/'),
    ensures
        ({
            let other = if host is Arm64 {
                "amd64"@
            } else {
                "arm64"@
            };
            &&& arch_mismatch(os + seq!['/'] + arch, host) <==> crate::text::trimmed(arch) == other
            &&& arch_mismatch(arch, host) <==> crate::text::trimmed(arch) == other
        }),
{
    crate::text::law_splits_at_the_last(os, arch, '/');
    reveal_strlit("arm64");
    reveal_strlit("amd64");
    assert("arm64"@[1] != "amd64"@[1]);
}

} // verus!
