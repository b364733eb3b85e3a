//! Guest-side Vulkan (Venus) driver injection for the workload container.
//!
//! A `--gpu` VM exposes `/dev/dri` into every container, but the container can
//! only use Vulkan if its image ships a Mesa with the virtio ICD, which stock
//! images don't. The agent rootfs bundles the driver, its shared-library
//! closure, and the Vulkan loader; the bundle is bind-mounted into the container
//! and the Vulkan loader pointed at it.
//!
//! Every gate degrades to a silent no-op, so behavior without the bundle (or on
//! non-GPU VMs) stays as it is.
use vstd::prelude::*;
use crate::text::{same, split, starts_with, strip_prefix, texts};

verus! {

/// Where the bundle ships inside the VM rootfs (from the agent rootfs).
pub const GUEST_BUNDLE_DIR: &'static str = "/usr/local/lib/smolvm-vulkan";

/// Where the bundle is bind-mounted inside the workload container. The ICD
/// manifest's `library_path` points here.
pub const CONTAINER_BUNDLE_DIR: &'static str = "/opt/smolvm-vulkan";

/// The Venus driver inside the bundle; its presence is the "bundled" gate.
pub const DRIVER: &'static str = "libvulkan_virtio.so";

/// The ICD manifest inside the bundle.
pub const ICD_JSON: &'static str = "virtio_icd.json";

/// Request-level opt-out (set via `--env`).
pub const OPT_OUT_ENV: &'static str = "SMOLVM_NO_VULKAN_INJECT";

/// A bind mount of a container.
#[derive(Debug, Clone, PartialEq, Eq)]
pub struct BindMount {
    /// Path in the VM.
    pub source: String,
    /// Path in the container.
    pub destination: String,
    /// Mounted read-only.
    pub read_only: bool,
}

/// Process of a container.
#[derive(Debug, Clone, PartialEq, Eq)]
pub struct Process {
    /// Environment, as `NAME=value`.
    pub env: Vec<String>,
}

/// What the injection reads and changes of a container specification.
#[derive(Debug, Clone, PartialEq, Eq)]
pub struct OciSpec {
    /// Process of the container.
    pub process: Process,
    /// Mounts of the container.
    pub mounts: Vec<BindMount>,
}

/// Model of a mount.
pub struct MountModel {
    pub source: Seq<char>,
    pub destination: Seq<char>,
    pub read_only: bool,
}

/// Model of a container specification.
pub struct SpecModel {
    pub env: Seq<Seq<char>>,
    pub mounts: Seq<MountModel>,
}

/// The models of a list of mounts.
pub open spec fn mount_models(mounts: Seq<BindMount>) -> Seq<MountModel> {
    mounts.map_values(
        |m: BindMount|
            MountModel { source: m.source@, destination: m.destination@, read_only: m.read_only },
    )
}

impl View for OciSpec {
    type V = SpecModel;

    open spec fn view(&self) -> SpecModel {
        SpecModel { env: texts(self.process.env@), mounts: mount_models(self.mounts@) }
    }
}

/// What was found in the VM and in the image.
#[derive(Debug, Clone)]
pub struct BundleProbe {
    /// The VM has `/dev/dri`.
    pub gpu_present: bool,
    /// Directory of the bundle in the VM.
    pub bundle_dir: String,
    /// The bundle holds the driver.
    pub driver_present: bool,
    /// The bundle holds the ICD manifest.
    pub icd_present: bool,
    /// Names of the files in the image's `lib` directory.
    pub lib_entries: Vec<String>,
}

/// The variable is set to something in the container env.
pub open spec fn is_set(env: Seq<Seq<char>>, name: Seq<char>) -> bool {
    exists|i: int| 0 <= i < env.len() && sets(#[trigger] env[i], name)
}

/// The entry sets the variable to something.
pub open spec fn sets(entry: Seq<char>, name: Seq<char>) -> bool {
    crate::text::has_prefix(entry, name + "="@) && entry.len() > name.len() + "="@.len()
}

/// Some file is a loader of musl, which cannot load the bundled glibc driver.
pub open spec fn is_musl(lib_entries: Seq<Seq<char>>) -> bool {
    exists|i: int|
        0 <= i < lib_entries.len() && crate::text::has_prefix(
            #[trigger] lib_entries[i],
            "ld-musl-"@,
        )
}

/// The bundle is injected.
pub open spec fn gates_open(spec: SpecModel, probe: BundleProbe) -> bool {
    &&& probe.gpu_present
    &&& probe.driver_present
    &&& probe.icd_present
    &&& !is_set(spec.env, "SMOLVM_NO_VULKAN_INJECT"@)
    &&& !is_musl(texts(probe.lib_entries@))
}

/// The path list with `dir` in it.
pub open spec fn with_dir(list: Seq<char>, dir: Seq<char>) -> Seq<char> {
    if crate::text::pieces(list, ':').contains(dir) {
        list
    } else {
        list + ":"@ + dir
    }
}

/// The environment with `dir` on the first library path, or on a new one.
pub open spec fn with_library_dir(env: Seq<Seq<char>>, dir: Seq<char>) -> Seq<Seq<char>>
    decreases env.len(),
{
    if env.len() == 0 {
        seq!["LD_LIBRARY_PATH="@ + dir]
    } else {
        match crate::text::without_prefix(env[0], "LD_LIBRARY_PATH="@) {
            Some(list) => seq!["LD_LIBRARY_PATH="@ + with_dir(list, dir)] + env.drop_first(),
            None => seq![env[0]] + with_library_dir(env.drop_first(), dir),
        }
    }
}

/// The environment with the loader pinned to the bundle's driver, unless a
/// driver was chosen.
pub open spec fn with_pin(env: Seq<Seq<char>>) -> Seq<Seq<char>> {
    if is_set(env, "VK_DRIVER_FILES"@) || is_set(env, "VK_ICD_FILENAMES"@) {
        env
    } else {
        env.push("VK_DRIVER_FILES=/opt/smolvm-vulkan/virtio_icd.json"@)
    }
}

/// The specification after the injection.
pub open spec fn injected(spec: SpecModel, probe: BundleProbe) -> SpecModel {
    if gates_open(spec, probe) {
        SpecModel {
            env: with_library_dir(with_pin(spec.env), "/opt/smolvm-vulkan"@),
            mounts: spec.mounts.push(
                MountModel {
                    source: probe.bundle_dir@,
                    destination: "/opt/smolvm-vulkan"@,
                    read_only: true,
                },
            ),
        }
    } else {
        spec
    }
}

/// A driver was chosen in an exec environment.
pub open spec fn driver_chosen(env: Seq<(Seq<char>, Seq<char>)>) -> bool {
    exists|i: int|
        0 <= i < env.len() && ((#[trigger] env[i]).0 == "VK_DRIVER_FILES"@ || env[i].0
            == "VK_ICD_FILENAMES"@) && env[i].1.len() > 0
}

/// The exec environment with `dir` on the first library path, or on a new one.
pub open spec fn with_library_pair(
    env: Seq<(Seq<char>, Seq<char>)>,
    dir: Seq<char>,
) -> Seq<(Seq<char>, Seq<char>)>
    decreases env.len(),
{
    if env.len() == 0 {
        seq![("LD_LIBRARY_PATH"@, dir)]
    } else if env[0].0 == "LD_LIBRARY_PATH"@ {
        seq![(env[0].0, with_dir(env[0].1, dir))] + env.drop_first()
    } else {
        seq![env[0]] + with_library_pair(env.drop_first(), dir)
    }
}

/// The exec environment after the loader pin.
pub open spec fn augmented(env: Seq<(Seq<char>, Seq<char>)>) -> Seq<(Seq<char>, Seq<char>)> {
    with_library_pair(
        if driver_chosen(env) {
            env
        } else {
            env.push(("VK_DRIVER_FILES"@, "/opt/smolvm-vulkan/virtio_icd.json"@))
        },
        "/opt/smolvm-vulkan"@,
    )
}

/// Whether `name` is set (to anything non-empty) in the container env.
pub fn env_set(env: &Vec<String>, name: &str) -> (r: bool)
    ensures
        r == is_set(texts(env@), name@),
{
    let ghost e = texts(env@);
    let mut prefix = name.to_owned();
    prefix.append("=");
    for i in 0..env.len()
        invariant
            e == texts(env@),
            prefix@ == name@ + "="@,
            forall|j: int| 0 <= j < i ==> !sets(#[trigger] e[j], name@),
    {
        assert(e[i as int] == env@[i as int]@);
        if let Some(value) = strip_prefix(env[i].as_str(), prefix.as_str()) {
            if value.unicode_len() > 0 {
                assert(sets(e[i as int], name@));
                return true;
            }
        }
    }
    false
}

/// A musl-libc image can't load the bundled glibc driver. Musl distros ship
/// their dynamic loader as /lib/ld-musl-<arch>.so.1.
pub fn is_musl_image(lib_entries: &Vec<String>) -> (r: bool)
    ensures
        r == is_musl(texts(lib_entries@)),
{
    let ghost e = texts(lib_entries@);
    for i in 0..lib_entries.len()
        invariant
            e == texts(lib_entries@),
            forall|j: int| 0 <= j < i ==> !crate::text::has_prefix(#[trigger] e[j], "ld-musl-"@),
    {
        assert(e[i as int] == lib_entries@[i as int]@);
        if starts_with(lib_entries[i].as_str(), "ld-musl-") {
            return true;
        }
    }
    false
}

/// The path list with `dir` in it.
fn add_dir(list: &str, dir: &str) -> (r: String)
    ensures
        r@ == with_dir(list@, dir@),
{
    let parts = split(list, ':');
    let ghost p = crate::text::pieces(list@, ':');
    for i in 0..parts.len()
        invariant
            p == texts(parts@),
            p == crate::text::pieces(list@, ':'),
            forall|j: int| 0 <= j < i ==> p[j] != dir@,
    {
        assert(p[i as int] == parts@[i as int]@);
        if same(parts[i].as_str(), dir) {
            return list.to_owned();
        }
    }
    let mut longer = list.to_owned();
    longer.append(":");
    longer.append(dir);
    longer
}

proof fn lemma_library_dir(env: Seq<Seq<char>>, dir: Seq<char>, i: int)
    requires
        0 <= i <= env.len(),
        forall|j: int|
            0 <= j < i ==> !crate::text::has_prefix(#[trigger] env[j], "LD_LIBRARY_PATH="@),
    ensures
        with_library_dir(env, dir) == env.take(i) + with_library_dir(env.skip(i), dir),
    decreases i,
{
    if i == 0 {
        assert(env.skip(0) =~= env);
        assert(env.take(0) + with_library_dir(env, dir) =~= with_library_dir(env, dir));
    } else {
        assert(!crate::text::has_prefix(env[0], "LD_LIBRARY_PATH="@));
        let tail = env.drop_first();
        assert forall|j: int| 0 <= j < i - 1 implies !crate::text::has_prefix(
            #[trigger] tail[j],
            "LD_LIBRARY_PATH="@,
        ) by {
            assert(tail[j] == env[j + 1]);
        }
        lemma_library_dir(tail, dir, i - 1);
        assert(tail.skip(i - 1) =~= env.skip(i));
        let rest = with_library_dir(env.skip(i), dir);
        assert(seq![env[0]] + (tail.take(i - 1) + rest) =~= env.take(i) + rest);
    }
}

/// Append `dir` to the spec's `LD_LIBRARY_PATH`, preserving an image-provided
/// value; creates the variable if absent, skips if already present.
pub fn append_ld_library_path(env: &mut Vec<String>, dir: &str)
    ensures
        texts(final(env)@) == with_library_dir(texts(old(env)@), dir@),
{
    let ghost e = texts(env@);
    let n: usize = env.len();
    for i in 0..n
        invariant
            n == env@.len(),
            e == texts(env@),
            e == texts(old(env)@),
            forall|j: int|
                0 <= j < i ==> !crate::text::has_prefix(#[trigger] e[j], "LD_LIBRARY_PATH="@),
    {
        assert(e[i as int] == env@[i as int]@);
        let changed = match strip_prefix(env[i].as_str(), "LD_LIBRARY_PATH=") {
            Some(list) => {
                let mut entry = "LD_LIBRARY_PATH=".to_owned();
                let ghost l = list@;
                entry.append(add_dir(list, dir).as_str());
                assert(entry@ == "LD_LIBRARY_PATH="@ + with_dir(l, dir@));
                Some(entry)
            },
            None => None,
        };
        if let Some(entry) = changed {
            proof {
                lemma_library_dir(e, dir@, i as int);
                assert(e.skip(i as int)[0] == e[i as int]);
                assert(e.skip(i as int).drop_first() =~= e.skip(i + 1));
            }
            let ghost text = entry@;
            env.set(i, entry);
            assert(texts(env@) =~= e.update(i as int, text));
            assert(texts(env@) =~= e.take(i as int) + (seq![text] + e.skip(i + 1)));
            return;
        }
    }
    proof {
        lemma_library_dir(e, dir@, e.len() as int);
        assert(e.skip(e.len() as int) =~= Seq::empty());
        assert(e.take(e.len() as int) =~= e);
    }
    let mut entry = "LD_LIBRARY_PATH=".to_owned();
    entry.append(dir);
    let ghost text = entry@;
    env.push(entry);
    assert(texts(env@) =~= e + seq![text]);
}

/// Stage the bundled Venus driver into the workload container spec so an
/// unmodified image gets working Vulkan on a `--gpu` VM with no setup: the
/// bundle rides a read-only bind mount, `VK_DRIVER_FILES` pins the loader to
/// our ICD (unless the user chose a driver themselves), and `LD_LIBRARY_PATH`
/// resolves the loader for images that ship none. No-op unless the VM has a
/// GPU, the bundle is present, and the image's libc can load it (glibc).
pub fn inject_into_container(spec: &mut OciSpec, probe: &BundleProbe)
    ensures
        final(spec)@ == injected(old(spec)@, *probe),
{
    if !probe.gpu_present || !probe.driver_present || !probe.icd_present {
        return;
    }
    if env_set(&spec.process.env, "SMOLVM_NO_VULKAN_INJECT") {
        return;
    }
    if is_musl_image(&probe.lib_entries) {
        // The bundled driver is glibc; a musl image can't load it. Skip rather
        // than surface a confusing dlopen error.
        return;
    }
    let ghost before = spec@;
    let mount = BindMount {
        source: probe.bundle_dir.clone(),
        destination: "/opt/smolvm-vulkan".to_owned(),
        read_only: true,
    };
    spec.mounts.push(mount);
    assert(spec@.mounts =~= before.mounts.push(
        MountModel {
            source: probe.bundle_dir@,
            destination: "/opt/smolvm-vulkan"@,
            read_only: true,
        },
    ));
    // Pin the loader to our ICD unless the image or request already chose a
    // driver; an explicit user choice always wins. Pinning one ICD also
    // sidesteps multi-ICD probe failures.
    if !env_set(&spec.process.env, "VK_DRIVER_FILES") && !env_set(
        &spec.process.env,
        "VK_ICD_FILENAMES",
    ) {
        spec.process.env.push("VK_DRIVER_FILES=/opt/smolvm-vulkan/virtio_icd.json".to_owned());
        assert(texts(spec.process.env@) =~= before.env.push(
            "VK_DRIVER_FILES=/opt/smolvm-vulkan/virtio_icd.json"@,
        ));
    }
    assert(spec@.env == with_pin(before.env));
    // Loader fallback for images without libvulkan.so.1, appended so that an
    // image-provided loader earlier on the path still wins.
    append_ld_library_path(&mut spec.process.env, "/opt/smolvm-vulkan");
}

proof fn lemma_library_pair(env: Seq<(Seq<char>, Seq<char>)>, dir: Seq<char>, i: int)
    requires
        0 <= i <= env.len(),
        forall|j: int| 0 <= j < i ==> (#[trigger] env[j]).0 != "LD_LIBRARY_PATH"@,
    ensures
        with_library_pair(env, dir) == env.take(i) + with_library_pair(env.skip(i), dir),
    decreases i,
{
    if i == 0 {
        assert(env.skip(0) =~= env);
        assert(env.take(0) + with_library_pair(env, dir) =~= with_library_pair(env, dir));
    } else {
        assert(env[0].0 != "LD_LIBRARY_PATH"@);
        let tail = env.drop_first();
        assert forall|j: int| 0 <= j < i - 1 implies (#[trigger] tail[j]).0
            != "LD_LIBRARY_PATH"@ by {
            assert(tail[j] == env[j + 1]);
        }
        lemma_library_pair(tail, dir, i - 1);
        assert(tail.skip(i - 1) =~= env.skip(i));
        let rest = with_library_pair(env.skip(i), dir);
        assert(seq![env[0]] + (tail.take(i - 1) + rest) =~= env.take(i) + rest);
    }
}

/// Whether a driver was chosen in an exec environment.
fn has_driver_choice(env: &Vec<(String, String)>) -> (r: bool)
    ensures
        r == driver_chosen(crate::text::pair_texts(env@)),
{
    let ghost e = crate::text::pair_texts(env@);
    for i in 0..env.len()
        invariant
            e == crate::text::pair_texts(env@),
            forall|j: int|
                0 <= j < i ==> !(((#[trigger] e[j]).0 == "VK_DRIVER_FILES"@ || e[j].0
                    == "VK_ICD_FILENAMES"@) && e[j].1.len() > 0),
    {
        assert(e[i as int] == (env@[i as int].0@, env@[i as int].1@));
        let key = env[i].0.as_str();
        if (same(key, "VK_DRIVER_FILES") || same(key, "VK_ICD_FILENAMES"))
            && env[i].1.as_str().unicode_len() > 0 {
            return true;
        }
    }
    false
}

/// Append the Vulkan loader pin (and the bundle's loader path) to an explicit
/// exec env. Used where a command joins a running container and its env is
/// passed along rather than inherited from the container spec. The bind mount
/// itself was established when the container was created. A container that
/// skipped the mount (musl, opt-out) merely gets env pointing at a path that
/// doesn't exist there. A user-provided driver choice in the exec env still
/// wins.
pub fn augment_exec_env(
    env: Vec<(String, String)>,
    gpu_present: bool,
    driver_present: bool,
) -> (r: Vec<(String, String)>)
    ensures
        crate::text::pair_texts(r@) == if gpu_present && driver_present {
            augmented(crate::text::pair_texts(env@))
        } else {
            crate::text::pair_texts(env@)
        },
{
    if !gpu_present || !driver_present {
        return env;
    }
    let mut list = env;
    let ghost start = crate::text::pair_texts(list@);
    if !has_driver_choice(&list) {
        list.push(
            ("VK_DRIVER_FILES".to_owned(), "/opt/smolvm-vulkan/virtio_icd.json".to_owned()),
        );
        assert(crate::text::pair_texts(list@) =~= start.push(
            ("VK_DRIVER_FILES"@, "/opt/smolvm-vulkan/virtio_icd.json"@),
        ));
    }
    let ghost e = crate::text::pair_texts(list@);
    let ghost dir = "/opt/smolvm-vulkan"@;
    let n: usize = list.len();
    for i in 0..n
        invariant
            n == list@.len(),
            gpu_present && driver_present,
            start == crate::text::pair_texts(env@),
            e == crate::text::pair_texts(list@),
            dir == "/opt/smolvm-vulkan"@,
            with_library_pair(e, dir) == augmented(start),
            forall|j: int| 0 <= j < i ==> (#[trigger] e[j]).0 != "LD_LIBRARY_PATH"@,
    {
        assert(e[i as int] == (list@[i as int].0@, list@[i as int].1@));
        if same(list[i].0.as_str(), "LD_LIBRARY_PATH") {
            let value = add_dir(list[i].1.as_str(), "/opt/smolvm-vulkan");
            let key = list[i].0.clone();
            proof {
                lemma_library_pair(e, dir, i as int);
                assert(e.skip(i as int)[0] == e[i as int]);
                assert(e.skip(i as int).drop_first() =~= e.skip(i + 1));
            }
            let ghost entry = (key@, value@);
            list.set(i, (key, value));
            assert(crate::text::pair_texts(list@) =~= e.update(i as int, entry));
            assert(crate::text::pair_texts(list@) =~= e.take(i as int) + (seq![entry] + e.skip(
                i + 1,
            )));
            return list;
        }
    }
    proof {
        lemma_library_pair(e, dir, e.len() as int);
        assert(e.skip(e.len() as int) =~= Seq::empty());
        assert(e.take(e.len() as int) =~= e);
    }
    list.push(("LD_LIBRARY_PATH".to_owned(), "/opt/smolvm-vulkan".to_owned()));
    assert(crate::text::pair_texts(list@) =~= e + seq![("LD_LIBRARY_PATH"@, dir)]);
    list
}

/// The directory is on the path list afterwards, if it is a single one.
proof fn lemma_with_dir_contains(list: Seq<char>, dir: Seq<char>)
    requires
        !dir.contains(':'),
    ensures
        crate::text::pieces(with_dir(list, dir), ':').contains(dir),
{
    if !crate::text::pieces(list, ':').contains(dir) {
        reveal_strlit(":");
        let longer = list + ":"@ + dir;
        assert(longer =~= list + seq![':'] + dir);
        crate::text::lemma_split_last_joined(list, dir, ':');
        crate::text::lemma_pieces_last(longer, ':');
        let p = crate::text::pieces(longer, ':');
        assert(p[p.len() - 1] == dir);
    }
}

/// A directory is put on the library path once: doing it again changes nothing.
pub proof fn law_library_dir_is_added_once(env: Seq<Seq<char>>, dir: Seq<char>)
    requires
        !dir.contains(':'),
    ensures
        with_library_dir(with_library_dir(env, dir), dir) == with_library_dir(env, dir),
    decreases env.len(),
{
    let key = "LD_LIBRARY_PATH="@;
    let once = with_library_dir(env, dir);
    if env.len() == 0 {
        let entry = key + dir;
        assert(entry.take(key.len() as int) =~= key);
        assert(entry.skip(key.len() as int) =~= dir);
        crate::text::lemma_last_index(dir, ':');
        if crate::text::last_index(dir, ':') is Some {
            assert(dir.contains(dir[crate::text::last_index(dir, ':')->0]));
        }
        crate::text::lemma_pieces_last(dir, ':');
        assert(crate::text::pieces(dir, ':')[0] == dir);
        assert(seq![entry] + once.drop_first() =~= once);
    } else {
        match crate::text::without_prefix(env[0], key) {
            Some(list) => {
                let entry = key + with_dir(list, dir);
                assert(once[0] == entry);
                assert(entry.take(key.len() as int) =~= key);
                assert(entry.skip(key.len() as int) =~= with_dir(list, dir));
                lemma_with_dir_contains(list, dir);
                assert(seq![entry] + once.drop_first() =~= once);
            },
            None => {
                law_library_dir_is_added_once(env.drop_first(), dir);
                assert(once[0] == env[0]);
                assert(once.drop_first() =~= with_library_dir(env.drop_first(), dir));
            },
        }
    }
}

/// A directory is put on the library path of an exec environment once.
proof fn lemma_library_pair_once(env: Seq<(Seq<char>, Seq<char>)>, dir: Seq<char>)
    requires
        !dir.contains(':'),
    ensures
        with_library_pair(with_library_pair(env, dir), dir) == with_library_pair(env, dir),
    decreases env.len(),
{
    let once = with_library_pair(env, dir);
    if env.len() == 0 {
        crate::text::lemma_last_index(dir, ':');
        if crate::text::last_index(dir, ':') is Some {
            assert(dir.contains(dir[crate::text::last_index(dir, ':')->0]));
        }
        crate::text::lemma_pieces_last(dir, ':');
        assert(crate::text::pieces(dir, ':')[0] == dir);
        assert(seq![once[0]] + once.drop_first() =~= once);
    } else if env[0].0 == "LD_LIBRARY_PATH"@ {
        lemma_with_dir_contains(env[0].1, dir);
        assert(seq![once[0]] + once.drop_first() =~= once);
    } else {
        lemma_library_pair_once(env.drop_first(), dir);
        assert(once[0] == env[0]);
        assert(once.drop_first() =~= with_library_pair(env.drop_first(), dir));
    }
}

/// The library path has no say in the choice of a driver.
proof fn lemma_driver_choice_is_kept(env: Seq<(Seq<char>, Seq<char>)>, dir: Seq<char>)
    requires
        driver_chosen(env),
    ensures
        driver_chosen(with_library_pair(env, dir)),
    decreases env.len(),
{
    reveal_strlit("VK_DRIVER_FILES");
    reveal_strlit("VK_ICD_FILENAMES");
    reveal_strlit("LD_LIBRARY_PATH");
    assert("VK_DRIVER_FILES"@[0] != "LD_LIBRARY_PATH"@[0]);
    assert("VK_ICD_FILENAMES"@[0] != "LD_LIBRARY_PATH"@[0]);
    let after = with_library_pair(env, dir);
    let tail = env.drop_first();
    let i = choose|i: int|
        0 <= i < env.len() && ((#[trigger] env[i]).0 == "VK_DRIVER_FILES"@ || env[i].0
            == "VK_ICD_FILENAMES"@) && env[i].1.len() > 0;
    if i == 0 {
        assert(after[0] == env[0]);
    } else if env[0].0 == "LD_LIBRARY_PATH"@ {
        assert(after[i] == env[i]);
    } else {
        assert(tail[i - 1] == env[i]);
        lemma_driver_choice_is_kept(tail, dir);
        let rest = with_library_pair(tail, dir);
        let j = choose|j: int|
            0 <= j < rest.len() && ((#[trigger] rest[j]).0 == "VK_DRIVER_FILES"@ || rest[j].0
                == "VK_ICD_FILENAMES"@) && rest[j].1.len() > 0;
        assert(after[j + 1] == rest[j]);
    }
}

/// An exec environment is augmented once: doing it again changes nothing.
pub proof fn law_exec_env_is_augmented_once(env: Seq<(Seq<char>, Seq<char>)>)
    ensures
        augmented(augmented(env)) == augmented(env),
{
    let pin = ("VK_DRIVER_FILES"@, "/opt/smolvm-vulkan/virtio_icd.json"@);
    let pinned = if driver_chosen(env) {
        env
    } else {
        env.push(pin)
    };
    reveal_strlit("/opt/smolvm-vulkan");
    reveal_strlit("/opt/smolvm-vulkan/virtio_icd.json");
    if !driver_chosen(env) {
        assert(pinned[env.len() as int] == pin);
    }
    lemma_driver_choice_is_kept(pinned, "/opt/smolvm-vulkan"@);
    lemma_library_pair_once(pinned, "/opt/smolvm-vulkan"@);
}

/// Whoever chose a driver keeps it: the loader pin defers.
pub proof fn law_driver_choice_wins(env: Seq<Seq<char>>)
    requires
        is_set(env, "VK_DRIVER_FILES"@) || is_set(env, "VK_ICD_FILENAMES"@),
    ensures
        with_pin(env) == env,
{
}

/// Without a GPU, without the bundle, on a musl image or after an opt-out the
/// specification stays as it is.
pub proof fn law_closed_gate_changes_nothing(spec: SpecModel, probe: BundleProbe)
    requires
        !probe.gpu_present || !probe.driver_present || !probe.icd_present || is_set(
            spec.env,
            "SMOLVM_NO_VULKAN_INJECT"@,
        ) || is_musl(texts(probe.lib_entries@)),
    ensures
        injected(spec, probe) == spec,
{
}

/// An entry sets a variable exactly if something stands behind its name and the
/// equals sign.
pub proof fn law_empty_value_sets_nothing(name: Seq<char>, value: Seq<char>)
    ensures
        sets(name + "="@ + value, name) <==> value.len() > 0,
{
    let head = name + "="@;
    assert((head + value).take(head.len() as int) =~= head);
}

/// The environment after putting `dir` on the library path keeps its entries, in
/// order: all but the first library path as they are, and that one continued.
proof fn lemma_library_dir_keeps_entries(env: Seq<Seq<char>>, dir: Seq<char>)
    ensures
        ({
            let after = with_library_dir(env, dir);
            &&& env.len() <= after.len() <= env.len() + 1
            &&& after.len() > env.len() ==> after.last() == "LD_LIBRARY_PATH="@ + dir
            &&& forall|i: int|
                0 <= i < env.len() ==> (#[trigger] after[i] == env[i] || (
                crate::text::has_prefix(env[i], "LD_LIBRARY_PATH="@) && after[i] == env[i] + ":"@
                    + dir))
        }),
    decreases env.len(),
{
    let after = with_library_dir(env, dir);
    if env.len() > 0 {
        let key = "LD_LIBRARY_PATH="@;
        match crate::text::without_prefix(env[0], key) {
            Some(list) => {
                crate::text::law_prefix_is_taken_off(key, env[0]);
                assert(env[0] == key + list);
                assert(key + (list + ":"@ + dir) =~= env[0] + ":"@ + dir);
                assert forall|i: int| 0 <= i < env.len() implies (#[trigger] after[i] == env[i] || (
                crate::text::has_prefix(env[i], key) && after[i] == env[i] + ":"@ + dir)) by {
                    if i > 0 {
                        assert(after[i] == env.drop_first()[i - 1]);
                    }
                }
            },
            None => {
                let tail = env.drop_first();
                let rest = with_library_dir(tail, dir);
                lemma_library_dir_keeps_entries(tail, dir);
                assert forall|i: int| 0 <= i < env.len() implies (#[trigger] after[i] == env[i] || (
                crate::text::has_prefix(env[i], key) && after[i] == env[i] + ":"@ + dir)) by {
                    if i > 0 {
                        assert(after[i] == rest[i - 1]);
                        assert(tail[i - 1] == env[i]);
                    }
                }
            },
        }
    }
}

/// An injection loses nothing. The container's mounts stay, in order, in front of
/// at most one more; its environment stays, in order, in front of at most two
/// more entries, and only a library path is changed, by a directory at its end.
pub proof fn law_injection_loses_nothing(spec: SpecModel, probe: BundleProbe)
    ensures
        ({
            let after = injected(spec, probe);
            &&& spec.mounts.len() <= after.mounts.len() <= spec.mounts.len() + 1
            &&& after.mounts.take(spec.mounts.len() as int) == spec.mounts
            &&& spec.env.len() <= after.env.len() <= spec.env.len() + 2
            &&& forall|i: int|
                0 <= i < spec.env.len() ==> (#[trigger] after.env[i] == spec.env[i] || (
                crate::text::has_prefix(spec.env[i], "LD_LIBRARY_PATH="@) && after.env[i]
                    == spec.env[i] + ":/opt/smolvm-vulkan"@))
            &&& forall|i: int|
                spec.env.len() <= i < after.env.len() ==> (#[trigger] after.env[i]
                    == "VK_DRIVER_FILES=/opt/smolvm-vulkan/virtio_icd.json"@ || after.env[i]
                    == "LD_LIBRARY_PATH=/opt/smolvm-vulkan"@)
        }),
{
    let after = injected(spec, probe);
    assert(after.mounts.take(spec.mounts.len() as int) =~= spec.mounts);
    if gates_open(spec, probe) {
        let dir = "/opt/smolvm-vulkan"@;
        let pinned = with_pin(spec.env);
        reveal_strlit(":");
        reveal_strlit("/opt/smolvm-vulkan");
        reveal_strlit(":/opt/smolvm-vulkan");
        reveal_strlit("LD_LIBRARY_PATH=");
        reveal_strlit("LD_LIBRARY_PATH=/opt/smolvm-vulkan");
        reveal_strlit("VK_DRIVER_FILES=/opt/smolvm-vulkan/virtio_icd.json");
        assert(":"@ + dir =~= ":/opt/smolvm-vulkan"@);
        assert("LD_LIBRARY_PATH="@ + dir =~= "LD_LIBRARY_PATH=/opt/smolvm-vulkan"@);
        lemma_library_dir_keeps_entries(pinned, dir);
        assert forall|i: int| 0 <= i < spec.env.len() implies (#[trigger] after.env[i]
            == spec.env[i] || (crate::text::has_prefix(spec.env[i], "LD_LIBRARY_PATH="@)
            && after.env[i] == spec.env[i] + ":/opt/smolvm-vulkan"@)) by {
            assert(pinned[i] == spec.env[i]);
            assert(spec.env[i] + ":"@ + dir =~= spec.env[i] + (":"@ + dir));
        }
        assert forall|i: int| spec.env.len() <= i < after.env.len() implies (#[trigger] after.env[i]
            == "VK_DRIVER_FILES=/opt/smolvm-vulkan/virtio_icd.json"@ || after.env[i]
            == "LD_LIBRARY_PATH=/opt/smolvm-vulkan"@) by {
            if i < pinned.len() {
                let pin = "VK_DRIVER_FILES=/opt/smolvm-vulkan/virtio_icd.json"@;
                assert(pinned[i] == pin);
                if crate::text::has_prefix(pin, "LD_LIBRARY_PATH="@) {
                    assert(pin.take("LD_LIBRARY_PATH="@.len() as int)[0] == "LD_LIBRARY_PATH="@[0]);
                }
            }
        }
    }
}

/// An injection takes place on a GPU machine with a whole bundle, unless the
/// container opted out or its image is built on musl; then the bundle is mounted
/// read-only, a driver is chosen and its directory is on the library path.
pub proof fn law_injection_takes_place(spec: SpecModel, probe: BundleProbe)
    requires
        probe.gpu_present,
        probe.driver_present,
        probe.icd_present,
        forall|i: int, value: Seq<char>|
            0 <= i < spec.env.len() && #[trigger] ("SMOLVM_NO_VULKAN_INJECT="@ + value)
                == #[trigger] spec.env[i] ==> value.len() == 0,
        forall|i: int, rest: Seq<char>|
            0 <= i < probe.lib_entries@.len() ==> #[trigger] ("ld-musl-"@ + rest) != (
            #[trigger] probe.lib_entries@[i])@,
    ensures
        ({
            let after = injected(spec, probe);
            &&& after.mounts == spec.mounts.push(
                MountModel {
                    source: probe.bundle_dir@,
                    destination: "/opt/smolvm-vulkan"@,
                    read_only: true,
                },
            )
            &&& is_set(after.env, "VK_DRIVER_FILES"@) || is_set(after.env, "VK_ICD_FILENAMES"@)
            &&& exists|i: int|
                0 <= i < after.env.len() && carries_library_dir(
                    #[trigger] after.env[i],
                    "/opt/smolvm-vulkan"@,
                )
            &&& is_set(spec.env, "VK_DRIVER_FILES"@) || is_set(spec.env, "VK_ICD_FILENAMES"@)
                ==> after.env.len() <= spec.env.len() + 1
        }),
{
    if is_set(spec.env, "SMOLVM_NO_VULKAN_INJECT"@) {
        let i = choose|i: int|
            0 <= i < spec.env.len() && sets(#[trigger] spec.env[i], "SMOLVM_NO_VULKAN_INJECT"@);
        reveal_strlit("SMOLVM_NO_VULKAN_INJECT");
        reveal_strlit("=");
        reveal_strlit("SMOLVM_NO_VULKAN_INJECT=");
        let head = "SMOLVM_NO_VULKAN_INJECT="@;
        assert("SMOLVM_NO_VULKAN_INJECT"@ + "="@ =~= head);
        let value = spec.env[i].skip(head.len() as int);
        assert(head + value =~= spec.env[i]);
    }
    if is_musl(texts(probe.lib_entries@)) {
        let i = choose|i: int|
            0 <= i < texts(probe.lib_entries@).len() && crate::text::has_prefix(
                #[trigger] texts(probe.lib_entries@)[i],
                "ld-musl-"@,
            );
        let entry = probe.lib_entries@[i]@;
        let rest = entry.skip("ld-musl-"@.len() as int);
        assert("ld-musl-"@ + rest =~= entry);
    }
    assert(gates_open(spec, probe));
    let after = injected(spec, probe);
    let dir = "/opt/smolvm-vulkan"@;
    let pinned = with_pin(spec.env);
    reveal_strlit("/opt/smolvm-vulkan");
    lemma_library_dir_keeps_entries(pinned, dir);
    lemma_library_dir_is_carried(pinned, dir);
    lemma_pin_is_kept(spec.env, dir);
}

/// The entry is a library path with `dir` among its directories.
pub open spec fn carries_library_dir(entry: Seq<char>, dir: Seq<char>) -> bool {
    crate::text::without_prefix(entry, "LD_LIBRARY_PATH="@) matches Some(list)
        && crate::text::pieces(list, ':').contains(dir)
}

proof fn lemma_library_dir_is_carried(env: Seq<Seq<char>>, dir: Seq<char>)
    requires
        !dir.contains(':'),
    ensures
        exists|i: int|
            0 <= i < with_library_dir(env, dir).len() && carries_library_dir(
                #[trigger] with_library_dir(env, dir)[i],
                dir,
            ),
    decreases env.len(),
{
    let key = "LD_LIBRARY_PATH="@;
    let after = with_library_dir(env, dir);
    if env.len() == 0 {
        crate::text::law_prefix_is_taken_off(key, dir);
        crate::text::lemma_last_index(dir, ':');
        if crate::text::last_index(dir, ':') is Some {
            assert(dir.contains(dir[crate::text::last_index(dir, ':')->0]));
        }
        crate::text::lemma_pieces_last(dir, ':');
        assert(crate::text::pieces(dir, ':')[0] == dir);
        assert(carries_library_dir(after[0], dir));
    } else {
        match crate::text::without_prefix(env[0], key) {
            Some(list) => {
                lemma_with_dir_contains(list, dir);
                crate::text::law_prefix_is_taken_off(key, with_dir(list, dir));
                assert(carries_library_dir(after[0], dir));
            },
            None => {
                let rest = with_library_dir(env.drop_first(), dir);
                lemma_library_dir_is_carried(env.drop_first(), dir);
                let i = choose|i: int|
                    0 <= i < rest.len() && carries_library_dir(#[trigger] rest[i], dir);
                assert(after[i + 1] == rest[i]);
            },
        }
    }
}

/// A chosen driver stays chosen when the library path is extended, and the pin
/// chooses one.
proof fn lemma_pin_is_kept(env: Seq<Seq<char>>, dir: Seq<char>)
    ensures
        ({
            let after = with_library_dir(with_pin(env), dir);
            is_set(after, "VK_DRIVER_FILES"@) || is_set(after, "VK_ICD_FILENAMES"@)
        }),
{
    let pinned = with_pin(env);
    let after = with_library_dir(pinned, dir);
    reveal_strlit("VK_DRIVER_FILES");
    reveal_strlit("VK_ICD_FILENAMES");
    reveal_strlit("LD_LIBRARY_PATH=");
    reveal_strlit("=");
    reveal_strlit("VK_DRIVER_FILES=/opt/smolvm-vulkan/virtio_icd.json");
    let pin = "VK_DRIVER_FILES=/opt/smolvm-vulkan/virtio_icd.json"@;
    lemma_library_dir_keeps_entries(pinned, dir);
    if !(is_set(env, "VK_DRIVER_FILES"@) || is_set(env, "VK_ICD_FILENAMES"@)) {
        let head = "VK_DRIVER_FILES"@ + "="@;
        assert(pin.take(head.len() as int) =~= head);
        assert(sets(pinned[env.len() as int], "VK_DRIVER_FILES"@));
    }
    let name = if is_set(pinned, "VK_DRIVER_FILES"@) {
        "VK_DRIVER_FILES"@
    } else {
        "VK_ICD_FILENAMES"@
    };
    let i = choose|i: int| 0 <= i < pinned.len() && sets(#[trigger] pinned[i], name);
    let entry = pinned[i];
    if crate::text::has_prefix(entry, "LD_LIBRARY_PATH="@) {
        assert(entry.take("LD_LIBRARY_PATH="@.len() as int)[0] == "LD_LIBRARY_PATH="@[0]);
        assert(entry.take((name + "="@).len() as int)[0] == (name + "="@)[0]);
        assert((name + "="@)[0] == name[0]);
    }
    assert(after[i] == entry);
    assert(sets(after[i], name));
}

/// Augmenting loses nothing: an exec environment stays, in order, in front of at
/// most two more variables, and only the value of a library path is changed, by
/// a directory at its end.
pub proof fn law_augmenting_loses_nothing(env: Seq<(Seq<char>, Seq<char>)>)
    ensures
        ({
            let after = augmented(env);
            &&& env.len() <= after.len() <= env.len() + 2
            &&& forall|i: int|
                0 <= i < env.len() ==> (#[trigger] after[i]).0 == env[i].0 && (after[i].1
                    == env[i].1 || (env[i].0 == "LD_LIBRARY_PATH"@ && after[i].1 == env[i].1
                    + ":"@ + "/opt/smolvm-vulkan"@))
            &&& forall|i: int|
                env.len() <= i < after.len() ==> (#[trigger] after[i] == (
                    "VK_DRIVER_FILES"@,
                    "/opt/smolvm-vulkan/virtio_icd.json"@,
                ) || after[i] == ("LD_LIBRARY_PATH"@, "/opt/smolvm-vulkan"@))
        }),
{
    let dir = "/opt/smolvm-vulkan"@;
    let pin = ("VK_DRIVER_FILES"@, "/opt/smolvm-vulkan/virtio_icd.json"@);
    let pinned = if driver_chosen(env) {
        env
    } else {
        env.push(pin)
    };
    reveal_strlit("VK_DRIVER_FILES");
    reveal_strlit("LD_LIBRARY_PATH");
    assert("VK_DRIVER_FILES"@[0] != "LD_LIBRARY_PATH"@[0]);
    lemma_library_pair_keeps(pinned, dir);
    assert forall|i: int| 0 <= i < env.len() implies (#[trigger] augmented(env)[i]).0 == env[i].0
        && (augmented(env)[i].1 == env[i].1 || (env[i].0 == "LD_LIBRARY_PATH"@ && augmented(
        env,
    )[i].1 == env[i].1 + ":"@ + dir)) by {
        assert(pinned[i] == env[i]);
    }
}

proof fn lemma_library_pair_keeps(env: Seq<(Seq<char>, Seq<char>)>, dir: Seq<char>)
    ensures
        ({
            let after = with_library_pair(env, dir);
            &&& env.len() <= after.len() <= env.len() + 1
            &&& after.len() > env.len() ==> after.last() == ("LD_LIBRARY_PATH"@, dir)
            &&& forall|i: int|
                0 <= i < env.len() ==> (#[trigger] after[i]).0 == env[i].0 && (after[i].1
                    == env[i].1 || (env[i].0 == "LD_LIBRARY_PATH"@ && after[i].1 == env[i].1
                    + ":"@ + dir))
        }),
    decreases env.len(),
{
    if env.len() > 0 {
        let after = with_library_pair(env, dir);
        let tail = env.drop_first();
        let rest = with_library_pair(tail, dir);
        lemma_library_pair_keeps(tail, dir);
        assert forall|i: int| 0 <= i < env.len() implies (#[trigger] after[i]).0 == env[i].0 && (
        after[i].1 == env[i].1 || (env[i].0 == "LD_LIBRARY_PATH"@ && after[i].1 == env[i].1 + ":"@
            + dir)) by {
            if i > 0 {
                assert(tail[i - 1] == env[i]);
                if env[0].0 != "LD_LIBRARY_PATH"@ {
                    assert(after[i] == rest[i - 1]);
                }
            }
        }
    }
}

/// An augmented exec environment has a driver chosen and the bundle's directory
/// on its library path; a choice that was made stays the only one.
pub proof fn law_augmenting_reaches_the_driver(env: Seq<(Seq<char>, Seq<char>)>)
    ensures
        ({
            let after = augmented(env);
            &&& exists|i: int|
                0 <= i < after.len() && ((#[trigger] after[i]).0 == "VK_DRIVER_FILES"@ || after[i].0
                    == "VK_ICD_FILENAMES"@) && after[i].1.len() > 0
            &&& exists|i: int|
                0 <= i < after.len() && (#[trigger] after[i]).0 == "LD_LIBRARY_PATH"@
                    && crate::text::pieces(after[i].1, ':').contains("/opt/smolvm-vulkan"@)
            &&& (exists|i: int|
                0 <= i < env.len() && ((#[trigger] env[i]).0 == "VK_DRIVER_FILES"@ || env[i].0
                    == "VK_ICD_FILENAMES"@) && env[i].1.len() > 0) ==> after.len() <= env.len() + 1
        }),
{
    let dir = "/opt/smolvm-vulkan"@;
    let pin = ("VK_DRIVER_FILES"@, "/opt/smolvm-vulkan/virtio_icd.json"@);
    let pinned = if driver_chosen(env) {
        env
    } else {
        env.push(pin)
    };
    reveal_strlit("/opt/smolvm-vulkan");
    reveal_strlit("/opt/smolvm-vulkan/virtio_icd.json");
    if !driver_chosen(env) {
        assert(pinned[env.len() as int] == pin);
    }
    lemma_driver_choice_is_kept(pinned, dir);
    lemma_library_pair_keeps(pinned, dir);
    lemma_library_pair_carries(pinned, dir);
    let after = augmented(env);
    assert(after == with_library_pair(pinned, dir));
    assert(driver_chosen(after));
    let i = choose|i: int|
        0 <= i < after.len() && (#[trigger] after[i]).0 == "LD_LIBRARY_PATH"@
            && crate::text::pieces(after[i].1, ':').contains(dir);
    assert(after[i].0 == "LD_LIBRARY_PATH"@);
}

proof fn lemma_library_pair_carries(env: Seq<(Seq<char>, Seq<char>)>, dir: Seq<char>)
    requires
        !dir.contains(':'),
    ensures
        exists|i: int|
            0 <= i < with_library_pair(env, dir).len() && (#[trigger] with_library_pair(
                env,
                dir,
            )[i]).0 == "LD_LIBRARY_PATH"@ && crate::text::pieces(
                with_library_pair(env, dir)[i].1,
                ':',
            ).contains(dir),
    decreases env.len(),
{
    let after = with_library_pair(env, dir);
    if env.len() == 0 {
        crate::text::lemma_last_index(dir, ':');
        if crate::text::last_index(dir, ':') is Some {
            assert(dir.contains(dir[crate::text::last_index(dir, ':')->0]));
        }
        crate::text::lemma_pieces_last(dir, ':');
        assert(crate::text::pieces(dir, ':')[0] == dir);
        assert(after[0].0 == "LD_LIBRARY_PATH"@);
    } else if env[0].0 == "LD_LIBRARY_PATH"@ {
        lemma_with_dir_contains(env[0].1, dir);
        assert(after[0].0 == "LD_LIBRARY_PATH"@);
    } else {
        let rest = with_library_pair(env.drop_first(), dir);
        lemma_library_pair_carries(env.drop_first(), dir);
        let i = choose|i: int|
            0 <= i < rest.len() && (#[trigger] rest[i]).0 == "LD_LIBRARY_PATH"@
                && crate::text::pieces(rest[i].1, ':').contains(dir);
        assert(after[i + 1] == rest[i]);
    }
}

} // verus!
