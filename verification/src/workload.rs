//! Shared machine-workload launch: run an image machine's persistent
//! container (its ENTRYPOINT+CMD) after the VM boots.
//!
//! Every front-end that starts machines must launch the workload the same way:
//! a front-end that skips it boots a bare agent VM whose published ports forward
//! to nothing. Keeping the launch here is what stops front-ends from drifting
//! apart.
use vstd::prelude::*;
use crate::digits::to_decimal;
use crate::error::{Error, Failure};
use crate::text::{contains, copy_maybe, extend_texts, maybe_text, texts};

verus! {

/// What a machine's record says about its workload.
#[derive(Debug, Clone)]
pub struct WorkloadRecord {
    /// Image of the machine, if it has one.
    pub image: Option<String>,
    /// Entry point that replaces the image's own.
    pub entrypoint: Vec<String>,
    /// Arguments of the entry point.
    pub cmd: Vec<String>,
    /// Working directory.
    pub workdir: Option<String>,
    /// User to run as.
    pub user: Option<String>,
    /// Host source, guest target and read-only flag of each mount.
    pub mounts: Vec<(String, String, bool)>,
    /// Machine that this one was forked from.
    pub golden: Option<String>,
}

/// Request to run a container.
#[derive(Debug)]
pub struct RunConfig {
    /// Image to run.
    pub image: String,
    /// Command; empty for the image's own.
    pub command: Vec<String>,
    /// Environment with secrets resolved.
    pub env: Vec<(String, String)>,
    /// Working directory.
    pub workdir: Option<String>,
    /// User to run as.
    pub user: Option<String>,
    /// Tag, guest target and read-only flag of each binding.
    pub mounts: Vec<(String, String, bool)>,
    /// Identity of the persistent overlay.
    pub persistent_overlay: Option<String>,
}

/// A mount or a binding.
pub type Binding = (Seq<char>, Seq<char>, bool);

/// The models of a list of mounts or bindings.
pub open spec fn bindings(list: Seq<(String, String, bool)>) -> Seq<Binding> {
    list.map_values(|m: (String, String, bool)| (m.0@, m.1@, m.2))
}

/// The tag of the binding at position `i`.
pub open spec fn tag_of(i: nat) -> Seq<char> {
    "smolvm"@ + crate::digits::decimal(i)
}

/// The bindings of a list of mounts: the host source gives way to the
/// positional tag.
pub open spec fn tagged(mounts: Seq<Binding>) -> Seq<Binding> {
    Seq::new(mounts.len(), |i: int| (tag_of(i as nat), mounts[i].1, mounts[i].2))
}

/// The owner of a machine's persistent overlay: the machine, or the golden it
/// was forked from.
pub open spec fn overlay_owner(name: Seq<char>, golden: Option<Seq<char>>) -> Seq<char> {
    match golden {
        Some(owner) => owner,
        None => name,
    }
}

/// The message says that there is nothing to launch.
pub open spec fn lacks_launch_metadata(message: Seq<char>) -> bool {
    crate::text::has_substring(message, "defines no entrypoint or cmd"@)
}

/// The virtiofs tag of the mount at position `i`.
pub fn mount_tag(i: usize) -> (r: String)
    ensures
        r@ == tag_of(i as nat),
{
    let mut tag = "smolvm".to_owned();
    tag.append(to_decimal(i as u64).as_str());
    tag
}

/// Convert a record's mount list (`(host_source, guest_target, read_only)`
/// triples) to the agent's virtiofs binding format. The host source is
/// dropped: the agent only needs the guest-facing target and the positional
/// `smolvm{i}` tag.
pub fn record_mounts_to_bindings(mounts: &[(String, String, bool)]) -> (r: Vec<
    (String, String, bool),
>)
    ensures
        bindings(r@) == tagged(bindings(mounts@)),
{
    let mut list: Vec<(String, String, bool)> = Vec::new();
    for i in 0..mounts.len()
        invariant
            list@.len() == i,
            forall|j: int|
                0 <= j < i ==> ({
                    let b = #[trigger] list@[j];
                    b.0@ == tag_of(j as nat) && b.1@ == mounts@[j].1@ && b.2 == mounts@[j].2
                }),
    {
        list.push((mount_tag(i), mounts[i].1.clone(), mounts[i].2));
    }
    assert(bindings(list@) =~= tagged(bindings(mounts@)));
    list
}

/// The id under which a machine's persistent exec overlay lives on its
/// `/storage` disk. Normally the machine's own name; for a fork clone it is
/// the GOLDEN's name: a fork CoW-clones the golden's disks, so the inherited
/// overlay sits at `/storage/overlays/persistent-<golden>` inside the clone's
/// own disk, and the restored guest may still hold that overlay *mounted*.
/// Aliasing the lookup, instead of renaming the directory on disk, keeps that
/// live mount valid while making the clone's execs land in the inherited state.
pub fn persistent_overlay_owner(name: &str, golden: Option<&str>) -> (r: String)
    ensures
        r@ == overlay_owner(
            name@,
            match golden {
                Some(owner) => Some(owner@),
                None => None,
            },
        ),
{
    match golden {
        Some(owner) => owner.to_owned(),
        None => name.to_owned(),
    }
}

/// The request that launches an image machine's workload container in the
/// background, and none for a machine without an image.
///
/// `exec_env` is the record env with secrets already resolved. An empty
/// entrypoint+cmd makes the agent resolve the image's own ENTRYPOINT+CMD, so
/// service-style images start as their authors intended. The persistent overlay
/// is keyed by [`persistent_overlay_owner`] so filesystem state survives
/// restarts and forks.
pub fn launch_image_workload(
    machine_name: &str,
    record: &WorkloadRecord,
    exec_env: Vec<(String, String)>,
) -> (r: Option<RunConfig>)
    ensures
        match (record.image, r) {
            (None, None) => true,
            (Some(image), Some(config)) => {
                &&& config.image@ == image@
                &&& texts(config.command@) == texts(record.entrypoint@) + texts(record.cmd@)
                &&& config.env == exec_env
                &&& maybe_text(config.workdir) == maybe_text(record.workdir)
                &&& maybe_text(config.user) == maybe_text(record.user)
                &&& bindings(config.mounts@) == tagged(bindings(record.mounts@))
                &&& maybe_text(config.persistent_overlay) == Some(
                    overlay_owner(machine_name@, maybe_text(record.golden)),
                )
            },
            _ => false,
        },
{
    let image = match &record.image {
        Some(image) => image.clone(),
        None => {
            return None;
        },
    };
    let mut command: Vec<String> = Vec::new();
    assert(texts(command@) =~= Seq::empty());
    extend_texts(&mut command, &record.entrypoint);
    assert(Seq::<Seq<char>>::empty() + texts(record.entrypoint@) =~= texts(record.entrypoint@));
    extend_texts(&mut command, &record.cmd);
    let owner = match &record.golden {
        Some(golden) => persistent_overlay_owner(machine_name, Some(golden.as_str())),
        None => persistent_overlay_owner(machine_name, None),
    };
    Some(
        RunConfig {
            image,
            command,
            env: exec_env,
            workdir: copy_maybe(&record.workdir),
            user: copy_maybe(&record.user),
            mounts: record_mounts_to_bindings(record.mounts.as_slice()),
            persistent_overlay: Some(owner),
        },
    )
}

/// Whether a workload runs, by the agent's answer to the launch request.
///
/// A machine where neither the record nor the image supplies a command boots to
/// the bare agent: a bare rootfs directory has no OCI config at all, so failing
/// the whole start over a missing ENTRYPOINT would make such images unusable as
/// machines. Every other failure stays fatal.
pub fn launch_outcome(reply: Result<(), String>) -> (r: Result<bool, Error>)
    ensures
        match (reply, r) {
            (Ok(_), Ok(launched)) => launched,
            (Err(message), Ok(launched)) => !launched && lacks_launch_metadata(message@),
            (Err(message), Err(error)) => !lacks_launch_metadata(message@) && error@
                == (Failure::Agent { operation: "start background CMD"@, reason: message@ }),
            (Ok(_), Err(_)) => false,
        },
{
    match reply {
        Ok(_) => Ok(true),
        Err(message) => if is_missing_launch_metadata(message.as_str()) {
            Ok(false)
        } else {
            Err(Error::agent("start background CMD", message))
        },
    }
}

/// Whether a detached-run failure means "nothing to launch" rather than a real
/// error. The image is only known inside the guest (it may be imported during
/// the run request itself), so the agent's error message, kept stable on its
/// side for this match, is the reliable signal.
pub fn is_missing_launch_metadata(message: &str) -> (r: bool)
    ensures
        r == lacks_launch_metadata(message@),
{
    contains(message, "defines no entrypoint or cmd")
}

/// Two bindings of one machine never share a tag.
pub proof fn law_tags_are_distinct(i: nat, j: nat)
    requires
        tag_of(i) == tag_of(j),
    ensures
        i == j,
{
    let a = tag_of(i);
    assert(a.skip("smolvm"@.len() as int) =~= crate::digits::decimal(i));
    assert(tag_of(j).skip("smolvm"@.len() as int) =~= crate::digits::decimal(j));
    crate::digits::lemma_decimal_reads_back(i);
    crate::digits::lemma_decimal_reads_back(j);
}

/// A clone and its golden keep one overlay.
pub proof fn law_clone_shares_golden_overlay(clone: Seq<char>, golden: Seq<char>)
    ensures
        overlay_owner(clone, Some(golden)) == overlay_owner(golden, None),
{
}

/// A binding has its mount's target and mode under the tag of its position; the
/// host source is gone.
pub proof fn law_bindings_are_tagged_by_position(mounts: Seq<Binding>, i: int)
    requires
        0 <= i < mounts.len(),
    ensures
        tagged(mounts).len() == mounts.len(),
        tagged(mounts)[i].0 == "smolvm"@ + crate::digits::decimal(i as nat),
        tagged(mounts)[i].1 == mounts[i].1,
        tagged(mounts)[i].2 == mounts[i].2,
{
}

/// A machine that is no clone owns its overlay; a clone uses its golden's.
pub proof fn law_overlay_owner(name: Seq<char>, golden: Seq<char>)
    ensures
        overlay_owner(name, None) == name,
        overlay_owner(name, Some(golden)) == golden,
{
}

/// A failure means that there is nothing to launch exactly if it says so
/// somewhere.
pub proof fn law_missing_metadata_is_said(message: Seq<char>, before: Seq<char>, after: Seq<char>)
    ensures
        lacks_launch_metadata(before + "defines no entrypoint or cmd"@ + after),
        lacks_launch_metadata(message) ==> exists|a: Seq<char>, b: Seq<char>|
            message == #[trigger] (a + "defines no entrypoint or cmd"@ + b),
{
    let needle = "defines no entrypoint or cmd"@;
    let whole = before + needle + after;
    let n = before.len() as int;
    assert(whole.subrange(n, n + needle.len()) =~= needle);
    assert(crate::text::occurs_at(whole, needle, n));
    if lacks_launch_metadata(message) {
        let i = choose|i: int| #[trigger] crate::text::occurs_at(message, needle, i);
        let a = message.take(i);
        let b = message.skip(i + needle.len());
        assert(message =~= a + needle + b);
    }
}

} // verus!
