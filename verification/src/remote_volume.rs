//! Remote volumes: mount object stores and network filesystems into a
//! machine with the same `-v SOURCE:GUEST[:ro]` flag as directory mounts.
//!
//! Two source forms are recognized; everything else stays a host directory
//! mount:
//!
//! - `s3://bucket[/prefix]` is sugar for an S3 mount. Credentials come from
//!   the machine's environment (`AWS_ACCESS_KEY_ID`/`AWS_SECRET_ACCESS_KEY`,
//!   optional `AWS_ENDPOINT_URL` for R2/MinIO); without credentials the
//!   bucket is accessed anonymously, which covers public datasets.
//! - `:backend,opt=value,...:path` is a raw rclone connection string passed
//!   through verbatim, so every rclone-supported filesystem works.
//!
//! The mounts run inside the machine's workload container, whose command is
//! wrapped with the mount script on every start.
use vstd::prelude::*;
use crate::error::{Error, Failure};
use crate::text::{
    char_vec,
    contains_char,
    join,
    lookup,
    pair_texts,
    rsplit_once,
    same,
    starts_with,
    starts_with_char,
    strip_prefix,
    texts,
    trim_matches,
};

verus! {

/// One remote volume attached to a machine, stored on its record verbatim so
/// `status` can echo what the user wrote and the mount command can evolve
/// without migrating persisted state.
#[derive(Debug, Clone, PartialEq, Eq)]
pub struct RemoteVolume {
    /// The user-supplied source (`s3://bucket/prefix` or `:backend,...:path`).
    pub source: String,
    /// Absolute guest mount point.
    pub target: String,
    /// Mount read-only.
    pub read_only: bool,
}

/// Model of a remote volume.
pub struct Volume {
    pub source: Seq<char>,
    pub target: Seq<char>,
    pub read_only: bool,
}

impl View for RemoteVolume {
    type V = Volume;

    open spec fn view(&self) -> Volume {
        Volume { source: self.source@, target: self.target@, read_only: self.read_only }
    }
}

/// The models of a list of volumes.
pub open spec fn volumes(list: Seq<RemoteVolume>) -> Seq<Volume> {
    list.map_values(|v: RemoteVolume| v@)
}

/// The specification without its mode, and whether the mode is read-only.
pub open spec fn mode_of(spec: Seq<char>) -> (Seq<char>, bool) {
    match crate::text::split_last(spec, ':') {
        Some((head, tail)) => if tail == "ro"@ {
            (head, true)
        } else if tail == "rw"@ {
            (head, false)
        } else {
            (spec, false)
        },
        None => (spec, false),
    }
}

/// The source is a bucket or an rclone connection string.
pub open spec fn is_remote(source: Seq<char>) -> bool {
    crate::text::has_prefix(source, "s3://"@) || (source.len() > 0 && source[0] == ':')
}

/// Number of double quotes in `s`.
pub open spec fn quotes(s: Seq<char>) -> nat
    decreases s.len(),
{
    if s.len() == 0 {
        0
    } else {
        quotes(s.drop_last()) + if s.last() == '"' {
            1nat
        } else {
            0
        }
    }
}

/// A colon behind the first character stands outside double quotes: it ends the
/// remote's name and begins its path.
pub open spec fn has_path_colon(source: Seq<char>) -> bool {
    exists|i: int|
        1 <= i < source.len() && #[trigger] source[i] == ':' && quotes(source.subrange(1, i)) % 2
            == 0
}

/// An `s3://` source names a bucket.
pub open spec fn names_bucket(source: Seq<char>) -> bool {
    match crate::text::without_prefix(source, "s3://"@) {
        Some(bucket) => crate::text::trimmed_of(bucket, '/').len() > 0,
        None => true,
    }
}

/// What is wrong with a remote volume, if anything is. `spec` is quoted in the
/// message.
pub open spec fn volume_fault(spec: Seq<char>, source: Seq<char>, target: Seq<char>) -> Option<
    Seq<char>,
> {
    if !(target.len() > 0 && target[0] == '/') {
        Some("remote volume guest path must be absolute: '"@ + spec + "'"@)
    } else if target.contains(' ') {
        Some("remote volume guest path must not contain spaces: '"@ + spec + "'"@)
    } else if source.contains('\'') || target.contains('\'') {
        Some("remote volume spec must not contain single quotes: '"@ + spec + "'"@)
    } else if !names_bucket(source) {
        Some("s3 volume needs a bucket name: '"@ + spec + "'"@)
    } else if !crate::text::has_prefix(source, "s3://"@) && !has_path_colon(source) {
        Some(
            "rclone remote is missing its ':path' part in '"@ + spec
                + "' (an empty remote path is written '::' before the guest path, e.g. ':http,url=\"https://host\"::/mnt/data')"@,
        )
    } else {
        None
    }
}

/// What one `-v` specification means: a remote volume, a host directory mount
/// (`None`), or a mistake with its explanation. Sources may contain colons, so
/// the specification is read from its right end.
pub open spec fn parsed(spec: Seq<char>) -> Result<Option<Volume>, Seq<char>> {
    let (rest, read_only) = mode_of(spec);
    match crate::text::split_last(rest, ':') {
        None => Ok(None),
        Some((source, target)) => if !is_remote(source) {
            Ok(None)
        } else {
            match volume_fault(spec, source, target) {
                Some(message) => Err(message),
                None => Ok(Some(Volume { source, target, read_only })),
            }
        },
    }
}

/// Host specifications and remote volumes of a list of specifications, or the
/// first mistake.
pub open spec fn sorted_specs(specs: Seq<Seq<char>>) -> Result<
    (Seq<Seq<char>>, Seq<Volume>),
    Seq<char>,
>
    decreases specs.len(),
{
    if specs.len() == 0 {
        Ok((Seq::empty(), Seq::empty()))
    } else {
        match sorted_specs(specs.drop_last()) {
            Err(message) => Err(message),
            Ok((host, remote)) => match parsed(specs.last()) {
                Err(message) => Err(message),
                Ok(None) => Ok((host.push(specs.last()), remote)),
                Ok(Some(volume)) => Ok((host, remote.push(volume))),
            },
        }
    }
}

/// Some volume of the list is mounted at `target`.
pub open spec fn mounts_at(list: Seq<Volume>, target: Seq<char>) -> bool {
    exists|i: int| 0 <= i < list.len() && (#[trigger] list[i]).target == target
}

/// The first target that occurs for the second time.
pub open spec fn repeated_target(list: Seq<Volume>) -> Option<Seq<char>>
    decreases list.len(),
{
    if list.len() == 0 {
        None
    } else {
        match repeated_target(list.drop_last()) {
            Some(target) => Some(target),
            None => if mounts_at(list.drop_last(), list.last().target) {
                Some(list.last().target)
            } else {
                None
            },
        }
    }
}

/// Outcome of splitting a list of specifications.
pub open spec fn split_outcome(specs: Seq<Seq<char>>) -> Result<
    (Seq<Seq<char>>, Seq<Volume>),
    Seq<char>,
> {
    match sorted_specs(specs) {
        Err(message) => Err(message),
        Ok((host, remote)) => match repeated_target(remote) {
            Some(target) => Err(
                "duplicate mount target: "@ + target + " is specified more than once"@,
            ),
            None => Ok((host, remote)),
        },
    }
}

/// The specification of a volume in its written form.
pub open spec fn written(source: Seq<char>, target: Seq<char>, read_only: bool) -> Seq<char> {
    source + ":"@ + target + if read_only {
        ":ro"@
    } else {
        ""@
    }
}

/// A volume from its parts, checked like a written specification.
pub open spec fn assembled(source: Seq<char>, target: Seq<char>, read_only: bool) -> Result<
    Volume,
    Seq<char>,
> {
    if target.contains(':') {
        Err("remote volume guest path must not contain ':': '"@ + target + "'"@)
    } else if !is_remote(source) {
        Err("not a remote volume source: '"@ + source + "'"@)
    } else {
        match volume_fault(written(source, target, read_only), source, target) {
            Some(message) => Err(message),
            None => Ok(Volume { source, target, read_only }),
        }
    }
}

/// The key occurs in the environment.
pub open spec fn has_key(env: Seq<(Seq<char>, Seq<char>)>, key: Seq<char>) -> bool {
    crate::text::first_value(env, key) is Some
}

/// The endpoint option of an S3 remote.
pub open spec fn endpoint_option(url: Seq<char>) -> Seq<char> {
    ",endpoint=\""@ + url + "\""@ + if crate::text::has_prefix(url, "http://"@) {
        ",upload_cutoff=0"@
    } else {
        ""@
    }
}

/// The options of an S3 remote, by the machine's environment.
pub open spec fn s3_options(env: Seq<(Seq<char>, Seq<char>)>) -> Seq<char> {
    let auth = if has_key(env, "AWS_ACCESS_KEY_ID"@) {
        ":s3,provider=AWS"@ + ",env_auth=true"@
    } else {
        ":s3,provider=AWS"@
    };
    match crate::text::first_value(env, "AWS_ENDPOINT_URL"@) {
        Some(url) => auth + endpoint_option(url),
        None => auth,
    }
}

/// The endpoint cannot be quoted.
pub open spec fn bad_endpoint(env: Seq<(Seq<char>, Seq<char>)>) -> bool {
    crate::text::first_value(env, "AWS_ENDPOINT_URL"@) matches Some(url) && (url.contains('"') || url.contains(
        '\'',
    ))
}

impl Volume {
    /// The rclone remote of the volume. There is none where the endpoint of an
    /// S3 volume cannot be quoted.
    pub open spec fn remote(self, env: Seq<(Seq<char>, Seq<char>)>) -> Option<Seq<char>> {
        match crate::text::without_prefix(self.source, "s3://"@) {
            None => Some(self.source),
            Some(bucket) => if bad_endpoint(env) {
                None
            } else {
                Some(s3_options(env) + ":"@ + crate::text::trimmed_of(bucket, '/'))
            },
        }
    }

    /// The shell command that mounts the volume.
    pub open spec fn command(self, env: Seq<(Seq<char>, Seq<char>)>) -> Option<Seq<char>> {
        match self.remote(env) {
            None => None,
            Some(remote) => Some(
                "command -v rclone >/dev/null 2>&1 && command -v fusermount3 >/dev/null 2>&1 || { echo \"remote volume "@
                    + self.target
                    + " needs rclone and fuse3 in the image (alpine: apk add rclone fuse3 | debian/ubuntu: apt-get install -y rclone fuse3)\" >&2; exit 1; }; [ -e /dev/fuse ] || mknod /dev/fuse c 10 229; mkdir -p '"@
                    + self.target + "' && rclone mount '"@ + remote + "' '"@ + self.target
                    + "' --daemon"@ + if self.read_only {
                    " --read-only"@
                } else {
                    " --vfs-cache-mode writes"@
                },
            ),
        }
    }
}

/// The mount commands of all volumes, in order, where each has one.
pub open spec fn commands(list: Seq<Volume>, env: Seq<(Seq<char>, Seq<char>)>) -> Option<
    Seq<Seq<char>>,
>
    decreases list.len(),
{
    if list.len() == 0 {
        Some(Seq::empty())
    } else {
        match (commands(list.drop_last(), env), list.last().command(env)) {
            (Some(init), Some(last)) => Some(init.push(last)),
            _ => None,
        }
    }
}

/// The error of an endpoint that cannot be quoted.
pub open spec fn endpoint_failure() -> Failure {
    Failure::Config {
        operation: "remote volume"@,
        reason: "AWS_ENDPOINT_URL must not contain quotes"@,
    }
}

/// An error in a volume specification.
pub open spec fn spec_failure(message: Seq<char>) -> Failure {
    Failure::Config { operation: "parse remote volume"@, reason: message }
}

/// The test that one volume is mounted.
pub open spec fn mount_check(volume: Volume) -> Seq<char> {
    "awk -v m='"@ + volume.target + "' '$2==m' /proc/mounts | grep -q rclone"@
}

/// An error in a volume specification.
fn invalid(head: &str, quoted: &str, tail: &str) -> (r: Error)
    ensures
        r@ == spec_failure(head@ + quoted@ + tail@),
{
    let mut message = head.to_owned();
    message.append(quoted);
    message.append(tail);
    Error::config("parse remote volume", message)
}

/// Whether a raw rclone connection string still has the colon that begins its
/// path. Colons inside double-quoted option values (URLs, mostly) don't count:
/// rclone's own parser treats those as part of the value.
fn raw_remote_has_path_colon(source: &str) -> (r: bool)
    ensures
        r == has_path_colon(source@),
{
    let x = char_vec(source);
    let mut in_quotes = false;
    let mut i: usize = 1;
    if x.len() == 0 {
        return false;
    }
    assert(source@.subrange(1, 1) =~= Seq::empty());
    while i < x.len()
        invariant
            x@ == source@,
            1 <= i <= x@.len(),
            in_quotes == (quotes(source@.subrange(1, i as int)) % 2 == 1),
            forall|j: int|
                1 <= j < i && #[trigger] source@[j] == ':' ==> quotes(source@.subrange(1, j)) % 2
                    != 0,
        decreases x@.len() - i,
    {
        assert(source@.subrange(1, i + 1).drop_last() =~= source@.subrange(1, i as int));
        if x[i] == '"' {
            in_quotes = !in_quotes;
        } else if x[i] == ':' && !in_quotes {
            assert(source@[i as int] == ':');
            return true;
        }
        i += 1;
    }
    false
}

/// Checks the parts of a remote volume. `spec` is quoted in the message.
fn check_volume(spec: &str, source: &str, target: &str) -> (r: Result<(), Error>)
    ensures
        match volume_fault(spec@, source@, target@) {
            Some(message) => r is Err && r->Err_0@ == spec_failure(message),
            None => r is Ok,
        },
{
    if !starts_with_char(target, '/') {
        return Err(invalid("remote volume guest path must be absolute: '", spec, "'"));
    }
    if contains_char(target, ' ') {
        return Err(invalid("remote volume guest path must not contain spaces: '", spec, "'"));
    }
    // Both values end up inside a single-quoted shell word.
    if contains_char(source, '\'') || contains_char(target, '\'') {
        return Err(invalid("remote volume spec must not contain single quotes: '", spec, "'"));
    }
    match strip_prefix(source, "s3://") {
        Some(bucket) => {
            if trim_matches(bucket, '/').unicode_len() == 0 {
                return Err(invalid("s3 volume needs a bucket name: '", spec, "'"));
            }
        },
        None => {
            // An rclone connection string is `:backend,opts:path`; the path
            // colon is part of the remote. With an empty remote path the user
            // must write it explicitly, which makes a double colon before the
            // guest path: `:http,url="https://host"::/mnt/data`.
            if !raw_remote_has_path_colon(source) {
                return Err(
                    invalid(
                        "rclone remote is missing its ':path' part in '",
                        spec,
                        "' (an empty remote path is written '::' before the guest path, e.g. ':http,url=\"https://host\"::/mnt/data')",
                    ),
                );
            }
        },
    }
    Ok(())
}

/// Parse one `-v` spec; `Ok(None)` means "not a remote source" and the spec
/// belongs to the host-directory path.
pub fn parse_spec(spec: &str) -> (r: Result<Option<RemoteVolume>, Error>)
    ensures
        match r {
            Ok(Some(volume)) => parsed(spec@) == Ok::<Option<Volume>, Seq<char>>(Some(volume@)),
            Ok(None) => parsed(spec@) == Ok::<Option<Volume>, Seq<char>>(None),
            Err(error) => parsed(spec@) is Err && error@ == spec_failure(parsed(spec@)->Err_0),
        },
{
    let (rest, read_only) = match rsplit_once(spec, ':') {
        Some((head, tail)) => if same(tail, "ro") {
            (head, true)
        } else if same(tail, "rw") {
            (head, false)
        } else {
            (spec, false)
        },
        None => (spec, false),
    };
    let (source, target) = match rsplit_once(rest, ':') {
        Some(parts) => parts,
        None => {
            return Ok(None);
        },
    };
    if !is_remote_source(source) {
        return Ok(None);
    }
    match check_volume(spec, source, target) {
        Ok(_) => Ok(
            Some(RemoteVolume { source: source.to_owned(), target: target.to_owned(), read_only }),
        ),
        Err(error) => Err(error),
    }
}

/// Whether a structured mount source denotes a remote volume rather than a host
/// directory.
pub fn is_remote_source(source: &str) -> (r: bool)
    ensures
        r == is_remote(source@),
{
    starts_with(source, "s3://") || starts_with_char(source, ':')
}

/// Whether some volume before position `n` is mounted where the one at `n` is.
fn target_seen(list: &Vec<RemoteVolume>, n: usize) -> (r: bool)
    requires
        n < list@.len(),
    ensures
        r == mounts_at(volumes(list@).take(n as int), list@[n as int].target@),
{
    let ghost before = volumes(list@).take(n as int);
    for i in 0..n
        invariant
            n < list@.len(),
            before == volumes(list@).take(n as int),
            forall|j: int| 0 <= j < i ==> (#[trigger] before[j]).target != list@[n as int].target@,
    {
        if same(list[i].target.as_str(), list[n].target.as_str()) {
            assert(before[i as int].target == list@[n as int].target@);
            return true;
        }
    }
    false
}

/// Split raw `-v` specs into host-directory specs (returned untouched) and
/// parsed remote volumes. Remote targets must not collide with each other.
pub fn split_specs(specs: &[String]) -> (r: Result<(Vec<String>, Vec<RemoteVolume>), Error>)
    ensures
        match r {
            Ok((host, remote)) => split_outcome(texts(specs@)) == Ok::<
                (Seq<Seq<char>>, Seq<Volume>),
                Seq<char>,
            >((texts(host@), volumes(remote@))),
            Err(error) => split_outcome(texts(specs@)) is Err && error@ == spec_failure(
                split_outcome(texts(specs@))->Err_0,
            ),
        },
{
    let ghost all = texts(specs@);
    let mut host: Vec<String> = Vec::new();
    let mut remote: Vec<RemoteVolume> = Vec::new();
    proof {
        assert(all.take(0) =~= Seq::empty());
        assert(texts(host@) =~= Seq::empty());
        assert(volumes(remote@) =~= Seq::empty());
    }
    for i in 0..specs.len()
        invariant
            all == texts(specs@),
            sorted_specs(all.take(i as int)) == Ok::<(Seq<Seq<char>>, Seq<Volume>), Seq<char>>(
                (texts(host@), volumes(remote@)),
            ),
    {
        let ghost h = texts(host@);
        let ghost v = volumes(remote@);
        assert(all.take(i + 1).drop_last() =~= all.take(i as int));
        match parse_spec(specs[i].as_str()) {
            Ok(Some(volume)) => {
                remote.push(volume);
                assert(volumes(remote@) =~= v.push(volume@));
            },
            Ok(None) => {
                host.push(specs[i].clone());
                assert(texts(host@) =~= h.push(all[i as int]));
            },
            Err(error) => {
                proof {
                    lemma_first_mistake(all, i + 1);
                }
                return Err(error);
            },
        }
    }
    assert(all.take(all.len() as int) =~= all);
    let ghost v = volumes(remote@);
    assert(v.take(0) =~= Seq::empty());
    for i in 0..remote.len()
        invariant
            all == texts(specs@),
            v == volumes(remote@),
            sorted_specs(all) == Ok::<(Seq<Seq<char>>, Seq<Volume>), Seq<char>>((texts(host@), v)),
            repeated_target(v.take(i as int)) is None,
    {
        assert(v.take(i + 1).drop_last() =~= v.take(i as int));
        assert(v.take(i + 1).last() == remote@[i as int]@);
        if target_seen(&remote, i) {
            proof {
                lemma_first_repeat(v, i + 1);
            }
            return Err(
                invalid(
                    "duplicate mount target: ",
                    remote[i].target.as_str(),
                    " is specified more than once",
                ),
            );
        }
    }
    assert(v.take(v.len() as int) =~= v);
    Ok((host, remote))
}

/// The first mistake is the outcome, whatever follows it.
proof fn lemma_first_mistake(specs: Seq<Seq<char>>, i: int)
    requires
        0 <= i <= specs.len(),
        sorted_specs(specs.take(i)) is Err,
    ensures
        sorted_specs(specs) == sorted_specs(specs.take(i)),
    decreases specs.len() - i,
{
    if i < specs.len() {
        assert(specs.take(i + 1).drop_last() =~= specs.take(i));
        lemma_first_mistake(specs, i + 1);
    } else {
        assert(specs.take(i) =~= specs);
    }
}

/// The first repeated target is the outcome, whatever follows it.
proof fn lemma_first_repeat(list: Seq<Volume>, i: int)
    requires
        0 <= i <= list.len(),
        repeated_target(list.take(i)) is Some,
    ensures
        repeated_target(list) == repeated_target(list.take(i)),
    decreases list.len() - i,
{
    if i < list.len() {
        assert(list.take(i + 1).drop_last() =~= list.take(i));
        lemma_first_repeat(list, i + 1);
    } else {
        assert(list.take(i) =~= list);
    }
}

/// Build a remote volume from already-split parts, checked like those of a
/// written specification.
pub fn from_parts(source: &str, target: &str, read_only: bool) -> (r: Result<RemoteVolume, Error>)
    ensures
        match r {
            Ok(volume) => assembled(source@, target@, read_only) == Ok::<Volume, Seq<char>>(volume@),
            Err(error) => assembled(source@, target@, read_only) is Err && error@ == spec_failure(
                assembled(source@, target@, read_only)->Err_0,
            ),
        },
{
    // A written specification is read from its right end, so a target with a
    // colon could not be written back; targets never legitimately contain one.
    if contains_char(target, ':') {
        return Err(invalid("remote volume guest path must not contain ':': '", target, "'"));
    }
    if !is_remote_source(source) {
        return Err(invalid("not a remote volume source: '", source, "'"));
    }
    let mut spec = source.to_owned();
    spec.append(":");
    spec.append(target);
    spec.append(
        if read_only {
            ":ro"
        } else {
            ""
        },
    );
    match check_volume(spec.as_str(), source, target) {
        Ok(_) => Ok(RemoteVolume { source: source.to_owned(), target: target.to_owned(), read_only }),
        Err(error) => Err(error),
    }
}

impl RemoteVolume {
    /// The rclone remote for this volume. Raw connection strings pass through;
    /// `s3://` sugar expands using the machine env: credentials in the env
    /// switch rclone to env-based auth (the mount command runs with the machine
    /// env applied), and `AWS_ENDPOINT_URL` points the S3 API at R2/MinIO/other
    /// S3-compatible stores.
    pub fn rclone_remote(&self, env: &[(String, String)]) -> (r: Result<String, Error>)
        ensures
            match r {
                Ok(remote) => self@.remote(pair_texts(env@)) == Some(remote@),
                Err(error) => self@.remote(pair_texts(env@)) is None && error@
                    == endpoint_failure(),
            },
    {
        let bucket = match strip_prefix(self.source.as_str(), "s3://") {
            Some(bucket) => bucket,
            None => {
                return Ok(self.source.clone());
            },
        };
        let mut options = ":s3,provider=AWS".to_owned();
        if lookup(env, "AWS_ACCESS_KEY_ID").is_some() {
            options.append(",env_auth=true");
        }
        if let Some(url) = lookup(env, "AWS_ENDPOINT_URL") {
            if contains_char(url, '"') || contains_char(url, '\'') {
                return Err(
                    Error::config(
                        "remote volume",
                        "AWS_ENDPOINT_URL must not contain quotes".to_owned(),
                    ),
                );
            }
            let ghost auth = options@;
            options.append(",endpoint=\"");
            options.append(url);
            options.append("\"");
            // Streaming single-part uploads to a plain-http endpoint fail in
            // rclone's aws-sdk-v2 backend (a signed payload needs a seekable
            // body; https avoids it via UNSIGNED-PAYLOAD). Local MinIO-style
            // endpoints are exactly the http case, so force multipart there.
            options.append(
                if starts_with(url, "http://") {
                    ",upload_cutoff=0"
                } else {
                    ""
                },
            );
            assert(options@ =~= auth + endpoint_option(url@));
        }
        options.append(":");
        options.append(trim_matches(bucket, '/'));
        Ok(options)
    }

    /// The shell command that mounts this volume, run on every machine start.
    pub fn mount_command(&self, env: &[(String, String)]) -> (r: Result<String, Error>)
        ensures
            match r {
                Ok(command) => self@.command(pair_texts(env@)) == Some(command@),
                Err(error) => self@.command(pair_texts(env@)) is None && error@
                    == endpoint_failure(),
            },
    {
        let remote = match self.rclone_remote(env) {
            Ok(remote) => remote,
            Err(error) => {
                return Err(error);
            },
        };
        let mut command =
            "command -v rclone >/dev/null 2>&1 && command -v fusermount3 >/dev/null 2>&1 || { echo \"remote volume ".to_owned();
        command.append(self.target.as_str());
        command.append(
            " needs rclone and fuse3 in the image (alpine: apk add rclone fuse3 | debian/ubuntu: apt-get install -y rclone fuse3)\" >&2; exit 1; }; [ -e /dev/fuse ] || mknod /dev/fuse c 10 229; mkdir -p '",
        );
        command.append(self.target.as_str());
        command.append("' && rclone mount '");
        command.append(remote.as_str());
        command.append("' '");
        command.append(self.target.as_str());
        command.append("' --daemon");
        command.append(
            if self.read_only {
                " --read-only"
            } else {
                " --vfs-cache-mode writes"
            },
        );
        Ok(command)
    }
}

/// Without a command for some volumes there are none for more.
proof fn lemma_commands_prefix(list: Seq<Volume>, env: Seq<(Seq<char>, Seq<char>)>, i: int)
    requires
        0 <= i <= list.len(),
        commands(list.take(i), env) is None,
    ensures
        commands(list, env) is None,
    decreases list.len() - i,
{
    if i < list.len() {
        assert(list.take(i + 1).drop_last() =~= list.take(i));
        lemma_commands_prefix(list, env, i + 1);
    } else {
        assert(list.take(i) =~= list);
    }
}

/// Mount commands for every remote volume on a record, in declaration order.
pub fn mount_commands(list: &[RemoteVolume], env: &[(String, String)]) -> (r: Result<
    Vec<String>,
    Error,
>)
    ensures
        match r {
            Ok(lines) => commands(volumes(list@), pair_texts(env@)) == Some(texts(lines@)),
            Err(error) => commands(volumes(list@), pair_texts(env@)) is None && error@
                == endpoint_failure(),
        },
{
    let ghost v = volumes(list@);
    let ghost e = pair_texts(env@);
    let mut lines: Vec<String> = Vec::new();
    assert(v.take(0) =~= Seq::empty());
    assert(texts(lines@) =~= Seq::empty());
    for i in 0..list.len()
        invariant
            v == volumes(list@),
            e == pair_texts(env@),
            commands(v.take(i as int), e) == Some(texts(lines@)),
    {
        let ghost before = texts(lines@);
        assert(v.take(i + 1).drop_last() =~= v.take(i as int));
        assert(v.take(i + 1).last() == list@[i as int]@);
        match list[i].mount_command(env) {
            Ok(line) => {
                lines.push(line);
                assert(texts(lines@) =~= before.push(line@));
            },
            Err(error) => {
                proof {
                    lemma_commands_prefix(v, e, i + 1);
                }
                return Err(error);
            },
        }
    }
    assert(v.take(v.len() as int) =~= v);
    Ok(lines)
}

/// A synchronous pre-launch check that the image can mount remote volumes at
/// all. The mount itself runs inside the detached workload container, whose
/// failures are not surfaced to the caller, so the most common failure (image
/// without the tools) is caught here first, where it can fail the start with an
/// actionable message.
pub fn preflight_command(list: &[RemoteVolume]) -> (r: Option<String>)
    ensures
        match r {
            Some(command) => list@.len() > 0 && command@
                == "command -v rclone >/dev/null 2>&1 && command -v fusermount3 >/dev/null 2>&1 || { echo \"remote volumes need rclone and fuse3 in the image (alpine: apk add rclone fuse3 | debian/ubuntu: apt-get install -y rclone fuse3; or install them with --init, which runs before the mounts)\" >&2; exit 1; }"@,
            None => list@.len() == 0,
        },
{
    if list.len() == 0 {
        return None;
    }
    Some(
        "command -v rclone >/dev/null 2>&1 && command -v fusermount3 >/dev/null 2>&1 || { echo \"remote volumes need rclone and fuse3 in the image (alpine: apk add rclone fuse3 | debian/ubuntu: apt-get install -y rclone fuse3; or install them with --init, which runs before the mounts)\" >&2; exit 1; }".to_owned(),
    )
}

/// A post-launch check that every remote volume actually mounted. Joins the
/// workload container (like any exec) and polls /proc/mounts: if the mount
/// script failed, the workload container is dead and the fresh exec container
/// sees no mounts either way, so this fails the start instead of leaving a
/// silently broken machine.
pub fn verify_command(list: &[RemoteVolume]) -> (r: Option<String>)
    ensures
        match r {
            Some(command) => list@.len() > 0 && command@
                == "t=0; while [ $t -lt 30 ]; do if "@ + crate::text::joined(
                volumes(list@).map_values(|v: Volume| mount_check(v)),
                " && "@,
            )
                + "; then exit 0; fi; t=$((t+1)); sleep 0.5; done; echo \"remote volume(s) failed to mount — check the machine's agent-console.log for the rclone error\" >&2; exit 1"@,
            None => list@.len() == 0,
        },
{
    if list.len() == 0 {
        return None;
    }
    let mut checks: Vec<String> = Vec::new();
    for i in 0..list.len()
        invariant
            checks@.len() == i,
            forall|j: int| 0 <= j < i ==> (#[trigger] checks@[j])@ == mount_check(list@[j]@),
    {
        let mut check = "awk -v m='".to_owned();
        check.append(list[i].target.as_str());
        check.append("' '$2==m' /proc/mounts | grep -q rclone");
        checks.push(check);
    }
    assert(texts(checks@) =~= volumes(list@).map_values(|v: Volume| mount_check(v)));
    let all = join(&checks, " && ");
    let mut command = "t=0; while [ $t -lt 30 ]; do if ".to_owned();
    command.append(all.as_str());
    command.append(
        "; then exit 0; fi; t=$((t+1)); sleep 0.5; done; echo \"remote volume(s) failed to mount — check the machine's agent-console.log for the rclone error\" >&2; exit 1",
    );
    Some(command)
}

/// The remote-volume mount script: the `&&`-joined mount commands that the
/// agent runs inside the workload container, ahead of the image-resolved
/// workload command.
///
/// A FUSE mount lives in the mount namespace of the container that created it,
/// and `exec`/`shell` sessions join the workload container's namespaces, so the
/// workload container is the one place a mount is visible everywhere and lives
/// exactly as long as the machine's workload. The agent (not the host) does the
/// wrapping, so a service image's own ENTRYPOINT still runs rather than being
/// replaced by a mount stub.
pub fn mount_script(list: &[RemoteVolume], env: &[(String, String)]) -> (r: Result<String, Error>)
    ensures
        match (commands(volumes(list@), pair_texts(env@)), r) {
            (Some(lines), Ok(script)) => script@ == crate::text::joined(lines, " && "@),
            (None, Err(error)) => error@ == endpoint_failure(),
            _ => false,
        },
{
    match mount_commands(list, env) {
        Ok(lines) => Ok(join(&lines, " && ")),
        Err(error) => Err(error),
    }
}

/// A parsed volume has an absolute guest path without colons, spaces or single
/// quotes, and a source without single quotes.
pub proof fn law_parsed_volume_is_sound(spec: Seq<char>)
    ensures
        parsed(spec) matches Ok(Some(volume)) ==> {
            &&& volume.target.len() > 0 && volume.target[0] == '/'
            &&& !volume.target.contains(':')
            &&& !volume.target.contains(' ')
            &&& !volume.target.contains('\'')
            &&& !volume.source.contains('\'')
            &&& is_remote(volume.source)
        },
{
    crate::text::lemma_split_last_tail(mode_of(spec).0, ':');
}

/// The remote of a parsed volume stands in a single-quoted shell word without
/// escaping.
pub proof fn law_remote_needs_no_escaping(spec: Seq<char>, env: Seq<(Seq<char>, Seq<char>)>)
    requires
        parsed(spec) is Ok,
        parsed(spec)->Ok_0 is Some,
        (parsed(spec)->Ok_0)->0.remote(env) is Some,
    ensures
        !((parsed(spec)->Ok_0)->0.remote(env)->0).contains('\''),
{
    law_parsed_volume_is_sound(spec);
    let volume = (parsed(spec)->Ok_0)->0;
    if let Some(bucket) = crate::text::without_prefix(volume.source, "s3://"@) {
        reveal_strlit(":s3,provider=AWS");
        reveal_strlit(",env_auth=true");
        reveal_strlit(",endpoint=\"");
        reveal_strlit("\"");
        reveal_strlit(",upload_cutoff=0");
        reveal_strlit("");
        reveal_strlit(":");
        if crate::text::trimmed_of(bucket, '/').contains('\'') {
            crate::text::lemma_trimmed_of_part(bucket, '/', '\'');
            let i = choose|i: int| 0 <= i < bucket.len() && bucket[i] == '\'';
            assert(volume.source["s3://"@.len() + i] == '\'');
        }
        let options = s3_options(env);
        let auth = if has_key(env, "AWS_ACCESS_KEY_ID"@) {
            ":s3,provider=AWS"@ + ",env_auth=true"@
        } else {
            ":s3,provider=AWS"@
        };
        assert(!auth.contains('\''));
        if let Some(url) = crate::text::first_value(env, "AWS_ENDPOINT_URL"@) {
            crate::text::lemma_contains_concat(",endpoint=\""@, url, '\'');
            crate::text::lemma_contains_concat(",endpoint=\""@ + url, "\""@, '\'');
            crate::text::lemma_contains_concat(
                ",endpoint=\""@ + url + "\""@,
                if crate::text::has_prefix(url, "http://"@) {
                    ",upload_cutoff=0"@
                } else {
                    ""@
                },
                '\'',
            );
            crate::text::lemma_contains_concat(auth, endpoint_option(url), '\'');
        }
        crate::text::lemma_contains_concat(options, ":"@, '\'');
        crate::text::lemma_contains_concat(
            options + ":"@,
            crate::text::trimmed_of(bucket, '/'),
            '\'',
        );
    }
}

/// A volume parsed from a specification is the volume built from its own parts.
pub proof fn law_parts_agree_with_parser(spec: Seq<char>)
    ensures
        parsed(spec) matches Ok(Some(volume)) ==> assembled(
            volume.source,
            volume.target,
            volume.read_only,
        ) == Ok::<Volume, Seq<char>>(volume),
{
    law_parsed_volume_is_sound(spec);
}

/// Both entry points validate identically: parts whose target is no mode word
/// give the volume, or the mistake, that their written form gives. A writable
/// volume with the relative target `ro` or `rw` has no written form of its own.
pub proof fn law_both_entries_validate_identically(
    source: Seq<char>,
    target: Seq<char>,
    read_only: bool,
)
    requires
        !target.contains(':'),
        read_only || (target != "ro"@ && target != "rw"@),
    ensures
        match parsed(written(source, target, read_only)) {
            Ok(Some(volume)) => assembled(source, target, read_only) == Ok::<Volume, Seq<char>>(
                volume,
            ),
            Ok(None) => assembled(source, target, read_only) == Err::<Volume, Seq<char>>(
                "not a remote volume source: '"@ + source + "'"@,
            ),
            Err(message) => assembled(source, target, read_only) == Err::<Volume, Seq<char>>(
                message,
            ),
        },
{
    reveal_strlit(":");
    reveal_strlit("");
    reveal_strlit(":ro");
    reveal_strlit("ro");
    let body = source + seq![':'] + target;
    let text = written(source, target, read_only);
    crate::text::lemma_split_last_joined(source, target, ':');
    if read_only {
        assert(text =~= body + seq![':'] + "ro"@);
        crate::text::lemma_split_last_joined(body, "ro"@, ':');
    } else {
        assert(text =~= body);
    }
}

/// Parts are kept: an accepted volume has the very source, target and mode that
/// it was built from, and its target is absolute.
pub proof fn law_parts_are_kept(source: Seq<char>, target: Seq<char>, read_only: bool)
    ensures
        assembled(source, target, read_only) matches Ok(volume) ==> volume == (Volume {
            source,
            target,
            read_only,
        }) && target.len() > 0 && target[0] == '/',
{
}

/// No two remote volumes of an accepted list have the same target.
pub proof fn law_accepted_targets_are_distinct(list: Seq<Volume>, i: int, j: int)
    requires
        repeated_target(list) is None,
        0 <= i < j < list.len(),
    ensures
        list[i].target != list[j].target,
    decreases list.len(),
{
    if j == list.len() - 1 {
        assert(list.drop_last()[i] == list[i]);
    } else {
        law_accepted_targets_are_distinct(list.drop_last(), i, j);
    }
}

/// Every specification of an accepted list is either passed on or parsed.
pub proof fn law_no_spec_is_lost(specs: Seq<Seq<char>>)
    ensures
        sorted_specs(specs) matches Ok(lists) ==> lists.0.len() + lists.1.len() == specs.len(),
    decreases specs.len(),
{
    if specs.len() > 0 {
        law_no_spec_is_lost(specs.drop_last());
    }
}

/// Host specifications pass through untouched.
pub proof fn law_host_specs_pass_through(specs: Seq<Seq<char>>)
    requires
        forall|i: int|
            0 <= i < specs.len() ==> parsed(#[trigger] specs[i]) == Ok::<Option<Volume>, Seq<char>>(
                None,
            ),
    ensures
        split_outcome(specs) == Ok::<(Seq<Seq<char>>, Seq<Volume>), Seq<char>>(
            (specs, Seq::empty()),
        ),
    decreases specs.len(),
{
    if specs.len() > 0 {
        let init = specs.drop_last();
        assert forall|i: int| 0 <= i < init.len() implies parsed(#[trigger] init[i]) == Ok::<
            Option<Volume>,
            Seq<char>,
        >(None) by {
            assert(init[i] == specs[i]);
        }
        law_host_specs_pass_through(init);
        assert(parsed(specs[specs.len() - 1]) == Ok::<Option<Volume>, Seq<char>>(None));
        assert(init.push(specs.last()) =~= specs);
    } else {
        assert(specs =~= Seq::empty());
    }
}

/// Double quotes are counted one by one.
pub proof fn law_quotes_add_up(a: Seq<char>, b: Seq<char>)
    ensures
        quotes(a + b) == quotes(a) + quotes(b),
        quotes(seq!['"']) == 1,
        forall|c: char| c != '"' ==> #[trigger] quotes(seq![c]) == 0,
    decreases b.len(),
{
    reveal_with_fuel(quotes, 2);
    assert(seq!['"'].drop_last() =~= Seq::empty());
    assert forall|c: char| c != '"' implies #[trigger] quotes(seq![c]) == 0 by {
        assert(seq![c].drop_last() =~= Seq::empty());
    }
    if b.len() == 0 {
        assert(a + b =~= a);
    } else {
        law_quotes_add_up(a, b.drop_last());
        assert((a + b).drop_last() =~= a + b.drop_last());
    }
}

/// The colon that begins the path of a raw remote is one behind its own first
/// colon with as many opening as closing quotes between the two.
pub proof fn law_path_colon_stands_outside_quotes(name: Seq<char>, path: Seq<char>)
    requires
        quotes(name) % 2 == 0,
    ensures
        has_path_colon(seq![':'] + name + seq![':'] + path),
{
    let source = seq![':'] + name + seq![':'] + path;
    let i = name.len() as int + 1;
    assert(source[i] == ':');
    assert(source.subrange(1, i) =~= name);
}

/// Without another colon, or with all of them inside quotes, a raw remote has no
/// path.
pub proof fn law_quoted_colons_begin_no_path(source: Seq<char>)
    requires
        forall|name: Seq<char>, path: Seq<char>|
            #[trigger] (seq![source[0]] + name + seq![':'] + path) == source ==> quotes(name) % 2
                == 1,
    ensures
        !has_path_colon(source),
{
    if has_path_colon(source) {
        let i = choose|i: int|
            1 <= i < source.len() && #[trigger] source[i] == ':' && quotes(source.subrange(1, i))
                % 2 == 0;
        let name = source.subrange(1, i);
        let path = source.skip(i + 1);
        assert(seq![source[0]] + name + seq![':'] + path =~= source);
    }
}

/// The parts make up a remote volume: a bucket or a raw remote with its path, and
/// an absolute guest path, without what would break the mount command.
pub open spec fn well_written(source: Seq<char>, target: Seq<char>) -> bool {
    &&& target.len() > 0 && target[0] == '/'
    &&& !target.contains(' ') && !target.contains('\'') && !target.contains(':')
    &&& !source.contains('\'')
    &&& (exists|bucket: Seq<char>|
        source == #[trigger] ("s3://"@ + bucket) && exists|i: int|
            0 <= i < bucket.len() && #[trigger] bucket[i] != '/') || (source.len() > 0 && source[0]
        == ':' && has_path_colon(source))
}

proof fn lemma_well_written(spec: Seq<char>, source: Seq<char>, target: Seq<char>)
    requires
        !target.contains(':'),
    ensures
        well_written(source, target) <==> is_remote(source) && volume_fault(spec, source, target)
            is None,
{
    reveal_strlit("s3://");
    let head = "s3://"@;
    if crate::text::has_prefix(source, head) {
        let bucket = source.skip(head.len() as int);
        crate::text::law_prefix_is_taken_off(head, source);
        assert(source == head + bucket);
        assert(source[0] == 's');
        lemma_names_bucket(bucket);
        if well_written(source, target) {
            let b = choose|b: Seq<char>|
                source == #[trigger] (head + b) && exists|i: int|
                    0 <= i < b.len() && #[trigger] b[i] != '/';
            crate::text::law_prefix_is_taken_off(head, b);
            assert(b == bucket);
        }
    } else {
        assert forall|b: Seq<char>| source != #[trigger] (head + b) by {
            crate::text::law_prefix_is_taken_off(head, b);
        }
    }
}

/// Something is left of a bucket without slashes exactly if it holds another
/// character.
proof fn lemma_names_bucket(bucket: Seq<char>)
    ensures
        crate::text::trimmed_of(bucket, '/').len() > 0 <==> exists|i: int|
            0 <= i < bucket.len() && #[trigger] bucket[i] != '/',
{
    let drop = crate::text::equals('/');
    if exists|i: int| 0 <= i < bucket.len() && #[trigger] bucket[i] != '/' {
        let i = choose|i: int| 0 <= i < bucket.len() && #[trigger] bucket[i] != '/';
        lemma_trim_keeps(bucket, i);
    } else {
        crate::text::lemma_trimmed_start(bucket, drop, bucket.len() as int);
    }
}

proof fn lemma_trim_keeps(s: Seq<char>, i: int)
    requires
        0 <= i < s.len(),
        s[i] != '/',
    ensures
        crate::text::trimmed_of(s, '/').len() > 0,
    decreases s.len(),
{
    let drop = crate::text::equals('/');
    if s[0] == '/' {
        assert(s.drop_first()[i - 1] == s[i]);
        lemma_trim_keeps(s.drop_first(), i - 1);
    } else {
        lemma_trim_end_keeps(s, i);
    }
}

proof fn lemma_trim_end_keeps(s: Seq<char>, i: int)
    requires
        0 <= i < s.len(),
        s[i] != '/',
    ensures
        crate::text::trimmed_end(s, crate::text::equals('/')).len() > 0,
    decreases s.len(),
{
    if s.last() == '/' {
        assert(s.drop_last()[i] == s[i]);
        lemma_trim_end_keeps(s.drop_last(), i);
    }
}

/// The mode words mean what they say: a volume is read-only with `ro` behind it,
/// and writable with `rw` or with nothing.
pub proof fn law_mode_words_mean_what_they_say(source: Seq<char>, target: Seq<char>)
    requires
        well_written(source, target),
    ensures
        parsed(source + ":"@ + target + ":ro"@) == Ok::<Option<Volume>, Seq<char>>(
            Some(Volume { source, target, read_only: true }),
        ),
        parsed(source + ":"@ + target + ":rw"@) == Ok::<Option<Volume>, Seq<char>>(
            Some(Volume { source, target, read_only: false }),
        ),
        parsed(source + ":"@ + target) == Ok::<Option<Volume>, Seq<char>>(
            Some(Volume { source, target, read_only: false }),
        ),
{
    reveal_strlit(":");
    reveal_strlit(":ro");
    reveal_strlit(":rw");
    reveal_strlit("ro");
    reveal_strlit("rw");
    let body = source + seq![':'] + target;
    crate::text::lemma_split_last_joined(source, target, ':');
    crate::text::lemma_split_last_joined(body, "ro"@, ':');
    crate::text::lemma_split_last_joined(body, "rw"@, ':');
    assert(source + ":"@ + target =~= body);
    assert(source + ":"@ + target + ":ro"@ =~= body + seq![':'] + "ro"@);
    assert(source + ":"@ + target + ":rw"@ =~= body + seq![':'] + "rw"@);
    assert("ro"@[1] != "rw"@[1]);
    assert("ro"@[0] != target[0]);
    assert("rw"@[0] != target[0]);
    lemma_well_written(body, source, target);
    lemma_well_written(body + seq![':'] + "ro"@, source, target);
    lemma_well_written(body + seq![':'] + "rw"@, source, target);
}

/// Only what is well written is a volume, by whichever way it comes.
pub proof fn law_only_well_written_volumes_are_accepted(
    spec: Seq<char>,
    source: Seq<char>,
    target: Seq<char>,
    read_only: bool,
)
    ensures
        parsed(spec) matches Ok(Some(volume)) ==> well_written(volume.source, volume.target) && (
        spec == volume.source + ":"@ + volume.target || spec == volume.source + ":"@ + volume.target
            + (if volume.read_only {
            ":ro"@
        } else {
            ":rw"@
        })),
        parsed(spec) matches Ok(Some(volume)) ==> (volume.read_only ==> spec == volume.source
            + ":"@ + volume.target + ":ro"@),
        assembled(source, target, read_only) is Ok <==> well_written(source, target),
{
    reveal_strlit(":");
    reveal_strlit(":ro");
    reveal_strlit(":rw");
    reveal_strlit("ro");
    reveal_strlit("rw");
    law_parsed_volume_is_sound(spec);
    if let Ok(Some(volume)) = parsed(spec) {
        lemma_well_written(spec, volume.source, volume.target);
        let (rest, _) = mode_of(spec);
        lemma_split_joins(spec, ':');
        lemma_split_joins(rest, ':');
        let body = volume.source + seq![':'] + volume.target;
        assert(rest == body);
        assert(volume.source + ":"@ + volume.target =~= body);
        assert(body + seq![':'] + "ro"@ =~= volume.source + ":"@ + volume.target + ":ro"@);
        assert(body + seq![':'] + "rw"@ =~= volume.source + ":"@ + volume.target + ":rw"@);
    }
    if !target.contains(':') {
        lemma_well_written(written(source, target, read_only), source, target);
    }
}

proof fn lemma_split_joins(s: Seq<char>, c: char)
    ensures
        crate::text::split_last(s, c) matches Some((head, tail)) ==> s == head + seq![c] + tail,
{
    crate::text::lemma_last_index(s, c);
    if let Some(i) = crate::text::last_index(s, c) {
        assert(s =~= s.take(i) + seq![c] + s.skip(i + 1));
    }
}

/// What has no bucket and no raw remote in front is left to the host: a text
/// without colons, and one whose source begins otherwise.
pub proof fn law_other_sources_are_left_to_the_host(
    source: Seq<char>,
    target: Seq<char>,
    mode: Seq<char>,
)
    requires
        !target.contains(':'),
        source.len() > 0 ==> source[0] != ':',
        forall|rest: Seq<char>| source != #[trigger] ("s3://"@ + rest),
        target != "ro"@,
        target != "rw"@,
        mode == ""@ || mode == ":ro"@ || mode == ":rw"@,
    ensures
        parsed(target) == Ok::<Option<Volume>, Seq<char>>(None),
        parsed(source + ":"@ + target + mode) == Ok::<Option<Volume>, Seq<char>>(None),
{
    reveal_strlit("");
    reveal_strlit(":");
    reveal_strlit(":ro");
    reveal_strlit(":rw");
    reveal_strlit("ro");
    reveal_strlit("rw");
    let head = "s3://"@;
    if crate::text::has_prefix(source, head) {
        crate::text::law_prefix_is_taken_off(head, source);
        assert(source == head + source.skip(head.len() as int));
    }
    let body = source + seq![':'] + target;
    crate::text::law_splits_at_the_last(source, target, ':');
    crate::text::lemma_split_last_joined(body, "ro"@, ':');
    crate::text::lemma_split_last_joined(body, "rw"@, ':');
    let spec = source + ":"@ + target + mode;
    if mode == ""@ {
        assert(spec =~= body);
    } else if mode == ":ro"@ {
        assert(spec =~= body + seq![':'] + "ro"@);
    } else {
        assert(spec =~= body + seq![':'] + "rw"@);
    }
}

/// Specifications are sorted one by one, in their order: a further one joins the
/// host's or the remote ones, and a mistake is final.
pub proof fn law_specs_are_sorted_in_order(specs: Seq<Seq<char>>, spec: Seq<char>)
    ensures
        match (sorted_specs(specs), parsed(spec)) {
            (Ok((host, remote)), Ok(None)) => sorted_specs(specs.push(spec)) == Ok::<
                (Seq<Seq<char>>, Seq<Volume>),
                Seq<char>,
            >((host.push(spec), remote)),
            (Ok((host, remote)), Ok(Some(volume))) => sorted_specs(specs.push(spec)) == Ok::<
                (Seq<Seq<char>>, Seq<Volume>),
                Seq<char>,
            >((host, remote.push(volume))),
            (Err(message), _) => sorted_specs(specs.push(spec)) == Err::<
                (Seq<Seq<char>>, Seq<Volume>),
                Seq<char>,
            >(message),
            (Ok(_), Err(message)) => sorted_specs(specs.push(spec)) == Err::<
                (Seq<Seq<char>>, Seq<Volume>),
                Seq<char>,
            >(message),
        },
        sorted_specs(Seq::empty()) == Ok::<(Seq<Seq<char>>, Seq<Volume>), Seq<char>>(
            (Seq::empty(), Seq::empty()),
        ),
{
    assert(specs.push(spec).drop_last() =~= specs);
}

/// Volumes are handed on exactly if no two of them have the same target.
pub proof fn law_shared_targets_are_refused(specs: Seq<Seq<char>>)
    ensures
        match sorted_specs(specs) {
            Ok((host, remote)) => {
                let shared = exists|i: int, j: int|
                    0 <= i < j < remote.len() && (#[trigger] remote[i]).target == (
                    #[trigger] remote[j]).target;
                &&& !shared ==> split_outcome(specs) == Ok::<
                    (Seq<Seq<char>>, Seq<Volume>),
                    Seq<char>,
                >((host, remote))
                &&& shared ==> split_outcome(specs) is Err
            },
            Err(message) => split_outcome(specs) == Err::<
                (Seq<Seq<char>>, Seq<Volume>),
                Seq<char>,
            >(message),
        },
{
    if let Ok((host, remote)) = sorted_specs(specs) {
        if let Some(target) = repeated_target(remote) {
            lemma_repeated_target_is_shared(remote);
        } else {
            assert forall|i: int, j: int| 0 <= i < j < remote.len() implies (
            #[trigger] remote[i]).target != (#[trigger] remote[j]).target by {
                law_accepted_targets_are_distinct(remote, i, j);
            }
        }
    }
}

proof fn lemma_repeated_target_is_shared(list: Seq<Volume>)
    requires
        repeated_target(list) is Some,
    ensures
        exists|i: int, j: int|
            0 <= i < j < list.len() && (#[trigger] list[i]).target == (#[trigger] list[j]).target,
    decreases list.len(),
{
    let init = list.drop_last();
    if repeated_target(init) is Some {
        lemma_repeated_target_is_shared(init);
        let (i, j) = choose|i: int, j: int|
            0 <= i < j < init.len() && (#[trigger] init[i]).target == (#[trigger] init[j]).target;
        assert(list[i] == init[i] && list[j] == init[j]);
    } else {
        let i = choose|i: int| 0 <= i < init.len() && (#[trigger] init[i]).target
            == list.last().target;
        assert(list[i] == init[i]);
        assert(list[list.len() - 1] == list.last());
    }
}

/// A raw remote is handed to rclone as it is.
pub proof fn law_raw_remote_passes_through(volume: Volume, env: Seq<(Seq<char>, Seq<char>)>)
    requires
        volume.source.len() > 0,
        volume.source[0] == ':',
    ensures
        volume.remote(env) == Some(volume.source),
{
    reveal_strlit("s3://");
    if crate::text::has_prefix(volume.source, "s3://"@) {
        assert(volume.source.take("s3://"@.len() as int)[0] == 's');
    }
}

/// A bucket is handed to rclone's S3 backend, without the slashes around it. It
/// uses the environment's credentials where there are any and the environment's
/// endpoint where there is one; uploads to a plain-http endpoint are not
/// streamed. An endpoint with quotes is refused.
pub proof fn law_bucket_becomes_an_s3_remote(
    bucket: Seq<char>,
    target: Seq<char>,
    read_only: bool,
    env: Seq<(Seq<char>, Seq<char>)>,
)
    ensures
        ({
            let volume = Volume { source: "s3://"@ + bucket, target, read_only };
            let path = crate::text::trimmed_of(bucket, '/');
            let auth = if crate::text::first_value(env, "AWS_ACCESS_KEY_ID"@) is Some {
                ":s3,provider=AWS,env_auth=true"@
            } else {
                ":s3,provider=AWS"@
            };
            match crate::text::first_value(env, "AWS_ENDPOINT_URL"@) {
                None => volume.remote(env) == Some(auth + ":"@ + path),
                Some(url) => if url.contains('"') || url.contains('\'') {
                    volume.remote(env) is None
                } else if exists|rest: Seq<char>| url == #[trigger] ("http://"@ + rest) {
                    volume.remote(env) == Some(
                        auth + (",endpoint=\""@ + url + "\",upload_cutoff=0"@) + ":"@ + path,
                    )
                } else {
                    volume.remote(env) == Some(auth + (",endpoint=\""@ + url + "\""@) + ":"@ + path)
                },
            }
        }),
{
    crate::text::law_prefix_is_taken_off("s3://"@, bucket);
    reveal_strlit(":s3,provider=AWS");
    reveal_strlit(",env_auth=true");
    reveal_strlit(":s3,provider=AWS,env_auth=true");
    reveal_strlit("\"");
    reveal_strlit(",upload_cutoff=0");
    reveal_strlit("\",upload_cutoff=0");
    reveal_strlit("");
    assert(":s3,provider=AWS"@ + ",env_auth=true"@ =~= ":s3,provider=AWS,env_auth=true"@);
    if let Some(url) = crate::text::first_value(env, "AWS_ENDPOINT_URL"@) {
        let head = ",endpoint=\""@ + url;
        assert(head + "\""@ + ",upload_cutoff=0"@ =~= head + "\",upload_cutoff=0"@);
        assert(head + "\""@ + ""@ =~= head + "\""@);
        if crate::text::has_prefix(url, "http://"@) {
            crate::text::law_prefix_is_taken_off("http://"@, url);
            assert(url == "http://"@ + url.skip("http://"@.len() as int));
        }
        if exists|rest: Seq<char>| url == #[trigger] ("http://"@ + rest) {
            let rest = choose|rest: Seq<char>| url == #[trigger] ("http://"@ + rest);
            crate::text::law_prefix_is_taken_off("http://"@, rest);
        }
    }
}

/// The mount command makes the volume's directory and mounts its remote there,
/// read-only or with cached writes as the volume says; a volume without a remote
/// has none.
pub proof fn law_command_mounts_remote_at_target(
    volume: Volume,
    env: Seq<(Seq<char>, Seq<char>)>,
)
    ensures
        match volume.remote(env) {
            None => volume.command(env) is None,
            Some(remote) => volume.command(env) matches Some(command) && exists|head: Seq<char>|
                command == #[trigger] (head + ("mkdir -p '"@ + volume.target + "' && rclone mount '"@
                    + remote + "' '"@ + volume.target + "' --daemon"@)) + (if volume.read_only {
                    " --read-only"@
                } else {
                    " --vfs-cache-mode writes"@
                }),
        },
{
    if let Some(remote) = volume.remote(env) {
        let tools =
            "command -v rclone >/dev/null 2>&1 && command -v fusermount3 >/dev/null 2>&1 || { echo \"remote volume "@;
        let hint =
            " needs rclone and fuse3 in the image (alpine: apk add rclone fuse3 | debian/ubuntu: apt-get install -y rclone fuse3)\" >&2; exit 1; }; [ -e /dev/fuse ] || mknod /dev/fuse c 10 229; mkdir -p '"@;
        reveal_strlit(
            " needs rclone and fuse3 in the image (alpine: apk add rclone fuse3 | debian/ubuntu: apt-get install -y rclone fuse3)\" >&2; exit 1; }; [ -e /dev/fuse ] || mknod /dev/fuse c 10 229; mkdir -p '",
        );
        reveal_strlit("mkdir -p '");
        let make = "mkdir -p '"@;
        let n = hint.len() - make.len();
        assert(hint.skip(n) =~= make);
        let head = tools + volume.target + hint.take(n);
        let action = make + volume.target + "' && rclone mount '"@ + remote + "' '"@
            + volume.target + "' --daemon"@;
        let mode = if volume.read_only {
            " --read-only"@
        } else {
            " --vfs-cache-mode writes"@
        };
        assert(volume.command(env)->0 =~= (head + action) + mode);
    }
}

/// There is one mount command for each volume, in their order; one volume without
/// a command leaves none.
pub proof fn law_each_volume_has_its_command(
    list: Seq<Volume>,
    env: Seq<(Seq<char>, Seq<char>)>,
    i: int,
)
    requires
        0 <= i < list.len(),
    ensures
        match commands(list, env) {
            Some(lines) => lines.len() == list.len() && list[i].command(env) == Some(lines[i]),
            None => exists|j: int| 0 <= j < list.len() && (#[trigger] list[j]).command(env) is None,
        },
    decreases list.len(),
{
    let init = list.drop_last();
    assert(list[list.len() - 1] == list.last());
    if init.len() > 0 {
        let k = if i < init.len() {
            i
        } else {
            0
        };
        law_each_volume_has_its_command(init, env, k);
        assert(init[k] == list[k]);
        if commands(init, env) is None {
            let j = choose|j: int| 0 <= j < init.len() && (#[trigger] init[j]).command(env) is None;
            assert(list[j] == init[j]);
        }
    } else {
        assert(init =~= Seq::empty());
    }
}

/// A volume counts as mounted where the mount table has an rclone mount at its
/// own target.
pub proof fn law_check_looks_at_the_target(volume: Volume)
    ensures
        mount_check(volume) == "awk -v m='"@ + volume.target
            + "' '$2==m' /proc/mounts | grep -q rclone"@,
{
}

/// The refusal names the target of the first volume that shares it with an
/// earlier one.
pub proof fn law_refusal_names_the_shared_target(
    specs: Seq<Seq<char>>,
    host: Seq<Seq<char>>,
    remote: Seq<Volume>,
    i: int,
    j: int,
)
    requires
        sorted_specs(specs) == Ok::<(Seq<Seq<char>>, Seq<Volume>), Seq<char>>((host, remote)),
        0 <= i < j < remote.len(),
        remote[i].target == remote[j].target,
        forall|a: int, b: int|
            0 <= a < b < j ==> (#[trigger] remote[a]).target != (#[trigger] remote[b]).target,
    ensures
        split_outcome(specs) == Err::<(Seq<Seq<char>>, Seq<Volume>), Seq<char>>(
            "duplicate mount target: "@ + remote[j].target + " is specified more than once"@,
        ),
{
    let early = remote.take(j);
    if repeated_target(early) is Some {
        lemma_repeated_target_is_shared(early);
        let (a, b) = choose|a: int, b: int|
            0 <= a < b < early.len() && (#[trigger] early[a]).target == (
            #[trigger] early[b]).target;
        assert(early[a] == remote[a] && early[b] == remote[b]);
    }
    let upto = remote.take(j + 1);
    assert(upto.drop_last() =~= early);
    assert(upto.last() == remote[j]);
    assert(early[i].target == remote[j].target);
    assert(repeated_target(upto) == Some(remote[j].target));
    lemma_first_repeat(remote, j + 1);
}

} // verus!
