//! Routing registry references that name smolmachine PACK artifacts.
//!
//! A repository on the smolmachines registry (e.g. `library/alpine`, or a
//! tenant export) is not an OCI container image: its single "layer" blob
//! (mediaType `application/vnd.smolmachines.smolmachine.v1`) is a complete
//! `.smolmachine` sidecar. Handing such a ref to the in-guest OCI puller
//! tar-unpacks the sidecar generically and fills the guest disk before anything
//! boots. So a reference's manifest is probed on the HOST and, when the layers
//! carry a smolmachines media type, the sidecar blob is downloaded there.
//!
//! The probe is deliberately fail-open: any parse/auth/network failure means
//! "not a pack" and the caller proceeds with the normal in-guest pull, so the
//! probe can never break docker.io/GHCR/other-registry images. Only a pull
//! failure AFTER a positive probe is an error.
//!
//! An AUTH denial does NOT mean "not a pack"; it means "I couldn't look".
//! Falling back is still right, but it is worth a warning that names the missing
//! credential.
use vstd::prelude::*;
use crate::text::{contains_char, same, split_once, starts_with};

verus! {

/// Media-type prefix that marks a manifest layer as a smolmachines artifact
/// (`application/vnd.smolmachines.smolmachine.v1` today; the vendor prefix is
/// the trigger so future versions route the same way).
pub const PACK_MEDIA_TYPE_PREFIX: &'static str = "application/vnd.smolmachines.";

/// The layer's media type carries the smolmachines vendor prefix.
pub open spec fn is_pack_layer(layer: serde_json::Value) -> bool {
    match crate::json::member(layer, "mediaType"@) {
        Some(value) => match crate::json::string_of(value) {
            Some(media_type) => crate::text::has_prefix(
                media_type,
                "application/vnd.smolmachines."@,
            ),
            None => false,
        },
        None => false,
    }
}

/// The layers of a manifest.
pub open spec fn layers_of(document: serde_json::Value) -> Option<Seq<serde_json::Value>> {
    match crate::json::member(document, "layers"@) {
        Some(value) => crate::json::items(value),
        None => None,
    }
}

/// Some layer of the manifest is a smolmachines artifact.
pub open spec fn is_pack(document: serde_json::Value) -> bool {
    match layers_of(document) {
        Some(layers) => exists|i: int|
            0 <= i < layers.len() && is_pack_layer(#[trigger] layers[i]),
        None => false,
    }
}

/// Whether a layer is a smolmachines artifact.
fn layer_is_pack(layer: &serde_json::Value) -> (r: bool)
    ensures
        r == is_pack_layer(*layer),
{
    match crate::json::get(layer, "mediaType") {
        Some(value) => match crate::json::as_str(value) {
            Some(media_type) => starts_with(media_type, "application/vnd.smolmachines."),
            None => false,
        },
        None => false,
    }
}

/// Whether a parsed manifest describes a smolmachine pack: any layer whose
/// mediaType carries the smolmachines vendor prefix.
pub fn document_has_pack_layer(document: &serde_json::Value) -> (r: bool)
    ensures
        r == is_pack(*document),
{
    let layers = match crate::json::get(document, "layers") {
        Some(value) => match crate::json::as_array(value) {
            Some(layers) => layers,
            None => {
                return false;
            },
        },
        None => {
            return false;
        },
    };
    for i in 0..layers.len()
        invariant
            layers_of(*document) == Some(layers@),
            forall|j: int| 0 <= j < i ==> !is_pack_layer(#[trigger] layers@[j]),
    {
        if layer_is_pack(&layers[i]) {
            assert(is_pack_layer(layers_of(*document)->0[i as int]));
            return true;
        }
    }
    false
}

/// Whether a (platform-resolved) OCI manifest describes a smolmachine pack.
///
/// Parses leniently, so Docker v2 / OCI manifests of any shape still classify
/// as "not a pack" rather than erroring.
pub fn manifest_has_pack_layer(manifest_bytes: &[u8]) -> (r: bool)
    ensures
        r == (crate::json::parsed_json(manifest_bytes@) matches Some(document) && is_pack(
            document,
        )),
{
    match crate::json::parse(manifest_bytes) {
        Some(document) => document_has_pack_layer(&document),
        None => false,
    }
}

/// User name and password of a registry.
#[derive(Debug, Clone)]
pub struct RegistryAuth {
    /// User name.
    pub username: String,
    /// Password.
    pub password: String,
}

/// What is configured for one registry.
#[derive(Debug, Clone, Default)]
pub struct RegistryEntry {
    /// Token to exchange at the registry's token service.
    pub identity_token: Option<String>,
    /// User name and password.
    pub auth: Option<RegistryAuth>,
}

/// Configured registries, by host.
#[derive(Debug, Clone, Default)]
pub struct RegistryConfig {
    /// Hosts and what is configured for them.
    pub registries: Vec<(String, RegistryEntry)>,
}

/// Configured registries of machines and of container images.
#[derive(Debug, Clone, Default)]
pub struct SmolSettings {
    /// Registries of `.smolmachine` artifacts.
    pub machines: RegistryConfig,
    /// Registries of container images.
    pub images: RegistryConfig,
}

/// A credential for the pack probe.
#[derive(Debug, Clone, PartialEq, Eq)]
pub enum ProbeCredential {
    /// Upstream JWT exchanged at the registry's token service.
    Identity(String),
    /// A bearer sent straight to the registry (`username = "token"`).
    Bearer(String),
    /// User name and password.
    Basic {
        /// User name.
        username: String,
        /// Password.
        password: String,
    },
}

/// Model of a credential.
pub enum Credential {
    Identity(Seq<char>),
    Bearer(Seq<char>),
    Basic { username: Seq<char>, password: Seq<char> },
}

impl View for ProbeCredential {
    type V = Credential;

    open spec fn view(&self) -> Credential {
        match *self {
            ProbeCredential::Identity(token) => Credential::Identity(token@),
            ProbeCredential::Bearer(token) => Credential::Bearer(token@),
            ProbeCredential::Basic { username, password } => Credential::Basic {
                username: username@,
                password: password@,
            },
        }
    }
}

/// The model of an optional credential.
pub open spec fn maybe_credential(credential: Option<ProbeCredential>) -> Option<Credential> {
    match credential {
        Some(credential) => Some(credential@),
        None => None,
    }
}

/// What is configured for the host; the last entry counts.
pub open spec fn entry_for(list: Seq<(String, RegistryEntry)>, registry: Seq<char>) -> Option<
    RegistryEntry,
>
    decreases list.len(),
{
    if list.len() == 0 {
        None
    } else if list.last().0@ == registry {
        Some(list.last().1)
    } else {
        entry_for(list.drop_last(), registry)
    }
}

/// The credential of an entry: its identity token, else its password, which is
/// itself a bearer under the user name `token`.
pub open spec fn entry_credential(entry: RegistryEntry) -> Option<Credential> {
    match (entry.identity_token, entry.auth) {
        (Some(token), _) => Some(Credential::Identity(token@)),
        (None, Some(auth)) => if auth.username@ == "token"@ {
            Some(Credential::Bearer(auth.password@))
        } else {
            Some(Credential::Basic { username: auth.username@, password: auth.password@ })
        },
        (None, None) => None,
    }
}

/// The credential that one settings section has for the host.
pub open spec fn section_credential(config: RegistryConfig, registry: Seq<char>) -> Option<
    Credential,
> {
    match entry_for(config.registries@, registry) {
        Some(entry) => entry_credential(entry),
        None => None,
    }
}

/// The credential that the settings have for the host: that of the machines,
/// else that of the images.
pub open spec fn settings_credential(settings: SmolSettings, registry: Seq<char>) -> Option<
    Credential,
> {
    match section_credential(settings.machines, registry) {
        Some(credential) => Some(credential),
        None => section_credential(settings.images, registry),
    }
}

/// Pull a configured credential for `registry` out of one settings section.
pub fn credential_from(config: &RegistryConfig, registry: &str) -> (r: Option<ProbeCredential>)
    ensures
        maybe_credential(r) == section_credential(*config, registry@),
{
    let list = &config.registries;
    let mut i: usize = list.len();
    assert(list@.take(list@.len() as int) =~= list@);
    while i > 0
        invariant
            list@ == config.registries@,
            i <= list@.len(),
            entry_for(list@, registry@) == entry_for(list@.take(i as int), registry@),
        decreases i,
    {
        assert(list@.take(i as int).drop_last() =~= list@.take(i - 1));
        i -= 1;
        if same(list[i].0.as_str(), registry) {
            let entry = &list[i].1;
            if let Some(token) = &entry.identity_token {
                return Some(ProbeCredential::Identity(token.clone()));
            }
            return match &entry.auth {
                Some(auth) => if same(auth.username.as_str(), "token") {
                    Some(ProbeCredential::Bearer(auth.password.clone()))
                } else {
                    Some(
                        ProbeCredential::Basic {
                            username: auth.username.clone(),
                            password: auth.password.clone(),
                        },
                    )
                },
                None => None,
            };
        }
    }
    None
}

/// Find a credential for `registry`, preferring the `machines` section but
/// falling back to `images`.
///
/// The two sections exist because a `.smolmachine` artifact registry and a
/// container-image registry are usually different things. But ONE host can
/// serve both, and a reference alone doesn't say which it is; the probe is what
/// finds out. Both sections are the same user's credentials for the same host
/// they typed, so trying the other one crosses no trust boundary.
pub fn configured_credential(settings: &SmolSettings, registry: &str) -> (r: Option<
    ProbeCredential,
>)
    ensures
        maybe_credential(r) == settings_credential(*settings, registry@),
{
    match credential_from(&settings.machines, registry) {
        Some(credential) => Some(credential),
        None => credential_from(&settings.images, registry),
    }
}

/// Why a registry did not answer as asked.
#[derive(Debug, Clone, PartialEq, Eq)]
pub enum RegistryError {
    /// The client could not authenticate.
    Authentication {
        /// Explanation.
        message: String,
    },
    /// The registry refused the request.
    ApiError {
        /// HTTP status.
        status: u16,
        /// Body of the answer.
        body: String,
    },
    /// The manifest cannot be used.
    InvalidManifest(String),
    /// Anything else.
    Other(String),
}

/// The error means that the caller is not authorized.
pub open spec fn denies_access(err: RegistryError) -> bool {
    match err {
        RegistryError::Authentication { .. } => true,
        RegistryError::ApiError { status, .. } => status == 401 || status == 403,
        _ => false,
    }
}

/// Whether a registry error means "you are not authorized" rather than
/// "something went wrong". These are the failures a missing or unscoped pull
/// credential produces, and the only ones worth shouting about when the probe
/// falls back; every other failure really is best-effort noise.
pub fn is_auth_denial(err: &RegistryError) -> (r: bool)
    ensures
        r == denies_access(*err),
{
    match err {
        RegistryError::Authentication { .. } => true,
        RegistryError::ApiError { status, .. } => *status == 401 || *status == 403,
        _ => false,
    }
}

/// The host that an image value names, if it names one: a part before the first
/// slash that has a dot or a colon or is `localhost`, with something behind the
/// slash.
pub open spec fn named_host(image: Seq<char>) -> Option<Seq<char>> {
    match crate::text::split_first(image, '/') {
        Some((first, rest)) => if rest.len() > 0 && (first.contains('.') || first.contains(':')
            || first == "localhost"@) {
            Some(first)
        } else {
            None
        },
        None => None,
    }
}

/// The explicit registry host of an `--image` value, if it names one
/// (`host.tld/...`, `host:port/...`, `localhost/...`).
///
/// Docker-convention bare names (`alpine`, `library/ubuntu:24.04`) return
/// `None`: to the in-guest puller they mean Docker Hub. Probing them would
/// re-interpret `--image alpine` as a pack of the smolmachines registry and
/// silently hijack a Docker Hub pull, so only explicit hosts are probed.
pub fn explicit_registry_host<'a>(image: &'a str) -> (r: Option<&'a str>)
    ensures
        match r {
            Some(host) => named_host(image@) == Some(host@),
            None => named_host(image@) is None,
        },
{
    let (first, rest) = match split_once(image, '/') {
        Some(parts) => parts,
        None => {
            return None;
        },
    };
    if rest.unicode_len() == 0 {
        return None;
    }
    if contains_char(first, '.') || contains_char(first, ':') || same(first, "localhost") {
        Some(first)
    } else {
        None
    }
}

/// The host is Docker Hub under one of its names.
pub open spec fn names_docker_hub(host: Seq<char>) -> bool {
    host == "docker.io"@ || host == "index.docker.io"@ || host == "registry-1.docker.io"@
}

/// Docker Hub aliases never serve packs, so skip the probe entirely rather than
/// pay a cold manifest round-trip on every Hub pull.
pub fn is_docker_hub(host: &str) -> (r: bool)
    ensures
        r == names_docker_hub(host@),
{
    same(host, "docker.io") || same(host, "index.docker.io") || same(host, "registry-1.docker.io")
}

/// Whether an image value may name a pack at all: it names a host other than
/// Docker Hub.
pub fn may_probe(image: &str) -> (r: bool)
    ensures
        r == (named_host(image@) matches Some(host) && !names_docker_hub(host)),
{
    match explicit_registry_host(image) {
        Some(host) => !is_docker_hub(host),
        None => false,
    }
}

/// A parsed image reference.
#[derive(Debug, Clone)]
pub struct Reference {
    /// Host of the registry.
    pub registry: String,
    /// Repository in the registry.
    pub repository: String,
    /// Digest, if the reference pins one.
    pub digest: Option<String>,
    /// Tag, if the reference names one.
    pub tag: Option<String>,
}

/// The manifest that a reference means: its digest, else its tag, else the
/// latest.
pub open spec fn manifest_reference(parsed: Reference) -> Seq<char> {
    match (parsed.digest, parsed.tag) {
        (Some(digest), _) => digest@,
        (None, Some(tag)) => tag@,
        (None, None) => "latest"@,
    }
}

/// The request that probes a manifest.
#[derive(Debug)]
pub struct ProbePlan {
    /// Base URL of the registry.
    pub base_url: String,
    /// Credential to present, if there is one.
    pub credential: Option<ProbeCredential>,
    /// Repository in the registry.
    pub repository: String,
    /// Digest or tag of the manifest.
    pub reference: String,
}

/// The registry that is asked: the mirror, where there is one.
pub open spec fn effective_registry(registry: Seq<char>, mirror: Option<Seq<char>>) -> Seq<char> {
    match mirror {
        Some(mirror) => mirror,
        None => registry,
    }
}

/// The credential of a probe: a supplied identity token, else what is configured
/// for the registry that the reference names.
pub open spec fn probe_credential(
    identity_token: Option<Seq<char>>,
    settings: SmolSettings,
    registry: Seq<char>,
) -> Option<Credential> {
    match identity_token {
        Some(token) => Some(Credential::Identity(token)),
        None => settings_credential(settings, registry),
    }
}

/// The URL of a registry: only a local one is reached without TLS.
pub open spec fn base_url_of(registry: Seq<char>, is_local: bool) -> Seq<char> {
    if is_local {
        "http://"@ + registry
    } else {
        "https://"@ + registry
    }
}

/// The view of an optional string slice.
pub open spec fn maybe_slice(s: Option<&str>) -> Option<Seq<char>> {
    match s {
        Some(text) => Some(text@),
        None => None,
    }
}

/// How to probe the manifest of a reference, and nothing where the registry that
/// would be asked is Docker Hub. `is_local` says whether that registry is a
/// local one, which is reached without TLS. A request-supplied `identity_token`
/// takes precedence over persisted credentials.
pub fn plan_probe(
    parsed: &Reference,
    mirror: Option<&str>,
    is_local: bool,
    identity_token: Option<&str>,
    settings: &SmolSettings,
) -> (r: Option<ProbePlan>)
    ensures
        ({
            let asked = effective_registry(parsed.registry@, maybe_slice(mirror));
            match r {
                None => names_docker_hub(asked),
                Some(plan) => {
                    &&& !names_docker_hub(asked)
                    &&& plan.base_url@ == (if is_local {
                        "http://"@
                    } else {
                        "https://"@
                    }) + asked
                    &&& maybe_credential(plan.credential) == probe_credential(
                        maybe_slice(identity_token),
                        *settings,
                        parsed.registry@,
                    )
                    &&& plan.base_url@ == base_url_of(asked, is_local)
                    &&& plan.repository@ == parsed.repository@
                    &&& plan.reference@ == manifest_reference(*parsed)
                },
            }
        }),
{
    let asked = match mirror {
        Some(mirror) => mirror,
        None => parsed.registry.as_str(),
    };
    if is_docker_hub(asked) {
        return None;
    }
    let mut base_url = if is_local {
        "http://".to_owned()
    } else {
        "https://".to_owned()
    };
    base_url.append(asked);
    let credential = match identity_token {
        Some(token) => Some(ProbeCredential::Identity(token.to_owned())),
        None => configured_credential(settings, parsed.registry.as_str()),
    };
    let reference = match (&parsed.digest, &parsed.tag) {
        (Some(digest), _) => digest.clone(),
        (None, Some(tag)) => tag.clone(),
        (None, None) => "latest".to_owned(),
    };
    Some(ProbePlan { base_url, credential, repository: parsed.repository.clone(), reference })
}

/// What a probe found.
#[derive(Debug, Clone, Copy, PartialEq, Eq, Structural)]
pub enum ProbeOutcome {
    /// The reference is a pack: a failure to pull it is an error.
    Pack,
    /// The reference is no pack: the in-guest pull takes over.
    NotAPack,
    /// The registry did not answer: the in-guest pull takes over.
    Unanswered,
    /// The registry denied access: the in-guest pull takes over, and the
    /// missing credential is worth a warning.
    Denied,
}

/// What the registry's answer to a probe means.
pub open spec fn finding(reply: Result<Seq<u8>, RegistryError>) -> ProbeOutcome {
    match reply {
        Ok(bytes) => match crate::json::parsed_json(bytes) {
            Some(document) => if is_pack(document) {
                ProbeOutcome::Pack
            } else {
                ProbeOutcome::NotAPack
            },
            None => ProbeOutcome::NotAPack,
        },
        Err(err) => if denies_access(err) {
            ProbeOutcome::Denied
        } else {
            ProbeOutcome::Unanswered
        },
    }
}

/// What the registry's answer to a probe means. Every failure falls back to the
/// in-guest pull.
pub fn probe_outcome(reply: Result<Vec<u8>, RegistryError>) -> (r: ProbeOutcome)
    ensures
        r == finding(
            match reply {
                Ok(bytes) => Ok(bytes@),
                Err(err) => Err(err),
            },
        ),
{
    match reply {
        Ok(bytes) => if manifest_has_pack_layer(bytes.as_slice()) {
            ProbeOutcome::Pack
        } else {
            ProbeOutcome::NotAPack
        },
        Err(err) => if is_auth_denial(&err) {
            ProbeOutcome::Denied
        } else {
            ProbeOutcome::Unanswered
        },
    }
}

/// An entry of the section for that very host holds the credential.
pub open spec fn held_by(
    config: RegistryConfig,
    registry: Seq<char>,
    credential: Credential,
) -> bool {
    exists|i: int|
        0 <= i < config.registries@.len() && (#[trigger] config.registries@[i]).0@ == registry
            && entry_credential(config.registries@[i].1) == Some(credential)
}

/// A credential is never borrowed across registries: what is found for a host
/// is held by an entry of that very host.
pub proof fn law_credential_belongs_to_its_registry(settings: SmolSettings, registry: Seq<char>)
    ensures
        settings_credential(settings, registry) matches Some(credential) ==> held_by(
            settings.machines,
            registry,
            credential,
        ) || held_by(settings.images, registry, credential),
{
    if section_credential(settings.machines, registry) is Some {
        let i = lemma_entry_position(settings.machines.registries@, registry);
        assert(settings.machines.registries@[i].0@ == registry);
    } else if section_credential(settings.images, registry) is Some {
        let i = lemma_entry_position(settings.images.registries@, registry);
        assert(settings.images.registries@[i].0@ == registry);
    }
}

proof fn lemma_entry_position(list: Seq<(String, RegistryEntry)>, registry: Seq<char>) -> (i: int)
    requires
        entry_for(list, registry) is Some,
    ensures
        0 <= i < list.len(),
        list[i].0@ == registry,
        entry_for(list, registry) == Some(list[i].1),
    decreases list.len(),
{
    if list.last().0@ == registry {
        list.len() - 1
    } else {
        lemma_entry_position(list.drop_last(), registry)
    }
}

/// What is configured for the host, in the order of the list.
pub open spec fn entries_of(list: Seq<(String, RegistryEntry)>, registry: Seq<char>) -> Seq<
    RegistryEntry,
>
    decreases list.len(),
{
    if list.len() == 0 {
        Seq::empty()
    } else if list.last().0@ == registry {
        entries_of(list.drop_last(), registry).push(list.last().1)
    } else {
        entries_of(list.drop_last(), registry)
    }
}

/// Entries of other hosts are irrelevant: settings with the same entries for a
/// host, in both sections, have the same credential for it.
pub proof fn law_other_registries_are_irrelevant(
    a: SmolSettings,
    b: SmolSettings,
    registry: Seq<char>,
)
    requires
        entries_of(a.machines.registries@, registry) == entries_of(b.machines.registries@, registry),
        entries_of(a.images.registries@, registry) == entries_of(b.images.registries@, registry),
    ensures
        settings_credential(a, registry) == settings_credential(b, registry),
{
    lemma_last_entry_counts(a.machines.registries@, registry);
    lemma_last_entry_counts(b.machines.registries@, registry);
    lemma_last_entry_counts(a.images.registries@, registry);
    lemma_last_entry_counts(b.images.registries@, registry);
}

proof fn lemma_last_entry_counts(list: Seq<(String, RegistryEntry)>, registry: Seq<char>)
    ensures
        entry_for(list, registry) == if entries_of(list, registry).len() == 0 {
            None
        } else {
            Some(entries_of(list, registry).last())
        },
    decreases list.len(),
{
    if list.len() > 0 {
        lemma_last_entry_counts(list.drop_last(), registry);
    }
}

/// The probe fails open: whatever goes wrong, be it the registry's answer or the
/// manifest itself, the reference is not taken for a pack.
pub proof fn law_probe_fails_open(reply: Result<Seq<u8>, RegistryError>)
    requires
        reply matches Ok(bytes) ==> crate::json::parsed_json(bytes) is None,
    ensures
        finding(reply) != ProbeOutcome::Pack,
{
}

/// The machines' credential wins over the images' one.
pub proof fn law_machines_section_wins(settings: SmolSettings, registry: Seq<char>)
    requires
        section_credential(settings.machines, registry) is Some,
    ensures
        settings_credential(settings, registry) == section_credential(settings.machines, registry),
{
}

/// A name without a slash is never probed.
pub proof fn law_bare_names_are_not_probed(image: Seq<char>)
    requires
        !image.contains('/'),
    ensures
        named_host(image) is None,
{
    crate::text::lemma_first_index(image, '/');
    if let Some(i) = crate::text::first_index(image, '/') {
        assert(image.contains(image[i]));
    }
}

/// A manifest is of a pack exactly if some item of its `layers` has a `mediaType`
/// of the smolmachines vendor; without layers it is of none.
pub proof fn law_packs_have_a_vendor_layer(
    document: serde_json::Value,
    layers: Seq<serde_json::Value>,
)
    ensures
        has_layers(document, layers) ==> (is_pack(document) <==> exists|i: int|
            0 <= i < layers.len() && is_of_vendor(#[trigger] layers[i])),
        (forall|list: Seq<serde_json::Value>| !#[trigger] has_layers(document, list)) ==> !is_pack(
            document,
        ),
{
    if is_pack(document) {
        let found = layers_of(document)->0;
        assert(has_layers(document, found));
        let i = choose|i: int| 0 <= i < found.len() && is_pack_layer(#[trigger] found[i]);
        lemma_vendor_layer(found[i]);
        assert(is_of_vendor(found[i]));
    }
    if has_layers(document, layers) {
        assert(layers_of(document) == Some(layers));
        if exists|i: int| 0 <= i < layers.len() && is_of_vendor(#[trigger] layers[i]) {
            let i = choose|i: int| 0 <= i < layers.len() && is_of_vendor(#[trigger] layers[i]);
            lemma_vendor_layer(layers[i]);
            let found = layers_of(document)->0;
            assert(found == layers);
            assert(0 <= i < found.len() && is_pack_layer(found[i]));
        }
    }
}

/// The layer's media type is one of the smolmachines vendor.
pub open spec fn is_of_vendor(layer: serde_json::Value) -> bool {
    exists|rest: Seq<char>|
        has_media_type(layer, #[trigger] ("application/vnd.smolmachines."@ + rest))
}

proof fn lemma_vendor_layer(layer: serde_json::Value)
    ensures
        is_of_vendor(layer) == is_pack_layer(layer),
{
    if is_pack_layer(layer) {
        let value = crate::json::member(layer, "mediaType"@)->0;
        let media_type = crate::json::string_of(value)->0;
        let rest = media_type.skip("application/vnd.smolmachines."@.len() as int);
        assert("application/vnd.smolmachines."@ + rest =~= media_type);
        assert(has_media_type(layer, "application/vnd.smolmachines."@ + rest));
    }
    if is_of_vendor(layer) {
        let rest = choose|rest: Seq<char>|
            has_media_type(layer, #[trigger] ("application/vnd.smolmachines."@ + rest));
        crate::text::law_prefix_is_taken_off("application/vnd.smolmachines."@, rest);
    }
}

/// The document is an object whose member `layers` is the array `layers`.
pub open spec fn has_layers(document: serde_json::Value, layers: Seq<serde_json::Value>) -> bool {
    crate::json::member(document, "layers"@) matches Some(value) && crate::json::items(value)
        == Some(layers)
}

/// The layer is an object whose member `mediaType` is the string `media_type`.
pub open spec fn has_media_type(layer: serde_json::Value, media_type: Seq<char>) -> bool {
    crate::json::member(layer, "mediaType"@) matches Some(value) && crate::json::string_of(value)
        == Some(media_type)
}

/// An answer means a pack exactly if it is a manifest of one; a denial is one
/// exactly if the registry refused authentication or answered 401 or 403.
pub proof fn law_answers_of_a_registry(reply: Result<Seq<u8>, RegistryError>)
    ensures
        finding(reply) is Pack <==> (reply matches Ok(bytes) && crate::json::parsed_json(
            bytes,
        ) is Some && is_pack(crate::json::parsed_json(bytes)->0)),
        finding(reply) is NotAPack <==> reply is Ok && !(finding(reply) is Pack),
        finding(reply) is Denied <==> (reply matches Err(err) && (err is Authentication || (
        err is ApiError && (err->status == 401 || err->status == 403)))),
        finding(reply) is Unanswered <==> reply is Err && !(finding(reply) is Denied),
{
}

/// A host is named by what stands before the first slash, where something stands
/// behind it: by a dot or a colon in it, or by the name `localhost`.
pub proof fn law_hosts_are_named_explicitly(host: Seq<char>, rest: Seq<char>)
    requires
        !host.contains('/'),
    ensures
        named_host(host) is None,
        named_host(host + seq!['/']) is None,
        rest.len() > 0 && (host.contains('.') || host.contains(':') || host == "localhost"@)
            ==> named_host(host + seq!['/'] + rest) == Some(host),
        !(host.contains('.') || host.contains(':') || host == "localhost"@) ==> named_host(
            host + seq!['/'] + rest,
        ) is None,
{
    crate::text::law_splits_at_the_first(host, rest, '/');
    crate::text::law_splits_at_the_first(host, Seq::empty(), '/');
    assert(host + seq!['/'] + Seq::<char>::empty() =~= host + seq!['/']);
}

/// Docker Hub has three names and no others.
pub proof fn law_names_of_docker_hub(host: Seq<char>)
    ensures
        names_docker_hub("docker.io"@),
        names_docker_hub("index.docker.io"@),
        names_docker_hub("registry-1.docker.io"@),
        names_docker_hub(host) ==> host == "docker.io"@ || host == "index.docker.io"@ || host
            == "registry-1.docker.io"@,
{
}

/// An entry offers its identity token, else its password: as a bearer under the
/// user name `token`, together with the user name under any other.
pub proof fn law_credentials_of_an_entry(entry: RegistryEntry)
    ensures
        entry.identity_token matches Some(token) ==> entry_credential(entry) == Some(
            Credential::Identity(token@),
        ),
        entry.identity_token is None && entry.auth is None ==> entry_credential(entry) is None,
        entry.identity_token is None ==> (entry.auth matches Some(auth) ==> {
            &&& auth.username@ == "token"@ ==> entry_credential(entry) == Some(
                Credential::Bearer(auth.password@),
            )
            &&& auth.username@ != "token"@ ==> entry_credential(entry) == Some(
                Credential::Basic { username: auth.username@, password: auth.password@ },
            )
        }),
{
}

/// The last entry of a host counts.
pub proof fn law_last_entry_counts(list: Seq<(String, RegistryEntry)>, i: int)
    requires
        0 <= i < list.len(),
        forall|j: int| i < j < list.len() ==> (#[trigger] list[j]).0@ != list[i].0@,
    ensures
        entry_for(list, list[i].0@) == Some(list[i].1),
    decreases list.len(),
{
    if i < list.len() - 1 {
        let init = list.drop_last();
        assert(init[i] == list[i]);
        assert forall|j: int| i < j < init.len() implies (#[trigger] init[j]).0@ != init[i].0@ by {
            assert(init[j] == list[j]);
        }
        law_last_entry_counts(init, i);
        assert(list[list.len() - 1].0@ != list[i].0@);
    }
}

/// The images' credential is used where the machines have none for the host.
pub proof fn law_images_section_is_the_fallback(settings: SmolSettings, registry: Seq<char>)
    requires
        section_credential(settings.machines, registry) is None,
    ensures
        settings_credential(settings, registry) == section_credential(settings.images, registry),
{
}

/// A probe asks the mirror, where there is one; it presents a supplied token, and
/// else what is configured for the registry that the reference names; and it asks
/// for the digest, else the tag, else the latest manifest.
pub proof fn law_probe_asks_as_the_reference_says(
    parsed: Reference,
    mirror: Seq<char>,
    token: Seq<char>,
    settings: SmolSettings,
)
    ensures
        effective_registry(parsed.registry@, Some(mirror)) == mirror,
        effective_registry(parsed.registry@, None) == parsed.registry@,
        probe_credential(Some(token), settings, parsed.registry@) == Some(
            Credential::Identity(token),
        ),
        probe_credential(None, settings, parsed.registry@) == settings_credential(
            settings,
            parsed.registry@,
        ),
        parsed.digest matches Some(digest) ==> manifest_reference(parsed) == digest@,
        parsed.digest is None ==> (parsed.tag matches Some(tag) ==> manifest_reference(parsed)
            == tag@),
        parsed.digest is None && parsed.tag is None ==> manifest_reference(parsed) == "latest"@,
{
}

/// Only a local registry is reached without TLS.
pub proof fn law_remote_registries_use_tls(registry: Seq<char>)
    ensures
        base_url_of(registry, false) == "https://"@ + registry,
        base_url_of(registry, true) == "http://"@ + registry,
{
}

} // verus!
