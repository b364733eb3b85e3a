//! Choice of the CUDA-visible devices, and what NVML's answers mean.
use std::collections::HashMap;
use vstd::prelude::*;
use vstd::string::StrSliceExecFns;
use crate::admission::gpu::GpuSample;
use crate::digits::{parse_unsigned, to_decimal, to_signed_decimal};
use crate::text::{contains_char, same, split, starts_with, texts, trim};

verus! {

/// Identity of one physical device.
#[derive(Debug, PartialEq, Eq)]
pub struct NvmlDeviceIdentity {
    /// Unique identifier, as bytes without a terminator.
    pub uuid: Vec<u8>,
    /// PCI domain.
    pub domain: u32,
    /// PCI bus.
    pub bus: u32,
    /// PCI device.
    pub device: u32,
    /// The device is partitioned into MIG instances.
    pub mig_enabled: bool,
}

/// Model of a device: its identifier and its PCI address.
pub struct Identity {
    pub uuid: Seq<u8>,
    pub domain: u32,
    pub bus: u32,
    pub device: u32,
    pub mig_enabled: bool,
}

impl View for NvmlDeviceIdentity {
    type V = Identity;

    open spec fn view(&self) -> Identity {
        Identity {
            uuid: self.uuid@,
            domain: self.domain,
            bus: self.bus,
            device: self.device,
            mig_enabled: self.mig_enabled,
        }
    }
}

/// The models of a list of devices.
pub open spec fn identities(devices: Seq<NvmlDeviceIdentity>) -> Seq<Identity> {
    devices.map_values(|d: NvmlDeviceIdentity| d@)
}

/// The bytes of a list of identifiers.
pub open spec fn uuids(list: Seq<Vec<u8>>) -> Seq<Seq<u8>> {
    list.map_values(|u: Vec<u8>| u@)
}

/// The PCI address of `a` is above that of `b`.
pub open spec fn pci_after(a: Identity, b: Identity) -> bool {
    a.domain > b.domain || (a.domain == b.domain && (a.bus > b.bus || (a.bus == b.bus && a.device
        > b.device)))
}

/// `list` with `d` put behind the last device that is not above it.
pub open spec fn placed(list: Seq<Identity>, d: Identity) -> Seq<Identity>
    decreases list.len(),
{
    if list.len() > 0 && pci_after(list.last(), d) {
        placed(list.drop_last(), d).push(list.last())
    } else {
        list.push(d)
    }
}

/// The devices in PCI order; devices of one address keep their order.
pub open spec fn pci_sorted(list: Seq<Identity>) -> Seq<Identity>
    decreases list.len(),
{
    if list.len() == 0 {
        Seq::empty()
    } else {
        placed(pci_sorted(list.drop_last()), list.last())
    }
}

/// The identifier begins with the bytes of the token.
pub open spec fn uuid_matches(d: Identity, token: Seq<char>) -> bool {
    let bytes = vstd::utf8::encode_utf8(token);
    bytes.len() <= d.uuid.len() && d.uuid.take(bytes.len() as int) == bytes
}

/// The devices whose identifier begins with the token.
pub open spec fn matching(list: Seq<Identity>, token: Seq<char>) -> Seq<Identity>
    decreases list.len(),
{
    if list.len() == 0 {
        Seq::empty()
    } else if uuid_matches(list.last(), token) {
        matching(list.drop_last(), token).push(list.last())
    } else {
        matching(list.drop_last(), token)
    }
}

/// The device that one token of the mask means: an index in PCI order, or the
/// beginning of exactly one identifier.
pub open spec fn chosen(list: Seq<Identity>, token: Seq<char>) -> Result<Seq<u8>, Seq<char>> {
    match crate::digits::unsigned_value(token, usize::MAX as nat) {
        Some(index) => if index < list.len() {
            Ok(list[index as int].uuid)
        } else {
            Err(
                "CUDA_VISIBLE_DEVICES index "@ + crate::digits::decimal(index) + " is outside "@
                    + crate::digits::decimal(list.len()) + " PCI-ordered devices"@,
            )
        },
        None => if matching(list, token).len() == 1 {
            Ok(matching(list, token)[0].uuid)
        } else {
            Err(
                "CUDA_VISIBLE_DEVICES token '"@ + token
                    + "' did not uniquely identify an NVML device"@,
            )
        },
    }
}

/// The devices that the tokens of the mask mean, in the order of the tokens. A
/// token `-1` ends the mask.
pub open spec fn masked(list: Seq<Identity>, tokens: Seq<Seq<char>>) -> Result<
    Seq<Seq<u8>>,
    Seq<char>,
>
    decreases tokens.len(),
{
    if tokens.len() == 0 || crate::text::trimmed(tokens[0]) == "-1"@ {
        Ok(Seq::empty())
    } else {
        match chosen(list, crate::text::trimmed(tokens[0])) {
            Err(message) => Err(message),
            Ok(uuid) => match masked(list, tokens.drop_first()) {
                Err(message) => Err(message),
                Ok(rest) => Ok(seq![uuid] + rest),
            },
        }
    }
}

/// The visible devices: all in PCI order without a mask, none with a blank one.
pub open spec fn visible_devices(list: Seq<Identity>, mask: Option<Seq<char>>) -> Result<
    Seq<Seq<u8>>,
    Seq<char>,
> {
    let sorted = pci_sorted(list);
    match mask {
        None => Ok(sorted.map_values(|d: Identity| d.uuid)),
        Some(mask) => if crate::text::trimmed(mask).len() == 0 {
            Ok(Seq::empty())
        } else {
            masked(sorted, crate::text::pieces(mask, ','))
        },
    }
}

/// What the tokens of the mask ask for where devices are partitioned: the
/// instances to resolve, in order, and the error that follows them, if any.
pub open spec fn mig_plan(tokens: Seq<Seq<char>>) -> (Seq<Seq<char>>, Option<Seq<char>>)
    decreases tokens.len(),
{
    if tokens.len() == 0 {
        (Seq::empty(), None)
    } else {
        let token = crate::text::trimmed(tokens[0]);
        if token == "-1"@ {
            (Seq::empty(), None)
        } else if !crate::text::has_prefix(token, "MIG-"@) {
            (Seq::empty(), Some("MIG mode requires full MIG UUIDs in CUDA_VISIBLE_DEVICES"@))
        } else if token.contains('\0') {
            (Seq::empty(), Some("CUDA_VISIBLE_DEVICES contains a NUL byte"@))
        } else {
            let rest = mig_plan(tokens.drop_first());
            (seq![token] + rest.0, rest.1)
        }
    }
}

/// Whether `a` is above `b` in PCI order.
fn is_pci_after(a: &NvmlDeviceIdentity, b: &NvmlDeviceIdentity) -> (r: bool)
    ensures
        r == pci_after(a@, b@),
{
    a.domain > b.domain || (a.domain == b.domain && (a.bus > b.bus || (a.bus == b.bus && a.device
        > b.device)))
}

proof fn lemma_placed(list: Seq<Identity>, d: Identity, i: int)
    requires
        0 <= i <= list.len(),
        forall|j: int| i <= j < list.len() ==> pci_after(#[trigger] list[j], d),
        i > 0 ==> !pci_after(list[i - 1], d),
    ensures
        placed(list, d) == list.insert(i, d),
    decreases list.len(),
{
    if i < list.len() {
        assert(pci_after(list[list.len() - 1], d));
        let init = list.drop_last();
        assert forall|j: int| i <= j < init.len() implies pci_after(#[trigger] init[j], d) by {
            assert(init[j] == list[j]);
        }
        if i > 0 {
            assert(init[i - 1] == list[i - 1]);
        }
        lemma_placed(init, d, i);
        assert(init.insert(i, d).push(list.last()) =~= list.insert(i, d));
    } else {
        assert(list.insert(i, d) =~= list.push(d));
    }
}

/// The devices in PCI order.
fn sort_by_pci(devices: Vec<NvmlDeviceIdentity>) -> (r: Vec<NvmlDeviceIdentity>)
    ensures
        identities(r@) == pci_sorted(identities(devices@)),
{
    let ghost all = identities(devices@);
    let mut rest = devices;
    let mut sorted: Vec<NvmlDeviceIdentity> = Vec::new();
    assert(all.take(0) =~= Seq::empty());
    assert(identities(sorted@) =~= Seq::empty());
    assert(identities(rest@) =~= all.skip(0));
    let n: usize = rest.len();
    let mut k: usize = 0;
    while k < n
        invariant
            k <= n,
            n == all.len(),
            identities(rest@) == all.skip(k as int),
            identities(sorted@) == pci_sorted(all.take(k as int)),
        decreases n - k,
    {
        let ghost before = identities(sorted@);
        assert(identities(rest@).len() == n - k);
        let ghost left = rest@;
        let device = rest.remove(0);
        proof {
            assert(device@ == identities(left)[0]);
            assert forall|j: int| 0 <= j < rest@.len() implies identities(rest@)[j] == all.skip(
                k + 1,
            )[j] by {
                assert(rest@[j] == left[j + 1]);
                assert(identities(left)[j + 1] == all.skip(k as int)[j + 1]);
            }
            assert(identities(rest@) =~= all.skip(k + 1));
            assert(all.take(k + 1).drop_last() =~= all.take(k as int));
        }
        let mut i: usize = sorted.len();
        while i > 0 && is_pci_after(&sorted[i - 1], &device)
            invariant
                i <= sorted@.len(),
                before == identities(sorted@),
                forall|j: int| i <= j < sorted@.len() ==> pci_after(#[trigger] before[j], device@),
            decreases i,
        {
            i -= 1;
        }
        proof {
            lemma_placed(before, device@, i as int);
        }
        let ghost d = device@;
        sorted.insert(i, device);
        assert(identities(sorted@) =~= before.insert(i as int, d));
        k += 1;
    }
    assert(all.take(n as int) =~= all);
    sorted
}

/// Whether the identifier begins with `bytes`.
fn begins_with(uuid: &Vec<u8>, bytes: &[u8]) -> (r: bool)
    ensures
        r == (bytes@.len() <= uuid@.len() && uuid@.take(bytes@.len() as int) == bytes@),
{
    if bytes.len() > uuid.len() {
        return false;
    }
    for i in 0..bytes.len()
        invariant
            bytes@.len() <= uuid@.len(),
            forall|j: int| 0 <= j < i ==> uuid@[j] == bytes@[j],
    {
        if uuid[i] != bytes[i] {
            assert(uuid@.take(bytes@.len() as int)[i as int] != bytes@[i as int]);
            return false;
        }
    }
    assert(uuid@.take(bytes@.len() as int) =~= bytes@);
    true
}

/// The device that one token of the mask means.
fn choose_device(devices: &Vec<NvmlDeviceIdentity>, token: &str) -> (r: Result<Vec<u8>, String>)
    ensures
        match r {
            Ok(uuid) => chosen(identities(devices@), token@) == Ok::<Seq<u8>, Seq<char>>(uuid@),
            Err(message) => chosen(identities(devices@), token@) == Err::<Seq<u8>, Seq<char>>(
                message@,
            ),
        },
{
    let ghost list = identities(devices@);
    if let Some(index) = parse_unsigned(token, usize::MAX as u64) {
        if index < devices.len() as u64 {
            return Ok(devices[index as usize].uuid.clone());
        }
        let mut message = "CUDA_VISIBLE_DEVICES index ".to_owned();
        message.append(to_decimal(index).as_str());
        message.append(" is outside ");
        message.append(to_decimal(devices.len() as u64).as_str());
        message.append(" PCI-ordered devices");
        return Err(message);
    }
    let bytes = token.as_bytes();
    let mut count: usize = 0;
    let mut found: usize = 0;
    assert(list.take(0) =~= Seq::empty());
    for i in 0..devices.len()
        invariant
            list == identities(devices@),
            bytes@ == vstd::utf8::encode_utf8(token@),
            count <= i,
            count == matching(list.take(i as int), token@).len(),
            count > 0 ==> found < i && list[found as int] == matching(
                list.take(i as int),
                token@,
            ).last(),
    {
        assert(list.take(i + 1).drop_last() =~= list.take(i as int));
        assert(list.take(i + 1).last() == list[i as int]);
        if begins_with(&devices[i].uuid, bytes) {
            count += 1;
            found = i;
        }
    }
    assert(list.take(list.len() as int) =~= list);
    if count != 1 {
        let mut message = "CUDA_VISIBLE_DEVICES token '".to_owned();
        message.append(token);
        message.append("' did not uniquely identify an NVML device");
        return Err(message);
    }
    Ok(devices[found].uuid.clone())
}

proof fn lemma_masked_prefix(
    list: Seq<Identity>,
    tokens: Seq<Seq<char>>,
    i: int,
    done: Seq<Seq<u8>>,
)
    requires
        0 <= i <= tokens.len(),
        done.len() == i,
        forall|j: int|
            0 <= j < i ==> crate::text::trimmed(#[trigger] tokens[j]) != "-1"@ && chosen(
                list,
                crate::text::trimmed(tokens[j]),
            ) == Ok::<Seq<u8>, Seq<char>>(done[j]),
    ensures
        masked(list, tokens) == match masked(list, tokens.skip(i)) {
            Ok(rest) => Ok(done + rest),
            Err(message) => Err(message),
        },
    decreases i,
{
    if i == 0 {
        assert(tokens.skip(0) =~= tokens);
        match masked(list, tokens) {
            Ok(rest) => {
                assert(done + rest =~= rest);
            },
            Err(_) => {},
        }
    } else {
        assert(crate::text::trimmed(tokens[0]) != "-1"@);
        let tail = tokens.drop_first();
        assert forall|j: int| 0 <= j < i - 1 implies crate::text::trimmed(#[trigger] tail[j])
            != "-1"@ && chosen(list, crate::text::trimmed(tail[j])) == Ok::<Seq<u8>, Seq<char>>(
            done.drop_first()[j],
        ) by {
            assert(tail[j] == tokens[j + 1]);
        }
        lemma_masked_prefix(list, tail, i - 1, done.drop_first());
        assert(tail.skip(i - 1) =~= tokens.skip(i));
        match masked(list, tokens.skip(i)) {
            Ok(rest) => {
                assert(seq![done[0]] + (done.drop_first() + rest) =~= done + rest);
            },
            Err(_) => {},
        }
    }
}

/// The identifiers of the CUDA-visible devices, in the order in which CUDA
/// counts them.
pub fn select_visible_devices(devices: Vec<NvmlDeviceIdentity>, visible: Option<&str>) -> (r: Result<
    Vec<Vec<u8>>,
    String,
>)
    ensures
        ({
            let mask = match visible {
                Some(v) => Some(v@),
                None => None,
            };
            match r {
                Ok(list) => visible_devices(identities(devices@), mask) == Ok::<
                    Seq<Seq<u8>>,
                    Seq<char>,
                >(uuids(list@)),
                Err(message) => visible_devices(identities(devices@), mask) == Err::<
                    Seq<Seq<u8>>,
                    Seq<char>,
                >(message@),
            }
        }),
{
    let sorted = sort_by_pci(devices);
    let ghost list = identities(sorted@);
    let mut selected: Vec<Vec<u8>> = Vec::new();
    let mask = match visible {
        Some(mask) => mask,
        None => {
            for i in 0..sorted.len()
                invariant
                    selected@.len() == i,
                    forall|j: int| 0 <= j < i ==> (#[trigger] selected@[j])@ == sorted@[j].uuid@,
            {
                selected.push(sorted[i].uuid.clone());
            }
            assert(uuids(selected@) =~= list.map_values(|d: Identity| d.uuid));
            return Ok(selected);
        },
    };
    if trim(mask).unicode_len() == 0 {
        assert(uuids(selected@) =~= Seq::empty());
        return Ok(selected);
    }
    let tokens = split(mask, ',');
    let ghost t = crate::text::pieces(mask@, ',');
    for i in 0..tokens.len()
        invariant
            visible == Some(mask),
            crate::text::trimmed(mask@).len() != 0,
            list == pci_sorted(identities(devices@)),
            list == identities(sorted@),
            t == texts(tokens@),
            t == crate::text::pieces(mask@, ','),
            selected@.len() == i,
            forall|j: int|
                0 <= j < i ==> crate::text::trimmed(#[trigger] t[j]) != "-1"@ && chosen(
                    list,
                    crate::text::trimmed(t[j]),
                ) == Ok::<Seq<u8>, Seq<char>>(uuids(selected@)[j]),
    {
        proof {
            lemma_masked_prefix(list, t, i as int, uuids(selected@));
            assert(t.skip(i as int)[0] == t[i as int]);
        }
        let token = trim(tokens[i].as_str());
        if same(token, "-1") {
            assert(uuids(selected@) + Seq::<Seq<u8>>::empty() =~= uuids(selected@));
            return Ok(selected);
        }
        match choose_device(&sorted, token) {
            Ok(uuid) => {
                let ghost before = uuids(selected@);
                selected.push(uuid);
                assert(uuids(selected@) =~= before.push(uuid@));
            },
            Err(message) => {
                return Err(message);
            },
        }
    }
    proof {
        lemma_masked_prefix(list, t, t.len() as int, uuids(selected@));
        assert(t.skip(t.len() as int) =~= Seq::empty());
        assert(uuids(selected@) + Seq::<Seq<u8>>::empty() =~= uuids(selected@));
    }
    Ok(selected)
}

/// Instances of partitioned devices that a mask asks for.
#[derive(Debug)]
pub struct MigPlan {
    /// Identifiers to resolve, in order.
    pub tokens: Vec<String>,
    /// What is wrong with the token behind them, if anything is.
    pub failure: Option<String>,
}

/// Whether any device is partitioned.
pub fn any_mig(devices: &Vec<NvmlDeviceIdentity>) -> (r: bool)
    ensures
        r == exists|i: int| 0 <= i < devices@.len() && (#[trigger] devices@[i]).mig_enabled,
{
    for i in 0..devices.len()
        invariant
            forall|j: int| 0 <= j < i ==> !(#[trigger] devices@[j]).mig_enabled,
    {
        if devices[i].mig_enabled {
            return true;
        }
    }
    false
}

proof fn lemma_mig_prefix(tokens: Seq<Seq<char>>, i: int, done: Seq<Seq<char>>)
    requires
        0 <= i <= tokens.len(),
        done.len() == i,
        forall|j: int|
            0 <= j < i ==> {
                let token = crate::text::trimmed(#[trigger] tokens[j]);
                token != "-1"@ && crate::text::has_prefix(token, "MIG-"@) && !token.contains('\0')
                    && done[j] == token
            },
    ensures
        mig_plan(tokens).0 == done + mig_plan(tokens.skip(i)).0,
        mig_plan(tokens).1 == mig_plan(tokens.skip(i)).1,
    decreases i,
{
    if i == 0 {
        assert(tokens.skip(0) =~= tokens);
        assert(done + mig_plan(tokens).0 =~= mig_plan(tokens).0);
    } else {
        let first = crate::text::trimmed(tokens[0]);
        assert(done[0] == first);
        let tail = tokens.drop_first();
        assert forall|j: int| 0 <= j < i - 1 implies ({
            let token = crate::text::trimmed(#[trigger] tail[j]);
            token != "-1"@ && crate::text::has_prefix(token, "MIG-"@) && !token.contains('\0')
                && done.drop_first()[j] == token
        }) by {
            assert(tail[j] == tokens[j + 1]);
        }
        lemma_mig_prefix(tail, i - 1, done.drop_first());
        assert(tail.skip(i - 1) =~= tokens.skip(i));
        let rest = mig_plan(tokens.skip(i)).0;
        assert(seq![first] + (done.drop_first() + rest) =~= done + rest);
    }
}

/// What a mask asks for where devices are partitioned. Without a mask there is
/// nothing to go by.
pub fn plan_mig_devices(visible: Option<&str>) -> (r: Result<MigPlan, String>)
    ensures
        match (visible, r) {
            (None, Err(message)) => message@
                == "MIG mode requires CUDA_VISIBLE_DEVICES with explicit MIG UUIDs for admission"@,
            (Some(mask), Ok(plan)) => {
                let expected = mig_plan(crate::text::pieces(mask@, ','));
                &&& texts(plan.tokens@) == expected.0
                &&& match plan.failure {
                    Some(message) => expected.1 == Some(message@),
                    None => expected.1 is None,
                }
            },
            _ => false,
        },
{
    let mask = match visible {
        Some(mask) => mask,
        None => {
            return Err(
                "MIG mode requires CUDA_VISIBLE_DEVICES with explicit MIG UUIDs for admission".to_owned(),
            );
        },
    };
    let pieces = split(mask, ',');
    let ghost t = crate::text::pieces(mask@, ',');
    let mut tokens: Vec<String> = Vec::new();
    for i in 0..pieces.len()
        invariant
            visible == Some(mask),
            t == texts(pieces@),
            t == crate::text::pieces(mask@, ','),
            tokens@.len() == i,
            forall|j: int|
                0 <= j < i ==> {
                    let token = crate::text::trimmed(#[trigger] t[j]);
                    token != "-1"@ && crate::text::has_prefix(token, "MIG-"@) && !token.contains(
                        '\0',
                    ) && texts(tokens@)[j] == token
                },
    {
        proof {
            lemma_mig_prefix(t, i as int, texts(tokens@));
            assert(t.skip(i as int)[0] == t[i as int]);
            assert(texts(tokens@) + Seq::<Seq<char>>::empty() =~= texts(tokens@));
        }
        let token = trim(pieces[i].as_str());
        if same(token, "-1") {
            return Ok(MigPlan { tokens, failure: None });
        }
        if !starts_with(token, "MIG-") {
            let failure = "MIG mode requires full MIG UUIDs in CUDA_VISIBLE_DEVICES".to_owned();
            return Ok(MigPlan { tokens, failure: Some(failure) });
        }
        if contains_char(token, '\0') {
            let failure = "CUDA_VISIBLE_DEVICES contains a NUL byte".to_owned();
            return Ok(MigPlan { tokens, failure: Some(failure) });
        }
        let ghost before = texts(tokens@);
        tokens.push(token.to_owned());
        assert(texts(tokens@) =~= before.push(token@));
    }
    proof {
        lemma_mig_prefix(t, t.len() as int, texts(tokens@));
        assert(t.skip(t.len() as int) =~= Seq::empty());
        assert(texts(tokens@) + Seq::<Seq<char>>::empty() =~= texts(tokens@));
    }
    Ok(MigPlan { tokens, failure: None })
}

/// The identifiers that a plan selects, given the first of its tokens that NVML
/// could not resolve.
pub fn resolved_mig_devices(plan: &MigPlan, first_unresolved: Option<usize>) -> (r: Result<
    Vec<Vec<u8>>,
    String,
>)
    requires
        first_unresolved matches Some(i) ==> i < plan.tokens@.len(),
    ensures
        match (first_unresolved, plan.failure, r) {
            (Some(i), _, Err(message)) => message@ == "NVML could not resolve MIG UUID '"@
                + plan.tokens@[i as int]@ + "'"@,
            (None, Some(failure), Err(message)) => message@ == failure@,
            (None, None, Ok(list)) => uuids(list@) == plan.tokens@.map_values(
                |t: String| vstd::utf8::encode_utf8(t@),
            ),
            _ => false,
        },
{
    if let Some(i) = first_unresolved {
        let mut message = "NVML could not resolve MIG UUID '".to_owned();
        message.append(plan.tokens[i].as_str());
        message.append("'");
        return Err(message);
    }
    if let Some(failure) = &plan.failure {
        return Err(failure.clone());
    }
    let mut list: Vec<Vec<u8>> = Vec::new();
    for i in 0..plan.tokens.len()
        invariant
            list@.len() == i,
            forall|j: int|
                0 <= j < i ==> (#[trigger] list@[j])@ == vstd::utf8::encode_utf8(plan.tokens@[j]@),
    {
        list.push(plan.tokens[i].as_str().as_bytes_vec());
    }
    assert(uuids(list@) =~= plan.tokens@.map_values(|t: String| vstd::utf8::encode_utf8(t@)));
    Ok(list)
}

/// At least one device must be visible.
pub fn require_visible(selected: Vec<Vec<u8>>) -> (r: Result<Vec<Vec<u8>>, String>)
    ensures
        match r {
            Ok(list) => list == selected && selected@.len() > 0,
            Err(message) => selected@.len() == 0 && message@
                == "no CUDA-visible devices are available for admission"@,
        },
{
    if selected.len() == 0 {
        Err("no CUDA-visible devices are available for admission".to_owned())
    } else {
        Ok(selected)
    }
}

/// Whether NVML was initialized.
pub fn check_init(status: i32) -> (r: Result<(), String>)
    ensures
        match r {
            Ok(_) => status == 0,
            Err(message) => status != 0 && message@ == "nvmlInit_v2 returned "@
                + crate::digits::signed_decimal(status as int),
        },
{
    if status == 0 {
        return Ok(());
    }
    let mut message = "nvmlInit_v2 returned ".to_owned();
    message.append(to_signed_decimal(status).as_str());
    Err(message)
}

/// Whether NVML counted any device.
pub fn check_device_count(status: i32, count: u32) -> (r: Result<(), String>)
    ensures
        match r {
            Ok(_) => status == 0 && count > 0,
            Err(message) => (status != 0 || count == 0) && message@
                == "nvmlDeviceGetCount_v2 returned "@ + crate::digits::signed_decimal(status as int)
                + " with count "@ + crate::digits::decimal(count as nat),
        },
{
    if status == 0 && count != 0 {
        return Ok(());
    }
    let mut message = "nvmlDeviceGetCount_v2 returned ".to_owned();
    message.append(to_signed_decimal(status).as_str());
    message.append(" with count ");
    message.append(to_decimal(count as u64).as_str());
    Err(message)
}

/// Explanation of a failed call for the device at `index`.
pub open spec fn call_failure(call: Seq<char>, index: u32, status: i32) -> Seq<char> {
    call + "("@ + crate::digits::decimal(index as nat) + ") returned "@
        + crate::digits::signed_decimal(status as int)
}

/// Whether a call for the device at `index` succeeded. `usable` says whether
/// what it handed out can be used.
pub fn check_device_call(call: &str, index: u32, status: i32, usable: bool) -> (r: Result<
    (),
    String,
>)
    ensures
        match r {
            Ok(_) => status == 0 && usable,
            Err(message) => (status != 0 || !usable) && message@ == call_failure(
                call@,
                index,
                status,
            ),
        },
{
    if status == 0 && usable {
        return Ok(());
    }
    let mut message = call.to_owned();
    message.append("(");
    message.append(to_decimal(index as u64).as_str());
    message.append(") returned ");
    message.append(to_signed_decimal(status).as_str());
    Err(message)
}

/// Whether a device is partitioned, by what the MIG query returned: its status
/// and the current mode. A driver without the query has no partitions.
pub fn is_partitioned(query: Option<(i32, u32)>) -> (r: bool)
    ensures
        r == (query matches Some(answer) && answer.0 == 0 && answer.1 != 0),
{
    match query {
        Some((status, current)) => status == 0 && current != 0,
        None => false,
    }
}

/// Utilization and memory, in bytes, that NVML read of one device.
#[derive(Debug, Clone, Copy)]
pub struct DeviceReading<U> {
    /// Utilization of the device.
    pub utilization_percent: U,
    /// Used memory.
    pub used_bytes: u64,
    /// Free memory.
    pub free_bytes: u64,
    /// Capacity.
    pub total_bytes: u64,
}

/// The sample that a reading of the device at `index` makes.
pub open spec fn sample_from<U>(index: u32, reading: DeviceReading<U>) -> GpuSample<U> {
    GpuSample {
        device_ordinal: index,
        utilization_percent: reading.utilization_percent,
        used_memory_mib: (reading.used_bytes / 1048576) as u64,
        total_memory_mib: (reading.total_bytes / 1048576) as u64,
        free_memory_mib: (reading.free_bytes / 1048576) as u64,
        reserve_mib: crate::admission::gpu::reserve_of((reading.total_bytes / 1048576) as u64),
    }
}

/// Every device could be read, and each has an ordinal.
pub open spec fn all_read<U>(readings: Seq<Option<DeviceReading<U>>>) -> bool {
    &&& forall|i: int| 0 <= i < readings.len() ==> (#[trigger] readings[i]) is Some
    &&& readings.len() <= u32::MAX + 1
}

/// The samples of all visible devices by ordinal, in the order in which CUDA
/// counts them. There are none where any device could not be read.
pub fn device_samples<U: Copy>(readings: &[Option<DeviceReading<U>>]) -> (r: Option<
    HashMap<u32, GpuSample<U>>,
>)
    ensures
        match r {
            Some(samples) => all_read(readings@) && samples@ == Map::new(
                |k: u32| k < readings@.len(),
                |k: u32| sample_from(k, readings@[k as int]->0),
            ),
            None => !all_read(readings@),
        },
{
    let mut samples: HashMap<u32, GpuSample<U>> = HashMap::new();
    for i in 0..readings.len()
        invariant
            forall|j: int| 0 <= j < i ==> (#[trigger] readings@[j]) is Some,
            i <= u32::MAX + 1,
            forall|k: u32| #[trigger] samples@.contains_key(k) <==> k < i,
            forall|k: u32|
                k < i ==> #[trigger] samples@[k] == sample_from(k, readings@[k as int]->0),
    {
        if i > u32::MAX as usize {
            return None;
        }
        let index: u32 = i as u32;
        match readings[i] {
            Some(reading) => {
                let sample = GpuSample::new(
                    index,
                    reading.utilization_percent,
                    reading.used_bytes / 1048576,
                    reading.free_bytes / 1048576,
                    reading.total_bytes / 1048576,
                );
                samples.insert(index, sample);
            },
            None => {
                return None;
            },
        }
    }
    assert(samples@ =~= Map::new(
        |k: u32| k < readings@.len(),
        |k: u32| sample_from(k, readings@[k as int]->0),
    ));
    Some(samples)
}

proof fn lemma_placed_sorted(list: Seq<Identity>, d: Identity)
    requires
        forall|i: int, j: int| 0 <= i < j < list.len() ==> !pci_after(list[i], list[j]),
    ensures
        ({
            let r = placed(list, d);
            &&& r.len() == list.len() + 1
            &&& r.to_multiset() == list.to_multiset().insert(d)
            &&& forall|i: int, j: int| 0 <= i < j < r.len() ==> !pci_after(r[i], r[j])
            &&& list.len() > 0 && pci_after(list.last(), d) ==> r.last() == list.last()
            &&& !(list.len() > 0 && pci_after(list.last(), d)) ==> r.last() == d
        }),
    decreases list.len(),
{
    broadcast use vstd::seq_lib::group_to_multiset_ensures;

    let r = placed(list, d);
    if list.len() > 0 && pci_after(list.last(), d) {
        let init = list.drop_last();
        lemma_placed_sorted(init, d);
        let p = placed(init, d);
        assert(list =~= init.push(list.last()));
        assert(r.to_multiset() =~= list.to_multiset().insert(d));
        assert forall|i: int, j: int| 0 <= i < j < r.len() implies !pci_after(r[i], r[j]) by {
            if j == r.len() - 1 {
                assert(r[j] == list.last());
                lemma_placed_below(init, d, list.last());
                assert(p[i] == r[i]);
            } else {
                assert(r[i] == p[i] && r[j] == p[j]);
            }
        }
    } else {
        assert(r.to_multiset() =~= list.to_multiset().insert(d));
        assert forall|i: int, j: int| 0 <= i < j < r.len() implies !pci_after(r[i], r[j]) by {
            if j == list.len() {
                if i < list.len() - 1 {
                    assert(!pci_after(list[i], list[list.len() - 1]));
                }
            }
        }
    }
}

/// Nothing in `placed(list, d)` is above `bound` if nothing in `list` is and `d`
/// is not.
proof fn lemma_placed_below(list: Seq<Identity>, d: Identity, bound: Identity)
    requires
        forall|i: int| 0 <= i < list.len() ==> !pci_after(#[trigger] list[i], bound),
        !pci_after(d, bound),
    ensures
        forall|i: int| 0 <= i < placed(list, d).len() ==> !pci_after(#[trigger] placed(list, d)[i], bound),
    decreases list.len(),
{
    if list.len() > 0 && pci_after(list.last(), d) {
        let init = list.drop_last();
        assert forall|i: int| 0 <= i < init.len() implies !pci_after(#[trigger] init[i], bound) by {
            assert(init[i] == list[i]);
        }
        lemma_placed_below(init, d, bound);
        assert(!pci_after(list[list.len() - 1], bound));
        assert forall|i: int| 0 <= i < placed(list, d).len() implies !pci_after(
            #[trigger] placed(list, d)[i],
            bound,
        ) by {
            if i < placed(init, d).len() {
                assert(placed(list, d)[i] == placed(init, d)[i]);
            }
        }
    }
}

/// Without a mask every device is visible, once each and in PCI order.
pub proof fn law_unmasked_devices_follow_pci_order(list: Seq<Identity>)
    ensures
        pci_sorted(list).to_multiset() == list.to_multiset(),
        forall|i: int, j: int|
            0 <= i < j < pci_sorted(list).len() ==> !pci_after(
                pci_sorted(list)[i],
                pci_sorted(list)[j],
            ),
    decreases list.len(),
{
    broadcast use vstd::seq_lib::group_to_multiset_ensures;

    if list.len() > 0 {
        law_unmasked_devices_follow_pci_order(list.drop_last());
        lemma_placed_sorted(pci_sorted(list.drop_last()), list.last());
        assert(list =~= list.drop_last().push(list.last()));
    } else {
        assert(list =~= Seq::empty());
    }
}

/// A mask that begins with `-1` hides every device.
pub proof fn law_minus_one_hides_all(list: Seq<Identity>, tokens: Seq<Seq<char>>)
    requires
        tokens.len() > 0,
        crate::text::trimmed(tokens[0]) == "-1"@,
    ensures
        masked(list, tokens) == Ok::<Seq<Seq<u8>>, Seq<char>>(Seq::empty()),
{
}

/// A mask never selects a device that is not there.
pub proof fn law_mask_selects_known_devices(list: Seq<Identity>, tokens: Seq<Seq<char>>, i: int)
    requires
        masked(list, tokens) is Ok,
        0 <= i < masked(list, tokens)->Ok_0.len(),
    ensures
        exists|k: int| 0 <= k < list.len() && (#[trigger] list[k]).uuid == masked(list, tokens)->Ok_0[i],
    decreases tokens.len(),
{
    let token = crate::text::trimmed(tokens[0]);
    if i == 0 {
        match crate::digits::unsigned_value(token, usize::MAX as nat) {
            Some(index) => {
                assert(list[index as int].uuid == masked(list, tokens)->Ok_0[0]);
            },
            None => {
                lemma_matching_known(list, token, 0);
                let k = choose|k: int| 0 <= k < list.len() && #[trigger] list[k] == matching(list, token)[0];
                assert(list[k].uuid == masked(list, tokens)->Ok_0[0]);
            },
        }
    } else {
        law_mask_selects_known_devices(list, tokens.drop_first(), i - 1);
    }
}

proof fn lemma_matching_known(list: Seq<Identity>, token: Seq<char>, i: int)
    requires
        0 <= i < matching(list, token).len(),
    ensures
        exists|k: int| 0 <= k < list.len() && #[trigger] list[k] == matching(list, token)[i],
    decreases list.len(),
{
    let init = list.drop_last();
    if i < matching(init, token).len() {
        lemma_matching_known(init, token, i);
        let k = choose|k: int| 0 <= k < init.len() && #[trigger] init[k] == matching(init, token)[i];
        assert(list[k] == matching(list, token)[i]);
    } else {
        assert(list[list.len() - 1] == matching(list, token)[i]);
    }
}

/// PCI order goes by domain, then bus, then device.
pub proof fn law_pci_order(a: Identity, b: Identity)
    ensures
        pci_after(a, b) <==> (a.domain * 0x1_0000_0000 + a.bus) * 0x1_0000_0000 + a.device > (
        b.domain * 0x1_0000_0000 + b.bus) * 0x1_0000_0000 + b.device,
{
}

/// Without a mask all devices are visible, in PCI order; a blank mask shows none.
pub proof fn law_mask_may_be_missing_or_blank(list: Seq<Identity>, blank: Seq<char>)
    requires
        forall|i: int| 0 <= i < blank.len() ==> crate::text::is_space(#[trigger] blank[i]),
    ensures
        visible_devices(list, None) matches Ok(all) && all.len() == list.len() && (forall|i: int|
            0 <= i < all.len() ==> #[trigger] all[i] == pci_sorted(list)[i].uuid),
        visible_devices(list, Some(blank)) == Ok::<Seq<Seq<u8>>, Seq<char>>(Seq::empty()),
{
    crate::text::law_white_space_trims_to_nothing(blank);
    law_unmasked_devices_follow_pci_order(list);
    list.to_multiset_ensures();
    pci_sorted(list).to_multiset_ensures();
}

/// A number in a mask is an index into the devices in their order; one that is
/// too large is an error.
pub proof fn law_index_selects_by_order(list: Seq<Identity>, index: nat)
    requires
        index <= usize::MAX,
    ensures
        index < list.len() ==> chosen(list, crate::digits::decimal(index)) == Ok::<
            Seq<u8>,
            Seq<char>,
        >(list[index as int].uuid),
        index >= list.len() ==> chosen(list, crate::digits::decimal(index)) is Err,
{
    crate::digits::law_numeral_parses(index, usize::MAX as nat);
}

/// Any other token selects the one device whose identifier begins with it; it is
/// an error where there is none, or more than one.
pub proof fn law_token_selects_by_identifier(
    list: Seq<Identity>,
    token: Seq<char>,
    i: int,
    j: int,
)
    requires
        crate::digits::unsigned_value(token, usize::MAX as nat) is None,
    ensures
        0 <= i < list.len() && begins(list[i], token) && (forall|k: int|
            0 <= k < list.len() && k != i ==> !begins(#[trigger] list[k], token)) ==> chosen(
            list,
            token,
        ) == Ok::<Seq<u8>, Seq<char>>(list[i].uuid),
        (forall|k: int| 0 <= k < list.len() ==> !begins(#[trigger] list[k], token)) ==> chosen(
            list,
            token,
        ) is Err,
        0 <= i < j < list.len() && begins(list[i], token) && begins(list[j], token) ==> chosen(
            list,
            token,
        ) is Err,
{
    if forall|k: int| 0 <= k < list.len() ==> !begins(#[trigger] list[k], token) {
        lemma_matching_one(list, token, -1);
    }
    if 0 <= i < list.len() && begins(list[i], token) && (forall|k: int|
        0 <= k < list.len() && k != i ==> !begins(#[trigger] list[k], token)) {
        lemma_matching_one(list, token, i);
    }
    if 0 <= i < j < list.len() && begins(list[i], token) && begins(list[j], token) {
        lemma_matching_two(list, token, i, j);
    }
}

/// The identifier of the device begins with the bytes of the token.
pub open spec fn begins(d: Identity, token: Seq<char>) -> bool {
    exists|rest: Seq<u8>| d.uuid == #[trigger] (vstd::utf8::encode_utf8(token) + rest)
}

proof fn lemma_begins(d: Identity, token: Seq<char>)
    ensures
        uuid_matches(d, token) <==> begins(d, token),
{
    let bytes = vstd::utf8::encode_utf8(token);
    if uuid_matches(d, token) {
        let rest = d.uuid.skip(bytes.len() as int);
        assert(d.uuid =~= bytes + rest);
    }
    if begins(d, token) {
        let rest = choose|rest: Seq<u8>| d.uuid == #[trigger] (bytes + rest);
        assert((bytes + rest).take(bytes.len() as int) =~= bytes);
    }
}

proof fn lemma_matching_one(list: Seq<Identity>, token: Seq<char>, i: int)
    requires
        0 <= i < list.len() ==> begins(list[i], token),
        forall|k: int| 0 <= k < list.len() && k != i ==> !begins(#[trigger] list[k], token),
    ensures
        matching(list, token) == if 0 <= i < list.len() {
            seq![list[i]]
        } else {
            Seq::empty()
        },
    decreases list.len(),
{
    if list.len() > 0 {
        let init = list.drop_last();
        assert forall|k: int| 0 <= k < init.len() && k != i implies !begins(
            #[trigger] init[k],
            token,
        ) by {
            assert(init[k] == list[k]);
        }
        if 0 <= i < init.len() {
            assert(init[i] == list[i]);
        }
        lemma_matching_one(init, token, i);
        lemma_begins(list.last(), token);
        assert(list[list.len() - 1] == list.last());
        assert(Seq::<Identity>::empty().push(list.last()) =~= seq![list.last()]);
    }
}

proof fn lemma_matching_two(list: Seq<Identity>, token: Seq<char>, i: int, j: int)
    requires
        0 <= j < list.len(),
        begins(list[j], token),
        0 <= i < j ==> begins(list[i], token),
    ensures
        matching(list, token).len() >= if 0 <= i < j {
            2nat
        } else {
            1
        },
    decreases list.len(),
{
    let init = list.drop_last();
    lemma_begins(list.last(), token);
    if j < init.len() {
        assert(init[j] == list[j]);
        if 0 <= i < j {
            assert(init[i] == list[i]);
        }
        lemma_matching_two(init, token, i, j);
    } else if 0 <= i < j {
        assert(init[i] == list[i]);
        lemma_matching_two(init, token, -1, i);
    }
}

/// A mask is read token by token: each selects one device, in the order of the
/// tokens, and white space around a token does not count.
pub proof fn law_mask_is_read_token_by_token(list: Seq<Identity>, tokens: Seq<Seq<char>>, i: int)
    requires
        forall|j: int|
            0 <= j < tokens.len() ==> crate::text::trimmed(#[trigger] tokens[j]) != "-1"@,
        0 <= i < tokens.len(),
    ensures
        match masked(list, tokens) {
            Ok(selected) => selected.len() == tokens.len() && chosen(
                list,
                crate::text::trimmed(tokens[i]),
            ) == Ok::<Seq<u8>, Seq<char>>(selected[i]),
            Err(_) => exists|j: int|
                0 <= j < tokens.len() && chosen(
                    list,
                    crate::text::trimmed(#[trigger] tokens[j]),
                ) is Err,
        },
    decreases tokens.len(),
{
    assert(crate::text::trimmed(tokens[0]) != "-1"@);
    let rest = tokens.drop_first();
    if chosen(list, crate::text::trimmed(tokens[0])) is Err {
    } else if rest.len() > 0 {
        assert forall|j: int| 0 <= j < rest.len() implies crate::text::trimmed(#[trigger] rest[j])
            != "-1"@ by {
            assert(rest[j] == tokens[j + 1]);
        }
        let k = if i > 0 {
            i - 1
        } else {
            0
        };
        law_mask_is_read_token_by_token(list, rest, k);
        assert(rest[k] == tokens[k + 1]);
        if masked(list, rest) is Err {
            let j = choose|j: int|
                0 <= j < rest.len() && chosen(
                    list,
                    crate::text::trimmed(#[trigger] rest[j]),
                ) is Err;
            assert(tokens[j + 1] == rest[j]);
        }
    } else {
        assert(rest =~= Seq::empty());
    }
}

/// What stands behind a `-1` does not count.
pub proof fn law_minus_one_ends_the_mask(
    list: Seq<Identity>,
    front: Seq<Seq<char>>,
    stop: Seq<char>,
    behind: Seq<Seq<char>>,
)
    requires
        crate::text::trimmed(stop) == "-1"@,
    ensures
        masked(list, front.push(stop) + behind) == masked(list, front),
        mig_plan(front.push(stop) + behind) == mig_plan(front),
    decreases front.len(),
{
    let tokens = front.push(stop) + behind;
    if front.len() == 0 {
        assert(tokens[0] == stop);
    } else {
        law_minus_one_ends_the_mask(list, front.drop_first(), stop, behind);
        assert(tokens[0] == front[0]);
        assert(tokens.drop_first() =~= front.drop_first().push(stop) + behind);
    }
}

/// Partitioned devices are selected by the full identifiers of their instances,
/// in the order of the mask; anything else in the mask is an error.
pub proof fn law_instances_are_named_in_full(tokens: Seq<Seq<char>>, i: int)
    requires
        0 <= i < tokens.len(),
        forall|j: int|
            0 <= j < tokens.len() ==> crate::text::trimmed(#[trigger] tokens[j]) != "-1"@,
    ensures
        ({
            let (instances, failure) = mig_plan(tokens);
            &&& instances.len() <= tokens.len()
            &&& i < instances.len() ==> instances[i] == crate::text::trimmed(tokens[i])
                && crate::text::has_prefix(instances[i], "MIG-"@) && !instances[i].contains('\0')
            &&& failure is None <==> instances.len() == tokens.len()
            &&& i == instances.len() ==> (if crate::text::has_prefix(
                crate::text::trimmed(tokens[i]),
                "MIG-"@,
            ) {
                crate::text::trimmed(tokens[i]).contains('\0') && failure == Some(
                    "CUDA_VISIBLE_DEVICES contains a NUL byte"@,
                )
            } else {
                failure == Some("MIG mode requires full MIG UUIDs in CUDA_VISIBLE_DEVICES"@)
            })
        }),
    decreases tokens.len(),
{
    assert(crate::text::trimmed(tokens[0]) != "-1"@);
    let rest = tokens.drop_first();
    if rest.len() > 0 {
        assert forall|j: int| 0 <= j < rest.len() implies crate::text::trimmed(#[trigger] rest[j])
            != "-1"@ by {
            assert(rest[j] == tokens[j + 1]);
        }
        let k = if i > 0 {
            i - 1
        } else {
            0
        };
        law_instances_are_named_in_full(rest, k);
        assert(rest[k] == tokens[k + 1]);
    } else {
        assert(rest =~= Seq::empty());
    }
}

/// A reading becomes a sample of its device in whole MiB, rounded down, with the
/// reserve that its capacity asks for.
pub proof fn law_readings_are_in_mib<U>(index: u32, reading: DeviceReading<U>)
    ensures
        ({
            let sample = sample_from(index, reading);
            &&& sample.device_ordinal == index
            &&& sample.utilization_percent == reading.utilization_percent
            &&& sample.used_memory_mib * 1048576 <= reading.used_bytes < (sample.used_memory_mib
                + 1) * 1048576
            &&& sample.free_memory_mib * 1048576 <= reading.free_bytes < (sample.free_memory_mib
                + 1) * 1048576
            &&& sample.total_memory_mib * 1048576 <= reading.total_bytes < (sample.total_memory_mib
                + 1) * 1048576
            &&& sample.reserve_mib == crate::admission::gpu::reserve_of(sample.total_memory_mib)
        }),
{
}

/// Samples are taken of all devices or of none.
pub proof fn law_one_unread_device_spoils_all<U>(
    readings: Seq<Option<DeviceReading<U>>>,
    i: int,
)
    requires
        0 <= i < readings.len(),
        readings[i] is None,
    ensures
        !all_read(readings),
{
}

} // verus!
