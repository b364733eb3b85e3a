//! Fingerprint of the wire-defining source of the CUDA protocol.
//!
//! A shim and a server built from different source fail the connect handshake
//! loudly instead of corrupting results. The hash covers only files that both
//! the client (shim) and the host (server) compile. It is FNV-1a, so the value
//! is reproducible across toolchains and platforms.
use vstd::prelude::*;

verus! {

/// Start value of the hash.
pub const FNV_OFFSET: u64 = 0xcbf2_9ce4_8422_2325;

/// Multiplier of the hash.
pub const FNV_PRIME: u64 = 0x0000_0100_0000_01b3;

/// The hash after one more byte.
pub open spec fn fnv_step(h: u64, b: u8) -> u64 {
    ((h ^ (b as u64)) * FNV_PRIME % 0x1_0000_0000_0000_0000) as u64
}

/// The hash of `bytes`, continued from `seed`.
pub open spec fn fnv(seed: u64, bytes: Seq<u8>) -> u64
    decreases bytes.len(),
{
    if bytes.len() == 0 {
        seed
    } else {
        fnv_step(fnv(seed, bytes.drop_last()), bytes.last())
    }
}

/// The hash of several files, one after the other.
pub open spec fn fnv_all(seed: u64, files: Seq<Seq<u8>>) -> u64
    decreases files.len(),
{
    if files.len() == 0 {
        seed
    } else {
        fnv(fnv_all(seed, files.drop_last()), files.last())
    }
}

/// The character of a hexadecimal digit, in lower case.
pub open spec fn hex_char(d: nat) -> char {
    if d < 10 {
        (48 + d) as char
    } else {
        (87 + d) as char
    }
}

/// The last `width` hexadecimal digits of `n`.
pub open spec fn hex(n: nat, width: nat) -> Seq<char>
    decreases width,
{
    if width == 0 {
        Seq::empty()
    } else {
        hex(n / 16, (width - 1) as nat).push(hex_char(n % 16))
    }
}

/// FNV-1a of `bytes`, continued from `seed`.
pub fn fnv1a(seed: u64, bytes: &[u8]) -> (r: u64)
    ensures
        r == fnv(seed, bytes@),
{
    let mut h: u64 = seed;
    assert(bytes@.take(0) =~= Seq::empty());
    for i in 0..bytes.len()
        invariant
            h == fnv(seed, bytes@.take(i as int)),
    {
        assert(bytes@.take(i + 1).drop_last() =~= bytes@.take(i as int));
        h = h ^ (bytes[i] as u64);
        h = h.wrapping_mul(FNV_PRIME);
    }
    assert(bytes@.take(bytes@.len() as int) =~= bytes@);
    h
}

/// A manual epoch, which forces a change of the fingerprint where the files miss
/// one: the bytes of `epoch-1`.
pub open spec fn epoch_bytes() -> Seq<u8> {
    seq![0x65u8, 0x70u8, 0x6fu8, 0x63u8, 0x68u8, 0x2du8, 0x31u8]
}

/// Fingerprint of a wire contract: the epoch and the contents of the files.
pub open spec fn fingerprint(files: Seq<Seq<u8>>) -> u64 {
    fnv_all(fnv(FNV_OFFSET, epoch_bytes()), files)
}

/// Names of the files that define the wire contract, in the order in which they
/// are hashed.
pub open spec fn wire_file_names() -> Seq<Seq<char>> {
    seq![
        "src/proto.rs"@,
        "src/client.rs"@,
        "src/ring.rs"@,
        "src/generated/cublas_guest.rs"@,
        "src/generated/cudnn_guest.rs"@,
    ]
}

/// The files that define the wire contract.
pub fn wire_files() -> (r: Vec<&'static str>)
    ensures
        r@.map_values(|n: &str| n@) == wire_file_names(),
{
    let list: Vec<&'static str> = vec![
        "src/proto.rs",
        "src/client.rs",
        "src/ring.rs",
        "src/generated/cublas_guest.rs",
        "src/generated/cudnn_guest.rs",
    ];
    assert(list@.map_values(|n: &str| n@) =~= wire_file_names());
    list
}

/// Fingerprint of the wire contract, from the contents of its files.
pub fn protocol_hash(files: &Vec<Vec<u8>>) -> (r: u64)
    ensures
        r == fingerprint(files@.map_values(|f: Vec<u8>| f@)),
{
    let ghost all = files@.map_values(|f: Vec<u8>| f@);
    let ghost start = fnv(FNV_OFFSET, epoch_bytes());
    let epoch: [u8; 7] = [0x65, 0x70, 0x6f, 0x63, 0x68, 0x2d, 0x31];
    assert(epoch@ =~= epoch_bytes());
    let mut h: u64 = fnv1a(FNV_OFFSET, &epoch);
    assert(all.take(0) =~= Seq::empty());
    for i in 0..files.len()
        invariant
            all == files@.map_values(|f: Vec<u8>| f@),
            h == fnv_all(start, all.take(i as int)),
    {
        assert(all.take(i + 1).drop_last() =~= all.take(i as int));
        h = fnv1a(h, files[i].as_slice());
    }
    assert(all.take(all.len() as int) =~= all);
    h
}

/// The text of one hexadecimal digit.
fn hex_text(d: u64) -> (r: &'static str)
    requires
        d < 16,
    ensures
        r@ == seq![hex_char(d as nat)],
{
    proof {
        reveal_strlit("0");
        reveal_strlit("1");
        reveal_strlit("2");
        reveal_strlit("3");
        reveal_strlit("4");
        reveal_strlit("5");
        reveal_strlit("6");
        reveal_strlit("7");
        reveal_strlit("8");
        reveal_strlit("9");
        reveal_strlit("a");
        reveal_strlit("b");
        reveal_strlit("c");
        reveal_strlit("d");
        reveal_strlit("e");
        reveal_strlit("f");
    }
    let texts: [&'static str; 16] = [
        "0",
        "1",
        "2",
        "3",
        "4",
        "5",
        "6",
        "7",
        "8",
        "9",
        "a",
        "b",
        "c",
        "d",
        "e",
        "f",
    ];
    let r = texts[d as usize];
    assert(r@ =~= seq![hex_char(d as nat)]);
    r
}

/// The last `width` hexadecimal digits of `n`, in lower case.
pub fn to_hex(n: u64, width: usize) -> (r: String)
    ensures
        r@ == hex(n as nat, width as nat),
    decreases width,
{
    if width == 0 {
        let r = String::new();
        assert(r@ =~= Seq::empty());
        return r;
    }
    let mut out = to_hex(n / 16, width - 1);
    let ghost high = out@;
    out.append(hex_text(n % 16));
    assert(out@ =~= high.push(hex_char((n % 16) as nat)));
    out
}

/// The build directive that hands the fingerprint to the compiler, as sixteen
/// hexadecimal digits.
pub fn hash_directive(h: u64) -> (r: String)
    ensures
        r@ == "cargo:rustc-env=SMOLVM_PROTO_HASH="@ + hex(h as nat, 16),
{
    let mut line = "cargo:rustc-env=SMOLVM_PROTO_HASH=".to_owned();
    line.append(to_hex(h, 16).as_str());
    line
}

/// The build directive that rebuilds on a change of the file.
pub fn rerun_directive(file: &str) -> (r: String)
    ensures
        r@ == "cargo:rerun-if-changed="@ + file@,
{
    let mut line = "cargo:rerun-if-changed=".to_owned();
    line.append(file);
    line
}

/// Hashing in pieces is hashing the whole.
pub proof fn law_hash_of_pieces(seed: u64, a: Seq<u8>, b: Seq<u8>)
    ensures
        fnv(fnv(seed, a), b) == fnv(seed, a + b),
    decreases b.len(),
{
    if b.len() == 0 {
        assert(a + b =~= a);
    } else {
        law_hash_of_pieces(seed, a, b.drop_last());
        assert((a + b).drop_last() =~= a + b.drop_last());
    }
}

/// The fingerprint depends on the files' joined contents alone: how they are cut
/// into files does not matter.
pub proof fn law_cut_into_files_is_irrelevant(seed: u64, files: Seq<Seq<u8>>)
    ensures
        fnv_all(seed, files) == fnv(seed, files.flatten()),
    decreases files.len(),
{
    if files.len() == 0 {
        assert(files.flatten() =~= Seq::empty());
    } else {
        law_cut_into_files_is_irrelevant(seed, files.drop_last());
        law_hash_of_pieces(seed, files.drop_last().flatten(), files.last());
        files.lemma_flatten_and_flatten_alt_are_equivalent();
        files.drop_last().lemma_flatten_and_flatten_alt_are_equivalent();
    }
}

/// The hexadecimal numeral of a 64-bit number in sixteen digits gives the number
/// back, so different fingerprints have different texts.
pub proof fn law_fingerprint_texts_differ(a: u64, b: u64)
    requires
        hex(a as nat, 16) == hex(b as nat, 16),
    ensures
        a == b,
{
    lemma_hex_injective(a as nat, b as nat, 16);
    assert(pow16(16) == 0x1_0000_0000_0000_0000) by {
        reveal_with_fuel(pow16, 17);
    }
    vstd::arithmetic::div_mod::lemma_small_mod(a as nat, pow16(16));
    vstd::arithmetic::div_mod::lemma_small_mod(b as nat, pow16(16));
}

/// Sixteen to the power of `width`.
spec fn pow16(width: nat) -> nat
    decreases width,
{
    if width == 0 {
        1
    } else {
        16 * pow16((width - 1) as nat)
    }
}

proof fn lemma_hex_injective(a: nat, b: nat, width: nat)
    requires
        hex(a, width) == hex(b, width),
    ensures
        pow16(width) > 0,
        a % pow16(width) == b % pow16(width),
    decreases width,
{
    if width > 0 {
        let w = (width - 1) as nat;
        let x = hex(a / 16, w);
        let y = hex(b / 16, w);
        assert(hex(a, width).drop_last() =~= x);
        assert(hex(b, width).drop_last() =~= y);
        assert(hex(a, width).last() == hex_char(a % 16));
        assert(hex(b, width).last() == hex_char(b % 16));
        lemma_hex_injective(a / 16, b / 16, w);
        let p = pow16(w);
        vstd::arithmetic::div_mod::lemma_mod_breakdown(a as int, 16, p as int);
        vstd::arithmetic::div_mod::lemma_mod_breakdown(b as int, 16, p as int);
    }
}

/// Hashing a byte mixes it in and multiplies by the prime, modulo 2^64.
pub proof fn law_hash_takes_one_byte_at_a_time(seed: u64, bytes: Seq<u8>, b: u8)
    ensures
        fnv(seed, Seq::empty()) == seed,
        fnv(seed, bytes.push(b)) as int == ((fnv(seed, bytes) ^ (b as u64)) as int
            * 0x100_0000_01b3) % 0x1_0000_0000_0000_0000,
{
    assert(bytes.push(b).drop_last() =~= bytes);
}

/// A fingerprint is the hash of the epoch and of all files, in their order,
/// starting from the usual offset.
pub proof fn law_fingerprint_covers_epoch_and_files(files: Seq<Seq<u8>>)
    ensures
        fingerprint(files) == fnv(
            0xcbf2_9ce4_8422_2325,
            seq![0x65u8, 0x70u8, 0x6fu8, 0x63u8, 0x68u8, 0x2du8, 0x31u8] + files.flatten(),
        ),
{
    let epoch = seq![0x65u8, 0x70u8, 0x6fu8, 0x63u8, 0x68u8, 0x2du8, 0x31u8];
    law_cut_into_files_is_irrelevant(fnv(FNV_OFFSET, epoch_bytes()), files);
    law_hash_of_pieces(FNV_OFFSET, epoch, files.flatten());
}

/// Each hexadecimal digit stands for sixteen times the next.
pub proof fn law_hexadecimal_digits(n: nat, d: nat, width: nat)
    requires
        d < 16,
    ensures
        hex(n, 0) == Seq::<char>::empty(),
        hex(16 * n + d, width + 1) == hex(n, width).push(
            if d < 10 {
                (0x30 + d) as char
            } else {
                (0x61 + d - 10) as char
            },
        ),
        hex(n, width).len() == width,
    decreases width,
{
    assert((16 * n + d) / 16 == n);
    assert((16 * n + d) % 16 == d);
    if width > 0 {
        law_hexadecimal_digits(n / 16, n % 16, (width - 1) as nat);
    }
}

} // verus!
