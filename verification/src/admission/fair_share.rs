//! Division of a device's resident limit among the pools that want it.
use vstd::prelude::*;
use crate::admission::calibration::PRESSURE_TTL;
use crate::text::{same, stands_before};

verus! {

/// Activity of one pool on a device.
#[derive(Debug, Clone, Copy)]
pub struct DevicePoolState {
    /// Most active leases that the pool may have.
    pub ceiling: u32,
    /// Leases that are active.
    pub active: u32,
    /// Time at which a caller of the pool was last blocked, in nanoseconds.
    pub last_demand: Option<u64>,
}

/// A pool of a device: its name and its activity.
pub type PoolEntry = (Seq<char>, DevicePoolState);

/// A pool that competes for the device: its name and its ceiling.
pub type Claim = (Seq<char>, u32);

/// The model of a device's list of pools.
pub open spec fn entries(pools: Seq<(String, DevicePoolState)>) -> Seq<PoolEntry> {
    pools.map_values(|p: (String, DevicePoolState)| (p.0@, p.1))
}

/// A caller of the pool was blocked recently.
pub open spec fn recently_blocked(pool: DevicePoolState, now: u64) -> bool {
    match pool.last_demand {
        Some(demand) => crate::admission::calibration::elapsed_since(now, demand) <= PRESSURE_TTL,
        None => false,
    }
}

/// The pool competes for the device.
pub open spec fn competes(
    pool: PoolEntry,
    target: Seq<char>,
    now: u64,
    with_target: bool,
) -> bool {
    recently_blocked(pool.1, now) || (with_target && pool.0 == target)
}

/// The pools that compete for the device.
pub open spec fn claims(
    pools: Seq<PoolEntry>,
    target: Seq<char>,
    now: u64,
    with_target: bool,
) -> Seq<Claim>
    decreases pools.len(),
{
    if pools.len() == 0 {
        Seq::empty()
    } else {
        let init = claims(pools.drop_last(), target, now, with_target);
        if competes(pools.last(), target, now, with_target) {
            init.push((pools.last().0, pools.last().1.ceiling))
        } else {
            init
        }
    }
}

/// Active leases of the pools that do not compete.
pub open spec fn occupied(
    pools: Seq<PoolEntry>,
    target: Seq<char>,
    now: u64,
    with_target: bool,
) -> nat
    decreases pools.len(),
{
    if pools.len() == 0 {
        0
    } else {
        let init = occupied(pools.drop_last(), target, now, with_target);
        if competes(pools.last(), target, now, with_target) {
            init
        } else {
            init + pools.last().1.active as nat
        }
    }
}

/// What the pools that do not compete leave of the device.
pub open spec fn remaining_for(
    pools: Seq<PoolEntry>,
    target: Seq<char>,
    device_limit: u32,
    now: u64,
    with_target: bool,
) -> nat {
    let taken = occupied(pools, target, now, with_target);
    if taken >= device_limit {
        0
    } else {
        (device_limit - taken) as nat
    }
}

/// `c`, but no more than `level`.
pub open spec fn capped(c: u32, level: nat) -> nat {
    if c as nat <= level {
        c as nat
    } else {
        level
    }
}

/// What is given out when every pool gets up to `level`.
pub open spec fn filled(list: Seq<Claim>, level: nat) -> nat
    decreases list.len(),
{
    if list.len() == 0 {
        0
    } else {
        filled(list.drop_last(), level) + capped(list.last().1, level)
    }
}

/// Number of pools that can use more than `level`.
pub open spec fn above(list: Seq<Claim>, level: nat) -> nat
    decreases list.len(),
{
    if list.len() == 0 {
        0
    } else {
        above(list.drop_last(), level) + if list.last().1 > level {
            1nat
        } else {
            0
        }
    }
}

/// Number of pools before `name`, in name order, that can use more than
/// `level`.
pub open spec fn rank(list: Seq<Claim>, level: nat, name: Seq<char>) -> nat
    decreases list.len(),
{
    if list.len() == 0 {
        0
    } else {
        rank(list.drop_last(), level, name) + if list.last().1 > level && crate::text::precedes(
            list.last().0,
            name,
        ) {
            1nat
        } else {
            0
        }
    }
}

/// `level` is the highest that every pool can be given.
pub open spec fn is_level(list: Seq<Claim>, remaining: nat, level: nat) -> bool {
    &&& filled(list, level) <= remaining
    &&& above(list, level) == 0 || filled(list, level + 1) > remaining
}

/// The highest level that every pool can be given.
pub open spec fn level_of(list: Seq<Claim>, remaining: nat) -> nat {
    choose|level: nat| is_level(list, remaining, level)
}

/// What one pool gets when every pool gets up to `level` and what is left over
/// goes, one each, to the first pools in name order that can use it.
pub open spec fn share_at(list: Seq<Claim>, remaining: nat, level: nat, claim: Claim) -> nat {
    capped(claim.1, level) + if claim.1 > level && rank(list, level, claim.0) < remaining - filled(
        list,
        level,
    ) {
        1nat
    } else {
        0
    }
}

/// What one pool gets of `remaining`.
pub open spec fn share(list: Seq<Claim>, remaining: nat, claim: Claim) -> nat {
    share_at(list, remaining, level_of(list, remaining), claim)
}

/// What all pools of `part` get together.
pub open spec fn total_share(list: Seq<Claim>, remaining: nat, part: Seq<Claim>) -> nat
    decreases part.len(),
{
    if part.len() == 0 {
        0
    } else {
        total_share(list, remaining, part.drop_last()) + share(list, remaining, part.last())
    }
}

/// Sum of the ceilings.
pub open spec fn total_ceiling(list: Seq<Claim>) -> nat
    decreases list.len(),
{
    if list.len() == 0 {
        0
    } else {
        total_ceiling(list.drop_last()) + list.last().1 as nat
    }
}

/// No two pools have the same name.
pub open spec fn distinct_claims(list: Seq<Claim>) -> bool {
    forall|i: int, j: int|
        0 <= i < j < list.len() ==> (#[trigger] list[i]).0 != (#[trigger] list[j]).0
}

/// No two pools have the same name.
pub open spec fn distinct_names(pools: Seq<PoolEntry>) -> bool {
    forall|i: int, j: int|
        0 <= i < j < pools.len() ==> (#[trigger] pools[i]).0 != (#[trigger] pools[j]).0
}

/// The state of the pool with the given name.
pub open spec fn pool_named(
    pools: Seq<PoolEntry>,
    name: Seq<char>,
) -> Option<DevicePoolState>
    decreases pools.len(),
{
    if pools.len() == 0 {
        None
    } else if pools.last().0 == name {
        Some(pools.last().1)
    } else {
        pool_named(pools.drop_last(), name)
    }
}

/// The limit of one pool on a device. Where nobody competes, the whole device
/// is the pool's, up to its ceiling; else the pool gets its share, and nothing
/// if it does not compete.
pub open spec fn fair_limit(
    pools: Seq<PoolEntry>,
    target: Seq<char>,
    device_limit: u32,
    now: u64,
    with_target: bool,
) -> nat {
    let list = claims(pools, target, now, with_target);
    match pool_named(pools, target) {
        None => if list.len() == 0 {
            device_limit as nat
        } else {
            0
        },
        Some(pool) => if list.len() == 0 {
            capped(pool.ceiling, device_limit as nat)
        } else if recently_blocked(pool, now) || with_target {
            share(
                list,
                remaining_for(pools, target, device_limit, now, with_target),
                (target, pool.ceiling),
            )
        } else {
            0
        },
    }
}

/// Raising the level by one gives one more to each pool above it.
pub proof fn lemma_filled_step(list: Seq<Claim>, level: nat)
    ensures
        filled(list, level + 1) == filled(list, level) + above(list, level),
    decreases list.len(),
{
    if list.len() > 0 {
        lemma_filled_step(list.drop_last(), level);
    }
}

proof fn lemma_above_antitone(list: Seq<Claim>, a: nat, b: nat)
    requires
        a <= b,
    ensures
        above(list, b) <= above(list, a),
        above(list, a) == 0 ==> filled(list, b) == filled(list, a),
        filled(list, a) <= filled(list, b),
    decreases list.len(),
{
    if list.len() > 0 {
        lemma_above_antitone(list.drop_last(), a, b);
    }
}

/// All levels give the same shares, and all but those above every ceiling are
/// one and the same.
pub proof fn lemma_level_unique(list: Seq<Claim>, remaining: nat, a: nat, b: nat)
    requires
        is_level(list, remaining, a),
        is_level(list, remaining, b),
    ensures
        a == b || (above(list, a) == 0 && above(list, b) == 0),
    decreases a + b,
{
    if a < b {
        lemma_above_antitone(list, a, b);
        lemma_above_antitone(list, a + 1, b);
    } else if b < a {
        lemma_above_antitone(list, b, a);
        lemma_above_antitone(list, b + 1, a);
    }
}

proof fn lemma_none_above(list: Seq<Claim>, level: nat, i: int)
    requires
        above(list, level) == 0,
        0 <= i < list.len(),
    ensures
        list[i].1 <= level,
    decreases list.len(),
{
    if i < list.len() - 1 {
        lemma_none_above(list.drop_last(), level, i);
    }
}

/// The share computed at any level is the share.
pub proof fn lemma_share_at_level(list: Seq<Claim>, remaining: nat, level: nat, i: int)
    requires
        is_level(list, remaining, level),
        0 <= i < list.len(),
    ensures
        share_at(list, remaining, level, list[i]) == share(list, remaining, list[i]),
{
    let l = level_of(list, remaining);
    assert(is_level(list, remaining, l));
    lemma_level_unique(list, remaining, level, l);
    if level != l {
        lemma_none_above(list, level, i);
        lemma_none_above(list, l, i);
    }
}

/// There is a level for every amount.
pub proof fn lemma_level_exists(list: Seq<Claim>, remaining: nat)
    ensures
        is_level(list, remaining, level_of(list, remaining)),
{
    lemma_filled_zero(list);
    lemma_level_search(list, remaining, 0);
}

proof fn lemma_filled_zero(list: Seq<Claim>)
    ensures
        filled(list, 0) == 0,
    decreases list.len(),
{
    if list.len() > 0 {
        lemma_filled_zero(list.drop_last());
    }
}

proof fn lemma_level_search(list: Seq<Claim>, remaining: nat, from: nat)
    requires
        filled(list, from) <= remaining,
    ensures
        exists|level: nat| is_level(list, remaining, level),
    decreases remaining - filled(list, from),
{
    lemma_filled_step(list, from);
    if above(list, from) == 0 || filled(list, from + 1) > remaining {
        assert(is_level(list, remaining, from));
    } else {
        lemma_level_search(list, remaining, from + 1);
    }
}

proof fn lemma_claims_of(
    pools: Seq<PoolEntry>,
    target: Seq<char>,
    now: u64,
    with_target: bool,
)
    requires
        distinct_names(pools),
    ensures
        distinct_claims(claims(pools, target, now, with_target)),
        forall|k: int|
            0 <= k < claims(pools, target, now, with_target).len() ==> exists|i: int|
                0 <= i < pools.len() && (#[trigger] pools[i]).0 == (#[trigger] claims(
                    pools,
                    target,
                    now,
                    with_target,
                )[k]).0,
    decreases pools.len(),
{
    if pools.len() > 0 {
        let init = pools.drop_last();
        assert forall|i: int, j: int| 0 <= i < j < init.len() implies (#[trigger] init[i]).0 != (
        #[trigger] init[j]).0 by {
            assert(init[i] == pools[i]);
            assert(init[j] == pools[j]);
        }
        lemma_claims_of(init, target, now, with_target);
        let before = claims(init, target, now, with_target);
        let list = claims(pools, target, now, with_target);
        assert forall|k: int| 0 <= k < list.len() implies exists|i: int|
            0 <= i < pools.len() && (#[trigger] pools[i]).0 == (#[trigger] list[k]).0 by {
            if k < before.len() {
                assert(list[k] == before[k]);
                let i = choose|i: int| 0 <= i < init.len() && (#[trigger] init[i]).0 == before[k].0;
                assert(pools[i] == init[i]);
            } else {
                assert(pools[pools.len() - 1].0 == list[k].0);
            }
        }
        assert forall|i: int, j: int| 0 <= i < j < list.len() implies (#[trigger] list[i]).0 != (
        #[trigger] list[j]).0 by {
            assert(list[i] == before[i]);
            if j < before.len() {
                assert(list[j] == before[j]);
            } else {
                let m = choose|m: int| 0 <= m < init.len() && (#[trigger] init[m]).0 == before[i].0;
                assert(pools[m] == init[m]);
                assert(pools[m].0 != pools[pools.len() - 1].0);
            }
        }
    }
}

/// A pool that competes stands among the claims.
proof fn lemma_claim_present(
    pools: Seq<PoolEntry>,
    target: Seq<char>,
    now: u64,
    with_target: bool,
)
    requires
        pool_named(pools, target) is Some,
        recently_blocked(pool_named(pools, target)->0, now) || with_target,
    ensures
        claims(pools, target, now, with_target).contains(
            (target, (pool_named(pools, target)->0).ceiling),
        ),
    decreases pools.len(),
{
    let list = claims(pools, target, now, with_target);
    if pools.last().0 == target {
        assert(list[list.len() - 1] == (target, (pool_named(pools, target)->0).ceiling));
    } else {
        lemma_claim_present(pools.drop_last(), target, now, with_target);
        let before = claims(pools.drop_last(), target, now, with_target);
        let claim = (target, (pool_named(pools, target)->0).ceiling);
        let k = choose|k: int| 0 <= k < before.len() && before[k] == claim;
        assert(list[k] == claim);
    }
}

/// Whether a caller of the pool was blocked recently.
fn is_recently_blocked(pool: &DevicePoolState, now: u64) -> (r: bool)
    ensures
        r == recently_blocked(*pool, now),
{
    match pool.last_demand {
        Some(demand) => now.saturating_sub(demand) <= PRESSURE_TTL,
        None => false,
    }
}

/// Whether a pool competes for the device.
fn is_competing(
    pool: &(String, DevicePoolState),
    target: &str,
    now: u64,
    with_target: bool,
) -> (r: bool)
    ensures
        r == competes((pool.0@, pool.1), target@, now, with_target),
{
    is_recently_blocked(&pool.1, now) || (with_target && same(pool.0.as_str(), target))
}

/// The state of the pool with the given name.
pub fn find_pool(pools: &Vec<(String, DevicePoolState)>, name: &str) -> (r: Option<DevicePoolState>)
    ensures
        r == pool_named(entries(pools@), name@),
{
    let mut i: usize = pools.len();
    assert(entries(pools@).take(pools@.len() as int) =~= entries(pools@));
    while i > 0
        invariant
            i <= pools@.len(),
            pool_named(entries(pools@), name@) == pool_named(entries(pools@).take(i as int), name@),
        decreases i,
    {
        assert(entries(pools@).take(i as int).drop_last() =~= entries(pools@).take(i - 1));
        i -= 1;
        if same(pools[i].0.as_str(), name) {
            return Some(pools[i].1);
        }
    }
    None
}

/// Number of competing pools that can use more than `level`, and of those the
/// ones before `target` in name order.
fn count_above(
    pools: &Vec<(String, DevicePoolState)>,
    target: &str,
    now: u64,
    with_target: bool,
    level: u32,
) -> (r: (usize, usize))
    ensures
        r.0 == above(claims(entries(pools@), target@, now, with_target), level as nat),
        r.1 == rank(claims(entries(pools@), target@, now, with_target), level as nat, target@),
{
    let mut count: usize = 0;
    let mut before: usize = 0;
    assert(entries(pools@).take(0) =~= Seq::empty());
    for i in 0..pools.len()
        invariant
            before <= count <= i,
            count == above(claims(entries(pools@).take(i as int), target@, now, with_target), level as nat),
            before == rank(
                claims(entries(pools@).take(i as int), target@, now, with_target),
                level as nat,
                target@,
            ),
    {
        let ghost init = claims(entries(pools@).take(i as int), target@, now, with_target);
        let ghost next = claims(entries(pools@).take(i + 1), target@, now, with_target);
        assert(entries(pools@).take(i + 1).drop_last() =~= entries(pools@).take(i as int));
        if is_competing(&pools[i], target, now, with_target) {
            assert(next.drop_last() =~= init);
            if pools[i].1.ceiling > level {
                count += 1;
                if stands_before(pools[i].0.as_str(), target) {
                    before += 1;
                }
            }
        }
    }
    assert(entries(pools@).take(pools@.len() as int) =~= entries(pools@));
    (count, before)
}

/// What the pools that do not compete occupy, up to the largest `u32`.
fn count_occupied(
    pools: &Vec<(String, DevicePoolState)>,
    target: &str,
    now: u64,
    with_target: bool,
) -> (r: (u32, bool))
    ensures
        r.0 == (if occupied(entries(pools@), target@, now, with_target) > u32::MAX {
            u32::MAX as nat
        } else {
            occupied(entries(pools@), target@, now, with_target)
        }),
        r.1 == (claims(entries(pools@), target@, now, with_target).len() > 0),
{
    let mut total: u32 = 0;
    let mut any = false;
    assert(entries(pools@).take(0) =~= Seq::empty());
    for i in 0..pools.len()
        invariant
            total == (if occupied(entries(pools@).take(i as int), target@, now, with_target) > u32::MAX {
                u32::MAX as nat
            } else {
                occupied(entries(pools@).take(i as int), target@, now, with_target)
            }),
            any == (claims(entries(pools@).take(i as int), target@, now, with_target).len() > 0),
    {
        assert(entries(pools@).take(i + 1).drop_last() =~= entries(pools@).take(i as int));
        if is_competing(&pools[i], target, now, with_target) {
            any = true;
        } else {
            total = total.saturating_add(pools[i].1.active);
        }
    }
    assert(entries(pools@).take(pools@.len() as int) =~= entries(pools@));
    (total, any)
}

/// The limit of one pool on a device: its fair share while several pools have
/// recent demand.
pub fn fair_pool_limit(
    pools: &Vec<(String, DevicePoolState)>,
    target: &str,
    device_limit: u32,
    now: u64,
    include_target: bool,
) -> (r: u32)
    ensures
        r as nat == fair_limit(entries(pools@), target@, device_limit, now, include_target),
{
    let found = find_pool(pools, target);
    let (occupied_by_others, any) = count_occupied(pools, target, now, include_target);
    if !any {
        return match found {
            Some(pool) => if pool.ceiling <= device_limit {
                pool.ceiling
            } else {
                device_limit
            },
            None => device_limit,
        };
    }
    let pool = match found {
        Some(pool) => pool,
        None => {
            return 0;
        },
    };
    if !(is_recently_blocked(&pool, now) || include_target) {
        return 0;
    }
    let ghost list = claims(entries(pools@), target@, now, include_target);
    let ghost whole = remaining_for(entries(pools@), target@, device_limit, now, include_target);
    let mut remaining: u32 = device_limit.saturating_sub(occupied_by_others);
    let mut level: u32 = 0;
    let (mut count, mut before) = count_above(pools, target, now, include_target, level);
    proof {
        lemma_filled_zero(list);
    }
    while count > 0 && count <= remaining as usize
        invariant
            list == claims(entries(pools@), target@, now, include_target),
            remaining == whole - filled(list, level as nat),
            count == above(list, level as nat),
            before == rank(list, level as nat, target@),
            whole <= u32::MAX,
            level <= filled(list, level as nat) || above(list, level as nat) == 0,
        decreases remaining,
    {
        proof {
            lemma_filled_step(list, level as nat);
        }
        remaining -= count as u32;
        level += 1;
        let counts = count_above(pools, target, now, include_target, level);
        count = counts.0;
        before = counts.1;
    }
    proof {
        lemma_filled_step(list, level as nat);
        assert(is_level(list, whole, level as nat));
        lemma_claim_present(entries(pools@), target@, now, include_target);
        let claim = (target@, pool.ceiling);
        let i = choose|i: int| 0 <= i < list.len() && list[i] == claim;
        lemma_share_at_level(list, whole, level as nat, i);
    }
    if pool.ceiling <= level {
        pool.ceiling
    } else if before < remaining as usize {
        level + 1
    } else {
        level
    }
}

/// Number of `names` before `name`.
spec fn before(names: Seq<Seq<char>>, name: Seq<char>) -> nat
    decreases names.len(),
{
    if names.len() == 0 {
        0
    } else {
        before(names.drop_last(), name) + if crate::text::precedes(names.last(), name) {
            1nat
        } else {
            0
        }
    }
}

/// Number of names of `part` that have fewer than `m` of `names` before them.
spec fn ranked_below(names: Seq<Seq<char>>, part: Seq<Seq<char>>, m: nat) -> nat
    decreases part.len(),
{
    if part.len() == 0 {
        0
    } else {
        ranked_below(names, part.drop_last(), m) + if before(names, part.last()) < m {
            1nat
        } else {
            0
        }
    }
}

/// Names of the pools that can use more than `level`.
spec fn names_above(list: Seq<Claim>, level: nat) -> Seq<Seq<char>>
    decreases list.len(),
{
    if list.len() == 0 {
        Seq::empty()
    } else if list.last().1 > level {
        names_above(list.drop_last(), level).push(list.last().0)
    } else {
        names_above(list.drop_last(), level)
    }
}

proof fn lemma_before_remove(names: Seq<Seq<char>>, x: int, name: Seq<char>)
    requires
        0 <= x < names.len(),
    ensures
        before(names, name) == before(names.remove(x), name) + if crate::text::precedes(
            names[x],
            name,
        ) {
            1nat
        } else {
            0
        },
    decreases names.len(),
{
    if x == names.len() - 1 {
        assert(names.remove(x) =~= names.drop_last());
    } else {
        lemma_before_remove(names.drop_last(), x, name);
        assert(names.remove(x).drop_last() =~= names.drop_last().remove(x));
        assert(names.remove(x).last() == names.last());
    }
}

proof fn lemma_ranked_remove(names: Seq<Seq<char>>, part: Seq<Seq<char>>, x: int, m: nat)
    requires
        0 <= x < part.len(),
    ensures
        ranked_below(names, part, m) == ranked_below(names, part.remove(x), m) + if before(
            names,
            part[x],
        ) < m {
            1nat
        } else {
            0
        },
    decreases part.len(),
{
    if x == part.len() - 1 {
        assert(part.remove(x) =~= part.drop_last());
    } else {
        lemma_ranked_remove(names, part.drop_last(), x, m);
        assert(part.remove(x).drop_last() =~= part.drop_last().remove(x));
        assert(part.remove(x).last() == part.last());
    }
}

proof fn lemma_ranked_same(a: Seq<Seq<char>>, b: Seq<Seq<char>>, part: Seq<Seq<char>>, m: nat)
    requires
        forall|i: int| 0 <= i < part.len() ==> before(a, #[trigger] part[i]) == before(b, part[i]),
    ensures
        ranked_below(a, part, m) == ranked_below(b, part, m),
    decreases part.len(),
{
    if part.len() > 0 {
        assert forall|i: int| 0 <= i < part.drop_last().len() implies before(
            a,
            #[trigger] part.drop_last()[i],
        ) == before(b, part.drop_last()[i]) by {
            assert(part.drop_last()[i] == part[i]);
        }
        lemma_ranked_same(a, b, part.drop_last(), m);
        assert(before(a, part[part.len() - 1]) == before(b, part[part.len() - 1]));
    }
}

proof fn lemma_before_all(names: Seq<Seq<char>>, name: Seq<char>)
    requires
        forall|i: int| 0 <= i < names.len() ==> crate::text::precedes(#[trigger] names[i], name),
    ensures
        before(names, name) == names.len(),
    decreases names.len(),
{
    if names.len() > 0 {
        assert forall|i: int| 0 <= i < names.drop_last().len() implies crate::text::precedes(
            #[trigger] names.drop_last()[i],
            name,
        ) by {
            assert(names.drop_last()[i] == names[i]);
        }
        lemma_before_all(names.drop_last(), name);
        assert(crate::text::precedes(names[names.len() - 1], name));
    }
}

/// Of distinct names one is last.
proof fn lemma_last_name(names: Seq<Seq<char>>) -> (x: int)
    requires
        names.len() > 0,
        names.no_duplicates(),
    ensures
        0 <= x < names.len(),
        forall|j: int|
            0 <= j < names.len() && j != x ==> crate::text::precedes(#[trigger] names[j], names[x]),
    decreases names.len(),
{
    let n = names.len() - 1;
    if n == 0 {
        0
    } else {
        let init = names.drop_last();
        assert(init.no_duplicates()) by {
            assert forall|i: int, j: int| 0 <= i < j < init.len() implies init[i] != init[j] by {
                assert(init[i] == names[i] && init[j] == names[j]);
            }
        }
        let y = lemma_last_name(init);
        crate::text::lemma_precedes_total(names[y], names[n]);
        assert(names[y] != names[n]);
        if crate::text::precedes(names[y], names[n]) {
            assert forall|j: int| 0 <= j < names.len() && j != n implies crate::text::precedes(
                #[trigger] names[j],
                names[n],
            ) by {
                assert(init[j] == names[j]);
                if j != y {
                    crate::text::lemma_precedes_transitive(names[j], names[y], names[n]);
                }
            }
            n
        } else {
            assert forall|j: int| 0 <= j < names.len() && j != y implies crate::text::precedes(
                #[trigger] names[j],
                names[y],
            ) by {
                if j < n {
                    assert(init[j] == names[j]);
                }
            }
            y
        }
    }
}

/// Distinct names have distinct ranks: exactly `m` of them rank below `m`.
proof fn lemma_ranks(names: Seq<Seq<char>>, m: nat)
    requires
        names.no_duplicates(),
    ensures
        ranked_below(names, names, m) == if m < names.len() {
            m
        } else {
            names.len()
        },
    decreases names.len(),
{
    if names.len() > 0 {
        let x = lemma_last_name(names);
        let rest = names.remove(x);
        assert forall|i: int| 0 <= i < rest.len() implies crate::text::precedes(
            #[trigger] rest[i],
            names[x],
        ) by {
            assert(rest[i] == names[if i < x { i } else { i + 1 }]);
        }
        assert(rest.no_duplicates()) by {
            assert forall|i: int, j: int| 0 <= i < j < rest.len() implies rest[i] != rest[j] by {
                assert(rest[i] == names[if i < x { i } else { i + 1 }]);
                assert(rest[j] == names[if j < x { j } else { j + 1 }]);
            }
        }
        lemma_before_all(rest, names[x]);
        lemma_before_remove(names, x, names[x]);
        crate::text::lemma_precedes_irreflexive(names[x]);
        lemma_ranked_remove(names, names, x, m);
        assert forall|i: int| 0 <= i < rest.len() implies before(names, #[trigger] rest[i])
            == before(rest, rest[i]) by {
            lemma_before_remove(names, x, rest[i]);
            assert(crate::text::precedes(rest[i], names[x]));
            if crate::text::precedes(names[x], rest[i]) {
                crate::text::lemma_precedes_transitive(rest[i], names[x], rest[i]);
                crate::text::lemma_precedes_irreflexive(rest[i]);
            }
        }
        lemma_ranked_same(names, rest, rest, m);
        lemma_ranks(rest, m);
    }
}

proof fn lemma_names_above(list: Seq<Claim>, level: nat, name: Seq<char>)
    ensures
        rank(list, level, name) == before(names_above(list, level), name),
        above(list, level) == names_above(list, level).len(),
    decreases list.len(),
{
    if list.len() > 0 {
        lemma_names_above(list.drop_last(), level, name);
        let init = names_above(list.drop_last(), level);
        assert(init.push(list.last().0).drop_last() =~= init);
    }
}

proof fn lemma_names_above_distinct(list: Seq<Claim>, level: nat)
    requires
        distinct_claims(list),
    ensures
        names_above(list, level).no_duplicates(),
        forall|k: int|
            0 <= k < names_above(list, level).len() ==> exists|i: int|
                0 <= i < list.len() && (#[trigger] list[i]).0 == #[trigger] names_above(list, level)[k],
    decreases list.len(),
{
    if list.len() > 0 {
        let init = list.drop_last();
        assert forall|i: int, j: int| 0 <= i < j < init.len() implies (#[trigger] init[i]).0 != (
        #[trigger] init[j]).0 by {
            assert(init[i] == list[i]);
            assert(init[j] == list[j]);
        }
        lemma_names_above_distinct(init, level);
        let short = names_above(init, level);
        let names = names_above(list, level);
        assert forall|k: int| 0 <= k < names.len() implies exists|i: int|
            0 <= i < list.len() && (#[trigger] list[i]).0 == #[trigger] names[k] by {
            if k < short.len() {
                let i = choose|i: int| 0 <= i < init.len() && (#[trigger] init[i]).0 == short[k];
                assert(list[i].0 == names[k]);
            } else {
                assert(list[list.len() - 1].0 == names[k]);
            }
        }
        assert forall|i: int, j: int| 0 <= i < j < names.len() implies names[i] != names[j] by {
            if j >= short.len() {
                let m = choose|m: int| 0 <= m < init.len() && (#[trigger] init[m]).0 == short[i];
                assert(list[m].0 == short[i]);
                assert(list[m].0 != list[list.len() - 1].0);
            }
        }
    }
}

/// The shares of a part add up to its level and its part of what is left over.
proof fn lemma_total_share(list: Seq<Claim>, remaining: nat, part: Seq<Claim>)
    ensures
        ({
            let level = level_of(list, remaining);
            total_share(list, remaining, part) == filled(part, level) + ranked_below(
                names_above(list, level),
                names_above(part, level),
                if remaining >= filled(list, level) {
                    (remaining - filled(list, level)) as nat
                } else {
                    0
                },
            )
        }),
    decreases part.len(),
{
    if part.len() > 0 {
        let level = level_of(list, remaining);
        lemma_total_share(list, remaining, part.drop_last());
        lemma_names_above(list, level, part.last().0);
        let init = names_above(part.drop_last(), level);
        assert(init.push(part.last().0).drop_last() =~= init);
    }
}

proof fn lemma_filled_total(list: Seq<Claim>, level: nat)
    ensures
        above(list, level) == 0 ==> filled(list, level) == total_ceiling(list),
        filled(list, level) + above(list, level) <= total_ceiling(list),
    decreases list.len(),
{
    if list.len() > 0 {
        lemma_filled_total(list.drop_last(), level);
    }
}

/// No pool gets more than its ceiling.
pub proof fn law_share_within_ceiling(list: Seq<Claim>, remaining: nat, claim: Claim)
    ensures
        share(list, remaining, claim) <= claim.1,
{
}

/// The shares are even: a pool that gets less than its ceiling gets at most one
/// less than any other.
pub proof fn law_shares_are_even(list: Seq<Claim>, remaining: nat, a: Claim, b: Claim)
    requires
        share(list, remaining, a) < a.1,
    ensures
        share(list, remaining, b) <= share(list, remaining, a) + 1,
{
}

/// Nothing is wasted and nothing given twice: the shares add up to what there
/// is, or to the ceilings where those are lower.
pub proof fn law_shares_use_what_there_is(list: Seq<Claim>, remaining: nat)
    requires
        distinct_claims(list),
    ensures
        total_share(list, remaining, list) == if remaining < total_ceiling(list) {
            remaining
        } else {
            total_ceiling(list)
        },
{
    let level = level_of(list, remaining);
    lemma_level_exists(list, remaining);
    lemma_total_share(list, remaining, list);
    lemma_filled_step(list, level);
    lemma_filled_total(list, level);
    lemma_names_above(list, level, Seq::empty());
    lemma_names_above_distinct(list, level);
    lemma_ranks(names_above(list, level), (remaining - filled(list, level)) as nat);
}

/// The competing pools together never get more than the others leave of the
/// device.
pub proof fn law_device_is_not_overcommitted(
    pools: Seq<PoolEntry>,
    target: Seq<char>,
    device_limit: u32,
    now: u64,
    with_target: bool,
)
    requires
        distinct_names(pools),
        occupied(pools, target, now, with_target) <= device_limit,
    ensures
        ({
            let list = claims(pools, target, now, with_target);
            let remaining = remaining_for(pools, target, device_limit, now, with_target);
            total_share(list, remaining, list) + occupied(pools, target, now, with_target)
                <= device_limit
        }),
{
    lemma_claims_of(pools, target, now, with_target);
    let list = claims(pools, target, now, with_target);
    law_shares_use_what_there_is(
        list,
        remaining_for(pools, target, device_limit, now, with_target),
    );
}

/// A limit never exceeds the pool's ceiling, nor the device's limit.
pub proof fn law_fair_limit_is_bounded(
    pools: Seq<PoolEntry>,
    target: Seq<char>,
    device_limit: u32,
    now: u64,
    with_target: bool,
)
    requires
        pool_named(pools, target) is Some,
    ensures
        fair_limit(pools, target, device_limit, now, with_target) <= (pool_named(
            pools,
            target,
        )->0).ceiling,
        fair_limit(pools, target, device_limit, now, with_target) <= device_limit,
{
    let pool = pool_named(pools, target)->0;
    let list = claims(pools, target, now, with_target);
    let remaining = remaining_for(pools, target, device_limit, now, with_target);
    if list.len() > 0 && (recently_blocked(pool, now) || with_target) {
        lemma_claim_present(pools, target, now, with_target);
        lemma_level_exists(list, remaining);
        let claim = (target, pool.ceiling);
        let i = choose|i: int| 0 <= i < list.len() && list[i] == claim;
        lemma_share_within_fill(list, level_of(list, remaining), i);
    }
}

proof fn lemma_share_within_fill(list: Seq<Claim>, level: nat, i: int)
    requires
        0 <= i < list.len(),
    ensures
        capped(list[i].1, level) <= filled(list, level),
    decreases list.len(),
{
    if i < list.len() - 1 {
        lemma_share_within_fill(list.drop_last(), level, i);
    }
}

/// The pools without the one at `i` count for less by what that pool counts for.
proof fn lemma_without(
    pools: Seq<PoolEntry>,
    i: int,
    target: Seq<char>,
    now: u64,
    with_target: bool,
    level: nat,
    name: Seq<char>,
)
    requires
        0 <= i < pools.len(),
    ensures
        ({
            let all = claims(pools, target, now, with_target);
            let rest = claims(pools.remove(i), target, now, with_target);
            let pool = pools[i];
            if competes(pool, target, now, with_target) {
                let ceiling = pool.1.ceiling;
                &&& all.len() == rest.len() + 1
                &&& filled(all, level) == filled(rest, level) + capped(ceiling, level)
                &&& above(all, level) == above(rest, level) + if ceiling > level {
                    1nat
                } else {
                    0
                }
                &&& rank(all, level, name) == rank(rest, level, name) + if ceiling > level
                    && crate::text::precedes(pool.0, name) {
                    1nat
                } else {
                    0
                }
                &&& occupied(pools, target, now, with_target) == occupied(
                    pools.remove(i),
                    target,
                    now,
                    with_target,
                )
            } else {
                &&& all.len() == rest.len()
                &&& filled(all, level) == filled(rest, level)
                &&& above(all, level) == above(rest, level)
                &&& rank(all, level, name) == rank(rest, level, name)
                &&& occupied(pools, target, now, with_target) == occupied(
                    pools.remove(i),
                    target,
                    now,
                    with_target,
                ) + pool.1.active
            }
        }),
    decreases pools.len(),
{
    let init = pools.drop_last();
    let before = claims(init, target, now, with_target);
    let all = claims(pools, target, now, with_target);
    if competes(pools.last(), target, now, with_target) {
        assert(all.drop_last() =~= before);
    }
    if i == pools.len() - 1 {
        assert(pools.remove(i) =~= init);
    } else {
        lemma_without(init, i, target, now, with_target, level, name);
        assert(pools.remove(i).drop_last() =~= init.remove(i));
        assert(pools.remove(i).last() == pools.last());
        let rest = claims(pools.remove(i), target, now, with_target);
        if competes(pools.last(), target, now, with_target) {
            assert(rest.drop_last() =~= claims(init.remove(i), target, now, with_target));
        }
    }
}

/// A pool is found by its name wherever it stands.
proof fn lemma_named_without(pools: Seq<PoolEntry>, i: int, name: Seq<char>)
    requires
        0 <= i < pools.len(),
        distinct_names(pools),
    ensures
        pool_named(pools, name) == if pools[i].0 == name {
            Some(pools[i].1)
        } else {
            pool_named(pools.remove(i), name)
        },
        distinct_names(pools.remove(i)),
    decreases pools.len(),
{
    let rest = pools.remove(i);
    assert forall|x: int, y: int| 0 <= x < y < rest.len() implies (#[trigger] rest[x]).0 != (
    #[trigger] rest[y]).0 by {
        assert(rest[x] == pools[if x < i { x } else { x + 1 }]);
        assert(rest[y] == pools[if y < i { y } else { y + 1 }]);
    }
    if i == pools.len() - 1 {
        assert(rest =~= pools.drop_last());
    } else {
        let init = pools.drop_last();
        assert forall|x: int, y: int| 0 <= x < y < init.len() implies (#[trigger] init[x]).0 != (
        #[trigger] init[y]).0 by {
            assert(init[x] == pools[x] && init[y] == pools[y]);
        }
        lemma_named_without(init, i, name);
        assert(rest.drop_last() =~= init.remove(i));
        assert(rest.last() == pools.last());
        assert(pools[i].0 != pools[pools.len() - 1].0);
    }
}

/// Two orders of the same pools count for the same.
proof fn lemma_same_counts(
    a: Seq<PoolEntry>,
    b: Seq<PoolEntry>,
    target: Seq<char>,
    now: u64,
    with_target: bool,
    level: nat,
    name: Seq<char>,
)
    requires
        distinct_names(a),
        a.to_multiset() == b.to_multiset(),
    ensures
        ({
            let x = claims(a, target, now, with_target);
            let y = claims(b, target, now, with_target);
            &&& x.len() == y.len()
            &&& filled(x, level) == filled(y, level)
            &&& above(x, level) == above(y, level)
            &&& rank(x, level, name) == rank(y, level, name)
        }),
        occupied(a, target, now, with_target) == occupied(b, target, now, with_target),
        pool_named(a, name) == pool_named(b, name),
    decreases b.len(),
{
    broadcast use vstd::seq_lib::group_to_multiset_ensures;

    assert(a.len() == b.len()) by {
        assert(a.to_multiset().len() == a.len());
        assert(b.to_multiset().len() == b.len());
    }
    if b.len() > 0 {
        let last = b.len() - 1;
        assert(b.to_multiset().count(b[last]) > 0);
        let i = choose|i: int| 0 <= i < a.len() && a[i] == b[last];
        assert(b.remove(last) =~= b.drop_last());
        assert(a.remove(i).to_multiset() =~= b.drop_last().to_multiset());
        lemma_named_without(a, i, name);
        lemma_without(a, i, target, now, with_target, level, name);
        lemma_without(b, last, target, now, with_target, level, name);
        lemma_same_counts(a.remove(i), b.drop_last(), target, now, with_target, level, name);
    }
}

/// The order in which a device lists its pools is irrelevant: what a pool gets
/// depends on the pools alone.
pub proof fn law_order_of_pools_is_irrelevant(
    a: Seq<PoolEntry>,
    b: Seq<PoolEntry>,
    target: Seq<char>,
    device_limit: u32,
    now: u64,
    with_target: bool,
)
    requires
        distinct_names(a),
        a.to_multiset() == b.to_multiset(),
    ensures
        fair_limit(a, target, device_limit, now, with_target) == fair_limit(
            b,
            target,
            device_limit,
            now,
            with_target,
        ),
{
    let x = claims(a, target, now, with_target);
    let y = claims(b, target, now, with_target);
    let remaining = remaining_for(a, target, device_limit, now, with_target);
    let level = level_of(x, remaining);
    lemma_level_exists(x, remaining);
    lemma_same_counts(a, b, target, now, with_target, level, target);
    lemma_same_counts(a, b, target, now, with_target, level + 1, target);
    assert(is_level(y, remaining, level));
    if let Some(pool) = pool_named(b, target) {
        if x.len() > 0 && (recently_blocked(pool, now) || with_target) {
            let claim = (target, pool.ceiling);
            lemma_claim_present(b, target, now, with_target);
            let i = choose|i: int| 0 <= i < y.len() && y[i] == claim;
            lemma_share_at_level(y, remaining, level, i);
        }
    }
}

/// A caller of the pool was blocked within the last thirty seconds.
pub open spec fn waits(pool: DevicePoolState, now: u64) -> bool {
    pool.last_demand matches Some(demand) && now <= demand + 30_000_000_000
}

/// A pool competes exactly if one of its callers was blocked within the last
/// thirty seconds, or if it is the one that asks.
pub proof fn law_demand_counts_for_thirty_seconds(
    pool: PoolEntry,
    target: Seq<char>,
    now: u64,
    with_target: bool,
)
    ensures
        competes(pool, target, now, with_target) <==> waits(pool.1, now) || (with_target && pool.0
            == target),
{
}

/// What the waiting pools of `part` get together when each asks for itself.
pub open spec fn limits_of_waiting(
    pools: Seq<PoolEntry>,
    part: Seq<PoolEntry>,
    device_limit: u32,
    now: u64,
) -> nat
    decreases part.len(),
{
    if part.len() == 0 {
        0
    } else {
        limits_of_waiting(pools, part.drop_last(), device_limit, now) + if waits(
            part.last().1,
            now,
        ) {
            fair_limit(pools, part.last().0, device_limit, now, true)
        } else {
            0
        }
    }
}

/// What the waiting pools could use at most.
pub open spec fn ceilings_of_waiting(pools: Seq<PoolEntry>, now: u64) -> nat
    decreases pools.len(),
{
    if pools.len() == 0 {
        0
    } else {
        ceilings_of_waiting(pools.drop_last(), now) + if waits(pools.last().1, now) {
            pools.last().1.ceiling as nat
        } else {
            0
        }
    }
}

/// The active leases of the pools that do not wait.
pub open spec fn active_of_others(pools: Seq<PoolEntry>, now: u64) -> nat
    decreases pools.len(),
{
    if pools.len() == 0 {
        0
    } else {
        active_of_others(pools.drop_last(), now) + if waits(pools.last().1, now) {
            0
        } else {
            pools.last().1.active as nat
        }
    }
}

/// A waiting target competes with the same pools, whoever of them asks.
proof fn lemma_waiting_claims(
    pools: Seq<PoolEntry>,
    target: Seq<char>,
    now: u64,
    with_target: bool,
)
    requires
        forall|i: int|
            0 <= i < pools.len() && (#[trigger] pools[i]).0 == target && with_target ==> waits(
                pools[i].1,
                now,
            ),
    ensures
        claims(pools, target, now, with_target) == claims(pools, Seq::empty(), now, false),
        occupied(pools, target, now, with_target) == active_of_others(pools, now),
        total_ceiling(claims(pools, target, now, with_target)) == ceilings_of_waiting(pools, now),
    decreases pools.len(),
{
    if pools.len() > 0 {
        let init = pools.drop_last();
        assert forall|i: int|
            0 <= i < init.len() && (#[trigger] init[i]).0 == target && with_target implies waits(
            init[i].1,
            now,
        ) by {
            assert(init[i] == pools[i]);
        }
        lemma_waiting_claims(init, target, now, with_target);
        assert(pools[pools.len() - 1] == pools.last());
        let list = claims(init, target, now, with_target);
        let claim = (pools.last().0, pools.last().1.ceiling);
        assert(list.push(claim).drop_last() =~= list);
    }
}

/// Every entry is what its list says of its name.
proof fn lemma_entry_named(pools: Seq<PoolEntry>, i: int)
    requires
        distinct_names(pools),
        0 <= i < pools.len(),
    ensures
        pool_named(pools, pools[i].0) == Some(pools[i].1),
    decreases pools.len(),
{
    if i < pools.len() - 1 {
        let init = pools.drop_last();
        assert forall|a: int, b: int| 0 <= a < b < init.len() implies (#[trigger] init[a]).0 != (
        #[trigger] init[b]).0 by {
            assert(init[a] == pools[a] && init[b] == pools[b]);
        }
        lemma_entry_named(init, i);
        assert(pools[pools.len() - 1].0 != pools[i].0);
    }
}

/// What a waiting pool gets when it asks is its share among the waiting ones.
proof fn lemma_waiting_limit(pools: Seq<PoolEntry>, i: int, device_limit: u32, now: u64)
    requires
        distinct_names(pools),
        0 <= i < pools.len(),
        waits(pools[i].1, now),
    ensures
        ({
            let list = claims(pools, Seq::empty(), now, false);
            let taken = active_of_others(pools, now);
            let remaining = if taken >= device_limit {
                0
            } else {
                (device_limit - taken) as nat
            };
            let claim = (pools[i].0, pools[i].1.ceiling);
            &&& list.contains(claim)
            &&& fair_limit(pools, pools[i].0, device_limit, now, true) == share(
                list,
                remaining,
                claim,
            )
            &&& fair_limit(pools, pools[i].0, device_limit, now, false) == share(
                list,
                remaining,
                claim,
            )
        }),
{
    let target = pools[i].0;
    lemma_entry_named(pools, i);
    assert forall|j: int| 0 <= j < pools.len() && (#[trigger] pools[j]).0 == target implies waits(
        pools[j].1,
        now,
    ) by {
        if j < i {
            assert(pools[j].0 != pools[i].0);
        } else if i < j {
            assert(pools[i].0 != pools[j].0);
        }
    }
    lemma_waiting_claims(pools, target, now, true);
    lemma_waiting_claims(pools, target, now, false);
    lemma_claim_present(pools, target, now, true);
}

proof fn lemma_waiting_limits(
    pools: Seq<PoolEntry>,
    n: int,
    device_limit: u32,
    now: u64,
    remaining: nat,
)
    requires
        distinct_names(pools),
        0 <= n <= pools.len(),
        remaining == if active_of_others(pools, now) >= device_limit {
            0
        } else {
            (device_limit - active_of_others(pools, now)) as nat
        },
    ensures
        limits_of_waiting(pools, pools.take(n), device_limit, now) == total_share(
            claims(pools, Seq::empty(), now, false),
            remaining,
            claims(pools.take(n), Seq::empty(), now, false),
        ),
    decreases n,
{
    if n > 0 {
        lemma_waiting_limits(pools, n - 1, device_limit, now, remaining);
        assert(pools.take(n).drop_last() =~= pools.take(n - 1));
        assert(pools.take(n).last() == pools[n - 1]);
        if waits(pools[n - 1].1, now) {
            lemma_waiting_limit(pools, n - 1, device_limit, now);
            let init = claims(pools.take(n - 1), Seq::empty(), now, false);
            let claim = (pools[n - 1].0, pools[n - 1].1.ceiling);
            assert(init.push(claim).drop_last() =~= init);
        }
    }
}

/// The device is handed out once and used up: what the waiting pools get, when
/// each asks for itself, adds up to what the others leave of the device's limit,
/// or to what the waiting pools can use at most.
pub proof fn law_waiting_pools_share_the_device(
    pools: Seq<PoolEntry>,
    device_limit: u32,
    now: u64,
)
    requires
        distinct_names(pools),
    ensures
        ({
            let given = limits_of_waiting(pools, pools, device_limit, now);
            let left = device_limit - active_of_others(pools, now);
            let wanted = ceilings_of_waiting(pools, now);
            &&& given <= wanted
            &&& left >= 0 ==> given <= left
            &&& left < 0 ==> given == 0
            &&& 0 <= left <= wanted ==> given == left
            &&& wanted <= left ==> given == wanted
        }),
{
    let list = claims(pools, Seq::empty(), now, false);
    let taken = active_of_others(pools, now);
    let remaining = if taken >= device_limit {
        0
    } else {
        (device_limit - taken) as nat
    };
    assert(pools.take(pools.len() as int) =~= pools);
    lemma_waiting_limits(pools, pools.len() as int, device_limit, now, remaining);
    lemma_waiting_claims(pools, Seq::empty(), now, false);
    lemma_claims_of(pools, Seq::empty(), now, false);
    law_shares_use_what_there_is(list, remaining);
}

/// Names are ranked in their order.
proof fn lemma_rank_grows(list: Seq<Claim>, level: nat, a: Seq<char>, b: Seq<char>, i: int)
    requires
        crate::text::precedes(a, b),
    ensures
        rank(list, level, a) <= rank(list, level, b),
        0 <= i < list.len() && list[i].0 == a && list[i].1 > level ==> rank(list, level, a) < rank(
            list,
            level,
            b,
        ),
    decreases list.len(),
{
    if list.len() > 0 {
        lemma_rank_grows(list.drop_last(), level, a, b, i);
        crate::text::lemma_precedes_irreflexive(a);
        if crate::text::precedes(list.last().0, a) {
            crate::text::lemma_precedes_transitive(list.last().0, a, b);
        }
    }
}

/// Waiting pools are treated evenly: one that gets less than it can use gets at
/// most one less than any other, and no less than one whose name comes later.
pub proof fn law_waiting_pools_are_treated_evenly(
    pools: Seq<PoolEntry>,
    i: int,
    j: int,
    device_limit: u32,
    now: u64,
)
    requires
        distinct_names(pools),
        0 <= i < pools.len(),
        0 <= j < pools.len(),
        waits(pools[i].1, now),
        waits(pools[j].1, now),
        fair_limit(pools, pools[i].0, device_limit, now, true) < pools[i].1.ceiling,
    ensures
        fair_limit(pools, pools[j].0, device_limit, now, true) <= fair_limit(
            pools,
            pools[i].0,
            device_limit,
            now,
            true,
        ) + 1,
        crate::text::precedes(pools[i].0, pools[j].0) ==> fair_limit(
            pools,
            pools[j].0,
            device_limit,
            now,
            true,
        ) <= fair_limit(pools, pools[i].0, device_limit, now, true),
{
    lemma_waiting_limit(pools, i, device_limit, now);
    lemma_waiting_limit(pools, j, device_limit, now);
    let list = claims(pools, Seq::empty(), now, false);
    let taken = active_of_others(pools, now);
    let remaining = if taken >= device_limit {
        0
    } else {
        (device_limit - taken) as nat
    };
    let a = (pools[i].0, pools[i].1.ceiling);
    let b = (pools[j].0, pools[j].1.ceiling);
    law_shares_are_even(list, remaining, a, b);
    if crate::text::precedes(a.0, b.0) {
        lemma_rank_grows(list, level_of(list, remaining), a.0, b.0, 0);
    }
}

/// The pools, one of which was blocked just now.
pub open spec fn with_demand_now(
    pools: Seq<PoolEntry>,
    target: Seq<char>,
    now: u64,
) -> Seq<PoolEntry> {
    pools.map_values(
        |e: PoolEntry|
            if e.0 == target {
                (e.0, DevicePoolState { last_demand: Some(now), ..e.1 })
            } else {
                e
            },
    )
}

proof fn lemma_asking_claims(pools: Seq<PoolEntry>, target: Seq<char>, now: u64)
    ensures
        claims(with_demand_now(pools, target, now), target, now, true) == claims(
            pools,
            target,
            now,
            true,
        ),
        occupied(with_demand_now(pools, target, now), target, now, true) == occupied(
            pools,
            target,
            now,
            true,
        ),
        match (pool_named(with_demand_now(pools, target, now), target), pool_named(pools, target)) {
            (Some(a), Some(b)) => a.ceiling == b.ceiling,
            (None, None) => true,
            _ => false,
        },
    decreases pools.len(),
{
    if pools.len() > 0 {
        lemma_asking_claims(pools.drop_last(), target, now);
        let all = with_demand_now(pools, target, now);
        assert(all.drop_last() =~= with_demand_now(pools.drop_last(), target, now));
    }
}

/// Who asks for itself is treated as if it had been blocked just now.
pub proof fn law_asking_counts_as_demand(
    pools: Seq<PoolEntry>,
    target: Seq<char>,
    device_limit: u32,
    now: u64,
)
    ensures
        fair_limit(pools, target, device_limit, now, true) == fair_limit(
            with_demand_now(pools, target, now),
            target,
            device_limit,
            now,
            true,
        ),
{
    lemma_asking_claims(pools, target, now);
}

/// Nobody competes where nobody waits.
proof fn lemma_nobody_waits(pools: Seq<PoolEntry>, target: Seq<char>, now: u64)
    ensures
        claims(pools, target, now, false).len() == 0 <==> (forall|i: int|
            0 <= i < pools.len() ==> !waits((#[trigger] pools[i]).1, now)),
    decreases pools.len(),
{
    if pools.len() > 0 {
        let init = pools.drop_last();
        lemma_nobody_waits(init, target, now);
        assert(pools[pools.len() - 1] == pools.last());
        if claims(init, target, now, false).len() == 0 {
            assert forall|i: int| 0 <= i < init.len() implies !waits(
                (#[trigger] pools[i]).1,
                now,
            ) by {
                assert(init[i] == pools[i]);
            }
        } else {
            let i = choose|i: int| 0 <= i < init.len() && waits((#[trigger] init[i]).1, now);
            assert(pools[i] == init[i]);
        }
    }
}

/// Without asking, a pool has the whole device up to its ceiling where nobody
/// waits, what it would get by asking where it waits itself, and nothing where
/// only others wait.
pub proof fn law_limit_without_asking(
    pools: Seq<PoolEntry>,
    i: int,
    device_limit: u32,
    now: u64,
)
    requires
        distinct_names(pools),
        0 <= i < pools.len(),
    ensures
        ({
            let limit = fair_limit(pools, pools[i].0, device_limit, now, false);
            &&& waits(pools[i].1, now) ==> limit == fair_limit(
                pools,
                pools[i].0,
                device_limit,
                now,
                true,
            )
            &&& (exists|j: int| 0 <= j < pools.len() && waits((#[trigger] pools[j]).1, now))
                && !waits(pools[i].1, now) ==> limit == 0
            &&& (forall|j: int| 0 <= j < pools.len() ==> !waits((#[trigger] pools[j]).1, now)) ==> (
            if pools[i].1.ceiling <= device_limit {
                limit == pools[i].1.ceiling
            } else {
                limit == device_limit
            })
        }),
{
    lemma_entry_named(pools, i);
    lemma_nobody_waits(pools, pools[i].0, now);
    if waits(pools[i].1, now) {
        lemma_waiting_limit(pools, i, device_limit, now);
    }
}

/// A pool that the device does not list has the whole device where nobody
/// waits, and nothing else.
pub proof fn law_unlisted_pool_is_last(
    pools: Seq<PoolEntry>,
    target: Seq<char>,
    device_limit: u32,
    now: u64,
)
    requires
        pool_named(pools, target) is None,
    ensures
        (forall|j: int| 0 <= j < pools.len() ==> !waits((#[trigger] pools[j]).1, now))
            ==> fair_limit(pools, target, device_limit, now, false) == device_limit,
        (exists|j: int| 0 <= j < pools.len() && waits((#[trigger] pools[j]).1, now)) ==> fair_limit(
            pools,
            target,
            device_limit,
            now,
            false,
        ) == 0,
{
    lemma_nobody_waits(pools, target, now);
}

/// A pool that nobody competes with gets what the others leave of the device, up
/// to its ceiling.
pub proof fn law_lone_pool_gets_the_rest(
    pools: Seq<PoolEntry>,
    i: int,
    device_limit: u32,
    now: u64,
)
    requires
        distinct_names(pools),
        0 <= i < pools.len(),
        waits(pools[i].1, now),
        forall|j: int| 0 <= j < pools.len() && j != i ==> !waits((#[trigger] pools[j]).1, now),
    ensures
        ({
            let limit = fair_limit(pools, pools[i].0, device_limit, now, true);
            let left = device_limit - active_of_others(pools, now);
            &&& left < 0 ==> limit == 0
            &&& 0 <= left <= pools[i].1.ceiling ==> limit == left
            &&& pools[i].1.ceiling <= left ==> limit == pools[i].1.ceiling
        }),
{
    law_waiting_pools_share_the_device(pools, device_limit, now);
    assert(pools.take(pools.len() as int) =~= pools);
    lemma_lone_sums(pools, pools, i, device_limit, now);
}

proof fn lemma_lone_sums(
    pools: Seq<PoolEntry>,
    part: Seq<PoolEntry>,
    i: int,
    device_limit: u32,
    now: u64,
)
    requires
        0 <= i < part.len() ==> waits(part[i].1, now),
        forall|j: int| 0 <= j < part.len() && j != i ==> !waits((#[trigger] part[j]).1, now),
    ensures
        limits_of_waiting(pools, part, device_limit, now) == if 0 <= i < part.len() {
            fair_limit(pools, part[i].0, device_limit, now, true)
        } else {
            0
        },
        ceilings_of_waiting(part, now) == if 0 <= i < part.len() {
            part[i].1.ceiling as nat
        } else {
            0
        },
    decreases part.len(),
{
    if part.len() > 0 {
        let init = part.drop_last();
        assert forall|j: int| 0 <= j < init.len() && j != i implies !waits(
            (#[trigger] init[j]).1,
            now,
        ) by {
            assert(init[j] == part[j]);
        }
        lemma_lone_sums(pools, init, i, device_limit, now);
        assert(part[part.len() - 1] == part.last());
    }
}

} // verus!
