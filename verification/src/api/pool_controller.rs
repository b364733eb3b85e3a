//! Background reconciliation for automatic held-fork worker pools.
use vstd::prelude::*;
use crate::api::error::quoted;
use crate::pool::ForkPoolSlotState;
use crate::text::same;

verus! {

/// Most workers that one fill of a pool provisions.
pub const MAX_PROVISIONS_PER_POOL_TICK: usize = 4;

/// What is known of a worker's machine.
#[derive(Debug, Clone)]
pub struct WorkerFacts {
    /// It is parked at its inherited forkpoint.
    pub forkpoint_held: bool,
    /// Machine that it was forked from.
    pub golden: Option<String>,
    /// Its process is alive.
    pub alive: bool,
}

/// A worker is clean: it exists, is held, comes from the pool's golden and is
/// alive.
pub open spec fn is_clean(found: Option<WorkerFacts>, golden: Seq<char>) -> bool {
    match found {
        Some(facts) => facts.forkpoint_held && facts.alive && (match facts.golden {
            Some(origin) => origin@ == golden,
            None => false,
        }),
        None => false,
    }
}

/// Whether a worker is clean.
pub fn worker_is_clean(found: &Option<WorkerFacts>, golden: &str) -> (r: bool)
    ensures
        r == is_clean(*found, golden@),
{
    match found {
        Some(facts) => {
            let from_golden = match &facts.golden {
                Some(origin) => same(origin.as_str(), golden),
                None => false,
            };
            facts.forkpoint_held && from_golden && facts.alive
        },
        None => false,
    }
}

/// What to do with a slot.
#[derive(Debug)]
pub enum SlotAction {
    /// Nothing.
    Keep,
    /// Offer the worker for leases.
    MarkReady,
    /// Delete and replace the worker, for the given reason.
    Retire(String),
}

/// Model of what to do with a slot.
pub enum SlotFate {
    Keep,
    MarkReady,
    Retire(Seq<char>),
}

impl View for SlotAction {
    type V = SlotFate;

    open spec fn view(&self) -> SlotFate {
        match *self {
            SlotAction::Keep => SlotFate::Keep,
            SlotAction::MarkReady => SlotFate::MarkReady,
            SlotAction::Retire(reason) => SlotFate::Retire(reason@),
        }
    }
}

/// What becomes of a slot when the controller restarts.
pub open spec fn recovery(
    state: ForkPoolSlotState,
    found: Option<WorkerFacts>,
    golden: Seq<char>,
) -> SlotFate {
    if state != ForkPoolSlotState::Provisioning {
        SlotFate::Keep
    } else if is_clean(found, golden) {
        SlotFate::MarkReady
    } else {
        SlotFate::Retire("controller restarted during worker provisioning"@)
    }
}

/// What becomes of a slot in regular reconciliation.
pub open spec fn upkeep(
    state: ForkPoolSlotState,
    found: Option<WorkerFacts>,
    golden: Seq<char>,
) -> SlotFate {
    if state == ForkPoolSlotState::Ready && !is_clean(found, golden) {
        SlotFate::Retire("ready worker is missing, dead, or no longer held"@)
    } else {
        SlotFate::Keep
    }
}

/// The slot after a restart of the controller.
///
/// A provisioning row can only have an in-flight creator in this process. On
/// startup every such row is therefore crash residue: a fully booted held worker
/// is recovered, anything else retired before new capacity is admitted.
pub fn recover_interrupted_provisioning(
    state: ForkPoolSlotState,
    found: &Option<WorkerFacts>,
    golden: &str,
) -> (r: SlotAction)
    ensures
        r@ == recovery(state, *found, golden@),
{
    match state {
        ForkPoolSlotState::Provisioning => if worker_is_clean(found, golden) {
            SlotAction::MarkReady
        } else {
            SlotAction::Retire("controller restarted during worker provisioning".to_owned())
        },
        _ => SlotAction::Keep,
    }
}

/// The slot in regular reconciliation: a ready worker that is no longer clean is
/// retired.
pub fn retire_invalid_ready_worker(
    state: ForkPoolSlotState,
    found: &Option<WorkerFacts>,
    golden: &str,
) -> (r: SlotAction)
    ensures
        r@ == upkeep(state, *found, golden@),
{
    match state {
        ForkPoolSlotState::Ready => if worker_is_clean(found, golden) {
            SlotAction::Keep
        } else {
            SlotAction::Retire("ready worker is missing, dead, or no longer held".to_owned())
        },
        _ => SlotAction::Keep,
    }
}

/// Why an active lease fails, by whether its worker exists and is alive.
pub fn retire_dead_leased_worker(alive: Option<bool>) -> (r: Option<String>)
    ensures
        match r {
            Some(reason) => alive != Some(true) && reason@ == "leased worker process exited"@,
            None => alive == Some(true),
        },
{
    match alive {
        Some(true) => None,
        _ => Some("leased worker process exited".to_owned()),
    }
}

/// What came of deleting a retired worker's machine.
#[derive(Debug, Clone, Copy, PartialEq, Eq, Structural)]
pub enum DeleteOutcome {
    /// It was deleted.
    Deleted,
    /// There was none.
    NotFound,
    /// It could not be deleted.
    Failed,
}

/// Whether a retired worker's slot is given up: its machine must be gone.
pub fn slot_is_free(outcome: DeleteOutcome) -> (r: bool)
    ensures
        r == !(outcome is Failed),
{
    match outcome {
        DeleteOutcome::Failed => false,
        _ => true,
    }
}

/// Pools whose fill is under way.
#[derive(Debug)]
pub struct Filling {
    /// Names of the pools.
    pub names: Vec<String>,
}

/// The name stands in the list.
pub open spec fn listed(names: Seq<String>, name: Seq<char>) -> bool
    decreases names.len(),
{
    names.len() > 0 && (names.last()@ == name || listed(names.drop_last(), name))
}

impl Filling {
    /// The pool's fill is under way.
    pub open spec fn has(&self, name: Seq<char>) -> bool {
        listed(self.names@, name)
    }

    /// No fill is under way.
    pub fn new() -> (r: Self)
        ensures
            forall|name: Seq<char>| !(#[trigger] r.has(name)),
    {
        Filling { names: Vec::new() }
    }

    /// Whether the pool's fill is under way.
    pub fn contains(&self, name: &str) -> (r: bool)
        ensures
            r == self.has(name@),
    {
        let mut i: usize = self.names.len();
        assert(self.names@.take(self.names@.len() as int) =~= self.names@);
        while i > 0
            invariant
                i <= self.names@.len(),
                self.has(name@) == listed(self.names@.take(i as int), name@),
            decreases i,
        {
            assert(self.names@.take(i as int).drop_last() =~= self.names@.take(i - 1));
            i -= 1;
            if same(self.names[i].as_str(), name) {
                return true;
            }
        }
        false
    }

    /// Starts the fill of a pool that lacks workers, unless the pool is being
    /// deleted or its fill is under way. Returns whether the fill starts.
    pub fn start(&mut self, name: &str, deleting: bool, deficit: usize) -> (r: bool)
        ensures
            r == (!deleting && !old(self).has(name@) && deficit > 0),
            forall|other: Seq<char>| #[trigger]
                final(self).has(other) == (old(self).has(other) || (r && other == name@)),
    {
        if deleting || self.contains(name) || deficit == 0 {
            return false;
        }
        let ghost before = self.names@;
        self.names.push(name.to_owned());
        assert(self.names@.drop_last() =~= before);
        true
    }

    /// Ends the fill of a pool.
    pub fn finish(&mut self, name: &str)
        ensures
            forall|other: Seq<char>| #[trigger]
                final(self).has(other) == (old(self).has(other) && other != name@),
    {
        let mut kept: Vec<String> = Vec::new();
        let n: usize = self.names.len();
        assert(self.names@.take(0) =~= Seq::empty());
        for i in 0..n
            invariant
                n == self.names@.len(),
                self.names@ == old(self).names@,
                forall|other: Seq<char>| #[trigger]
                    listed(kept@, other) == (listed(self.names@.take(i as int), other) && other
                        != name@),
        {
            let ghost before = kept@;
            assert(self.names@.take(i + 1).drop_last() =~= self.names@.take(i as int));
            if !same(self.names[i].as_str(), name) {
                kept.push(self.names[i].clone());
                assert(kept@.drop_last() =~= before);
            }
            assert forall|other: Seq<char>| #[trigger]
                listed(kept@, other) == (listed(self.names@.take(i + 1), other) && other
                    != name@) by {
                assert(listed(before, other) == (listed(self.names@.take(i as int), other) && other
                    != name@));
            }
        }
        assert(self.names@.take(n as int) =~= self.names@);
        self.names = kept;
    }

    /// Allows every pool to be filled again: which fill ended is unknown. Slot
    /// reservations still prevent overfill.
    pub fn reset(&mut self)
        ensures
            forall|name: Seq<char>| !(#[trigger] final(self).has(name)),
    {
        self.names = Vec::new();
    }
}

/// All characters are ASCII.
pub open spec fn is_ascii_text(s: Seq<char>) -> bool {
    forall|i: int| 0 <= i < s.len() ==> (#[trigger] s[i]) as int <= 127
}

/// Name of a pool's worker: the pool's name, cut so that the whole stays within
/// `max_len`, and a random suffix.
pub open spec fn worker_name(pool: Seq<char>, suffix: Seq<char>, max_len: nat) -> Seq<char> {
    let room = max_len - 6 - suffix.len();
    "pool-"@ + (if pool.len() <= room {
        pool
    } else {
        pool.take(room)
    }) + "-"@ + suffix
}

/// Name of a pool's worker. Both names are ASCII, so a character is a byte; the
/// suffix must leave room for the fixed parts.
pub fn worker_machine_name(pool: &str, suffix: &str, max_len: usize) -> (r: String)
    requires
        is_ascii_text(pool@),
        is_ascii_text(suffix@),
        6 + suffix@.len() <= max_len,
    ensures
        r@ == worker_name(pool@, suffix@, max_len as nat),
{
    let pool_len: usize = pool.unicode_len();
    let room: usize = max_len - 6 - suffix.unicode_len();
    let prefix = if pool_len <= room {
        pool
    } else {
        pool.substring_char(0, room)
    };
    assert(prefix@ =~= if pool@.len() <= room {
        pool@
    } else {
        pool@.take(room as int)
    });
    let mut name = quoted("pool-", prefix, "-");
    name.append(suffix);
    name
}

/// One fill of a pool: the workers whose slots it reserved.
#[derive(Debug)]
pub struct FillRun {
    /// Machines of the reserved slots.
    pub machines: Vec<String>,
}

/// Answer to a reservation.
#[derive(Debug, Clone, Copy, PartialEq, Eq, Structural)]
pub enum ReserveReply {
    /// The slot is reserved.
    Reserved,
    /// The pool needs no more workers.
    Refused,
    /// The reservation failed.
    Failed,
}

/// What a fill does next.
#[derive(Debug, Clone, Copy, PartialEq, Eq, Structural)]
pub enum FillStep {
    /// Reserve another slot.
    Reserve,
    /// Fork the reserved machines.
    Fork,
    /// Nothing was reserved: the fill ends.
    End,
}

/// What a fill does after an answer, with so many slots reserved including the
/// answered one.
pub open spec fn fill_step(reserved: nat, reply: ReserveReply) -> FillStep {
    if reply is Reserved && reserved < MAX_PROVISIONS_PER_POOL_TICK {
        FillStep::Reserve
    } else if reserved > 0 {
        FillStep::Fork
    } else {
        FillStep::End
    }
}

impl FillRun {
    /// A fill that has reserved nothing yet.
    pub fn new() -> (r: Self)
        ensures
            r.machines@.len() == 0,
    {
        FillRun { machines: Vec::new() }
    }

    /// Takes the answer to the reservation of `machine`. Each fill is bounded so
    /// that a large cold fill cannot starve expiry and cleanup for every other
    /// pool; its slots are reserved first so that all its workers can share one
    /// golden checkpoint.
    pub fn reserved(&mut self, machine: String, reply: ReserveReply) -> (r: FillStep)
        ensures
            final(self).machines@ == (if reply is Reserved {
                old(self).machines@.push(machine)
            } else {
                old(self).machines@
            }),
            r == fill_step(final(self).machines@.len(), reply),
    {
        match reply {
            ReserveReply::Reserved => {
                self.machines.push(machine);
                if self.machines.len() < MAX_PROVISIONS_PER_POOL_TICK {
                    FillStep::Reserve
                } else {
                    FillStep::Fork
                }
            },
            _ => if self.machines.len() > 0 {
                FillStep::Fork
            } else {
                FillStep::End
            },
        }
    }
}

/// What follows the fork of a worker.
#[derive(Debug)]
pub enum ProvisionStep {
    /// Mark its slot ready.
    MarkReady,
    /// Retire it, for the given reason.
    Retire(String),
}

/// What follows the fork of a worker: whether it is held, or why it failed.
pub fn after_fork(outcome: Result<bool, String>) -> (r: ProvisionStep)
    ensures
        match outcome {
            Ok(held) => if held {
                r is MarkReady
            } else {
                r matches ProvisionStep::Retire(reason) && reason@
                    == "forked pool worker was not held"@
            },
            Err(why) => r matches ProvisionStep::Retire(reason) && reason@ == why@,
        },
{
    match outcome {
        Ok(held) => if held {
            ProvisionStep::MarkReady
        } else {
            ProvisionStep::Retire("forked pool worker was not held".to_owned())
        },
        Err(why) => ProvisionStep::Retire(why),
    }
}

/// The workers to retire, with the reason of each, where the fork of a whole
/// batch failed: all of them, for the reason of the batch.
pub fn after_batch(machines: Vec<String>, why: &str) -> (r: Vec<(String, String)>)
    ensures
        r@.len() == machines@.len(),
        forall|i: int|
            0 <= i < machines@.len() ==> (#[trigger] r@[i]).0 == machines@[i] && r@[i].1@ == why@,
{
    let mut retired: Vec<(String, String)> = Vec::new();
    for i in 0..machines.len()
        invariant
            retired@.len() == i,
            forall|j: int|
                0 <= j < i ==> (#[trigger] retired@[j]).0 == machines@[j] && retired@[j].1@ == why@,
    {
        retired.push((machines[i].clone(), why.to_owned()));
    }
    retired
}

/// Why a worker is retired after its slot was to be marked ready: the pool
/// changed meanwhile, or the marking failed. A marked worker stays.
pub fn after_mark_ready(marked: Result<bool, String>) -> (r: Option<String>)
    ensures
        match (marked, r) {
            (Ok(done), None) => done,
            (Ok(done), Some(reason)) => !done && reason@
                == "pool changed while worker was provisioning"@,
            (Err(why), Some(reason)) => reason@ == why@,
            (Err(_), None) => false,
        },
{
    match marked {
        Ok(done) => if done {
            None
        } else {
            Some("pool changed while worker was provisioning".to_owned())
        },
        Err(why) => Some(why),
    }
}

/// Only a clean worker is offered for leases, and a worker that was leased is
/// never offered again.
pub proof fn law_leased_workers_are_never_reused(
    state: ForkPoolSlotState,
    found: Option<WorkerFacts>,
    golden: Seq<char>,
)
    ensures
        recovery(state, found, golden) is MarkReady ==> state is Provisioning && is_clean(
            found,
            golden,
        ),
        !(upkeep(state, found, golden) is MarkReady),
{
}

/// Slots that a fill has reserved once it stops asking, or runs out of answers,
/// starting with `reserved`.
pub open spec fn reserved_by(reserved: nat, replies: Seq<ReserveReply>) -> nat
    decreases replies.len(),
{
    if replies.len() == 0 {
        reserved
    } else {
        let after = if replies[0] is Reserved {
            reserved + 1
        } else {
            reserved
        };
        if fill_step(after, replies[0]) is Reserve {
            reserved_by(after, replies.drop_first())
        } else {
            after
        }
    }
}

/// No fill reserves more slots than its bound, whatever the answers are.
pub proof fn law_fill_is_bounded(reserved: nat, replies: Seq<ReserveReply>)
    requires
        reserved < MAX_PROVISIONS_PER_POOL_TICK,
    ensures
        reserved_by(reserved, replies) <= MAX_PROVISIONS_PER_POOL_TICK,
    decreases replies.len(),
{
    if replies.len() > 0 {
        let after = if replies[0] is Reserved {
            reserved + 1
        } else {
            reserved
        };
        if fill_step(after, replies[0]) is Reserve {
            law_fill_is_bounded(after, replies.drop_first());
        }
    }
}

/// A worker's name never exceeds the longest machine name.
pub proof fn law_worker_name_fits(pool: Seq<char>, suffix: Seq<char>, max_len: nat)
    requires
        6 + suffix.len() <= max_len,
    ensures
        worker_name(pool, suffix, max_len).len() <= max_len,
{
    reveal_strlit("pool-");
    reveal_strlit("-");
}

/// Workers of one pool with different suffixes of one length have different
/// names.
pub proof fn law_worker_names_differ(
    pool: Seq<char>,
    a: Seq<char>,
    b: Seq<char>,
    max_len: nat,
)
    requires
        a.len() == b.len(),
        6 + a.len() <= max_len,
        worker_name(pool, a, max_len) == worker_name(pool, b, max_len),
    ensures
        a == b,
{
    let x = worker_name(pool, a, max_len);
    let y = worker_name(pool, b, max_len);
    let n = x.len() - a.len();
    assert(x.skip(n) =~= a);
    assert(y.skip(n) =~= b);
}

/// A worker is clean exactly if its machine exists, is held at its forkpoint,
/// runs, and was forked from the pool's own golden.
pub proof fn law_clean_workers(found: Option<WorkerFacts>, golden: Seq<char>)
    ensures
        is_clean(found, golden) <==> (found matches Some(facts) && facts.forkpoint_held
            && facts.alive && (facts.golden matches Some(origin) && origin@ == golden)),
{
}

/// A restart settles what was being provisioned, and touches nothing else: a
/// clean worker becomes ready, any other is retired.
pub proof fn law_restart_settles_provisioning(
    state: ForkPoolSlotState,
    found: Option<WorkerFacts>,
    golden: Seq<char>,
)
    ensures
        recovery(state, found, golden) is Keep <==> !(state is Provisioning),
        recovery(state, found, golden) is MarkReady <==> state is Provisioning && is_clean(
            found,
            golden,
        ),
        state is Provisioning && !is_clean(found, golden) ==> recovery(state, found, golden)
            == SlotFate::Retire("controller restarted during worker provisioning"@),
{
}

/// Upkeep retires exactly the ready workers that are not clean.
pub proof fn law_upkeep_retires_unclean_ready_workers(
    state: ForkPoolSlotState,
    found: Option<WorkerFacts>,
    golden: Seq<char>,
)
    ensures
        state is Ready && !is_clean(found, golden) ==> upkeep(state, found, golden)
            == SlotFate::Retire("ready worker is missing, dead, or no longer held"@),
        !(state is Ready && !is_clean(found, golden)) ==> upkeep(state, found, golden) is Keep,
{
}

/// A pool's fill is under way exactly if its name is in the list.
pub proof fn law_listed_means_present(names: Seq<String>, name: Seq<char>)
    ensures
        listed(names, name) <==> exists|i: int|
            0 <= i < names.len() && (#[trigger] names[i])@ == name,
    decreases names.len(),
{
    if names.len() > 0 {
        let init = names.drop_last();
        law_listed_means_present(init, name);
        assert(names[names.len() - 1] == names.last());
        if listed(init, name) {
            let i = choose|i: int| 0 <= i < init.len() && (#[trigger] init[i])@ == name;
            assert(names[i] == init[i]);
        }
        if exists|i: int| 0 <= i < names.len() && (#[trigger] names[i])@ == name {
            let i = choose|i: int| 0 <= i < names.len() && (#[trigger] names[i])@ == name;
            if i < init.len() {
                assert(init[i] == names[i]);
            }
        }
    }
}

/// A fill asks on while its slots are granted and it has fewer than four. It
/// forks what it got, and ends where it got nothing.
pub proof fn law_fill_asks_for_up_to_four(reserved: nat, reply: ReserveReply)
    ensures
        fill_step(reserved, reply) is Reserve <==> reply is Reserved && reserved < 4,
        fill_step(reserved, reply) is End <==> reserved == 0 && !(reply is Reserved),
        fill_step(reserved, reply) is Fork <==> reserved > 0 && (!(reply is Reserved) || reserved
            >= 4),
{
}

/// A fill that is granted everything stops at four slots; one that is refused has
/// what it was granted before.
pub proof fn law_fill_takes_what_is_granted(replies: Seq<ReserveReply>, reserved: nat, n: nat)
    requires
        n <= replies.len(),
        reserved < 4,
        forall|i: int| 0 <= i < n ==> (#[trigger] replies[i]) is Reserved,
        n < replies.len() ==> !(replies[n as int] is Reserved),
    ensures
        reserved + n <= 4 ==> reserved_by(reserved, replies) == reserved + n,
        reserved + n > 4 ==> reserved_by(reserved, replies) == 4,
    decreases replies.len(),
{
    if n > 0 {
        assert(replies[0] is Reserved);
        let rest = replies.drop_first();
        assert forall|i: int| 0 <= i < n - 1 implies (#[trigger] rest[i]) is Reserved by {
            assert(rest[i] == replies[i + 1]);
        }
        if n < replies.len() {
            assert(rest[n - 1] == replies[n as int]);
        }
        if reserved + 1 < 4 {
            law_fill_takes_what_is_granted(rest, reserved + 1, (n - 1) as nat);
        }
    }
}

/// A worker's name is made of as much of its pool's name as fits and of its whole
/// suffix.
pub proof fn law_worker_name_holds_pool_and_suffix(
    pool: Seq<char>,
    suffix: Seq<char>,
    max_len: nat,
)
    requires
        6 + suffix.len() <= max_len,
    ensures
        6 + pool.len() + suffix.len() <= max_len ==> worker_name(pool, suffix, max_len) == "pool-"@
            + pool + "-"@ + suffix,
        6 + pool.len() + suffix.len() > max_len ==> worker_name(pool, suffix, max_len).len()
            == max_len && exists|cut: Seq<char>|
            #[trigger] ("pool-"@ + cut + "-"@ + suffix) == worker_name(pool, suffix, max_len)
                && cut == pool.take(cut.len() as int) && cut.len() < pool.len(),
{
    reveal_strlit("pool-");
    reveal_strlit("-");
    let room = max_len - 6 - suffix.len();
    if pool.len() > room {
        let cut = pool.take(room);
        assert(cut =~= pool.take(cut.len() as int));
        assert("pool-"@ + cut + "-"@ + suffix == worker_name(pool, suffix, max_len));
    }
}

} // verus!
