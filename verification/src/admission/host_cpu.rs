//! Host CPU time from `/proc/stat`.
use vstd::prelude::*;
use crate::digits::parse_unsigned;
use crate::text::{same, split_once, split_whitespace};

verus! {

/// Samples aggregate host CPU busy time.
#[derive(Debug)]
pub struct HostCpuSampler {
    /// Total and idle time of the last sample.
    pub previous: Option<(u64, u64)>,
}

/// The words that spell a number, as numbers.
pub open spec fn numbers(fields: Seq<Seq<char>>) -> Seq<nat>
    decreases fields.len(),
{
    if fields.len() == 0 {
        Seq::empty()
    } else {
        let init = numbers(fields.drop_last());
        match crate::digits::unsigned_value(fields.last(), u64::MAX as nat) {
            Some(n) => init.push(n),
            None => init,
        }
    }
}

/// The time counters of the first line of `/proc/stat`. There are none where
/// the line is not the aggregate one or has fewer than four counters.
pub open spec fn cpu_times(stat: Seq<char>) -> Option<Seq<nat>> {
    let fields = crate::text::words(crate::text::first_line(stat));
    if fields.len() == 0 || fields[0] != "cpu"@ {
        None
    } else {
        let times = numbers(fields.drop_first());
        if times.len() < 4 {
            None
        } else {
            Some(times)
        }
    }
}

/// Sum of the counters.
pub open spec fn total_time(times: Seq<nat>) -> nat
    decreases times.len(),
{
    if times.len() == 0 {
        0
    } else {
        total_time(times.drop_last()) + times.last()
    }
}

/// Idle time: the idle counter and, where there is one, the I/O wait counter.
/// The sum saturates.
pub open spec fn idle_time(times: Seq<nat>) -> nat {
    let sum = times[3] + if times.len() > 4 {
        times[4]
    } else {
        0
    };
    if sum > u64::MAX {
        u64::MAX as nat
    } else {
        sum
    }
}

/// Busy and total time between two samples of total and idle time, where time
/// passed.
pub open spec fn busy_share(previous: Option<(u64, u64)>, total: nat, idle: nat) -> Option<
    (nat, nat),
> {
    match previous {
        None => None,
        Some((old_total, old_idle)) => {
            let delta_total = if total > old_total {
                (total - old_total) as nat
            } else {
                0
            };
            let delta_idle = if idle > old_idle {
                (idle - old_idle) as nat
            } else {
                0
            };
            if delta_total == 0 {
                None
            } else if delta_idle >= delta_total {
                Some((0, delta_total))
            } else {
                Some(((delta_total - delta_idle) as nat, delta_total))
            }
        },
    }
}

/// A counter never adds up to less than a part of the counters.
proof fn lemma_total_prefix(times: Seq<nat>, i: int)
    requires
        0 <= i <= times.len(),
    ensures
        total_time(times.take(i)) <= total_time(times),
    decreases times.len() - i,
{
    if i < times.len() {
        lemma_total_prefix(times, i + 1);
        assert(times.take(i + 1).drop_last() =~= times.take(i));
    } else {
        assert(times.take(i) =~= times);
    }
}

/// The counters of the first line of `/proc/stat`.
pub fn parse_cpu_times(stat: &str) -> (r: Option<Vec<u64>>)
    ensures
        match r {
            Some(times) => cpu_times(stat@) == Some(times@.map_values(|n: u64| n as nat)),
            None => cpu_times(stat@) is None,
        },
{
    let line = match split_once(stat, '\n') {
        Some((line, _)) => line,
        None => stat,
    };
    let fields = split_whitespace(line);
    let ghost f = crate::text::words(crate::text::first_line(stat@));
    if fields.len() == 0 {
        return None;
    }
    assert(f[0] == fields@[0]@);
    if !same(fields[0].as_str(), "cpu") {
        return None;
    }
    let mut times: Vec<u64> = Vec::new();
    let ghost rest = f.drop_first();
    assert(rest.take(0) =~= Seq::empty());
    assert(times@.map_values(|n: u64| n as nat) =~= Seq::<nat>::empty());
    for i in 1..fields.len()
        invariant
            f == crate::text::texts(fields@),
            rest == f.drop_first(),
            times@.map_values(|n: u64| n as nat) == numbers(rest.take(i - 1)),
    {
        let ghost before = times@.map_values(|n: u64| n as nat);
        assert(rest.take(i as int).drop_last() =~= rest.take(i - 1));
        assert(rest[i - 1] == fields@[i as int]@);
        if let Some(n) = parse_unsigned(fields[i].as_str(), u64::MAX) {
            times.push(n);
            assert(times@.map_values(|n: u64| n as nat) =~= before.push(n as nat));
        }
    }
    assert(rest.take(rest.len() as int) =~= rest);
    if times.len() < 4 {
        return None;
    }
    Some(times)
}

/// Sum of the counters, where it fits.
pub fn checked_total(times: &Vec<u64>) -> (r: Option<u64>)
    ensures
        ({
            let total = total_time(times@.map_values(|n: u64| n as nat));
            match r {
                Some(n) => n as nat == total,
                None => total > u64::MAX,
            }
        }),
{
    let ghost t = times@.map_values(|n: u64| n as nat);
    let mut total: u64 = 0;
    assert(t.take(0) =~= Seq::empty());
    for i in 0..times.len()
        invariant
            t == times@.map_values(|n: u64| n as nat),
            total as nat == total_time(t.take(i as int)),
    {
        assert(t.take(i + 1).drop_last() =~= t.take(i as int));
        match total.checked_add(times[i]) {
            Some(sum) => {
                total = sum;
            },
            None => {
                proof {
                    lemma_total_prefix(t, i + 1);
                }
                return None;
            },
        }
    }
    assert(t.take(t.len() as int) =~= t);
    Some(total)
}

impl Default for HostCpuSampler {
    fn default() -> (r: Self)
        ensures
            r.previous is None,
    {
        HostCpuSampler { previous: None }
    }
}

impl HostCpuSampler {
    /// Busy and total host CPU time since the previous call, from the text of
    /// `/proc/stat`. The sum of its counters must fit. Where the text has no
    /// counters, the sampler stays as it is.
    pub fn sample(&mut self, stat: &str) -> (r: Option<(u64, u64)>)
        requires
            cpu_times(stat@) matches Some(t) ==> total_time(t) <= u64::MAX,
        ensures
            match cpu_times(stat@) {
                Some(t) => {
                    &&& final(self).previous == Some((total_time(t) as u64, idle_time(t) as u64))
                    &&& match r {
                        Some((busy, total)) => busy_share(
                            old(self).previous,
                            total_time(t),
                            idle_time(t),
                        ) == Some((busy as nat, total as nat)),
                        None => busy_share(old(self).previous, total_time(t), idle_time(t)) is None,
                    }
                },
                None => *final(self) == *old(self) && r is None,
            },
    {
        let times = match parse_cpu_times(stat) {
            Some(times) => times,
            None => {
                return None;
            },
        };
        let total: u64 = match checked_total(&times) {
            Some(total) => total,
            None => {
                return None;
            },
        };
        let idle: u64 = if times.len() > 4 {
            times[3].saturating_add(times[4])
        } else {
            times[3]
        };
        let result = match self.previous {
            Some((old_total, old_idle)) => {
                let delta_total: u64 = total.saturating_sub(old_total);
                let delta_idle: u64 = idle.saturating_sub(old_idle);
                if delta_total > 0 {
                    Some((delta_total.saturating_sub(delta_idle), delta_total))
                } else {
                    None
                }
            },
            None => None,
        };
        self.previous = Some((total, idle));
        result
    }
}

/// Busy time never exceeds the time that passed, and some time passed.
pub proof fn law_busy_within_total(previous: Option<(u64, u64)>, total: nat, idle: nat)
    ensures
        busy_share(previous, total, idle) matches Some(share) ==> share.0 <= share.1 && share.1 > 0,
{
}

/// The first sample only sets the baseline.
pub proof fn law_first_sample_reports_nothing(total: nat, idle: nat)
    ensures
        busy_share(None, total, idle) is None,
{
}

/// Busy time is what passed without being idle. Where the idle counter did not
/// grow, all of it was busy; where no time passed, nothing is reported.
pub proof fn law_busy_is_what_was_not_idle(
    old_total: u64,
    old_idle: u64,
    passed: nat,
    idle: nat,
)
    ensures
        passed == 0 ==> busy_share(Some((old_total, old_idle)), (old_total + passed) as nat, (old_idle + idle) as nat)
            is None,
        passed > 0 && idle <= passed ==> busy_share(
            Some((old_total, old_idle)),
            (old_total + passed) as nat,
            (old_idle + idle) as nat,
        ) == Some(((passed - idle) as nat, passed)),
        passed > 0 && idle > passed ==> busy_share(
            Some((old_total, old_idle)),
            (old_total + passed) as nat,
            (old_idle + idle) as nat,
        ) == Some((0nat, passed)),
        passed > 0 && idle <= old_idle ==> busy_share(
            Some((old_total, old_idle)),
            (old_total + passed) as nat,
            idle,
        ) == Some((passed, passed)),
{
}

/// Total time is the sum of all counters; idle time that of the fourth and the
/// fifth, where there is a fifth. (Idle times that do not fit in 64 bits are left
/// out.)
pub proof fn law_which_counters_are_idle(times: Seq<nat>, n: nat)
    ensures
        total_time(Seq::empty()) == 0,
        total_time(times.push(n)) == total_time(times) + n,
        times.len() == 4 ==> (times[3] <= u64::MAX ==> idle_time(times) == times[3]),
        times.len() > 4 ==> (times[3] + times[4] <= u64::MAX ==> idle_time(times) == times[3]
            + times[4]),
{
    assert(times.push(n).drop_last() =~= times);
}

/// Only the first line of `/proc/stat` counts.
pub proof fn law_only_the_first_line_counts(line: Seq<char>, rest: Seq<char>)
    requires
        !line.contains('\n'),
    ensures
        cpu_times(line + seq!['\n'] + rest) == cpu_times(line),
{
    crate::text::law_splits_at_the_first(line, rest, '\n');
}

/// The counters are the numbers behind the word `cpu`, in their order; there must
/// be four.
pub proof fn law_counters_follow_the_label(fields: Seq<Seq<char>>, line: Seq<char>)
    requires
        !line.contains('\n'),
        crate::text::words(line) == fields,
    ensures
        cpu_times(line) matches Some(times) ==> {
            &&& fields.len() > 0 && fields[0] == "cpu"@
            &&& times == numbers(fields.skip(1))
            &&& times.len() >= 4
        },
        fields.len() > 0 && fields[0] == "cpu"@ && numbers(fields.skip(1)).len() >= 4 ==> cpu_times(
            line,
        ) is Some,
{
    crate::text::law_splits_at_the_first(line, Seq::empty(), '\n');
    if fields.len() > 0 {
        assert(fields.skip(1) =~= fields.drop_first());
    }
}

/// A further word is a counter exactly if it spells a number that fits in 64 bits.
pub proof fn law_words_that_are_counters(fields: Seq<Seq<char>>, n: nat, other: Seq<char>)
    requires
        n <= u64::MAX,
        crate::digits::unsigned_value(other, 0xffff_ffff_ffff_ffff) is None,
    ensures
        numbers(Seq::empty()) == Seq::<nat>::empty(),
        numbers(fields.push(crate::digits::decimal(n))) == numbers(fields).push(n),
        numbers(fields.push(other)) == numbers(fields),
{
    crate::digits::law_numeral_parses(n, u64::MAX as nat);
    assert(fields.push(crate::digits::decimal(n)).drop_last() =~= fields);
    assert(fields.push(other).drop_last() =~= fields);
}

} // verus!
