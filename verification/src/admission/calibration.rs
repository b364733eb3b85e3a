//! Calibration of the resident limit of one device.
//!
//! An observation happens in two steps. [`PoolAdmissionState::observe`] records
//! a telemetry sample and says whether the sample opens a new window and
//! whether the window is complete. The caller then averages the window's
//! samples and hands the outcome to [`PoolAdmissionState::conclude`], which
//! moves the limit.
use vstd::prelude::*;
use crate::admission::gpu::GpuSample;
use crate::digits::to_decimal;

verus! {

/// Shortest window that is judged, in nanoseconds.
pub const OBSERVATION_WINDOW: u64 = 8_000_000_000;

/// Fewest samples of a window that is judged.
pub const MIN_STABLE_SAMPLES: u32 = 5;

/// Time for which a blocked caller counts as demand, in nanoseconds.
pub const PRESSURE_TTL: u64 = 30_000_000_000;

/// Time after which a settled limit may be probed again, in nanoseconds.
pub const REPROBE_INTERVAL: u64 = 900_000_000_000;

/// What one window measured.
#[derive(Debug, Clone, Copy)]
pub struct Score<U> {
    /// Mean utilization of the device.
    pub gpu_utilization_percent: U,
    /// Leases completed per second, where any were.
    pub completion_rate: Option<U>,
}

/// A complete window that waits for its averages.
#[derive(Debug, Clone, Copy)]
pub struct Evaluation<U> {
    /// Time of the last sample.
    pub now: u64,
    /// Active leases throughout the window.
    pub active: u32,
    /// Leases completed up to the last sample.
    pub completed_total: u64,
    /// The last sample.
    pub gpu: GpuSample<U>,
    /// Number of samples in the window.
    pub samples: u32,
    /// Length of the window in nanoseconds.
    pub elapsed: u64,
    /// Leases completed within the window.
    pub completed: u64,
    /// Score of the limit that the window's limit is compared with.
    pub baseline: Option<Score<U>>,
}

/// The averages of a complete window.
#[derive(Debug)]
pub struct Judgement<U> {
    /// What the window measured.
    pub score: Score<U>,
    /// The host CPU stayed below saturation.
    pub cpu_safe: bool,
    /// The gain over the evaluation's baseline is below the marginal gain.
    pub below_marginal_gain: bool,
    /// Mean CPU percentage with one decimal.
    pub mean_cpu: String,
    /// Gain over the baseline in percent with one decimal.
    pub improvement: String,
}

/// What came of recording one observation.
#[derive(Debug)]
pub enum Observation<U> {
    /// Telemetry was lost or came back; the observation carries no sample.
    Unsampled,
    /// The sample was taken into the window.
    Sampled {
        /// It is the window's first sample.
        opens_window: bool,
        /// The complete window, where this sample completed it.
        evaluation: Option<Evaluation<U>>,
    },
}

/// Calibration state of one device.
#[derive(Debug)]
pub struct PoolAdmissionState<U> {
    pub ceiling: u32,
    pub effective_limit: u32,
    pub best_limit: u32,
    pub best_score: Option<Score<U>>,
    pub testing_from: Option<(u32, Score<U>)>,
    pub last_lower: Option<(u32, Score<U>)>,
    pub settled: bool,
    pub last_probe: u64,
    pub last_blocked: Option<u64>,
    pub observed_active: u32,
    pub window_started: u64,
    pub window_samples: u32,
    pub completed_at_start: u64,
    pub latest_gpu: Option<GpuSample<U>>,
    pub latest_host_cpu_percent: Option<U>,
    pub telemetry_failed_open: bool,
    pub reason: String,
}

/// Public, read-only controller state returned with pool status.
#[derive(Debug, PartialEq)]
pub struct AdmissionSnapshot<U> {
    /// Maximum active or activating leases currently admitted.
    pub effective_limit: u32,
    /// Aggregate active-lease limit on the pool's CUDA device.
    pub device_limit: u32,
    /// Host CUDA device whose telemetry controls the limit.
    pub device_ordinal: u32,
    /// Explanation of the most recent controller decision.
    pub reason: String,
    /// Whether the controller is comparing a candidate resident level.
    pub calibrating: bool,
    /// Latest aggregate GPU utilization, when NVML is healthy.
    pub gpu_utilization_percent: Option<U>,
    /// Latest aggregate used GPU memory in MiB.
    pub gpu_memory_used_mib: Option<u64>,
    /// Latest aggregate GPU memory capacity in MiB.
    pub gpu_memory_total_mib: Option<u64>,
    /// Latest host CPU busy percentage.
    pub host_cpu_percent: Option<U>,
}

/// Mathematical model of a snapshot.
pub struct Snapshot<U> {
    pub effective_limit: u32,
    pub device_limit: u32,
    pub device_ordinal: u32,
    pub reason: Seq<char>,
    pub calibrating: bool,
    pub gpu_utilization_percent: Option<U>,
    pub gpu_memory_used_mib: Option<u64>,
    pub gpu_memory_total_mib: Option<u64>,
    pub host_cpu_percent: Option<U>,
}

impl<U> View for AdmissionSnapshot<U> {
    type V = Snapshot<U>;

    open spec fn view(&self) -> Snapshot<U> {
        Snapshot {
            effective_limit: self.effective_limit,
            device_limit: self.device_limit,
            device_ordinal: self.device_ordinal,
            reason: self.reason@,
            calibrating: self.calibrating,
            gpu_utilization_percent: self.gpu_utilization_percent,
            gpu_memory_used_mib: self.gpu_memory_used_mib,
            gpu_memory_total_mib: self.gpu_memory_total_mib,
            host_cpu_percent: self.host_cpu_percent,
        }
    }
}

/// Mathematical model of a calibration state.
pub struct Calibration<U> {
    /// Limit that the pools' configuration allows at most.
    pub ceiling: u32,
    /// Limit in force.
    pub effective_limit: u32,
    /// Best limit found so far.
    pub best_limit: u32,
    /// Score of the best limit.
    pub best_score: Option<Score<U>>,
    /// Limit and score that a candidate is compared with.
    pub testing_from: Option<(u32, Score<U>)>,
    /// Limit and score below the last accepted candidate.
    pub last_lower: Option<(u32, Score<U>)>,
    /// No candidate is looked for.
    pub settled: bool,
    /// Time of the last decision that ended a probe.
    pub last_probe: u64,
    /// Time at which a caller was last blocked.
    pub last_blocked: Option<u64>,
    /// Active leases of the current window.
    pub observed_active: u32,
    /// Start of the current window.
    pub window_started: u64,
    /// Samples of the current window.
    pub window_samples: u32,
    /// Leases completed when the window started.
    pub completed_at_start: u64,
    /// Last sample, if telemetry is healthy.
    pub latest_gpu: Option<GpuSample<U>>,
    /// Last host CPU percentage.
    pub latest_host_cpu_percent: Option<U>,
    /// Telemetry was lost and the limit raised to the ceiling.
    pub telemetry_failed_open: bool,
    /// Explanation of the last decision.
    pub reason: Seq<char>,
}

/// What a complete window leads to.
pub enum Verdict<U> {
    /// The candidate is given up for the limit it was compared with.
    Reject(u32, Score<U>),
    /// The limit falls back below the last accepted candidate.
    RollBack(u32, Score<U>),
    /// A higher limit is tried.
    Probe(u32),
    /// The limit stays.
    Hold,
}

/// Time from `earlier` to `now`, and zero where the clock ran the other way.
pub open spec fn elapsed_since(now: u64, earlier: u64) -> u64 {
    if now >= earlier {
        (now - earlier) as u64
    } else {
        0
    }
}

/// The limit at which calibration starts: a third of the ceiling, rounded up.
/// Small pools start at their ceiling.
pub open spec fn initial_limit_of(ceiling: u32) -> u32 {
    if ceiling <= 2 {
        ceiling
    } else {
        ((ceiling + 2) / 3) as u32
    }
}

/// Twice the limit, within the ceiling.
pub open spec fn doubled(limit: u32, ceiling: u32) -> u32 {
    if 2 * limit > ceiling {
        ceiling
    } else {
        (2 * limit) as u32
    }
}

/// `value` brought within one and `ceiling`; one wins.
pub open spec fn clamped(value: u32, ceiling: u32) -> u32 {
    let low = if value < ceiling {
        value
    } else {
        ceiling
    };
    if low < 1 {
        1u32
    } else {
        low
    }
}

/// "MiB free" clause of a reason.
pub open spec fn memory_clause<U>(gpu: GpuSample<U>) -> Seq<char> {
    ": limiting GPU has "@ + crate::digits::decimal(gpu.free_memory_mib as nat)
        + " MiB free; preserving "@ + crate::digits::decimal(gpu.reserve_mib as nat)
        + " MiB reserve"@
}

impl<U> Calibration<U> {
    /// The limits are ordered: a fallback lies strictly below what it is a
    /// fallback from, and the limit in force lies within the ceiling.
    pub open spec fn wf(self) -> bool {
        &&& 1 <= self.best_limit <= self.effective_limit <= self.ceiling
        &&& self.testing_from matches Some(t) ==> 1 <= t.0 < self.effective_limit
        &&& self.last_lower matches Some(l) ==> 1 <= l.0 && (match self.testing_from {
            Some(t) => l.0 < t.0,
            None => l.0 < self.effective_limit,
        })
    }

    /// A caller was blocked recently.
    pub open spec fn has_pressure(self, now: u64) -> bool {
        match self.last_blocked {
            Some(blocked) => elapsed_since(now, blocked) <= PRESSURE_TTL,
            None => false,
        }
    }

    /// A new state: calibration starts with an empty window.
    pub open spec fn initial(ceiling: u32, now: u64, completed_total: u64) -> Self {
        Calibration {
            ceiling,
            effective_limit: initial_limit_of(ceiling),
            best_limit: initial_limit_of(ceiling),
            best_score: None,
            testing_from: None,
            last_lower: None,
            settled: initial_limit_of(ceiling) == ceiling,
            last_probe: now,
            last_blocked: None,
            observed_active: 0,
            window_started: now,
            window_samples: 0,
            completed_at_start: completed_total,
            latest_gpu: None,
            latest_host_cpu_percent: None,
            telemetry_failed_open: false,
            reason: "waiting for GPU telemetry"@,
        }
    }

    /// The window starts anew.
    pub open spec fn with_window(self, now: u64, active: u32, completed_total: u64) -> Self {
        Calibration {
            observed_active: active,
            window_started: now,
            window_samples: 0,
            completed_at_start: completed_total,
            ..self
        }
    }

    /// The limit, without anything learned about it.
    pub open spec fn with_fresh_limit(self, limit: u32) -> Self {
        Calibration {
            effective_limit: limit,
            best_limit: limit,
            best_score: None,
            testing_from: None,
            last_lower: None,
            ..self
        }
    }

    pub open spec fn with_reason(self, reason: Seq<char>) -> Self {
        Calibration { reason, ..self }
    }

    /// The state after the ceiling became `ceiling`.
    pub open spec fn with_ceiling(self, ceiling: u32, now: u64, completed_total: u64) -> Self {
        if self.ceiling == ceiling {
            self
        } else {
            Calibration {
                ceiling,
                effective_limit: clamped(self.effective_limit, ceiling),
                best_limit: clamped(self.best_limit, ceiling),
                best_score: None,
                testing_from: None,
                last_lower: None,
                settled: clamped(self.effective_limit, ceiling) == ceiling,
                last_probe: now,
                reason: "pool ceiling changed; restarting calibration"@,
                ..self
            }.with_window(now, 0, completed_total)
        }
    }

    /// Telemetry is lost: nothing may be stranded behind a learned limit, so
    /// the full ceiling applies.
    pub open spec fn failed_open(self, now: u64, active: u32, completed_total: u64) -> Self {
        Calibration {
            settled: true,
            telemetry_failed_open: true,
            reason: "GPU telemetry unavailable; using full residency"@,
            ..self.with_fresh_limit(self.ceiling)
        }.with_window(now, active, completed_total)
    }

    /// Telemetry is back: calibration restarts.
    pub open spec fn recovered(self, now: u64, active: u32, completed_total: u64) -> Self {
        Calibration {
            settled: initial_limit_of(self.ceiling) == self.ceiling,
            last_probe: now,
            telemetry_failed_open: false,
            reason: "GPU telemetry recovered; restarting calibration"@,
            ..self.with_fresh_limit(initial_limit_of(self.ceiling))
        }.with_window(now, active, completed_total)
    }

    /// The state with one more sample. A change of activity starts the window
    /// anew first.
    pub open spec fn with_sample(self, now: u64, active: u32, completed_total: u64) -> Self {
        let base = if active != self.observed_active {
            self.with_window(now, active, completed_total)
        } else {
            self
        };
        Calibration {
            window_samples: if base.window_samples == u32::MAX {
                u32::MAX
            } else {
                (base.window_samples + 1) as u32
            },
            ..base
        }
    }

    /// The window is long enough and was spent at the limit in force.
    pub open spec fn window_complete(self, now: u64, active: u32) -> bool {
        &&& active == self.effective_limit
        &&& self.window_samples >= MIN_STABLE_SAMPLES
        &&& elapsed_since(now, self.window_started) >= OBSERVATION_WINDOW
    }

    /// Why a window is not judged.
    pub open spec fn waiting_reason(self, active: u32) -> Seq<char> {
        if active > self.effective_limit {
            "waiting for active leases to drain from "@ + crate::digits::decimal(active as nat)
                + " to "@ + crate::digits::decimal(self.effective_limit as nat)
        } else {
            "observing stable residency at "@ + crate::digits::decimal(active as nat) + "/"@
                + crate::digits::decimal(self.effective_limit as nat)
        }
    }

    /// The state after an observation was recorded.
    pub open spec fn observed(
        self,
        now: u64,
        active: u32,
        completed_total: u64,
        gpu: Option<GpuSample<U>>,
        host_cpu_percent: Option<U>,
    ) -> Self {
        let base = Calibration {
            latest_gpu: gpu,
            latest_host_cpu_percent: host_cpu_percent,
            ..self
        };
        if gpu is None {
            base.failed_open(now, active, completed_total)
        } else if self.telemetry_failed_open {
            base.recovered(now, active, completed_total)
        } else {
            let sampled = base.with_sample(now, active, completed_total);
            if sampled.window_complete(now, active) {
                sampled
            } else {
                sampled.with_reason(sampled.waiting_reason(active))
            }
        }
    }

    /// What recording an observation reports.
    pub open spec fn observation(
        self,
        now: u64,
        active: u32,
        completed_total: u64,
        gpu: Option<GpuSample<U>>,
    ) -> Observation<U> {
        if gpu is None || self.telemetry_failed_open {
            Observation::Unsampled
        } else {
            let sampled = self.with_sample(now, active, completed_total);
            Observation::Sampled {
                opens_window: sampled.window_samples == 1,
                evaluation: if sampled.window_complete(now, active) {
                    Some(
                        Evaluation {
                            now,
                            active,
                            completed_total,
                            gpu: gpu->0,
                            samples: sampled.window_samples,
                            elapsed: elapsed_since(now, sampled.window_started),
                            completed: elapsed_since(completed_total, sampled.completed_at_start),
                            baseline: match sampled.testing_from {
                                Some(t) => Some(t.1),
                                None => None,
                            },
                        },
                    )
                } else {
                    None
                },
            }
        }
    }

    /// Nothing keeps the device from more residents.
    pub open spec fn unstrained(evaluation: Evaluation<U>, judgement: Judgement<U>) -> bool {
        evaluation.gpu.has_headroom() && judgement.cpu_safe
    }

    /// A candidate was on trial and did not hold up.
    pub open spec fn candidate_fails(
        self,
        evaluation: Evaluation<U>,
        judgement: Judgement<U>,
    ) -> bool {
        self.testing_from is Some && (judgement.below_marginal_gain || !Self::unstrained(
            evaluation,
            judgement,
        ))
    }

    /// The limit below the one in force, once a candidate on trial is accepted.
    pub open spec fn lower_limit(self) -> Option<(u32, Score<U>)> {
        if self.testing_from is Some {
            self.testing_from
        } else {
            self.last_lower
        }
    }

    /// Another candidate may be looked for: none was settled on yet, or the
    /// settled limit is old and callers are blocked by it.
    pub open spec fn probing(self, now: u64) -> bool {
        !self.settled || (elapsed_since(now, self.last_probe) >= REPROBE_INTERVAL
            && self.has_pressure(now) && self.effective_limit < self.ceiling)
    }

    /// What is published of the state, as seen from device zero.
    pub open spec fn published(self) -> Snapshot<U> {
        Snapshot {
            effective_limit: self.effective_limit,
            device_limit: self.effective_limit,
            device_ordinal: 0,
            reason: self.reason,
            calibrating: !self.settled,
            gpu_utilization_percent: match self.latest_gpu {
                Some(sample) => Some(sample.utilization_percent),
                None => None,
            },
            gpu_memory_used_mib: match self.latest_gpu {
                Some(sample) => Some(sample.used_memory_mib),
                None => None,
            },
            gpu_memory_total_mib: match self.latest_gpu {
                Some(sample) => Some(sample.total_memory_mib),
                None => None,
            },
            host_cpu_percent: self.latest_host_cpu_percent,
        }
    }

    /// What a complete window leads to.
    pub open spec fn verdict(
        self,
        evaluation: Evaluation<U>,
        judgement: Judgement<U>,
    ) -> Verdict<U> {
        let next = doubled(self.effective_limit, self.ceiling);
        let lower = self.lower_limit();
        if self.candidate_fails(evaluation, judgement) {
            Verdict::Reject((self.testing_from->0).0, (self.testing_from->0).1)
        } else if !self.probing(evaluation.now) && !Self::unstrained(evaluation, judgement)
            && lower is Some {
            Verdict::RollBack((lower->0).0, (lower->0).1)
        } else if self.probing(evaluation.now) && self.has_pressure(evaluation.now)
            && Self::unstrained(evaluation, judgement) && next > self.effective_limit {
            Verdict::Probe(next)
        } else {
            Verdict::Hold
        }
    }

    /// Explanation of a fall of the limit.
    pub open spec fn return_reason(
        limit: u32,
        evaluation: Evaluation<U>,
        judgement: Judgement<U>,
    ) -> Seq<char> {
        let head = "returned to "@ + crate::digits::decimal(limit as nat);
        if !evaluation.gpu.has_headroom() {
            head + memory_clause(evaluation.gpu)
        } else if !judgement.cpu_safe {
            head + ": host CPU saturated at "@ + judgement.mean_cpu@ + "%"@
        } else {
            head + ": marginal gain "@ + judgement.improvement@ + "% is below 2.0%"@
        }
    }

    /// Explanation of a limit that stays.
    pub open spec fn hold_reason(
        limit: u32,
        evaluation: Evaluation<U>,
        judgement: Judgement<U>,
    ) -> Seq<char> {
        if !evaluation.gpu.has_headroom() {
            "holding at "@ + crate::digits::decimal(limit as nat) + memory_clause(evaluation.gpu)
        } else if !judgement.cpu_safe {
            "holding at "@ + crate::digits::decimal(limit as nat) + " because host CPU is "@
                + judgement.mean_cpu@ + "% busy"@
        } else {
            "settled at resident limit "@ + crate::digits::decimal(limit as nat)
        }
    }

    /// The state after a complete window was judged.
    pub open spec fn concluded(self, evaluation: Evaluation<U>, judgement: Judgement<U>) -> Self {
        let now = evaluation.now;
        let accepted = Calibration {
            best_limit: self.effective_limit,
            best_score: Some(judgement.score),
            testing_from: None,
            last_lower: self.lower_limit(),
            ..self
        };
        let decided = match self.verdict(evaluation, judgement) {
            Verdict::Reject(limit, score) => Calibration {
                effective_limit: limit,
                best_limit: limit,
                best_score: Some(score),
                testing_from: None,
                settled: true,
                last_probe: now,
                reason: Self::return_reason(limit, evaluation, judgement),
                ..self
            },
            Verdict::RollBack(limit, score) => Calibration {
                effective_limit: limit,
                best_limit: limit,
                best_score: Some(score),
                last_lower: None,
                last_probe: now,
                reason: Self::return_reason(limit, evaluation, judgement),
                ..accepted
            },
            Verdict::Probe(next) => Calibration {
                effective_limit: next,
                testing_from: Some((self.effective_limit, judgement.score)),
                settled: false,
                reason: "probing resident limit "@ + crate::digits::decimal(next as nat),
                ..accepted
            },
            Verdict::Hold => Calibration {
                settled: true,
                last_probe: now,
                reason: Self::hold_reason(self.effective_limit, evaluation, judgement),
                ..accepted
            },
        };
        decided.with_window(now, evaluation.active, evaluation.completed_total)
    }
}

impl<U> View for PoolAdmissionState<U> {
    type V = Calibration<U>;

    open spec fn view(&self) -> Calibration<U> {
        Calibration {
            ceiling: self.ceiling,
            effective_limit: self.effective_limit,
            best_limit: self.best_limit,
            best_score: self.best_score,
            testing_from: self.testing_from,
            last_lower: self.last_lower,
            settled: self.settled,
            last_probe: self.last_probe,
            last_blocked: self.last_blocked,
            observed_active: self.observed_active,
            window_started: self.window_started,
            window_samples: self.window_samples,
            completed_at_start: self.completed_at_start,
            latest_gpu: self.latest_gpu,
            latest_host_cpu_percent: self.latest_host_cpu_percent,
            telemetry_failed_open: self.telemetry_failed_open,
            reason: self.reason@,
        }
    }
}

/// `value` brought within one and `ceiling`.
fn clamp_limit(value: u32, ceiling: u32) -> (r: u32)
    ensures
        r == clamped(value, ceiling),
{
    let low: u32 = if value < ceiling {
        value
    } else {
        ceiling
    };
    if low < 1 {
        1
    } else {
        low
    }
}

/// Appends the memory clause of a reason.
fn append_memory_clause<U>(reason: &mut String, gpu: &GpuSample<U>)
    ensures
        final(reason)@ == old(reason)@ + memory_clause(*gpu),
{
    reason.append(": limiting GPU has ");
    reason.append(to_decimal(gpu.free_memory_mib).as_str());
    reason.append(" MiB free; preserving ");
    reason.append(to_decimal(gpu.reserve_mib).as_str());
    reason.append(" MiB reserve");
    assert(reason@ =~= old(reason)@ + memory_clause(*gpu));
}

/// Explanation of a fall of the limit to `limit`.
fn explain_return<U>(limit: u32, evaluation: &Evaluation<U>, judgement: &Judgement<U>) -> (r: String)
    ensures
        r@ == Calibration::return_reason(limit, *evaluation, *judgement),
{
    let mut reason = "returned to ".to_owned();
    reason.append(to_decimal(limit as u64).as_str());
    if !evaluation.gpu.memory_safe() {
        append_memory_clause(&mut reason, &evaluation.gpu);
    } else if !judgement.cpu_safe {
        reason.append(": host CPU saturated at ");
        reason.append(judgement.mean_cpu.as_str());
        reason.append("%");
    } else {
        reason.append(": marginal gain ");
        reason.append(judgement.improvement.as_str());
        reason.append("% is below 2.0%");
    }
    reason
}

/// Explanation of a limit that stays.
fn explain_hold<U>(limit: u32, evaluation: &Evaluation<U>, judgement: &Judgement<U>) -> (r: String)
    ensures
        r@ == Calibration::hold_reason(limit, *evaluation, *judgement),
{
    if !evaluation.gpu.memory_safe() {
        let mut reason = "holding at ".to_owned();
        reason.append(to_decimal(limit as u64).as_str());
        append_memory_clause(&mut reason, &evaluation.gpu);
        reason
    } else if !judgement.cpu_safe {
        let mut reason = "holding at ".to_owned();
        reason.append(to_decimal(limit as u64).as_str());
        reason.append(" because host CPU is ");
        reason.append(judgement.mean_cpu.as_str());
        reason.append("% busy");
        reason
    } else {
        let mut reason = "settled at resident limit ".to_owned();
        reason.append(to_decimal(limit as u64).as_str());
        reason
    }
}

impl<U: Copy> PoolAdmissionState<U> {
    /// The limit at which calibration of a pool starts. Calibration needs at
    /// most three multiplicative steps and knows no GPU- or workload-specific
    /// count.
    pub fn initial_limit(ceiling: u32) -> (r: u32)
        ensures
            r == initial_limit_of(ceiling),
    {
        if ceiling <= 2 {
            ceiling
        } else if ceiling % 3 == 0 {
            ceiling / 3
        } else {
            ceiling / 3 + 1
        }
    }

    /// A state that starts calibrating.
    pub fn new(ceiling: u32, now: u64, completed_total: u64) -> (r: Self)
        ensures
            r@ == Calibration::<U>::initial(ceiling, now, completed_total),
            ceiling >= 1 ==> r@.wf(),
    {
        let effective_limit: u32 = Self::initial_limit(ceiling);
        PoolAdmissionState {
            ceiling,
            effective_limit,
            best_limit: effective_limit,
            best_score: None,
            testing_from: None,
            last_lower: None,
            settled: effective_limit == ceiling,
            last_probe: now,
            last_blocked: None,
            observed_active: 0,
            window_started: now,
            window_samples: 0,
            completed_at_start: completed_total,
            latest_gpu: None,
            latest_host_cpu_percent: None,
            telemetry_failed_open: false,
            reason: "waiting for GPU telemetry".to_owned(),
        }
    }

    /// Starts the window anew.
    pub fn reset_window(&mut self, now: u64, active: u32, completed_total: u64)
        ensures
            final(self)@ == old(self)@.with_window(now, active, completed_total),
    {
        self.observed_active = active;
        self.window_started = now;
        self.window_samples = 0;
        self.completed_at_start = completed_total;
    }

    /// Whether a caller was blocked recently.
    pub fn has_pressure(&self, now: u64) -> (r: bool)
        ensures
            r == self@.has_pressure(now),
    {
        match self.last_blocked {
            Some(blocked) => now.saturating_sub(blocked) <= PRESSURE_TTL,
            None => false,
        }
    }

    /// Takes over a changed ceiling and restarts calibration below it.
    pub fn update_ceiling(&mut self, ceiling: u32, now: u64, completed_total: u64)
        ensures
            final(self)@ == old(self)@.with_ceiling(ceiling, now, completed_total),
            old(self)@.wf() && ceiling >= 1 ==> final(self)@.wf(),
    {
        if self.ceiling == ceiling {
            return;
        }
        self.ceiling = ceiling;
        self.effective_limit = clamp_limit(self.effective_limit, ceiling);
        self.best_limit = clamp_limit(self.best_limit, ceiling);
        self.testing_from = None;
        self.last_lower = None;
        self.settled = self.effective_limit == ceiling;
        self.best_score = None;
        self.last_probe = now;
        self.reset_window(now, 0, completed_total);
        self.reason = "pool ceiling changed; restarting calibration".to_owned();
    }

    /// Records one observation.
    pub fn observe(
        &mut self,
        now: u64,
        active: u32,
        completed_total: u64,
        gpu: Option<GpuSample<U>>,
        host_cpu_percent: Option<U>,
    ) -> (r: Observation<U>)
        ensures
            final(self)@ == old(self)@.observed(now, active, completed_total, gpu, host_cpu_percent),
            r == old(self)@.observation(now, active, completed_total, gpu),
            old(self)@.wf() ==> final(self)@.wf(),
    {
        let telemetry_recovered = self.telemetry_failed_open && gpu.is_some();
        self.latest_gpu = gpu;
        self.latest_host_cpu_percent = host_cpu_percent;
        let sample = match gpu {
            Some(sample) => sample,
            None => {
                self.effective_limit = self.ceiling;
                self.best_limit = self.ceiling;
                self.best_score = None;
                self.testing_from = None;
                self.last_lower = None;
                self.settled = true;
                self.telemetry_failed_open = true;
                self.reason = "GPU telemetry unavailable; using full residency".to_owned();
                self.reset_window(now, active, completed_total);
                return Observation::Unsampled;
            },
        };
        if telemetry_recovered {
            self.effective_limit = Self::initial_limit(self.ceiling);
            self.best_limit = self.effective_limit;
            self.best_score = None;
            self.testing_from = None;
            self.last_lower = None;
            self.settled = self.effective_limit == self.ceiling;
            self.last_probe = now;
            self.telemetry_failed_open = false;
            self.reason = "GPU telemetry recovered; restarting calibration".to_owned();
            self.reset_window(now, active, completed_total);
            return Observation::Unsampled;
        }
        if active != self.observed_active {
            self.reset_window(now, active, completed_total);
        }
        self.window_samples = self.window_samples.saturating_add(1);
        let opens_window = self.window_samples == 1;
        let elapsed: u64 = now.saturating_sub(self.window_started);
        if active > self.effective_limit {
            let mut reason = "waiting for active leases to drain from ".to_owned();
            reason.append(to_decimal(active as u64).as_str());
            reason.append(" to ");
            reason.append(to_decimal(self.effective_limit as u64).as_str());
            self.reason = reason;
            return Observation::Sampled { opens_window, evaluation: None };
        }
        if active != self.effective_limit || self.window_samples < MIN_STABLE_SAMPLES || elapsed
            < OBSERVATION_WINDOW {
            let mut reason = "observing stable residency at ".to_owned();
            reason.append(to_decimal(active as u64).as_str());
            reason.append("/");
            reason.append(to_decimal(self.effective_limit as u64).as_str());
            self.reason = reason;
            return Observation::Sampled { opens_window, evaluation: None };
        }
        let baseline = match self.testing_from {
            Some((_, score)) => Some(score),
            None => None,
        };
        let evaluation = Evaluation {
            now,
            active,
            completed_total,
            gpu: sample,
            samples: self.window_samples,
            elapsed,
            completed: completed_total.saturating_sub(self.completed_at_start),
            baseline,
        };
        Observation::Sampled { opens_window, evaluation: Some(evaluation) }
    }

    /// Moves the limit by what a complete window measured.
    pub fn conclude(&mut self, evaluation: &Evaluation<U>, judgement: &Judgement<U>)
        ensures
            final(self)@ == old(self)@.concluded(*evaluation, *judgement),
            old(self)@.wf() ==> final(self)@.wf(),
    {
        let now: u64 = evaluation.now;
        let memory_safe = evaluation.gpu.memory_safe();
        let cpu_safe = judgement.cpu_safe;
        if let Some((prior_limit, prior_score)) = self.testing_from {
            if judgement.below_marginal_gain || !memory_safe || !cpu_safe {
                self.testing_from = None;
                self.effective_limit = prior_limit;
                self.best_limit = prior_limit;
                self.best_score = Some(prior_score);
                self.settled = true;
                self.last_probe = now;
                self.reason = explain_return(prior_limit, evaluation, judgement);
                self.reset_window(now, evaluation.active, evaluation.completed_total);
                return;
            }
            self.testing_from = None;
            self.last_lower = Some((prior_limit, prior_score));
        }
        self.best_limit = self.effective_limit;
        self.best_score = Some(judgement.score);
        if self.settled && now.saturating_sub(self.last_probe) >= REPROBE_INTERVAL
            && self.has_pressure(now) && self.effective_limit < self.ceiling {
            self.settled = false;
        }
        if self.settled && (!memory_safe || !cpu_safe) {
            if let Some((lower_limit, lower_score)) = self.last_lower {
                self.last_lower = None;
                self.effective_limit = lower_limit;
                self.best_limit = lower_limit;
                self.best_score = Some(lower_score);
                self.last_probe = now;
                self.reason = explain_return(lower_limit, evaluation, judgement);
                self.reset_window(now, evaluation.active, evaluation.completed_total);
                return;
            }
        }
        if !self.settled && self.has_pressure(now) && memory_safe && cpu_safe {
            let next: u32 = if self.effective_limit > self.ceiling / 2 {
                self.ceiling
            } else {
                self.effective_limit * 2
            };
            if next > self.effective_limit {
                self.testing_from = Some((self.effective_limit, judgement.score));
                self.effective_limit = next;
                let mut reason = "probing resident limit ".to_owned();
                reason.append(to_decimal(next as u64).as_str());
                self.reason = reason;
                self.reset_window(now, evaluation.active, evaluation.completed_total);
                return;
            }
        }
        self.settled = true;
        self.last_probe = now;
        self.reason = explain_hold(self.effective_limit, evaluation, judgement);
        self.reset_window(now, evaluation.active, evaluation.completed_total);
    }

    /// Publishes the state.
    pub fn snapshot(&self) -> (r: AdmissionSnapshot<U>)
        ensures
            r@ == self@.published(),
    {
        let (utilization, used, total) = match self.latest_gpu {
            Some(sample) => (
                Some(sample.utilization_percent),
                Some(sample.used_memory_mib),
                Some(sample.total_memory_mib),
            ),
            None => (None, None, None),
        };
        AdmissionSnapshot {
            effective_limit: self.effective_limit,
            device_limit: self.effective_limit,
            device_ordinal: 0,
            reason: self.reason.clone(),
            calibrating: !self.settled,
            gpu_utilization_percent: utilization,
            gpu_memory_used_mib: used,
            gpu_memory_total_mib: total,
            host_cpu_percent: self.latest_host_cpu_percent,
        }
    }
}

/// Two doublings lead from the initial limit to the ceiling: calibration visits
/// at most three limits on its way up.
pub proof fn law_three_limits_reach_the_ceiling(ceiling: u32)
    ensures
        initial_limit_of(ceiling) <= ceiling,
        doubled(doubled(initial_limit_of(ceiling), ceiling), ceiling) == ceiling,
{
}

/// Lost telemetry never strands work behind a learned limit: the ceiling
/// applies, whatever was learned.
pub proof fn law_lost_telemetry_fails_open<U>(
    state: Calibration<U>,
    now: u64,
    active: u32,
    completed_total: u64,
    host_cpu_percent: Option<U>,
)
    ensures
        state.observed(now, active, completed_total, None, host_cpu_percent).effective_limit
            == state.ceiling,
{
}

/// Telemetry that comes back restarts calibration at the initial limit.
pub proof fn law_recovered_telemetry_restarts<U>(
    state: Calibration<U>,
    now: u64,
    active: u32,
    completed_total: u64,
    gpu: GpuSample<U>,
    host_cpu_percent: Option<U>,
)
    requires
        state.telemetry_failed_open,
    ensures
        ({
            let after = state.observed(now, active, completed_total, Some(gpu), host_cpu_percent);
            &&& after.effective_limit == initial_limit_of(state.ceiling)
            &&& !after.telemetry_failed_open
            &&& after.window_samples == 0
        }),
{
}

/// A sample alone never moves the limit while telemetry is healthy.
pub proof fn law_sample_keeps_the_limit<U>(
    state: Calibration<U>,
    now: u64,
    active: u32,
    completed_total: u64,
    gpu: GpuSample<U>,
    host_cpu_percent: Option<U>,
)
    requires
        !state.telemetry_failed_open,
    ensures
        state.observed(now, active, completed_total, Some(gpu), host_cpu_percent).effective_limit
            == state.effective_limit,
{
}

/// The limit rises only where callers are blocked, the device has its reserve
/// and the host CPU is not saturated, and then it at most doubles.
pub proof fn law_rise_needs_demand_and_headroom<U>(
    state: Calibration<U>,
    evaluation: Evaluation<U>,
    judgement: Judgement<U>,
)
    requires
        state.wf(),
        state.concluded(evaluation, judgement).effective_limit > state.effective_limit,
    ensures
        state.has_pressure(evaluation.now),
        evaluation.gpu.has_headroom(),
        judgement.cpu_safe,
        state.concluded(evaluation, judgement).effective_limit <= 2 * state.effective_limit,
        state.concluded(evaluation, judgement).effective_limit <= state.ceiling,
{
}

/// A candidate without sufficient gain, or under memory or CPU strain, is given
/// up for the limit it was compared with.
pub proof fn law_failed_candidate_returns<U>(
    state: Calibration<U>,
    evaluation: Evaluation<U>,
    judgement: Judgement<U>,
)
    requires
        state.testing_from is Some,
        judgement.below_marginal_gain || !evaluation.gpu.has_headroom() || !judgement.cpu_safe,
    ensures
        state.concluded(evaluation, judgement).effective_limit == (state.testing_from->0).0,
        state.concluded(evaluation, judgement).settled,
{
}

/// A settled limit that comes under strain falls below the last accepted
/// candidate, where there was one.
pub proof fn law_late_strain_rolls_back<U>(
    state: Calibration<U>,
    evaluation: Evaluation<U>,
    judgement: Judgement<U>,
)
    requires
        state.wf(),
        state.testing_from is None,
        state.last_lower is Some,
        !state.probing(evaluation.now),
        !evaluation.gpu.has_headroom() || !judgement.cpu_safe,
    ensures
        state.concluded(evaluation, judgement).effective_limit == (state.last_lower->0).0,
        state.concluded(evaluation, judgement).effective_limit < state.effective_limit,
{
}

/// Every step keeps the limit between one and the ceiling.
pub proof fn law_limit_stays_within_ceiling<U>(
    state: Calibration<U>,
    ceiling: u32,
    now: u64,
    active: u32,
    completed_total: u64,
    gpu: Option<GpuSample<U>>,
    host_cpu_percent: Option<U>,
    evaluation: Evaluation<U>,
    judgement: Judgement<U>,
)
    requires
        state.wf(),
        ceiling >= 1,
    ensures
        Calibration::<U>::initial(ceiling, now, completed_total).wf(),
        state.with_ceiling(ceiling, now, completed_total).wf(),
        state.observed(now, active, completed_total, gpu, host_cpu_percent).wf(),
        state.concluded(evaluation, judgement).wf(),
{
}

/// A ceiling that did not change leaves the calibration untouched.
pub proof fn law_same_ceiling_changes_nothing<U>(
    state: Calibration<U>,
    now: u64,
    completed_total: u64,
)
    ensures
        state.with_ceiling(state.ceiling, now, completed_total) == state,
{
}

/// One observation of a run at a steady activity.
pub struct Sample<U> {
    pub now: u64,
    pub completed_total: u64,
    pub gpu: GpuSample<U>,
    pub host_cpu_percent: Option<U>,
}

/// The state after a run of samples with `active` leases.
pub open spec fn after_run<U>(state: Calibration<U>, active: u32, run: Seq<Sample<U>>) -> Calibration<
    U,
>
    decreases run.len(),
{
    if run.len() == 0 {
        state
    } else {
        let s = run.last();
        after_run(state, active, run.drop_last()).observed(
            s.now,
            active,
            s.completed_total,
            Some(s.gpu),
            s.host_cpu_percent,
        )
    }
}

/// The evaluation that the last sample of a run reports, if any.
pub open spec fn run_evaluation<U>(
    state: Calibration<U>,
    active: u32,
    run: Seq<Sample<U>>,
) -> Option<Evaluation<U>> {
    let s = run.last();
    match after_run(state, active, run.drop_last()).observation(
        s.now,
        active,
        s.completed_total,
        Some(s.gpu),
    ) {
        Observation::Sampled { evaluation, .. } => evaluation,
        Observation::Unsampled => None,
    }
}

/// The evaluation is of a window that started at `start` with `done` leases
/// completed and took in the samples of `run`.
pub open spec fn evaluates<U>(
    evaluation: Evaluation<U>,
    active: u32,
    start: u64,
    done: u64,
    run: Seq<Sample<U>>,
) -> bool {
    let last = run.last();
    &&& evaluation.now == last.now
    &&& evaluation.active == active
    &&& evaluation.gpu == last.gpu
    &&& evaluation.completed_total == last.completed_total
    &&& evaluation.elapsed == last.now - start
    &&& last.completed_total >= done ==> evaluation.completed == last.completed_total - done
    &&& last.completed_total < done ==> evaluation.completed == 0
    &&& run.len() <= u32::MAX ==> evaluation.samples == run.len()
}

/// Samples at the activity of the window leave all but its count alone.
proof fn lemma_run_stays_in_window<U>(state: Calibration<U>, active: u32, run: Seq<Sample<U>>)
    requires
        !state.telemetry_failed_open,
        state.observed_active == active,
    ensures
        ({
            let after = after_run(state, active, run);
            &&& after == (Calibration {
                window_samples: after.window_samples,
                latest_gpu: after.latest_gpu,
                latest_host_cpu_percent: after.latest_host_cpu_percent,
                reason: after.reason,
                ..state
            })
            &&& after.window_samples == if state.window_samples + run.len() > u32::MAX {
                u32::MAX as int
            } else {
                state.window_samples + run.len()
            }
        }),
    decreases run.len(),
{
    if run.len() > 0 {
        lemma_run_stays_in_window(state, active, run.drop_last());
    }
}

/// What a run in an open window, which has no sample yet, reports at its end.
proof fn lemma_open_window_is_evaluated<U>(state: Calibration<U>, active: u32, run: Seq<Sample<U>>)
    requires
        !state.telemetry_failed_open,
        state.observed_active == active,
        state.window_samples == 0,
        run.len() > 0,
    ensures
        match run_evaluation(state, active, run) {
            Some(evaluation) => {
                &&& active == state.effective_limit
                &&& run.len() >= 5
                &&& run.last().now >= state.window_started + 8_000_000_000
                &&& evaluates(
                    evaluation,
                    active,
                    state.window_started,
                    state.completed_at_start,
                    run,
                )
                &&& (state.testing_from matches Some(t) ==> evaluation.baseline == Some(t.1))
                &&& (state.testing_from is None ==> evaluation.baseline is None)
            },
            None => !(active == state.effective_limit && run.len() >= 5 && run.last().now
                >= state.window_started + 8_000_000_000),
        },
{
    lemma_run_stays_in_window(state, active, run.drop_last());
}

/// A window is judged by what happened in it. A run of samples with the same
/// number of active leases, which the first sample opens, is evaluated at its
/// end exactly if the limit was reached, it has five samples and lasted eight
/// seconds; and then over the time and the completions from its first sample to
/// its last.
pub proof fn law_window_counts_what_happened_in_it<U>(
    state: Calibration<U>,
    active: u32,
    run: Seq<Sample<U>>,
)
    requires
        !state.telemetry_failed_open,
        state.observed_active != active,
        run.len() > 0,
    ensures
        match run_evaluation(state, active, run) {
            Some(evaluation) => {
                &&& active == state.effective_limit
                &&& run.len() >= 5
                &&& run.last().now >= run[0].now + 8_000_000_000
                &&& evaluates(evaluation, active, run[0].now, run[0].completed_total, run)
                &&& (state.testing_from matches Some(t) ==> evaluation.baseline == Some(t.1))
                &&& (state.testing_from is None ==> evaluation.baseline is None)
            },
            None => !(active == state.effective_limit && run.len() >= 5 && run.last().now
                >= run[0].now + 8_000_000_000),
        },
    decreases run.len(),
{
    let first = run[0];
    let opened = state.with_window(first.now, active, first.completed_total);
    lemma_first_sample_opens(state, active, run.drop_last(), first);
    lemma_open_window_is_evaluated(opened, active, run);
}

/// A run whose first sample opens the window goes as if it had been open.
proof fn lemma_first_sample_opens<U>(
    state: Calibration<U>,
    active: u32,
    run: Seq<Sample<U>>,
    first: Sample<U>,
)
    requires
        !state.telemetry_failed_open,
        state.observed_active != active,
        run.len() > 0 ==> run[0] == first,
    ensures
        run.len() > 0 ==> after_run(state, active, run) == after_run(
            state.with_window(first.now, active, first.completed_total),
            active,
            run,
        ),
    decreases run.len(),
{
    reveal_with_fuel(after_run, 2);
    if run.len() > 1 {
        lemma_first_sample_opens(state, active, run.drop_last(), first);
    } else if run.len() == 1 {
        assert(run.drop_last() =~= Seq::empty());
        assert(run.last() == first);
    }
}

/// A judged window is followed by the next: it counts from the time and the
/// completions at which the last one was judged.
pub proof fn law_next_window_starts_where_the_last_ended<U>(
    state: Calibration<U>,
    judged: Evaluation<U>,
    judgement: Judgement<U>,
    run: Seq<Sample<U>>,
)
    requires
        !state.telemetry_failed_open,
        run.len() > 0,
    ensures
        ({
            let next = state.concluded(judged, judgement);
            match run_evaluation(next, judged.active, run) {
                Some(evaluation) => {
                    &&& judged.active == next.effective_limit
                    &&& run.len() >= 5
                    &&& run.last().now >= judged.now + 8_000_000_000
                    &&& evaluates(
                        evaluation,
                        judged.active,
                        judged.now,
                        judged.completed_total,
                        run,
                    )
                },
                None => !(judged.active == next.effective_limit && run.len() >= 5
                    && run.last().now >= judged.now + 8_000_000_000),
            }
        }),
{
    lemma_open_window_is_evaluated(state.concluded(judged, judgement), judged.active, run);
}

/// After telemetry came back, the first window counts from that moment.
pub proof fn law_window_after_recovery_starts_anew<U>(
    state: Calibration<U>,
    back: Sample<U>,
    active: u32,
    run: Seq<Sample<U>>,
)
    requires
        state.telemetry_failed_open,
        run.len() > 0,
    ensures
        run_evaluation(
            state.observed(
                back.now,
                active,
                back.completed_total,
                Some(back.gpu),
                back.host_cpu_percent,
            ),
            active,
            run,
        ) matches Some(evaluation) ==> run.len() >= 5 && evaluates(
            evaluation,
            active,
            back.now,
            back.completed_total,
            run,
        ) && evaluation.baseline is None,
{
    let next = state.observed(
        back.now,
        active,
        back.completed_total,
        Some(back.gpu),
        back.host_cpu_percent,
    );
    lemma_open_window_is_evaluated(next, active, run);
}

/// The state with `k` more leases completed before its window.
pub open spec fn counted_from<U>(state: Calibration<U>, k: u64) -> Calibration<U> {
    Calibration { completed_at_start: (state.completed_at_start + k) as u64, ..state }
}

/// Leases completed before a window have no say in it: adding the same number to
/// every total changes neither what an observation reports, but for the total
/// itself, nor what is decided.
pub proof fn law_earlier_completions_are_irrelevant<U>(
    state: Calibration<U>,
    now: u64,
    active: u32,
    total: u64,
    gpu: Option<GpuSample<U>>,
    host_cpu_percent: Option<U>,
    evaluation: Evaluation<U>,
    judgement: Judgement<U>,
    k: u64,
)
    requires
        state.completed_at_start + k <= u64::MAX,
        total + k <= u64::MAX,
        evaluation.completed_total + k <= u64::MAX,
    ensures
        counted_from(state, k).observed(now, active, (total + k) as u64, gpu, host_cpu_percent)
            == counted_from(state.observed(now, active, total, gpu, host_cpu_percent), k),
        match (
            state.observation(now, active, total, gpu),
            counted_from(state, k).observation(now, active, (total + k) as u64, gpu),
        ) {
            (Observation::Unsampled, Observation::Unsampled) => true,
            (
                Observation::Sampled { opens_window: a, evaluation: x },
                Observation::Sampled { opens_window: b, evaluation: y },
            ) => a == b && match (x, y) {
                (Some(x), Some(y)) => y == (Evaluation {
                    completed_total: (x.completed_total + k) as u64,
                    ..x
                }),
                (None, None) => true,
                _ => false,
            },
            _ => false,
        },
        counted_from(state, k).concluded(
            Evaluation { completed_total: (evaluation.completed_total + k) as u64, ..evaluation },
            judgement,
        ) == counted_from(state.concluded(evaluation, judgement), k),
{
}

/// The state with all its times `k` later.
pub open spec fn delayed<U>(state: Calibration<U>, k: u64) -> Calibration<U> {
    Calibration {
        last_probe: (state.last_probe + k) as u64,
        last_blocked: match state.last_blocked {
            Some(blocked) => Some((blocked + k) as u64),
            None => None,
        },
        window_started: (state.window_started + k) as u64,
        ..state
    }
}

/// Only differences of times matter: a controller whose clock is `k` ahead
/// reports and decides the same.
pub proof fn law_only_differences_of_times_matter<U>(
    state: Calibration<U>,
    now: u64,
    active: u32,
    total: u64,
    gpu: Option<GpuSample<U>>,
    host_cpu_percent: Option<U>,
    evaluation: Evaluation<U>,
    judgement: Judgement<U>,
    k: u64,
)
    requires
        state.last_probe + k <= u64::MAX,
        state.last_blocked matches Some(blocked) ==> blocked + k <= u64::MAX,
        state.window_started + k <= u64::MAX,
        now + k <= u64::MAX,
        evaluation.now + k <= u64::MAX,
    ensures
        delayed(state, k).observed((now + k) as u64, active, total, gpu, host_cpu_percent)
            == delayed(state.observed(now, active, total, gpu, host_cpu_percent), k),
        match (
            state.observation(now, active, total, gpu),
            delayed(state, k).observation((now + k) as u64, active, total, gpu),
        ) {
            (Observation::Unsampled, Observation::Unsampled) => true,
            (
                Observation::Sampled { opens_window: a, evaluation: x },
                Observation::Sampled { opens_window: b, evaluation: y },
            ) => a == b && match (x, y) {
                (Some(x), Some(y)) => y == (Evaluation { now: (x.now + k) as u64, ..x }),
                (None, None) => true,
                _ => false,
            },
            _ => false,
        },
        delayed(state, k).concluded(
            Evaluation { now: (evaluation.now + k) as u64, ..evaluation },
            judgement,
        ) == delayed(state.concluded(evaluation, judgement), k),
{
}

/// A blocked caller counts as demand for thirty seconds.
pub proof fn law_pressure_lasts_thirty_seconds<U>(state: Calibration<U>, now: u64)
    ensures
        state.has_pressure(now) <==> (state.last_blocked matches Some(blocked) && now <= blocked
            + 30_000_000_000),
{
}

/// Calibration starts at the smallest limit that reaches the ceiling when it is
/// tripled; a ceiling of one or two is its own start. It starts with nothing
/// learned and, but for such a small ceiling, looks for a better limit.
pub proof fn law_calibration_starts_at_a_third<U>(ceiling: u32, now: u64, completed_total: u64)
    ensures
        ({
            let state = Calibration::<U>::initial(ceiling, now, completed_total);
            &&& state.ceiling == ceiling
            &&& ceiling <= 2 ==> state.effective_limit == ceiling
            &&& ceiling > 2 ==> 3 * state.effective_limit >= ceiling && 3 * (state.effective_limit
                - 1) < ceiling
            &&& state.best_limit == state.effective_limit
            &&& state.settled <==> ceiling <= 2
            &&& state.best_score is None && state.testing_from is None && state.last_lower is None
            &&& state.last_blocked is None && state.latest_gpu is None
            &&& !state.telemetry_failed_open
            &&& state.window_samples == 0 && state.observed_active == 0
            &&& state.window_started == now && state.last_probe == now
            &&& state.completed_at_start == completed_total
            &&& state.reason == "waiting for GPU telemetry"@
        }),
{
}

/// A sample moves nothing but its window: with healthy telemetry, what was
/// learned and what was demanded stay.
pub proof fn law_sample_keeps_what_was_learned<U>(
    state: Calibration<U>,
    now: u64,
    active: u32,
    completed_total: u64,
    gpu: GpuSample<U>,
    host_cpu_percent: Option<U>,
)
    requires
        !state.telemetry_failed_open,
    ensures
        ({
            let after = state.observed(now, active, completed_total, Some(gpu), host_cpu_percent);
            &&& after.ceiling == state.ceiling && after.effective_limit == state.effective_limit
            &&& after.best_limit == state.best_limit && after.best_score == state.best_score
            &&& after.testing_from == state.testing_from && after.last_lower == state.last_lower
            &&& after.settled == state.settled && after.last_probe == state.last_probe
            &&& after.last_blocked == state.last_blocked
            &&& after.latest_gpu == Some(gpu)
            &&& after.latest_host_cpu_percent == host_cpu_percent
            &&& !after.telemetry_failed_open
        }),
{
}

/// A sample that completes no window says what it waits for: leases above the
/// limit drain, others are observed.
pub proof fn law_waiting_is_explained<U>(
    state: Calibration<U>,
    now: u64,
    active: u32,
    completed_total: u64,
    gpu: GpuSample<U>,
    host_cpu_percent: Option<U>,
)
    requires
        !state.telemetry_failed_open,
        active != state.effective_limit,
    ensures
        ({
            let after = state.observed(now, active, completed_total, Some(gpu), host_cpu_percent);
            &&& state.observation(now, active, completed_total, Some(gpu)) matches
                Observation::Sampled { evaluation, .. } && evaluation is None
            &&& active > state.effective_limit ==> after.reason
                == "waiting for active leases to drain from "@ + crate::digits::decimal(
                active as nat,
            ) + " to "@ + crate::digits::decimal(state.effective_limit as nat)
            &&& active < state.effective_limit ==> after.reason
                == "observing stable residency at "@ + crate::digits::decimal(active as nat)
                + "/"@ + crate::digits::decimal(state.effective_limit as nat)
        }),
{
}

/// Lost telemetry forgets what was learned and stops looking for a limit, until
/// telemetry is back; then calibration starts over, and demand is remembered
/// throughout.
pub proof fn law_lost_telemetry_forgets<U>(
    state: Calibration<U>,
    now: u64,
    active: u32,
    completed_total: u64,
    host_cpu_percent: Option<U>,
    back: Sample<U>,
    active_then: u32,
)
    ensures
        ({
            let lost = state.observed(now, active, completed_total, None, host_cpu_percent);
            let after = lost.observed(
                back.now,
                active_then,
                back.completed_total,
                Some(back.gpu),
                back.host_cpu_percent,
            );
            &&& lost.settled && lost.telemetry_failed_open && lost.best_limit == state.ceiling
            &&& lost.best_score is None && lost.testing_from is None && lost.last_lower is None
            &&& lost.latest_gpu is None && lost.latest_host_cpu_percent == host_cpu_percent
            &&& lost.ceiling == state.ceiling && lost.last_blocked == state.last_blocked
            &&& lost.reason == "GPU telemetry unavailable; using full residency"@
            &&& state.observation(now, active, completed_total, None) is Unsampled
            &&& lost.observation(
                back.now,
                active_then,
                back.completed_total,
                Some(back.gpu),
            ) is Unsampled
            &&& state.ceiling > 2 ==> !after.settled && 3 * after.effective_limit
                >= state.ceiling && 3 * (after.effective_limit - 1) < state.ceiling
            &&& state.ceiling <= 2 ==> after.settled && after.effective_limit == state.ceiling
            &&& after.best_limit == after.effective_limit
            &&& after.best_score is None && after.testing_from is None && after.last_lower is None
            &&& after.last_probe == back.now && after.last_blocked == state.last_blocked
            &&& after.latest_gpu == Some(back.gpu)
            &&& after.latest_host_cpu_percent == back.host_cpu_percent
            &&& after.ceiling == state.ceiling
            &&& after.reason == "GPU telemetry recovered; restarting calibration"@
        }),
{
}

/// A changed ceiling brings the limits within it, forgets what was learned and
/// starts an idle window; demand is remembered.
pub proof fn law_changed_ceiling_restarts<U>(
    state: Calibration<U>,
    ceiling: u32,
    now: u64,
    completed_total: u64,
)
    requires
        state.wf(),
        ceiling >= 1,
        ceiling != state.ceiling,
    ensures
        ({
            let after = state.with_ceiling(ceiling, now, completed_total);
            &&& after.ceiling == ceiling
            &&& state.effective_limit <= ceiling ==> after.effective_limit == state.effective_limit
            &&& state.effective_limit > ceiling ==> after.effective_limit == ceiling
            &&& state.best_limit <= ceiling ==> after.best_limit == state.best_limit
            &&& state.best_limit > ceiling ==> after.best_limit == ceiling
            &&& after.settled <==> state.effective_limit >= ceiling
            &&& after.best_score is None && after.testing_from is None && after.last_lower is None
            &&& after.last_probe == now && after.last_blocked == state.last_blocked
            &&& after.observed_active == 0 && after.window_samples == 0
            &&& after.window_started == now && after.completed_at_start == completed_total
            &&& after.telemetry_failed_open == state.telemetry_failed_open
            &&& after.latest_gpu == state.latest_gpu
            &&& after.latest_host_cpu_percent == state.latest_host_cpu_percent
            &&& after.reason == "pool ceiling changed; restarting calibration"@
        }),
{
}

/// A candidate that fails leaves the limit it was compared with, with the score
/// that this limit had, and says why: memory first, then CPU, then gain.
pub proof fn law_failed_candidate_is_explained<U>(
    state: Calibration<U>,
    evaluation: Evaluation<U>,
    judgement: Judgement<U>,
)
    requires
        state.testing_from is Some,
        judgement.below_marginal_gain || evaluation.gpu.free_memory_mib
            < evaluation.gpu.reserve_mib || !judgement.cpu_safe,
    ensures
        ({
            let after = state.concluded(evaluation, judgement);
            let (limit, score) = state.testing_from->0;
            let short = evaluation.gpu.free_memory_mib < evaluation.gpu.reserve_mib;
            &&& after.effective_limit == limit && after.best_limit == limit
            &&& after.best_score == Some(score)
            &&& after.testing_from is None && after.last_lower == state.last_lower
            &&& after.settled && after.last_probe == evaluation.now
            &&& short ==> after.reason == "returned to "@ + crate::digits::decimal(limit as nat) + (
            ": limiting GPU has "@ + crate::digits::decimal(evaluation.gpu.free_memory_mib as nat)
                + " MiB free; preserving "@ + crate::digits::decimal(
                evaluation.gpu.reserve_mib as nat,
            ) + " MiB reserve"@)
            &&& !short && !judgement.cpu_safe ==> after.reason == "returned to "@
                + crate::digits::decimal(limit as nat) + ": host CPU saturated at "@
                + judgement.mean_cpu@ + "%"@
            &&& !short && judgement.cpu_safe ==> after.reason == "returned to "@
                + crate::digits::decimal(limit as nat) + ": marginal gain "@
                + judgement.improvement@ + "% is below 2.0%"@
        }),
{
}

/// A candidate with sufficient gain and without strain is accepted: it is the
/// best limit so far, with the score it was measured with, and the limit that it
/// was compared with is what a later strain falls back to.
pub proof fn law_held_candidate_is_accepted<U>(
    state: Calibration<U>,
    evaluation: Evaluation<U>,
    judgement: Judgement<U>,
)
    requires
        state.wf(),
        state.testing_from is Some,
        !judgement.below_marginal_gain,
        evaluation.gpu.free_memory_mib >= evaluation.gpu.reserve_mib,
        judgement.cpu_safe,
    ensures
        ({
            let after = state.concluded(evaluation, judgement);
            &&& after.best_limit == state.effective_limit
            &&& after.best_score == Some(judgement.score)
            &&& after.last_lower == state.testing_from
            &&& after.effective_limit >= state.effective_limit
        }),
{
}

/// Where callers were blocked in the last thirty seconds, memory and CPU suffice
/// and no candidate failed, a limit below the ceiling is doubled within it: at
/// once while no limit is settled on, else once fifteen minutes have passed. The
/// limit so far is what the candidate is compared with.
pub proof fn law_demand_probes_twice_the_limit<U>(
    state: Calibration<U>,
    evaluation: Evaluation<U>,
    judgement: Judgement<U>,
)
    requires
        state.wf(),
        state.last_blocked is Some,
        evaluation.now <= state.last_blocked->0 + 30_000_000_000,
        evaluation.gpu.free_memory_mib >= evaluation.gpu.reserve_mib,
        judgement.cpu_safe,
        state.testing_from is None || !judgement.below_marginal_gain,
        state.effective_limit < state.ceiling,
        !state.settled || evaluation.now >= state.last_probe + 900_000_000_000,
    ensures
        ({
            let after = state.concluded(evaluation, judgement);
            &&& 2 * state.effective_limit <= state.ceiling ==> after.effective_limit == 2
                * state.effective_limit
            &&& 2 * state.effective_limit > state.ceiling ==> after.effective_limit
                == state.ceiling
            &&& after.testing_from == Some((state.effective_limit, judgement.score))
            &&& after.best_limit == state.effective_limit
            &&& after.best_score == Some(judgement.score)
            &&& !after.settled && after.last_probe == state.last_probe
            &&& after.reason == "probing resident limit "@ + crate::digits::decimal(
                after.effective_limit as nat,
            )
        }),
{
}

/// A settled limit is not probed within fifteen minutes of the last decision:
/// without strain it stays.
pub proof fn law_settled_limit_rests<U>(
    state: Calibration<U>,
    evaluation: Evaluation<U>,
    judgement: Judgement<U>,
)
    requires
        state.settled,
        state.testing_from is None,
        evaluation.now < state.last_probe + 900_000_000_000,
        evaluation.gpu.free_memory_mib >= evaluation.gpu.reserve_mib,
        judgement.cpu_safe,
    ensures
        ({
            let after = state.concluded(evaluation, judgement);
            &&& after.effective_limit == state.effective_limit
            &&& after.settled && after.last_probe == evaluation.now
            &&& after.testing_from is None && after.last_lower == state.last_lower
            &&& after.best_limit == state.effective_limit
            &&& after.best_score == Some(judgement.score)
            &&& after.reason == "settled at resident limit "@ + crate::digits::decimal(
                state.effective_limit as nat,
            )
        }),
{
}

/// A settled limit that comes under strain, too early for another probe, falls
/// to the lower limit that is known, with the score that this limit had; with
/// none known it holds. Either way the strain is named.
pub proof fn law_strain_on_a_settled_limit<U>(
    state: Calibration<U>,
    evaluation: Evaluation<U>,
    judgement: Judgement<U>,
)
    requires
        state.settled,
        state.testing_from is None,
        evaluation.now < state.last_probe + 900_000_000_000,
        evaluation.gpu.free_memory_mib < evaluation.gpu.reserve_mib || !judgement.cpu_safe,
    ensures
        ({
            let after = state.concluded(evaluation, judgement);
            let short = evaluation.gpu.free_memory_mib < evaluation.gpu.reserve_mib;
            let memory = ": limiting GPU has "@ + crate::digits::decimal(
                evaluation.gpu.free_memory_mib as nat,
            ) + " MiB free; preserving "@ + crate::digits::decimal(
                evaluation.gpu.reserve_mib as nat,
            ) + " MiB reserve"@;
            &&& after.settled && after.last_probe == evaluation.now && after.testing_from is None
            &&& match state.last_lower {
                Some((limit, score)) => {
                    &&& after.effective_limit == limit && after.best_limit == limit
                    &&& after.best_score == Some(score) && after.last_lower is None
                    &&& short ==> after.reason == "returned to "@ + crate::digits::decimal(
                        limit as nat,
                    ) + memory
                    &&& !short ==> after.reason == "returned to "@ + crate::digits::decimal(
                        limit as nat,
                    ) + ": host CPU saturated at "@ + judgement.mean_cpu@ + "%"@
                },
                None => {
                    &&& after.effective_limit == state.effective_limit
                    &&& short ==> after.reason == "holding at "@ + crate::digits::decimal(
                        state.effective_limit as nat,
                    ) + memory
                    &&& !short ==> after.reason == "holding at "@ + crate::digits::decimal(
                        state.effective_limit as nat,
                    ) + " because host CPU is "@ + judgement.mean_cpu@ + "% busy"@
                },
            }
        }),
{
}

/// While a limit is looked for, a window without demand or with strain settles
/// on the limit it measured; a candidate on trial must not have failed.
pub proof fn law_search_ends_without_demand<U>(
    state: Calibration<U>,
    evaluation: Evaluation<U>,
    judgement: Judgement<U>,
)
    requires
        !state.settled,
        state.testing_from is Some ==> !judgement.below_marginal_gain
            && evaluation.gpu.free_memory_mib >= evaluation.gpu.reserve_mib && judgement.cpu_safe,
        state.last_blocked matches Some(blocked) ==> evaluation.now > blocked + 30_000_000_000
            || evaluation.gpu.free_memory_mib < evaluation.gpu.reserve_mib || !judgement.cpu_safe,
    ensures
        ({
            let after = state.concluded(evaluation, judgement);
            &&& after.effective_limit == state.effective_limit
            &&& after.best_limit == state.effective_limit
            &&& after.best_score == Some(judgement.score)
            &&& after.settled && after.last_probe == evaluation.now && after.testing_from is None
        }),
{
}

/// No judgement touches the ceiling, the demand or the telemetry.
pub proof fn law_judgement_keeps_the_circumstances<U>(
    state: Calibration<U>,
    evaluation: Evaluation<U>,
    judgement: Judgement<U>,
)
    ensures
        ({
            let after = state.concluded(evaluation, judgement);
            &&& after.ceiling == state.ceiling && after.last_blocked == state.last_blocked
            &&& after.latest_gpu == state.latest_gpu
            &&& after.latest_host_cpu_percent == state.latest_host_cpu_percent
            &&& after.telemetry_failed_open == state.telemetry_failed_open
            &&& after.window_samples == 0 && after.window_started == evaluation.now
            &&& after.completed_at_start == evaluation.completed_total
            &&& after.observed_active == evaluation.active
        }),
{
}

/// What is published is the limit in force, the reason of the last decision and
/// the last telemetry; a state that settled on nothing is calibrating.
pub proof fn law_snapshot_shows_the_state<U>(state: Calibration<U>)
    ensures
        state.published().effective_limit == state.effective_limit,
        state.published().device_limit == state.effective_limit,
        state.published().device_ordinal == 0,
        state.published().reason == state.reason,
        state.published().calibrating <==> !state.settled,
        state.published().host_cpu_percent == state.latest_host_cpu_percent,
        match state.latest_gpu {
            Some(gpu) => {
                &&& state.published().gpu_utilization_percent == Some(gpu.utilization_percent)
                &&& state.published().gpu_memory_used_mib == Some(gpu.used_memory_mib)
                &&& state.published().gpu_memory_total_mib == Some(gpu.total_memory_mib)
            },
            None => {
                &&& state.published().gpu_utilization_percent is None
                &&& state.published().gpu_memory_used_mib is None
                &&& state.published().gpu_memory_total_mib is None
            },
        },
{
}

} // verus!
