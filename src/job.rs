//! The mutable state of one progress job: status, the (current, total) pair kept
//! clamped, the smoothed rate estimator and multi-stage tracking.
use vstd::prelude::*;
use crate::status::{ProgressStatus, ProgressJobDoneBehavior, displayed, children_displayed};

verus! {

/// Fixed scale of the overall progress across stages.
pub const STAGE_SCALE: usize = 1_000_000;

/// Minimum time between two samples of the rate estimator, in milliseconds.
pub const RATE_DEBOUNCE_MS: u64 = 100;

/// Rates are held in thousandths of an item per second.
pub const RATE_UNIT: u64 = 1000;

/// The state of one job.
pub struct JobState {
    pub status: ProgressStatus,
    pub on_done: ProgressJobDoneBehavior,
    pub current: Option<usize>,
    pub total: Option<usize>,
    /// Time (ms) and value of the last progress sample the estimator took.
    pub last_sample: Option<(u64, usize)>,
    /// Smoothed rate, in thousandths of an item per second.
    pub smoothed_rate: Option<u64>,
    pub operations_total: Option<usize>,
    pub operation_index: usize,
    /// Time (ms) at which the current stage started.
    pub operation_start: u64,
}

/// `current <= total` whenever both are set.
pub open spec fn clamped(current: Option<usize>, total: Option<usize>) -> bool {
    match (current, total) {
        (Some(c), Some(t)) => c <= t,
        _ => true,
    }
}

/// One step of the exponential moving average, with weight 1/10 on the new sample,
/// rounded up so that a positive rate stays positive.
pub open spec fn ema(old_rate: nat, sample: nat) -> nat {
    (sample + 9 * old_rate + 9) / 10
}

/// Instantaneous rate, in thousandths of an item per second, of `items` over `ms` milliseconds:
/// rounded down, but at least one unit when some item was done, and capped at `u64::MAX`.
pub open spec fn sample_rate(items: nat, ms: nat) -> nat {
    let r = items * 1_000_000 / ms;
    if r > u64::MAX {
        u64::MAX as nat
    } else if r == 0 && items > 0 {
        1
    } else {
        r
    }
}

/// The estimator after a progress sample `value` at time `now`.
pub open spec fn rate_after(
    last: Option<(u64, usize)>,
    rate: Option<u64>,
    now: u64,
    value: usize,
) -> (Option<(u64, usize)>, Option<u64>) {
    match last {
        None => (Some((now, value)), rate),
        Some((t, v)) => {
            if now >= t && now - t >= RATE_DEBOUNCE_MS && value > v {
                let s = sample_rate((value - v) as nat, (now - t) as nat);
                let r = match rate {
                    Some(o) => ema(o as nat, s),
                    None => s,
                };
                (Some((now, value)), Some(r as u64))
            } else {
                (last, rate)
            }
        },
    }
}

/// A sample that shows progress after the debounce interval leaves a positive rate, and
/// one taken earlier, or without progress, leaves the rate as it was.
pub proof fn lemma_rate_positive(
    last: Option<(u64, usize)>,
    rate: Option<u64>,
    now: u64,
    value: usize,
)
    ensures
        (last matches Some((t, v)) && now >= t && now - t >= RATE_DEBOUNCE_MS && value > v) ==> (
        rate_after(last, rate, now, value).1 matches Some(r) && r > 0),
        (last matches Some((t, v)) && !(now >= t && now - t >= RATE_DEBOUNCE_MS && value > v))
            ==> rate_after(last, rate, now, value).1 == rate,
        last is None ==> rate_after(last, rate, now, value).1 == rate,
{
}

/// Bounds of stage `i` of `n` on the scale `STAGE_SCALE`.
pub open spec fn stage_start(n: nat, i: nat) -> nat {
    if i >= n {
        STAGE_SCALE as nat
    } else {
        i * (STAGE_SCALE as nat) / n
    }
}

/// Overall progress, on the scale `STAGE_SCALE`, at stage `i` of `n` with `cur` of `tot` done:
/// the stage's share of the scale is filled in proportion to `cur / tot`.
pub open spec fn stage_progress(n: nat, i: nat, cur: nat, tot: nat) -> nat {
    if i >= n {
        STAGE_SCALE as nat
    } else if tot == 0 {
        stage_start(n, i)
    } else {
        stage_start(n, i) + cur * ((stage_start(n, i + 1) - stage_start(n, i)) as nat) / tot
    }
}

/// What `overall_progress` reports for a state.
pub open spec fn overall(s: &JobState) -> Option<(usize, usize)> {
    match (s.operations_total, s.current, s.total) {
        (Some(n), Some(c), Some(t)) => Some(
            (stage_progress(n as nat, s.operation_index as nat, c as nat, t as nat) as usize, STAGE_SCALE),
        ),
        (Some(n), _, _) => Some((stage_start(n as nat, s.operation_index as nat) as usize, STAGE_SCALE)),
        (None, Some(c), Some(t)) => Some((c, t)),
        _ => None,
    }
}

impl JobState {
    /// The state's invariant: the progress pair is clamped and a declared stage count is
    /// at least one.
    pub open spec fn wf(&self) -> bool {
        &&& clamped(self.current, self.total)
        &&& match self.operations_total {
            Some(n) => n >= 1,
            None => true,
        }
    }

    /// A new job state: the given status and done behaviour, no progress, no stages.
    pub fn new(status: ProgressStatus, on_done: ProgressJobDoneBehavior, now: u64) -> (r: Self)
        ensures
            r.wf(),
            r.status == status,
            r.on_done == on_done,
            r.current is None,
            r.total is None,
            r.last_sample is None,
            r.smoothed_rate is None,
            r.operations_total is None,
            r.operation_index == 0,
            r.operation_start == now,
    {
        JobState {
            status,
            on_done,
            current: None,
            total: None,
            last_sample: None,
            smoothed_rate: None,
            operations_total: None,
            operation_index: 0,
            operation_start: now,
        }
    }

    /// A state built with initial progress values; a current value above the total is
    /// lowered to it.
    pub fn with_progress(
        status: ProgressStatus,
        on_done: ProgressJobDoneBehavior,
        current: Option<usize>,
        total: Option<usize>,
        now: u64,
    ) -> (r: Self)
        ensures
            r.wf(),
            r.status == status,
            r.on_done == on_done,
            r.total == total,
            r.current == match (current, total) {
                (Some(c), Some(t)) => Some(if c <= t { c } else { t }),
                _ => current,
            },
            r.last_sample is None,
            r.smoothed_rate is None,
            r.operations_total is None,
            r.operation_index == 0,
    {
        let current = match (current, total) {
            (Some(c), Some(t)) => Some(if c <= t { c } else { t }),
            _ => current,
        };
        JobState {
            status,
            on_done,
            current,
            total,
            last_sample: None,
            smoothed_rate: None,
            operations_total: None,
            operation_index: 0,
            operation_start: now,
        }
    }

    /// Returns `true` if the job is active.
    pub fn is_running(&self) -> (r: bool)
        ensures
            r == self.status.active(),
    {
        self.status.is_active()
    }

    /// Whether the job is drawn: not hidden, and active or not hidden once done.
    pub fn should_display(&self) -> (r: bool)
        ensures
            r == displayed(&self.status, self.on_done),
    {
        crate::status::should_display(&self.status, self.on_done)
    }

    /// Whether the job's children are drawn: it is active, or keeps them once done.
    pub fn should_display_children(&self) -> (r: bool)
        ensures
            r == children_displayed(&self.status, self.on_done),
    {
        crate::status::should_display_children(&self.status, self.on_done)
    }

    /// Sets the status. Returns `true` if it changed; then `finishing` tells whether a
    /// final frame is owed at once.
    pub fn set_status(&mut self, status: ProgressStatus) -> (changed: bool)
        requires
            old(self).wf(),
        ensures
            final(self).wf(),
            changed == !old(self).status.same(&status),
            changed ==> final(self).status == status,
            !changed ==> final(self).status == old(self).status,
            final(self).current == old(self).current,
            final(self).total == old(self).total,
            final(self).on_done == old(self).on_done,
            final(self).operations_total == old(self).operations_total,
            final(self).operation_index == old(self).operation_index,
    {
        if self.status.same_as(&status) {
            false
        } else {
            self.status = status;
            true
        }
    }

    /// Feeds a progress sample taken at time `now` (ms) to the rate estimator.
    pub fn update_smoothed_rate(&mut self, value: usize, now: u64)
        ensures
            (final(self).last_sample, final(self).smoothed_rate) == rate_after(
                old(self).last_sample,
                old(self).smoothed_rate,
                now,
                value,
            ),
            final(self).status == old(self).status,
            final(self).on_done == old(self).on_done,
            final(self).current == old(self).current,
            final(self).total == old(self).total,
            final(self).operations_total == old(self).operations_total,
            final(self).operation_index == old(self).operation_index,
            final(self).operation_start == old(self).operation_start,
    {
        match self.last_sample {
            None => {
                self.last_sample = Some((now, value));
            },
            Some((t, v)) => {
                if now >= t && now - t >= RATE_DEBOUNCE_MS && value > v {
                    let items: u128 = (value - v) as u128;
                    let ms: u128 = (now - t) as u128;
                    assert(items * 1_000_000 < 0x1_0000_0000_0000_0000_0000_0000) by (
                    nonlinear_arith)
                        requires
                            items < 0x1_0000_0000_0000_0000,
                    ;
                    let raw: u128 = items * 1_000_000 / ms;
                    let s: u64 = if raw > u64::MAX as u128 {
                        u64::MAX
                    } else if raw == 0 {
                        1
                    } else {
                        raw as u64
                    };
                    let r: u64 = match self.smoothed_rate {
                        Some(o) => {
                            let x: u128 = (s as u128 + 9 * o as u128 + 9) / 10;
                            assert(x <= u64::MAX);
                            x as u64
                        },
                        None => s,
                    };
                    self.last_sample = Some((now, value));
                    self.smoothed_rate = Some(r);
                }
            },
        }
    }

    /// Sets the current value, lowered to the total if one is set, and feeds the
    /// rate estimator.
    pub fn progress_current(&mut self, current: usize, now: u64) -> (stored: usize)
        requires
            old(self).wf(),
        ensures
            final(self).wf(),
            stored == match old(self).total {
                Some(t) => if current <= t { current } else { t },
                None => current,
            },
            final(self).current == Some(stored),
            final(self).total == old(self).total,
            (final(self).last_sample, final(self).smoothed_rate) == rate_after(
                old(self).last_sample,
                old(self).smoothed_rate,
                now,
                stored,
            ),
            final(self).status == old(self).status,
            final(self).operations_total == old(self).operations_total,
            final(self).operation_index == old(self).operation_index,
    {
        let stored = match self.total {
            Some(t) => if current <= t {
                current
            } else {
                t
            },
            None => current,
        };
        self.update_smoothed_rate(stored, now);
        self.current = Some(stored);
        stored
    }

    /// Sets the total, raised to the current value if one is set.
    pub fn progress_total(&mut self, total: usize) -> (stored: usize)
        requires
            old(self).wf(),
        ensures
            final(self).wf(),
            stored == match old(self).current {
                Some(c) => if total >= c { total } else { c },
                None => total,
            },
            final(self).total == Some(stored),
            final(self).current == old(self).current,
            final(self).last_sample == old(self).last_sample,
            final(self).smoothed_rate == old(self).smoothed_rate,
            final(self).status == old(self).status,
            final(self).operations_total == old(self).operations_total,
            final(self).operation_index == old(self).operation_index,
    {
        let stored = match self.current {
            Some(c) => if total >= c {
                total
            } else {
                c
            },
            None => total,
        };
        self.total = Some(stored);
        stored
    }

    /// Adds `n` to the current value (an unset value counts as zero), saturating,
    /// lowered to the total if one is set, and feeds the rate estimator.
    pub fn increment(&mut self, n: usize, now: u64) -> (stored: usize)
        requires
            old(self).wf(),
        ensures
            final(self).wf(),
            ({
                let base = match old(self).current {
                    Some(c) => c as int,
                    None => 0,
                };
                let sum = if base + n > usize::MAX { usize::MAX as int } else { base + n };
                stored == match old(self).total {
                    Some(t) => if sum <= t { sum } else { t as int },
                    None => sum,
                }
            }),
            final(self).current == Some(stored),
            final(self).total == old(self).total,
            (final(self).last_sample, final(self).smoothed_rate) == rate_after(
                old(self).last_sample,
                old(self).smoothed_rate,
                now,
                stored,
            ),
            final(self).status == old(self).status,
            final(self).operations_total == old(self).operations_total,
            final(self).operation_index == old(self).operation_index,
    {
        let base: usize = match self.current {
            Some(c) => c,
            None => 0,
        };
        let sum: usize = base.saturating_add(n);
        let stored = match self.total {
            Some(t) => if sum <= t {
                sum
            } else {
                t
            },
            None => sum,
        };
        self.update_smoothed_rate(stored, now);
        self.current = Some(stored);
        stored
    }

    /// Declares `count` stages (at least one) and returns to the first.
    pub fn start_operations(&mut self, count: usize)
        requires
            old(self).wf(),
        ensures
            final(self).wf(),
            final(self).operations_total == Some(if count >= 1 { count } else { 1 }),
            final(self).operation_index == 0,
            final(self).current == old(self).current,
            final(self).total == old(self).total,
            final(self).last_sample == old(self).last_sample,
            final(self).smoothed_rate == old(self).smoothed_rate,
            final(self).status == old(self).status,
    {
        let count = if count >= 1 {
            count
        } else {
            1
        };
        self.operations_total = Some(count);
        self.operation_index = 0;
    }

    /// Moves to the next stage at time `now` (ms): the progress pair and the rate
    /// estimator start afresh.
    pub fn next_operation(&mut self, now: u64)
        requires
            old(self).wf(),
        ensures
            final(self).wf(),
            final(self).operation_index == if old(self).operation_index < usize::MAX {
                old(self).operation_index + 1
            } else {
                usize::MAX as int
            },
            final(self).operations_total == old(self).operations_total,
            final(self).current is None,
            final(self).total is None,
            final(self).last_sample is None,
            final(self).smoothed_rate is None,
            final(self).operation_start == now,
            final(self).status == old(self).status,
    {
        self.operation_index = self.operation_index.saturating_add(1);
        self.current = None;
        self.total = None;
        self.last_sample = None;
        self.smoothed_rate = None;
        self.operation_start = now;
    }

    /// The progress as one (current, total) pair: across stages on the scale
    /// `STAGE_SCALE` once stages are declared, else the raw pair.
    pub fn overall_progress(&self) -> (r: Option<(usize, usize)>)
        requires
            self.wf(),
        ensures
            r == overall(self),
    {
        match self.operations_total {
            Some(n) => {
                let i = self.operation_index;
                match (self.current, self.total) {
                    (Some(c), Some(t)) => Some((stage_progress_exec(n, i, c, t), STAGE_SCALE)),
                    _ => Some((stage_start_exec(n, i), STAGE_SCALE)),
                }
            },
            None => match (self.current, self.total) {
                (Some(c), Some(t)) => Some((c, t)),
                _ => None,
            },
        }
    }
}

proof fn lemma_stage_start_bounds(n: nat, i: nat)
    requires
        n >= 1,
    ensures
        stage_start(n, i) <= STAGE_SCALE,
        i < n ==> stage_start(n, i) <= stage_start(n, i + 1),
{
    if i < n {
        assert(i * 1_000_000 / n <= 1_000_000) by (nonlinear_arith)
            requires
                i < n,
        ;
        if i + 1 < n {
            assert(i * 1_000_000 / n <= (i + 1) * 1_000_000 / n) by (nonlinear_arith)
                requires
                    n >= 1,
            ;
        }
    }
}

fn stage_start_exec(n: usize, i: usize) -> (r: usize)
    requires
        n >= 1,
    ensures
        r == stage_start(n as nat, i as nat),
{
    proof {
        lemma_stage_start_bounds(n as nat, i as nat);
    }
    if i >= n {
        STAGE_SCALE
    } else {
        ((i as u128) * (STAGE_SCALE as u128) / (n as u128)) as usize
    }
}

fn stage_progress_exec(n: usize, i: usize, cur: usize, tot: usize) -> (r: usize)
    requires
        n >= 1,
        cur <= tot,
    ensures
        r == stage_progress(n as nat, i as nat, cur as nat, tot as nat),
        r <= STAGE_SCALE,
{
    proof {
        lemma_stage_start_bounds(n as nat, i as nat);
    }
    if i >= n {
        STAGE_SCALE
    } else if tot == 0 {
        stage_start_exec(n, i)
    } else {
        let a = stage_start_exec(n, i);
        let b: usize = if i + 1 >= n {
            STAGE_SCALE
        } else {
            stage_start_exec(n, i + 1)
        };
        proof {
            lemma_stage_start_bounds(n as nat, (i + 1) as nat);
        }
        let w: usize = b - a;
        assert((cur as u128) * (w as u128) <= 0xffff_ffff_ffff_ffff * 1_000_000) by (
        nonlinear_arith)
            requires
                cur <= 0xffff_ffff_ffff_ffffu64,
                w <= 1_000_000,
        ;
        let f: u128 = (cur as u128) * (w as u128) / (tot as u128);
        assert(f <= w) by (nonlinear_arith)
            requires
                f as int == (cur as int) * (w as int) / (tot as int),
                cur <= tot,
                tot > 0,
        ;
        a + f as usize
    }
}

/// A declared stage count keeps every reported overall value within the scale.
pub proof fn lemma_overall_within_scale(n: nat, i: nat, cur: nat, tot: nat)
    requires
        n >= 1,
        cur <= tot,
    ensures
        stage_progress(n, i, cur, tot) <= STAGE_SCALE,
{
    lemma_stage_start_bounds(n, i);
    if i < n && tot > 0 {
        lemma_stage_start_bounds(n, i + 1);
        let w = (stage_start(n, i + 1) - stage_start(n, i)) as nat;
        assert(cur * w / tot <= w) by (nonlinear_arith)
            requires
                cur <= tot,
                tot > 0,
        ;
    }
}

/// Within a stage, overall progress does not decrease as the stage's own progress grows.
pub proof fn lemma_stage_progress_monotonic(n: nat, i: nat, c1: nat, c2: nat, tot: nat)
    requires
        n >= 1,
        c1 <= c2 <= tot,
    ensures
        stage_progress(n, i, c1, tot) <= stage_progress(n, i, c2, tot),
{
    lemma_stage_start_bounds(n, i);
    if i < n && tot > 0 {
        let w = (stage_start(n, i + 1) - stage_start(n, i)) as nat;
        assert(c1 * w / tot <= c2 * w / tot) by (nonlinear_arith)
            requires
                c1 <= c2,
                tot > 0,
        ;
    }
}

/// Completing a stage reaches exactly where the next stage starts, and completing the
/// last stage reaches the full scale.
pub proof fn lemma_stage_completion(n: nat, i: nat, tot: nat)
    requires
        n >= 1,
        i < n,
        tot > 0,
    ensures
        stage_progress(n, i, tot, tot) == stage_start(n, i + 1),
        i + 1 == n ==> stage_progress(n, i, tot, tot) == STAGE_SCALE,
{
    lemma_stage_start_bounds(n, i);
    let w = (stage_start(n, i + 1) - stage_start(n, i)) as nat;
    assert(tot * w / tot == w) by (nonlinear_arith)
        requires
            tot > 0,
    ;
}

/// With at most `STAGE_SCALE` stages, each driven to completion, the overall progress
/// strictly increases from one completed stage to the next and ends at the full scale.
pub proof fn lemma_stages_reach_scale(n: nat, i: nat, t1: nat, t2: nat)
    requires
        1 <= n <= STAGE_SCALE,
        i + 1 < n,
        t1 > 0,
        t2 > 0,
    ensures
        stage_progress(n, i, t1, t1) < stage_progress(n, i + 1, t2, t2),
        stage_progress(n, (n - 1) as nat, t2, t2) == STAGE_SCALE,
{
    lemma_stage_completion(n, i, t1);
    lemma_stage_completion(n, i + 1, t2);
    lemma_stage_completion(n, (n - 1) as nat, t2);
    let s = STAGE_SCALE as nat;
    if i + 2 < n {
        assert((i + 1) * s / n < (i + 2) * s / n) by (nonlinear_arith)
            requires
                n >= 1,
                n <= s,
        ;
    } else {
        assert((i + 1) * s / n < s) by (nonlinear_arith)
            requires
                i + 1 < n,
                n <= s,
        ;
    }
}

} // verus!
