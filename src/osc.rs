//! The terminal progress indicator (OSC 9;4): its escape sequence, which terminals take
//! it, and the percentage and state derived from the jobs.
use vstd::prelude::*;
use crate::text::{dec, push_dec, chars_of, same_chars, string_of};

verus! {

/// States of the OSC 9;4 indicator.
#[derive(Debug, Clone, Copy, PartialEq, Eq, Structural)]
pub enum ProgressState {
    /// No indicator; clears one that is shown.
    Clear,
    /// Normal progress.
    Normal,
    /// Error state.
    Error,
    /// Activity without a known percentage.
    Indeterminate,
    /// Warning state.
    Warning,
}

/// The numeric code of an indicator state.
pub open spec fn state_code(s: ProgressState) -> nat {
    match s {
        ProgressState::Clear => 0,
        ProgressState::Normal => 1,
        ProgressState::Error => 2,
        ProgressState::Indeterminate => 3,
        ProgressState::Warning => 4,
    }
}

impl ProgressState {
    /// The numeric code of the state in the escape sequence.
    pub fn as_code(&self) -> (r: u8)
        ensures
            r as nat == state_code(*self),
    {
        match self {
            ProgressState::Clear => 0,
            ProgressState::Normal => 1,
            ProgressState::Error => 2,
            ProgressState::Indeterminate => 3,
            ProgressState::Warning => 4,
        }
    }
}

/// `ESC ] 9 ; 4 ; <state> ; <percent> ESC \`, the percentage capped at 100.
pub open spec fn osc_sequence(state: ProgressState, progress: nat) -> Seq<char> {
    let p = if progress > 100 {
        100
    } else {
        progress
    };
    seq!['\x1b', ']', '9', ';', '4', ';'] + dec(state_code(state)) + seq![';'] + dec(p) + seq![
        '\x1b',
        '\\',
    ]
}

/// The escape sequence that sets the terminal's progress indicator; a percentage above
/// 100 is lowered to 100.
pub fn set_progress(state: ProgressState, progress: u8) -> (r: String)
    ensures
        r@ == osc_sequence(state, progress as nat),
{
    let p: u8 = if progress > 100 {
        100
    } else {
        progress
    };
    let mut out: Vec<char> = vec!['\x1b', ']', '9', ';', '4', ';'];
    push_dec(&mut out, state.as_code() as u64);
    out.push(';');
    push_dec(&mut out, p as u64);
    out.push('\x1b');
    out.push('\\');
    string_of(&out)
}

/// The escape sequence that clears the terminal's progress indicator.
pub fn clear_progress() -> (r: String)
    ensures
        r@ == osc_sequence(ProgressState::Clear, 0),
{
    set_progress(ProgressState::Clear, 0)
}

/// Whether a terminal takes OSC 9;4 sequences: Ghostty and VS Code do, iTerm2, WezTerm
/// and Alacritty do not; otherwise Windows Terminal and VTE-based terminals do.
pub open spec fn osc_supported(term_program: Option<Seq<char>>, wt_session: bool, vte: bool) -> bool {
    match term_program {
        Some(p) if p == seq!['g', 'h', 'o', 's', 't', 't', 'y'] || p == seq![
            'v',
            's',
            'c',
            'o',
            'd',
            'e',
        ] => true,
        Some(p) if p == seq!['i', 'T', 'e', 'r', 'm', '.', 'a', 'p', 'p'] || p == seq![
            'W',
            'e',
            'z',
            'T',
            'e',
            'r',
            'm',
        ] || p == seq!['A', 'l', 'a', 'c', 'r', 'i', 't', 't', 'y'] => false,
        _ => wt_session || vte,
    }
}

/// Decides OSC 9;4 support from `TERM_PROGRAM` and whether `WT_SESSION` and
/// `VTE_VERSION` are set.
pub fn supports_osc_9_4(term_program: Option<&str>, wt_session: bool, vte_version: bool) -> (r:
    bool)
    ensures
        r == osc_supported(
            match term_program {
                Some(p) => Some(p@),
                None => None,
            },
            wt_session,
            vte_version,
        ),
{
    match term_program {
        Some(p) => {
            let v = chars_of(p);
            if same_chars(&v, &vec!['g', 'h', 'o', 's', 't', 't', 'y']) || same_chars(
                &v,
                &vec!['v', 's', 'c', 'o', 'd', 'e'],
            ) {
                return true;
            }
            if same_chars(&v, &vec!['i', 'T', 'e', 'r', 'm', '.', 'a', 'p', 'p']) || same_chars(
                &v,
                &vec!['W', 'e', 'z', 'T', 'e', 'r', 'm'],
            ) || same_chars(&v, &vec!['A', 'l', 'a', 'c', 'r', 'i', 't', 't', 'y']) {
                return false;
            }
            wt_session || vte_version
        },
        None => wt_session || vte_version,
    }
}

/// What the indicator needs to know of one job.
#[derive(Debug, Clone, Copy)]
pub struct JobSample {
    pub current: Option<usize>,
    pub total: Option<usize>,
    pub running: bool,
    pub failed: bool,
}

/// A job's completion in millionths: its own progress, or one half while running and
/// whole otherwise; `None` for a job whose total is zero, which is not counted.
pub open spec fn sample_ppm(s: JobSample) -> Option<nat> {
    match (s.current, s.total) {
        (Some(c), Some(t)) => if t > 0 {
            Some((if c <= t { c } else { t }) as nat * 1_000_000 / t as nat)
        } else {
            None
        },
        _ => Some(if s.running { 500_000 } else { 1_000_000 }),
    }
}

/// Sum and count of the completions of the first `n` samples.
pub open spec fn ppm_total(samples: Seq<JobSample>, n: nat) -> (nat, nat)
    decreases n,
{
    if n == 0 || n > samples.len() {
        (0, 0)
    } else {
        let (s, k) = ppm_total(samples, (n - 1) as nat);
        match sample_ppm(samples[n - 1]) {
            Some(p) => (s + p, k + 1),
            None => (s, k),
        }
    }
}

/// Whether some job failed.
pub open spec fn any_failed(samples: Seq<JobSample>) -> bool {
    exists|i: int| 0 <= i < samples.len() && samples[i].failed
}

/// The indicator's percentage: the first job's own progress if it has a positive total,
/// else the average completion of every job, rounded down.
pub open spec fn osc_percent(samples: Seq<JobSample>) -> Option<nat> {
    if samples.len() == 0 {
        None
    } else {
        match (samples[0].current, samples[0].total) {
            (Some(c), Some(t)) if t > 0 => {
                let p = (c as nat) * 100 / (t as nat);
                Some(
                    if p > 100 {
                        100
                    } else {
                        p
                    },
                )
            },
            _ => {
                let (s, k) = ppm_total(samples, samples.len());
                if k > 0 {
                    Some(s * 100 / (k * 1_000_000))
                } else {
                    None
                }
            },
        }
    }
}

/// The update the indicator gets after a refresh: a new state and percentage only when
/// the percentage or the failure flag differ from the last ones sent.
pub open spec fn osc_update(samples: Seq<JobSample>, last: Option<(u8, bool)>) -> Option<
    (ProgressState, u8),
> {
    match osc_percent(samples) {
        Some(p) => {
            let failed = any_failed(samples);
            if last == Some((p as u8, failed)) {
                None
            } else {
                Some(
                    (
                        if failed {
                            ProgressState::Error
                        } else {
                            ProgressState::Normal
                        },
                        p as u8,
                    ),
                )
            }
        },
        None => None,
    }
}

fn sample_ppm_exec(s: &JobSample) -> (r: Option<u64>)
    ensures
        match sample_ppm(*s) {
            Some(p) => r == Some(p as u64) && p <= 1_000_000,
            None => r is None,
        },
{
    match (s.current, s.total) {
        (Some(c), Some(t)) => if t > 0 {
            let m: usize = if c <= t {
                c
            } else {
                t
            };
            assert((m as int) * 1_000_000 / (t as int) <= 1_000_000) by (nonlinear_arith)
                requires
                    m <= t,
                    t > 0,
            ;
            Some(((m as u128) * 1_000_000 / (t as u128)) as u64)
        } else {
            None
        },
        _ => Some(
            if s.running {
                500_000
            } else {
                1_000_000
            },
        ),
    }
}

/// The indicator update owed after a refresh, given every job in the tree (the first
/// top-level job first) and the last update sent.
pub fn update_osc_progress(samples: &Vec<JobSample>, last: Option<(u8, bool)>) -> (r: Option<
    (ProgressState, u8),
>)
    ensures
        r == osc_update(samples@, last),
{
    if samples.len() == 0 {
        return None;
    }
    let mut failed = false;
    let mut sum: u128 = 0;
    let mut count: u128 = 0;
    let mut i: usize = 0;
    while i < samples.len()
        invariant
            i <= samples.len(),
            failed == exists|k: int| 0 <= k < i && samples@[k].failed,
            (sum as nat, count as nat) == ppm_total(samples@, i as nat),
            sum <= count * 1_000_000,
            count <= i,
        decreases samples.len() - i,
    {
        let s = &samples[i];
        if s.failed {
            failed = true;
        }
        match sample_ppm_exec(s) {
            Some(p) => {
                sum = sum + p as u128;
                count = count + 1;
            },
            None => {},
        }
        i = i + 1;
    }
    assert(failed == any_failed(samples@));
    let first = &samples[0];
    let pct: Option<u8> = match (first.current, first.total) {
        (Some(c), Some(t)) if t > 0 => {
            let p: u128 = (c as u128) * 100 / (t as u128);
            Some(
                if p > 100 {
                    100
                } else {
                    p as u8
                },
            )
        },
        _ => if count > 0 {
            assert(sum * 100 / (count * 1_000_000) <= 100) by (nonlinear_arith)
                requires
                    sum <= count * 1_000_000,
                    count > 0,
            ;
            Some((sum * 100 / (count * 1_000_000)) as u8)
        } else {
            None
        },
    };
    match pct {
        Some(p) => {
            let same = match last {
                Some((lp, lf)) => lp == p && lf == failed,
                None => false,
            };
            if same {
                None
            } else {
                Some(
                    (
                        if failed {
                            ProgressState::Error
                        } else {
                            ProgressState::Normal
                        },
                        p,
                    ),
                )
            }
        },
        None => None,
    }
}

} // verus!
