//! The display coordinator's state and decisions: output mode, interval, pause and
//! stop flags, the background refresher's lifecycle, smart refresh, the rows a frame
//! takes on the terminal, and how a job's output is put together.
//!
//! The caller owns the terminal, the thread and the clock; it performs what these
//! functions decide and reports back what happened.
use vstd::prelude::*;
use std::time::Duration;
use crate::flex::{flex_text, flex_with_colors, newline, strip_cr};
use crate::layout::{indent, indent_text};
use crate::measure::{text_width, measure_text_width};
use crate::registry::JobRegistry;
use crate::status::ProgressOutput;
use crate::placeholder::is_ws;
use crate::text::{find, occurs_at, find_chars, slice_chars, push_all, chars_of, same_chars, string_of};

verus! {

/// Relies on `Duration::from_millis`: a duration of `ms` milliseconds.
#[verifier::external_body]
fn duration_from_millis(ms: u64) -> (r: Duration) {
    Duration::from_millis(ms)
}

/// Default refresh interval, in milliseconds.
pub const DEFAULT_INTERVAL_MS: u64 = 200;

/// State of the display: mode, interval, pause and stop flags, whether the refresher
/// runs, and what is on screen.
pub struct Coordinator {
    /// Output mode chosen by the program.
    pub output: ProgressOutput,
    /// Text mode forced by the environment.
    pub env_text_mode: bool,
    /// All rendering disabled by the environment.
    pub env_no_progress: bool,
    pub interval: Duration,
    pub paused: bool,
    pub stopping: bool,
    /// Whether the background refresher runs.
    pub started: bool,
    /// Terminal rows taken by the frame on screen.
    pub lines: usize,
    /// The last frame written.
    pub last_output: String,
    /// The last indicator update sent: percentage and failure flag.
    pub last_osc: Option<(u8, bool)>,
}

impl Coordinator {
    /// A coordinator in the stopped state, in UI mode, with the default interval.
    pub fn new(env_text_mode: bool, env_no_progress: bool) -> (r: Self)
        ensures
            r.output == ProgressOutput::UI,
            r.env_text_mode == env_text_mode,
            r.env_no_progress == env_no_progress,
            !r.paused,
            !r.stopping,
            !r.started,
            r.lines == 0,
            r.last_output@.len() == 0,
            r.last_osc is None,
    {
        Coordinator {
            output: ProgressOutput::UI,
            env_text_mode,
            env_no_progress,
            interval: duration_from_millis(DEFAULT_INTERVAL_MS),
            paused: false,
            stopping: false,
            started: false,
            lines: 0,
            last_output: String::new(),
            last_osc: None,
        }
    }
}

/// The output mode in effect: text when the environment forces it.
pub open spec fn effective_output(c: &Coordinator) -> ProgressOutput {
    if c.env_text_mode {
        ProgressOutput::Text
    } else {
        c.output
    }
}

/// Sets the output mode.
pub fn set_output(c: &mut Coordinator, output: ProgressOutput)
    ensures
        *final(c) == (Coordinator { output, ..*old(c) }),
{
    c.output = output;
}

/// The output mode in effect; text mode forced by the environment wins.
pub fn output(c: &Coordinator) -> (r: ProgressOutput)
    ensures
        r == effective_output(c),
{
    if c.env_text_mode {
        ProgressOutput::Text
    } else {
        c.output
    }
}

/// Whether rendering is disabled by the environment.
pub fn is_disabled(c: &Coordinator) -> (r: bool)
    ensures
        r == c.env_no_progress,
{
    c.env_no_progress
}

/// The refresh interval.
pub fn interval(c: &Coordinator) -> (r: Duration)
    ensures
        r == c.interval,
{
    c.interval
}

/// Sets the refresh interval.
pub fn set_interval(c: &mut Coordinator, interval: Duration)
    ensures
        *final(c) == (Coordinator { interval, ..*old(c) }),
{
    c.interval = interval;
}

/// Whether refreshes are paused.
pub fn is_paused(c: &Coordinator) -> (r: bool)
    ensures
        r == c.paused,
{
    c.paused
}

/// Pauses refreshes. Returns whether the display is to be cleared now (the refresher runs).
pub fn pause(c: &mut Coordinator) -> (clear_now: bool)
    ensures
        *final(c) == (Coordinator { paused: true, ..*old(c) }),
        clear_now == old(c).started,
{
    c.paused = true;
    c.started
}

/// Resumes refreshes. Returns whether to wake the refresher for a fresh frame: it runs
/// and the output is in UI mode.
pub fn resume(c: &mut Coordinator) -> (wake: bool)
    ensures
        *final(c) == (Coordinator { paused: false, ..*old(c) }),
        wake == (old(c).started && effective_output(old(c)) == ProgressOutput::UI),
{
    c.paused = false;
    c.started && output(c) == ProgressOutput::UI
}

/// What a wake request asks of the caller.
#[derive(Debug, Clone, Copy, PartialEq, Eq, Structural)]
pub enum Wake {
    /// Nothing: rendering is disabled or stopping.
    Ignore,
    /// Start the refresher, then signal it.
    StartAndSignal,
    /// Signal the refresher (if one listens).
    Signal,
}

/// A wake request: starts the refresher lazily unless disabled, in text mode, stopping
/// or already running.
pub fn notify(c: &mut Coordinator) -> (r: Wake)
    ensures
        (old(c).env_no_progress || old(c).stopping) ==> r == Wake::Ignore && *final(c) == *old(c),
        !(old(c).env_no_progress || old(c).stopping) ==> {
            let start = !old(c).started && effective_output(old(c)) != ProgressOutput::Text;
            &&& r == (if start {
                Wake::StartAndSignal
            } else {
                Wake::Signal
            })
            &&& *final(c) == (Coordinator { started: old(c).started || start, ..*old(c) })
        },
{
    if c.env_no_progress || c.stopping {
        return Wake::Ignore;
    }
    if !c.started && output(c) != ProgressOutput::Text {
        c.started = true;
        Wake::StartAndSignal
    } else {
        Wake::Signal
    }
}

/// How a refresh cycle begins.
#[derive(Debug, Clone, Copy, PartialEq, Eq, Structural)]
pub enum RefreshStart {
    /// Stopping: the refresher ends.
    Exit,
    /// Paused: nothing is drawn, the refresher keeps running.
    Idle,
    /// Render a frame and hand it to `refresh_frame`.
    Render,
}

/// The start of a refresh cycle: a stop request ends the refresher, a pause skips the
/// cycle, otherwise a frame is rendered.
pub fn refresh(c: &mut Coordinator) -> (r: RefreshStart)
    ensures
        old(c).stopping ==> r == RefreshStart::Exit && *final(c) == (Coordinator {
            started: false,
            ..*old(c)
        }),
        !old(c).stopping && old(c).paused ==> r == RefreshStart::Idle && *final(c) == *old(c),
        !old(c).stopping && !old(c).paused ==> r == RefreshStart::Render && *final(c)
            == *old(c),
{
    if c.stopping {
        c.started = false;
        RefreshStart::Exit
    } else if c.paused {
        RefreshStart::Idle
    } else {
        RefreshStart::Render
    }
}

/// Whether a one-shot synchronous refresh renders: unless rendering is disabled.
pub fn refresh_once(c: &Coordinator) -> (r: bool)
    ensures
        r == !c.env_no_progress,
{
    !c.env_no_progress
}

/// What to do with a rendered frame.
pub struct FrameStep {
    /// Write the frame (clearing the previous one first).
    pub write: bool,
    /// Keep the refresher running.
    pub keep_running: bool,
}

/// Smart refresh: with no job active, a frame equal to the one on screen is not written
/// again. The refresher stops once no job is active (checked before and after rendering).
pub fn refresh_frame(c: &mut Coordinator, frame: String, any_running: bool, still_running: bool) -> (r:
    FrameStep)
    ensures
        ({
            let unchanged = !any_running && frame@ == old(c).last_output@ && old(c).lines > 0;
            let keep = any_running || still_running;
            &&& r.write == !unchanged
            &&& r.keep_running == keep
            &&& final(c).last_output@ == if unchanged {
                old(c).last_output@
            } else {
                frame@
            }
            &&& *final(c) == (Coordinator {
                started: old(c).started && keep,
                last_output: final(c).last_output,
                ..*old(c)
            })
        }),
{
    let same = !any_running && c.lines > 0 && {
        let a = chars_of(frame.as_str());
        let b = chars_of(c.last_output.as_str());
        same_chars(&a, &b)
    };
    let keep = any_running || still_running;
    if !keep {
        c.started = false;
    }
    if same {
        FrameStep { write: false, keep_running: keep }
    } else {
        c.last_output = frame;
        FrameStep { write: true, keep_running: keep }
    }
}

/// Records the rows a written frame takes.
pub fn frame_written(c: &mut Coordinator, rows: usize)
    ensures
        *final(c) == (Coordinator { lines: rows, ..*old(c) }),
{
    c.lines = rows;
}

/// A failed refresh: row accounting starts afresh so the next frame redraws cleanly.
pub fn refresh_failed(c: &mut Coordinator)
    ensures
        *final(c) == (Coordinator { lines: 0, ..*old(c) }),
{
    c.lines = 0;
}

/// The terminal was resized: the last frame no longer counts as on screen.
pub fn forget_last_frame(c: &mut Coordinator)
    ensures
        final(c).last_output@.len() == 0,
        *final(c) == (Coordinator { last_output: final(c).last_output, ..*old(c) }),
{
    c.last_output = String::new();
}

/// Clears the display: returns the rows to clear (moving the cursor up over them), and
/// the display then holds none.
pub fn clear(c: &mut Coordinator) -> (rows: usize)
    ensures
        rows == old(c).lines,
        *final(c) == (Coordinator { lines: 0, ..*old(c) }),
{
    let rows = c.lines;
    c.lines = 0;
    rows
}

/// Stops the display after a last frame: the refresher ends and the indicator is cleared.
pub fn stop(c: &mut Coordinator)
    ensures
        *final(c) == (Coordinator { stopping: true, started: false, last_osc: None, ..*old(c) }),
{
    c.stopping = true;
    c.started = false;
    c.last_osc = None;
}

/// Stops the display and clears it: as `stop`, and returns the rows to clear.
pub fn stop_clear(c: &mut Coordinator) -> (rows: usize)
    ensures
        rows == old(c).lines,
        *final(c) == (Coordinator {
            stopping: true,
            started: false,
            last_osc: None,
            lines: 0,
            ..*old(c)
        }),
{
    stop(c);
    clear(c)
}

/// Records an indicator update that was sent.
pub fn osc_sent(c: &mut Coordinator, percent: u8, failed: bool)
    ensures
        *final(c) == (Coordinator { last_osc: Some((percent, failed)), ..*old(c) }),
{
    c.last_osc = Some((percent, failed));
}

/// Number of top-level jobs.
pub fn job_count<T>(jobs: &JobRegistry<T>) -> (r: usize)
    ensures
        r == jobs.ids().len(),
{
    jobs.len()
}

/// Number of `true` flags among the first `n`.
pub open spec fn count_true(flags: Seq<bool>, n: nat) -> nat
    decreases n,
{
    if n == 0 || n > flags.len() {
        0
    } else {
        count_true(flags, (n - 1) as nat) + if flags[n - 1] {
            1nat
        } else {
            0nat
        }
    }
}

/// Number of active jobs, given each job's activity anywhere in the tree.
pub fn active_jobs(active: &Vec<bool>) -> (r: usize)
    ensures
        r == count_true(active@, active@.len()),
{
    let mut n: usize = 0;
    let mut i: usize = 0;
    while i < active.len()
        invariant
            i <= active.len(),
            n == count_true(active@, i as nat),
            n <= i,
        decreases active.len() - i,
    {
        if active[i] {
            n = n + 1;
        }
        i = i + 1;
    }
    n
}

/// Terminal rows a line `w` columns wide takes on a terminal `tw` wide: at least one.
pub open spec fn line_rows(w: nat, tw: nat) -> nat {
    if tw == 0 {
        1
    } else {
        let v = if w == 0 {
            1
        } else {
            w
        };
        ((v - 1) as nat) / tw + 1
    }
}

/// Rows taken by the lines of `s`.
pub open spec fn text_rows(s: Seq<char>, tw: nat) -> nat
    decreases s.len(),
{
    if s.len() == 0 {
        0
    } else {
        match find(s, newline()) {
            Some(i) => if 0 <= i && i + 1 <= s.len() {
                line_rows(text_width(strip_cr(s.subrange(0, i))), tw) + text_rows(
                    s.subrange(i + 1, s.len() as int),
                    tw,
                )
            } else {
                line_rows(text_width(s), tw)
            },
            None => line_rows(text_width(s), tw),
        }
    }
}

/// Rows a written frame takes: each line's visible width divided by the terminal width,
/// rounded up, at least one row per line and per frame; an empty frame takes none.
pub open spec fn frame_rows_of(s: Seq<char>, tw: nat) -> nat {
    if s.len() == 0 {
        0
    } else if text_rows(s, tw) == 0 {
        1
    } else {
        text_rows(s, tw)
    }
}

fn line_rows_exec(line: &Vec<char>, tw: usize) -> (r: usize)
    ensures
        r == line_rows(text_width(line@), tw as nat),
{
    let w = measure_text_width(line);
    let v: usize = if w == 0 {
        1
    } else {
        w
    };
    if tw == 0 {
        1
    } else {
        (v - 1) / tw + 1
    }
}

fn rows_of(s: &Vec<char>, tw: usize) -> (r: u128)
    ensures
        r == text_rows(s@, tw as nat),
        r <= s.len() * 0x1_0000_0000_0000_0000,
    decreases s.len(),
{
    if s.len() == 0 {
        return 0;
    }
    let nl: Vec<char> = vec!['\n'];
    assert(nl@ == newline());
    match find_chars(s, &nl) {
        Some(i) => {
            assert(occurs_at(s@, nl@, i as int));
            let line = slice_chars(s, 0, i);
            let line = if line.len() > 0 && line[line.len() - 1] == '\r' {
                let l = slice_chars(&line, 0, line.len() - 1);
                assert(l@ =~= line@.drop_last());
                l
            } else {
                line
            };
            assert(line@ == strip_cr(s@.subrange(0, i as int)));
            let rest = slice_chars(s, i + 1, s.len());
            let rr = rows_of(&rest, tw);
            let lr = line_rows_exec(&line, tw);
            lr as u128 + rr
        },
        None => line_rows_exec(s, tw) as u128,
    }
}

/// Rows a written frame takes on a terminal `term_width` columns wide.
pub fn frame_rows(output: &str, term_width: usize) -> (r: usize)
    ensures
        r as nat == if frame_rows_of(output@, term_width as nat) > usize::MAX {
            usize::MAX as nat
        } else {
            frame_rows_of(output@, term_width as nat)
        },
{
    let s = chars_of(output);
    if s.len() == 0 {
        return 0;
    }
    let n = rows_of(&s, term_width);
    if n == 0 {
        1
    } else if n > usize::MAX as u128 {
        usize::MAX
    } else {
        n as usize
    }
}

/// Trailing white space removed.
pub open spec fn trim_end_ws(s: Seq<char>) -> Seq<char>
    decreases s.len(),
{
    if s.len() > 0 && is_ws(s.last()) {
        trim_end_ws(s.drop_last())
    } else {
        s
    }
}

/// A job's output: its laid-out body without trailing white space, then each non-empty
/// child output indented on its own lines.
pub open spec fn job_output(
    body: Seq<char>,
    flex_width: nat,
    colors: bool,
    children: Seq<Seq<char>>,
    child_width: nat,
    child_indent: nat,
) -> Seq<char>
    decreases children.len(),
{
    if children.len() == 0 {
        trim_end_ws(flex_text(body, flex_width, colors))
    } else {
        let before = job_output(
            body,
            flex_width,
            colors,
            children.drop_last(),
            child_width,
            child_indent,
        );
        if children.last().len() == 0 {
            before
        } else {
            before + newline() + indent_text(children.last(), child_width, child_indent)
        }
    }
}

fn trim_end_exec(s: &Vec<char>) -> (r: Vec<char>)
    ensures
        r@ == trim_end_ws(s@),
{
    let mut hi: usize = s.len();
    assert(s@.subrange(0, s.len() as int) =~= s@);
    while hi > 0 && crate::placeholder::is_whitespace(s[hi - 1])
        invariant
            hi <= s.len(),
            trim_end_ws(s@) == trim_end_ws(s@.subrange(0, hi as int)),
        decreases hi,
    {
        assert(s@.subrange(0, hi as int).drop_last() =~= s@.subrange(0, hi - 1));
        hi = hi - 1;
    }
    slice_chars(s, 0, hi)
}

/// Puts a job's output together from its rendered body and its children's outputs.
pub fn compose_job_output(
    body: &str,
    flex_width: usize,
    colors: bool,
    children: &Vec<String>,
    child_width: usize,
    child_indent: usize,
) -> (r: String)
    requires
        flex_width >= 1,
    ensures
        r@ == job_output(
            body@,
            flex_width as nat,
            colors,
            children@.map_values(|c: String| c@),
            child_width as nat,
            child_indent as nat,
        ),
{
    let laid = flex_with_colors(body, flex_width, colors);
    let mut out = trim_end_exec(&chars_of(laid.as_str()));
    let mut i: usize = 0;
    let ghost all = children@.map_values(|c: String| c@);
    assert(all.subrange(0, 0) =~= Seq::<Seq<char>>::empty());
    while i < children.len()
        invariant
            i <= children.len(),
            all == children@.map_values(|c: String| c@),
            flex_width >= 1,
            out@ == job_output(
                body@,
                flex_width as nat,
                colors,
                all.subrange(0, i as int),
                child_width as nat,
                child_indent as nat,
            ),
        decreases children.len() - i,
    {
        assert(all.subrange(0, i + 1).drop_last() =~= all.subrange(0, i as int));
        assert(all.subrange(0, i + 1).last() == children@[i as int]@);
        let child = &children[i];
        if !child.as_str().is_empty() {
            out.push('\n');
            push_all(&mut out, &chars_of(indent(child.clone(), child_width, child_indent).as_str()));
        }
        i = i + 1;
    }
    assert(all.subrange(0, children.len() as int) =~= all);
    string_of(&out)
}

/// The frame: the non-empty outputs of the top-level jobs, joined by newlines.
pub open spec fn frame_text(outputs: Seq<Seq<char>>) -> Seq<char>
    decreases outputs.len(),
{
    if outputs.len() == 0 {
        Seq::empty()
    } else {
        let before = frame_text(outputs.drop_last());
        let last = outputs.last();
        if last.len() == 0 {
            before
        } else if before.len() == 0 {
            last
        } else {
            before + newline() + last
        }
    }
}

/// Joins the top-level outputs into a frame, leaving out the empty ones.
pub fn join_frame(outputs: &Vec<String>) -> (r: String)
    ensures
        r@ == frame_text(outputs@.map_values(|c: String| c@)),
{
    let mut out: Vec<char> = Vec::new();
    let mut i: usize = 0;
    let ghost all = outputs@.map_values(|c: String| c@);
    assert(all.subrange(0, 0) =~= Seq::<Seq<char>>::empty());
    while i < outputs.len()
        invariant
            i <= outputs.len(),
            all == outputs@.map_values(|c: String| c@),
            out@ == frame_text(all.subrange(0, i as int)),
        decreases outputs.len() - i,
    {
        assert(all.subrange(0, i + 1).drop_last() =~= all.subrange(0, i as int));
        assert(all.subrange(0, i + 1).last() == outputs@[i as int]@);
        let piece = chars_of(outputs[i].as_str());
        if piece.len() > 0 {
            if out.len() > 0 {
                out.push('\n');
            }
            push_all(&mut out, &piece);
        }
        i = i + 1;
    }
    assert(all.subrange(0, outputs.len() as int) =~= all);
    string_of(&out)
}

/// A character with ASCII upper-case letters made lower-case.
pub open spec fn ascii_lower(c: char) -> char {
    if 'A' <= c && c <= 'Z' {
        (((c as u32) + 32) as u8) as char
    } else {
        c
    }
}

/// Whether an environment value switches a toggle on: `"1"`, or `"true"` in any ASCII case.
pub open spec fn truthy(v: Seq<char>) -> bool {
    v == seq!['1'] || (v.len() == 4 && forall|k: int|
        0 <= k < 4 ==> #[trigger] ascii_lower(v[k]) == seq!['t', 'r', 'u', 'e'][k])
}

/// Reads an environment toggle: unset is off.
pub fn env_flag(value: Option<&str>) -> (r: bool)
    ensures
        r == match value {
            Some(v) => truthy(v@),
            None => false,
        },
{
    match value {
        Some(v) => {
            let s = chars_of(v);
            assert(s@ == v@);
            if s.len() == 1 && s[0] == '1' {
                assert(s@ =~= seq!['1']);
                return true;
            }
            if s.len() != 4 {
                assert(s@ != seq!['1']) by {
                    if s@.len() == 1 {
                        assert(s@[0] != '1');
                    }
                }
                assert(!truthy(s@));
                return false;
            }
            let word: Vec<char> = vec!['t', 'r', 'u', 'e'];
            let mut i: usize = 0;
            while i < 4
                invariant
                    i <= 4,
                    s.len() == 4,
                    s@ == v@,
                    value == Some(v),
                    word@ == seq!['t', 'r', 'u', 'e'],
                    forall|k: int| 0 <= k < i ==> #[trigger] ascii_lower(s@[k]) == word@[k],
                decreases 4 - i,
            {
                let c = s[i];
                let lower = if 'A' <= c && c <= 'Z' {
                    (((c as u32) + 32) as u8) as char
                } else {
                    c
                };
                assert(lower == ascii_lower(c));
                if lower != word[i] {
                    assert(ascii_lower(s@[i as int]) != seq!['t', 'r', 'u', 'e'][i as int]);
                    assert(s@.len() != seq!['1'].len());
                    assert(!truthy(s@));
                    return false;
                }
                i = i + 1;
            }
            assert(truthy(s@));
            true
        },
        None => false,
    }
}

} // verus!
