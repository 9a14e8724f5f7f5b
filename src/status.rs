//! Job status, done behaviour and output mode.
use vstd::prelude::*;

verus! {

/// Status of a progress job; it decides the icon and whether the job is active.
#[derive(Debug, Clone, PartialEq, Eq)]
pub enum ProgressStatus {
    /// Not displayed.
    Hide,
    /// Waiting; shows a pause indicator.
    Pending,
    /// Running; shows an animated spinner.
    Running,
    /// Running, with a custom spinner glyph.
    RunningCustom(String),
    /// Finished, with a custom glyph.
    DoneCustom(String),
    /// Finished successfully.
    Done,
    /// Finished with warnings.
    Warn,
    /// Failed.
    Failed,
}

impl ProgressStatus {
    /// Active statuses are the running ones.
    pub open spec fn active(&self) -> bool {
        self is Running || self is RunningCustom
    }

    /// Statuses that make the display render a final frame at once.
    pub open spec fn finishing(&self) -> bool {
        self is Done || self is Failed || self is Warn || self is DoneCustom
    }

    /// Returns `true` if the job is still active (running).
    pub fn is_active(&self) -> (r: bool)
        ensures
            r == self.active(),
    {
        match self {
            ProgressStatus::Running => true,
            ProgressStatus::RunningCustom(_) => true,
            _ => false,
        }
    }

    /// Returns `true` for the statuses after which a final frame is drawn at once:
    /// `Done`, `Failed`, `Warn` and `DoneCustom`.
    pub fn is_finishing(&self) -> (r: bool)
        ensures
            r == self.finishing(),
    {
        match self {
            ProgressStatus::Done => true,
            ProgressStatus::Failed => true,
            ProgressStatus::Warn => true,
            ProgressStatus::DoneCustom(_) => true,
            _ => false,
        }
    }

    /// Returns `true` for `Hide`.
    pub fn is_hide(&self) -> (r: bool)
        ensures
            r == (self is Hide),
    {
        match self {
            ProgressStatus::Hide => true,
            _ => false,
        }
    }

    /// Returns `true` for `Failed`.
    pub fn is_failed(&self) -> (r: bool)
        ensures
            r == (self is Failed),
    {
        match self {
            ProgressStatus::Failed => true,
            _ => false,
        }
    }

    /// Returns `true` for `Done`.
    pub fn is_done(&self) -> (r: bool)
        ensures
            r == (self is Done),
    {
        match self {
            ProgressStatus::Done => true,
            _ => false,
        }
    }

    /// Returns `true` for `Pending`.
    pub fn is_pending(&self) -> (r: bool)
        ensures
            r == (self is Pending),
    {
        match self {
            ProgressStatus::Pending => true,
            _ => false,
        }
    }

    /// The same status, compared by variant and glyph.
    pub open spec fn same(&self, o: &ProgressStatus) -> bool {
        match (self, o) {
            (ProgressStatus::RunningCustom(a), ProgressStatus::RunningCustom(b)) => a@ == b@,
            (ProgressStatus::DoneCustom(a), ProgressStatus::DoneCustom(b)) => a@ == b@,
            (ProgressStatus::RunningCustom(_), _) => false,
            (ProgressStatus::DoneCustom(_), _) => false,
            (_, ProgressStatus::RunningCustom(_)) => false,
            (_, ProgressStatus::DoneCustom(_)) => false,
            _ => variant_index(self) == variant_index(o),
        }
    }

    /// Whether two statuses are the same, glyphs included.
    pub fn same_as(&self, o: &ProgressStatus) -> (r: bool)
        ensures
            r == self.same(o),
    {
        match (self, o) {
            (ProgressStatus::RunningCustom(a), ProgressStatus::RunningCustom(b)) => same_string(
                a,
                b,
            ),
            (ProgressStatus::DoneCustom(a), ProgressStatus::DoneCustom(b)) => same_string(a, b),
            (ProgressStatus::RunningCustom(_), _) => false,
            (ProgressStatus::DoneCustom(_), _) => false,
            (_, ProgressStatus::RunningCustom(_)) => false,
            (_, ProgressStatus::DoneCustom(_)) => false,
            _ => status_index(self) == status_index(o),
        }
    }

    /// The status as a lower-case word: `"hide"`, `"pending"`, `"running"`, `"done"`,
    /// `"warn"` or `"failed"` (custom glyphs count as running or done).
    pub fn label(&self) -> (r: &'static str)
        ensures
            r@ == status_label(self),
    {
        let r = match self {
            ProgressStatus::Hide => "hide",
            ProgressStatus::Pending => "pending",
            ProgressStatus::Running => "running",
            ProgressStatus::RunningCustom(_) => "running",
            ProgressStatus::DoneCustom(_) => "done",
            ProgressStatus::Done => "done",
            ProgressStatus::Warn => "warn",
            ProgressStatus::Failed => "failed",
        };
        proof {
            reveal_strlit("hide");
            reveal_strlit("pending");
            reveal_strlit("running");
            reveal_strlit("done");
            reveal_strlit("warn");
            reveal_strlit("failed");
        }
        r
    }
}

/// The word for a status in diagnostics.
pub open spec fn status_label(s: &ProgressStatus) -> Seq<char> {
    match s {
        ProgressStatus::Hide => seq!['h', 'i', 'd', 'e'],
        ProgressStatus::Pending => seq!['p', 'e', 'n', 'd', 'i', 'n', 'g'],
        ProgressStatus::Running => seq!['r', 'u', 'n', 'n', 'i', 'n', 'g'],
        ProgressStatus::RunningCustom(_) => seq!['r', 'u', 'n', 'n', 'i', 'n', 'g'],
        ProgressStatus::DoneCustom(_) => seq!['d', 'o', 'n', 'e'],
        ProgressStatus::Done => seq!['d', 'o', 'n', 'e'],
        ProgressStatus::Warn => seq!['w', 'a', 'r', 'n'],
        ProgressStatus::Failed => seq!['f', 'a', 'i', 'l', 'e', 'd'],
    }
}

pub open spec fn variant_index(s: &ProgressStatus) -> nat {
    match s {
        ProgressStatus::Hide => 0,
        ProgressStatus::Pending => 1,
        ProgressStatus::Running => 2,
        ProgressStatus::RunningCustom(_) => 3,
        ProgressStatus::DoneCustom(_) => 4,
        ProgressStatus::Done => 5,
        ProgressStatus::Warn => 6,
        ProgressStatus::Failed => 7,
    }
}

fn status_index(s: &ProgressStatus) -> (r: u8)
    ensures
        r as nat == variant_index(s),
{
    match s {
        ProgressStatus::Hide => 0,
        ProgressStatus::Pending => 1,
        ProgressStatus::Running => 2,
        ProgressStatus::RunningCustom(_) => 3,
        ProgressStatus::DoneCustom(_) => 4,
        ProgressStatus::Done => 5,
        ProgressStatus::Warn => 6,
        ProgressStatus::Failed => 7,
    }
}

fn same_string(a: &String, b: &String) -> (r: bool)
    ensures
        r == (a@ == b@),
{
    let x = crate::text::chars_of(a.as_str());
    let y = crate::text::chars_of(b.as_str());
    crate::text::same_chars(&x, &y)
}

impl Default for ProgressStatus {
    fn default() -> (r: Self)
        ensures
            r is Running,
    {
        ProgressStatus::Running
    }
}

/// What happens to a job's display once it is no longer active.
#[derive(Debug, Clone, Copy, PartialEq, Eq, Structural)]
pub enum ProgressJobDoneBehavior {
    /// Keep the job and its children visible.
    Keep,
    /// Keep the job visible but hide its children.
    Collapse,
    /// Hide the job entirely.
    Hide,
}

impl Default for ProgressJobDoneBehavior {
    fn default() -> (r: Self)
        ensures
            r == ProgressJobDoneBehavior::Keep,
    {
        ProgressJobDoneBehavior::Keep
    }
}

/// Whether a job with this status and done behaviour is drawn at all.
pub open spec fn displayed(status: &ProgressStatus, on_done: ProgressJobDoneBehavior) -> bool {
    !(status is Hide) && (status.active() || on_done != ProgressJobDoneBehavior::Hide)
}

/// Whether the children of a job with this status and done behaviour are drawn.
pub open spec fn children_displayed(
    status: &ProgressStatus,
    on_done: ProgressJobDoneBehavior,
) -> bool {
    status.active() || on_done == ProgressJobDoneBehavior::Keep
}

/// Whether a job is drawn: not hidden, and active or not hidden once done.
pub fn should_display(status: &ProgressStatus, on_done: ProgressJobDoneBehavior) -> (r: bool)
    ensures
        r == displayed(status, on_done),
{
    !status.is_hide() && (status.is_active() || on_done != ProgressJobDoneBehavior::Hide)
}

/// Whether a job's children are drawn: it is active, or keeps them once done.
pub fn should_display_children(status: &ProgressStatus, on_done: ProgressJobDoneBehavior) -> (r:
    bool)
    ensures
        r == children_displayed(status, on_done),
{
    status.is_active() || on_done == ProgressJobDoneBehavior::Keep
}

/// How progress is written to the terminal.
#[derive(Debug, Clone, Copy, PartialEq, Eq, Structural)]
pub enum ProgressOutput {
    /// Animated display, redrawn in place.
    UI,
    /// One plain line per update, for logs and non-interactive output.
    Text,
}

} // verus!
