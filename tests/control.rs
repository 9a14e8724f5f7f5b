use clx::coordinator::{
    active_jobs, clear, compose_job_output, env_flag, frame_rows, interval, is_disabled, is_paused,
    job_count, join_frame, notify, output, pause, refresh, refresh_frame, refresh_once, resume,
    set_interval, set_output, stop, stop_clear, Coordinator, RefreshStart, Wake,
};
use clx::osc::{set_progress, clear_progress, supports_osc_9_4, update_osc_progress, JobSample, ProgressState};
use clx::job::JobState;
use clx::registry::JobRegistry;
use clx::status::{ProgressJobDoneBehavior, ProgressStatus};
use clx::status::ProgressOutput;
use std::time::Duration;

fn coordinator() -> Coordinator {
    Coordinator::new(false, false)
}

#[test]
fn test_progress_state_codes() {
    assert_eq!(ProgressState::Clear.as_code(), 0);
    assert_eq!(ProgressState::Normal.as_code(), 1);
    assert_eq!(ProgressState::Error.as_code(), 2);
    assert_eq!(ProgressState::Indeterminate.as_code(), 3);
    assert_eq!(ProgressState::Warning.as_code(), 4);
}

#[test]
fn test_set_progress_doesnt_panic() {
    let _ = set_progress(ProgressState::Normal, 50);
    let _ = set_progress(ProgressState::Indeterminate, 0);
    let _ = clear_progress();
}

#[test]
fn osc_test_progress_clamping() {
    assert_eq!(set_progress(ProgressState::Normal, 150), "\x1b]9;4;1;100\x1b\\");
}

#[test]
fn osc_sequences() {
    assert_eq!(set_progress(ProgressState::Error, 42), "\x1b]9;4;2;42\x1b\\");
    assert_eq!(clear_progress(), "\x1b]9;4;0;0\x1b\\");
}

#[test]
fn osc_terminal_support() {
    assert!(supports_osc_9_4(Some("ghostty"), false, false));
    assert!(supports_osc_9_4(Some("vscode"), false, false));
    assert!(!supports_osc_9_4(Some("iTerm.app"), true, true));
    assert!(!supports_osc_9_4(Some("other"), false, false));
    assert!(supports_osc_9_4(Some("other"), true, false));
    assert!(supports_osc_9_4(None, false, true));
}

fn sample(current: Option<usize>, total: Option<usize>, running: bool, failed: bool) -> JobSample {
    JobSample { current, total, running, failed }
}

#[test]
fn osc_update_follows_first_job_and_changes() {
    let jobs = vec![sample(Some(25), Some(100), true, false), sample(None, None, false, true)];
    assert_eq!(update_osc_progress(&jobs, None), Some((ProgressState::Error, 25)));
    assert_eq!(update_osc_progress(&jobs, Some((25, true))), None);
    assert_eq!(update_osc_progress(&jobs, Some((25, false))), Some((ProgressState::Error, 25)));
}

#[test]
fn osc_update_averages_without_first_progress() {
    let jobs = vec![sample(None, None, true, false), sample(Some(1), Some(4), true, false)];
    // (0.5 + 0.25) / 2 = 37.5% -> 37
    assert_eq!(update_osc_progress(&jobs, None), Some((ProgressState::Normal, 37)));
    assert_eq!(update_osc_progress(&Vec::new(), None), None);
}

#[test]
fn test_output_get_set() {
    let mut c = coordinator();
    let saved = output(&c);

    set_output(&mut c, ProgressOutput::Text);
    assert_eq!(output(&c), ProgressOutput::Text);

    set_output(&mut c, ProgressOutput::UI);
    assert_eq!(output(&c), ProgressOutput::UI);

    set_output(&mut c, saved);
}

#[test]
fn env_text_mode_wins() {
    let mut c = Coordinator::new(true, false);
    set_output(&mut c, ProgressOutput::UI);
    assert_eq!(output(&c), ProgressOutput::Text);
    assert!(!is_disabled(&c));
    assert!(is_disabled(&Coordinator::new(false, true)));
}

#[test]
fn test_interval_get_set() {
    let mut c = coordinator();
    let saved = interval(&c);
    assert_eq!(saved, Duration::from_millis(200));

    set_interval(&mut c, Duration::from_millis(500));
    assert_eq!(interval(&c), Duration::from_millis(500));

    set_interval(&mut c, saved);
}

#[test]
fn test_interval_configuration() {
    let mut c = coordinator();
    let saved = interval(&c);

    set_interval(&mut c, Duration::from_millis(500));
    assert_eq!(interval(&c), Duration::from_millis(500));

    set_interval(&mut c, Duration::from_millis(100));
    assert_eq!(interval(&c), Duration::from_millis(100));

    set_interval(&mut c, saved);
    assert_eq!(interval(&c), saved);
}

#[test]
fn test_output_mode_switching() {
    let mut c = coordinator();
    let saved = output(&c);

    set_output(&mut c, ProgressOutput::UI);
    assert_eq!(output(&c), ProgressOutput::UI);

    set_output(&mut c, ProgressOutput::Text);
    assert_eq!(output(&c), ProgressOutput::Text);

    set_output(&mut c, ProgressOutput::UI);
    assert_eq!(output(&c), ProgressOutput::UI);

    set_output(&mut c, saved);
}

#[test]
fn test_pause_resume() {
    let mut c = coordinator();
    assert!(!is_paused(&c));
    assert_eq!(notify(&mut c), Wake::StartAndSignal);
    assert_eq!(notify(&mut c), Wake::Signal);
    assert!(pause(&mut c));
    assert!(is_paused(&c));
    assert_eq!(refresh(&mut c), RefreshStart::Idle);
    assert!(resume(&mut c));
    assert!(!is_paused(&c));
    assert_eq!(refresh(&mut c), RefreshStart::Render);
}

#[test]
fn text_mode_never_starts_refresher() {
    let mut c = coordinator();
    set_output(&mut c, ProgressOutput::Text);
    assert_eq!(notify(&mut c), Wake::Signal);
    assert!(!c.started);
}

#[test]
fn test_stop() {
    let mut c = coordinator();
    notify(&mut c);
    stop(&mut c);
    assert!(!c.started);
    assert_eq!(notify(&mut c), Wake::Ignore);
    assert_eq!(refresh(&mut c), RefreshStart::Exit);
    assert!(refresh_once(&c));
}

#[test]
fn test_stop_clear() {
    let mut c = coordinator();
    notify(&mut c);
    c.lines = 3;
    assert_eq!(stop_clear(&mut c), 3);
    assert_eq!(c.lines, 0);
    assert!(c.stopping);
}

#[test]
fn smart_refresh_skips_unchanged_idle_frames() {
    let mut c = coordinator();
    notify(&mut c);
    let step = refresh_frame(&mut c, "frame".to_string(), true, true);
    assert!(step.write && step.keep_running);
    c.lines = 1;
    let step = refresh_frame(&mut c, "frame".to_string(), true, true);
    assert!(step.write && step.keep_running);
    let step = refresh_frame(&mut c, "frame".to_string(), false, false);
    assert!(!step.write && !step.keep_running);
    assert!(!c.started);
    let step = refresh_frame(&mut c, "other".to_string(), false, false);
    assert!(step.write && !step.keep_running);
}

#[test]
fn clear_reports_rows() {
    let mut c = coordinator();
    c.lines = 4;
    assert_eq!(clear(&mut c), 4);
    assert_eq!(clear(&mut c), 0);
}

#[test]
fn rows_account_for_wrapping() {
    assert_eq!(frame_rows("", 10), 0);
    assert_eq!(frame_rows("abc", 10), 1);
    assert_eq!(frame_rows("abcdefghijk", 10), 2);
    assert_eq!(frame_rows("a\n\nb", 10), 3);
    assert_eq!(frame_rows("abcdefghijk\nxy", 0), 2);
}

#[test]
fn job_output_is_composed() {
    let children = vec!["child one".to_string(), String::new(), "child two".to_string()];
    let out = compose_job_output("parent   ", 20, false, &children, 20, 1);
    assert_eq!(out, "parent\n child one\n child two");
    assert_eq!(join_frame(&vec!["a".to_string(), String::new(), "b".to_string()]), "a\nb");
}

#[test]
fn test_job_count_and_active_jobs() {
    let mut jobs: JobRegistry<JobState> = JobRegistry::new();
    let active = |jobs: &JobRegistry<JobState>| {
        let flags: Vec<bool> = jobs.items.iter().map(|(_, j)| j.is_running()).collect();
        active_jobs(&flags)
    };
    let initial_count = job_count(&jobs);
    let initial_active = active(&jobs);

    jobs.push(
        10,
        JobState::new(ProgressStatus::Running, ProgressJobDoneBehavior::Keep, 0),
    );
    assert_eq!(job_count(&jobs), initial_count + 1);
    assert_eq!(active(&jobs), initial_active + 1);

    jobs.items[0].1.set_status(ProgressStatus::Done);
    assert_eq!(job_count(&jobs), initial_count + 1);
    assert_eq!(active(&jobs), initial_active);

    jobs.remove(10);
    assert_eq!(job_count(&jobs), initial_count);
}

#[test]
fn environment_toggles() {
    assert!(env_flag(Some("1")));
    assert!(env_flag(Some("true")));
    assert!(env_flag(Some("TrUe")));
    assert!(!env_flag(Some("0")));
    assert!(!env_flag(Some("yes")));
    assert!(!env_flag(Some("truex")));
    assert!(!env_flag(None));
}
