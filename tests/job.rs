use clx::job::{JobState, STAGE_SCALE};
use clx::registry::JobRegistry;
use clx::status::{ProgressJobDoneBehavior, ProgressStatus};

fn job() -> JobState {
    JobState::new(ProgressStatus::Running, ProgressJobDoneBehavior::Keep, 0)
}

#[test]
fn test_progress_status_is_active() {
    assert!(ProgressStatus::Running.is_active());
    assert!(ProgressStatus::RunningCustom("custom".to_string()).is_active());
    assert!(!ProgressStatus::Done.is_active());
    assert!(!ProgressStatus::Failed.is_active());
    assert!(!ProgressStatus::Pending.is_active());
    assert!(!ProgressStatus::Hide.is_active());
    assert!(!ProgressStatus::Warn.is_active());
    assert!(!ProgressStatus::DoneCustom("custom".to_string()).is_active());
}

#[test]
fn test_progress_job_done_behavior() {
    assert_eq!(
        ProgressJobDoneBehavior::default(),
        ProgressJobDoneBehavior::Keep
    );
}

#[test]
fn test_progress_job_builder_default() {
    let job = job();
    assert_eq!(job.status, ProgressStatus::Running);
    assert!(job.status.is_active());
    assert!(job.current.is_none());
    assert!(job.total.is_none());
}

#[test]
fn test_progress_job_builder_with_props() {
    let job = JobState::with_progress(
        ProgressStatus::Pending,
        ProgressJobDoneBehavior::Hide,
        Some(5),
        Some(10),
        0,
    );
    assert!(job.status.is_pending());
    assert_eq!(job.current, Some(5));
    assert_eq!(job.total, Some(10));
    assert_eq!(job.on_done, ProgressJobDoneBehavior::Hide);
}

#[test]
fn test_progress_status_transitions() {
    let mut job = job();
    assert!(job.is_running());

    job.set_status(ProgressStatus::Done);
    assert!(job.status.is_done());
    assert!(!job.is_running());

    job.set_status(ProgressStatus::Failed);
    assert!(job.status.is_failed());

    job.set_status(ProgressStatus::Pending);
    assert!(job.status.is_pending());

    job.set_status(ProgressStatus::Running);
    assert!(job.is_running());
}

#[test]
fn set_status_to_same_value_is_a_no_op() {
    let mut job = job();
    assert!(!job.set_status(ProgressStatus::Running));
    assert!(job.set_status(ProgressStatus::RunningCustom("x".to_string())));
    assert!(!job.set_status(ProgressStatus::RunningCustom("x".to_string())));
    assert!(job.set_status(ProgressStatus::RunningCustom("y".to_string())));
}

#[test]
fn test_progress_job_progress_updates() {
    let mut job = job();
    job.progress_total(100);
    assert_eq!(job.total, Some(100));
    assert!(job.current.is_none());

    job.progress_current(50, 0);
    assert_eq!(job.current, Some(50));

    job.progress_current(150, 0);
    assert_eq!(job.current, Some(100));
}

#[test]
fn test_progress_job_progress_total_update() {
    let mut job = job();
    job.progress_current(80, 0);
    job.progress_total(50);
    assert_eq!(job.total, Some(80));
}

#[test]
fn increment_saturates_and_clamps() {
    let mut job = job();
    job.increment(5, 0);
    assert_eq!(job.current, Some(5));
    job.progress_total(8);
    job.increment(5, 0);
    assert_eq!(job.current, Some(8));
    let mut other = JobState::with_progress(
        ProgressStatus::Running,
        ProgressJobDoneBehavior::Keep,
        Some(usize::MAX - 1),
        None,
        0,
    );
    other.increment(10, 0);
    assert_eq!(other.current, Some(usize::MAX));
}

#[test]
fn test_start_operations() {
    let mut job = job();
    assert!(job.operations_total.is_none());
    assert_eq!(job.operation_index, 0);

    job.start_operations(3);
    assert_eq!(job.operations_total, Some(3));
    assert_eq!(job.operation_index, 0);
}

#[test]
fn test_start_operations_minimum_one() {
    let mut job = job();
    job.start_operations(0);
    assert_eq!(job.operations_total, Some(1));
}

#[test]
fn test_next_operation() {
    let mut job = job();
    job.start_operations(3);
    job.progress_total(100);
    job.progress_current(50, 0);

    job.next_operation(10);

    assert_eq!(job.operation_index, 1);
    assert!(job.current.is_none());
    assert!(job.total.is_none());
    assert!(job.smoothed_rate.is_none());
    assert!(job.last_sample.is_none());
}

#[test]
fn test_overall_progress_single_operation() {
    let mut job = job();
    job.progress_total(100);
    job.progress_current(25, 0);
    assert_eq!(job.overall_progress(), Some((25, 100)));
}

#[test]
fn test_overall_progress_multi_operation_first_op() {
    let mut job = job();
    job.start_operations(4);
    job.progress_total(1000);
    job.progress_current(500, 0);

    let progress = job.overall_progress();
    assert!(progress.is_some());
    let (cur, total) = progress.unwrap();
    assert_eq!(total, 1_000_000);
    assert_eq!(cur, 125_000);
}

#[test]
fn test_overall_progress_multi_operation_second_op() {
    let mut job = job();
    job.start_operations(4);
    job.next_operation(0);
    job.progress_total(200);
    job.progress_current(100, 0);

    let progress = job.overall_progress();
    assert!(progress.is_some());
    let (cur, total) = progress.unwrap();
    assert_eq!(total, 1_000_000);
    assert_eq!(cur, 375_000);
}

#[test]
fn test_overall_progress_no_progress_yet() {
    let mut job = job();
    job.start_operations(4);
    assert_eq!(job.overall_progress(), Some((0, 1_000_000)));
}

#[test]
fn test_overall_progress_between_operations() {
    let mut job = job();
    job.start_operations(4);
    job.next_operation(0);
    assert_eq!(job.overall_progress(), Some((250_000, 1_000_000)));
}

#[test]
fn test_overall_progress_none_without_tracking() {
    let job = job();
    assert!(job.overall_progress().is_none());
}

#[test]
fn overall_progress_is_monotonic_and_reaches_scale() {
    for stages in [1usize, 3, 4, 7] {
        let mut job = job();
        job.start_operations(stages);
        let mut last = 0usize;
        for stage in 0..stages {
            if stage > 0 {
                job.next_operation(0);
            }
            job.progress_total(9);
            for cur in 0..=9 {
                job.progress_current(cur, 0);
                let (value, scale) = job.overall_progress().unwrap();
                assert_eq!(scale, STAGE_SCALE);
                assert!(value >= last);
                last = value;
            }
            let (done, _) = job.overall_progress().unwrap();
            assert_eq!(done, (stage + 1) * STAGE_SCALE / stages);
        }
        assert_eq!(last, STAGE_SCALE);
    }
}

#[test]
fn test_smoothed_rate_initial_value() {
    let mut job = job();
    job.progress_total(100);
    assert!(job.smoothed_rate.is_none());

    job.progress_current(10, 0);
    job.progress_current(20, 150);

    let rate = job.smoothed_rate;
    assert!(rate.is_some(), "Expected smoothed rate after second update");
    assert!(rate.unwrap() > 0);
}

#[test]
fn test_smoothed_rate_exponential_moving_average() {
    let mut job = job();
    job.progress_total(1000);
    job.progress_current(0, 0);
    job.progress_current(100, 100);
    let rate1 = job.smoothed_rate.unwrap();
    job.progress_current(200, 200);
    let rate2 = job.smoothed_rate.unwrap();
    job.progress_current(300, 400);
    let rate3 = job.smoothed_rate.unwrap();

    assert!(rate1 > 0);
    assert!(rate2 > 0);
    assert!(rate3 > 0);
    // 1000/s, then 1000/s, then 500/s folded in with weight 1/10.
    assert_eq!(rate1, 1_000_000);
    assert_eq!(rate2, 1_000_000);
    assert_eq!(rate3, 950_000);
}

#[test]
fn test_smoothed_rate_no_update_on_backwards_progress() {
    let mut job = job();
    job.progress_total(100);
    job.progress_current(0, 0);
    job.progress_current(50, 100);
    let rate_after_forward = job.smoothed_rate;
    assert!(rate_after_forward.is_some());

    job.progress_current(30, 200);
    assert_eq!(rate_after_forward, job.smoothed_rate);
}

#[test]
fn test_smoothed_rate_no_update_on_tiny_elapsed_time() {
    let mut job = job();
    job.progress_total(100);
    job.progress_current(0, 0);
    job.progress_current(10, 1);
    job.progress_current(20, 2);
    assert!(job.smoothed_rate.is_none());
}

#[test]
fn test_increment_updates_smoothed_rate() {
    let mut job = job();
    job.progress_total(100);
    assert!(job.smoothed_rate.is_none());
    job.increment(10, 0);
    job.increment(10, 120);
    assert!(job.smoothed_rate.is_some());
}

#[test]
fn smoothed_rate_scenario() {
    let mut job = job();
    job.progress_current(0, 0);
    job.progress_current(100, 100);
    // One update only records a baseline.
    let mut single = self::job();
    single.progress_current(100, 0);
    assert!(single.smoothed_rate.is_none());
    job.progress_current(200, 200);
    assert!(job.smoothed_rate.unwrap() > 0);
}

#[test]
fn finishing_a_counted_job() {
    let mut job = JobState::new(ProgressStatus::Running, ProgressJobDoneBehavior::Keep, 0);
    job.progress_total(10);
    for cur in 0..=10 {
        job.progress_current(cur, cur as u64 * 50);
        assert!(job.current.unwrap() <= job.total.unwrap());
    }
    let new_status = ProgressStatus::Done;
    let finishing = new_status.is_finishing();
    let changed = job.set_status(new_status);
    assert!(changed && finishing);
    assert!(!job.is_running());
}

#[test]
fn collapse_hides_children_but_keeps_them() {
    let mut parent =
        JobState::new(ProgressStatus::Running, ProgressJobDoneBehavior::Collapse, 0);
    let mut children: JobRegistry<JobState> = JobRegistry::new();
    children.push(1, job());
    children.push(2, job());
    assert!(parent.should_display_children());
    parent.set_status(ProgressStatus::Done);
    assert_eq!(children.len(), 2);
    assert!(parent.should_display());
    assert!(!parent.should_display_children());
}

#[test]
fn done_behavior_hide_and_keep() {
    let mut hidden = JobState::new(ProgressStatus::Running, ProgressJobDoneBehavior::Hide, 0);
    assert!(hidden.should_display());
    hidden.set_status(ProgressStatus::Done);
    assert!(!hidden.should_display());
    let mut kept = job();
    kept.set_status(ProgressStatus::Done);
    assert!(kept.should_display());
    assert!(kept.should_display_children());
    let mut hide_status = job();
    hide_status.set_status(ProgressStatus::Hide);
    assert!(!hide_status.should_display());
}

#[test]
fn interleaved_updates_never_pass_total() {
    let mut shared = job();
    shared.progress_total(1000);
    let mut registry: JobRegistry<u8> = JobRegistry::new();
    for worker in 0..4usize {
        registry.push(worker, 0);
    }
    for step in 0..400usize {
        let worker = step % 4;
        shared.progress_current(worker * 400 + step, step as u64);
        assert!(shared.current.unwrap() <= 1000);
    }
    registry.remove(1);
    registry.remove(3);
    assert_eq!(registry.len(), 2);
    registry.remove(7);
    assert_eq!(registry.len(), 2);
    assert_eq!(registry.items[0].0, 0);
    assert_eq!(registry.items[1].0, 2);
}

#[test]
fn slow_progress_keeps_a_positive_rate() {
    let mut job = job();
    job.progress_current(0, 0);
    job.progress_current(100, 200_000_000);
    job.progress_current(200, 400_000_000);
    assert!(job.smoothed_rate.unwrap() > 0);
}

#[test]
fn exact_debounce_interval_counts() {
    let mut job = job();
    job.progress_current(0, 0);
    job.progress_current(100, 100);
    assert_eq!(job.smoothed_rate, Some(1_000_000));
}
