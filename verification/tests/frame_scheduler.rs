use raf_render::frame_scheduler::{
    FrameActivity, FrameInvalidation, FramePacingBudget, FramePacingProfile, FrameScheduler,
};

#[test]
fn a_new_scheduler_grants_the_first_frame_then_sleeps() {
    let mut scheduler = FrameScheduler::default();
    let permit = scheduler.request_frame(false).unwrap();
    assert_eq!(permit.frame_index, 1);
    assert_eq!(permit.activity, FrameActivity::Idle);
    assert_eq!(permit.target_fps, 60);
    assert!(permit.reasons.contains(FrameInvalidation::window()));
    assert!(permit.reasons.contains(FrameInvalidation::explicit()));
    assert!(!scheduler.frame_wanted());
    assert!(scheduler.request_frame(false).is_none());
    assert_eq!(scheduler.metrics().idle_frames_skipped, 1);
    assert_eq!(scheduler.metrics().frames_permitted, 1);
}

#[test]
fn early_paced_frames_are_deferred() {
    let mut scheduler = FrameScheduler::new(FramePacingProfile::Balanced);
    scheduler.request(FrameInvalidation::document());
    assert!(scheduler.request_frame(true).is_none());
    assert_eq!(scheduler.metrics().paced_frames_deferred, 1);
    let permit = scheduler.request_frame(false).unwrap();
    assert_eq!(permit.target_fps, 120);
}

#[test]
fn camera_motion_is_interactive_and_continuous_work_is_passive() {
    let mut scheduler = FrameScheduler::default();
    scheduler.request_frame(false);
    scheduler.request(FrameInvalidation::camera());
    assert_eq!(scheduler.request_frame(false).unwrap().activity, FrameActivity::Interactive);
    scheduler.set_continuous(FrameInvalidation::animation(), true);
    let permit = scheduler.request_frame(false).unwrap();
    assert_eq!(permit.activity, FrameActivity::Passive);
    assert_eq!(permit.target_fps, 30);
    // Continuous reasons survive a granted frame.
    assert!(scheduler.pending().contains(FrameInvalidation::animation()));
    scheduler.set_continuous(FrameInvalidation::animation(), false);
    assert!(scheduler.pending().is_empty());
}

#[test]
fn suspended_schedulers_grant_nothing() {
    let mut scheduler = FrameScheduler::default();
    assert!(!scheduler.set_suspended(true));
    assert!(scheduler.request_frame(false).is_none());
    assert!(!scheduler.frame_wanted());
    assert!(scheduler.set_suspended(false));
    let permit = scheduler.request_frame(false).unwrap();
    assert!(permit.reasons.contains(FrameInvalidation::window()));
}

#[test]
fn user_limits_are_clamped_and_cap_the_rate() {
    let mut scheduler = FrameScheduler::new(FramePacingProfile::Performance);
    assert!(scheduler.set_frame_limit(1000));
    assert_eq!(scheduler.frame_limit(), Some(240));
    assert!(!scheduler.set_frame_limit(500));
    assert!(scheduler.set_frame_limit(5));
    assert_eq!(scheduler.frame_limit(), Some(15));
    assert_eq!(scheduler.request_frame(false).unwrap().target_fps, 15);
    assert!(scheduler.set_frame_limit(0));
    scheduler.request(FrameInvalidation::ui());
    assert_eq!(scheduler.request_frame(true).unwrap().target_fps, 0);
}

#[test]
fn background_windows_use_the_background_rate() {
    let mut scheduler = FrameScheduler::new(FramePacingProfile::Balanced);
    scheduler.set_window_focused(false);
    assert_eq!(scheduler.request_frame(false).unwrap().target_fps, 10);
}

#[test]
fn benchmark_profile_never_sleeps_and_is_unpaced() {
    let mut scheduler = FrameScheduler::new(FramePacingProfile::Eco);
    assert!(scheduler.set_profile(FramePacingProfile::Benchmark));
    assert_eq!(scheduler.budget(), FramePacingBudget::benchmark());
    scheduler.request_frame(false).unwrap();
    let permit = scheduler.request_frame(true).unwrap();
    assert_eq!(permit.activity, FrameActivity::Benchmark);
    assert_eq!(permit.target_fps, 0);
    assert_eq!(permit.frame_index, 2);
}

#[test]
fn invalidation_sets_behave_as_bit_sets() {
    let mut reasons = FrameInvalidation::none();
    assert!(reasons.is_empty());
    reasons.insert(FrameInvalidation::camera() | FrameInvalidation::ui());
    assert!(reasons.contains(FrameInvalidation::camera()));
    assert!(reasons.intersects(FrameInvalidation::ui() | FrameInvalidation::overlay()));
    assert!(!reasons.contains(FrameInvalidation::ui() | FrameInvalidation::overlay()));
    reasons.remove(FrameInvalidation::camera());
    assert!(!reasons.intersects(FrameInvalidation::camera()));
    assert_eq!(reasons, FrameInvalidation::ui());
    assert_eq!(FrameInvalidation::default(), FrameInvalidation::none());
}

#[test]
fn profiles_have_their_budgets() {
    assert_eq!(FramePacingProfile::default(), FramePacingProfile::Eco);
    assert_eq!(FramePacingBudget::default(), FramePacingBudget::eco());
    let eco = FramePacingBudget::for_profile(FramePacingProfile::Eco);
    assert_eq!((eco.foreground_fps, eco.background_fps, eco.passive_fps), (60, 5, 30));
    let performance = FramePacingBudget::for_profile(FramePacingProfile::Performance);
    assert_eq!(performance.foreground_fps, 240);
    assert!(!FramePacingBudget::benchmark().event_driven_idle);
}
