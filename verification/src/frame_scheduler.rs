//! Event-driven frame pacing decisions shared by scene, CAD and UI
//! composition.
//!
//! The scheduler decides whether a frame may be rendered now, why, and at
//! what rate frames are paced. Measuring time is left to the caller: it says
//! whether the pacing interval of the previous frame has elapsed.

use vstd::prelude::*;

verus! {

#[derive(Debug, Clone, Copy, PartialEq, Eq, Structural)]
pub enum FramePacingProfile {
    Eco,
    Balanced,
    Performance,
    Benchmark,
}

impl Default for FramePacingProfile {
    fn default() -> (profile: Self)
        ensures
            profile == FramePacingProfile::Eco,
    {
        FramePacingProfile::Eco
    }
}

/// Frame-rate ceilings of a pacing profile. A rate of zero means uncapped.
#[derive(Debug, Clone, Copy, PartialEq, Eq, Structural)]
pub struct FramePacingBudget {
    pub foreground_fps: u16,
    pub background_fps: u16,
    pub passive_fps: u16,
    pub event_driven_idle: bool,
}

impl FramePacingBudget {
    pub open spec fn for_profile_spec(profile: FramePacingProfile) -> FramePacingBudget {
        match profile {
            FramePacingProfile::Eco => FramePacingBudget {
                foreground_fps: 60,
                background_fps: 5,
                passive_fps: 30,
                event_driven_idle: true,
            },
            FramePacingProfile::Balanced => FramePacingBudget {
                foreground_fps: 120,
                background_fps: 10,
                passive_fps: 60,
                event_driven_idle: true,
            },
            FramePacingProfile::Performance => FramePacingBudget {
                foreground_fps: 240,
                background_fps: 15,
                passive_fps: 120,
                event_driven_idle: true,
            },
            FramePacingProfile::Benchmark => FramePacingBudget {
                foreground_fps: 0,
                background_fps: 0,
                passive_fps: 0,
                event_driven_idle: false,
            },
        }
    }

    pub fn eco() -> (budget: Self)
        ensures
            budget == Self::for_profile_spec(FramePacingProfile::Eco),
    {
        FramePacingBudget {
            foreground_fps: 60,
            background_fps: 5,
            passive_fps: 30,
            event_driven_idle: true,
        }
    }

    pub fn balanced() -> (budget: Self)
        ensures
            budget == Self::for_profile_spec(FramePacingProfile::Balanced),
    {
        FramePacingBudget {
            foreground_fps: 120,
            background_fps: 10,
            passive_fps: 60,
            event_driven_idle: true,
        }
    }

    pub fn performance() -> (budget: Self)
        ensures
            budget == Self::for_profile_spec(FramePacingProfile::Performance),
    {
        FramePacingBudget {
            foreground_fps: 240,
            background_fps: 15,
            passive_fps: 120,
            event_driven_idle: true,
        }
    }

    /// Uncapped and never idle.
    pub fn benchmark() -> (budget: Self)
        ensures
            budget == Self::for_profile_spec(FramePacingProfile::Benchmark),
    {
        FramePacingBudget {
            foreground_fps: 0,
            background_fps: 0,
            passive_fps: 0,
            event_driven_idle: false,
        }
    }

    pub fn for_profile(profile: FramePacingProfile) -> (budget: Self)
        ensures
            budget == Self::for_profile_spec(profile),
    {
        match profile {
            FramePacingProfile::Eco => Self::eco(),
            FramePacingProfile::Balanced => Self::balanced(),
            FramePacingProfile::Performance => Self::performance(),
            FramePacingProfile::Benchmark => Self::benchmark(),
        }
    }
}

impl Default for FramePacingBudget {
    fn default() -> (budget: Self)
        ensures
            budget == Self::for_profile_spec(FramePacingProfile::Eco),
    {
        Self::eco()
    }
}

/// A set of reasons to render, one bit per reason.
#[derive(Debug, Clone, Copy, PartialEq, Eq, Structural)]
pub struct FrameInvalidation(u32);

impl FrameInvalidation {
    pub closed spec fn bits(self) -> u32 {
        self.0
    }

    pub fn from_bits(bits: u32) -> (reasons: Self)
        ensures
            reasons.bits() == bits,
    {
        FrameInvalidation(bits)
    }

    pub fn none() -> (reasons: Self)
        ensures
            reasons.bits() == 0,
    {
        FrameInvalidation(0)
    }

    pub fn window() -> (reasons: Self)
        ensures
            reasons.bits() == 1,
    {
        FrameInvalidation(1)
    }

    pub fn document() -> (reasons: Self)
        ensures
            reasons.bits() == 2,
    {
        FrameInvalidation(2)
    }

    pub fn camera() -> (reasons: Self)
        ensures
            reasons.bits() == 4,
    {
        FrameInvalidation(4)
    }

    pub fn pointer_capture() -> (reasons: Self)
        ensures
            reasons.bits() == 8,
    {
        FrameInvalidation(8)
    }

    pub fn animation() -> (reasons: Self)
        ensures
            reasons.bits() == 16,
    {
        FrameInvalidation(16)
    }

    pub fn simulation() -> (reasons: Self)
        ensures
            reasons.bits() == 32,
    {
        FrameInvalidation(32)
    }

    pub fn asset_upload() -> (reasons: Self)
        ensures
            reasons.bits() == 64,
    {
        FrameInvalidation(64)
    }

    pub fn ui() -> (reasons: Self)
        ensures
            reasons.bits() == 128,
    {
        FrameInvalidation(128)
    }

    pub fn overlay() -> (reasons: Self)
        ensures
            reasons.bits() == 256,
    {
        FrameInvalidation(256)
    }

    pub fn explicit() -> (reasons: Self)
        ensures
            reasons.bits() == 512,
    {
        FrameInvalidation(512)
    }

    /// Every reason of `other` is among these reasons.
    pub fn contains(self, other: Self) -> (found: bool)
        ensures
            found == (self.bits() & other.bits() == other.bits()),
    {
        self.0 & other.0 == other.0
    }

    /// Some reason of `other` is among these reasons.
    pub fn intersects(self, other: Self) -> (found: bool)
        ensures
            found == (self.bits() & other.bits() != 0),
    {
        self.0 & other.0 != 0
    }

    pub fn is_empty(self) -> (empty: bool)
        ensures
            empty == (self.bits() == 0),
    {
        self.0 == 0
    }

    pub fn insert(&mut self, other: Self)
        ensures
            final(self).bits() == old(self).bits() | other.bits(),
    {
        self.0 = self.0 | other.0;
    }

    pub fn remove(&mut self, other: Self)
        ensures
            final(self).bits() == old(self).bits() & !other.bits(),
    {
        self.0 = self.0 & !other.0;
    }
}

impl Default for FrameInvalidation {
    fn default() -> (reasons: Self)
        ensures
            reasons.bits() == 0,
    {
        FrameInvalidation(0)
    }
}

impl std::ops::BitOr for FrameInvalidation {
    type Output = Self;

    fn bitor(self, rhs: Self) -> (union: Self)
        ensures
            union.bits() == self.bits() | rhs.bits(),
    {
        FrameInvalidation(self.0 | rhs.0)
    }
}

impl vstd::std_specs::ops::BitOrSpecImpl for FrameInvalidation {
    open spec fn obeys_bitor_spec() -> bool {
        true
    }

    open spec fn bitor_req(self, rhs: Self) -> bool {
        true
    }

    closed spec fn bitor_spec(self, rhs: Self) -> Self {
        FrameInvalidation(self.0 | rhs.0)
    }
}

#[derive(Debug, Clone, Copy, PartialEq, Eq, Structural)]
pub enum FrameActivity {
    Idle,
    Passive,
    Interactive,
    Benchmark,
}

/// Permission to render one frame: its index, why it is rendered, how
/// active the editor is, and the rate at which the next frame is paced
/// (zero: not paced).
#[derive(Debug, Clone, Copy, PartialEq, Eq, Structural)]
pub struct FramePermit {
    pub frame_index: u64,
    pub reasons: FrameInvalidation,
    pub activity: FrameActivity,
    pub target_fps: u16,
}

/// Counters of scheduling decisions. All counters saturate.
#[derive(Debug, Clone, Copy, PartialEq, Eq, Structural)]
pub struct FrameSchedulerMetrics {
    pub frames_permitted: u64,
    pub idle_frames_skipped: u64,
    pub paced_frames_deferred: u64,
}

impl Default for FrameSchedulerMetrics {
    fn default() -> (metrics: Self)
        ensures
            metrics == (FrameSchedulerMetrics {
                frames_permitted: 0,
                idle_frames_skipped: 0,
                paced_frames_deferred: 0,
            }),
    {
        FrameSchedulerMetrics { frames_permitted: 0, idle_frames_skipped: 0, paced_frames_deferred: 0 }
    }
}

/// `a + 1`, or `u64::MAX` when that does not fit.
pub open spec fn sat_inc(a: u64) -> u64 {
    if a == u64::MAX {
        a
    } else {
        (a + 1) as u64
    }
}

/// The abstract state of a scheduler.
pub struct SchedulerState {
    pub profile: FramePacingProfile,
    pub budget: FramePacingBudget,
    pub frame_limit: Option<u16>,
    pub pending: u32,
    pub continuous: u32,
    pub window_focused: bool,
    pub suspended: bool,
    pub next_frame_index: u64,
    pub metrics: FrameSchedulerMetrics,
}

/// Camera motion or pointer capture make the editor interactive.
pub open spec fn interactive_bits() -> u32 {
    4u32 | 8u32
}

impl SchedulerState {
    pub open spec fn well_formed(self) -> bool {
        &&& self.next_frame_index >= 1
        &&& self.budget == FramePacingBudget::for_profile_spec(self.profile)
        &&& match self.frame_limit {
            Some(limit) => limit == 0 || 15 <= limit <= 240,
            None => true,
        }
    }

    /// Every reason to render: the one-shot requests and the continuous ones.
    pub open spec fn reasons(self) -> u32 {
        self.pending | self.continuous
    }

    /// Nothing asks for a frame and the profile sleeps when idle.
    pub open spec fn sleeping(self) -> bool {
        &&& self.reasons() == 0
        &&& self.budget.event_driven_idle
        &&& self.profile != FramePacingProfile::Benchmark
    }

    pub open spec fn activity(self) -> FrameActivity {
        if self.profile == FramePacingProfile::Benchmark {
            FrameActivity::Benchmark
        } else if self.reasons() & interactive_bits() != 0 {
            FrameActivity::Interactive
        } else if self.continuous != 0 {
            FrameActivity::Passive
        } else {
            FrameActivity::Idle
        }
    }

    /// The paced frame rate for an activity (zero: not paced). A background
    /// window runs at the background rate, capped by a non-zero user limit;
    /// a focused window runs at the profile's rate, capped by the user limit,
    /// where a limit of zero uncaps and an uncapped profile takes the limit.
    pub open spec fn target_fps(self, activity: FrameActivity) -> u16 {
        if activity == FrameActivity::Benchmark {
            0
        } else if !self.window_focused {
            let background_limit = match self.frame_limit {
                Some(limit) => if limit > 0 {
                    limit
                } else {
                    u16::MAX
                },
                None => u16::MAX,
            };
            if self.budget.background_fps <= background_limit {
                self.budget.background_fps
            } else {
                background_limit
            }
        } else {
            let profile_fps = match activity {
                FrameActivity::Passive => self.budget.passive_fps,
                _ => self.budget.foreground_fps,
            };
            match self.frame_limit {
                Some(limit) => if limit == 0 {
                    0
                } else if profile_fps == 0 {
                    limit
                } else if profile_fps <= limit {
                    profile_fps
                } else {
                    limit
                },
                None => profile_fps,
            }
        }
    }

    /// The user limit a requested rate becomes: zero stays zero (uncapped),
    /// other rates are clamped to 15..=240.
    pub open spec fn clamped_limit(fps_limit: u32) -> u16 {
        if fps_limit == 0 {
            0
        } else if fps_limit < 15 {
            15
        } else if fps_limit > 240 {
            240
        } else {
            fps_limit as u16
        }
    }
}

/// The frame index after `index`: one more, skipping zero on wrap-around.
pub open spec fn next_frame_index(index: u64) -> u64 {
    if index == u64::MAX {
        1
    } else {
        (index + 1) as u64
    }
}

/// Decides when frames are rendered.
#[derive(Debug, Clone, PartialEq, Eq)]
pub struct FrameScheduler {
    profile: FramePacingProfile,
    budget: FramePacingBudget,
    frame_limit: Option<u16>,
    pending: FrameInvalidation,
    continuous: FrameInvalidation,
    window_focused: bool,
    suspended: bool,
    next_frame_index: u64,
    metrics: FrameSchedulerMetrics,
}

impl View for FrameScheduler {
    type V = SchedulerState;

    closed spec fn view(&self) -> SchedulerState {
        SchedulerState {
            profile: self.profile,
            budget: self.budget,
            frame_limit: self.frame_limit,
            pending: self.pending.bits(),
            continuous: self.continuous.bits(),
            window_focused: self.window_focused,
            suspended: self.suspended,
            next_frame_index: self.next_frame_index,
            metrics: self.metrics,
        }
    }
}

impl Default for FrameScheduler {
    fn default() -> (scheduler: Self)
        ensures
            scheduler@ == FrameScheduler::initial(FramePacingProfile::Eco),
    {
        Self::new(FramePacingProfile::Eco)
    }
}

impl FrameScheduler {
    /// A focused, running scheduler with the profile's budget, no user limit,
    /// and a first frame requested for the window.
    pub open spec fn initial(profile: FramePacingProfile) -> SchedulerState {
        SchedulerState {
            profile,
            budget: FramePacingBudget::for_profile_spec(profile),
            frame_limit: None,
            pending: 1u32 | 512u32,
            continuous: 0,
            window_focused: true,
            suspended: false,
            next_frame_index: 1,
            metrics: FrameSchedulerMetrics {
                frames_permitted: 0,
                idle_frames_skipped: 0,
                paced_frames_deferred: 0,
            },
        }
    }

    pub fn new(profile: FramePacingProfile) -> (scheduler: Self)
        ensures
            scheduler@ == Self::initial(profile),
            scheduler@.well_formed(),
    {
        FrameScheduler {
            profile,
            budget: FramePacingBudget::for_profile(profile),
            frame_limit: None,
            pending: FrameInvalidation::window() | FrameInvalidation::explicit(),
            continuous: FrameInvalidation::none(),
            window_focused: true,
            suspended: false,
            next_frame_index: 1,
            metrics: FrameSchedulerMetrics::default(),
        }
    }

    pub fn profile(&self) -> (profile: FramePacingProfile)
        ensures
            profile == self@.profile,
    {
        self.profile
    }

    pub fn budget(&self) -> (budget: FramePacingBudget)
        ensures
            budget == self@.budget,
    {
        self.budget
    }

    pub fn frame_limit(&self) -> (limit: Option<u16>)
        ensures
            limit == self@.frame_limit,
    {
        self.frame_limit
    }

    pub fn metrics(&self) -> (metrics: FrameSchedulerMetrics)
        ensures
            metrics == self@.metrics,
    {
        self.metrics
    }

    /// Every reason a frame is currently wanted.
    pub fn pending(&self) -> (reasons: FrameInvalidation)
        ensures
            reasons.bits() == self@.reasons(),
    {
        self.pending | self.continuous
    }

    /// Sets the user frame-rate ceiling (zero: uncapped while focused) and
    /// requests a frame. Returns whether the limit changed, in which case
    /// the pacing interval restarts; an unchanged limit changes nothing.
    pub fn set_frame_limit(&mut self, fps_limit: u32) -> (changed: bool)
        requires
            old(self)@.well_formed(),
        ensures
            final(self)@.well_formed(),
            changed == (old(self)@.frame_limit != Some(
                SchedulerState::clamped_limit(fps_limit),
            )),
            changed ==> final(self)@ == (SchedulerState {
                frame_limit: Some(SchedulerState::clamped_limit(fps_limit)),
                pending: old(self)@.pending | 512u32,
                ..old(self)@
            }),
            !changed ==> final(self)@ == old(self)@,
    {
        let next: Option<u16> = if fps_limit == 0 {
            Some(0)
        } else {
            Some(fps_limit.max(15).min(240) as u16)
        };
        if self.frame_limit == next {
            return false;
        }
        self.frame_limit = next;
        self.request(FrameInvalidation::explicit());
        true
    }

    /// Switches profile and budget and requests a frame. Returns whether the
    /// profile changed, in which case the pacing interval restarts.
    pub fn set_profile(&mut self, profile: FramePacingProfile) -> (changed: bool)
        requires
            old(self)@.well_formed(),
        ensures
            final(self)@.well_formed(),
            changed == (old(self)@.profile != profile),
            changed ==> final(self)@ == (SchedulerState {
                profile,
                budget: FramePacingBudget::for_profile_spec(profile),
                pending: old(self)@.pending | 512u32,
                ..old(self)@
            }),
            !changed ==> final(self)@ == old(self)@,
    {
        if self.profile == profile {
            return false;
        }
        self.profile = profile;
        self.budget = FramePacingBudget::for_profile(profile);
        self.request(FrameInvalidation::explicit());
        true
    }

    /// Records focus; a change requests a frame for the window.
    pub fn set_window_focused(&mut self, focused: bool)
        requires
            old(self)@.well_formed(),
        ensures
            final(self)@.well_formed(),
            old(self)@.window_focused != focused ==> final(self)@ == (SchedulerState {
                window_focused: focused,
                pending: old(self)@.pending | 1u32,
                ..old(self)@
            }),
            old(self)@.window_focused == focused ==> final(self)@ == old(self)@,
    {
        if self.window_focused != focused {
            self.window_focused = focused;
            self.request(FrameInvalidation::window());
        }
    }

    /// Suspends or resumes rendering. Returns whether rendering resumed, in
    /// which case a frame is requested for the window and the pacing
    /// interval restarts.
    pub fn set_suspended(&mut self, suspended: bool) -> (resumed: bool)
        requires
            old(self)@.well_formed(),
        ensures
            final(self)@.well_formed(),
            resumed == (old(self)@.suspended && !suspended),
            old(self)@.suspended == suspended ==> final(self)@ == old(self)@,
            !old(self)@.suspended && suspended ==> final(self)@ == (SchedulerState {
                suspended: true,
                ..old(self)@
            }),
            resumed ==> final(self)@ == (SchedulerState {
                suspended: false,
                pending: old(self)@.pending | 1u32,
                ..old(self)@
            }),
    {
        if self.suspended == suspended {
            return false;
        }
        self.suspended = suspended;
        if !suspended {
            self.request(FrameInvalidation::window());
            return true;
        }
        false
    }

    /// Requests one frame for the given reasons.
    pub fn request(&mut self, reason: FrameInvalidation)
        ensures
            final(self)@ == (SchedulerState {
                pending: old(self)@.pending | reason.bits(),
                ..old(self)@
            }),
    {
        self.pending.insert(reason);
    }

    /// Starts or stops asking for frames continuously for the given reasons.
    pub fn set_continuous(&mut self, reason: FrameInvalidation, active: bool)
        ensures
            final(self)@ == (SchedulerState {
                continuous: if active {
                    old(self)@.continuous | reason.bits()
                } else {
                    old(self)@.continuous & !reason.bits()
                },
                ..old(self)@
            }),
    {
        if active {
            self.continuous.insert(reason);
        } else {
            self.continuous.remove(reason);
        }
    }

    /// Decides whether a frame may be rendered now. `before_next_present`
    /// says that the pacing interval of the previous frame has not elapsed
    /// yet. A suspended or sleeping scheduler grants nothing; a paced frame
    /// that comes too early is deferred; otherwise the frame is granted and
    /// the one-shot requests are consumed.
    pub fn request_frame(&mut self, before_next_present: bool) -> (permit: Option<FramePermit>)
        requires
            old(self)@.well_formed(),
        ensures
            final(self)@.well_formed(),
            ({
                let s = old(self)@;
                let activity = s.activity();
                let fps = s.target_fps(activity);
                if s.suspended || s.sleeping() {
                    &&& permit is None
                    &&& final(self)@ == (SchedulerState {
                        metrics: FrameSchedulerMetrics {
                            idle_frames_skipped: sat_inc(s.metrics.idle_frames_skipped),
                            ..s.metrics
                        },
                        ..s
                    })
                } else if fps > 0 && before_next_present {
                    &&& permit is None
                    &&& final(self)@ == (SchedulerState {
                        metrics: FrameSchedulerMetrics {
                            paced_frames_deferred: sat_inc(s.metrics.paced_frames_deferred),
                            ..s.metrics
                        },
                        ..s
                    })
                } else {
                    &&& permit matches Some(p) && p.frame_index == s.next_frame_index
                        && p.reasons.bits() == s.reasons() && p.activity == activity
                        && p.target_fps == fps
                    &&& final(self)@ == (SchedulerState {
                        pending: 0,
                        next_frame_index: next_frame_index(s.next_frame_index),
                        metrics: FrameSchedulerMetrics {
                            frames_permitted: sat_inc(s.metrics.frames_permitted),
                            ..s.metrics
                        },
                        ..s
                    })
                }
            }),
    {
        if self.suspended {
            self.metrics.idle_frames_skipped = self.metrics.idle_frames_skipped.saturating_add(1);
            return None;
        }
        let reasons = self.pending | self.continuous;
        let benchmark = self.profile == FramePacingProfile::Benchmark;
        if reasons.is_empty() && self.budget.event_driven_idle && !benchmark {
            self.metrics.idle_frames_skipped = self.metrics.idle_frames_skipped.saturating_add(1);
            return None;
        }
        let activity = if benchmark {
            FrameActivity::Benchmark
        } else if reasons.intersects(FrameInvalidation::camera() | FrameInvalidation::pointer_capture()) {
            FrameActivity::Interactive
        } else if !self.continuous.is_empty() {
            FrameActivity::Passive
        } else {
            FrameActivity::Idle
        };
        let fps = self.target_fps(activity);
        if fps > 0 && before_next_present {
            self.metrics.paced_frames_deferred = self.metrics.paced_frames_deferred.saturating_add(
                1,
            );
            return None;
        }
        let permit = FramePermit { frame_index: self.next_frame_index, reasons, activity, target_fps: fps };
        self.next_frame_index = self.next_frame_index.wrapping_add(1).max(1);
        self.pending = FrameInvalidation::none();
        self.metrics.frames_permitted = self.metrics.frames_permitted.saturating_add(1);
        Some(permit)
    }

    /// Whether the caller should wake up for a frame at all: not while
    /// suspended or sleeping.
    pub fn frame_wanted(&self) -> (wanted: bool)
        ensures
            wanted == !(self@.suspended || self@.sleeping()),
    {
        if self.suspended {
            return false;
        }
        let reasons = self.pending | self.continuous;
        !(reasons.is_empty() && self.budget.event_driven_idle && self.profile
            != FramePacingProfile::Benchmark)
    }

    fn target_fps(&self, activity: FrameActivity) -> (fps: u16)
        ensures
            fps == self@.target_fps(activity),
    {
        if activity == FrameActivity::Benchmark {
            return 0;
        }
        if !self.window_focused {
            let background_limit = match self.frame_limit {
                Some(limit) => if limit > 0 {
                    limit
                } else {
                    u16::MAX
                },
                None => u16::MAX,
            };
            return self.budget.background_fps.min(background_limit);
        }
        let profile_fps = match activity {
            FrameActivity::Passive => self.budget.passive_fps,
            _ => self.budget.foreground_fps,
        };
        match self.frame_limit {
            Some(0) => 0,
            Some(limit) => if profile_fps == 0 {
                limit
            } else {
                profile_fps.min(limit)
            },
            None => profile_fps,
        }
    }
}

/// Law: camera motion (bit 4) or pointer capture (bit 8) among the pending
/// or continuous reasons makes a frame interactive outside the benchmark
/// profile, whatever continuous work is going on, and a focused window
/// without a user limit is then paced at the profile's foreground rate.
pub proof fn law_camera_or_capture_is_interactive(s: SchedulerState)
    requires
        s.profile != FramePacingProfile::Benchmark,
        (s.pending & 4u32) != 0 || (s.continuous & 4u32) != 0 || (s.pending & 8u32) != 0 || (
        s.continuous & 8u32) != 0,
    ensures
        s.activity() == FrameActivity::Interactive,
        s.window_focused && s.frame_limit is None ==> s.target_fps(s.activity())
            == s.budget.foreground_fps,
{
    let p = s.pending;
    let c = s.continuous;
    assert(((p & 4u32) != 0 || (c & 4u32) != 0 || (p & 8u32) != 0 || (c & 8u32) != 0) ==> ((p | c)
        & (4u32 | 8u32)) != 0) by (bit_vector);
}

/// Law: outside the benchmark profile, continuous work without camera
/// motion or pointer capture is passive, paced at the profile's passive rate
/// in a focused window without a user limit; with no reason at all the
/// activity is idle.
pub proof fn law_continuous_work_alone_is_passive(s: SchedulerState)
    requires
        s.profile != FramePacingProfile::Benchmark,
        (s.pending & 4u32) == 0,
        (s.continuous & 4u32) == 0,
        (s.pending & 8u32) == 0,
        (s.continuous & 8u32) == 0,
    ensures
        s.continuous != 0 ==> s.activity() == FrameActivity::Passive,
        s.continuous != 0 && s.window_focused && s.frame_limit is None ==> s.target_fps(
            s.activity(),
        ) == s.budget.passive_fps,
        s.continuous == 0 ==> s.activity() == FrameActivity::Idle,
{
    let p = s.pending;
    let c = s.continuous;
    assert(((p & 4u32) == 0 && (c & 4u32) == 0 && (p & 8u32) == 0 && (c & 8u32) == 0) ==> ((p | c)
        & (4u32 | 8u32)) == 0) by (bit_vector);
}

/// Law: with a non-zero user limit, a focused window is never paced faster
/// than the limit.
pub proof fn law_user_limit_caps_focused_rate(s: SchedulerState, activity: FrameActivity, limit: u16)
    requires
        s.window_focused,
        s.frame_limit == Some(limit),
        limit > 0,
    ensures
        s.target_fps(activity) <= limit,
{
}

/// Law: a background window is never paced faster than the profile's
/// background rate.
pub proof fn law_background_rate_capped(s: SchedulerState, activity: FrameActivity)
    requires
        !s.window_focused,
    ensures
        s.target_fps(activity) <= s.budget.background_fps,
{
}

/// Law: the benchmark profile is never paced and never sleeps.
pub proof fn law_benchmark_is_unpaced(s: SchedulerState)
    requires
        s.profile == FramePacingProfile::Benchmark,
    ensures
        s.activity() == FrameActivity::Benchmark,
        s.target_fps(s.activity()) == 0,
        !s.sleeping(),
{
}

/// Law: frame indexes are never zero.
pub proof fn law_frame_index_never_zero(index: u64)
    ensures
        next_frame_index(index) >= 1,
        index < u64::MAX ==> next_frame_index(index) == index + 1,
{
}

/// Law: a user limit is zero or lies in 15..=240.
pub proof fn law_clamped_limit_range(fps_limit: u32)
    ensures
        SchedulerState::clamped_limit(fps_limit) == 0 <==> fps_limit == 0,
        fps_limit != 0 ==> 15 <= SchedulerState::clamped_limit(fps_limit) <= 240,
{
}

/// Law: after inserting reasons they are contained.
pub proof fn law_insert_then_contains(a: u32, b: u32)
    ensures
        (a | b) & b == b,
{
    assert((a | b) & b == b) by (bit_vector);
}

/// Law: after removing reasons none of them is left.
pub proof fn law_remove_then_disjoint(a: u32, b: u32)
    ensures
        (a & !b) & b == 0,
{
    assert((a & !b) & b == 0) by (bit_vector);
}

/// Law: removing reasons keeps every other reason.
pub proof fn law_remove_keeps_others(a: u32, b: u32, c: u32)
    requires
        c & b == 0,
    ensures
        (a & !b) & c == a & c,
{
    assert((a & !b) & c == a & c) by (bit_vector)
        requires
            c & b == 0,
    ;
}

} // verus!
