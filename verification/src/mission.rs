//! The full GNSS-loss mission session: its lifecycle and pace under
//! operator requests, each a transition from the control state and a
//! request to the next state and the event recorded; the bookkeeping each
//! release of the mission decides on; and the checks and ledger of the
//! operator's uplink actions.
use crate::disposition::{
    TimelineEventView, TimelineSource, UplinkState, DECISION_WINDOW_OPEN_RELEASE,
    FULL_GNSS_LOSS_SCENARIO_ID, GNSS_LOSS_RELEASE, GNSS_QUALIFIED_RELEASE,
};
use vstd::prelude::*;

verus! {

/// Telemetry frames are recorded on every release before a multiple of
/// this stride.
pub const FULL_RECORDING_STRIDE_RELEASES: u32 = 32;

/// Operational samples are presented every this many releases.
pub const FULL_PRESENTATION_STRIDE_RELEASES: u32 = 8;

/// Ground tracking observes the vehicle every this many releases.
pub const GROUND_TRACKING_PERIOD_RELEASES: u32 = 4;

/// How many releases after an observation its ground tracking report is
/// delivered.
pub const GROUND_TRACKING_DELAY_RELEASES: u32 = 4;

/// A session never makes more releases than this.
pub const FULL_MISSION_MAX_RELEASES: u32 = 24_000;

/// Where a mission session is in its life.
#[derive(Clone, Copy, Debug, PartialEq, Eq, Structural)]
pub enum SessionLifecycle {
    Compiled,
    Ready,
    Running,
    Paused,
    Completed,
    Aborted,
}

/// How fast a mission session releases.
#[derive(Clone, Copy, Debug, PartialEq, Eq, Structural)]
pub enum SessionPace {
    Paused,
    SingleStep,
    Realtime,
    Fast,
}

/// A control event the session records.
#[derive(Clone, Copy, Debug, PartialEq, Eq, Structural)]
pub enum SessionEvent {
    Prepared,
    PaceChanged(SessionPace),
    Paused,
    Resumed(SessionPace),
    Aborted(u32),
    ActionStaged(u32),
    ActionCommitted(u32),
    ActionCancelled(u32),
    ActionRejected(u32),
}

/// Why a session refused a request.
#[derive(Clone, Copy, Debug, PartialEq, Eq, Structural)]
pub enum MissionSessionError {
    Lifecycle,
    NotCompleted,
    ActionRejected,
    ActionUnavailable,
    Unsupported,
}

/// The control state of a session: its lifecycle, its pace, and the pace
/// it resumes at after a pause.
#[derive(Clone, Copy, Debug, PartialEq, Eq, Structural)]
pub struct SessionControl {
    pub lifecycle: SessionLifecycle,
    pub pace: SessionPace,
    pub resume_pace: SessionPace,
}

/// A session never resumes into a pause.
pub open spec fn control_wf(s: SessionControl) -> bool {
    s.resume_pace != SessionPace::Paused
}

pub open spec fn is_finished(s: SessionControl) -> bool {
    s.lifecycle == SessionLifecycle::Completed || s.lifecycle == SessionLifecycle::Aborted
}

pub open spec fn paused_control(s: SessionControl) -> (SessionControl, Result<
    SessionEvent,
    MissionSessionError,
>) {
    if s.lifecycle != SessionLifecycle::Ready && s.lifecycle != SessionLifecycle::Running {
        (s, Err(MissionSessionError::Lifecycle))
    } else {
        (
            SessionControl {
                lifecycle: SessionLifecycle::Paused,
                pace: SessionPace::Paused,
                resume_pace: if s.pace != SessionPace::Paused {
                    s.pace
                } else {
                    s.resume_pace
                },
            },
            Ok(SessionEvent::Paused),
        )
    }
}

pub open spec fn paced_control(s: SessionControl, pace: SessionPace) -> (SessionControl, Result<
    SessionEvent,
    MissionSessionError,
>) {
    if is_finished(s) {
        (s, Err(MissionSessionError::Lifecycle))
    } else if pace == SessionPace::Paused {
        paused_control(s)
    } else {
        (
            SessionControl {
                pace,
                resume_pace: if pace == SessionPace::SingleStep {
                    SessionPace::Realtime
                } else {
                    pace
                },
                ..s
            },
            Ok(SessionEvent::PaceChanged(pace)),
        )
    }
}

pub open spec fn resumed_control(s: SessionControl) -> (SessionControl, Result<
    SessionEvent,
    MissionSessionError,
>) {
    if s.lifecycle != SessionLifecycle::Paused {
        (s, Err(MissionSessionError::Lifecycle))
    } else {
        (
            SessionControl { lifecycle: SessionLifecycle::Running, pace: s.resume_pace, ..s },
            Ok(SessionEvent::Resumed(s.resume_pace)),
        )
    }
}

pub open spec fn aborted_control(s: SessionControl, reason: u32) -> (SessionControl, Result<
    SessionEvent,
    MissionSessionError,
>) {
    if is_finished(s) {
        (s, Err(MissionSessionError::Lifecycle))
    } else {
        (SessionControl { lifecycle: SessionLifecycle::Aborted, ..s }, Ok(SessionEvent::Aborted(reason)))
    }
}

/// How many releases one advance makes at most: none when asked for none
/// or paused, up to 256 when fast, one otherwise.
pub open spec fn budget_of(pace: SessionPace, maximum_releases: u32) -> u32 {
    if maximum_releases == 0 || pace == SessionPace::Paused {
        0
    } else if pace == SessionPace::Fast {
        if maximum_releases < 256 {
            maximum_releases
        } else {
            256
        }
    } else {
        1
    }
}

impl SessionControl {
    /// Compiles a session for the scenario with identity
    /// `scenario_identity`: only the full GNSS-loss mission is supported,
    /// and any other scenario is refused as `Unsupported` (a scripted
    /// evidence run then reports it as incompatible).
    pub fn compile_for(scenario_identity: u32) -> (r: Result<Self, MissionSessionError>)
        ensures
            scenario_identity == FULL_GNSS_LOSS_SCENARIO_ID ==> r == Ok::<Self, MissionSessionError>(
                SessionControl {
                    lifecycle: SessionLifecycle::Compiled,
                    pace: SessionPace::Realtime,
                    resume_pace: SessionPace::Realtime,
                },
            ),
            scenario_identity != FULL_GNSS_LOSS_SCENARIO_ID ==> r == Err::<Self, MissionSessionError>(
                MissionSessionError::Unsupported,
            ),
    {
        if scenario_identity != FULL_GNSS_LOSS_SCENARIO_ID {
            return Err(MissionSessionError::Unsupported);
        }
        Ok(SessionControl::new())
    }

    /// A freshly compiled session, paced in real time.
    pub fn new() -> (r: Self)
        ensures
            r == (SessionControl {
                lifecycle: SessionLifecycle::Compiled,
                pace: SessionPace::Realtime,
                resume_pace: SessionPace::Realtime,
            }),
            control_wf(r),
    {
        SessionControl {
            lifecycle: SessionLifecycle::Compiled,
            pace: SessionPace::Realtime,
            resume_pace: SessionPace::Realtime,
        }
    }

    /// A compiled session becomes ready once its mission is prepared.
    pub fn prepare(&mut self) -> (r: Result<SessionEvent, MissionSessionError>)
        ensures
            old(self).lifecycle == SessionLifecycle::Compiled ==> *final(self) == (SessionControl {
                lifecycle: SessionLifecycle::Ready,
                ..*old(self)
            }) && r == Ok::<SessionEvent, MissionSessionError>(SessionEvent::Prepared),
            old(self).lifecycle != SessionLifecycle::Compiled ==> *final(self) == *old(self) && r
                == Err::<SessionEvent, MissionSessionError>(MissionSessionError::Lifecycle),
    {
        if self.lifecycle != SessionLifecycle::Compiled {
            return Err(MissionSessionError::Lifecycle);
        }
        self.lifecycle = SessionLifecycle::Ready;
        Ok(SessionEvent::Prepared)
    }

    /// Pauses a ready or running session, remembering the pace to resume
    /// at.
    pub fn pause(&mut self) -> (r: Result<SessionEvent, MissionSessionError>)
        ensures
            (*final(self), r) == paused_control(*old(self)),
    {
        if self.lifecycle != SessionLifecycle::Ready && self.lifecycle != SessionLifecycle::Running {
            return Err(MissionSessionError::Lifecycle);
        }
        if self.pace != SessionPace::Paused {
            self.resume_pace = self.pace;
        }
        self.pace = SessionPace::Paused;
        self.lifecycle = SessionLifecycle::Paused;
        Ok(SessionEvent::Paused)
    }

    /// Sets the pace of an unfinished session; asking for the paused pace
    /// pauses it, and single-stepping resumes in real time.
    pub fn set_pace(&mut self, pace: SessionPace) -> (r: Result<SessionEvent, MissionSessionError>)
        ensures
            (*final(self), r) == paced_control(*old(self), pace),
    {
        if self.lifecycle == SessionLifecycle::Completed || self.lifecycle
            == SessionLifecycle::Aborted {
            return Err(MissionSessionError::Lifecycle);
        }
        if pace == SessionPace::Paused {
            return self.pause();
        }
        self.pace = pace;
        self.resume_pace = if pace == SessionPace::SingleStep {
            SessionPace::Realtime
        } else {
            pace
        };
        Ok(SessionEvent::PaceChanged(pace))
    }

    /// Resumes a paused session at the remembered pace.
    pub fn resume(&mut self) -> (r: Result<SessionEvent, MissionSessionError>)
        ensures
            (*final(self), r) == resumed_control(*old(self)),
    {
        if self.lifecycle != SessionLifecycle::Paused {
            return Err(MissionSessionError::Lifecycle);
        }
        self.pace = self.resume_pace;
        self.lifecycle = SessionLifecycle::Running;
        Ok(SessionEvent::Resumed(self.pace))
    }

    /// Aborts an unfinished session for `reason`.
    pub fn abort(&mut self, reason: u32) -> (r: Result<SessionEvent, MissionSessionError>)
        ensures
            (*final(self), r) == aborted_control(*old(self), reason),
    {
        if self.lifecycle == SessionLifecycle::Completed || self.lifecycle
            == SessionLifecycle::Aborted {
            return Err(MissionSessionError::Lifecycle);
        }
        self.lifecycle = SessionLifecycle::Aborted;
        Ok(SessionEvent::Aborted(reason))
    }

    /// Starts release `release_epoch`: only a ready, running or paused
    /// session below the release limit makes one, and it is then running.
    pub fn begin_release(&mut self, release_epoch: u32) -> (r: Result<(), MissionSessionError>)
        ensures
            (old(self).lifecycle == SessionLifecycle::Ready || old(self).lifecycle
                == SessionLifecycle::Running || old(self).lifecycle == SessionLifecycle::Paused)
                && release_epoch < FULL_MISSION_MAX_RELEASES ==> r is Ok && *final(self) == (
            SessionControl { lifecycle: SessionLifecycle::Running, ..*old(self) }),
            !((old(self).lifecycle == SessionLifecycle::Ready || old(self).lifecycle
                == SessionLifecycle::Running || old(self).lifecycle == SessionLifecycle::Paused)
                && release_epoch < FULL_MISSION_MAX_RELEASES) ==> r == Err::<(), MissionSessionError>(
                MissionSessionError::Lifecycle,
            ) && *final(self) == *old(self),
    {
        if self.lifecycle != SessionLifecycle::Ready && self.lifecycle != SessionLifecycle::Running
            && self.lifecycle != SessionLifecycle::Paused {
            return Err(MissionSessionError::Lifecycle);
        }
        if release_epoch >= FULL_MISSION_MAX_RELEASES {
            return Err(MissionSessionError::Lifecycle);
        }
        self.lifecycle = SessionLifecycle::Running;
        Ok(())
    }

    /// Ends a release: a completed world completes the session; otherwise a
    /// single step leaves it paused.
    pub fn end_release(&mut self, world_complete: bool, single_step: bool)
        ensures
            *final(self) == (if world_complete {
                SessionControl { lifecycle: SessionLifecycle::Completed, ..*old(self) }
            } else if single_step {
                SessionControl { lifecycle: SessionLifecycle::Paused, ..*old(self) }
            } else {
                *old(self)
            }),
    {
        if world_complete {
            self.lifecycle = SessionLifecycle::Completed;
        } else if single_step {
            self.lifecycle = SessionLifecycle::Paused;
        }
    }

    /// After an operator's single step: an unfinished mission holds paused.
    pub fn hold_after_step(&mut self) -> (r: Option<SessionEvent>)
        ensures
            old(self).lifecycle != SessionLifecycle::Completed ==> *final(self) == (SessionControl {
                lifecycle: SessionLifecycle::Paused,
                pace: SessionPace::Paused,
                ..*old(self)
            }) && r == Some(SessionEvent::Paused),
            old(self).lifecycle == SessionLifecycle::Completed ==> *final(self) == *old(self) && r
                is None,
    {
        if self.lifecycle != SessionLifecycle::Completed {
            self.lifecycle = SessionLifecycle::Paused;
            self.pace = SessionPace::Paused;
            Some(SessionEvent::Paused)
        } else {
            None
        }
    }

    /// How many releases an advance of at most `maximum_releases` makes at
    /// the session's pace.
    pub fn release_budget(&self, maximum_releases: u32) -> (r: u32)
        ensures
            r == budget_of(self.pace, maximum_releases),
    {
        if maximum_releases == 0 || self.pace == SessionPace::Paused {
            0
        } else if self.pace == SessionPace::Fast {
            if maximum_releases < 256 {
                maximum_releases
            } else {
                256
            }
        } else {
            1
        }
    }
}

/// Operator requests keep the session sound: it never resumes into a
/// pause.
pub proof fn law_control_keeps_wf(s: SessionControl, pace: SessionPace, reason: u32)
    requires
        control_wf(s),
    ensures
        control_wf(paced_control(s, pace).0),
        control_wf(paused_control(s).0),
        control_wf(resumed_control(s).0),
        control_wf(aborted_control(s, reason).0),
{
}

/// Pausing a ready or running session and resuming it comes back running
/// at the pace it had (or, when it was already paced to a halt, at the pace
/// it had before).
pub proof fn law_pause_then_resume_restores_pace(s: SessionControl)
    requires
        control_wf(s),
        s.lifecycle == SessionLifecycle::Ready || s.lifecycle == SessionLifecycle::Running,
    ensures
        ({
            let (p, pr) = paused_control(s);
            let (q, qr) = resumed_control(p);
            &&& pr is Ok
            &&& qr is Ok
            &&& q.lifecycle == SessionLifecycle::Running
            &&& q.pace == (if s.pace != SessionPace::Paused {
                s.pace
            } else {
                s.resume_pace
            })
            &&& q.pace != SessionPace::Paused
        }),
{
}

/// A completed or aborted session refuses every pace, pause, resume and
/// abort request and stays as it was.
pub proof fn law_finished_sessions_refuse_control(
    s: SessionControl,
    pace: SessionPace,
    reason: u32,
)
    requires
        is_finished(s),
    ensures
        paced_control(s, pace) == (s, Err::<SessionEvent, MissionSessionError>(
            MissionSessionError::Lifecycle,
        )),
        paused_control(s) == (s, Err::<SessionEvent, MissionSessionError>(
            MissionSessionError::Lifecycle,
        )),
        resumed_control(s) == (s, Err::<SessionEvent, MissionSessionError>(
            MissionSessionError::Lifecycle,
        )),
        aborted_control(s, reason) == (s, Err::<SessionEvent, MissionSessionError>(
            MissionSessionError::Lifecycle,
        )),
{
}

/// An advance makes no release exactly when none is asked for or the
/// session is paused, and never more than 256.
pub proof fn law_release_budget(pace: SessionPace, maximum_releases: u32)
    ensures
        budget_of(pace, maximum_releases) <= 256,
        budget_of(pace, maximum_releases) <= maximum_releases,
        budget_of(pace, maximum_releases) == 0 <==> (maximum_releases == 0 || pace
            == SessionPace::Paused),
{
}

// ---------------------------------------------------------------------------
// Per-release bookkeeping

/// A milestone the timeline marks at a fixed release.
#[derive(Clone, Copy, Debug, PartialEq, Eq, Structural)]
pub enum MissionMilestone {
    GnssObservationsMissing,
    GnssLossQualified,
    ResponseWindowOpen,
}

/// What a release of the mission records besides its world state.
#[derive(Clone, Copy, Debug, PartialEq, Eq, Structural)]
pub struct ReleasePlan {
    /// Ground tracking observes the vehicle.
    pub observe_ground: bool,
    /// Onboard and ground predictions are projected.
    pub project_predictions: bool,
    /// Projected predictions are kept in the record.
    pub keep_predictions: bool,
    /// The release's telemetry frame and plot point are recorded.
    pub important: bool,
    /// An operational sample is presented.
    pub sampled: bool,
    /// The timeline milestone of this release, if any.
    pub milestone: Option<MissionMilestone>,
}

/// The bookkeeping of release `epoch`: ground tracking every fourth
/// release; predictions every 32nd, kept every 256th and at GNSS-loss
/// qualification; the release recorded when it is the first, the last of a
/// recording stride, or shows events, a frame transition or the mission's
/// end; a sample every eighth or recorded release; and the GNSS-loss
/// milestones at their releases (qualification only once three fixes are
/// missing).
pub open spec fn release_plan_of(
    epoch: u32,
    gnss_missing_fixes: u8,
    world_events: bool,
    frame_transition: bool,
    world_complete: bool,
) -> ReleasePlan {
    let important = epoch == 0 || (epoch + 1) % (FULL_RECORDING_STRIDE_RELEASES as int) == 0
        || world_events || frame_transition || world_complete;
    ReleasePlan {
        observe_ground: epoch % GROUND_TRACKING_PERIOD_RELEASES == 0,
        project_predictions: epoch % 32 == 0,
        keep_predictions: epoch % 256 == 0 || epoch == GNSS_QUALIFIED_RELEASE,
        important,
        sampled: epoch % FULL_PRESENTATION_STRIDE_RELEASES == 0 || important,
        milestone: if epoch == GNSS_LOSS_RELEASE {
            Some(MissionMilestone::GnssObservationsMissing)
        } else if gnss_missing_fixes >= 3 && epoch == GNSS_QUALIFIED_RELEASE {
            Some(MissionMilestone::GnssLossQualified)
        } else if epoch == DECISION_WINDOW_OPEN_RELEASE {
            Some(MissionMilestone::ResponseWindowOpen)
        } else {
            None
        },
    }
}

/// Every release recorded as important is also sampled for presentation,
/// and besides those exactly every eighth release is sampled.
pub proof fn law_important_releases_are_sampled(
    epoch: u32,
    gnss_missing_fixes: u8,
    world_events: bool,
    frame_transition: bool,
    world_complete: bool,
)
    ensures
        ({
            let p = release_plan_of(
                epoch,
                gnss_missing_fixes,
                world_events,
                frame_transition,
                world_complete,
            );
            &&& p.important ==> p.sampled
            &&& p.sampled <==> (p.important || epoch % 8 == 0)
        }),
{
}

/// A release is recorded as important exactly when it is the first, closes
/// a stride of 32 releases, or shows world events, a frame transition or
/// the mission's end; the ground is observed every fourth release and
/// predictions projected every 32nd.
pub proof fn law_release_recording(
    epoch: u32,
    gnss_missing_fixes: u8,
    world_events: bool,
    frame_transition: bool,
    world_complete: bool,
)
    ensures
        ({
            let p = release_plan_of(
                epoch,
                gnss_missing_fixes,
                world_events,
                frame_transition,
                world_complete,
            );
            &&& p.important <==> (epoch == 0 || (epoch + 1) % 32 == 0 || world_events
                || frame_transition || world_complete)
            &&& p.observe_ground <==> epoch % 4 == 0
            &&& p.project_predictions <==> epoch % 32 == 0
            &&& p.keep_predictions ==> p.project_predictions || epoch == GNSS_QUALIFIED_RELEASE
        }),
{
}

/// The GNSS-loss milestones fall at their releases: observations go
/// missing at the loss release, the loss is qualified at its release once
/// three fixes are missing, and the response window opens at its release;
/// no other release carries a milestone.
pub proof fn law_release_milestones(
    epoch: u32,
    gnss_missing_fixes: u8,
    world_events: bool,
    frame_transition: bool,
    world_complete: bool,
)
    ensures
        ({
            let p = release_plan_of(
                epoch,
                gnss_missing_fixes,
                world_events,
                frame_transition,
                world_complete,
            );
            &&& epoch == GNSS_LOSS_RELEASE ==> p.milestone == Some(
                MissionMilestone::GnssObservationsMissing,
            )
            &&& epoch == GNSS_QUALIFIED_RELEASE && gnss_missing_fixes >= 3 ==> p.milestone == Some(
                MissionMilestone::GnssLossQualified,
            )
            &&& epoch == DECISION_WINDOW_OPEN_RELEASE ==> p.milestone == Some(
                MissionMilestone::ResponseWindowOpen,
            )
            &&& p.milestone == Some(MissionMilestone::GnssLossQualified) ==> gnss_missing_fixes >= 3
            &&& epoch != GNSS_LOSS_RELEASE && epoch != GNSS_QUALIFIED_RELEASE && epoch
                != DECISION_WINDOW_OPEN_RELEASE ==> p.milestone is None
        }),
{
}

/// Decides the bookkeeping of release `epoch`.
pub fn release_plan(
    epoch: u32,
    gnss_missing_fixes: u8,
    world_events: bool,
    frame_transition: bool,
    world_complete: bool,
) -> (r: ReleasePlan)
    ensures
        r == release_plan_of(
            epoch,
            gnss_missing_fixes,
            world_events,
            frame_transition,
            world_complete,
        ),
{
    let important = epoch == 0 || (epoch as u64 + 1) % (FULL_RECORDING_STRIDE_RELEASES as u64) == 0
        || world_events || frame_transition || world_complete;
    ReleasePlan {
        observe_ground: epoch % GROUND_TRACKING_PERIOD_RELEASES == 0,
        project_predictions: epoch % 32 == 0,
        keep_predictions: epoch % 256 == 0 || epoch == GNSS_QUALIFIED_RELEASE,
        important,
        sampled: epoch % FULL_PRESENTATION_STRIDE_RELEASES == 0 || important,
        milestone: if epoch == GNSS_LOSS_RELEASE {
            Some(MissionMilestone::GnssObservationsMissing)
        } else if gnss_missing_fixes >= 3 && epoch == GNSS_QUALIFIED_RELEASE {
            Some(MissionMilestone::GnssLossQualified)
        } else if epoch == DECISION_WINDOW_OPEN_RELEASE {
            Some(MissionMilestone::ResponseWindowOpen)
        } else {
            None
        },
    }
}

/// The count of consecutive missing GNSS fixes after release `epoch`: a
/// release with an aid cell on a 32-release boundary counts one more
/// missing fix (held at 255) when its GNSS fix is absent after the loss
/// began, and restarts the count otherwise; other releases leave it.
pub fn gnss_missing_after(count: u8, epoch: u32, aid_gnss_valid: Option<bool>) -> (r: u8)
    ensures
        r == (match aid_gnss_valid {
            Some(valid) => if epoch % 32 == 0 {
                if !valid && epoch >= GNSS_LOSS_RELEASE {
                    if count == u8::MAX {
                        u8::MAX
                    } else {
                        (count + 1) as u8
                    }
                } else {
                    0
                }
            } else {
                count
            },
            None => count,
        }),
{
    match aid_gnss_valid {
        Some(valid) => {
            if epoch % 32 == 0 {
                if !valid && epoch >= GNSS_LOSS_RELEASE {
                    count.saturating_add(1)
                } else {
                    0
                }
            } else {
                count
            }
        },
        None => count,
    }
}

// ---------------------------------------------------------------------------
// Operator uplink actions

/// The kind of command load an operator stages.
#[derive(Clone, Copy, Debug, PartialEq, Eq, Structural)]
pub enum UplinkLoadType {
    GroundNavigationUpdate,
    ContingencyBranch,
    /// Any other load the flight package knows.
    Other,
}

/// The frame a state vector is expressed in.
#[derive(Clone, Copy, Debug, PartialEq, Eq, Structural)]
pub enum ReferenceFrame {
    LocalEnuV1,
    EarthFixedEcefV1,
    EarthInertialEciV1,
}

/// What the session checks of a staged ground navigation update: the
/// estimator it claims as source, that estimator's checksum, the frame, and
/// the position and velocity it carries.
#[derive(Clone, Copy, Debug, PartialEq, Eq)]
pub struct NavigationUpdateLoad {
    pub source_estimator_identity: u32,
    pub source_estimator_checksum: u32,
    pub frame: ReferenceFrame,
    pub position_q12_km: [i32; 3],
    pub velocity_q24_km_s: [i32; 3],
}

/// The latest public ground estimate.
#[derive(Clone, Copy, Debug, PartialEq, Eq)]
pub struct GroundEstimateFacts {
    pub estimator_checksum: u32,
    pub frame: ReferenceFrame,
    pub position_q12_km: [i32; 3],
    pub velocity_q24_km_s: [i32; 3],
}

/// A navigation update is bound to the latest ground estimate when it
/// names the ground estimator and carries exactly that estimate.
pub open spec fn update_bound(
    load: NavigationUpdateLoad,
    ground: GroundEstimateFacts,
    estimator_identity: u32,
) -> bool {
    &&& load.source_estimator_identity == estimator_identity
    &&& load.source_estimator_checksum == ground.estimator_checksum
    &&& load.frame == ground.frame
    &&& load.position_q12_km@ == ground.position_q12_km@
    &&& load.velocity_q24_km_s@ == ground.velocity_q24_km_s@
}

/// Checks a staged navigation update against the latest ground estimate,
/// made by the estimator `estimator_identity`; without an estimate the
/// update is refused.
pub fn check_navigation_update(
    load: &NavigationUpdateLoad,
    ground: Option<GroundEstimateFacts>,
    estimator_identity: u32,
) -> (r: Result<(), MissionSessionError>)
    ensures
        r is Ok <==> (ground matches Some(g) && update_bound(*load, g, estimator_identity)),
        r is Err ==> r == Err::<(), MissionSessionError>(MissionSessionError::ActionRejected),
{
    let g = match ground {
        Some(g) => g,
        None => {
            return Err(MissionSessionError::ActionRejected);
        },
    };
    if load.source_estimator_identity != estimator_identity || load.source_estimator_checksum
        != g.estimator_checksum || load.frame != g.frame {
        return Err(MissionSessionError::ActionRejected);
    }
    let mut i: usize = 0;
    while i < 3
        invariant
            i <= 3,
            ground == Some(g),
            forall|k: int| 0 <= k < i ==> load.position_q12_km@[k] == g.position_q12_km@[k]
                && load.velocity_q24_km_s@[k] == g.velocity_q24_km_s@[k],
        decreases 3 - i,
    {
        if load.position_q12_km[i] != g.position_q12_km[i] || load.velocity_q24_km_s[i]
            != g.velocity_q24_km_s[i] {
            assert(load.position_q12_km@[i as int] != g.position_q12_km@[i as int]
                || load.velocity_q24_km_s@[i as int] != g.velocity_q24_km_s@[i as int]);
            return Err(MissionSessionError::ActionRejected);
        }
        i += 1;
    }
    assert(load.position_q12_km@ =~= g.position_q12_km@);
    assert(load.velocity_q24_km_s@ =~= g.velocity_q24_km_s@);
    Ok(())
}

/// A contingency branch load must select a branch the mission plan
/// declares.
pub fn branch_declared(branch_ids: &[u8], argument: i32) -> (r: bool)
    ensures
        r == exists|i: int| 0 <= i < branch_ids@.len() && branch_ids@[i] as i32 == argument,
{
    let mut i: usize = 0;
    while i < branch_ids.len()
        invariant
            i <= branch_ids@.len(),
            forall|k: int| 0 <= k < i ==> branch_ids@[k] as i32 != argument,
        decreases branch_ids@.len() - i,
    {
        if branch_ids[i] as i32 == argument {
            return true;
        }
        i += 1;
    }
    false
}

/// What an operator asks of the session, as far as admitting it reads it:
/// staging a navigation update, a contingency branch or another load,
/// committing the staged load, or cancelling it.
#[derive(Clone, Copy, Debug, PartialEq, Eq)]
pub enum ActionRequest {
    StageNavigationUpdate(NavigationUpdateLoad),
    StageBranch(i32),
    StageOther,
    Commit,
    Cancel,
}

/// Whether the session admits an operator action, in the order the checks
/// are made: `Lifecycle` unless the session is ready, running or paused;
/// `ActionRejected` for a role that may not act; then the load's own
/// checks (a navigation update bound to the latest ground estimate, a
/// declared branch) or, for a commit, the staged load and the procedure
/// step; and `Lifecycle` where no mission is running to take the action.
pub open spec fn action_admission(
    lifecycle: SessionLifecycle,
    role_can_act: bool,
    request: ActionRequest,
    ground: Option<GroundEstimateFacts>,
    estimator_identity: u32,
    branch_ids: Seq<u8>,
    staged: Option<StagedLoad>,
    procedure_active: bool,
    step_action: Option<UplinkLoadType>,
    runner_present: bool,
) -> Result<(), MissionSessionError> {
    if !(lifecycle is Ready || lifecycle is Running || lifecycle is Paused) {
        Err(MissionSessionError::Lifecycle)
    } else if !role_can_act {
        Err(MissionSessionError::ActionRejected)
    } else {
        let check = match request {
            ActionRequest::StageNavigationUpdate(load) => if ground matches Some(g) && update_bound(
                load,
                g,
                estimator_identity,
            ) {
                Ok::<(), MissionSessionError>(())
            } else {
                Err(MissionSessionError::ActionRejected)
            },
            ActionRequest::StageBranch(argument) => if exists|i: int|
                0 <= i < branch_ids.len() && branch_ids[i] as i32 == argument {
                Ok(())
            } else {
                Err(MissionSessionError::ActionRejected)
            },
            ActionRequest::Commit => match staged {
                None => Err(MissionSessionError::ActionUnavailable),
                Some(load) => if procedure_active && step_action == Some(load.load_type) {
                    Ok(())
                } else {
                    Err(MissionSessionError::ActionRejected)
                },
            },
            _ => Ok(()),
        };
        match check {
            Err(e) => Err(e),
            Ok(_) => if runner_present {
                Ok(())
            } else {
                Err(MissionSessionError::Lifecycle)
            },
        }
    }
}

/// Admits an operator action or says why not.
pub fn admit_operator_action(
    lifecycle: SessionLifecycle,
    role_can_act: bool,
    request: &ActionRequest,
    ground: Option<GroundEstimateFacts>,
    estimator_identity: u32,
    branch_ids: &[u8],
    staged: Option<StagedLoad>,
    procedure_active: bool,
    step_action: Option<UplinkLoadType>,
    runner_present: bool,
) -> (r: Result<(), MissionSessionError>)
    ensures
        r == action_admission(
            lifecycle,
            role_can_act,
            *request,
            ground,
            estimator_identity,
            branch_ids@,
            staged,
            procedure_active,
            step_action,
            runner_present,
        ),
{
    match lifecycle {
        SessionLifecycle::Ready | SessionLifecycle::Running | SessionLifecycle::Paused => {},
        _ => return Err(MissionSessionError::Lifecycle),
    }
    if !role_can_act {
        return Err(MissionSessionError::ActionRejected);
    }
    match request {
        ActionRequest::StageNavigationUpdate(load) => {
            match check_navigation_update(load, ground, estimator_identity) {
                Ok(()) => {},
                Err(e) => return Err(e),
            }
        },
        ActionRequest::StageBranch(argument) => {
            if !branch_declared(branch_ids, *argument) {
                return Err(MissionSessionError::ActionRejected);
            }
        },
        ActionRequest::Commit => {
            match commit_allowed(staged, procedure_active, step_action) {
                Ok(()) => {},
                Err(e) => return Err(e),
            }
        },
        _ => {},
    }
    if runner_present {
        Ok(())
    } else {
        Err(MissionSessionError::Lifecycle)
    }
}

/// A staged command load as the session keeps it.
#[derive(Clone, Copy, Debug, PartialEq, Eq, Structural)]
pub struct StagedLoad {
    pub load_identity: u32,
    pub load_type: UplinkLoadType,
    /// The load's first argument: the selected branch, for a branch load.
    pub first_argument: i32,
    /// The last release epoch at which the load may still be committed.
    pub expires_epoch: u32,
}

/// A staged load may be committed only while the procedure is active and
/// its current step calls for a load of that type.
pub fn commit_allowed(
    staged: Option<StagedLoad>,
    procedure_active: bool,
    step_action: Option<UplinkLoadType>,
) -> (r: Result<(), MissionSessionError>)
    ensures
        r == (match staged {
            None => Err::<(), MissionSessionError>(MissionSessionError::ActionUnavailable),
            Some(load) => if procedure_active && step_action == Some(load.load_type) {
                Ok(())
            } else {
                Err(MissionSessionError::ActionRejected)
            },
        }),
{
    match staged {
        None => Err(MissionSessionError::ActionUnavailable),
        Some(load) => {
            let matches = match step_action {
                Some(t) => t == load.load_type,
                None => false,
            };
            if procedure_active && matches {
                Ok(())
            } else {
                Err(MissionSessionError::ActionRejected)
            }
        },
    }
}

/// The kind of record the flight package answers an uplink action with.
#[derive(Clone, Copy, Debug, PartialEq, Eq, Structural)]
pub enum UplinkControlKind {
    StageReceipt,
    CommitReceipt,
    Cancellation,
    /// Any other record the package may answer with.
    OtherRecord,
}

/// The flight package's answer to an uplink action.
#[derive(Clone, Copy, Debug, PartialEq, Eq, Structural)]
pub struct UplinkReceipt {
    pub kind: UplinkControlKind,
    pub load_identity: u32,
    pub state: UplinkState,
    /// The package gave the reason code for an accepted action.
    pub reason_accepted: bool,
}

/// The package accepted the action: a stage receipt left the load staged,
/// a commit receipt committed it, or a cancellation cancelled it, each
/// with the accepted reason.
pub open spec fn receipt_accepted(r: UplinkReceipt) -> bool {
    &&& r.reason_accepted
    &&& {
        ||| r.kind == UplinkControlKind::StageReceipt && r.state == UplinkState::Staged
        ||| r.kind == UplinkControlKind::CommitReceipt && r.state == UplinkState::Committed
        ||| r.kind == UplinkControlKind::Cancellation && r.state == UplinkState::Cancelled
    }
}

/// The event a receipt is recorded as.
pub open spec fn receipt_event(r: UplinkReceipt) -> SessionEvent {
    if receipt_accepted(r) && r.state == UplinkState::Staged {
        SessionEvent::ActionStaged(r.load_identity)
    } else if receipt_accepted(r) && r.state == UplinkState::Committed {
        SessionEvent::ActionCommitted(r.load_identity)
    } else if receipt_accepted(r) && r.state == UplinkState::Cancelled {
        SessionEvent::ActionCancelled(r.load_identity)
    } else {
        SessionEvent::ActionRejected(r.load_identity)
    }
}

/// Whether the package accepted an action, and the event it is recorded
/// as.
pub fn classify_receipt(r: UplinkReceipt) -> (c: (bool, SessionEvent))
    ensures
        c == (receipt_accepted(r), receipt_event(r)),
{
    let accepted = r.reason_accepted && ((r.kind == UplinkControlKind::StageReceipt && r.state
        == UplinkState::Staged) || (r.kind == UplinkControlKind::CommitReceipt && r.state
        == UplinkState::Committed) || (r.kind == UplinkControlKind::Cancellation && r.state
        == UplinkState::Cancelled));
    let event = if accepted && r.state == UplinkState::Staged {
        SessionEvent::ActionStaged(r.load_identity)
    } else if accepted && r.state == UplinkState::Committed {
        SessionEvent::ActionCommitted(r.load_identity)
    } else if accepted && r.state == UplinkState::Cancelled {
        SessionEvent::ActionCancelled(r.load_identity)
    } else {
        SessionEvent::ActionRejected(r.load_identity)
    };
    (accepted, event)
}

/// What the session keeps of its operator's uplink actions: the load
/// staged, how many actions the package refused (held at the maximum), and
/// the contingency branch committed.
#[derive(Clone, Copy, Debug, PartialEq, Eq, Structural)]
pub struct UplinkLedger {
    pub staged: Option<StagedLoad>,
    pub rejected_loads: u16,
    pub selected_branch: u8,
}

pub open spec fn one_more_rejection(l: UplinkLedger) -> UplinkLedger {
    UplinkLedger {
        rejected_loads: if l.rejected_loads == u16::MAX {
            u16::MAX
        } else {
            (l.rejected_loads + 1) as u16
        },
        ..l
    }
}

/// A branch argument as a branch number: clamped into `0..=255`.
pub open spec fn branch_number(argument: i32) -> u8 {
    if argument < 0 {
        0
    } else if argument > 255 {
        255
    } else {
        argument as u8
    }
}

/// The ledger after the package answered staging `load` with `r`: a
/// receipt that staged exactly this load keeps it staged; anything else
/// counts a refusal.
pub open spec fn after_stage(l: UplinkLedger, load: StagedLoad, r: UplinkReceipt) -> UplinkLedger {
    if r.kind == UplinkControlKind::StageReceipt && r.load_identity == load.load_identity && r.state
        == UplinkState::Staged && r.reason_accepted {
        UplinkLedger { staged: Some(load), ..l }
    } else {
        one_more_rejection(l)
    }
}

/// The ledger after the package answered committing the staged `load`
/// with `r`: a receipt that committed it clears it (selecting its branch,
/// for a branch load); anything else counts a refusal.
pub open spec fn after_commit(l: UplinkLedger, load: StagedLoad, r: UplinkReceipt) -> UplinkLedger {
    if r.kind == UplinkControlKind::CommitReceipt && r.load_identity == load.load_identity
        && r.state == UplinkState::Committed && r.reason_accepted {
        UplinkLedger {
            staged: None,
            selected_branch: if load.load_type == UplinkLoadType::ContingencyBranch {
                branch_number(load.first_argument)
            } else {
                l.selected_branch
            },
            ..l
        }
    } else {
        one_more_rejection(l)
    }
}

/// The ledger after the package answered cancelling load `load_identity`
/// with `r`: a receipt that cancelled it clears the staged load; anything
/// else counts a refusal.
pub open spec fn after_cancel(l: UplinkLedger, load_identity: u32, r: UplinkReceipt) -> UplinkLedger {
    if r.kind == UplinkControlKind::Cancellation && r.load_identity == load_identity && r.state
        == UplinkState::Cancelled && r.reason_accepted {
        UplinkLedger { staged: None, ..l }
    } else {
        one_more_rejection(l)
    }
}

impl UplinkLedger {
    /// After release `epoch`, a staged load past its expiry epoch is
    /// dropped without being committed, and the operator timeline gets an
    /// event for it: at that epoch, severity 1, with the load's identity and
    /// the label "Staged command load expired without commit".
    pub fn expire_after_release(&mut self, epoch: u32) -> (r: Option<TimelineEventView>)
        ensures
            (match old(self).staged {
                Some(l) => epoch > l.expires_epoch,
                None => false,
            }) ==> (r matches Some(ev) && ev.epoch == epoch && ev.source == TimelineSource::Operator
                && ev.severity == 1 && ev.event_identity == old(self).staged->Some_0.load_identity
                && ev.label@ == "Staged command load expired without commit"@) && *final(self) == (UplinkLedger {
                staged: None,
                ..*old(self)
            }),
            !(match old(self).staged {
                Some(l) => epoch > l.expires_epoch,
                None => false,
            }) ==> r is None && *final(self) == *old(self),
    {
        match self.staged {
            Some(l) => {
                if epoch > l.expires_epoch {
                    self.staged = None;
                    Some(
                        TimelineEventView {
                            epoch,
                            source: TimelineSource::Operator,
                            severity: 1,
                            event_identity: l.load_identity,
                            label: "Staged command load expired without commit".to_owned(),
                        },
                    )
                } else {
                    None
                }
            },
            None => None,
        }
    }

    /// Records the answer to staging `load`: a receipt that staged exactly
    /// this load keeps it staged; anything else counts a refusal.
    pub fn stage_answered(&mut self, load: StagedLoad, r: UplinkReceipt)
        ensures
            *final(self) == after_stage(*old(self), load, r),
    {
        if r.kind == UplinkControlKind::StageReceipt && r.load_identity == load.load_identity
            && r.state == UplinkState::Staged && r.reason_accepted {
            self.staged = Some(load);
        } else {
            self.rejected_loads = self.rejected_loads.saturating_add(1);
        }
    }

    /// Records the answer to committing the staged load: a receipt that
    /// committed it clears it (selecting its branch, for a branch load);
    /// anything else counts a refusal. Without a staged load there is
    /// nothing to commit.
    pub fn commit_answered(&mut self, r: UplinkReceipt) -> (res: Result<(), MissionSessionError>)
        ensures
            match old(self).staged {
                None => res == Err::<(), MissionSessionError>(
                    MissionSessionError::ActionUnavailable,
                ) && *final(self) == *old(self),
                Some(load) => res is Ok && *final(self) == after_commit(*old(self), load, r),
            },
    {
        let load = match self.staged {
            Some(load) => load,
            None => {
                return Err(MissionSessionError::ActionUnavailable);
            },
        };
        if r.kind == UplinkControlKind::CommitReceipt && r.load_identity == load.load_identity
            && r.state == UplinkState::Committed && r.reason_accepted {
            if load.load_type == UplinkLoadType::ContingencyBranch {
                self.selected_branch = if load.first_argument < 0 {
                    0
                } else if load.first_argument > 255 {
                    255
                } else {
                    load.first_argument as u8
                };
            }
            self.staged = None;
        } else {
            self.rejected_loads = self.rejected_loads.saturating_add(1);
        }
        Ok(())
    }

    /// Records the answer to cancelling load `load_identity`: a receipt
    /// that cancelled it clears the staged load; anything else counts a
    /// refusal.
    pub fn cancel_answered(&mut self, load_identity: u32, r: UplinkReceipt)
        ensures
            *final(self) == after_cancel(*old(self), load_identity, r),
    {
        if r.kind == UplinkControlKind::Cancellation && r.load_identity == load_identity && r.state
            == UplinkState::Cancelled && r.reason_accepted {
            self.staged = None;
        } else {
            self.rejected_loads = self.rejected_loads.saturating_add(1);
        }
    }
}

/// The ledger counts a refusal exactly when the package's answer is not an
/// accepted receipt: for a receipt about the load acted on, of the kind the
/// action expects, the refusal count stays put if and only if the receipt
/// classifies as accepted, and the staged load changes only then.
pub proof fn law_ledger_follows_acceptance(l: UplinkLedger, load: StagedLoad, r: UplinkReceipt)
    requires
        r.load_identity == load.load_identity,
        l.rejected_loads < u16::MAX,
    ensures
        r.kind == UplinkControlKind::StageReceipt ==> (receipt_accepted(r) <==> after_stage(
            l,
            load,
            r,
        ).rejected_loads == l.rejected_loads),
        r.kind == UplinkControlKind::CommitReceipt ==> (receipt_accepted(r) <==> after_commit(
            l,
            load,
            r,
        ).rejected_loads == l.rejected_loads),
        r.kind == UplinkControlKind::Cancellation ==> (receipt_accepted(r) <==> after_cancel(
            l,
            load.load_identity,
            r,
        ).rejected_loads == l.rejected_loads),
        !receipt_accepted(r) ==> after_stage(l, load, r).staged == l.staged && after_commit(
            l,
            load,
            r,
        ).staged == l.staged && after_cancel(l, load.load_identity, r).staged == l.staged,
{
}

} // verus!
