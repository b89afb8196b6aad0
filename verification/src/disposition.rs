//! Operational disposition of a completed mission and the presentation
//! records an operations client may display.
//!
//! The overall verdict is read off six independent axes. Incomplete evidence
//! always yields an indeterminate verdict; otherwise a failure on the
//! objective, the vehicle or the avionics is a mission failure, any
//! contingency path that worked is a contingency success, any slip that did
//! not change the outcome is a degraded success, and only a fully nominal
//! run is a nominal success.
use vstd::prelude::*;

verus! {

pub const FULL_GNSS_LOSS_SCENARIO_ID: u32 = 0x12b0_0001;
pub const FULL_GNSS_LOSS_DEFINITION_ID: u32 = 0x12b0_1001;
pub const PRESENTATION_MODEL_ID: u32 = 0x12b0_2001;
pub const GNSS_LOSS_RELEASE: u32 = 5_760;
pub const GNSS_LOSS_TIME_Q16: u32 = 11_796_480;
pub const GNSS_QUALIFIED_RELEASE: u32 = 5_824;
pub const DECISION_WINDOW_OPEN_RELEASE: u32 = 5_920;
pub const DECISION_WINDOW_CLOSE_RELEASE: u32 = 7_840;

#[derive(Clone, Copy, Debug, PartialEq, Eq, Structural)]
pub enum MissionObjectiveDisposition {
    PrimaryAchieved,
    AlternateAchieved,
    ContingencyAchieved,
    NotAchieved,
    Indeterminate,
}

#[derive(Clone, Copy, Debug, PartialEq, Eq, Structural)]
pub enum VehicleDisposition {
    Nominal,
    Degraded,
    Recovered,
    SafeState,
    Lost,
    Unknown,
}

#[derive(Clone, Copy, Debug, PartialEq, Eq, Structural)]
pub enum ProcedureDisposition {
    Completed,
    AlternateBranch,
    Skipped,
    Mistimed,
    Overridden,
    Failed,
}

#[derive(Clone, Copy, Debug, PartialEq, Eq, Structural)]
pub enum OperatorDisposition {
    TimelyReference,
    TimelyAlternate,
    DelayedValid,
    NoAction,
    RejectedAction,
}

#[derive(Clone, Copy, Debug, PartialEq, Eq, Structural)]
pub enum AvionicsDisposition {
    Nominal,
    DegradedOperational,
    SafeRecovery,
    Failed,
}

#[derive(Clone, Copy, Debug, PartialEq, Eq, Structural)]
pub enum EvidenceDisposition {
    Complete,
    ObservationIncomplete,
    Aborted,
    Invalid,
    Unavailable,
}

#[derive(Clone, Copy, Debug, PartialEq, Eq, Structural)]
pub enum OverallMissionDisposition {
    NominalSuccess,
    DegradedSuccess,
    ContingencySuccess,
    MissionFailure,
    Indeterminate,
}

#[derive(Clone, Copy, Debug, PartialEq, Eq, Structural)]
pub struct OperationalDispositionEvidence {
    pub objective: MissionObjectiveDisposition,
    pub vehicle: VehicleDisposition,
    pub procedure: ProcedureDisposition,
    pub operator: OperatorDisposition,
    pub avionics: AvionicsDisposition,
    pub evidence: EvidenceDisposition,
}

#[derive(Clone, Copy, Debug, PartialEq, Eq, Structural)]
pub struct OperationalDispositionView {
    pub overall: OverallMissionDisposition,
    pub axes: OperationalDispositionEvidence,
}

/// Some axis shows the mission was lost: the objective was missed or cannot be
/// judged, the vehicle is lost or unknown, or the avionics failed.
pub open spec fn has_failure_axis(a: OperationalDispositionEvidence) -> bool {
    ||| a.objective is NotAchieved
    ||| a.objective is Indeterminate
    ||| a.vehicle is Lost
    ||| a.vehicle is Unknown
    ||| a.avionics is Failed
}

/// Some axis shows a contingency path was taken and worked.
pub open spec fn has_contingency_axis(a: OperationalDispositionEvidence) -> bool {
    ||| a.objective is AlternateAchieved
    ||| a.objective is ContingencyAchieved
    ||| a.vehicle is Recovered
    ||| a.vehicle is SafeState
    ||| a.procedure is AlternateBranch
    ||| a.operator is TimelyAlternate
    ||| a.avionics is SafeRecovery
}

/// Some axis shows a slip that did not change the outcome.
pub open spec fn has_degraded_axis(a: OperationalDispositionEvidence) -> bool {
    ||| a.vehicle is Degraded
    ||| a.procedure is Skipped
    ||| a.procedure is Mistimed
    ||| a.procedure is Overridden
    ||| a.procedure is Failed
    ||| a.operator is DelayedValid
    ||| a.operator is NoAction
    ||| a.operator is RejectedAction
    ||| a.avionics is DegradedOperational
}

/// The overall verdict for a set of axes.
pub open spec fn overall_for(a: OperationalDispositionEvidence) -> OverallMissionDisposition {
    if !(a.evidence is Complete) {
        OverallMissionDisposition::Indeterminate
    } else if has_failure_axis(a) {
        OverallMissionDisposition::MissionFailure
    } else if has_contingency_axis(a) {
        OverallMissionDisposition::ContingencySuccess
    } else if has_degraded_axis(a) {
        OverallMissionDisposition::DegradedSuccess
    } else {
        OverallMissionDisposition::NominalSuccess
    }
}

/// Every axis at its reference value.
pub open spec fn all_axes_nominal(a: OperationalDispositionEvidence) -> bool {
    &&& a.objective is PrimaryAchieved
    &&& a.vehicle is Nominal
    &&& a.procedure is Completed
    &&& a.operator is TimelyReference
    &&& a.avionics is Nominal
    &&& a.evidence is Complete
}

/// Classifies a completed mission from its six disposition axes.
pub fn classify_disposition(axes: OperationalDispositionEvidence) -> (r:
    OperationalDispositionView)
    ensures
        r.axes == axes,
        r.overall == overall_for(axes),
{
    let overall = if axes.evidence != EvidenceDisposition::Complete {
        OverallMissionDisposition::Indeterminate
    } else if matches!(
        axes.objective,
        MissionObjectiveDisposition::NotAchieved | MissionObjectiveDisposition::Indeterminate
    ) || matches!(axes.vehicle, VehicleDisposition::Lost | VehicleDisposition::Unknown)
        || axes.avionics == AvionicsDisposition::Failed {
        OverallMissionDisposition::MissionFailure
    } else if matches!(
        axes.objective,
        MissionObjectiveDisposition::AlternateAchieved
            | MissionObjectiveDisposition::ContingencyAchieved
    ) || matches!(axes.vehicle, VehicleDisposition::Recovered | VehicleDisposition::SafeState)
        || axes.procedure == ProcedureDisposition::AlternateBranch || axes.operator
        == OperatorDisposition::TimelyAlternate || axes.avionics
        == AvionicsDisposition::SafeRecovery {
        OverallMissionDisposition::ContingencySuccess
    } else if axes.vehicle == VehicleDisposition::Degraded || matches!(
        axes.procedure,
        ProcedureDisposition::Skipped | ProcedureDisposition::Mistimed
            | ProcedureDisposition::Overridden | ProcedureDisposition::Failed
    ) || matches!(
        axes.operator,
        OperatorDisposition::DelayedValid | OperatorDisposition::NoAction
            | OperatorDisposition::RejectedAction
    ) || axes.avionics == AvionicsDisposition::DegradedOperational {
        OverallMissionDisposition::DegradedSuccess
    } else {
        OverallMissionDisposition::NominalSuccess
    };
    OperationalDispositionView { overall, axes }
}

/// Incomplete, aborted, invalid or unavailable evidence never decides the
/// outcome: the mission is indeterminate whatever the other axes say.
pub proof fn law_incomplete_evidence_is_indeterminate(a: OperationalDispositionEvidence)
    requires
        !(a.evidence is Complete),
    ensures
        overall_for(a) == OverallMissionDisposition::Indeterminate,
{
}

/// A nominal success is exactly the run whose every axis is nominal.
pub proof fn law_nominal_success_iff_all_nominal(a: OperationalDispositionEvidence)
    ensures
        (overall_for(a) == OverallMissionDisposition::NominalSuccess) <==> all_axes_nominal(a),
{
}

/// With complete evidence, a mission fails exactly when the objective is
/// missed or undetermined, the vehicle is lost or unknown, or the avionics
/// failed.
pub proof fn law_failure_iff_failure_axis(a: OperationalDispositionEvidence)
    requires
        a.evidence is Complete,
    ensures
        (overall_for(a) == OverallMissionDisposition::MissionFailure) <==> has_failure_axis(a),
{
}

/// A contingency that worked is never called a failure: with complete
/// evidence and no failing axis, any contingency axis makes it a contingency
/// success, whatever slips accompany it.
pub proof fn law_effective_contingency_is_success(a: OperationalDispositionEvidence)
    requires
        a.evidence is Complete,
        !has_failure_axis(a),
        has_contingency_axis(a),
    ensures
        overall_for(a) == OverallMissionDisposition::ContingencySuccess,
{
}

/// Taking no action or having an action rejected, on its own, leaves a
/// mission that otherwise went to plan a degraded success rather than a
/// failure.
pub proof fn law_missing_action_degrades_only(a: OperationalDispositionEvidence)
    requires
        a.evidence is Complete,
        !has_failure_axis(a),
        !has_contingency_axis(a),
        a.operator is NoAction || a.operator is RejectedAction,
    ensures
        overall_for(a) == OverallMissionDisposition::DegradedSuccess,
{
}

/// The state in which a mission procedure ended.
#[derive(Clone, Copy, Debug, PartialEq, Eq, Structural)]
pub enum ProcedureState {
    Active,
    Completed,
    Failed,
    Mistimed,
    Skipped,
    ManuallyOverridden,
}

pub open spec fn procedure_disposition_for(state: ProcedureState) -> ProcedureDisposition {
    match state {
        ProcedureState::Active | ProcedureState::Skipped => ProcedureDisposition::Skipped,
        ProcedureState::Completed => ProcedureDisposition::Completed,
        ProcedureState::Failed => ProcedureDisposition::Failed,
        ProcedureState::Mistimed => ProcedureDisposition::Mistimed,
        ProcedureState::ManuallyOverridden => ProcedureDisposition::Overridden,
    }
}

/// The procedure axis for the state the procedure ended in; a procedure still
/// active at the end counts as skipped.
pub fn procedure_disposition(state: ProcedureState) -> (r: ProcedureDisposition)
    ensures
        r == procedure_disposition_for(state),
{
    match state {
        ProcedureState::Active | ProcedureState::Skipped => ProcedureDisposition::Skipped,
        ProcedureState::Completed => ProcedureDisposition::Completed,
        ProcedureState::Failed => ProcedureDisposition::Failed,
        ProcedureState::Mistimed => ProcedureDisposition::Mistimed,
        ProcedureState::ManuallyOverridden => ProcedureDisposition::Overridden,
    }
}

/// The final state of one operator command load and the release at which it
/// reached that state.
#[derive(Clone, Copy, Debug, PartialEq, Eq, Structural)]
pub struct ActionOutcome {
    pub epoch: u32,
    pub committed: bool,
}

pub open spec fn some_committed(actions: Seq<ActionOutcome>) -> bool {
    exists|i: int| 0 <= i < actions.len() && #[trigger] actions[i].committed
}

pub open spec fn some_late_commit(actions: Seq<ActionOutcome>) -> bool {
    exists|i: int|
        0 <= i < actions.len() && #[trigger] actions[i].committed && actions[i].epoch
            > DECISION_WINDOW_CLOSE_RELEASE
}

pub open spec fn operator_disposition_for(
    actions: Seq<ActionOutcome>,
    rejected_loads: u16,
    state: ProcedureState,
    selected_branch: u8,
) -> OperatorDisposition {
    if !some_committed(actions) {
        if rejected_loads != 0 {
            OperatorDisposition::RejectedAction
        } else {
            OperatorDisposition::NoAction
        }
    } else if some_late_commit(actions) || !(state is Completed) {
        OperatorDisposition::DelayedValid
    } else if selected_branch == 2 {
        OperatorDisposition::TimelyAlternate
    } else {
        OperatorDisposition::TimelyReference
    }
}

/// The operator axis: no commit at all is no action (or a rejected action when
/// loads were refused); a commit after the decision window closed, or a
/// procedure that did not complete, is a delayed but valid response; otherwise
/// selecting branch 2 is the timely alternate and anything else the timely
/// reference response.
pub fn operator_disposition(
    actions: &[ActionOutcome],
    rejected_loads: u16,
    state: ProcedureState,
    selected_branch: u8,
) -> (r: OperatorDisposition)
    ensures
        r == operator_disposition_for(actions@, rejected_loads, state, selected_branch),
{
    let mut committed = false;
    let mut late = false;
    let mut i: usize = 0;
    while i < actions.len()
        invariant
            i <= actions@.len(),
            committed <==> exists|j: int| 0 <= j < i && #[trigger] actions@[j].committed,
            late <==> exists|j: int|
                0 <= j < i && #[trigger] actions@[j].committed && actions@[j].epoch
                    > DECISION_WINDOW_CLOSE_RELEASE,
        decreases actions@.len() - i,
    {
        let a = actions[i];
        if a.committed {
            committed = true;
            if a.epoch > DECISION_WINDOW_CLOSE_RELEASE {
                late = true;
            }
        }
        i += 1;
    }
    if !committed {
        if rejected_loads != 0 {
            OperatorDisposition::RejectedAction
        } else {
            OperatorDisposition::NoAction
        }
    } else if late || state != ProcedureState::Completed {
        OperatorDisposition::DelayedValid
    } else if selected_branch == 2 {
        OperatorDisposition::TimelyAlternate
    } else {
        OperatorDisposition::TimelyReference
    }
}

/// A committed command load with a procedure that did not end completed is
/// always a delayed but valid response, whatever else happened.
pub proof fn law_commit_without_completion_is_delayed(
    actions: Seq<ActionOutcome>,
    rejected_loads: u16,
    state: ProcedureState,
    selected_branch: u8,
    i: int,
)
    requires
        0 <= i < actions.len(),
        actions[i].committed,
        state != ProcedureState::Completed,
    ensures
        operator_disposition_for(actions, rejected_loads, state, selected_branch)
            == OperatorDisposition::DelayedValid,
{
    assert(some_committed(actions));
}

/// A load committed after the decision window closed is always a delayed
/// but valid response.
pub proof fn law_late_commit_is_delayed(
    actions: Seq<ActionOutcome>,
    rejected_loads: u16,
    state: ProcedureState,
    selected_branch: u8,
    i: int,
)
    requires
        0 <= i < actions.len(),
        actions[i].committed,
        actions[i].epoch > 7_840,
    ensures
        operator_disposition_for(actions, rejected_loads, state, selected_branch)
            == OperatorDisposition::DelayedValid,
{
    assert(some_committed(actions));
    assert(some_late_commit(actions));
}

/// Without any committed load the operator took no action, or a rejected
/// one exactly when some load was refused.
pub proof fn law_no_commit_is_no_or_rejected_action(
    actions: Seq<ActionOutcome>,
    rejected_loads: u16,
    state: ProcedureState,
    selected_branch: u8,
)
    requires
        forall|i: int| 0 <= i < actions.len() ==> !(#[trigger] actions[i]).committed,
    ensures
        operator_disposition_for(actions, rejected_loads, state, selected_branch) == if rejected_loads
            == 0 {
            OperatorDisposition::NoAction
        } else {
            OperatorDisposition::RejectedAction
        },
{
}

/// Commits all within the decision window, with the procedure completed, are
/// a timely response: the alternate exactly when branch 2 was selected.
pub proof fn law_timely_completed_commit(
    actions: Seq<ActionOutcome>,
    rejected_loads: u16,
    selected_branch: u8,
    i: int,
)
    requires
        0 <= i < actions.len(),
        actions[i].committed,
        forall|j: int| 0 <= j < actions.len() && (#[trigger] actions[j]).committed ==> actions[j].epoch
            <= 7_840,
    ensures
        operator_disposition_for(actions, rejected_loads, ProcedureState::Completed, selected_branch)
            == if selected_branch == 2 {
            OperatorDisposition::TimelyAlternate
        } else {
            OperatorDisposition::TimelyReference
        },
{
    assert(some_committed(actions));
}

/// A response is judged timely only when something was committed, nothing
/// late, and the procedure completed.
pub proof fn law_timely_needs_completed_procedure(
    actions: Seq<ActionOutcome>,
    rejected_loads: u16,
    state: ProcedureState,
    selected_branch: u8,
)
    ensures
        ({
            let d = operator_disposition_for(actions, rejected_loads, state, selected_branch);
            (d == OperatorDisposition::TimelyReference || d == OperatorDisposition::TimelyAlternate)
                ==> state == ProcedureState::Completed && (exists|i: int|
                0 <= i < actions.len() && #[trigger] actions[i].committed) && (forall|j: int|
                0 <= j < actions.len() && (#[trigger] actions[j]).committed ==> actions[j].epoch
                    <= 7_840)
        }),
{
}

/// The axes a completed GNSS-loss mission is judged on, from what the run
/// produced: whether the vehicle was recovered on the ground, the branch the
/// operator selected (2 is the alternate), the procedure's final state, the
/// operator axis, and whether the flight software ended in its safe mode.
pub open spec fn completion_axes_for(
    recovered: bool,
    selected_branch: u8,
    procedure_state: ProcedureState,
    operator: OperatorDisposition,
    flight_safe: bool,
) -> OperationalDispositionEvidence {
    let alternate = selected_branch == 2;
    OperationalDispositionEvidence {
        objective: if !recovered {
            MissionObjectiveDisposition::NotAchieved
        } else if alternate {
            MissionObjectiveDisposition::ContingencyAchieved
        } else {
            MissionObjectiveDisposition::PrimaryAchieved
        },
        vehicle: if !recovered {
            VehicleDisposition::Lost
        } else if alternate {
            VehicleDisposition::Recovered
        } else {
            VehicleDisposition::Nominal
        },
        procedure: if alternate {
            ProcedureDisposition::AlternateBranch
        } else {
            procedure_disposition_for(procedure_state)
        },
        operator,
        avionics: if flight_safe {
            AvionicsDisposition::Failed
        } else if alternate {
            AvionicsDisposition::SafeRecovery
        } else {
            AvionicsDisposition::DegradedOperational
        },
        evidence: EvidenceDisposition::Complete,
    }
}

/// Seals the disposition of a completed full-duration GNSS-loss mission.
pub fn completion_disposition(
    recovered: bool,
    selected_branch: u8,
    procedure_state: ProcedureState,
    operator: OperatorDisposition,
    flight_safe: bool,
) -> (r: OperationalDispositionView)
    ensures
        r.axes == completion_axes_for(
            recovered,
            selected_branch,
            procedure_state,
            operator,
            flight_safe,
        ),
        r.overall == overall_for(r.axes),
{
    let alternate = selected_branch == 2;
    let axes = OperationalDispositionEvidence {
        objective: if !recovered {
            MissionObjectiveDisposition::NotAchieved
        } else if alternate {
            MissionObjectiveDisposition::ContingencyAchieved
        } else {
            MissionObjectiveDisposition::PrimaryAchieved
        },
        vehicle: if !recovered {
            VehicleDisposition::Lost
        } else if alternate {
            VehicleDisposition::Recovered
        } else {
            VehicleDisposition::Nominal
        },
        procedure: if alternate {
            ProcedureDisposition::AlternateBranch
        } else {
            procedure_disposition(procedure_state)
        },
        operator,
        avionics: if flight_safe {
            AvionicsDisposition::Failed
        } else if alternate {
            AvionicsDisposition::SafeRecovery
        } else {
            AvionicsDisposition::DegradedOperational
        },
        evidence: EvidenceDisposition::Complete,
    };
    classify_disposition(axes)
}

/// A recovered vehicle whose flight software stayed out of safe mode is never
/// a mission failure, whatever the operator and the procedure did; an
/// unrecovered vehicle always is.
pub proof fn law_completion_failure_iff_lost_or_safe(
    recovered: bool,
    selected_branch: u8,
    procedure_state: ProcedureState,
    operator: OperatorDisposition,
    flight_safe: bool,
)
    ensures
        (overall_for(
            completion_axes_for(recovered, selected_branch, procedure_state, operator, flight_safe),
        ) == OverallMissionDisposition::MissionFailure) <==> (!recovered || flight_safe),
{
}

#[derive(Clone, Copy, Debug, PartialEq, Eq, Structural)]
pub struct ProcedurePredicateView {
    pub predicate_id: u16,
    pub satisfied: bool,
    pub valid: bool,
}

#[derive(Clone, Debug, PartialEq, Eq)]
pub struct ProcedureView {
    pub procedure_identity: u32,
    pub active_step: u16,
    pub step_count: u16,
    pub entered_epoch: u32,
    pub deadline_epoch: u32,
    pub title: String,
    pub instruction: String,
    pub predicates: Vec<ProcedurePredicateView>,
}

#[derive(Clone, Copy, Debug, PartialEq, Eq, Structural)]
pub enum TimelineSource {
    World,
    Avionics,
    Ground,
    Procedure,
    Operator,
    Evidence,
}

#[derive(Clone, Debug, PartialEq, Eq)]
pub struct TimelineEventView {
    pub epoch: u32,
    pub source: TimelineSource,
    pub severity: u8,
    pub event_identity: u32,
    pub label: String,
}

#[derive(Clone, Copy, Debug, PartialEq, Eq, Structural)]
pub struct ReleaseSampleView {
    pub epoch: u32,
    /// Public active-frame identity carried with the operational estimate.
    pub frame: u8,
    pub mission_time_q16: u32,
    pub altitude_q12_km: i32,
    pub speed_q24_km_s: i32,
    pub downrange_q12_km: i32,
    pub crossrange_q12_km: i32,
    pub onboard_altitude_q12_km: i32,
    pub ground_altitude_q12_km: i32,
    pub flags: u32,
}

impl Default for ReleaseSampleView {
    fn default() -> (r: Self)
        ensures
            r == (ReleaseSampleView {
                epoch: 0,
                frame: 0,
                mission_time_q16: 0,
                altitude_q12_km: 0,
                speed_q24_km_s: 0,
                downrange_q12_km: 0,
                crossrange_q12_km: 0,
                onboard_altitude_q12_km: 0,
                ground_altitude_q12_km: 0,
                flags: 0,
            }),
    {
        ReleaseSampleView {
            epoch: 0,
            frame: 0,
            mission_time_q16: 0,
            altitude_q12_km: 0,
            speed_q24_km_s: 0,
            downrange_q12_km: 0,
            crossrange_q12_km: 0,
            onboard_altitude_q12_km: 0,
            ground_altitude_q12_km: 0,
            flags: 0,
        }
    }
}

/// Largest absolute component difference between two vectors, capped at
/// `i32::MAX`.
pub open spec fn maximum_difference_of(left: [i32; 3], right: [i32; 3]) -> i32 {
    let d0 = abs_diff(left[0], right[0]);
    let d1 = abs_diff(left[1], right[1]);
    let d2 = abs_diff(left[2], right[2]);
    let m = if d0 >= d1 && d0 >= d2 {
        d0
    } else if d1 >= d2 {
        d1
    } else {
        d2
    };
    if m > i32::MAX {
        i32::MAX
    } else {
        m as i32
    }
}

pub open spec fn abs_diff(a: i32, b: i32) -> int {
    if a >= b {
        a - b
    } else {
        b - a
    }
}

/// Largest absolute component difference between two position vectors,
/// saturated to `i32::MAX`.
pub fn maximum_difference(left: [i32; 3], right: [i32; 3]) -> (r: i32)
    ensures
        r == maximum_difference_of(left, right),
{
    let mut best: u64 = 0;
    let mut i: usize = 0;
    while i < 3
        invariant
            i <= 3,
            best as int == (if i == 0 {
                0
            } else if i == 1 {
                abs_diff(left[0], right[0])
            } else if i == 2 {
                if abs_diff(left[0], right[0]) >= abs_diff(left[1], right[1]) {
                    abs_diff(left[0], right[0])
                } else {
                    abs_diff(left[1], right[1])
                }
            } else {
                let d0 = abs_diff(left[0], right[0]);
                let d1 = abs_diff(left[1], right[1]);
                let d2 = abs_diff(left[2], right[2]);
                if d0 >= d1 && d0 >= d2 {
                    d0
                } else if d1 >= d2 {
                    d1
                } else {
                    d2
                }
            }),
        decreases 3 - i,
    {
        let a = left[i] as i64;
        let b = right[i] as i64;
        let d: u64 = if a >= b {
            (a - b) as u64
        } else {
            (b - a) as u64
        };
        if d > best {
            best = d;
        }
        i += 1;
    }
    if best > i32::MAX as u64 {
        i32::MAX
    } else {
        best as i32
    }
}

/// The title and instruction shown for a step of the GNSS-loss procedure.
pub open spec fn procedure_copy_for(step: u16) -> (Seq<char>, Seq<char>) {
    if step == 1 {
        (
            "Confirm GNSS loss"@,
            "Verify three consecutive one-hertz GNSS fixes are missing."@,
        )
    } else if step == 2 {
        (
            "Verify inertial propagation"@,
            "Confirm inertial navigation remains healthy and is propagating."@,
        )
    } else if step == 3 {
        (
            "Compare ground solution"@,
            "Confirm onboard-to-ground position residual is within the approved correction limit."@,
        )
    } else if step == 4 {
        (
            "Load ground state update"@,
            "Review the ground navigation update, then stage and separately commit it."@,
        )
    } else if step == 5 {
        (
            "Select continuation branch"@,
            "Review the contingency branch, then stage and separately commit it."@,
        )
    } else if step == 6 {
        (
            "Procedure complete"@,
            "Continue monitoring navigation residuals and recovery readiness."@,
        )
    } else if step == 7 {
        (
            "Procedure window missed"@,
            "The response was not completed in the preferred window; continue mission assessment."@,
        )
    } else {
        ("Stand by"@, "No active GNSS-loss procedure step."@)
    }
}

/// Operator-facing copy for a GNSS-loss procedure step; unknown steps read as
/// standing by.
pub fn procedure_copy(step: u16) -> (r: (&'static str, &'static str))
    ensures
        (r.0@, r.1@) == procedure_copy_for(step),
{
    match step {
        1 => ("Confirm GNSS loss", "Verify three consecutive one-hertz GNSS fixes are missing."),
        2 => (
            "Verify inertial propagation",
            "Confirm inertial navigation remains healthy and is propagating.",
        ),
        3 => (
            "Compare ground solution",
            "Confirm onboard-to-ground position residual is within the approved correction limit.",
        ),
        4 => (
            "Load ground state update",
            "Review the ground navigation update, then stage and separately commit it.",
        ),
        5 => (
            "Select continuation branch",
            "Review the contingency branch, then stage and separately commit it.",
        ),
        6 => (
            "Procedure complete",
            "Continue monitoring navigation residuals and recovery readiness.",
        ),
        7 => (
            "Procedure window missed",
            "The response was not completed in the preferred window; continue mission assessment.",
        ),
        _ => ("Stand by", "No active GNSS-loss procedure step."),
    }
}

/// The state an uplink command load is in.
#[derive(Clone, Copy, Debug, PartialEq, Eq, Structural)]
pub enum UplinkState {
    Empty,
    Staged,
    Committed,
    Cancelled,
    Executed,
    Rejected,
    Expired,
}

/// The timeline label of a command load in state `state`.
pub fn action_label(state: UplinkState) -> (r: &'static str)
    ensures
        r@ == (match state {
            UplinkState::Staged => "Command load staged"@,
            UplinkState::Committed => "Command load committed"@,
            UplinkState::Cancelled => "Command load cancelled"@,
            UplinkState::Executed => "Command load executed"@,
            UplinkState::Rejected => "Command load rejected"@,
            UplinkState::Expired => "Command load expired"@,
            UplinkState::Empty => "No command load"@,
        }),
{
    match state {
        UplinkState::Staged => "Command load staged",
        UplinkState::Committed => "Command load committed",
        UplinkState::Cancelled => "Command load cancelled",
        UplinkState::Executed => "Command load executed",
        UplinkState::Rejected => "Command load rejected",
        UplinkState::Expired => "Command load expired",
        UplinkState::Empty => "No command load",
    }
}

} // verus!
