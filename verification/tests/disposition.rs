use ksa64_host::disposition::{
    classify_disposition, completion_disposition, maximum_difference, operator_disposition,
    procedure_copy, procedure_disposition, ActionOutcome, AvionicsDisposition,
    EvidenceDisposition, MissionObjectiveDisposition, OperationalDispositionEvidence,
    OperatorDisposition, OverallMissionDisposition, ProcedureDisposition, ProcedureState,
    VehicleDisposition, DECISION_WINDOW_CLOSE_RELEASE,
};

fn successful_axes() -> OperationalDispositionEvidence {
    OperationalDispositionEvidence {
        objective: MissionObjectiveDisposition::PrimaryAchieved,
        vehicle: VehicleDisposition::Nominal,
        procedure: ProcedureDisposition::Completed,
        operator: OperatorDisposition::TimelyReference,
        avionics: AvionicsDisposition::Nominal,
        evidence: EvidenceDisposition::Complete,
    }
}

#[test]
fn no_action_can_still_be_a_degraded_success() {
    let mut axes = successful_axes();
    axes.procedure = ProcedureDisposition::Skipped;
    axes.operator = OperatorDisposition::NoAction;
    axes.avionics = AvionicsDisposition::DegradedOperational;
    assert_eq!(
        classify_disposition(axes).overall,
        OverallMissionDisposition::DegradedSuccess
    );
}

#[test]
fn effective_contingency_is_not_called_failure() {
    let mut axes = successful_axes();
    axes.objective = MissionObjectiveDisposition::ContingencyAchieved;
    axes.vehicle = VehicleDisposition::Recovered;
    axes.procedure = ProcedureDisposition::AlternateBranch;
    axes.operator = OperatorDisposition::DelayedValid;
    axes.avionics = AvionicsDisposition::DegradedOperational;
    assert_eq!(
        classify_disposition(axes).overall,
        OverallMissionDisposition::ContingencySuccess
    );
}

#[test]
fn incomplete_evidence_is_indeterminate() {
    let mut axes = successful_axes();
    axes.evidence = EvidenceDisposition::ObservationIncomplete;
    assert_eq!(
        classify_disposition(axes).overall,
        OverallMissionDisposition::Indeterminate
    );
}

#[test]
fn all_nominal_axes_are_a_nominal_success() {
    let view = classify_disposition(successful_axes());
    assert_eq!(view.overall, OverallMissionDisposition::NominalSuccess);
    assert_eq!(view.axes, successful_axes());
}

#[test]
fn a_lost_vehicle_is_a_mission_failure() {
    let mut axes = successful_axes();
    axes.vehicle = VehicleDisposition::Lost;
    assert_eq!(
        classify_disposition(axes).overall,
        OverallMissionDisposition::MissionFailure
    );
    let mut axes = successful_axes();
    axes.avionics = AvionicsDisposition::Failed;
    assert_eq!(
        classify_disposition(axes).overall,
        OverallMissionDisposition::MissionFailure
    );
}

#[test]
fn incomplete_evidence_outranks_a_failure_axis() {
    let mut axes = successful_axes();
    axes.vehicle = VehicleDisposition::Lost;
    axes.evidence = EvidenceDisposition::Invalid;
    assert_eq!(
        classify_disposition(axes).overall,
        OverallMissionDisposition::Indeterminate
    );
}

#[test]
fn procedure_states_map_to_their_dispositions() {
    assert_eq!(
        procedure_disposition(ProcedureState::Active),
        ProcedureDisposition::Skipped
    );
    assert_eq!(
        procedure_disposition(ProcedureState::Completed),
        ProcedureDisposition::Completed
    );
    assert_eq!(
        procedure_disposition(ProcedureState::ManuallyOverridden),
        ProcedureDisposition::Overridden
    );
    assert_eq!(
        procedure_disposition(ProcedureState::Mistimed),
        ProcedureDisposition::Mistimed
    );
}

#[test]
fn operator_response_is_judged_by_its_commits() {
    let none: Vec<ActionOutcome> = vec![];
    assert_eq!(
        operator_disposition(&none, 0, ProcedureState::Completed, 1),
        OperatorDisposition::NoAction
    );
    assert_eq!(
        operator_disposition(&none, 2, ProcedureState::Completed, 1),
        OperatorDisposition::RejectedAction
    );
    let timely = vec![ActionOutcome {
        epoch: DECISION_WINDOW_CLOSE_RELEASE,
        committed: true,
    }];
    assert_eq!(
        operator_disposition(&timely, 0, ProcedureState::Completed, 1),
        OperatorDisposition::TimelyReference
    );
    assert_eq!(
        operator_disposition(&timely, 0, ProcedureState::Completed, 2),
        OperatorDisposition::TimelyAlternate
    );
    let late = vec![ActionOutcome {
        epoch: DECISION_WINDOW_CLOSE_RELEASE + 1,
        committed: true,
    }];
    assert_eq!(
        operator_disposition(&late, 0, ProcedureState::Completed, 1),
        OperatorDisposition::DelayedValid
    );
}

#[test]
fn a_recovered_alternate_branch_completes_as_contingency() {
    let view = completion_disposition(
        true,
        2,
        ProcedureState::Completed,
        OperatorDisposition::TimelyAlternate,
        false,
    );
    assert_eq!(view.axes.vehicle, VehicleDisposition::Recovered);
    assert_eq!(view.axes.procedure, ProcedureDisposition::AlternateBranch);
    assert_eq!(view.overall, OverallMissionDisposition::ContingencySuccess);
    let lost = completion_disposition(
        false,
        1,
        ProcedureState::Completed,
        OperatorDisposition::TimelyReference,
        false,
    );
    assert_eq!(lost.overall, OverallMissionDisposition::MissionFailure);
}

#[test]
fn maximum_difference_takes_the_largest_component_gap() {
    assert_eq!(maximum_difference([1, 2, 3], [4, -2, 3]), 4);
    assert_eq!(maximum_difference([0, 0, 0], [0, 0, 0]), 0);
    assert_eq!(maximum_difference([i32::MIN, 0, 0], [i32::MAX, 0, 0]), i32::MAX);
}

#[test]
fn procedure_copy_names_each_step() {
    assert_eq!(procedure_copy(1).0, "Confirm GNSS loss");
    assert_eq!(procedure_copy(6).0, "Procedure complete");
    assert_eq!(
        procedure_copy(99),
        ("Stand by", "No active GNSS-loss procedure step.")
    );
}

use ksa64_host::disposition::{action_label, UplinkState};
use ksa64_host::fnv::{hash_load, hash_words};

fn fnv1a(bytes: &[u8]) -> u32 {
    bytes.iter().fold(0x811c_9dc5u32, |h, b| (h ^ *b as u32).wrapping_mul(0x0100_0193))
}

#[test]
fn load_digests_hash_the_load_words_in_order() {
    let words = [7u32, 120, 128, 2, 0xdead_beef];
    let bytes: Vec<u8> = words.iter().flat_map(|w| w.to_le_bytes()).collect();
    let digest = hash_load(7, 120, 128, 2, 0xdead_beef);
    assert_eq!(digest, fnv1a(&bytes).max(1));
    assert_eq!(digest, hash_words(&words));
    assert_ne!(digest, hash_load(7, 120, 129, 2, 0xdead_beef));
}

#[test]
fn command_load_labels_name_each_state() {
    assert_eq!(action_label(UplinkState::Staged), "Command load staged");
    assert_eq!(action_label(UplinkState::Committed), "Command load committed");
    assert_eq!(action_label(UplinkState::Cancelled), "Command load cancelled");
    assert_eq!(action_label(UplinkState::Executed), "Command load executed");
    assert_eq!(action_label(UplinkState::Rejected), "Command load rejected");
    assert_eq!(action_label(UplinkState::Expired), "Command load expired");
    assert_eq!(action_label(UplinkState::Empty), "No command load");
}
