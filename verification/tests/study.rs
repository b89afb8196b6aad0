use ksa64_host::study::{
    aggregate_value, assess_candidate, collapse_duplicates, fatal_class, quantize_clamp, scale,
    AggregateId, CaseEvidence, ConstraintCheck, ConstraintOp, DesignVector,
    Phase9EvaluationError, RunOutcome, StudyId, VariableRange, COUPLED_STUDY_ID, STUDY_A_ID,
};

fn case(outcome: RunOutcome, metric: i32) -> CaseEvidence {
    let mut metrics = [0; 13];
    metrics[2] = metric;
    CaseEvidence {
        outcome,
        metrics,
        valid: 0x1fff,
        checksum: metric as u32,
    }
}

fn design(values: &[i32]) -> DesignVector {
    let mut all = [0; 32];
    all[..values.len()].copy_from_slice(values);
    DesignVector {
        identity: 0,
        manifest_identity: 9,
        value_count: values.len() as u8,
        values: all,
        materialized_ids: [1, 2, 3, 4],
    }
}

#[test]
fn studies_have_their_identities() {
    assert_eq!(StudyId::PassiveRecovery.raw(), STUDY_A_ID);
    assert_eq!(StudyId::Coupled.raw(), COUPLED_STUDY_ID);
    assert!(StudyId::GimbalControl.gimbal());
    assert!(StudyId::Coupled.gimbal());
    assert!(!StudyId::ExperimentalAirframe.gimbal());
}

#[test]
fn scaling_rounds_toward_zero_and_clamps() {
    assert_eq!(scale(1_000, 1_500_000), 1_500);
    assert_eq!(scale(-3, 500_000), -1);
    assert_eq!(scale(3, 500_000), 1);
    assert_eq!(scale(i32::MAX, 2_000_000), i32::MAX);
    assert_eq!(scale(i32::MIN, 2_000_000), i32::MIN);
}

#[test]
fn quantization_snaps_to_the_nearest_step() {
    let spec = VariableRange {
        minimum: 850_000,
        maximum: 1_150_000,
        quantum: 10_000,
    };
    assert_eq!(quantize_clamp(1_004_999, spec), 1_000_000);
    assert_eq!(quantize_clamp(1_005_000, spec), 1_010_000);
    assert_eq!(quantize_clamp(2_000_000, spec), 1_150_000);
    assert_eq!(quantize_clamp(-5, spec), 850_000);
    let odd = VariableRange {
        minimum: 0,
        maximum: 10,
        quantum: 4,
    };
    assert_eq!(quantize_clamp(10, odd), 10);
}

#[test]
fn aggregates_combine_case_metrics() {
    let cases = vec![
        case(RunOutcome::GroundContact, 5),
        case(RunOutcome::Complete, -3),
        case(RunOutcome::Aborted, 10),
        case(RunOutcome::RecoveryIncomplete, 1),
    ];
    assert_eq!(aggregate_value(&cases, 2, AggregateId::Nominal), Ok(5));
    assert_eq!(aggregate_value(&cases, 2, AggregateId::Minimum), Ok(-3));
    assert_eq!(aggregate_value(&cases, 2, AggregateId::Maximum), Ok(10));
    assert_eq!(aggregate_value(&cases, 2, AggregateId::Mean), Ok(3));
    assert_eq!(aggregate_value(&cases, 2, AggregateId::Quantile95), Ok(10));
    assert_eq!(aggregate_value(&cases, 2, AggregateId::FailureRate), Ok(500_000));
}

#[test]
fn the_mean_rounds_half_away_from_zero() {
    let cases = vec![case(RunOutcome::Complete, -1), case(RunOutcome::Complete, -2)];
    assert_eq!(aggregate_value(&cases, 2, AggregateId::Mean), Ok(-2));
    let cases = vec![case(RunOutcome::Complete, 1), case(RunOutcome::Complete, 2)];
    assert_eq!(aggregate_value(&cases, 2, AggregateId::Mean), Ok(2));
}

#[test]
fn the_95th_percentile_of_twenty_cases_is_the_nineteenth() {
    let cases: Vec<CaseEvidence> = (0..20)
        .rev()
        .map(|v| case(RunOutcome::Complete, v * 10))
        .collect();
    assert_eq!(aggregate_value(&cases, 2, AggregateId::Quantile95), Ok(180));
}

#[test]
fn a_missing_metric_fails_the_aggregate() {
    let mut c = case(RunOutcome::Complete, 4);
    c.valid = 0x1fff & !(1 << 2);
    let cases = vec![case(RunOutcome::Complete, 1), c];
    assert_eq!(
        aggregate_value(&cases, 2, AggregateId::FailureRate),
        Err(Phase9EvaluationError::Metric)
    );
    assert_eq!(cases[1].metric(2), None);
    assert_eq!(cases[0].metric(2), Some(1));
}

#[test]
fn fatal_classes_rank_outcomes() {
    assert_eq!(fatal_class(RunOutcome::GroundContact), 0);
    assert_eq!(fatal_class(RunOutcome::ModelEnvelopeExceeded), 2);
    assert_eq!(fatal_class(RunOutcome::StepLimit), 3);
    assert_eq!(fatal_class(RunOutcome::NumericFault), 6);
}

#[test]
fn constraints_decide_feasibility() {
    let cases = vec![case(RunOutcome::Complete, 1), case(RunOutcome::GroundContact, 2)];
    let met = vec![ConstraintCheck {
        op: ConstraintOp::AtLeast,
        threshold: 1,
        scale: 1,
        value: 1,
    }];
    let a = assess_candidate(&cases, &met);
    assert!(a.feasible);
    assert_eq!(a.fatal_class, 0);
    assert_eq!(a.violated_constraints, 0);
    let mut bytes = Vec::new();
    bytes.extend_from_slice(&1u32.to_le_bytes());
    bytes.extend_from_slice(&2u32.to_le_bytes());
    assert_eq!(a.case_crc, crc32fast::hash(&bytes));
    let missed = vec![
        ConstraintCheck {
            op: ConstraintOp::AtMost,
            threshold: 0,
            scale: 2,
            value: 3,
        },
        ConstraintCheck {
            op: ConstraintOp::Equal,
            threshold: 5,
            scale: 0,
            value: 4,
        },
    ];
    let b = assess_candidate(&cases, &missed);
    assert!(!b.feasible);
    assert_eq!(b.violated_constraints, 2);
    assert_eq!(b.normalized_violation, 1_500_000 + 1_000_000);
    let failing = vec![case(RunOutcome::Aborted, 0)];
    assert!(!assess_candidate(&failing, &met).feasible);
    assert_eq!(assess_candidate(&failing, &met).fatal_class, 4);
}

#[test]
fn duplicate_collapse_is_first_occurrence_ordered() {
    let a = design(&[1_000_000, 200 << 13, 7]);
    let (u, r) = collapse_duplicates(vec![a, a]);
    assert_eq!(u.len(), 1);
    assert_eq!(r, vec![0, 0])
}

#[test]
fn collapse_keeps_distinct_designs_in_input_order() {
    let a = design(&[1, 2]);
    let b = design(&[1, 3]);
    let mut c = design(&[1, 2]);
    c.identity = 77;
    let mut d = design(&[1, 2]);
    d.materialized_ids = [9, 9, 9, 9];
    let (u, r) = collapse_duplicates(vec![b, a, c, d, b]);
    assert_eq!(u, vec![b, a, d]);
    assert_eq!(r, vec![0, 1, 1, 2, 0]);
}

use ksa64_host::study::{unsealed_design, value_for, VariableSpec};

fn spec(id: u16, minimum: i32, maximum: i32, quantum: u32) -> VariableSpec {
    VariableSpec { id, range: VariableRange { minimum, maximum, quantum } }
}

#[test]
fn designs_quantize_settle_ballast_and_identify_models() {
    let variables = [spec(1, 0, 1_000, 10), spec(2, -50, 50, 5), spec(3, 0, 100, 7)];
    let mut values = [0i32; 32];
    values[0] = 3;
    values[1] = 12;
    values[2] = 50;
    values[5] = 99;
    let d = unsealed_design(0xabcd, &variables, values, 1, 2);
    assert_eq!(d.identity, 0);
    assert_eq!(d.value_count, 3);
    assert_eq!(&d.values[..3], &[0, -50, 49]);
    assert_eq!(d.values[5], 99);
    let mut bytes = 0xabcdu32.to_le_bytes().to_vec();
    for v in &d.values[..3] {
        bytes.extend_from_slice(&v.to_le_bytes());
    }
    for slot in 0..4u32 {
        let mut b = bytes.clone();
        b.extend_from_slice(&(slot + 1).to_le_bytes());
        assert_eq!(d.materialized_ids[slot as usize], crc32fast::hash(&b));
    }
    values[0] = 500;
    let heavy = unsealed_design(0xabcd, &variables, values, 1, 2);
    assert_eq!(&heavy.values[..3], &[500, 10, 49]);
    assert_eq!(value_for(&variables, &heavy, 2, -1), 10);
    assert_eq!(value_for(&variables, &heavy, 9, -1), -1);
}

use ksa64_host::study::case_checksum;

#[test]
fn case_checksums_cover_outcome_identity_and_chains() {
    let chains = [0x1111_2222u32, 0x3333_4444, 5];
    let mut bytes = [0u8; 64];
    bytes[0] = 2;
    bytes[4..8].copy_from_slice(&0xfeed_beefu32.to_le_bytes());
    for (i, c) in chains.iter().enumerate() {
        bytes[8 + i * 4..12 + i * 4].copy_from_slice(&c.to_le_bytes());
    }
    assert_eq!(case_checksum(2, 0xfeed_beef, &chains), crc32fast::hash(&bytes));
    assert_ne!(case_checksum(3, 0xfeed_beef, &chains), crc32fast::hash(&bytes));
}
