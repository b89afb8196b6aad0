use ksa64_host::campaign::{
    aggregate_hobby_campaign, aggregate_phase85_campaign, aggregate_spatial_campaign,
    uniform_i32, AvionicsRunSummary, HobbyRunSummary, SpatialRunSummary,
};
use ksa64_host::study::RunOutcome;

#[test]
fn uniform_draws_span_the_range() {
    assert_eq!(uniform_i32(0, -12, 12), -12);
    assert_eq!(uniform_i32(u32::MAX, -12, 12), 12);
    assert_eq!(uniform_i32(0x8000_0000, 0, 4), 2);
    assert_eq!(uniform_i32(0x4000_0000, 900_000, 1_100_000), 950_000);
}

#[test]
fn a_hobby_campaign_aggregates_its_runs() {
    let runs = vec![
        HobbyRunSummary {
            outcome: RunOutcome::GroundContact,
            apogee_raw: Some(100),
            impact_velocity_raw: Some(7),
            record: vec![1, 2],
        },
        HobbyRunSummary {
            outcome: RunOutcome::RecoveryIncomplete,
            apogee_raw: Some(-5),
            impact_velocity_raw: None,
            record: vec![3],
        },
        HobbyRunSummary {
            outcome: RunOutcome::GroundContact,
            apogee_raw: Some(50),
            impact_velocity_raw: Some(9),
            record: vec![],
        },
    ];
    let a = aggregate_hobby_campaign(&runs);
    assert_eq!(a.runs, 3);
    assert_eq!(a.successful_recoveries, 2);
    assert_eq!(a.minimum_apogee_raw, -5);
    assert_eq!(a.maximum_apogee_raw, 100);
    assert_eq!(a.mean_apogee_raw, 48);
    assert_eq!(a.minimum_impact_velocity_raw, 0);
    assert_eq!(a.maximum_impact_velocity_raw, 9);
    assert_eq!(a.records_crc32, crc32fast::hash(&[1, 2, 3]));
}

#[test]
fn the_mean_rounds_toward_zero() {
    let runs = vec![
        HobbyRunSummary {
            outcome: RunOutcome::Complete,
            apogee_raw: Some(-1),
            impact_velocity_raw: Some(0),
            record: vec![],
        },
        HobbyRunSummary {
            outcome: RunOutcome::Complete,
            apogee_raw: Some(-2),
            impact_velocity_raw: Some(0),
            record: vec![],
        },
    ];
    assert_eq!(aggregate_hobby_campaign(&runs).mean_apogee_raw, -1);
}

#[test]
fn a_spatial_campaign_counts_outcomes_and_extremes() {
    let runs = vec![
        SpatialRunSummary {
            outcome: RunOutcome::GroundContact,
            apogee_raw: Some(10),
            landing_distance_raw: Some(-4),
            max_dynamic_pressure_raw: Some(30),
            record: vec![9],
        },
        SpatialRunSummary {
            outcome: RunOutcome::ModelEnvelopeExceeded,
            apogee_raw: None,
            landing_distance_raw: Some(12),
            max_dynamic_pressure_raw: None,
            record: vec![8, 7],
        },
    ];
    let a = aggregate_spatial_campaign(&runs);
    assert_eq!(a.runs, 2);
    assert_eq!(a.ground_contacts, 1);
    assert_eq!(a.model_envelope_exceeded, 1);
    assert_eq!(a.minimum_apogee_raw, 0);
    assert_eq!(a.maximum_apogee_raw, 10);
    assert_eq!(a.mean_apogee_raw, 5);
    assert_eq!(a.maximum_landing_distance_raw, 12);
    assert_eq!(a.maximum_dynamic_pressure_raw, 30);
    assert_eq!(a.records_crc32, crc32fast::hash(&[9, 8, 7]));
}

#[test]
fn an_avionics_campaign_counts_alarms_and_saturation() {
    let run = |outcome, alarms, saturation_count, nav, att| AvionicsRunSummary {
        outcome,
        alarms,
        saturation_count,
        max_navigation_error_q13: nav,
        max_attitude_error_turn16: att,
        record: vec![outcome as u8],
    };
    let runs = vec![
        run(RunOutcome::Complete, 0, 0, -5, -3),
        run(RunOutcome::GroundContact, 8, 0, 40, 2),
        run(RunOutcome::RecoveryIncomplete, 0, 3, 10, 9),
        run(RunOutcome::ModelEnvelopeExceeded, 1, 1, 0, 0),
    ];
    let a = aggregate_phase85_campaign(&runs);
    assert_eq!(a.runs, 4);
    assert_eq!(a.completed, 2);
    assert_eq!(a.recovery_incomplete, 1);
    assert_eq!(a.model_envelope_exceeded, 1);
    assert_eq!(a.alarmed, 2);
    assert_eq!(a.saturated, 2);
    assert_eq!(a.maximum_navigation_error_q13, 40);
    assert_eq!(a.maximum_attitude_error_turn16, 9);
    let empty = aggregate_phase85_campaign(&[]);
    assert_eq!(empty.runs, 0);
    assert_eq!(empty.records_crc32, crc32fast::hash(&[]));
}

use ksa64_host::campaign::{runs_complete, worker_run_indices};

#[test]
fn workers_share_every_run_exactly_once() {
    assert_eq!(worker_run_indices(0, 3, 10), vec![0, 3, 6, 9]);
    assert_eq!(worker_run_indices(1, 3, 10), vec![1, 4, 7]);
    assert_eq!(worker_run_indices(2, 3, 10), vec![2, 5, 8]);
    assert_eq!(worker_run_indices(2, 4, 2), Vec::<u32>::new());
    assert_eq!(worker_run_indices(5, 0x8000_0000, u32::MAX), vec![5, 0x8000_0005]);
    for workers in 1..=7usize {
        let mut all: Vec<u32> = (0..workers).flat_map(|w| worker_run_indices(w, workers, 20)).collect();
        assert!(runs_complete(&all, 20));
        all.sort_unstable();
        assert_eq!(all, (0..20).collect::<Vec<u32>>());
    }
}

#[test]
fn gathered_runs_must_be_each_run_once() {
    assert!(runs_complete(&[2, 0, 1], 3));
    assert!(runs_complete(&[], 0));
    assert!(!runs_complete(&[0, 0, 2], 3));
    assert!(!runs_complete(&[0, 1], 3));
    assert!(!runs_complete(&[0, 1, 3], 3));
}

use ksa64_host::campaign::{derive_avionics_case, AvionicsVariation};

fn nominal() -> AvionicsVariation {
    AvionicsVariation {
        seed: 0,
        imu_delta_bias: [0; 3],
        gyro_bias: [0; 3],
        gps_position_bias_q13: [0; 3],
        gps_velocity_bias_q19: [0; 3],
        barometer_bias_q13: 0,
        sensor_noise_scale: 0,
        aid_delay_epochs: 0,
        clock_drift_ppm: 0,
        deployment_actuation_delay_epochs: 0,
        barometer_dropout_start: 0,
        barometer_dropout_epochs: 0,
        gps_dropout_start: 0,
        gps_dropout_epochs: 0,
        link_dropout_start: 0,
        link_dropout_epochs: 0,
    }
}

fn uniform(word: u32, minimum: i32, maximum: i32) -> i32 {
    let span = (maximum as i64 - minimum as i64 + 1) as u64;
    minimum + ((word as u64 * span) >> 32) as i32
}

#[test]
fn avionics_cases_are_drawn_from_the_keyed_words() {
    let mut words = [0u32; 23];
    for (i, w) in words.iter_mut().enumerate() {
        *w = (i as u32 + 1).wrapping_mul(0x9e37_79b9);
    }
    words[34 - 16] = 0x1234_5600;
    let (v0, a0, c0) = derive_avionics_case(0, nominal(), &words);
    assert_eq!((v0, a0, c0), (nominal(), [0; 4], 0));
    let (v, a, c) = derive_avionics_case(3, nominal(), &words);
    assert_eq!(v.seed, words[0]);
    assert_eq!(v.imu_delta_bias[1], uniform(words[2], -12, 12) as i16);
    assert_eq!(v.gps_position_bias_q13[2], uniform(words[10], -50 << 13, 50 << 13));
    assert_eq!(v.barometer_bias_q13, uniform(words[7], -25 << 13, 25 << 13));
    assert_eq!(v.deployment_actuation_delay_epochs, uniform(words[17], 0, 4) as u8);
    assert_eq!(a, [uniform(words[19], -1, 1), uniform(words[20], 900_000, 1_100_000), uniform(words[21], 900_000, 1_100_000), uniform(words[22], 900_000, 1_100_000)]);
    let d = words[18];
    assert_eq!(v.barometer_dropout_start, 64 + (d as u16) % 320);
    assert_eq!(v.barometer_dropout_epochs, 4 + ((d >> 16) as u8 & 7));
    assert_eq!(v.gps_dropout_start, 32 + ((d >> 8) as u16) % 256);
    assert_eq!(v.link_dropout_epochs, 1 + ((d >> 28) as u8 & 1));
    assert_eq!(v.link_dropout_start, 48 + ((d >> 12) as u16) % 256);
    let mut bytes = [0u8; 96];
    bytes[0..4].copy_from_slice(&v.seed.to_le_bytes());
    let mut at = 4;
    for raw in v.imu_delta_bias.into_iter().chain(v.gyro_bias) {
        bytes[at..at + 2].copy_from_slice(&raw.to_le_bytes());
        at += 2;
    }
    for raw in v.gps_position_bias_q13.into_iter().chain(v.gps_velocity_bias_q19).chain([v.barometer_bias_q13]).chain(a) {
        bytes[at..at + 4].copy_from_slice(&raw.to_le_bytes());
        at += 4;
    }
    bytes[at..at + 2].copy_from_slice(&v.sensor_noise_scale.to_le_bytes());
    at += 2;
    bytes[at] = v.aid_delay_epochs;
    bytes[at + 1] = v.deployment_actuation_delay_epochs;
    bytes[at + 2..at + 4].copy_from_slice(&v.clock_drift_ppm.to_le_bytes());
    at += 4;
    bytes[at..at + 2].copy_from_slice(&v.barometer_dropout_start.to_le_bytes());
    bytes[at + 2] = v.barometer_dropout_epochs;
    bytes[at + 3] = v.gps_dropout_epochs;
    bytes[at + 4..at + 6].copy_from_slice(&v.gps_dropout_start.to_le_bytes());
    bytes[at + 6..at + 8].copy_from_slice(&v.link_dropout_start.to_le_bytes());
    bytes[at + 8] = v.link_dropout_epochs;
    assert_eq!(c, crc32fast::hash(&bytes));
}

#[test]
fn uniform_draw_spans_the_whole_i32_range_where_the_word_fits() {
    assert_eq!(uniform_i32(0, i32::MIN, i32::MAX), i32::MIN);
    assert_eq!(uniform_i32(0x7fff_ffff, i32::MIN, i32::MAX), -1);
}
