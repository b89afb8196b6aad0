use ksa64_host::pace::{
    remaining_frame_micros, BridgeEvidence, PaceController, PaceRate, PaceRelease, RunnerPace,
};

#[test]
fn rates_step_through_the_ladder() {
    assert_eq!(PaceRate::Quarter.faster(), PaceRate::Half);
    assert_eq!(PaceRate::Double.faster(), PaceRate::Max);
    assert_eq!(PaceRate::Max.faster(), PaceRate::Max);
    assert_eq!(PaceRate::Max.slower(), PaceRate::Double);
    assert_eq!(PaceRate::Quarter.slower(), PaceRate::Quarter);
    assert_eq!(PaceRate::Realtime.label(), "1x");
    assert_eq!(PaceRate::Max.label(), "MAX");
}

#[test]
fn faster_halves_the_release_period() {
    assert_eq!(PaceRate::Realtime.frame_duration(), Some(31_250));
    assert_eq!(PaceRate::Double.frame_duration(), Some(15_625));
    assert_eq!(PaceRate::Quarter.frame_duration(), Some(125_000));
    assert_eq!(PaceRate::Max.frame_duration(), None);
}

#[test]
fn a_stepped_run_holds_until_a_step_is_granted() {
    let mut c = PaceController::new(RunnerPace::Step);
    assert!(c.snapshot().paused);
    assert_eq!(c.try_release(), PaceRelease::Hold);
    c.step();
    c.step();
    assert_eq!(c.try_release(), PaceRelease::Release(PaceRate::Realtime));
    assert_eq!(c.try_release(), PaceRelease::Release(PaceRate::Realtime));
    assert_eq!(c.try_release(), PaceRelease::Hold);
    c.resume();
    c.faster();
    assert_eq!(c.try_release(), PaceRelease::Release(PaceRate::Double));
}

#[test]
fn cancellation_stops_every_release() {
    let mut c = PaceController::new(RunnerPace::Fast);
    assert_eq!(c.snapshot().rate, PaceRate::Max);
    c.cancel();
    c.toggle_pause();
    c.set_rate(PaceRate::Half);
    assert_eq!(c.try_release(), PaceRelease::Cancelled);
    assert!(c.snapshot().cancelled);
}

#[test]
fn pausing_twice_is_no_pause() {
    let mut c = PaceController::new(RunnerPace::Realtime);
    let before = c;
    c.toggle_pause();
    c.toggle_pause();
    assert_eq!(c, before);
}

#[test]
fn the_wait_is_what_remains_of_the_period() {
    assert_eq!(remaining_frame_micros(PaceRate::Realtime, 1_000, 11_000), 21_250);
    assert_eq!(remaining_frame_micros(PaceRate::Realtime, 1_000, 40_000), 0);
    assert_eq!(remaining_frame_micros(PaceRate::Max, 0, 0), 0);
}

#[test]
fn bridge_evidence_is_a_plain_record() {
    let e = BridgeEvidence {
        fast_epochs: 1,
        mission_steps: 2,
        terminal_position_q12: [1, 2, 3],
        terminal_velocity_q24: [4, 5, 6],
        navigation_position_q12: [7, 8, 9],
        navigation_velocity_q24: [1, 1, 1],
        flight_checksum: 3,
        final_flight_checksum: 4,
        navigation_checksum: 5,
        deadline_misses: 0,
        alarms: 0,
    };
    assert_eq!(e, e.clone());
}

use ksa64_host::pace::{MissionControlTranscript, MC_ALARM_CODEC, MC_ALARM_GROUND};

#[test]
fn mission_control_transcript_counts_and_hashes_cells() {
    let mut t = MissionControlTranscript::new();
    assert_eq!(t.transcript_checksum, 0x811c_9dc5);
    t.world_cell(Some(b"ab"));
    t.flight_cell(Some(b"c"));
    t.world_cell(None);
    t.ground_refused();
    let mut expected = 0x811c_9dc5u32;
    for b in b"abc" {
        expected = (expected ^ *b as u32).wrapping_mul(16_777_619);
    }
    assert_eq!(t.transcript_checksum, expected);
    assert_eq!(t.world_cells, 1);
    assert_eq!(t.flight_cells, 1);
    assert_eq!(t.alarms, MC_ALARM_CODEC | MC_ALARM_GROUND);
}

#[test]
fn k_steps_grant_exactly_k_releases() {
    let mut c = ksa64_host::pace::PaceController::new(ksa64_host::pace::RunnerPace::Realtime);
    for _ in 0..3 {
        c.step();
    }
    assert!(c.snapshot().paused);
    for _ in 0..3 {
        assert_eq!(
            c.try_release(),
            ksa64_host::pace::PaceRelease::Release(ksa64_host::pace::PaceRate::Realtime)
        );
    }
    assert_eq!(c.try_release(), ksa64_host::pace::PaceRelease::Hold);
}
