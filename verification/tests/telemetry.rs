use ksa64_host::telemetry::{phase3_frame_count, Phase3FramingError};
use ksa64_host::telemetry::{WriterPhase2TelemetrySink, WriterPhase3TelemetrySink};

#[test]
fn sinks_count_what_was_written() {
    let mut sink = WriterPhase2TelemetrySink::new(Vec::<u8>::new());
    assert_eq!(sink.frames_written(), 0);
    assert_eq!(sink.bytes_written(), 0);
    sink.writer().extend_from_slice(&[0; 64]);
    sink.header_written(64);
    sink.writer().extend_from_slice(&[1; 32]);
    sink.frame_written(32);
    sink.frame_written(32);
    assert_eq!(sink.frames_written(), 2);
    assert_eq!(sink.bytes_written(), 128);
    assert_eq!(sink.into_writer().len(), 96);
    let mut three = WriterPhase3TelemetrySink::new(0u8);
    three.frame_written(10);
    *three.writer() = 4;
    assert_eq!(three.frames_written(), 1);
    assert_eq!(three.bytes_written(), 10);
    assert_eq!(three.into_writer(), 4);
}

use ksa64_host::telemetry::{
    check_phase2_frames, check_phase3_frames, Phase2FrameError, Phase2FrameFacts,
    Phase2FrameSummary, Phase2StreamRules, Phase3FrameFacts, Phase3ScanState,
    Phase3SemanticError, Phase3StreamRules,
};

const UNIT_Q16: i32 = 65_536;
const END: u16 = 0x8000;

fn sensor_frame(step: u32, events: u16, mode: u8, event_record: bool, terminal: bool) -> Phase3FrameFacts {
    Phase3FrameFacts {
        step,
        mission_time_q16: step as i32 * UNIT_Q16,
        truth_checksum: 0x811c_9dc5,
        events,
        mode,
        terminal,
        event_record,
        sensor_checksum_matches: true,
        sensor_frame_crc_matches: true,
        engine_matches_phase: true,
    }
}

fn sensor_rules() -> Phase3StreamRules {
    Phase3StreamRules {
        steps: 4,
        timestep_q16: UNIT_Q16,
        telemetry_stride: 2,
        end_event: END,
        initial_checksum: 0x811c_9dc5,
        steering_stuck: false,
    }
}

fn sensor_stream() -> Vec<Phase3FrameFacts> {
    vec![
        sensor_frame(0, 0, 0, false, false),
        sensor_frame(2, 0, 0, false, false),
        sensor_frame(3, 1, 1, true, false),
        sensor_frame(4, END, 1, false, true),
    ]
}

#[test]
fn sensor_stream_checks_count_event_and_terminal_frames() {
    let r = check_phase3_frames(&sensor_stream(), &sensor_rules());
    assert_eq!(
        r,
        Ok(Phase3ScanState {
            prior_step: 4,
            prior_mode: Some(1),
            event_frames: 1,
            terminal_frames: 1,
            final_step: 4,
        })
    );
}

#[test]
fn sensor_stream_checks_name_the_first_failing_frame() {
    let mut off_cadence = sensor_stream();
    off_cadence[1] = sensor_frame(1, 0, 0, false, false);
    assert_eq!(
        check_phase3_frames(&off_cadence, &sensor_rules()),
        Err((1, Phase3SemanticError::Cadence))
    );

    let mut repeated = sensor_stream();
    repeated[2] = sensor_frame(2, 1, 1, true, false);
    assert_eq!(
        check_phase3_frames(&repeated, &sensor_rules()),
        Err((2, Phase3SemanticError::StepOrder))
    );

    let mut bare_marker = sensor_stream();
    bare_marker[2] = sensor_frame(3, 0, 0, true, false);
    assert_eq!(
        check_phase3_frames(&bare_marker, &sensor_rules()),
        Err((2, Phase3SemanticError::EventMarker))
    );

    let mut late_clock = sensor_stream();
    late_clock[1].mission_time_q16 += 1;
    assert_eq!(
        check_phase3_frames(&late_clock, &sensor_rules()),
        Err((1, Phase3SemanticError::MissionTime))
    );

    let mut bad_crc = sensor_stream();
    bad_crc[3].sensor_frame_crc_matches = false;
    assert_eq!(
        check_phase3_frames(&bad_crc, &sensor_rules()),
        Err((3, Phase3SemanticError::SensorFrameChecksum))
    );

    let mut wrong_start = sensor_stream();
    wrong_start[0].truth_checksum = 1;
    assert_eq!(
        check_phase3_frames(&wrong_start, &sensor_rules()),
        Err((0, Phase3SemanticError::InitialFrame))
    );
}

#[test]
fn sensor_stream_must_end_once_and_on_the_last_step() {
    let unfinished = &sensor_stream()[..3];
    assert_eq!(
        check_phase3_frames(unfinished, &sensor_rules()),
        Err((2, Phase3SemanticError::MissingTerminal))
    );

    let mut early = sensor_stream();
    early[3] = sensor_frame(3, END, 1, false, true);
    early.remove(2);
    assert_eq!(
        check_phase3_frames(&early, &sensor_rules()),
        Err((2, Phase3SemanticError::SuccessfulEndStep))
    );
    let stuck = Phase3StreamRules { steering_stuck: true, ..sensor_rules() };
    assert_eq!(check_phase3_frames(&early, &stuck).map(|s| s.final_step), Ok(3));
}

fn planar_frame(step: u32, events: u32) -> Phase2FrameFacts {
    Phase2FrameFacts {
        step,
        time_raw: 100 * step as i32,
        events,
        active_stage: 0,
        state_checksum: 7,
        numeric_ok: true,
        matches_initial_truth: true,
    }
}

fn planar_rules() -> Phase2StreamRules {
    Phase2StreamRules {
        steps: 4,
        timestep_raw: 100,
        telemetry_stride: 2,
        initial_checksum: 7,
        end_event: 0x80,
        ignition_event: 1,
        cutoff_event: 2,
        separation_event: 4,
        impact_event: 8,
    }
}

#[test]
fn planar_stream_checks_count_each_event() {
    let frames = vec![planar_frame(0, 0), planar_frame(2, 1), planar_frame(4, 0x82)];
    assert_eq!(
        check_phase2_frames(&frames, &planar_rules()),
        Ok(Phase2FrameSummary {
            ignition_event_frames: 1,
            cutoff_event_frames: 1,
            separation_event_frames: 0,
            impact_event_frames: 0,
            final_step: 4,
            final_events: 0x82,
        })
    );
    let impact = vec![planar_frame(0, 0), planar_frame(3, 0x88)];
    assert_eq!(
        check_phase2_frames(&impact, &planar_rules()).map(|s| s.impact_event_frames),
        Ok(1)
    );
}

#[test]
fn planar_stream_checks_refuse_each_fault() {
    let rules = planar_rules();
    assert_eq!(check_phase2_frames(&[], &rules), Err(Phase2FrameError::Empty));
    assert_eq!(
        check_phase2_frames(&[planar_frame(0, 0), planar_frame(3, 0), planar_frame(4, 0x80)], &rules),
        Err(Phase2FrameError::Stride { index: 1 })
    );
    let mut noisy = planar_frame(2, 0);
    noisy.numeric_ok = false;
    assert_eq!(
        check_phase2_frames(&[planar_frame(0, 0), noisy, planar_frame(4, 0x80)], &rules),
        Err(Phase2FrameError::NumericRange { index: 1 })
    );
    assert_eq!(
        check_phase2_frames(&[planar_frame(0, 0), planar_frame(2, 0x80), planar_frame(4, 0x80)], &rules),
        Err(Phase2FrameError::TerminalBeforeEnd { index: 1 })
    );
    assert_eq!(
        check_phase2_frames(&[planar_frame(0, 0), planar_frame(6, 0x80)], &rules),
        Err(Phase2FrameError::StepRange { index: 1 })
    );
    assert_eq!(
        check_phase2_frames(&[planar_frame(0, 0), planar_frame(2, 0)], &rules),
        Err(Phase2FrameError::MissingTerminal)
    );
    assert_eq!(
        check_phase2_frames(&[planar_frame(0, 0), planar_frame(2, 0x80)], &rules),
        Err(Phase2FrameError::SuccessfulEndStep)
    );
    assert_eq!(
        check_phase2_frames(&[planar_frame(2, 0), planar_frame(4, 0x80)], &rules),
        Err(Phase2FrameError::InitialFrame)
    );
}

use ksa64_host::telemetry::{
    check_phase5_frames, phase5_frame_count, Phase5FrameError, Phase5FrameFacts,
    Phase5FrameSummary, Phase5StreamRules, PHASE5_CHAINED_BYTES,
};

const HEADER: usize = 8;
const FRAME: usize = 420;

fn fnv_continue(mut h: u32, bytes: &[u8]) -> u32 {
    for b in bytes {
        h = (h ^ *b as u32).wrapping_mul(16_777_619);
    }
    h
}

fn closed_loop_stream(frames: usize) -> (Vec<u8>, Vec<Phase5FrameFacts>) {
    let stream: Vec<u8> = (0..HEADER + frames * FRAME).map(|i| (i * 31 % 251) as u8).collect();
    let mut chain = 2_166_136_261u32;
    let mut facts = Vec::new();
    for index in 0..frames {
        let start = HEADER + index * FRAME;
        chain = fnv_continue(chain, &stream[start..start + PHASE5_CHAINED_BYTES]);
        let events = if index == 1 { 8 } else { 0 };
        facts.push(Phase5FrameFacts {
            step: index as u32,
            mission_time_q16: 1_000 * index as i32,
            events,
            terminal: index + 1 == frames,
            event_record: events != 0,
            event_flag: events != 0,
            observation_checksum: chain,
        });
    }
    (stream, facts)
}

const CLOSED_LOOP: Phase5StreamRules = Phase5StreamRules { mission_steps: 10, step_q16: 1_000 };

#[test]
fn closed_loop_frames_chain_their_observations() {
    let (stream, facts) = closed_loop_stream(3);
    assert_eq!(phase5_frame_count(stream.len(), HEADER, FRAME), Ok(3));
    let r = check_phase5_frames(&stream, HEADER, FRAME, &facts, &CLOSED_LOOP);
    assert_eq!(
        r,
        Ok(Phase5FrameSummary { event_frames: 1, chain: facts[2].observation_checksum })
    );
}

#[test]
fn closed_loop_frames_refuse_each_fault() {
    assert_eq!(phase5_frame_count(HEADER + FRAME + 1, HEADER, FRAME), Err(Phase5FrameError::Framing));
    assert_eq!(phase5_frame_count(HEADER - 1, HEADER, FRAME), Err(Phase5FrameError::Framing));
    assert_eq!(phase5_frame_count(HEADER, HEADER, FRAME), Err(Phase5FrameError::Empty));

    let (stream, facts) = closed_loop_stream(3);
    let mut damaged = stream.clone();
    damaged[HEADER + FRAME + 5] ^= 1;
    assert_eq!(
        check_phase5_frames(&damaged, HEADER, FRAME, &facts, &CLOSED_LOOP),
        Err(Phase5FrameError::Checksum { index: 1 })
    );
    let mut tail = stream.clone();
    tail[HEADER + FRAME + PHASE5_CHAINED_BYTES] ^= 1;
    assert!(check_phase5_frames(&tail, HEADER, FRAME, &facts, &CLOSED_LOOP).is_ok());

    let mut skipped = facts.clone();
    skipped[2].step = 3;
    assert_eq!(
        check_phase5_frames(&stream, HEADER, FRAME, &skipped, &CLOSED_LOOP),
        Err(Phase5FrameError::Step { index: 2 })
    );
    let mut late = facts.clone();
    late[1].mission_time_q16 += 1;
    assert_eq!(
        check_phase5_frames(&stream, HEADER, FRAME, &late, &CLOSED_LOOP),
        Err(Phase5FrameError::Time { index: 1 })
    );
    let mut early_end = facts.clone();
    early_end[1].terminal = true;
    assert_eq!(
        check_phase5_frames(&stream, HEADER, FRAME, &early_end, &CLOSED_LOOP),
        Err(Phase5FrameError::Terminal)
    );
    let mut unflagged = facts.clone();
    unflagged[1].event_record = false;
    assert_eq!(
        check_phase5_frames(&stream, HEADER, FRAME, &unflagged, &CLOSED_LOOP),
        Err(Phase5FrameError::Flags { index: 1 })
    );
    let mut busy_start = facts.clone();
    busy_start[0].events = 1;
    busy_start[0].event_record = true;
    assert_eq!(
        check_phase5_frames(&stream, HEADER, FRAME, &busy_start, &CLOSED_LOOP),
        Err(Phase5FrameError::Initial)
    );
    let saturated = Phase5StreamRules { mission_steps: 10, step_q16: i32::MAX };
    let mut held = facts.clone();
    held[0].mission_time_q16 = 0;
    held[1].mission_time_q16 = i32::MAX;
    held[2].mission_time_q16 = i32::MAX;
    assert!(check_phase5_frames(&stream, HEADER, FRAME, &held, &saturated).is_ok());
}

use ksa64_host::fnv::mix_words;
use ksa64_host::telemetry::CaptureCadence;

#[test]
fn capture_cadence_writes_first_event_and_due_frames() {
    let mut c = CaptureCadence { next_time_raw: 0, period_raw: 100 };
    assert!(c.observe(0, 0, 0));
    assert_eq!(c.next_time_raw, 100);
    assert!(!c.observe(1, 0, 50));
    assert_eq!(c.next_time_raw, 100);
    assert!(c.observe(2, 0, 100));
    assert_eq!(c.next_time_raw, 200);
    assert!(c.observe(3, 4, 130));
    assert_eq!(c.next_time_raw, 200);
    assert!(c.observe(4, 0, 450));
    assert_eq!(c.next_time_raw, 500);
    let mut ahead = CaptureCadence { next_time_raw: 1_000, period_raw: 10 };
    assert!(ahead.observe(5, 1, 20));
    assert_eq!(ahead.next_time_raw, 1_000);
}

#[test]
fn snapshot_words_mix_whole_words() {
    let words = [5i32, -1, 0x1234_5678];
    let mut expected = 0x811c_9dc5u32;
    for w in words {
        expected = (expected ^ w as u32).wrapping_mul(16_777_619);
    }
    assert_eq!(mix_words(0x811c_9dc5, &words), expected);
    assert_eq!(mix_words(7, &[]), 7);
}

use ksa64_host::telemetry::{encode_phase3_replay, ReplayFrame};

#[test]
fn replays_seal_their_header_and_each_frame() {
    let frames = [
        ReplayFrame { step: 0, altitude_q12: 0, downrange_q32: 0, applied_pitch: 0, mode: 1, active_stage: 0, events: 0, alarms: 0 },
        ReplayFrame { step: 8, altitude_q12: -3, downrange_q32: 77, applied_pitch: 0x1234, mode: 2, active_stage: 1, events: 0x8001, alarms: 4 },
    ];
    let r = encode_phase3_replay(0xaaaa_bbbb, 0x1122_3344, 0x5566_7788, &frames);
    assert_eq!(r.len(), 32 + 2 * 24);
    assert_eq!(&r[0..4], b"KRP3");
    assert_eq!(&r[4..12], &[3, 0, 32, 0, 24, 0, 0, 0]);
    assert_eq!(&r[12..16], &0xaaaa_bbbbu32.to_le_bytes());
    assert_eq!(&r[24..28], &2u32.to_le_bytes());
    assert_eq!(&r[28..32], &crc32fast::hash(&r[..28]).to_le_bytes());
    let f = &r[56..80];
    assert_eq!(&f[0..4], &8u32.to_le_bytes());
    assert_eq!(&f[4..8], &(-3i32).to_le_bytes());
    assert_eq!(&f[12..16], &[0x34, 0x12, 2, 1]);
    assert_eq!(&f[16..20], &[0x01, 0x80, 4, 0]);
    assert_eq!(&f[20..24], &crc32fast::hash(&f[..20]).to_le_bytes());
}

#[test]
fn sinks_count_headers_and_frames_in_any_order() {
    let mut sink = WriterPhase3TelemetrySink::new(vec![7u8]);
    sink.frame_written(40);
    sink.header_written(96);
    sink.frame_written(40);
    sink.frame_written(40);
    assert_eq!(sink.frames_written(), 3);
    assert_eq!(sink.bytes_written(), 96 + 3 * 40);
    assert_eq!(sink.into_writer(), vec![7u8]);
}

#[test]
fn sensor_streams_are_whole_frames_after_the_header() {
    assert_eq!(phase3_frame_count(64 + 3 * 40, 64, 40), Ok(3));
    assert_eq!(phase3_frame_count(64, 64, 40), Err(Phase3FramingError::Empty));
    assert_eq!(phase3_frame_count(63, 64, 40), Err(Phase3FramingError::Framing));
    assert_eq!(phase3_frame_count(64 + 41, 64, 40), Err(Phase3FramingError::Framing));
}
